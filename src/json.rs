//! A parsed JSON document, as the lookup service answers it.
use vstd::prelude::*;

verus! {

/// A JSON number, as much of it as the lookup reads.
#[derive(Debug)]
pub enum Number {
    /// A non-negative integer.
    Unsigned(u64),
    /// A negative integer.
    Negative(i64),
    /// A number with a fraction or an exponent.
    Fractional,
}

/// A JSON value. Object members keep the order in which they were read.
#[derive(Debug)]
pub enum Json {
    Null,
    Bool(bool),
    Number(Number),
    Str(String),
    Array(Vec<Json>),
    Object(Vec<(String, Json)>),
}

/// The value of the first member named `k`, or `Null` where there is none.
pub open spec fn entry_value(entries: Seq<(String, Json)>, k: Seq<char>) -> Json
    decreases entries.len(),
{
    if entries.len() == 0 {
        Json::Null
    } else if entries[0].0@ == k {
        entries[0].1
    } else {
        entry_value(entries.drop_first(), k)
    }
}

/// `j[k]`: the member `k` of an object; `Null` for anything else.
pub open spec fn member(j: Json, k: Seq<char>) -> Json {
    match j {
        Json::Object(es) => entry_value(es@, k),
        _ => Json::Null,
    }
}

/// `j[i]`: the element `i` of an array; `Null` for anything else.
pub open spec fn element(j: Json, i: int) -> Json {
    match j {
        Json::Array(v) => if 0 <= i < v@.len() {
            v@[i]
        } else {
            Json::Null
        },
        _ => Json::Null,
    }
}

/// The string that `j` holds, if it is one.
pub open spec fn as_text(j: Json) -> Option<Seq<char>> {
    match j {
        Json::Str(s) => Some(s@),
        _ => None,
    }
}

/// The member `k` of `j`, where `j` is an object that has one.
pub fn get_member<'a>(j: &'a Json, k: &str) -> (r: Option<&'a Json>)
    ensures
        r is Some ==> *r->0 == member(*j, k@),
        r is None ==> member(*j, k@) == Json::Null,
{
    match j {
        Json::Object(es) => {
            let mut i: usize = 0;
            assert(es@.subrange(0, es@.len() as int) =~= es@);
            while i < es.len()
                invariant
                    i <= es@.len(),
                    member(*j, k@) == entry_value(es@, k@),
                    entry_value(es@, k@) == entry_value(es@.subrange(i as int, es@.len() as int), k@),
                decreases es@.len() - i,
            {
                assert(es@.subrange(i as int, es@.len() as int).drop_first()
                    =~= es@.subrange(i + 1, es@.len() as int));
                if crate::text::same_text(es[i].0.as_str(), k) {
                    assert(es@.subrange(i as int, es@.len() as int)[0] == es@[i as int]);
                    return Some(&es[i].1);
                }
                i = i + 1;
            }
            None
        },
        _ => None,
    }
}

/// The element `i` of `j`, where `j` is an array that long.
pub fn get_element(j: &Json, i: usize) -> (r: Option<&Json>)
    ensures
        r is Some ==> *r->0 == element(*j, i as int),
        r is None ==> element(*j, i as int) == Json::Null,
{
    match j {
        Json::Array(v) => if i < v.len() {
            Some(&v[i])
        } else {
            None
        },
        _ => None,
    }
}

} // verus!
