//! The lookup service's request and answer, up to the passage pair.
use vstd::prelude::*;
use crate::err::{BibleLookupError, BibleLookupResult};
use crate::json::Json;
use crate::passage::{Info, Passage, info_of, passage_of};
use crate::text::{chars_of, string_of};

verus! {

/// The Bible version asked for where none is configured.
pub open spec fn default_version() -> Seq<char> {
    "asv"@
}

/// The address that asks the lookup service for `reference` in `version`.
pub open spec fn url_for(reference: Seq<char>, version: Seq<char>) -> Seq<char> {
    "https://getbible.net/json?"@ + "text="@ + reference + "&version="@ + version
}

/// The address that asks the lookup service for `reference`, in `version`
/// or else in the default version.
pub fn lookup_url(reference: &str, version: Option<&str>) -> (r: String)
    ensures
        r@ == url_for(
            reference@,
            match version {
                Some(v) => v@,
                None => default_version(),
            },
        ),
{
    let mut url = String::from_str("https://getbible.net/json?");
    url.append("text=");
    url.append(reference);
    url.append("&version=");
    match version {
        Some(v) => url.append(v),
        None => url.append("asv"),
    }
    url
}

/// The position of the first `(` in `s`, or its length where there is none.
pub open spec fn first_open(s: Seq<char>) -> int
    decreases s.len(),
{
    if s.len() == 0 || s[0] == '(' {
        0
    } else {
        1 + first_open(s.drop_first())
    }
}

/// The position of the last `);` in `s`, or -1 where there is none.
pub open spec fn last_close(s: Seq<char>) -> int
    decreases s.len(),
{
    if s.len() < 2 {
        -1
    } else if s[s.len() - 2] == ')' && s[s.len() - 1] == ';' {
        s.len() - 2
    } else {
        last_close(s.drop_last())
    }
}

/// `s` without the characters `s[i..i + n]`.
pub open spec fn cut(s: Seq<char>, i: int, n: int) -> Seq<char> {
    s.take(i) + s.skip(i + n)
}

/// The body of a callback-wrapped answer `name({...});`: the text with its
/// first `(` removed, then with its last `);` removed.
pub open spec fn unwrapped(s: Seq<char>) -> Seq<char> {
    let t = if first_open(s) < s.len() {
        cut(s, first_open(s), 1)
    } else {
        s
    };
    if last_close(t) >= 0 {
        cut(t, last_close(t), 2)
    } else {
        t
    }
}

/// `s` without the characters `s[i..i + n]`, as a vector.
fn cut_chars(s: &Vec<char>, i: usize, n: usize) -> (r: Vec<char>)
    requires
        i + n <= s@.len(),
    ensures
        r@ == cut(s@, i as int, n as int),
{
    let mut r: Vec<char> = Vec::new();
    let mut j: usize = 0;
    while j < i
        invariant
            i + n <= s@.len(),
            j <= i,
            r@ == s@.take(j as int),
        decreases i - j,
    {
        r.push(s[j]);
        assert(r@ =~= s@.take(j + 1));
        j = j + 1;
    }
    let len = s.len();
    let mut k: usize = i + n;
    while k < s.len()
        invariant
            i + n <= k <= s@.len(),
            r@ == s@.take(i as int) + s@.subrange(i + n, k as int),
        decreases s@.len() - k,
    {
        r.push(s[k]);
        assert(r@ =~= s@.take(i as int) + s@.subrange(i + n, k + 1));
        k = k + 1;
    }
    assert(s@.subrange(i + n, s@.len() as int) =~= s@.skip(i + n));
    r
}

/// The position of the first `(` in `s`, or its length.
fn find_open(s: &Vec<char>) -> (r: usize)
    ensures
        r as int == first_open(s@),
{
    let n = s.len();
    let mut i: usize = 0;
    assert(s@.skip(0) =~= s@);
    while i < n && s[i] != '('
        invariant
            n == s@.len(),
            i <= n,
            first_open(s@) == i + first_open(s@.skip(i as int)),
        decreases n - i,
    {
        assert(s@.skip(i as int).drop_first() =~= s@.skip(i + 1));
        i = i + 1;
    }
    if i == n {
        assert(s@.skip(i as int).len() == 0);
    }
    i
}

/// The position of the last `);` in `s`, if there is one.
fn find_last_close(s: &Vec<char>) -> (r: Option<usize>)
    ensures
        match r {
            Some(b) => b as int == last_close(s@),
            None => last_close(s@) == -1,
        },
{
    let mut m: usize = s.len();
    assert(s@.take(m as int) =~= s@);
    while m >= 2
        invariant
            m <= s@.len(),
            last_close(s@) == last_close(s@.take(m as int)),
        decreases m,
    {
        if s[m - 2] == ')' && s[m - 1] == ';' {
            return Some(m - 2);
        }
        assert(s@.take(m as int).drop_last() =~= s@.take(m - 1));
        m = m - 1;
    }
    None
}

/// Removes the callback wrapper from an answer of the lookup service: the
/// first `(` and the last `);`.
pub fn strip_jsonp(body: &str) -> (r: String)
    ensures
        r@ == unwrapped(body@),
{
    let cs = chars_of(body);
    let a = find_open(&cs);
    let t = if a < cs.len() {
        cut_chars(&cs, a, 1)
    } else {
        cs
    };
    let u = match find_last_close(&t) {
        Some(b) => {
            proof { lemma_last_close_bound(t@); }
            cut_chars(&t, b, 2)
        },
        None => t,
    };
    string_of(&u)
}

/// A `);` found from the end lies within the text.
proof fn lemma_last_close_bound(s: Seq<char>)
    ensures
        last_close(s) >= 0 ==> last_close(s) + 2 <= s.len(),
    decreases s.len(),
{
    if s.len() >= 2 && !(s[s.len() - 2] == ')' && s[s.len() - 1] == ';') {
        lemma_last_close_bound(s.drop_last());
    }
}

/// The passage pair that a lookup answer gives: its info and its verses.
pub fn passage_pair(data: &Json) -> (r: BibleLookupResult<(Info, Passage)>)
    ensures
        match (info_of(*data), passage_of(*data)) {
            (Ok(i), Ok(p)) => r is Ok && r->Ok_0.0@ == i && r->Ok_0.1@ == p,
            (Err(e), _) => r is Err && r->Err_0 == e,
            (Ok(_), Err(e)) => r is Err && r->Err_0 == e,
        },
{
    let info = match Info::new(data) {
        Ok(i) => i,
        Err(e) => {
            return Err(e);
        },
    };
    let passage = match Passage::new(data) {
        Ok(p) => p,
        Err(e) => {
            return Err(e);
        },
    };
    Ok((info, passage))
}

} // verus!
