//! Passages and their descriptive info, read from a lookup answer.
use vstd::prelude::*;
use vstd::relations::sorted_by;
use crate::err::{BibleLookupError, BibleLookupResult};
use crate::json::{Json, Number, member, element, as_text, get_member, get_element};
use crate::text::{decimal, decimal_string, key_number, parse_key_number, push_char, same_text};

verus! {

broadcast use vstd::seq_lib::group_to_multiset_ensures;

/// The two shapes of a lookup answer.
#[derive(Debug, PartialEq, Eq)]
pub enum Shape {
    /// A whole chapter: book, chapter and verses stand in the answer itself.
    Chapter,
    /// Verses: book, chapter and verses stand in `book[0]`.
    Verse,
}

/// The shape that the answer's `type` names, if it names one.
pub open spec fn shape_of(d: Json) -> Option<Shape> {
    match as_text(member(d, "type"@)) {
        Some(t) => if t == "chapter"@ {
            Some(Shape::Chapter)
        } else if t == "verse"@ {
            Some(Shape::Verse)
        } else {
            None
        },
        None => None,
    }
}

/// Where book, chapter number and verses stand in an answer of shape `sh`.
pub open spec fn body_of(d: Json, sh: Shape) -> Json {
    match sh {
        Shape::Chapter => d,
        Shape::Verse => element(member(d, "book"@), 0),
    }
}

/// The value that an optional reference stands for; `Null` for none.
pub open spec fn value_of(o: Option<&Json>) -> Json {
    match o {
        Some(v) => *v,
        None => Json::Null,
    }
}

/// The shape of a lookup answer.
pub fn shape(d: &Json) -> (r: Option<Shape>)
    ensures
        r == shape_of(*d),
{
    match get_member(d, "type") {
        Some(Json::Str(t)) => if same_text(t.as_str(), "chapter") {
            Some(Shape::Chapter)
        } else if same_text(t.as_str(), "verse") {
            Some(Shape::Verse)
        } else {
            None
        },
        _ => None,
    }
}

/// The member `k` of an optional value.
fn field<'a>(j: Option<&'a Json>, k: &str) -> (r: Option<&'a Json>)
    ensures
        value_of(r) == member(value_of(j), k@),
{
    match j {
        Some(v) => get_member(v, k),
        None => None,
    }
}

/// Where book, chapter number and verses stand in an answer of shape `sh`.
fn body<'a>(d: &'a Json, sh: &Shape) -> (r: Option<&'a Json>)
    ensures
        value_of(r) == body_of(*d, *sh),
{
    match sh {
        Shape::Chapter => Some(d),
        Shape::Verse => match get_member(d, "book") {
            Some(b) => get_element(b, 0),
            None => None,
        },
    }
}

/// The string that an optional value holds, if it is one.
fn text_value(o: Option<&Json>) -> (r: Option<String>)
    ensures
        match r {
            Some(s) => as_text(value_of(o)) == Some(s@),
            None => as_text(value_of(o)) is None,
        },
{
    match o {
        Some(Json::Str(s)) => Some(s.clone()),
        _ => None,
    }
}

/// A chapter number as shown: a non-negative integer in decimal, or a string
/// as it stands.
pub open spec fn chapter_label(j: Json) -> Option<Seq<char>> {
    match j {
        Json::Number(Number::Unsigned(n)) => Some(decimal(n as nat)),
        Json::Str(s) => Some(s@),
        _ => None,
    }
}

fn chapter_value(o: Option<&Json>) -> (r: Option<String>)
    ensures
        match r {
            Some(s) => chapter_label(value_of(o)) == Some(s@),
            None => chapter_label(value_of(o)) is None,
        },
{
    match o {
        Some(Json::Number(Number::Unsigned(n))) => Some(decimal_string(*n)),
        Some(Json::Str(s)) => Some(s.clone()),
        _ => None,
    }
}

/// Book name, chapter label and Bible version of a passage.
#[derive(Debug)]
pub struct Info {
    pub book: String,
    pub chapter: String,
    pub version: String,
}

/// What an `Info` holds.
pub struct InfoView {
    pub book: Seq<char>,
    pub chapter: Seq<char>,
    pub version: Seq<char>,
}

impl View for Info {
    type V = InfoView;

    open spec fn view(&self) -> InfoView {
        InfoView { book: self.book@, chapter: self.chapter@, version: self.version@ }
    }
}

/// The info that a lookup answer gives, or why it gives none.
pub open spec fn info_of(d: Json) -> Result<InfoView, BibleLookupError> {
    match shape_of(d) {
        None => Err(BibleLookupError::BadPassageType),
        Some(sh) => {
            let b = body_of(d, sh);
            match (
                as_text(member(b, "book_name"@)),
                chapter_label(member(b, "chapter_nr"@)),
                as_text(member(d, "version"@)),
            ) {
                (Some(book), Some(chapter), Some(version)) => Ok(
                    InfoView { book, chapter, version },
                ),
                _ => Err(BibleLookupError::Parse),
            }
        },
    }
}

/// How an info is shown: `<book> <chapter> (<version>)`.
pub open spec fn info_text(i: InfoView) -> Seq<char> {
    i.book + seq![' '] + i.chapter + seq![' ', '('] + i.version + seq![')']
}

/// Whether `r` is the outcome that `spec_r` describes.
pub open spec fn info_result_is(r: BibleLookupResult<Info>, spec_r: Result<InfoView, BibleLookupError>) -> bool {
    match spec_r {
        Ok(v) => r is Ok && r->Ok_0@ == v,
        Err(e) => r is Err && r->Err_0 == e,
    }
}

impl Info {
    /// Reads book, chapter and Bible version from a lookup answer.
    pub fn new(v: &Json) -> (r: BibleLookupResult<Info>)
        ensures
            info_result_is(r, info_of(*v)),
    {
        let sh = match shape(v) {
            Some(sh) => sh,
            None => {
                return Err(BibleLookupError::BadPassageType);
            },
        };
        let b = body(v, &sh);
        let book = text_value(field(b, "book_name"));
        let chapter = chapter_value(field(b, "chapter_nr"));
        let version = text_value(get_member(v, "version"));
        match (book, chapter, version) {
            (Some(book), Some(chapter), Some(version)) => Ok(Info { book, chapter, version }),
            _ => Err(BibleLookupError::Parse),
        }
    }

    /// The info as shown above a passage: `<book> <chapter> (<version>)`.
    pub fn to_string(&self) -> (r: String)
        ensures
            r@ == info_text(self@),
    {
        let mut s = self.book.clone();
        push_char(&mut s, ' ');
        s.append(self.chapter.as_str());
        push_char(&mut s, ' ');
        push_char(&mut s, '(');
        s.append(self.version.as_str());
        push_char(&mut s, ')');
        assert(s@ =~= info_text(self@));
        s
    }
}

/// The verses of a passage: each verse key with its text, in the order in
/// which the answer lists them.
#[derive(Debug)]
pub struct Passage {
    verses: Vec<(String, String)>,
}

impl View for Passage {
    type V = Seq<(Seq<char>, Seq<char>)>;

    closed spec fn view(&self) -> Seq<(Seq<char>, Seq<char>)> {
        self.verses@.map_values(|e: (String, String)| (e.0@, e.1@))
    }
}

/// The text of a verse record: its `verse` member where that is a string,
/// else empty.
pub open spec fn verse_text(rec: Json) -> Seq<char> {
    match as_text(member(rec, "verse"@)) {
        Some(t) => t,
        None => seq![],
    }
}

/// Whether every member of a chapter is a verse record (an object).
pub open spec fn all_records(es: Seq<(String, Json)>) -> bool {
    forall|i: int| 0 <= i < es.len() ==> (#[trigger] es[i]).1 is Object
}

/// The verses that a lookup answer gives, or why it gives none.
pub open spec fn passage_of(d: Json) -> Result<Seq<(Seq<char>, Seq<char>)>, BibleLookupError> {
    match shape_of(d) {
        None => Err(BibleLookupError::BadPassageType),
        Some(sh) => match member(body_of(d, sh), "chapter"@) {
            Json::Object(es) => if all_records(es@) {
                Ok(es@.map_values(|e: (String, Json)| (e.0@, verse_text(e.1))))
            } else {
                Err(BibleLookupError::Parse)
            },
            _ => Err(BibleLookupError::Parse),
        },
    }
}

/// Whether `r` is the outcome that `spec_r` describes.
pub open spec fn passage_result_is(
    r: BibleLookupResult<Passage>,
    spec_r: Result<Seq<(Seq<char>, Seq<char>)>, BibleLookupError>,
) -> bool {
    match spec_r {
        Ok(v) => r is Ok && r->Ok_0@ == v,
        Err(e) => r is Err && r->Err_0 == e,
    }
}

/// The numbers that the verse keys name, in the order of the verses.
pub open spec fn key_numbers(p: Seq<(Seq<char>, Seq<char>)>) -> Seq<int> {
    p.map_values(|e: (Seq<char>, Seq<char>)| key_number(e.0) as int)
}

/// The text of the first verse whose key is `k`; empty where there is none.
pub open spec fn text_for(p: Seq<(Seq<char>, Seq<char>)>, k: Seq<char>) -> Seq<char>
    decreases p.len(),
{
    if p.len() == 0 {
        seq![]
    } else if p[0].0 == k {
        p[0].1
    } else {
        text_for(p.drop_first(), k)
    }
}

/// One verse as shown: `^(<n>) <text>`.
pub open spec fn verse_piece(p: Seq<(Seq<char>, Seq<char>)>, n: int) -> Seq<char> {
    seq!['^', '('] + decimal(n as nat) + seq![')', ' '] + text_for(p, decimal(n as nat))
}

/// The verses numbered `ns`, shown one after another.
pub open spec fn pieces(p: Seq<(Seq<char>, Seq<char>)>, ns: Seq<int>) -> Seq<char>
    decreases ns.len(),
{
    if ns.len() == 0 {
        seq![]
    } else {
        pieces(p, ns.drop_last()) + verse_piece(p, ns.last())
    }
}

/// How a passage is shown: its verses by ascending key number.
pub open spec fn passage_text(p: Seq<(Seq<char>, Seq<char>)>) -> Seq<char> {
    pieces(p, key_numbers(p).sort())
}

/// Whether `s` is in ascending order.
pub open spec fn ascending(s: Seq<int>) -> bool {
    forall|a: int, b: int| 0 <= a < b < s.len() ==> #[trigger] s[a] <= #[trigger] s[b]
}

/// A sequence of numbers as mathematical integers.
pub open spec fn as_ints(v: Seq<u64>) -> Seq<int> {
    v.map_values(|x: u64| x as int)
}

/// The numbers of `v` in ascending order.
pub fn sort_numbers(v: &Vec<u64>) -> (r: Vec<u64>)
    ensures
        as_ints(r@) == as_ints(v@).sort(),
{
    let mut out: Vec<u64> = Vec::new();
    let mut i: usize = 0;
    while i < v.len()
        invariant
            i <= v@.len(),
            ascending(as_ints(out@)),
            as_ints(out@).to_multiset() == as_ints(v@.take(i as int)).to_multiset(),
        decreases v@.len() - i,
    {
        let x = v[i];
        let mut p: usize = 0;
        while p < out.len() && out[p] <= x
            invariant
                p <= out@.len(),
                forall|j: int| 0 <= j < p ==> out@[j] <= x,
            decreases out@.len() - p,
        {
            p = p + 1;
        }
        let ghost old_out = as_ints(out@);
        proof {
            if p < out@.len() {
                assert forall|j: int| p <= j < old_out.len() implies old_out[j] > x as int by {
                    if j > p {
                        assert(old_out[p as int] <= old_out[j]);
                    }
                }
            }
        }
        out.insert(p, x);
        proof {
            assert(as_ints(out@) =~= old_out.insert(p as int, x as int));
            assert(as_ints(v@.take(i + 1)) =~= as_ints(v@.take(i as int)).push(x as int));
            assert forall|a: int, b: int| 0 <= a < b < as_ints(out@).len() implies
                #[trigger] as_ints(out@)[a] <= #[trigger] as_ints(out@)[b] by {
                if b < p {
                } else if b == p {
                } else if a < p {
                    assert(old_out[a] <= x as int);
                } else if a == p {
                } else {
                    assert(old_out[a - 1] <= old_out[b - 1]);
                }
            }
        }
        i = i + 1;
    }
    proof {
        assert(v@.take(v@.len() as int) =~= v@);
        let leq = |x: int, y: int| x <= y;
        assert(sorted_by(as_ints(out@), leq));
        as_ints(v@).lemma_sort_ensures();
        vstd::seq_lib::lemma_sorted_unique(as_ints(out@), as_ints(v@).sort(), leq);
    }
    out
}

impl Passage {
    /// Reads the verses from a lookup answer. A verse record without a
    /// string `verse` member gives an empty text.
    pub fn new(v: &Json) -> (r: BibleLookupResult<Passage>)
        ensures
            passage_result_is(r, passage_of(*v)),
    {
        let sh = match shape(v) {
            Some(sh) => sh,
            None => {
                return Err(BibleLookupError::BadPassageType);
            },
        };
        let b = body(v, &sh);
        let es = match field(b, "chapter") {
            Some(Json::Object(es)) => es,
            _ => {
                return Err(BibleLookupError::Parse);
            },
        };
        let mut verses: Vec<(String, String)> = Vec::new();
        let mut i: usize = 0;
        while i < es.len()
            invariant
                i <= es@.len(),
                shape_of(*v) == Some(sh),
                member(body_of(*v, sh), "chapter"@) == Json::Object(*es),
                forall|j: int| 0 <= j < i ==> (#[trigger] es@[j]).1 is Object,
                verses@.map_values(|e: (String, String)| (e.0@, e.1@))
                    == es@.take(i as int).map_values(|e: (String, Json)| (e.0@, verse_text(e.1))),
            decreases es@.len() - i,
        {
            let rec = &es[i].1;
            match rec {
                Json::Object(_) => {},
                _ => {
                    assert(!(es@[i as int].1 is Object));
                    assert(!all_records(es@));
                    return Err(BibleLookupError::Parse);
                },
            }
            let text = match get_member(rec, "verse") {
                Some(Json::Str(t)) => t.clone(),
                _ => String::new(),
            };
            assert(text@ == verse_text(es@[i as int].1));
            let key = es[i].0.clone();
            let ghost before = verses@;
            verses.push((key, text));
            proof {
                let f = |e: (String, String)| (e.0@, e.1@);
                let g = |e: (String, Json)| (e.0@, verse_text(e.1));
                assert(es@.take(i + 1) =~= es@.take(i as int).push(es@[i as int]));
                assert(verses@ == before.push((key, text)));
                assert(verses@.map_values(f) =~= before.map_values(f).push(f((key, text))));
                assert(es@.take(i + 1).map_values(g) =~= es@.take(i as int).map_values(g).push(
                    g(es@[i as int]),
                ));
            }
            i = i + 1;
        }
        assert(es@.take(es@.len() as int) =~= es@);
        Ok(Passage { verses })
    }

    /// The text of the first verse whose key is `k`; empty where there is none.
    fn text_of_key(&self, k: &String) -> (r: String)
        ensures
            r@ == text_for(self@, k@),
    {
        let n = self.verses.len();
        let mut i: usize = 0;
        assert(self@.subrange(0, n as int) =~= self@);
        while i < n
            invariant
                n == self@.len(),
                i <= n,
                text_for(self@, k@) == text_for(self@.subrange(i as int, n as int), k@),
            decreases n - i,
        {
            assert(self@.subrange(i as int, n as int).drop_first() =~= self@.subrange(i + 1, n as int));
            assert(self@.subrange(i as int, n as int)[0] == self@[i as int]);
            if self.verses[i].0 == *k {
                return self.verses[i].1.clone();
            }
            i = i + 1;
        }
        String::new()
    }

    /// The passage as shown: `^(<key>) <text>` for each verse, by ascending
    /// key number, with nothing between them.
    pub fn to_string(&self) -> (r: String)
        ensures
            r@ == passage_text(self@),
    {
        let n = self.verses.len();
        let mut keys: Vec<u64> = Vec::new();
        let mut i: usize = 0;
        while i < n
            invariant
                n == self@.len(),
                i <= n,
                as_ints(keys@) == key_numbers(self@).take(i as int),
            decreases n - i,
        {
            let k = parse_key_number(self.verses[i].0.as_str());
            assert(self@[i as int].0 == self.verses@[i as int].0@);
            assert(key_numbers(self@)[i as int] == k as int);
            let ghost before = keys@;
            keys.push(k);
            assert(as_ints(keys@) =~= as_ints(before).push(k as int));
            assert(key_numbers(self@).take(i + 1) =~= key_numbers(self@).take(i as int).push(
                k as int,
            ));
            i = i + 1;
        }
        assert(key_numbers(self@).take(n as int) =~= key_numbers(self@));
        let sorted = sort_numbers(&keys);
        let ghost ns = as_ints(sorted@);
        let mut out = String::new();
        let mut j: usize = 0;
        while j < sorted.len()
            invariant
                ns == as_ints(sorted@),
                j <= sorted@.len(),
                out@ == pieces(self@, ns.take(j as int)),
            decreases sorted@.len() - j,
        {
            let num = sorted[j];
            let k = decimal_string(num);
            let t = self.text_of_key(&k);
            let ghost before = out@;
            push_char(&mut out, '^');
            push_char(&mut out, '(');
            out.append(k.as_str());
            push_char(&mut out, ')');
            push_char(&mut out, ' ');
            out.append(t.as_str());
            assert(ns.take(j + 1).drop_last() =~= ns.take(j as int));
            assert(ns.take(j + 1).last() == num as int);
            assert(out@ =~= before + verse_piece(self@, num as int));
            j = j + 1;
        }
        assert(ns.take(sorted@.len() as int) =~= ns);
        out
    }
}

/// A chapter answer whose book name, chapter number and version have
/// the expected types, and whose verses are all records, resolves: its info
/// and its passage are both read, the passage keeps every verse key of the
/// answer, and it is shown by its key numbers in ascending order.
pub proof fn lemma_chapter_answer_resolves(d: Json)
    requires
        shape_of(d) == Some(Shape::Chapter),
        as_text(member(d, "book_name"@)) is Some,
        chapter_label(member(d, "chapter_nr"@)) is Some,
        as_text(member(d, "version"@)) is Some,
        member(d, "chapter"@) is Object,
        all_records(member(d, "chapter"@)->Object_0@),
    ensures
        info_of(d) is Ok,
        passage_of(d) is Ok,
        passage_of(d)->Ok_0.map_values(|e: (Seq<char>, Seq<char>)| e.0)
            == member(d, "chapter"@)->Object_0@.map_values(|e: (String, Json)| e.0@),
        ({
            let p = passage_of(d)->Ok_0;
            let ks = key_numbers(p).sort();
            &&& ks.to_multiset() == key_numbers(p).to_multiset()
            &&& ascending(ks)
            &&& passage_text(p) == pieces(p, ks)
        }),
{
    let p = passage_of(d)->Ok_0;
    let es = member(d, "chapter"@)->Object_0@;
    assert(p.map_values(|e: (Seq<char>, Seq<char>)| e.0) =~= es.map_values(|e: (String, Json)| e.0@));
    let ks = key_numbers(p).sort();
    key_numbers(p).lemma_sort_ensures();
    assert forall|a: int, b: int| 0 <= a < b < ks.len() implies #[trigger] ks[a] <= #[trigger] ks[b] by {
        let leq = |x: int, y: int| x <= y;
        assert(sorted_by(ks, leq));
        assert(leq(ks[a], ks[b]));
    }
}

/// An answer whose `type` is missing, is not a string, or names neither
/// shape is rejected by both readers.
pub proof fn lemma_unknown_type_rejected(d: Json)
    requires
        match as_text(member(d, "type"@)) {
            Some(t) => t != "chapter"@ && t != "verse"@,
            None => true,
        },
    ensures
        info_of(d) == Err::<InfoView, BibleLookupError>(BibleLookupError::BadPassageType),
        passage_of(d) == Err::<Seq<(Seq<char>, Seq<char>)>, BibleLookupError>(
            BibleLookupError::BadPassageType,
        ),
{
}

/// A chapter number given as the integer `n` and one given as the string of
/// its decimal digits are shown alike.
pub proof fn lemma_chapter_number_forms(n: u64, s: String)
    requires
        s@ == decimal(n as nat),
    ensures
        chapter_label(Json::Number(Number::Unsigned(n))) == chapter_label(Json::Str(s)),
        chapter_label(Json::Str(s)) == Some(decimal(n as nat)),
{
}

} // verus!
