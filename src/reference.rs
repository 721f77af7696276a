//! Finding bracketed scripture references such as `[[John3:16-17]]`.
use vstd::prelude::*;
use crate::err::BibleLookupError;
use crate::text::{chars_of, is_digit, is_letter, push_char, string_of};

verus! {

/// Characters that are removed before references are matched.
pub open spec fn is_dropped(c: char) -> bool {
    c == ' ' || c == '\\'
}

/// The text with every space and every backslash removed.
pub open spec fn normalize(s: Seq<char>) -> Seq<char> {
    s.filter(|c: char| !is_dropped(c))
}

/// The classes of characters that a reference is scanned by.
pub enum CharClass {
    /// ASCII letters.
    Letter,
    /// ASCII digits.
    Digit,
    /// Anything but a closing bracket.
    NotClosing,
}

/// Whether `c` belongs to the class `k`.
pub open spec fn in_class(c: char, k: CharClass) -> bool {
    match k {
        CharClass::Letter => is_letter(c),
        CharClass::Digit => is_digit(c),
        CharClass::NotClosing => c != ']',
    }
}

/// The end of the run of characters of class `k` that starts at `i`.
pub open spec fn run_end(s: Seq<char>, i: int, k: CharClass) -> int
    decreases s.len() - i,
{
    if 0 <= i < s.len() && in_class(s[i], k) {
        run_end(s, i + 1, k)
    } else {
        i
    }
}

/// Whether `t[c0..]` is one or more digits, optionally followed by `-` and
/// one or more digits.
pub open spec fn is_verse_span(t: Seq<char>, c0: int) -> bool {
    let c = run_end(t, c0, CharClass::Digit);
    c > c0 && (c == t.len() || (t[c] == '-' && run_end(t, c + 1, CharClass::Digit) > c + 1
        && run_end(t, c + 1, CharClass::Digit) == t.len()))
}

/// Whether `t` is a reference: an optional digit, one or more letters, one
/// or more digits, then optionally `:` and a verse span.
pub open spec fn is_reference(t: Seq<char>) -> bool {
    let p: int = if t.len() > 0 && is_digit(t[0]) { 1 } else { 0 };
    let a = run_end(t, p, CharClass::Letter);
    let b = run_end(t, a, CharClass::Digit);
    a > p && b > a && (b == t.len() || (t[b] == ':' && is_verse_span(t, b + 1)))
}

/// Where the content of a bracket opened at `i` ends: the first `]` after
/// the two opening brackets, or the end of the text.
pub open spec fn content_end(s: Seq<char>, i: int) -> int {
    run_end(s, i + 2, CharClass::NotClosing)
}

/// Whether a bracketed reference `[[...]]` starts at `i`.
pub open spec fn matches_at(s: Seq<char>, i: int) -> bool {
    let e = content_end(s, i);
    &&& 0 <= i
    &&& i + 1 < s.len()
    &&& s[i] == '['
    &&& s[i + 1] == '['
    &&& e + 1 < s.len()
    &&& s[e + 1] == ']'
    &&& is_reference(s.subrange(i + 2, e))
}

/// The references in `s` from position `i` on, leftmost first, with no two
/// overlapping.
pub open spec fn refs_from(s: Seq<char>, i: int) -> Seq<Seq<char>>
    decreases s.len() - i,
{
    if 0 <= i < s.len() {
        if matches_at(s, i) {
            let e = content_end(s, i);
            // A match always ends past its start; the test makes that visible
            // to the termination check.
            if e + 2 > i {
                seq![s.subrange(i + 2, e)] + refs_from(s, e + 2)
            } else {
                seq![]
            }
        } else {
            refs_from(s, i + 1)
        }
    } else {
        seq![]
    }
}

/// The references of a text, in the order in which they appear.
pub open spec fn references(text: Seq<char>) -> Seq<Seq<char>> {
    refs_from(normalize(text), 0)
}

/// The views of a list of strings.
pub open spec fn strings_view(v: Seq<String>) -> Seq<Seq<char>> {
    v.map_values(|s: String| s@)
}

/// Normalizing one more character keeps or drops just that character.
pub proof fn lemma_normalize_push(s: Seq<char>, c: char)
    ensures
        normalize(s.push(c)) == if is_dropped(c) {
            normalize(s)
        } else {
            normalize(s).push(c)
        },
{
    assert(s.push(c).drop_last() =~= s);
    reveal_with_fuel(Seq::filter, 1);
}

/// A run ends within the text, after characters of its class only, and
/// before one that is not of its class.
pub proof fn lemma_run_end_bounds(s: Seq<char>, i: int, k: CharClass)
    requires
        0 <= i <= s.len(),
    ensures
        i <= run_end(s, i, k) <= s.len(),
        run_end(s, i, k) < s.len() ==> !in_class(s[run_end(s, i, k)], k),
        forall|j: int| i <= j < run_end(s, i, k) ==> in_class(#[trigger] s[j], k),
    decreases s.len() - i,
{
    if i < s.len() && in_class(s[i], k) {
        lemma_run_end_bounds(s, i + 1, k);
    }
}

fn in_class_exec(c: char, k: &CharClass) -> (r: bool)
    ensures
        r == in_class(c, *k),
{
    match k {
        CharClass::Letter => ('a' <= c && c <= 'z') || ('A' <= c && c <= 'Z'),
        CharClass::Digit => '0' <= c && c <= '9',
        CharClass::NotClosing => c != ']',
    }
}

fn run_end_exec(s: &Vec<char>, i: usize, k: CharClass) -> (r: usize)
    requires
        i <= s@.len(),
    ensures
        r as int == run_end(s@, i as int, k),
{
    let mut j = i;
    while j < s.len() && in_class_exec(s[j], &k)
        invariant
            i <= j <= s@.len(),
            run_end(s@, j as int, k) == run_end(s@, i as int, k),
        decreases s@.len() - j,
    {
        j = j + 1;
    }
    j
}

fn is_verse_span_exec(t: &Vec<char>, c0: usize) -> (r: bool)
    requires
        c0 <= t@.len(),
    ensures
        r == is_verse_span(t@, c0 as int),
{
    let c = run_end_exec(t, c0, CharClass::Digit);
    proof { lemma_run_end_bounds(t@, c0 as int, CharClass::Digit); }
    if c <= c0 {
        return false;
    }
    if c == t.len() {
        return true;
    }
    if t[c] != '-' {
        return false;
    }
    let e = run_end_exec(t, c + 1, CharClass::Digit);
    e > c + 1 && e == t.len()
}

/// Whether `t` is a well-formed reference.
pub fn is_reference_exec(t: &Vec<char>) -> (r: bool)
    ensures
        r == is_reference(t@),
{
    let p: usize = if t.len() > 0 && '0' <= t[0] && t[0] <= '9' { 1 } else { 0 };
    let a = run_end_exec(t, p, CharClass::Letter);
    proof { lemma_run_end_bounds(t@, p as int, CharClass::Letter); }
    if a <= p {
        return false;
    }
    let b = run_end_exec(t, a, CharClass::Digit);
    proof { lemma_run_end_bounds(t@, a as int, CharClass::Digit); }
    if b <= a {
        return false;
    }
    if b == t.len() {
        return true;
    }
    if t[b] != ':' {
        return false;
    }
    is_verse_span_exec(t, b + 1)
}

/// The text with every space and every backslash removed, as characters.
pub fn normalize_chars(text: &str) -> (r: Vec<char>)
    ensures
        r@ == normalize(text@),
{
    let cs = chars_of(text);
    let mut out: Vec<char> = Vec::new();
    let mut i: usize = 0;
    while i < cs.len()
        invariant
            i <= cs@.len(),
            cs@ == text@,
            out@ == normalize(cs@.take(i as int)),
        decreases cs@.len() - i,
    {
        let c = cs[i];
        assert(cs@.take(i + 1) =~= cs@.take(i as int).push(c));
        proof { lemma_normalize_push(cs@.take(i as int), c); }
        if c != ' ' && c != '\\' {
            out.push(c);
        }
        i = i + 1;
    }
    assert(cs@.take(cs@.len() as int) =~= cs@);
    out
}

/// The text with every space and every backslash removed.
pub fn normalize_text(text: &str) -> (r: String)
    ensures
        r@ == normalize(text@),
{
    string_of(&normalize_chars(text))
}

/// The characters `s[lo..hi]`, as a vector and as a string.
fn slice_chars(s: &Vec<char>, lo: usize, hi: usize) -> (r: (Vec<char>, String))
    requires
        lo <= hi <= s@.len(),
    ensures
        r.0@ == s@.subrange(lo as int, hi as int),
        r.1@ == s@.subrange(lo as int, hi as int),
{
    let mut v: Vec<char> = Vec::new();
    let mut st = String::new();
    let mut i = lo;
    while i < hi
        invariant
            lo <= i <= hi <= s@.len(),
            v@ == s@.subrange(lo as int, i as int),
            st@ == v@,
        decreases hi - i,
    {
        v.push(s[i]);
        push_char(&mut st, s[i]);
        assert(v@ =~= s@.subrange(lo as int, i + 1));
        i = i + 1;
    }
    (v, st)
}

/// Finds the bracketed references of `text` in order of appearance.
/// Spaces and backslashes are removed first; brackets whose content is not a
/// well-formed reference are skipped. Fails with `NoRefs` when none is found.
pub fn extract_refs(text: &str) -> (r: Result<Vec<String>, BibleLookupError>)
    ensures
        match r {
            Ok(v) => strings_view(v@) == references(text@) && v@.len() > 0,
            Err(e) => e == BibleLookupError::NoRefs && references(text@).len() == 0,
        },
{
    let s = normalize_chars(text);
    let n = s.len();
    let mut out: Vec<String> = Vec::new();
    let mut i: usize = 0;
    while i < n
        invariant
            n == s@.len(),
            s@ == normalize(text@),
            i <= n,
            strings_view(out@) + refs_from(s@, i as int) == references(text@),
        decreases n - i,
    {
        let mut found = false;
        if i + 1 < n && s[i] == '[' && s[i + 1] == '[' {
            let e = run_end_exec(&s, i + 2, CharClass::NotClosing);
            proof { lemma_run_end_bounds(s@, i + 2, CharClass::NotClosing); }
            if e < n - 1 && s[e + 1] == ']' {
                let (t, ts) = slice_chars(&s, i + 2, e);
                if is_reference_exec(&t) {
                    assert(matches_at(s@, i as int));
                    assert(strings_view(out@.push(ts)) =~= strings_view(out@).push(ts@));
                    out.push(ts);
                    i = e + 2;
                    found = true;
                }
            }
        }
        if !found {
            assert(!matches_at(s@, i as int));
            i = i + 1;
        }
    }
    assert(refs_from(s@, i as int) == Seq::<Seq<char>>::empty());
    assert(strings_view(out@) =~= references(text@));
    if out.len() == 0 {
        Err(BibleLookupError::NoRefs)
    } else {
        Ok(out)
    }
}

/// Normalizing twice is normalizing once.
pub proof fn lemma_normalize_idempotent(s: Seq<char>)
    ensures
        normalize(normalize(s)) == normalize(s),
    decreases s.len(),
{
    if s.len() > 0 {
        let c = s.last();
        assert(s =~= s.drop_last().push(c));
        lemma_normalize_push(s.drop_last(), c);
        lemma_normalize_idempotent(s.drop_last());
        if !is_dropped(c) {
            lemma_normalize_push(normalize(s.drop_last()), c);
        }
    } else {
        assert(normalize(s) =~= s);
    }
}

/// Extracting from a text whose spaces and backslashes were already removed
/// gives the same references as extracting from the text itself.
pub proof fn lemma_extract_normalized(text: Seq<char>)
    ensures
        references(normalize(text)) == references(text),
{
    lemma_normalize_idempotent(text);
}

/// A text made of pieces, each a filler text followed by a bracketed
/// content `[[...]]`.
pub open spec fn bracketed(ps: Seq<(Seq<char>, Seq<char>)>) -> Seq<char>
    decreases ps.len(),
{
    if ps.len() == 0 {
        seq![]
    } else {
        ps[0].0 + seq!['[', '['] + ps[0].1 + seq![']', ']'] + bracketed(ps.drop_first())
    }
}

/// A piece whose filler and content are both plain.
pub open spec fn plain_piece(p: (Seq<char>, Seq<char>)) -> bool {
    plain_filler(p.0) && plain_content(p.1)
}

/// Whether every piece is plain.
pub open spec fn plain_pieces(ps: Seq<(Seq<char>, Seq<char>)>) -> bool {
    forall|k: int| 0 <= k < ps.len() ==> plain_piece(#[trigger] ps[k])
}

/// Whether `s` holds no space and no backslash.
pub open spec fn no_dropped(s: Seq<char>) -> bool {
    forall|j: int| 0 <= j < s.len() ==> !is_dropped(#[trigger] s[j])
}

/// A filler: no opening bracket, no space, no backslash.
pub open spec fn plain_filler(f: Seq<char>) -> bool {
    no_dropped(f) && forall|j: int| 0 <= j < f.len() ==> #[trigger] f[j] != '['
}

/// A bracket content: no bracket, no space, no backslash.
pub open spec fn plain_content(c: Seq<char>) -> bool {
    no_dropped(c) && forall|j: int| 0 <= j < c.len() ==> #[trigger] c[j] != '[' && c[j] != ']'
}

/// The contents of the pieces that are well-formed references, in order.
pub open spec fn well_formed_contents(ps: Seq<(Seq<char>, Seq<char>)>) -> Seq<Seq<char>>
    decreases ps.len(),
{
    if ps.len() == 0 {
        seq![]
    } else {
        (if is_reference(ps[0].1) {
            seq![ps[0].1]
        } else {
            seq![]
        }) + well_formed_contents(ps.drop_first())
    }
}

proof fn lemma_normalize_plain(s: Seq<char>)
    requires
        no_dropped(s),
    ensures
        normalize(s) == s,
    decreases s.len(),
{
    if s.len() > 0 {
        let c = s.last();
        assert(s =~= s.drop_last().push(c));
        lemma_normalize_push(s.drop_last(), c);
        lemma_normalize_plain(s.drop_last());
    } else {
        assert(normalize(s) =~= s);
    }
}

proof fn lemma_bracketed_plain(ps: Seq<(Seq<char>, Seq<char>)>)
    requires
        plain_pieces(ps),
    ensures
        no_dropped(bracketed(ps)),
    decreases ps.len(),
{
    if ps.len() > 0 {
        let rest = ps.drop_first();
        assert forall|k: int| 0 <= k < rest.len() implies plain_piece(#[trigger] rest[k]) by {
            assert(rest[k] == ps[k + 1]);
        }
        lemma_bracketed_plain(rest);
        assert(plain_piece(ps[0]));
        let piece = ps[0].0 + seq!['[', '['] + ps[0].1 + seq![']', ']'];
        let t = bracketed(ps);
        assert forall|j: int| 0 <= j < t.len() implies !is_dropped(#[trigger] t[j]) by {
            let f = ps[0].0.len() as int;
            let c = ps[0].1.len() as int;
            if j < f {
                assert(t[j] == ps[0].0[j]);
            } else if j < f + 2 {
            } else if j < f + 2 + c {
                assert(t[j] == ps[0].1[j - f - 2]);
            } else if j < f + 4 + c {
            } else {
                assert(t[j] == bracketed(rest)[j - piece.len()]);
            }
        }
    }
}

/// Positions that hold no opening bracket start no reference.
proof fn lemma_refs_skip(s: Seq<char>, a: int, b: int)
    requires
        0 <= a <= b <= s.len(),
        forall|j: int| a <= j < b ==> #[trigger] s[j] != '[',
    ensures
        refs_from(s, a) == refs_from(s, b),
    decreases b - a,
{
    if a < b {
        assert(!matches_at(s, a));
        lemma_refs_skip(s, a + 1, b);
    }
}

/// A run of class `k` that starts at `i` ends where the class first fails.
proof fn lemma_run_end_at(s: Seq<char>, i: int, j: int, k: CharClass)
    requires
        0 <= i <= j <= s.len(),
        forall|m: int| i <= m < j ==> in_class(#[trigger] s[m], k),
        j < s.len() ==> !in_class(s[j], k),
    ensures
        run_end(s, i, k) == j,
    decreases j - i,
{
    if i < j {
        lemma_run_end_at(s, i + 1, j, k);
    }
}

proof fn lemma_refs_of_pieces(pre: Seq<char>, ps: Seq<(Seq<char>, Seq<char>)>)
    requires
        plain_pieces(ps),
    ensures
        refs_from(pre + bracketed(ps), pre.len() as int) == well_formed_contents(ps),
    decreases ps.len(),
{
    let s = pre + bracketed(ps);
    if ps.len() == 0 {
        assert(s =~= pre);
    } else {
        let f = ps[0].0;
        let c = ps[0].1;
        let rest = ps.drop_first();
        assert(plain_piece(ps[0]));
        assert forall|k: int| 0 <= k < rest.len() implies plain_piece(#[trigger] rest[k]) by {
            assert(rest[k] == ps[k + 1]);
        }
        let piece = f + seq!['[', '['] + c + seq![']', ']'];
        let pre2 = pre + piece;
        assert(s =~= pre2 + bracketed(rest));
        let a = pre.len() as int;
        let q = a + f.len();
        let e = q + 2 + c.len();
        assert forall|j: int| a <= j < q implies #[trigger] s[j] != '[' by {
            assert(s[j] == f[j - a]);
        }
        lemma_refs_skip(s, a, q);
        assert(s[q] == '[');
        assert(s[q + 1] == '[');
        assert(s[e] == ']');
        assert(s[e + 1] == ']');
        assert forall|m: int| q + 2 <= m < e implies in_class(#[trigger] s[m], CharClass::NotClosing) by {
            assert(s[m] == c[m - q - 2]);
        }
        lemma_run_end_at(s, q + 2, e, CharClass::NotClosing);
        assert(content_end(s, q) == e);
        assert(s.subrange(q + 2, e) =~= c);
        lemma_refs_of_pieces(pre2, rest);
        assert(pre2.len() == e + 2);
        assert(well_formed_contents(ps) == (if is_reference(c) {
            seq![c]
        } else {
            seq![]
        }) + well_formed_contents(rest));
        assert(refs_from(s, e + 2) == well_formed_contents(rest));
        if is_reference(c) {
            assert(matches_at(s, q));
            assert(refs_from(s, q) == seq![c] + refs_from(s, e + 2));
        } else {
            assert(!matches_at(s, q));
            if c.len() > 0 {
                assert(s[q + 2] == c[0]);
            }
            assert(!matches_at(s, q + 1));
            assert forall|j: int| q + 2 <= j < e + 2 implies #[trigger] s[j] != '[' by {
                if j < e {
                    assert(s[j] == c[j - q - 2]);
                }
            }
            lemma_refs_skip(s, q + 2, e + 2);
            assert(refs_from(s, q) == refs_from(s, q + 1));
            assert(refs_from(s, q + 1) == refs_from(s, q + 2));
            assert(well_formed_contents(ps) =~= well_formed_contents(rest));
        }
    }
}

/// In a text made of fillers and bracketed contents, where neither holds a
/// space or a backslash, fillers hold no `[` and contents no bracket, the
/// references found are exactly the well-formed contents, in order; the
/// malformed ones are skipped.
pub proof fn lemma_references_of_bracketed(ps: Seq<(Seq<char>, Seq<char>)>)
    requires
        plain_pieces(ps),
    ensures
        references(bracketed(ps)) == well_formed_contents(ps),
{
    lemma_bracketed_plain(ps);
    lemma_normalize_plain(bracketed(ps));
    lemma_refs_of_pieces(seq![], ps);
    assert(Seq::<char>::empty() + bracketed(ps) =~= bracketed(ps));
}

} // verus!
