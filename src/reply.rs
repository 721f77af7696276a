//! Assembling the reply to a comment from the outcomes of its lookups.
use vstd::prelude::*;
use crate::err::BibleLookupResult;
use crate::passage::{Info, InfoView, Passage, info_text, passage_text, pieces, key_numbers};
use crate::text::push_char;

verus! {

broadcast use vstd::seq_lib::group_to_multiset_ensures;

/// The reply for one passage: its info line, a blank line, then its verses.
pub open spec fn reply_text(i: InfoView, p: Seq<(Seq<char>, Seq<char>)>) -> Seq<char> {
    info_text(i) + seq!['\n', '\n'] + passage_text(p)
}

/// What stands between the blocks of a composite reply.
pub open spec fn separator() -> Seq<char> {
    "\n\n___\n\n"@
}

/// The line that stands for a reference that could not be resolved.
pub open spec fn error_line(reference: Seq<char>) -> Seq<char> {
    "Error finding "@ + reference
}

/// The block of a composite reply that one lookup outcome gives.
pub open spec fn outcome_block(o: (String, BibleLookupResult<(Info, Passage)>)) -> Seq<char> {
    match o.1 {
        Ok(pair) => reply_text(pair.0@, pair.1@),
        Err(_) => error_line(o.0@),
    }
}

/// The blocks joined, with `sep` between each two.
pub open spec fn join(blocks: Seq<Seq<char>>, sep: Seq<char>) -> Seq<char>
    decreases blocks.len(),
{
    if blocks.len() == 0 {
        seq![]
    } else if blocks.len() == 1 {
        blocks[0]
    } else {
        join(blocks.drop_last(), sep) + sep + blocks.last()
    }
}

/// The blocks of the outcomes, in order.
pub open spec fn outcome_blocks(os: Seq<(String, BibleLookupResult<(Info, Passage)>)>) -> Seq<Seq<char>> {
    os.map_values(|o: (String, BibleLookupResult<(Info, Passage)>)| outcome_block(o))
}

/// The composite reply for a list of outcomes.
pub open spec fn replies_text(os: Seq<(String, BibleLookupResult<(Info, Passage)>)>) -> Seq<char> {
    join(outcome_blocks(os), separator())
}

/// The reply for one passage: `<info>\n\n<verses>`.
pub fn build_reply(info: &Info, passage: &Passage) -> (r: String)
    ensures
        r@ == reply_text(info@, passage@),
{
    let mut s = info.to_string();
    push_char(&mut s, '\n');
    push_char(&mut s, '\n');
    let p = passage.to_string();
    s.append(p.as_str());
    assert(s@ =~= reply_text(info@, passage@));
    s
}

/// The reply for one lookup outcome: the passage's reply, or
/// `Error finding <reference>`.
pub fn build_block(reference: &String, outcome: &BibleLookupResult<(Info, Passage)>) -> (r: String)
    ensures
        r@ == outcome_block((*reference, *outcome)),
{
    match outcome {
        Ok(pair) => build_reply(&pair.0, &pair.1),
        Err(_) => {
            let mut s = String::from_str("Error finding ");
            s.append(reference.as_str());
            s
        },
    }
}

/// The composite reply: one block per outcome, in the order given, joined
/// by `\n\n___\n\n`.
pub fn build_replies(outcomes: &Vec<(String, BibleLookupResult<(Info, Passage)>)>) -> (r: String)
    ensures
        r@ == replies_text(outcomes@),
{
    let ghost blocks = outcome_blocks(outcomes@);
    let mut out = String::new();
    let mut i: usize = 0;
    while i < outcomes.len()
        invariant
            blocks == outcome_blocks(outcomes@),
            i <= outcomes@.len(),
            out@ == join(blocks.take(i as int), separator()),
        decreases outcomes@.len() - i,
    {
        let ghost before = out@;
        if i > 0 {
            out.append("\n\n___\n\n");
        }
        let b = build_block(&outcomes[i].0, &outcomes[i].1);
        out.append(b.as_str());
        proof {
            assert(blocks.take(i + 1).drop_last() =~= blocks.take(i as int));
            assert(blocks[i as int] == b@);
            if i == 0 {
                assert(before =~= Seq::<char>::empty());
                assert(out@ =~= b@);
            } else {
                assert(out@ =~= before + separator() + b@);
            }
        }
        i = i + 1;
    }
    assert(blocks.take(outcomes@.len() as int) =~= blocks);
    out
}

/// Shown verses start with a caret.
proof fn lemma_pieces_start(p: Seq<(Seq<char>, Seq<char>)>, ns: Seq<int>)
    requires
        ns.len() > 0,
    ensures
        pieces(p, ns).len() > 0,
        pieces(p, ns)[0] == '^',
    decreases ns.len(),
{
    let v = crate::passage::verse_piece(p, ns.last());
    assert(v[0] == '^');
    if ns.len() > 1 {
        lemma_pieces_start(p, ns.drop_last());
    } else {
        assert(pieces(p, ns.drop_last()) =~= Seq::<char>::empty());
    }
}

/// Whether `s` holds no line break.
pub open spec fn single_line(s: Seq<char>) -> bool {
    forall|j: int| 0 <= j < s.len() ==> s[j] != '\n'
}

/// The reply for a passage is its info line, one blank line, then its
/// verses: where the info holds no line break, the reply's first line break
/// ends the info line, a second one follows at once, and the verses start
/// right after it, with a caret where there is a verse.
pub proof fn lemma_reply_layout(i: InfoView, p: Seq<(Seq<char>, Seq<char>)>)
    requires
        single_line(i.book),
        single_line(i.chapter),
        single_line(i.version),
    ensures
        ({
            let r = reply_text(i, p);
            let n = info_text(i).len() as int;
            &&& r.take(n) == info_text(i)
            &&& single_line(r.take(n))
            &&& r[n] == '\n'
            &&& r[n + 1] == '\n'
            &&& r.skip(n + 2) == passage_text(p)
            &&& (p.len() > 0 ==> r[n + 2] == '^')
        }),
{
    let r = reply_text(i, p);
    let info = info_text(i);
    let n = info.len() as int;
    assert(r.take(n) =~= info);
    assert(r.skip(n + 2) =~= passage_text(p));
    assert forall|j: int| 0 <= j < n implies info[j] != '\n' by {
        let b = i.book.len() as int;
        let c = i.chapter.len() as int;
        if j < b {
            assert(info[j] == i.book[j]);
        } else if j == b {
        } else if j < b + 1 + c {
            assert(info[j] == i.chapter[j - b - 1]);
        } else if j < b + 1 + c + 2 {
        } else if j < n - 1 {
            assert(info[j] == i.version[j - b - 1 - c - 2]);
        }
    }
    if p.len() > 0 {
        let ks = key_numbers(p);
        ks.lemma_sort_ensures();
        assert(ks.len() == p.len());
        assert(ks.sort().to_multiset().len() == ks.to_multiset().len());
        lemma_pieces_start(p, ks.sort());
        assert(r[n + 2] == passage_text(p)[0]);
    }
}

/// A composite reply over one resolved and one failed reference holds the
/// passage reply of the one and the error line of the other, in the order
/// given, with the separator between them.
pub proof fn lemma_mixed_replies(os: Seq<(String, BibleLookupResult<(Info, Passage)>)>)
    requires
        os.len() == 2,
        os[0].1 is Ok != os[1].1 is Ok,
    ensures
        replies_text(os) == outcome_block(os[0]) + separator() + outcome_block(os[1]),
        forall|k: int|
            0 <= k < 2 ==> (#[trigger] os[k]).1 is Ok ==> outcome_block(os[k]) == reply_text(
                os[k].1->Ok_0.0@,
                os[k].1->Ok_0.1@,
            ),
        forall|k: int| 0 <= k < 2 ==> (#[trigger] os[k]).1 is Err ==> outcome_block(os[k]) == error_line(os[k].0@),
{
    let blocks = outcome_blocks(os);
    assert(blocks.drop_last() =~= seq![blocks[0]]);
    assert(join(blocks.drop_last(), separator()) == blocks[0]);
    assert(blocks[0] == outcome_block(os[0]));
    assert(blocks[1] == outcome_block(os[1]));
}

} // verus!
