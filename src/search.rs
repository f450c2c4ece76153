//! Selecting the lines of a text that hold a query, exactly or with case
//! folded.
use vstd::prelude::*;

use crate::text::{chars_of, has_sub, line_spans, lines_of, occurs_in};

verus! {

/// What `str::to_lowercase` makes of a string.
pub uninterp spec fn lower_of(s: Seq<char>) -> Seq<char>;

/// Relies on `str::to_lowercase`: the folded form depends on the characters
/// alone, and an empty string stays empty.
#[verifier::external_body]
fn lowercase(s: &str) -> (r: String)
    ensures
        r@ == lower_of(s@),
        s@.len() == 0 ==> r@.len() == 0,
{
    s.to_lowercase()
}

/// The characters of each returned line.
pub open spec fn views(r: Seq<&str>) -> Seq<Seq<char>> {
    r.map_values(|l: &str| l@)
}

/// The lines among `ls` that hold `query`, in order.
pub open spec fn lines_holding(ls: Seq<Seq<char>>, query: Seq<char>) -> Seq<Seq<char>> {
    ls.filter(|l: Seq<char>| has_sub(l, query))
}

/// The lines among `ls` whose folded form holds `folded_query`, in order.
pub open spec fn lines_holding_folded(ls: Seq<Seq<char>>, folded_query: Seq<char>) -> Seq<
    Seq<char>,
> {
    ls.filter(|l: Seq<char>| has_sub(lower_of(l), folded_query))
}

/// The lines of `text` that hold `query`, in order.
pub open spec fn matching_lines(query: Seq<char>, text: Seq<char>) -> Seq<Seq<char>> {
    lines_holding(lines_of(text), query)
}

/// The lines of `text` whose folded form holds `folded_query`, in order.
pub open spec fn folded_matching_lines(folded_query: Seq<char>, text: Seq<char>) -> Seq<
    Seq<char>,
> {
    lines_holding_folded(lines_of(text), folded_query)
}

/// Filtering by a predicate that every element meets keeps them all.
proof fn lemma_filter_keeps_all(ls: Seq<Seq<char>>, p: spec_fn(Seq<char>) -> bool)
    requires
        forall|i: int| 0 <= i < ls.len() ==> p(#[trigger] ls[i]),
    ensures
        ls.filter(p) == ls,
    decreases ls.len(),
{
    reveal(Seq::filter);
    if ls.len() > 0 {
        lemma_filter_keeps_all(ls.drop_last(), p);
        assert(ls.drop_last().push(ls.last()) =~= ls);
    }
}

/// Every line holds the empty query.
proof fn lemma_empty_held(l: Seq<char>)
    ensures
        has_sub(l, Seq::empty()),
{
    let e = Seq::<char>::empty();
    assert(l.subrange(0, 0 + e.len() as int) =~= e);
}

/// Filtering one step further along a sequence.
proof fn lemma_filter_step(ls: Seq<Seq<char>>, i: int, p: spec_fn(Seq<char>) -> bool)
    requires
        0 <= i < ls.len(),
    ensures
        ls.take(i + 1).filter(p) == if p(ls[i]) {
            ls.take(i).filter(p).push(ls[i])
        } else {
            ls.take(i).filter(p)
        },
{
    reveal(Seq::filter);
    assert(ls.take(i + 1).drop_last() =~= ls.take(i));
}

/// Whether `line` holds `query` as a contiguous run of characters.
pub fn line_contains(line: &str, query: &str) -> (r: bool)
    ensures
        r == has_sub(line@, query@),
{
    let l = chars_of(line);
    let q = chars_of(query);
    assert(l@.subrange(0, l@.len() as int) =~= l@);
    occurs_in(&l, 0, l.len(), &q)
}

/// The lines of `contents` that hold `query`, in their original order, as
/// views into `contents`.
pub fn search<'a>(query: &str, contents: &'a str) -> (r: Vec<&'a str>)
    ensures
        views(r@) == matching_lines(query@, contents@),
        query@.len() == 0 ==> views(r@) == lines_of(contents@),
{
    let text = chars_of(contents);
    let spans = line_spans(&text);
    let ghost ls = lines_of(contents@);
    let mut r: Vec<&'a str> = Vec::new();
    assert(ls.take(0) =~= Seq::<Seq<char>>::empty());
    assert(views(r@) =~= lines_holding(ls.take(0), query@)) by {
        reveal(Seq::filter);
    }
    for i in 0..spans.len()
        invariant
            text@ == contents@,
            ls == lines_of(contents@),
            spans@.len() == ls.len(),
            forall|k: int| 0 <= k < spans@.len() ==> spans@[k].0 <= (#[trigger] spans@[k]).1 <= text@.len(),
            forall|k: int|
                0 <= k < spans@.len() ==> text@.subrange(spans@[k].0 as int, spans@[k].1 as int)
                    == #[trigger] ls[k],
            views(r@) == lines_holding(ls.take(i as int), query@),
    {
        let (s, e) = spans[i];
        let line = contents.substring_char(s, e);
        assert(line@ == ls[i as int]);
        let ghost before = r@;
        if line_contains(line, query) {
            r.push(line);
            assert(views(r@) =~= views(before).push(line@));
        }
        proof {
            lemma_filter_step(ls, i as int, |l: Seq<char>| has_sub(l, query@));
        }
    }
    assert(ls.take(spans@.len() as int) =~= ls);
    proof {
        if query@.len() == 0 {
            assert forall|i: int| 0 <= i < ls.len() implies has_sub(#[trigger] ls[i], query@) by {
                lemma_empty_held(ls[i]);
                assert(query@ =~= Seq::<char>::empty());
            }
            lemma_filter_keeps_all(ls, |l: Seq<char>| has_sub(l, query@));
        }
    }
    r
}

/// The lines of `contents` that hold `query` once both are folded to
/// lowercase, in their original order, as views into `contents` with their
/// original casing.
pub fn search_case_insensitive<'a>(query: &str, contents: &'a str) -> (r: Vec<&'a str>)
    ensures
        views(r@) == folded_matching_lines(lower_of(query@), contents@),
        query@.len() == 0 ==> views(r@) == lines_of(contents@),
{
    let folded_query = lowercase(query);
    let text = chars_of(contents);
    let spans = line_spans(&text);
    let ghost ls = lines_of(contents@);
    let ghost fq = lower_of(query@);
    let mut r: Vec<&'a str> = Vec::new();
    assert(ls.take(0) =~= Seq::<Seq<char>>::empty());
    assert(views(r@) =~= lines_holding_folded(ls.take(0), fq)) by {
        reveal(Seq::filter);
    }
    for i in 0..spans.len()
        invariant
            text@ == contents@,
            ls == lines_of(contents@),
            fq == lower_of(query@),
            folded_query@ == fq,
            spans@.len() == ls.len(),
            forall|k: int| 0 <= k < spans@.len() ==> spans@[k].0 <= (#[trigger] spans@[k]).1 <= text@.len(),
            forall|k: int|
                0 <= k < spans@.len() ==> text@.subrange(spans@[k].0 as int, spans@[k].1 as int)
                    == #[trigger] ls[k],
            views(r@) == lines_holding_folded(ls.take(i as int), fq),
    {
        let (s, e) = spans[i];
        let line = contents.substring_char(s, e);
        assert(line@ == ls[i as int]);
        let folded_line = lowercase(line);
        let ghost before = r@;
        if line_contains(folded_line.as_str(), folded_query.as_str()) {
            r.push(line);
            assert(views(r@) =~= views(before).push(line@));
        }
        proof {
            lemma_filter_step(ls, i as int, |l: Seq<char>| has_sub(lower_of(l), fq));
        }
    }
    assert(ls.take(spans@.len() as int) =~= ls);
    proof {
        if query@.len() == 0 {
            assert(fq =~= Seq::<char>::empty());
            assert forall|i: int| 0 <= i < ls.len() implies has_sub(
                lower_of(#[trigger] ls[i]),
                fq,
            ) by {
                lemma_empty_held(lower_of(ls[i]));
            }
            lemma_filter_keeps_all(ls, |l: Seq<char>| has_sub(lower_of(l), fq));
        }
    }
    r
}

/// Filtering by a weaker predicate keeps at least as many elements.
proof fn lemma_filter_count_monotone(
    ls: Seq<Seq<char>>,
    p: spec_fn(Seq<char>) -> bool,
    q: spec_fn(Seq<char>) -> bool,
)
    requires
        forall|i: int| 0 <= i < ls.len() && p(#[trigger] ls[i]) ==> q(ls[i]),
    ensures
        ls.filter(p).len() <= ls.filter(q).len(),
    decreases ls.len(),
{
    reveal(Seq::filter);
    if ls.len() > 0 {
        let rest = ls.drop_last();
        assert forall|i: int| 0 <= i < rest.len() && p(#[trigger] rest[i]) implies q(rest[i]) by {
            assert(rest[i] == ls[i]);
        }
        lemma_filter_count_monotone(rest, p, q);
    }
}

/// The exact search returns lines of the text, each holding the query, and
/// leaves out no line of the text that holds it.
pub proof fn lemma_matches_are_exactly_the_holding_lines(query: Seq<char>, text: Seq<char>)
    ensures
        forall|i: int|
            0 <= i < matching_lines(query, text).len() ==> has_sub(
                #[trigger] matching_lines(query, text)[i],
                query,
            ) && lines_of(text).contains(matching_lines(query, text)[i]),
        forall|i: int|
            0 <= i < lines_of(text).len() && has_sub(#[trigger] lines_of(text)[i], query)
                ==> matching_lines(query, text).contains(lines_of(text)[i]),
{
    let ls = lines_of(text);
    let p = |l: Seq<char>| has_sub(l, query);
    assert forall|i: int| 0 <= i < matching_lines(query, text).len() implies has_sub(
        #[trigger] matching_lines(query, text)[i],
        query,
    ) && ls.contains(matching_lines(query, text)[i]) by {
        ls.lemma_filter_pred(p, i);
        assert(ls.filter(p).contains(ls.filter(p)[i]));
        ls.lemma_filter_contains_rev(p, ls.filter(p)[i]);
    }
    assert forall|i: int| 0 <= i < ls.len() && has_sub(#[trigger] ls[i], query) implies ls.filter(
        p,
    ).contains(ls[i]) by {
        ls.lemma_filter_contains(p, i);
    }
}

/// Whenever folding keeps every containment of the query in a line of the
/// text, the case-insensitive search returns at least as many lines as the
/// exact one.
pub proof fn lemma_folding_keeps_matches(query: Seq<char>, text: Seq<char>)
    requires
        forall|i: int|
            0 <= i < lines_of(text).len() && has_sub(#[trigger] lines_of(text)[i], query)
                ==> has_sub(lower_of(lines_of(text)[i]), lower_of(query)),
    ensures
        matching_lines(query, text).len() <= folded_matching_lines(lower_of(query), text).len(),
{
    lemma_filter_count_monotone(
        lines_of(text),
        |l: Seq<char>| has_sub(l, query),
        |l: Seq<char>| has_sub(lower_of(l), lower_of(query)),
    );
}

/// Both searches depend on the characters of the query and the text alone:
/// equal inputs give equal results.
pub proof fn lemma_search_repeatable(q1: Seq<char>, t1: Seq<char>, q2: Seq<char>, t2: Seq<char>)
    requires
        q1 == q2,
        t1 == t2,
    ensures
        matching_lines(q1, t1) == matching_lines(q2, t2),
        folded_matching_lines(lower_of(q1), t1) == folded_matching_lines(lower_of(q2), t2),
{
}

} // verus!
