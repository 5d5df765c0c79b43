//! Filtering a document's lines by a substring query.

use vstd::prelude::*;
use vstd::string::*;

use crate::lines::lines_of;
use crate::lines::split_lines;
use crate::lines::views_of;
use crate::text::chars_vec;
use crate::text::contains_at;
use crate::text::contains_chars;
use crate::text::contains_seq;
use crate::text::lowercase_chars;
use crate::text::lowered;

verus! {

/// Exact matching: keep a line iff it contains the query.
pub open spec fn query_pred(q: Seq<char>) -> spec_fn(Seq<char>) -> bool {
    |l: Seq<char>| contains_seq(l, q)
}

/// Case-insensitive matching: keep a line iff its lower-cased form contains
/// the lower-cased query.
pub open spec fn query_pred_ci(q: Seq<char>) -> spec_fn(Seq<char>) -> bool {
    |l: Seq<char>| contains_seq(lowered(l), lowered(q))
}

/// The lines of `contents` that contain `q`, in document order.
pub open spec fn search_result(q: Seq<char>, contents: Seq<char>) -> Seq<Seq<char>> {
    lines_of(contents).filter(query_pred(q))
}

/// The lines of `contents` whose lower-cased form contains the lower-cased
/// `q`, in document order.
pub open spec fn search_result_ci(q: Seq<char>, contents: Seq<char>) -> Seq<Seq<char>> {
    lines_of(contents).filter(query_pred_ci(q))
}

/// Filtering one more element at the end of a sequence.
proof fn lemma_filter_push<A>(s: Seq<A>, pred: spec_fn(A) -> bool, x: A)
    ensures
        s.push(x).filter(pred) == if pred(x) {
            s.filter(pred).push(x)
        } else {
            s.filter(pred)
        },
{
    reveal(Seq::filter);
    assert(s.push(x).drop_last() =~= s);
    assert(s.push(x).last() == x);
}

/// The lines of `contents` that contain `query`, in document order.
pub fn search<'a>(query: &str, contents: &'a str) -> (r: Vec<&'a str>)
    ensures
        views_of(r@) == search_result(query@, contents@),
{
    let q: Vec<char> = chars_vec(query);
    let ls: Vec<&'a str> = split_lines(contents);
    let m: usize = ls.len();
    let mut r: Vec<&'a str> = Vec::new();
    let mut i: usize = 0;
    proof {
        reveal(Seq::filter);
        assert(views_of(ls@).subrange(0, 0) =~= Seq::<Seq<char>>::empty());
        assert(views_of(r@) =~= Seq::<Seq<char>>::empty());
    }
    while i < m
        invariant
            q@ == query@,
            m == ls@.len(),
            i <= m,
            views_of(ls@) == lines_of(contents@),
            views_of(r@) == views_of(ls@).subrange(0, i as int).filter(query_pred(query@)),
        decreases m - i,
    {
        let line: &'a str = ls[i];
        let lc: Vec<char> = chars_vec(line);
        let hit: bool = contains_chars(&lc, &q);
        proof {
            let lv = views_of(ls@);
            assert(lv[i as int] == line@);
            assert(lv.subrange(0, (i + 1) as int) =~= lv.subrange(0, i as int).push(
                lv[i as int],
            ));
            lemma_filter_push(lv.subrange(0, i as int), query_pred(query@), lv[i as int]);
            assert(query_pred(query@)(lv[i as int]) == contains_seq(line@, query@));
        }
        if hit {
            let ghost r0 = r@;
            r.push(line);
            proof {
                assert(views_of(r@) =~= views_of(r0).push(line@));
            }
        }
        i = i + 1;
    }
    proof {
        assert(views_of(ls@).subrange(0, m as int) =~= views_of(ls@));
    }
    r
}

/// The lines of `contents` that contain `query` once both are lower-cased,
/// in document order; the returned lines keep their original case.
pub fn search_case_insensitive<'a>(query: &str, contents: &'a str) -> (r: Vec<&'a str>)
    ensures
        views_of(r@) == search_result_ci(query@, contents@),
{
    let q: Vec<char> = chars_vec(query);
    let lq: Vec<char> = lowercase_chars(&q);
    let ls: Vec<&'a str> = split_lines(contents);
    let m: usize = ls.len();
    let mut r: Vec<&'a str> = Vec::new();
    let mut i: usize = 0;
    proof {
        reveal(Seq::filter);
        assert(views_of(ls@).subrange(0, 0) =~= Seq::<Seq<char>>::empty());
        assert(views_of(r@) =~= Seq::<Seq<char>>::empty());
    }
    while i < m
        invariant
            lq@ == lowered(query@),
            m == ls@.len(),
            i <= m,
            views_of(ls@) == lines_of(contents@),
            views_of(r@) == views_of(ls@).subrange(0, i as int).filter(query_pred_ci(query@)),
        decreases m - i,
    {
        let line: &'a str = ls[i];
        let lc: Vec<char> = chars_vec(line);
        let ll: Vec<char> = lowercase_chars(&lc);
        let hit: bool = contains_chars(&ll, &lq);
        proof {
            let lv = views_of(ls@);
            assert(lv[i as int] == line@);
            assert(lv.subrange(0, (i + 1) as int) =~= lv.subrange(0, i as int).push(
                lv[i as int],
            ));
            lemma_filter_push(lv.subrange(0, i as int), query_pred_ci(query@), lv[i as int]);
            assert(query_pred_ci(query@)(lv[i as int]) == contains_seq(
                lowered(line@),
                lowered(query@),
            ));
        }
        if hit {
            let ghost r0 = r@;
            r.push(line);
            proof {
                assert(views_of(r@) =~= views_of(r0).push(line@));
            }
        }
        i = i + 1;
    }
    proof {
        assert(views_of(ls@).subrange(0, m as int) =~= views_of(ls@));
    }
    r
}

/// The lines the configured search keeps: the case-insensitive result when
/// the configuration says to ignore case, the exact result otherwise.
pub fn matched_lines<'a>(config: &crate::config::Config, contents: &'a str) -> (r: Vec<
    &'a str,
>)
    ensures
        config.ignore_case ==> views_of(r@) == search_result_ci(config.query@, contents@),
        !config.ignore_case ==> views_of(r@) == search_result(config.query@, contents@),
{
    if config.ignore_case {
        search_case_insensitive(config.query.as_str(), contents)
    } else {
        search(config.query.as_str(), contents)
    }
}

/// An element of a filtered sequence is an element of the source.
proof fn lemma_filter_in_source<A>(s: Seq<A>, pred: spec_fn(A) -> bool)
    ensures
        forall|x: A| #[trigger] s.filter(pred).contains(x) ==> s.contains(x),
    decreases s.len(),
{
    reveal(Seq::filter);
    if s.len() == 0 {
    } else {
        lemma_filter_in_source(s.drop_last(), pred);
        assert forall|x: A| #[trigger] s.filter(pred).contains(x) implies s.contains(x) by {
            let sub = s.drop_last().filter(pred);
            if sub.contains(x) {
                let k = choose|k: int| 0 <= k < s.drop_last().len() && s.drop_last()[k] == x;
                assert(s[k] == x);
            } else {
                assert(x == s.last());
                assert(s[s.len() - 1] == x);
            }
        }
    }
}

/// Filtering with a predicate that every element meets keeps the sequence.
proof fn lemma_filter_all<A>(s: Seq<A>, pred: spec_fn(A) -> bool)
    requires
        forall|i: int| 0 <= i < s.len() ==> pred(#[trigger] s[i]),
    ensures
        s.filter(pred) == s,
    decreases s.len(),
{
    reveal(Seq::filter);
    if s.len() == 0 {
        assert(s.filter(pred) =~= s);
    } else {
        lemma_filter_all(s.drop_last(), pred);
        assert(pred(s[s.len() - 1]));
        assert(s.filter(pred) =~= s);
    }
}

/// `sub` is `full` thinned out: `idx` names, in strictly increasing order,
/// the positions of `full` that `sub` consists of.
pub open spec fn ordered_selection<A>(sub: Seq<A>, full: Seq<A>, idx: Seq<int>) -> bool {
    &&& idx.len() == sub.len()
    &&& forall|k: int| 0 <= k < idx.len() ==> 0 <= #[trigger] idx[k] < full.len()
    &&& forall|k: int| 0 <= k < idx.len() ==> full[#[trigger] idx[k]] == sub[k]
    &&& forall|k: int| 0 <= k < idx.len() - 1 ==> #[trigger] idx[k] < idx[k + 1]
}

/// A filtered sequence is an ordered selection of its source: no
/// reordering and no element invented or moved.
proof fn lemma_filter_ordered_selection<A>(s: Seq<A>, pred: spec_fn(A) -> bool)
    ensures
        exists|idx: Seq<int>| #[trigger] ordered_selection(s.filter(pred), s, idx),
    decreases s.len(),
{
    reveal(Seq::filter);
    if s.len() == 0 {
        assert(ordered_selection(s.filter(pred), s, Seq::<int>::empty()));
    } else {
        let head = s.drop_last();
        lemma_filter_ordered_selection(head, pred);
        let idx0 = choose|idx: Seq<int>| ordered_selection(head.filter(pred), head, idx);
        if pred(s.last()) {
            let idx1 = idx0.push(s.len() - 1);
            assert(s.filter(pred) == head.filter(pred).push(s.last()));
            assert forall|k: int| 0 <= k < idx1.len() implies 0 <= #[trigger] idx1[k] < s.len()
                && s[idx1[k]] == s.filter(pred)[k] by {
                if k < idx0.len() {
                    assert(head[idx0[k]] == head.filter(pred)[k]);
                }
            }
            assert(ordered_selection(s.filter(pred), s, idx1));
        } else {
            assert forall|k: int| 0 <= k < idx0.len() implies 0 <= #[trigger] idx0[k] < s.len()
                && s[idx0[k]] == s.filter(pred)[k] by {
                assert(head[idx0[k]] == head.filter(pred)[k]);
            }
            assert(ordered_selection(s.filter(pred), s, idx0));
        }
    }
}

/// The exact search keeps a line when and only when it contains the query:
/// every line of the result contains it, and every line of the document
/// that contains it is in the result.
pub proof fn lemma_search_exact(q: Seq<char>, contents: Seq<char>)
    ensures
        forall|k: int|
            0 <= k < search_result(q, contents).len() ==> contains_seq(
                #[trigger] search_result(q, contents)[k],
                q,
            ),
        forall|k: int|
            0 <= k < lines_of(contents).len() && contains_seq(
                #[trigger] lines_of(contents)[k],
                q,
            ) ==> search_result(q, contents).contains(lines_of(contents)[k]),
{
    let lv = lines_of(contents);
    let pred = query_pred(q);
    assert forall|k: int| 0 <= k < search_result(q, contents).len() implies contains_seq(
        search_result(q, contents)[k],
        q,
    ) by {
        lv.lemma_filter_pred(pred, k);
    }
    assert forall|k: int|
        0 <= k < lv.len() && contains_seq(lv[k], q) implies search_result(q, contents).contains(
        lv[k],
    ) by {
        assert(pred(lv[k]));
        lv.lemma_filter_contains(pred, k);
    }
}

/// Ignoring case only widens the result: every line the exact search keeps,
/// the case-insensitive search keeps too.
pub proof fn lemma_insensitive_superset(q: Seq<char>, contents: Seq<char>)
    ensures
        forall|l: Seq<char>| #[trigger]
            search_result(q, contents).contains(l) ==> search_result_ci(q, contents).contains(l),
{
    let lv = lines_of(contents);
    assert forall|l: Seq<char>| #[trigger]
        search_result(q, contents).contains(l) implies search_result_ci(q, contents).contains(
        l,
    ) by {
        lemma_filter_in_source(lv, query_pred(q));
        assert(lv.contains(l));
        let j = choose|j: int| 0 <= j < search_result(q, contents).len() && search_result(
            q,
            contents,
        )[j] == l;
        lv.lemma_filter_pred(query_pred(q), j);
        assert(contains_seq(l, q));
        crate::text::lemma_lowered_preserves_contains(l, q);
        assert(query_pred_ci(q)(l));
        let k = choose|k: int| 0 <= k < lv.len() && lv[k] == l;
        lv.lemma_filter_contains(query_pred_ci(q), k);
    }
}

/// Both searches keep the document's line order: the result is an ordered
/// selection of the document's lines, so nothing is reordered, duplicated
/// or invented.
pub proof fn lemma_search_order(q: Seq<char>, contents: Seq<char>)
    ensures
        exists|idx: Seq<int>| ordered_selection(
            search_result(q, contents),
            lines_of(contents),
            idx,
        ),
        exists|idx: Seq<int>| ordered_selection(
            search_result_ci(q, contents),
            lines_of(contents),
            idx,
        ),
{
    let lv = lines_of(contents);
    lemma_filter_ordered_selection(lv, query_pred(q));
    let idx1 = choose|idx: Seq<int>| ordered_selection(lv.filter(query_pred(q)), lv, idx);
    assert(ordered_selection(search_result(q, contents), lv, idx1));
    lemma_filter_ordered_selection(lv, query_pred_ci(q));
    let idx2 = choose|idx: Seq<int>| ordered_selection(lv.filter(query_pred_ci(q)), lv, idx);
    assert(ordered_selection(search_result_ci(q, contents), lv, idx2));
}

/// The matcher is deterministic: two results that meet a search's
/// contract on the same query and document hold the same lines, for
/// either variant.
pub proof fn lemma_matcher_deterministic(
    q: Seq<char>,
    contents: Seq<char>,
    ignore_case: bool,
    r1: Seq<Seq<char>>,
    r2: Seq<Seq<char>>,
)
    requires
        r1 == (if ignore_case {
            search_result_ci(q, contents)
        } else {
            search_result(q, contents)
        }),
        r2 == (if ignore_case {
            search_result_ci(q, contents)
        } else {
            search_result(q, contents)
        }),
    ensures
        r1 == r2,
{
}

/// An empty document yields an empty result, for either search and any
/// query.
pub proof fn lemma_empty_contents(q: Seq<char>)
    ensures
        search_result(q, Seq::<char>::empty()) == Seq::<Seq<char>>::empty(),
        search_result_ci(q, Seq::<char>::empty()) == Seq::<Seq<char>>::empty(),
{
    reveal(Seq::filter);
    assert(lines_of(Seq::<char>::empty()) == Seq::<Seq<char>>::empty());
}

/// An empty query matches every line: either search returns the whole
/// document, line for line, in order.
pub proof fn lemma_empty_query(contents: Seq<char>)
    ensures
        search_result(Seq::<char>::empty(), contents) == lines_of(contents),
        search_result_ci(Seq::<char>::empty(), contents) == lines_of(contents),
{
    let lv = lines_of(contents);
    let q = Seq::<char>::empty();
    assert forall|i: int| 0 <= i < lv.len() implies query_pred(q)(#[trigger] lv[i]) by {
        assert(lv[i].subrange(0, 0) =~= q);
        assert(contains_at(lv[i], q, 0));
    }
    lemma_filter_all(lv, query_pred(q));
    assert(lowered(q) == Seq::<char>::empty());
    assert forall|i: int| 0 <= i < lv.len() implies query_pred_ci(q)(#[trigger] lv[i]) by {
        assert(lowered(lv[i]).subrange(0, 0) =~= lowered(q));
        assert(contains_at(lowered(lv[i]), lowered(q), 0));
    }
    lemma_filter_all(lv, query_pred_ci(q));
}

} // verus!
