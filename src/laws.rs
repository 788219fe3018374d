//! Properties that hold of every call of the matching entry points.
use vstd::prelude::*;
use crate::fuzzy::{candidate_match, is_fuzzy_result, match_table, matched_ids};
use crate::matcher::frizbee_positions;
use crate::types::{composed_score, is_nearby, CompletionItemKind, FuzzyOptions, LspItem};

verus! {

proof fn lemma_ascending_at_least_position(s: Seq<u32>, k: int)
    requires
        forall|a: int, b: int| 0 <= a < b < s.len() ==> s[a] < s[b],
        0 <= k < s.len(),
    ensures
        s[k] >= k,
    decreases k,
{
    if k > 0 {
        lemma_ascending_at_least_position(s, k - 1);
    }
}

proof fn lemma_ascending_same_members_equal(a: Seq<u32>, b: Seq<u32>)
    requires
        forall|x: int, y: int| 0 <= x < y < a.len() ==> a[x] < a[y],
        forall|x: int, y: int| 0 <= x < y < b.len() ==> b[x] < b[y],
        forall|v: u32| a.contains(v) <==> b.contains(v),
    ensures
        a == b,
    decreases a.len() + b.len(),
{
    if a.len() == 0 || b.len() == 0 {
        if a.len() > 0 {
            assert(a.contains(a[0]));
        }
        if b.len() > 0 {
            assert(b.contains(b[0]));
        }
        assert(a =~= b);
    } else {
        assert(a.contains(a[0]));
        assert(b.contains(b[0]));
        let i = choose|i: int| 0 <= i < b.len() && b[i] == a[0];
        let h = choose|h: int| 0 <= h < a.len() && a[h] == b[0];
        assert(a[0] == b[0]);
        let a1 = a.drop_first();
        let b1 = b.drop_first();
        assert forall|v: u32| a1.contains(v) <==> b1.contains(v) by {
            if a1.contains(v) {
                let x = choose|x: int| 0 <= x < a1.len() && a1[x] == v;
                assert(a.contains(v) && a[x + 1] == v);
                let y = choose|y: int| 0 <= y < b.len() && b[y] == v;
                assert(y != 0);
                assert(b1[y - 1] == v);
            }
            if b1.contains(v) {
                let y = choose|y: int| 0 <= y < b1.len() && b1[y] == v;
                assert(b.contains(v) && b[y + 1] == v);
                let x = choose|x: int| 0 <= x < a.len() && a[x] == v;
                assert(x != 0);
                assert(a1[x - 1] == v);
            }
        }
        lemma_ascending_same_members_equal(a1, b1);
        assert(a =~= seq![a[0]] + a1);
        assert(b =~= seq![b[0]] + b1);
    }
}

/// The primary result lists no more candidates than it was given, each index
/// valid and none twice.
pub proof fn lemma_fuzzy_result_within_input(
    haystack: Seq<LspItem>,
    needles: Seq<String>,
    frecency: Seq<i32>,
    opts: FuzzyOptions,
    scores: Seq<i64>,
    indices: Seq<u32>,
    exact: Seq<bool>,
)
    requires
        is_fuzzy_result(haystack, needles, frecency, opts, scores, indices, exact),
    ensures
        indices.len() <= haystack.len(),
        forall|k: int| 0 <= k < indices.len() ==> indices[k] < haystack.len(),
        forall|k: int, l: int| 0 <= k < indices.len() && 0 <= l < indices.len() && k != l ==> indices[k] != indices[l],
{
    if indices.len() > 0 {
        let last = indices.len() - 1;
        lemma_ascending_at_least_position(indices, last);
        assert(indices[last] < haystack.len());
    }
    assert forall|k: int, l: int| 0 <= k < indices.len() && 0 <= l < indices.len() && k != l implies indices[k]
        != indices[l] by {
        if k < l {
            assert(indices[k] < indices[l]);
        } else {
            assert(indices[l] < indices[k]);
        }
    }
}

/// With usage bonuses disabled, the result does not depend on them: two calls
/// that differ in the usage bonuses alone give the same result.
pub proof fn lemma_frecency_ignored_when_disabled(
    haystack: Seq<LspItem>,
    needles: Seq<String>,
    frecency1: Seq<i32>,
    frecency2: Seq<i32>,
    opts: FuzzyOptions,
    scores1: Seq<i64>,
    indices1: Seq<u32>,
    exact1: Seq<bool>,
    scores2: Seq<i64>,
    indices2: Seq<u32>,
    exact2: Seq<bool>,
)
    requires
        !opts.use_frecency,
        is_fuzzy_result(haystack, needles, frecency1, opts, scores1, indices1, exact1),
        is_fuzzy_result(haystack, needles, frecency2, opts, scores2, indices2, exact2),
    ensures
        scores1 == scores2,
        indices1 == indices2,
        exact1 == exact2,
{
    assert forall|v: u32| indices1.contains(v) <==> indices2.contains(v) by {
        if indices1.contains(v) {
            let k = choose|k: int| 0 <= k < indices1.len() && indices1[k] == v;
            assert(match_table(haystack, needles, opts.max_typos)[indices1[k] as int] is Some);
        }
        if indices2.contains(v) {
            let k = choose|k: int| 0 <= k < indices2.len() && indices2[k] == v;
            assert(match_table(haystack, needles, opts.max_typos)[indices2[k] as int] is Some);
        }
    }
    lemma_ascending_same_members_equal(indices1, indices2);
    assert forall|k: int| 0 <= k < scores1.len() implies scores1[k] == scores2[k] by {
        assert(indices1[k] == indices2[k]);
    }
    assert(scores1 =~= scores2);
    assert forall|k: int| 0 <= k < exact1.len() implies exact1[k] == exact2[k] by {
        assert(indices1[k] == indices2[k]);
    }
    assert(exact1 =~= exact2);
}

/// With proximity enabled, a candidate whose label is a nearby word scores
/// exactly 2 more than with proximity disabled.
pub proof fn lemma_proximity_bonus(item: LspItem, frecency: i32, opts: FuzzyOptions, raw: u16)
    requires
        opts.use_proximity,
        is_nearby(opts, item.label@),
    ensures
        composed_score(item, frecency, opts, raw) == composed_score(
            item,
            frecency,
            (FuzzyOptions { use_proximity: false, ..opts }),
            raw,
        ) + 2,
{
}

/// A snippet's score holds the snippet offset exactly once: it exceeds the
/// score of the same candidate as plain text by that offset.
pub proof fn lemma_snippet_offset_once(item: LspItem, frecency: i32, opts: FuzzyOptions, raw: u16)
    requires
        item.kind == CompletionItemKind::Snippet,
    ensures
        composed_score(item, frecency, opts, raw) == composed_score(
            (LspItem { kind: CompletionItemKind::Text, ..item }),
            frecency,
            opts,
            raw,
        ) + opts.snippet_score_offset,
{
}

/// A candidate is only ever matched against its own needle: what it gets does
/// not depend on the other candidates or on their needles.
pub proof fn lemma_needle_isolation(
    haystack1: Seq<LspItem>,
    needles1: Seq<String>,
    haystack2: Seq<LspItem>,
    needles2: Seq<String>,
    max_typos: u16,
    j1: int,
    j2: int,
)
    requires
        0 <= j1 < haystack1.len(),
        0 <= j2 < haystack2.len(),
        haystack1[j1] == haystack2[j2],
        needles1[j1]@ == needles2[j2]@,
    ensures
        candidate_match(haystack1, needles1, max_typos, j1) == candidate_match(
            haystack2,
            needles2,
            max_typos,
            j2,
        ),
{
}

/// The candidates of the positions variant are listed in ascending order, each
/// index valid; they are exactly those that matched, and no more than were given.
pub proof fn lemma_matched_ids_ordered(haystack: Seq<String>, needles: Seq<String>, upto: int)
    requires
        0 <= upto,
    ensures
        matched_ids(haystack, needles, upto).len() <= upto,
        forall|k: int, l: int|
            0 <= k < l < matched_ids(haystack, needles, upto).len() ==> matched_ids(haystack, needles, upto)[k]
                < matched_ids(haystack, needles, upto)[l],
        forall|k: int|
            0 <= k < matched_ids(haystack, needles, upto).len() ==> 0 <= #[trigger] matched_ids(
                haystack,
                needles,
                upto,
            )[k] < upto,
        forall|j: int|
            0 <= j < upto ==> (matched_ids(haystack, needles, upto).contains(j) <==> (#[trigger] frizbee_positions(
                needles[j]@,
                haystack[j]@,
            )) is Some),
    decreases upto,
{
    if upto > 0 {
        lemma_matched_ids_ordered(haystack, needles, upto - 1);
        let prev = matched_ids(haystack, needles, upto - 1);
        let cur = matched_ids(haystack, needles, upto);
        assert forall|j: int| 0 <= j < upto implies (cur.contains(j) <==> (#[trigger] frizbee_positions(
            needles[j]@,
            haystack[j]@,
        )) is Some) by {
            if j < upto - 1 {
                if cur.contains(j) {
                    let k = choose|k: int| 0 <= k < cur.len() && cur[k] == j;
                    if k < prev.len() {
                        assert(prev[k] == j);
                    }
                }
                if prev.contains(j) {
                    let k = choose|k: int| 0 <= k < prev.len() && prev[k] == j;
                    assert(cur[k] == j);
                }
            } else {
                if frizbee_positions(needles[j]@, haystack[j]@) is Some {
                    assert(cur[cur.len() - 1] == j);
                } else if cur.contains(j) {
                    let k = choose|k: int| 0 <= k < cur.len() && cur[k] == j;
                    assert(prev[k] == j);
                }
            }
        }
    }
}

} // verus!
