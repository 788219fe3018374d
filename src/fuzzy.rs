//! Grouping candidates by needle, matching each group, and composing scores.
use vstd::prelude::*;
use crate::matcher::{frizbee_positions, frizbee_score, match_positions, match_scores};
use crate::text::{bound_text, bounded_text};
use crate::types::{composed_score, matchable_text, CompletionItemKind, FuzzyOptions, LspItem};

verus! {

/// The candidates that share one needle: their indices in the candidate list,
/// ascending, and the texts they are matched by.
pub struct NeedleGroup {
    pub needle: String,
    pub members: Vec<usize>,
    pub texts: Vec<String>,
}

/// `group` holds candidates of `texts` whose needle in `needles` is its own,
/// each with its text, in ascending order of index.
pub open spec fn group_wf(group: NeedleGroup, texts: Seq<String>, needles: Seq<String>) -> bool {
    &&& group.members.len() == group.texts.len()
    &&& forall|k: int|
        0 <= k < group.members.len() ==> (#[trigger] group.members[k]) < texts.len()
            && needles[group.members[k] as int]@ == group.needle@
            && group.texts[k]@ == texts[group.members[k] as int]@
    &&& forall|k: int, l: int|
        0 <= k < l < group.members.len() ==> group.members[k] < group.members[l]
}

/// `groups` splits the candidates below `upto` by needle: every group is well
/// formed, no two groups share a needle, and each candidate stands in a group.
pub open spec fn groups_partition(
    groups: Seq<NeedleGroup>,
    texts: Seq<String>,
    needles: Seq<String>,
    upto: int,
) -> bool {
    &&& forall|g: int|
        0 <= g < groups.len() ==> group_wf(#[trigger] groups[g], texts, needles)
            && 0 < groups[g].members.len() <= upto
            && forall|k: int| 0 <= k < groups[g].members.len() ==> groups[g].members[k] < upto
    &&& forall|g: int, h: int| 0 <= g < h < groups.len() ==> groups[g].needle@ != groups[h].needle@
    &&& forall|j: int| 0 <= j < upto ==> #[trigger] in_some_group(groups, j)
}

/// Candidate `j` stands in one of `groups`.
pub open spec fn in_some_group(groups: Seq<NeedleGroup>, j: int) -> bool {
    exists|g: int, k: int|
        0 <= g < groups.len() && 0 <= k < groups[g].members.len() && #[trigger] groups[g].members[k]
            == j
}

/// Splits the candidates by needle: `needles[j]` is the needle of the candidate
/// whose text is `texts[j]`. Groups come in order of first appearance.
pub fn group_by_needle(texts: &Vec<String>, needles: &Vec<String>) -> (r: Vec<NeedleGroup>)
    requires
        texts.len() == needles.len(),
    ensures
        groups_partition(r@, texts@, needles@, texts.len() as int),
{
    let n = texts.len();
    let mut groups: Vec<NeedleGroup> = Vec::new();
    let mut j: usize = 0;
    while j < n
        invariant
            n == texts.len() == needles.len(),
            j <= n,
            groups_partition(groups@, texts@, needles@, j as int),
        decreases n - j,
    {
        let mut g: usize = 0;
        let mut found = false;
        while g < groups.len() && !found
            invariant
                g <= groups.len(),
                j < needles.len(),
                found ==> g < groups.len() && groups[g as int].needle@ == needles[j as int]@,
                !found ==> forall|h: int| 0 <= h < g ==> groups[h].needle@ != needles[j as int]@,
            decreases groups.len() - g, if found { 0int } else { 1int },
        {
            if groups[g].needle == needles[j] {
                found = true;
            } else {
                g = g + 1;
            }
        }
        let ghost old_groups = groups@;
        if found {
            groups[g].members.push(j);
            groups[g].texts.push(texts[j].clone());
            proof {
                let grp = groups@[g as int];
                assert(grp.members@ == old_groups[g as int].members@.push(j));
                assert forall|x: int| 0 <= x < groups.len() implies group_wf(
                    #[trigger] groups@[x],
                    texts@,
                    needles@,
                ) && groups@[x].members.len() <= j + 1 && forall|k: int|
                    0 <= k < groups@[x].members.len() ==> groups@[x].members[k] < j + 1 by {
                    if x != g {
                        assert(groups@[x] == old_groups[x]);
                    }
                }
                assert forall|i: int| 0 <= i < j + 1 implies #[trigger] in_some_group(groups@, i) by {
                    if i == j {
                        assert(groups@[g as int].members[grp.members.len() - 1] == i);
                    } else {
                        assert(in_some_group(old_groups, i));
                        let (x, k) = choose|x: int, k: int|
                            0 <= x < old_groups.len() && 0 <= k < old_groups[x].members.len()
                                && #[trigger] old_groups[x].members[k] == i;
                        assert(groups@[x].members[k] == i);
                    }
                }
            }
        } else {
            let mut members: Vec<usize> = Vec::new();
            members.push(j);
            let mut group_texts: Vec<String> = Vec::new();
            group_texts.push(texts[j].clone());
            groups.push(NeedleGroup { needle: needles[j].clone(), members, texts: group_texts });
            proof {
                assert forall|x: int| 0 <= x < groups.len() implies group_wf(
                    #[trigger] groups@[x],
                    texts@,
                    needles@,
                ) && groups@[x].members.len() <= j + 1 && forall|k: int|
                    0 <= k < groups@[x].members.len() ==> groups@[x].members[k] < j + 1 by {
                    if x < old_groups.len() {
                        assert(groups@[x] == old_groups[x]);
                    }
                }
                assert forall|i: int| 0 <= i < j + 1 implies #[trigger] in_some_group(groups@, i) by {
                    if i == j {
                        assert(groups@[old_groups.len() as int].members[0] == i);
                    } else {
                        assert(in_some_group(old_groups, i));
                        let (x, k) = choose|x: int, k: int|
                            0 <= x < old_groups.len() && 0 <= k < old_groups[x].members.len()
                                && #[trigger] old_groups[x].members[k] == i;
                        assert(groups@[x] == old_groups[x]);
                        assert(groups@[x].members[k] == i);
                    }
                }
            }
        }
        j = j + 1;
    }
    groups
}

/// What the matcher gives candidate `j`, matched by its own text `texts[j]`
/// against its own needle `needles[j]`.
pub open spec fn candidate_score(
    texts: Seq<String>,
    needles: Seq<String>,
    max_typos: u16,
    j: int,
) -> Option<(u16, bool)> {
    frizbee_score(needles[j]@, texts[j]@, max_typos)
}

/// Matches each group against its needle once and files each kept entry under
/// its candidate's index.
fn score_groups(
    groups: &Vec<NeedleGroup>,
    texts: &Vec<String>,
    needles: &Vec<String>,
    max_typos: u16,
) -> (r: Vec<Option<(u16, bool)>>)
    requires
        texts.len() == needles.len(),
        texts.len() <= u32::MAX,
        groups_partition(groups@, texts@, needles@, texts.len() as int),
    ensures
        r.len() == texts.len(),
        forall|j: int| 0 <= j < r.len() ==> r[j] == candidate_score(texts@, needles@, max_typos, j),
{
    let n = texts.len();
    let mut slots: Vec<Option<(u16, bool)>> = Vec::new();
    let mut i: usize = 0;
    while i < n
        invariant
            i <= n,
            slots.len() == i,
            forall|j: int| 0 <= j < i ==> slots[j] is None,
        decreases n - i,
    {
        slots.push(None);
        i = i + 1;
    }
    let mut g: usize = 0;
    while g < groups.len()
        invariant
            n == texts.len() == needles.len(),
            n <= u32::MAX,
            groups_partition(groups@, texts@, needles@, n as int),
            g <= groups.len(),
            slots.len() == n,
            forall|j: int|
                0 <= j < n && (#[trigger] slots[j]) is Some ==> slots[j] == candidate_score(
                    texts@,
                    needles@,
                    max_typos,
                    j,
                ),
            forall|x: int, k: int|
                0 <= x < g && 0 <= k < groups[x].members.len() ==> slots[#[trigger] groups[x].members[k] as int]
                    == candidate_score(texts@, needles@, max_typos, groups[x].members[k] as int),
        decreases groups.len() - g,
    {
        let group = &groups[g];
        assert(group_wf(groups@[g as int], texts@, needles@));
        let found = match_scores(&group.needle, &group.texts, max_typos);
        let mut q: usize = 0;
        while q < found.len()
            invariant
                n == texts.len() == needles.len(),
                groups_partition(groups@, texts@, needles@, n as int),
                g < groups.len(),
                group == groups@[g as int],
                group_wf(*group, texts@, needles@),
                q <= found.len(),
                slots.len() == n,
                forall|k: int|
                    0 <= k < found.len() ==> (#[trigger] found[k]).index < group.texts.len()
                        && frizbee_score(group.needle@, group.texts[found[k].index as int]@, max_typos)
                        == Some((found[k].score, found[k].exact)),
                forall|j: int|
                    0 <= j < n && (#[trigger] slots[j]) is Some ==> slots[j] == candidate_score(
                        texts@,
                        needles@,
                        max_typos,
                        j,
                    ),
                forall|x: int, k: int|
                    0 <= x < g && 0 <= k < groups[x].members.len() ==> slots[#[trigger] groups[x].members[k] as int]
                        == candidate_score(texts@, needles@, max_typos, groups[x].members[k] as int),
                forall|p: int|
                    0 <= p < q ==> slots[group.members[(#[trigger] found[p]).index as int] as int]
                        == candidate_score(texts@, needles@, max_typos, group.members[found[p].index as int] as int),
            decreases found.len() - q,
        {
            let e = &found[q];
            let j = group.members[e.index];
            assert(candidate_score(texts@, needles@, max_typos, j as int) == Some((e.score, e.exact)));
            let ghost before = slots@;
            slots.set(j, Some((e.score, e.exact)));
            proof {
                assert forall|x: int, k: int|
                    0 <= x < g && 0 <= k < groups[x].members.len() implies slots[#[trigger] groups[x].members[k] as int]
                        == candidate_score(texts@, needles@, max_typos, groups[x].members[k] as int) by {
                    assert(group_wf(groups@[x], texts@, needles@));
                    assert(before[groups[x].members[k] as int] == candidate_score(texts@, needles@, max_typos, groups[x].members[k] as int));
                }
            }
            q = q + 1;
        }
        proof {
            assert forall|k: int| 0 <= k < group.members.len() implies slots[#[trigger] group.members[k] as int]
                == candidate_score(texts@, needles@, max_typos, group.members[k] as int) by {
                let j = group.members[k] as int;
                if frizbee_score(group.needle@, group.texts[k]@, max_typos) is Some {
                    let p = choose|p: int| 0 <= p < found.len() && found[p].index == k;
                    assert(slots[group.members[found[p].index as int] as int] == candidate_score(texts@, needles@, max_typos, j));
                } else if slots[j] is Some {
                    assert(slots[j] == candidate_score(texts@, needles@, max_typos, j));
                }
            }
        }
        g = g + 1;
    }
    proof {
        assert forall|j: int| 0 <= j < n implies slots[j] == candidate_score(texts@, needles@, max_typos, j) by {
            assert(in_some_group(groups@, j));
            let (x, k) = choose|x: int, k: int|
                0 <= x < groups.len() && 0 <= k < groups[x].members.len() && #[trigger] groups[x].members[k] == j;
        }
    }
    slots
}

/// What the matcher reports as matched in candidate `j`'s own text `texts[j]`
/// against its own needle `needles[j]`.
pub open spec fn candidate_positions(texts: Seq<String>, needles: Seq<String>, j: int) -> Option<
    Seq<usize>,
> {
    frizbee_positions(needles[j]@, texts[j]@)
}

/// The positions held in `o`, if any.
pub open spec fn positions_view(o: Option<Vec<usize>>) -> Option<Seq<usize>> {
    match o {
        Some(v) => Some(v@),
        None => None,
    }
}

/// Matches each group against its needle once, asking for matched positions,
/// and files each kept entry under its candidate's index.
fn position_groups(groups: &Vec<NeedleGroup>, texts: &Vec<String>, needles: &Vec<String>) -> (r: Vec<
    Option<Vec<usize>>,
>)
    requires
        texts.len() == needles.len(),
        texts.len() <= u32::MAX,
        groups_partition(groups@, texts@, needles@, texts.len() as int),
    ensures
        r.len() == texts.len(),
        forall|j: int|
            0 <= j < r.len() ==> positions_view(#[trigger] r[j]) == candidate_positions(texts@, needles@, j),
{
    let n = texts.len();
    let mut slots: Vec<Option<Vec<usize>>> = Vec::new();
    let mut i: usize = 0;
    while i < n
        invariant
            i <= n,
            slots.len() == i,
            forall|j: int| 0 <= j < i ==> slots[j] is None,
        decreases n - i,
    {
        slots.push(None);
        i = i + 1;
    }
    let mut g: usize = 0;
    while g < groups.len()
        invariant
            n == texts.len() == needles.len(),
            n <= u32::MAX,
            groups_partition(groups@, texts@, needles@, n as int),
            g <= groups.len(),
            slots.len() == n,
            forall|j: int|
                0 <= j < n && (#[trigger] slots[j]) is Some ==> positions_view(slots[j])
                    == candidate_positions(texts@, needles@, j),
            forall|x: int, k: int|
                0 <= x < g && 0 <= k < groups[x].members.len() ==> positions_view(
                    slots[#[trigger] groups[x].members[k] as int],
                ) == candidate_positions(texts@, needles@, groups[x].members[k] as int),
        decreases groups.len() - g,
    {
        let group = &groups[g];
        assert(group_wf(groups@[g as int], texts@, needles@));
        let mut found = match_positions(&group.needle, &group.texts);
        let ghost all = found@;
        while found.len() > 0
            invariant
                n == texts.len() == needles.len(),
                groups_partition(groups@, texts@, needles@, n as int),
                g < groups.len(),
                group == groups@[g as int],
                group_wf(*group, texts@, needles@),
                found.len() <= all.len(),
                found@ == all.take(found.len() as int),
                slots.len() == n,
                forall|k: int|
                    0 <= k < all.len() ==> (#[trigger] all[k]).index < group.texts.len()
                        && frizbee_positions(group.needle@, group.texts[all[k].index as int]@)
                        == Some(all[k].positions@),
                forall|j: int|
                    0 <= j < n && (#[trigger] slots[j]) is Some ==> positions_view(slots[j])
                        == candidate_positions(texts@, needles@, j),
                forall|x: int, k: int|
                    0 <= x < g && 0 <= k < groups[x].members.len() ==> positions_view(
                        slots[#[trigger] groups[x].members[k] as int],
                    ) == candidate_positions(texts@, needles@, groups[x].members[k] as int),
                forall|p: int|
                    found.len() <= p < all.len() ==> positions_view(
                        slots[group.members[(#[trigger] all[p]).index as int] as int],
                    ) == candidate_positions(texts@, needles@, group.members[all[p].index as int] as int),
            decreases found.len(),
        {
            let ghost p = found.len() - 1;
            let e = found.pop().unwrap();
            assert(e == all[p]);
            let j = group.members[e.index];
            assert(candidate_positions(texts@, needles@, j as int) == Some(e.positions@));
            let ghost before = slots@;
            slots.set(j, Some(e.positions));
            proof {
                assert(found@ =~= all.take(found.len() as int));
                assert forall|x: int, k: int|
                    0 <= x < g && 0 <= k < groups[x].members.len() implies positions_view(
                        slots[#[trigger] groups[x].members[k] as int],
                    ) == candidate_positions(texts@, needles@, groups[x].members[k] as int) by {
                    assert(group_wf(groups@[x], texts@, needles@));
                    assert(positions_view(before[groups[x].members[k] as int]) == candidate_positions(
                        texts@,
                        needles@,
                        groups[x].members[k] as int,
                    ));
                }
            }
        }
        proof {
            assert forall|k: int| 0 <= k < group.members.len() implies positions_view(
                slots[#[trigger] group.members[k] as int],
            ) == candidate_positions(texts@, needles@, group.members[k] as int) by {
                let j = group.members[k] as int;
                if frizbee_positions(group.needle@, group.texts[k]@) is Some {
                    let p = choose|p: int| 0 <= p < all.len() && all[p].index == k;
                    assert(positions_view(slots[group.members[all[p].index as int] as int])
                        == candidate_positions(texts@, needles@, j));
                } else if slots[j] is Some {
                    assert(positions_view(slots[j]) == candidate_positions(texts@, needles@, j));
                }
            }
        }
        g = g + 1;
    }
    proof {
        assert forall|j: int| 0 <= j < n implies positions_view(#[trigger] slots[j])
            == candidate_positions(texts@, needles@, j) by {
            assert(in_some_group(groups@, j));
            let (x, k) = choose|x: int, k: int|
                0 <= x < groups.len() && 0 <= k < groups[x].members.len() && #[trigger] groups[x].members[k] == j;
        }
    }
    slots
}

/// What the matcher gives candidate `j` of `haystack`: its own bounded text
/// matched against its own needle.
pub open spec fn candidate_match(
    haystack: Seq<LspItem>,
    needles: Seq<String>,
    max_typos: u16,
    j: int,
) -> Option<(u16, bool)> {
    frizbee_score(needles[j]@, bounded_text(matchable_text(haystack[j])), max_typos)
}

/// What the matcher gives each candidate of `haystack`, by index.
pub open spec fn match_table(haystack: Seq<LspItem>, needles: Seq<String>, max_typos: u16) -> Seq<
    Option<(u16, bool)>,
> {
    Seq::new(haystack.len(), |j: int| candidate_match(haystack, needles, max_typos, j))
}

/// `(scores, indices, exact)` lists the candidates that `matches` marks as
/// matched, in ascending order of index, each with its composed score and
/// exactness; no other candidate appears.
pub open spec fn is_assembled(
    haystack: Seq<LspItem>,
    frecency: Seq<i32>,
    opts: FuzzyOptions,
    matches: Seq<Option<(u16, bool)>>,
    scores: Seq<i64>,
    indices: Seq<u32>,
    exact: Seq<bool>,
) -> bool {
    &&& scores.len() == indices.len()
    &&& exact.len() == indices.len()
    &&& forall|k: int, l: int| 0 <= k < l < indices.len() ==> indices[k] < indices[l]
    &&& forall|k: int|
        0 <= k < indices.len() ==> {
            let j = (#[trigger] indices[k]) as int;
            &&& j < matches.len()
            &&& matches[j] is Some
            &&& scores[k] == composed_score(haystack[j], frecency[j], opts, matches[j].unwrap().0)
            &&& exact[k] == matches[j].unwrap().1
        }
    &&& forall|j: int|
        0 <= j < matches.len() && (#[trigger] matches[j]) is Some ==> exists|k: int|
            0 <= k < indices.len() && indices[k] == j
}

/// `(scores, indices, exact)` is the outcome of matching `haystack`: one entry
/// per matched candidate, in ascending order of index, with its composed score
/// and exactness; no other candidate appears.
pub open spec fn is_fuzzy_result(
    haystack: Seq<LspItem>,
    needles: Seq<String>,
    frecency: Seq<i32>,
    opts: FuzzyOptions,
    scores: Seq<i64>,
    indices: Seq<u32>,
    exact: Seq<bool>,
) -> bool {
    is_assembled(haystack, frecency, opts, match_table(haystack, needles, opts.max_typos), scores, indices, exact)
}

/// The text each candidate is matched by: its filter text, else its label,
/// bounded in length.
pub fn match_texts(haystack: &Vec<LspItem>) -> (r: Vec<String>)
    ensures
        r.len() == haystack.len(),
        forall|j: int| 0 <= j < r.len() ==> (#[trigger] r[j])@ == bounded_text(matchable_text(haystack[j])),
{
    let mut texts: Vec<String> = Vec::new();
    let mut j: usize = 0;
    while j < haystack.len()
        invariant
            j <= haystack.len(),
            texts.len() == j,
            forall|i: int| 0 <= i < j ==> (#[trigger] texts[i])@ == bounded_text(matchable_text(haystack[i])),
        decreases haystack.len() - j,
    {
        let item = &haystack[j];
        let text = match &item.filter_text {
            Some(f) => bound_text(f),
            None => bound_text(&item.label),
        };
        texts.push(text);
        j = j + 1;
    }
    texts
}

/// Whether `label` is one of `words`.
fn contains_word(words: &Vec<String>, label: &String) -> (r: bool)
    ensures
        r == exists|i: int| 0 <= i < words.len() && (#[trigger] words[i])@ == label@,
{
    let mut i: usize = 0;
    while i < words.len()
        invariant
            i <= words.len(),
            forall|h: int| 0 <= h < i ==> (#[trigger] words[h])@ != label@,
        decreases words.len() - i,
    {
        if words[i] == *label {
            return true;
        }
        i = i + 1;
    }
    false
}

/// Score of a candidate whose text matched with `raw` points: the raw score,
/// the usage bonus where enabled, 2 where proximity is enabled and the label is
/// a nearby word, the candidate's own offset, and the snippet offset for snippets.
pub fn compose_score(item: &LspItem, frecency: i32, opts: &FuzzyOptions, raw: u16) -> (r: i64)
    ensures
        r == composed_score(*item, frecency, *opts, raw),
{
    let frecency_bonus: i64 = if opts.use_frecency {
        frecency as i64
    } else {
        0
    };
    let proximity_bonus: i64 = if opts.use_proximity {
        match &opts.nearby_words {
            Some(words) => if contains_word(words, &item.label) {
                2
            } else {
                0
            },
            None => 0,
        }
    } else {
        0
    };
    let kind_offset: i64 = match item.kind {
        CompletionItemKind::Snippet => opts.snippet_score_offset as i64,
        _ => 0,
    };
    raw as i64 + frecency_bonus + proximity_bonus + item.score_offset as i64 + kind_offset
}

/// Builds the result from what the matcher gave each candidate: for the
/// candidates that `matches` marks as matched, in ascending order of index,
/// their composed scores, indices and exactness. `frecency[j]` is the usage
/// bonus of `haystack[j]`.
pub fn assemble_scores(
    haystack: &Vec<LspItem>,
    frecency: &Vec<i32>,
    opts: &FuzzyOptions,
    matches: &Vec<Option<(u16, bool)>>,
) -> (r: (Vec<i64>, Vec<u32>, Vec<bool>))
    requires
        frecency.len() == haystack.len(),
        matches.len() == haystack.len(),
        haystack.len() <= u32::MAX,
    ensures
        is_assembled(haystack@, frecency@, *opts, matches@, r.0@, r.1@, r.2@),
{
    let n = haystack.len();
    let mut scores: Vec<i64> = Vec::new();
    let mut indices: Vec<u32> = Vec::new();
    let mut exact: Vec<bool> = Vec::new();
    let mut j: usize = 0;
    while j < n
        invariant
            n == haystack.len() == frecency.len() == matches.len(),
            n <= u32::MAX,
            j <= n,
            scores.len() == indices.len(),
            exact.len() == indices.len(),
            forall|k: int| 0 <= k < indices.len() ==> indices[k] < j,
            forall|k: int, l: int| 0 <= k < l < indices.len() ==> indices[k] < indices[l],
            forall|k: int|
                0 <= k < indices.len() ==> {
                    let i = (#[trigger] indices[k]) as int;
                    &&& i < matches.len()
                    &&& matches[i] is Some
                    &&& scores[k] == composed_score(haystack[i], frecency[i], *opts, matches[i].unwrap().0)
                    &&& exact[k] == matches[i].unwrap().1
                },
            forall|i: int|
                0 <= i < j && (#[trigger] matches[i]) is Some ==> exists|k: int|
                    0 <= k < indices.len() && indices[k] == i,
        decreases n - j,
    {
        let ghost old_indices = indices@;
        match matches[j] {
            Some((raw, is_exact)) => {
                let score = compose_score(&haystack[j], frecency[j], opts, raw);
                scores.push(score);
                indices.push(j as u32);
                exact.push(is_exact);
                proof {
                    assert(indices[indices.len() - 1] == j);
                }
            },
            None => {},
        }
        proof {
            assert forall|i: int| 0 <= i < j + 1 && (#[trigger] matches[i]) is Some implies exists|k: int|
                0 <= k < indices.len() && indices[k] == i by {
                if i == j {
                    assert(indices[indices.len() - 1] == j);
                } else {
                    let k = choose|k: int| 0 <= k < old_indices.len() && old_indices[k] == i;
                    assert(indices[k] == i);
                }
            }
        }
        j = j + 1;
    }
    (scores, indices, exact)
}

/// Matches each candidate against its own needle and returns, for the candidates
/// that matched and in ascending order of index, their composed scores, indices
/// and exactness. `needles[j]` is the needle of `haystack[j]`, derived from its
/// bounded text (`match_texts`); `frecency[j]` is its usage bonus.
pub fn fuzzy(
    haystack: &Vec<LspItem>,
    needles: &Vec<String>,
    frecency: &Vec<i32>,
    opts: FuzzyOptions,
) -> (r: (Vec<i64>, Vec<u32>, Vec<bool>))
    requires
        needles.len() == haystack.len(),
        frecency.len() == haystack.len(),
        haystack.len() <= u32::MAX,
    ensures
        is_fuzzy_result(haystack@, needles@, frecency@, opts, r.0@, r.1@, r.2@),
{
    let texts = match_texts(haystack);
    let groups = group_by_needle(&texts, needles);
    let slots = score_groups(&groups, &texts, needles, opts.max_typos);
    proof {
        assert forall|j: int| 0 <= j < slots.len() implies slots[j] == match_table(
            haystack@,
            needles@,
            opts.max_typos,
        )[j] by {
            assert(texts[j]@ == bounded_text(matchable_text(haystack[j])));
        }
        assert(slots@ =~= match_table(haystack@, needles@, opts.max_typos));
    }
    assemble_scores(haystack, frecency, &opts, &slots)
}

/// Candidates below `upto` that the matcher keeps in the positions variant, in
/// ascending order.
pub open spec fn matched_ids(haystack: Seq<String>, needles: Seq<String>, upto: int) -> Seq<int>
    decreases upto,
{
    if upto <= 0 {
        seq![]
    } else {
        let prev = matched_ids(haystack, needles, upto - 1);
        if frizbee_positions(needles[upto - 1]@, haystack[upto - 1]@) is Some {
            prev.push(upto - 1)
        } else {
            prev
        }
    }
}

/// Matches each text against its own needle and returns, for the texts that
/// matched and in ascending order of index, the positions that matched.
/// `needles[j]` is the needle of `haystack[j]`.
pub fn fuzzy_matched_indices(haystack: &Vec<String>, needles: &Vec<String>) -> (r: Vec<Vec<usize>>)
    requires
        needles.len() == haystack.len(),
        haystack.len() <= u32::MAX,
    ensures
        r.len() == matched_ids(haystack@, needles@, haystack.len() as int).len(),
        forall|k: int|
            0 <= k < r.len() ==> {
                let j = #[trigger] matched_ids(haystack@, needles@, haystack.len() as int)[k];
                frizbee_positions(needles[j]@, haystack[j]@) == Some(r[k]@)
            },
{
    let groups = group_by_needle(haystack, needles);
    let mut slots = position_groups(&groups, haystack, needles);
    let n = haystack.len();
    let mut out: Vec<Vec<usize>> = Vec::new();
    let mut j: usize = 0;
    while j < n
        invariant
            n == haystack.len() == needles.len() == slots.len(),
            j <= n,
            forall|i: int| j <= i < n ==> positions_view(#[trigger] slots[i]) == candidate_positions(haystack@, needles@, i),
            out.len() == matched_ids(haystack@, needles@, j as int).len(),
            forall|k: int|
                0 <= k < out.len() ==> {
                    let i = #[trigger] matched_ids(haystack@, needles@, j as int)[k];
                    frizbee_positions(needles[i]@, haystack[i]@) == Some(out[k]@)
                },
        decreases n - j,
    {
        let mut taken: Option<Vec<usize>> = None;
        slots.set_and_swap(j, &mut taken);
        assert(positions_view(taken) == candidate_positions(haystack@, needles@, j as int));
        let ghost prev = matched_ids(haystack@, needles@, j as int);
        match taken {
            Some(positions) => {
                out.push(positions);
                proof {
                    assert(matched_ids(haystack@, needles@, j + 1) == prev.push(j as int));
                }
            },
            None => {
                proof {
                    assert(matched_ids(haystack@, needles@, j + 1) == prev);
                }
            },
        }
        j = j + 1;
    }
    out
}

} // verus!
