//! The approximate string matcher, as the library relies on it.
use vstd::prelude::*;

verus! {

/// Score and exactness that frizbee's matcher gives `haystack` against `needle`
/// with at most `max_typos` typos, or `None` where the haystack is filtered out.
pub uninterp spec fn frizbee_score(needle: Seq<char>, haystack: Seq<char>, max_typos: u16) -> Option<(u16, bool)>;

/// Positions that frizbee's matcher reports as matched in `haystack` against
/// `needle`, with no typo allowed, or `None` where the haystack is filtered out.
pub uninterp spec fn frizbee_positions(needle: Seq<char>, haystack: Seq<char>) -> Option<Seq<usize>>;

/// One haystack entry that the matcher kept.
pub struct ScoredEntry {
    pub index: usize,
    pub score: u16,
    pub exact: bool,
}

/// One haystack entry that the matcher kept, with its matched positions.
pub struct PositionedEntry {
    pub index: usize,
    pub positions: Vec<usize>,
}

/// Relies on frizbee::Matcher::match_list, with `max_typos` and index-ascending
/// order: it scores each haystack entry on its own, keeps those that match, in
/// ascending index order, and with an empty needle keeps all of them with score 0,
/// not exact. It panics on more than `u32::MAX` entries.
#[verifier::external_body]
pub(crate) fn match_scores(needle: &String, haystack: &Vec<String>, max_typos: u16) -> (r: Vec<ScoredEntry>)
    requires
        haystack.len() <= u32::MAX,
    ensures
        forall|k: int|
            0 <= k < r.len() ==> (#[trigger] r[k]).index < haystack.len() && frizbee_score(
                needle@,
                haystack[r[k].index as int]@,
                max_typos,
            ) == Some((r[k].score, r[k].exact)),
        forall|k: int, l: int| 0 <= k < l < r.len() ==> r[k].index < r[l].index,
        forall|i: int|
            0 <= i < haystack.len() && (#[trigger] frizbee_score(needle@, haystack[i]@, max_typos)) is Some
                ==> exists|k: int| 0 <= k < r.len() && r[k].index == i,
        needle@.len() == 0 ==> r.len() == haystack.len() && forall|k: int|
            0 <= k < r.len() ==> (#[trigger] r[k]).score == 0 && !r[k].exact,
{
    let config = frizbee::Config {
        max_typos: Some(max_typos),
        sort: frizbee::SortStrategy::IndexAsc,
        ..frizbee::Config::default()
    };
    let mut matcher = frizbee::Matcher::new(needle.as_str(), &config);
    matcher.match_list(haystack.as_slice()).into_iter().map(
        |m| ScoredEntry { index: m.index as usize, score: m.score, exact: m.exact },
    ).collect()
}

/// Relies on frizbee::Matcher::match_list_indices, with no typo allowed and
/// index-ascending order: it matches each haystack entry on its own, keeps those
/// that match, in ascending index order, with the positions that matched. It
/// panics on more than `u32::MAX` entries.
#[verifier::external_body]
pub(crate) fn match_positions(needle: &String, haystack: &Vec<String>) -> (r: Vec<PositionedEntry>)
    requires
        haystack.len() <= u32::MAX,
    ensures
        forall|k: int|
            0 <= k < r.len() ==> (#[trigger] r[k]).index < haystack.len() && frizbee_positions(
                needle@,
                haystack[r[k].index as int]@,
            ) == Some(r[k].positions@),
        forall|k: int, l: int| 0 <= k < l < r.len() ==> r[k].index < r[l].index,
        forall|i: int|
            0 <= i < haystack.len() && (#[trigger] frizbee_positions(needle@, haystack[i]@)) is Some
                ==> exists|k: int| 0 <= k < r.len() && r[k].index == i,
{
    let config = frizbee::Config {
        max_typos: Some(0),
        sort: frizbee::SortStrategy::IndexAsc,
        ..frizbee::Config::default()
    };
    let mut matcher = frizbee::Matcher::new(needle.as_str(), &config);
    matcher.match_list_indices(haystack.as_slice()).into_iter().map(
        |m| PositionedEntry {
            index: m.index as usize,
            positions: m.indices.into_iter().map(|p| p as usize).collect(),
        },
    ).collect()
}

} // verus!
