use blink_cmp_fuzzy::fuzzy::{assemble_scores, compose_score, fuzzy, fuzzy_matched_indices, group_by_needle, match_texts};
use blink_cmp_fuzzy::text::bound_text;
use blink_cmp_fuzzy::types::{CompletionItemKind, FuzzyOptions, LspItem};

fn item(label: &str) -> LspItem {
    LspItem {
        label: label.to_string(),
        filter_text: None,
        kind: CompletionItemKind::Text,
        score_offset: 0,
    }
}

fn options() -> FuzzyOptions {
    FuzzyOptions {
        match_suffix: false,
        max_typos: 0,
        use_frecency: false,
        use_proximity: false,
        nearby_words: None,
        snippet_score_offset: 0,
    }
}

fn strings(words: &[&str]) -> Vec<String> {
    words.iter().map(|w| w.to_string()).collect()
}

#[test]
fn shared_needle_keeps_matching_candidates_in_order() {
    let haystack = vec![item("foo"), item("bar"), item("foobar")];
    let needles = strings(&["foo", "foo", "foo"]);
    let (scores, indices, exact) = fuzzy(&haystack, &needles, &vec![0, 0, 0], options());
    assert_eq!(indices, vec![0, 2]);
    assert_eq!(scores.len(), 2);
    assert_eq!(exact.len(), 2);
    assert!(exact[0]);
    assert!(!exact[1]);
}

#[test]
fn empty_candidate_list_gives_empty_results() {
    let (scores, indices, exact) = fuzzy(&Vec::new(), &Vec::new(), &Vec::new(), options());
    assert!(scores.is_empty() && indices.is_empty() && exact.is_empty());
    assert!(fuzzy_matched_indices(&Vec::new(), &Vec::new()).is_empty());
}

#[test]
fn long_ascii_text_is_cut_to_the_byte_limit() {
    let text = "a".repeat(2000);
    let bounded = bound_text(&text);
    assert_eq!(bounded.len(), 1024);
    assert!(text.starts_with(&bounded));
}

#[test]
fn short_text_is_kept_whole() {
    let text = "héllo".to_string();
    assert_eq!(bound_text(&text), text);
    let exact = "b".repeat(1024);
    assert_eq!(bound_text(&exact), exact);
}

#[test]
fn cut_never_splits_a_character() {
    let text = format!("{}é{}", "a".repeat(1023), "z".repeat(10));
    let bounded = bound_text(&text);
    assert_eq!(bounded.len(), 1023);
    assert_eq!(bounded, "a".repeat(1023));
    let wide = "€".repeat(400);
    let bounded_wide = bound_text(&wide);
    assert_eq!(bounded_wide.len(), 1023);
    assert_eq!(bounded_wide.chars().count(), 341);
}

#[test]
fn filter_text_is_matched_instead_of_label() {
    let mut with_filter = item("label");
    with_filter.filter_text = Some("filter".to_string());
    let long = item(&"x".repeat(1500));
    let texts = match_texts(&vec![with_filter, item("plain"), long]);
    assert_eq!(texts[0], "filter");
    assert_eq!(texts[1], "plain");
    assert_eq!(texts[2].len(), 1024);
}

#[test]
fn frecency_ignored_when_disabled() {
    let haystack = vec![item("foo")];
    let needles = strings(&["foo"]);
    let (base, _, _) = fuzzy(&haystack, &needles, &vec![0], options());
    let (large, _, _) = fuzzy(&haystack, &needles, &vec![1_000_000], options());
    assert_eq!(base, large);
    let mut opts = options();
    opts.use_frecency = true;
    let (counted, _, _) = fuzzy(&haystack, &needles, &vec![1_000_000], opts);
    assert_eq!(counted[0], base[0] + 1_000_000);
}

#[test]
fn nearby_label_adds_two_once() {
    let haystack = vec![item("foo"), item("food")];
    let needles = strings(&["foo", "foo"]);
    let (base, _, _) = fuzzy(&haystack, &needles, &vec![0, 0], options());
    let mut opts = options();
    opts.use_proximity = true;
    opts.nearby_words = Some(strings(&["foo", "foo", "bar"]));
    let (near, indices, _) = fuzzy(&haystack, &needles, &vec![0, 0], opts);
    assert_eq!(indices, vec![0, 1]);
    assert_eq!(near[0], base[0] + 2);
    assert_eq!(near[1], base[1]);
}

#[test]
fn proximity_needs_its_flag() {
    let haystack = vec![item("foo")];
    let needles = strings(&["foo"]);
    let (base, _, _) = fuzzy(&haystack, &needles, &vec![0], options());
    let mut opts = options();
    opts.nearby_words = Some(strings(&["foo"]));
    let (off, _, _) = fuzzy(&haystack, &needles, &vec![0], opts);
    assert_eq!(off, base);
}

#[test]
fn snippet_offset_added_once() {
    let mut snippet = item("foo");
    snippet.kind = CompletionItemKind::Snippet;
    let haystack = vec![item("foo"), snippet];
    let needles = strings(&["foo", "foo"]);
    let mut opts = options();
    opts.snippet_score_offset = -3;
    let (scores, indices, _) = fuzzy(&haystack, &needles, &vec![0, 0], opts);
    assert_eq!(indices, vec![0, 1]);
    assert_eq!(scores[1], scores[0] - 3);
}

#[test]
fn score_offset_of_candidate_is_added() {
    let mut biased = item("foo");
    biased.score_offset = 7;
    let haystack = vec![item("foo"), biased];
    let needles = strings(&["foo", "foo"]);
    let (scores, _, _) = fuzzy(&haystack, &needles, &vec![0, 0], options());
    assert_eq!(scores[1], scores[0] + 7);
}

#[test]
fn composed_score_sums_its_terms() {
    let mut snippet = item("near");
    snippet.kind = CompletionItemKind::Snippet;
    snippet.score_offset = -4;
    let opts = FuzzyOptions {
        match_suffix: false,
        max_typos: 0,
        use_frecency: true,
        use_proximity: true,
        nearby_words: Some(strings(&["near"])),
        snippet_score_offset: 10,
    };
    assert_eq!(compose_score(&snippet, 5, &opts, 30), 30 + 5 + 2 - 4 + 10);
    assert_eq!(compose_score(&item("far"), 5, &options(), 30), 30);
    assert_eq!(compose_score(&item("x"), i32::MIN, &opts, u16::MAX), u16::MAX as i64 + i32::MIN as i64);
}

#[test]
fn candidates_match_only_their_own_needle() {
    let haystack = vec![item("apple"), item("banana")];
    let own = fuzzy(&haystack, &strings(&["apl", "bnn"]), &vec![0, 0], options());
    assert_eq!(own.1, vec![0, 1]);
    let swapped = fuzzy(&haystack, &strings(&["bnn", "apl"]), &vec![0, 0], options());
    assert!(swapped.1.is_empty());
    let positions = fuzzy_matched_indices(&strings(&["apple", "banana"]), &strings(&["apl", "bnn"]));
    assert_eq!(positions.len(), 2);
    assert_eq!(positions[0].len(), 3);
    assert_eq!(positions[1].len(), 3);
    let swapped_positions = fuzzy_matched_indices(&strings(&["apple", "banana"]), &strings(&["bnn", "apl"]));
    assert!(swapped_positions.is_empty());
}

#[test]
fn empty_needle_keeps_every_candidate_at_zero() {
    let haystack = vec![item("foo"), item("bar")];
    let (scores, indices, exact) = fuzzy(&haystack, &strings(&["", ""]), &vec![0, 0], options());
    assert_eq!(indices, vec![0, 1]);
    assert_eq!(scores, vec![0, 0]);
    assert_eq!(exact, vec![false, false]);
}

#[test]
fn matched_positions_skip_unmatched_candidates() {
    let haystack = strings(&["foo", "bar", "foobar"]);
    let needles = strings(&["foo", "foo", "foo"]);
    let positions = fuzzy_matched_indices(&haystack, &needles);
    assert!(positions.len() <= haystack.len());
    assert_eq!(positions.len(), 2);
    let mut first = positions[0].clone();
    first.sort();
    assert_eq!(first, vec![0, 1, 2]);
    let mut last = positions[1].clone();
    last.sort();
    assert_eq!(last, vec![0, 1, 2]);
}

#[test]
fn assembly_follows_given_matcher_results() {
    let mut snippet = item("near");
    snippet.kind = CompletionItemKind::Snippet;
    let haystack = vec![item("a"), snippet, item("c")];
    let mut opts = options();
    opts.use_frecency = true;
    opts.use_proximity = true;
    opts.nearby_words = Some(strings(&["near"]));
    opts.snippet_score_offset = 5;
    let matches = vec![None, Some((10, true)), Some((3, false))];
    let (scores, indices, exact) = assemble_scores(&haystack, &vec![100, 20, 1], &opts, &matches);
    assert_eq!(indices, vec![1, 2]);
    assert_eq!(scores, vec![10 + 20 + 2 + 5, 3 + 1]);
    assert_eq!(exact, vec![true, false]);
    let none = assemble_scores(&haystack, &vec![0, 0, 0], &opts, &vec![None, None, None]);
    assert!(none.1.is_empty());
}

#[test]
fn empty_list_gives_no_groups() {
    assert!(group_by_needle(&Vec::new(), &Vec::new()).is_empty());
}

#[test]
fn groups_follow_first_appearance() {
    let texts = strings(&["a", "b", "c", "d"]);
    let needles = strings(&["x", "y", "x", "z"]);
    let groups = group_by_needle(&texts, &needles);
    assert_eq!(groups.len(), 3);
    assert_eq!(groups[0].needle, "x");
    assert_eq!(groups[0].members, vec![0, 2]);
    assert_eq!(groups[0].texts, strings(&["a", "c"]));
    assert_eq!(groups[1].members, vec![1]);
    assert_eq!(groups[2].members, vec![3]);
}

#[test]
fn kinds_follow_protocol_numbers() {
    assert_eq!(CompletionItemKind::from_lsp(15), Some(CompletionItemKind::Snippet));
    assert_eq!(CompletionItemKind::from_lsp(6), Some(CompletionItemKind::Variable));
    assert_eq!(CompletionItemKind::from_lsp(1), Some(CompletionItemKind::Text));
    assert_eq!(CompletionItemKind::from_lsp(25), Some(CompletionItemKind::TypeParameter));
    assert_eq!(CompletionItemKind::from_lsp(0), None);
    assert_eq!(CompletionItemKind::from_lsp(26), None);
}
