use rhc::fuzzy::fuzzy_rank;
use rhc::fuzzy::select_indices;

fn targets(items: &[&str]) -> Vec<String> {
    items.iter().map(|s| (*s).to_owned()).collect()
}

#[test]
fn empty_query_keeps_original_order_and_length() {
    let cands = targets(&["zebra", "apple", "mango"]);
    let order = fuzzy_rank("", &cands);
    assert_eq!(order, vec![0, 1, 2]);
    let picked = select_indices(&cands, &order);
    assert_eq!(picked, cands);
}

#[test]
fn non_matching_candidates_are_excluded() {
    let cands = targets(&["zzz", "abc"]);
    let order = fuzzy_rank("abc", &cands);
    assert_eq!(order, vec![1]);
}

#[test]
fn no_match_anywhere_gives_empty_view() {
    let cands = targets(&["one", "two"]);
    let order = fuzzy_rank("qqq", &cands);
    assert!(order.is_empty());
}

#[test]
fn exact_match_is_found() {
    let cands = targets(&["abc"]);
    let order = fuzzy_rank("abc", &cands);
    assert_eq!(order, vec![0]);
}

#[test]
fn better_match_ranks_first() {
    // A tight, word-starting match scores above a scattered one.
    let cands = targets(&["axxbxxc", "abc"]);
    let order = fuzzy_rank("abc", &cands);
    assert_eq!(order.len(), 2);
    assert_eq!(order[0], 1);
    assert_eq!(order[1], 0);
}
