use rhc::interactive::cut_to_current_word_start;
use rhc::interactive::SelectorEvent;
use rhc::interactive::SelectorOutcome;
use rhc::interactive::SelectorState;

#[test]
fn test_cut_to_current_word_start() {
    let tests = vec![
        ("one two three four", "one two three "),
        ("one two three four ", "one two three "),
        ("one ", ""),
        ("one  ", ""),
        ("one   two   three", "one   two   "),
        ("a", ""),
    ];

    for (start, expected) in tests {
        let mut s = start.to_owned();
        cut_to_current_word_start(&mut s);
        assert_eq!(s, expected)
    }
}

#[test]
fn selector_starts_blank() {
    let s = SelectorState::new();
    assert_eq!(s.query, "");
    assert!(s.selected.is_none());
    assert!(s.active_env_index.is_none());
    assert!(s.primed.is_none());
}

#[test]
fn reconcile_never_leaves_selection_out_of_bounds() {
    // Whatever sequence of query edits shrank the filtered view, the next
    // render's selection index is below the view's length, or absent when
    // the view is empty.
    let mut s = SelectorState::new();
    s.selected = Some(7);
    s.reconcile(3);
    assert_eq!(s.selected, Some(2));
    s.reconcile(0);
    assert_eq!(s.selected, None);
    s.reconcile(4);
    assert_eq!(s.selected, Some(0));
    s.reconcile(4);
    assert_eq!(s.selected, Some(0));
}

fn three_paths() -> Vec<String> {
    vec!["a".to_owned(), "b".to_owned(), "c".to_owned()]
}

#[test]
fn selector_navigation_clamps_at_bounds() {
    let filtered = three_paths();
    let mut s = SelectorState::new();
    s.reconcile(filtered.len());
    assert_eq!(s.selected, Some(0));
    // Down from the bottom entry stays put.
    s.handle_event(SelectorEvent::MoveDown, &filtered, 0);
    assert_eq!(s.selected, Some(0));
    s.handle_event(SelectorEvent::MoveUp, &filtered, 0);
    s.handle_event(SelectorEvent::MoveUp, &filtered, 0);
    assert_eq!(s.selected, Some(2));
    // Up from the top entry stays put: no wraparound.
    s.handle_event(SelectorEvent::MoveUp, &filtered, 0);
    assert_eq!(s.selected, Some(2));
}

#[test]
fn selector_confirm_primes_selected_path() {
    let filtered = three_paths();
    let mut s = SelectorState::new();
    s.reconcile(filtered.len());
    s.handle_event(SelectorEvent::MoveUp, &filtered, 0);
    let out = s.handle_event(SelectorEvent::Confirm, &filtered, 0);
    assert!(matches!(out, SelectorOutcome::Confirmed));
    assert_eq!(s.primed.as_deref(), Some("b"));
}

#[test]
fn selector_confirm_without_selection_continues() {
    let filtered: Vec<String> = Vec::new();
    let mut s = SelectorState::new();
    s.reconcile(0);
    let out = s.handle_event(SelectorEvent::Confirm, &filtered, 0);
    assert!(matches!(out, SelectorOutcome::Continue));
    assert!(s.primed.is_none());
}

#[test]
fn selector_cancel_primes_nothing() {
    let filtered = three_paths();
    let mut s = SelectorState::new();
    s.reconcile(filtered.len());
    let out = s.handle_event(SelectorEvent::Cancel, &filtered, 0);
    assert!(matches!(out, SelectorOutcome::Cancelled));
    assert!(s.primed.is_none());
}

#[test]
fn selector_environment_cycles_through_none() {
    let filtered = three_paths();
    let mut s = SelectorState::new();
    // Forward: none -> 0 -> 1 -> none -> 0.
    s.handle_event(SelectorEvent::NextEnvironment, &filtered, 2);
    assert_eq!(s.active_env_index, Some(0));
    s.handle_event(SelectorEvent::NextEnvironment, &filtered, 2);
    assert_eq!(s.active_env_index, Some(1));
    s.handle_event(SelectorEvent::NextEnvironment, &filtered, 2);
    assert_eq!(s.active_env_index, None);
    s.handle_event(SelectorEvent::NextEnvironment, &filtered, 2);
    assert_eq!(s.active_env_index, Some(0));
    // Backward: 0 -> none -> last.
    s.handle_event(SelectorEvent::PrevEnvironment, &filtered, 2);
    assert_eq!(s.active_env_index, None);
    s.handle_event(SelectorEvent::PrevEnvironment, &filtered, 2);
    assert_eq!(s.active_env_index, Some(1));
    // With no environments loaded the index stays absent.
    let mut t = SelectorState::new();
    t.handle_event(SelectorEvent::NextEnvironment, &filtered, 0);
    assert_eq!(t.active_env_index, None);
    t.handle_event(SelectorEvent::PrevEnvironment, &filtered, 0);
    assert_eq!(t.active_env_index, None);
}

#[test]
fn selector_query_editing() {
    let filtered = three_paths();
    let mut s = SelectorState::new();
    s.handle_event(SelectorEvent::Char('a'), &filtered, 0);
    s.handle_event(SelectorEvent::Char('b'), &filtered, 0);
    assert_eq!(s.query, "ab");
    s.handle_event(SelectorEvent::Backspace, &filtered, 0);
    assert_eq!(s.query, "a");
    s.handle_event(SelectorEvent::Backspace, &filtered, 0);
    s.handle_event(SelectorEvent::Backspace, &filtered, 0);
    assert_eq!(s.query, "");
    s.handle_event(SelectorEvent::Char('x'), &filtered, 0);
    s.handle_event(SelectorEvent::Char(' '), &filtered, 0);
    s.handle_event(SelectorEvent::Char('y'), &filtered, 0);
    s.handle_event(SelectorEvent::CutWord, &filtered, 0);
    assert_eq!(s.query, "x ");
    s.handle_event(SelectorEvent::ClearQuery, &filtered, 0);
    assert_eq!(s.query, "");
}
