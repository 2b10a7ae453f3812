use rhc::history::HistoryItem;
use rhc::history::HistoryStore;
use rhc::keyvalue::KeyValue;
use rhc::prompt::PromptEvent;
use rhc::prompt::PromptOutcome;
use rhc::prompt::PromptState;
use rhc::request_definition::Content;
use rhc::request_definition::Method;
use rhc::request_definition::Request;
use rhc::request_definition::RequestDefinition;
use rhc::templating::list_unbound_variables;
use rhc::templating::substitute_all;

fn names(list: &[&str]) -> Vec<String> {
    list.iter().map(|s| (*s).to_owned()).collect()
}

#[test]
fn typed_answer_advances_and_finishes() {
    let mut state = PromptState::new();
    let mut store = HistoryStore::new(Vec::new(), 10);
    let names = names(&["city"]);
    let filtered: Vec<String> = Vec::new();
    state.handle_event(&mut store, &names, "env", &filtered, PromptEvent::Char('o'));
    state.handle_event(&mut store, &names, "env", &filtered, PromptEvent::Char('s'));
    state.handle_event(&mut store, &names, "env", &filtered, PromptEvent::Char('l'));
    state.handle_event(&mut store, &names, "env", &filtered, PromptEvent::Char('o'));
    let (out, to_record) =
        state.handle_event(&mut store, &names, "env", &filtered, PromptEvent::Confirm);
    assert!(matches!(out, PromptOutcome::Finished));
    let recorded = to_record.expect("a novel typed answer is persisted");
    assert_eq!(recorded.name, "city");
    assert_eq!(recorded.env_name, "env");
    assert_eq!(state.answers.len(), 1);
    assert_eq!(state.answers[0].name, "city");
}

#[test]
fn empty_confirm_is_a_no_op() {
    let mut state = PromptState::new();
    let mut store = HistoryStore::new(Vec::new(), 10);
    let names = names(&["city"]);
    let filtered: Vec<String> = Vec::new();
    let (out, to_record) =
        state.handle_event(&mut store, &names, "env", &filtered, PromptEvent::Confirm);
    assert!(matches!(out, PromptOutcome::Continue));
    assert!(to_record.is_none());
    assert_eq!(state.current_index, 0);
    assert!(state.answers.is_empty());
}

#[test]
fn history_selection_answers_without_persisting() {
    let mut state = PromptState::new();
    let existing = vec![HistoryItem::new("city", "oslo", "env")];
    let mut store = HistoryStore::new(existing, 10);
    let names = names(&["city"]);
    let filtered = store.values_for("city", "env");
    assert_eq!(filtered, vec!["oslo"]);
    state.handle_event(&mut store, &names, "env", &filtered, PromptEvent::ToggleHistory);
    assert_eq!(state.history_selection, Some(0));
    let (out, to_record) =
        state.handle_event(&mut store, &names, "env", &filtered, PromptEvent::Confirm);
    assert!(matches!(out, PromptOutcome::Finished));
    assert!(to_record.is_none());
    assert_eq!(store.entries.len(), 1);
    assert_eq!(state.answers[0].value, "oslo");
}

#[test]
fn browsing_needs_a_non_empty_history() {
    let mut state = PromptState::new();
    let mut store = HistoryStore::new(Vec::new(), 10);
    let names = names(&["city"]);
    let filtered: Vec<String> = Vec::new();
    state.handle_event(&mut store, &names, "env", &filtered, PromptEvent::ToggleHistory);
    assert_eq!(state.history_selection, None);
}

#[test]
fn editing_the_query_leaves_browsing_mode() {
    // A query edit while browsing history returns to typing mode, so the
    // selection can never outlive the filtered list it pointed into.
    let mut state = PromptState::new();
    let existing = vec![HistoryItem::new("city", "oslo", "env")];
    let mut store = HistoryStore::new(existing, 10);
    let names = names(&["city"]);
    let filtered = store.values_for("city", "env");
    state.handle_event(&mut store, &names, "env", &filtered, PromptEvent::ToggleHistory);
    assert_eq!(state.history_selection, Some(0));
    state.handle_event(&mut store, &names, "env", &filtered, PromptEvent::Char('x'));
    assert_eq!(state.history_selection, None);
    assert_eq!(state.query, "x");
}

#[test]
fn urlencoded_body_resolved_through_prompt() {
    // Definition body UrlEncoded([{name:"{v}", value:"{v}"}]), no
    // environment; the user types v=x at the prompt; the resolved body is
    // [{name:"x", value:"x"}].
    let mut def = RequestDefinition {
        metadata: None,
        request: Request { url: "u".to_owned(), method: Method::POST },
        query: None,
        body: Some(Content::UrlEncoded(vec![KeyValue::new("{v}", "{v}")])),
        headers: None,
    };
    let unbound = list_unbound_variables(&def);
    assert_eq!(unbound, vec!["v"]);

    let mut state = PromptState::new();
    let mut store = HistoryStore::new(Vec::new(), 10);
    let filtered: Vec<String> = Vec::new();
    state.handle_event(&mut store, &unbound, "<none>", &filtered, PromptEvent::Char('x'));
    let (out, _) =
        state.handle_event(&mut store, &unbound, "<none>", &filtered, PromptEvent::Confirm);
    assert!(matches!(out, PromptOutcome::Finished));

    substitute_all(&mut def, &state.answers);
    match def.body.as_ref().unwrap() {
        Content::UrlEncoded(params) => {
            assert_eq!(params.len(), 1);
            assert_eq!(params[0].name, "x");
            assert_eq!(params[0].value, "x");
        }
        _ => panic!("body changed encoding"),
    }
}

#[test]
fn cancel_on_second_variable_aborts_after_first_answer_was_persisted() {
    // Two unbound variables; the user answers the first and cancels while
    // answering the second: the prompt reports an abort and returns no
    // complete answer set, though the first answer's history append had
    // already been handed out for flushing.
    let mut state = PromptState::new();
    let mut store = HistoryStore::new(Vec::new(), 10);
    let names = names(&["first", "second"]);
    let filtered: Vec<String> = Vec::new();
    state.handle_event(&mut store, &names, "env", &filtered, PromptEvent::Char('1'));
    let (out, to_record) =
        state.handle_event(&mut store, &names, "env", &filtered, PromptEvent::Confirm);
    assert!(matches!(out, PromptOutcome::Continue));
    assert!(to_record.is_some());
    assert_eq!(store.entries.len(), 1);

    state.handle_event(&mut store, &names, "env", &filtered, PromptEvent::Char('2'));
    let (out, to_record) =
        state.handle_event(&mut store, &names, "env", &filtered, PromptEvent::Cancel);
    assert!(matches!(out, PromptOutcome::Aborted));
    assert!(to_record.is_none());
    // The answer set is incomplete, so no request may be dispatched.
    assert!(state.answers.len() < names.len());
    // The flushed first answer is not rolled back.
    assert_eq!(store.entries.len(), 1);
    assert_eq!(store.entries[0].value, "1");
}
