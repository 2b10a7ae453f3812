//! The variable prompt: for each unbound variable name in turn, the user
//! either types a value or picks one from the filtered history. Typing
//! and history-browsing are mutually exclusive modes; editing the query
//! leaves browsing mode, so the selection can never outlive the list it
//! points into.

use vstd::prelude::*;

use crate::history::has_item;
use crate::history::item_eq;
use crate::history::no_duplicates;
use crate::history::HistoryItem;
use crate::history::HistoryStore;
use crate::interactive::cut_to_current_word_start;
use crate::interactive::cut_word;
use crate::keyvalue::KeyValue;
use crate::text::push_char;
use crate::text::truncate_chars;

verus! {

/// Does an entry with exactly these three fields occur in `entries`?
pub open spec fn has_triple(
    entries: Seq<HistoryItem>,
    name: Seq<char>,
    value: Seq<char>,
    env: Seq<char>,
) -> bool {
    exists|k: int|
        0 <= k < entries.len() && (#[trigger] entries[k]).name@ == name && entries[k].value@
            == value && entries[k].env_name@ == env
}

/// One key event recognized by the prompt.
pub enum PromptEvent {
    /// Abort the whole prompt; no answers are returned.
    Cancel,
    /// Delete the previous word of the query.
    CutWord,
    /// Clear the whole query.
    ClearQuery,
    /// Enter history-browsing mode (only when the filtered history is
    /// non-empty), or leave it.
    ToggleHistory,
    /// Move the history selection one entry up the list.
    MoveUp,
    /// Move the history selection one entry down the list.
    MoveDown,
    /// Confirm: answer with the selected history value, or with the typed
    /// query; an empty typed query is never an answer.
    Confirm,
    /// Delete the last character of the query.
    Backspace,
    /// Append one character to the query.
    Char(char),
}

/// How the prompt loop goes on after one event.
pub enum PromptOutcome {
    /// The user cancelled; nothing is returned and no request is sent.
    Aborted,
    /// Every variable has an answer; the loop ends.
    Finished,
    /// Keep prompting.
    Continue,
}

/// The prompt's mutable state.
pub struct PromptState {
    /// What the user has typed for the current variable.
    pub query: String,
    /// Which of the variable names is being answered.
    pub current_index: usize,
    /// The selected filtered-history entry; absent while the cursor is on
    /// the query line. Exactly one of the two modes is active at a time.
    pub history_selection: Option<usize>,
    /// The answers so far, one per already-answered name, in order.
    pub answers: Vec<KeyValue>,
}

/// One answer was produced: the state advanced to the next variable with
/// the per-variable query and selection reset, and the new answer binds
/// the current name to `value`.
pub open spec fn answered(
    pre: PromptState,
    post: PromptState,
    names: Seq<String>,
    value: Seq<char>,
) -> bool {
    &&& post.current_index == pre.current_index + 1
    &&& post.answers@.len() == pre.answers@.len() + 1
    &&& post.answers@.drop_last() == pre.answers@
    &&& post.answers@.last().name@ == names[pre.current_index as int]@
    &&& post.answers@.last().value@ == value
    &&& post.query@.len() == 0
    &&& post.history_selection is None
}

impl PromptState {
    /// The state is consistent with the names being prompted for: one
    /// answer per already-passed name, in order.
    pub open spec fn wf(&self, names: Seq<String>) -> bool {
        &&& self.answers@.len() == self.current_index
        &&& self.current_index <= names.len()
        &&& forall|k: int|
            0 <= k < self.answers@.len() ==> (#[trigger] self.answers@[k].name@) == names[k]@
    }

    /// The initial state: first variable, empty query, typing mode.
    pub fn new() -> (s: PromptState)
        ensures
            s.query@.len() == 0,
            s.current_index == 0,
            s.history_selection is None,
            s.answers@.len() == 0,
            forall|names: Seq<String>| s.wf(names),
    {
        PromptState {
            query: String::new(),
            current_index: 0,
            history_selection: None,
            answers: Vec::new(),
        }
    }

    /// Consume one key event. `filtered_values` is the history view the
    /// user saw rendered: the values for the current variable and
    /// environment, filtered against the current query. A new typed
    /// answer is recorded in `store`; when the caller must also append it
    /// to the log on disk, it is handed back.
    pub fn handle_event(
        &mut self,
        store: &mut HistoryStore,
        names: &Vec<String>,
        env_name: &str,
        filtered_values: &Vec<String>,
        event: PromptEvent,
    ) -> (res: (PromptOutcome, Option<HistoryItem>))
        requires
            old(self).wf(names@),
            old(self).current_index < names@.len(),
            match old(self).history_selection {
                Some(i) => i < filtered_values@.len(),
                None => true,
            },
        ensures
            final(self).wf(names@),
            final(store).max_items == old(store).max_items,
            no_duplicates(old(store).entries@) ==> no_duplicates(final(store).entries@),
            match final(self).history_selection {
                Some(i) => i < filtered_values@.len(),
                None => true,
            },
            !(event is Confirm) ==> final(store).entries@ == old(store).entries@ && final(self).current_index == old(self).current_index && final(self).answers == old(self).answers,
            match event {
                PromptEvent::Cancel => res.0 is Aborted && res.1 is None && *final(self) == *old(self),
                PromptEvent::CutWord => res.0 is Continue && res.1 is None && final(self).query@
                    == cut_word(old(self).query@, false) && final(self).history_selection is None,
                PromptEvent::ClearQuery => res.0 is Continue && res.1 is None && final(self).query@.len() == 0 && final(self).history_selection is None,
                PromptEvent::ToggleHistory => res.0 is Continue && res.1 is None && final(self).query == old(self).query && final(self).history_selection == (match old(self).history_selection {
                    Some(i) => None::<usize>,
                    None => if filtered_values@.len() > 0 {
                        Some(0usize)
                    } else {
                        None
                    },
                }),
                PromptEvent::MoveUp => res.0 is Continue && res.1 is None && final(self).query
                    == old(self).query && final(self).history_selection == (match old(self).history_selection {
                    Some(i) => if i + 1 < filtered_values@.len() {
                        Some((i + 1) as usize)
                    } else {
                        Some(i)
                    },
                    None => None::<usize>,
                }),
                PromptEvent::MoveDown => res.0 is Continue && res.1 is None && final(self).query
                    == old(self).query && final(self).history_selection == (match old(self).history_selection {
                    Some(i) => if i > 0 {
                        Some((i - 1) as usize)
                    } else {
                        Some(i)
                    },
                    None => None::<usize>,
                }),
                PromptEvent::Backspace => res.0 is Continue && res.1 is None && final(self).history_selection is None && (if old(self).query@.len() > 0 {
                    final(self).query@ == old(self).query@.drop_last()
                } else {
                    final(self).query@ == old(self).query@
                }),
                PromptEvent::Char(c) => res.0 is Continue && res.1 is None && final(self).query@
                    == old(self).query@.push(c) && final(self).history_selection is None,
                PromptEvent::Confirm => match old(self).history_selection {
                    Some(i) => {
                        &&& res.1 is None
                        &&& final(store).entries@ == old(store).entries@
                        &&& answered(*old(self), *final(self), names@, filtered_values@[i as int]@)
                        &&& res.0 == (if old(self).current_index + 1 == names@.len() {
                            PromptOutcome::Finished
                        } else {
                            PromptOutcome::Continue
                        })
                    },
                    None => {
                        if old(self).query@.len() > 0 {
                            &&& answered(*old(self), *final(self), names@, old(self).query@)
                            &&& res.0 == (if old(self).current_index + 1 == names@.len() {
                                PromptOutcome::Finished
                            } else {
                                PromptOutcome::Continue
                            })
                            &&& (res.1 is None <==> has_triple(
                                old(store).entries@,
                                names@[old(self).current_index as int]@,
                                old(self).query@,
                                env_name@,
                            ))
                            &&& match res.1 {
                                Some(it) => it.name@ == names@[old(self).current_index as int]@
                                    && it.value@ == old(self).query@ && it.env_name@ == env_name@
                                    && final(store).entries@.len() == old(store).entries@.len() + 1
                                    && final(store).entries@.drop_last() == old(store).entries@
                                    && item_eq(final(store).entries@.last(), it),
                                None => final(store).entries@ == old(store).entries@,
                            }
                        } else {
                            &&& res.0 is Continue
                            &&& res.1 is None
                            &&& *final(self) == *old(self)
                            &&& final(store).entries@ == old(store).entries@
                        }
                    },
                },
            },
    {
        match event {
            PromptEvent::Cancel => (PromptOutcome::Aborted, None),
            PromptEvent::CutWord => {
                cut_to_current_word_start(&mut self.query);
                self.history_selection = None;
                (PromptOutcome::Continue, None)
            },
            PromptEvent::ClearQuery => {
                self.query = String::new();
                self.history_selection = None;
                (PromptOutcome::Continue, None)
            },
            PromptEvent::ToggleHistory => {
                match self.history_selection {
                    Some(_) => {
                        self.history_selection = None;
                    },
                    None => {
                        if filtered_values.len() > 0 {
                            self.history_selection = Some(0);
                        }
                    },
                }
                (PromptOutcome::Continue, None)
            },
            PromptEvent::MoveUp => {
                let flen = filtered_values.len();
                match self.history_selection {
                    Some(i) => {
                        if i + 1 < flen {
                            self.history_selection = Some(i + 1);
                        }
                    },
                    None => (),
                }
                (PromptOutcome::Continue, None)
            },
            PromptEvent::MoveDown => {
                match self.history_selection {
                    Some(i) => {
                        if i > 0 {
                            self.history_selection = Some(i - 1);
                        }
                    },
                    None => (),
                }
                (PromptOutcome::Continue, None)
            },
            PromptEvent::Backspace => {
                let n = self.query.unicode_len();
                if n > 0 {
                    let r = truncate_chars(self.query.as_str(), n - 1);
                    proof {
                        assert(old(self).query@.take(n as int - 1) =~= old(self).query@.drop_last());
                    }
                    self.query = r;
                }
                self.history_selection = None;
                (PromptOutcome::Continue, None)
            },
            PromptEvent::Char(c) => {
                push_char(&mut self.query, c);
                self.history_selection = None;
                (PromptOutcome::Continue, None)
            },
            PromptEvent::Confirm => {
                let nlen = names.len();
                match self.history_selection {
                    Some(i) => {
                        let answer = KeyValue::new(
                            names[self.current_index].as_str(),
                            filtered_values[i].as_str(),
                        );
                        self.answers.push(answer);
                        self.current_index = self.current_index + 1;
                        self.query = String::new();
                        self.history_selection = None;
                        proof {
                            assert(self.answers@.drop_last() =~= old(self).answers@);
                            assert forall|k: int|
                                0 <= k < self.answers@.len() implies (
                            #[trigger] self.answers@[k].name@) == names@[k]@ by {
                                if k < old(self).answers@.len() {
                                    assert(self.answers@[k] == old(self).answers@[k]);
                                }
                            }
                        }
                        if self.current_index == names.len() {
                            (PromptOutcome::Finished, None)
                        } else {
                            (PromptOutcome::Continue, None)
                        }
                    },
                    None => {
                        let n = self.query.unicode_len();
                        if n > 0 {
                            let answer = KeyValue::new(
                                names[self.current_index].as_str(),
                                self.query.as_str(),
                            );
                            let item = HistoryItem::new(
                                names[self.current_index].as_str(),
                                self.query.as_str(),
                                env_name,
                            );
                            let handout = HistoryItem::new(
                                names[self.current_index].as_str(),
                                self.query.as_str(),
                                env_name,
                            );
                            let ghost pre_entries = store.entries@;
                            let appended = store.record(item);
                            proof {
                                assert forall|k: int|
                                    0 <= k < pre_entries.len() implies (item_eq(
                                    #[trigger] pre_entries[k],
                                    item,
                                ) <==> (pre_entries[k].name@ == item.name@ && pre_entries[k].value@
                                    == item.value@ && pre_entries[k].env_name@
                                    == item.env_name@)) by {}
                                assert(has_item(pre_entries, item) <==> has_triple(
                                    pre_entries,
                                    names@[old(self).current_index as int]@,
                                    old(self).query@,
                                    env_name@,
                                )) by {
                                    if has_item(pre_entries, item) {
                                        let k = choose|k: int|
                                            0 <= k < pre_entries.len() && item_eq(
                                                #[trigger] pre_entries[k],
                                                item,
                                            );
                                        assert(pre_entries[k].name@ == item.name@);
                                    }
                                    if has_triple(
                                        pre_entries,
                                        names@[old(self).current_index as int]@,
                                        old(self).query@,
                                        env_name@,
                                    ) {
                                        let k = choose|k: int|
                                            0 <= k < pre_entries.len() && (
                                            #[trigger] pre_entries[k]).name@
                                                == names@[old(self).current_index as int]@
                                                && pre_entries[k].value@ == old(self).query@
                                                && pre_entries[k].env_name@ == env_name@;
                                        assert(item_eq(pre_entries[k], item));
                                    }
                                }
                            }
                            self.answers.push(answer);
                            self.current_index = self.current_index + 1;
                            self.query = String::new();
                            self.history_selection = None;
                            proof {
                                assert(self.answers@.drop_last() =~= old(self).answers@);
                                assert forall|k: int|
                                    0 <= k < self.answers@.len() implies (
                                #[trigger] self.answers@[k].name@) == names@[k]@ by {
                                    if k < old(self).answers@.len() {
                                        assert(self.answers@[k] == old(self).answers@[k]);
                                    }
                                }
                                if appended {
                                    assert(store.entries@.drop_last() =~= pre_entries);
                                }
                            }
                            let to_record = if appended {
                                Some(handout)
                            } else {
                                None
                            };
                            if self.current_index == names.len() {
                                (PromptOutcome::Finished, to_record)
                            } else {
                                (PromptOutcome::Continue, to_record)
                            }
                        } else {
                            (PromptOutcome::Continue, None)
                        }
                    },
                }
            },
        }
    }
}

} // verus!
