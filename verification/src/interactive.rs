//! The request-definition picker: a state machine over the query text,
//! the selection index into the filtered view, the active environment and
//! the primed path. The surrounding loop renders the state, reads one key
//! event, and feeds it back here; every transition is stated below.

use vstd::prelude::*;

use crate::environment::Environment;
use crate::request_definition::RequestDefinition;
use crate::text::push_char;
use crate::text::truncate_chars;

verus! {

/// What the picker hands back when it terminates by selection: the chosen
/// definition, re-parsed fresh, and the active environment, if any.
pub struct SelectedValues {
    pub def: RequestDefinition,
    pub env: Option<Environment>,
}

/// Remove the trailing word, like readline's kill-word-backwards: first
/// any trailing spaces fall, then the word before them; one space that
/// separated the word from the rest is kept.
pub open spec fn cut_word(s: Seq<char>, cut_a_letter: bool) -> Seq<char>
    decreases s.len(),
{
    if s.len() == 0 {
        s
    } else if s.last() == ' ' {
        if cut_a_letter {
            s
        } else {
            cut_word(s.drop_last(), false)
        }
    } else {
        cut_word(s.drop_last(), true)
    }
}

/// The number of characters that survive `cut_word`.
fn cut_point(s: &str, n: usize) -> (i: usize)
    requires
        n == s@.len(),
    ensures
        i <= n,
        cut_word(s@, false) == s@.take(i as int),
{
    let mut i = n;
    let mut cut = false;
    proof {
        assert(s@.take(n as int) =~= s@);
    }
    while i > 0
        invariant
            i <= n,
            n == s@.len(),
            cut_word(s@, false) == cut_word(s@.take(i as int), cut),
        decreases i,
    {
        let c = s.get_char(i - 1);
        proof {
            assert(s@.take(i as int).last() == s@[i as int - 1]);
            assert(s@.take(i as int).drop_last() =~= s@.take(i as int - 1));
        }
        if c == ' ' {
            if cut {
                return i;
            }
            i -= 1;
        } else {
            cut = true;
            i -= 1;
        }
    }
    proof {
        assert(s@.take(0) =~= Seq::<char>::empty());
    }
    i
}

/// Cut the query back to the start of the current word, like readline's
/// kill-word-backwards.
pub fn cut_to_current_word_start(s: &mut String)
    ensures
        final(s)@ == cut_word(old(s)@, false),
{
    let n = s.unicode_len();
    let i = cut_point(s.as_str(), n);
    let r = truncate_chars(s.as_str(), i);
    *s = r;
}

/// Is the selection valid for a filtered view of `len` entries? The
/// selection is absent exactly when the view is empty, and in bounds
/// otherwise.
pub open spec fn selection_ok(sel: Option<usize>, len: int) -> bool {
    match sel {
        None => len == 0,
        Some(i) => i < len,
    }
}

/// One key event recognized by the picker.
pub enum SelectorEvent {
    /// Abort without selecting.
    Cancel,
    /// Delete the previous word of the query.
    CutWord,
    /// Clear the whole query.
    ClearQuery,
    /// Move the selection one entry up the list.
    MoveUp,
    /// Move the selection one entry down the list.
    MoveDown,
    /// Confirm the current selection.
    Confirm,
    /// Delete the last character of the query.
    Backspace,
    /// Cycle the active environment forward.
    NextEnvironment,
    /// Cycle the active environment backward.
    PrevEnvironment,
    /// Append one character to the query.
    Char(char),
}

/// How the picker loop goes on after one event.
pub enum SelectorOutcome {
    Continue,
    Confirmed,
    Cancelled,
}

/// The picker's mutable state, reconciled against the filtered view
/// before every redraw.
pub struct SelectorState {
    /// What the user has typed into the query line.
    pub query: String,
    /// The selected entry of the filtered view, absent only while the
    /// view is empty.
    pub selected: Option<usize>,
    /// The active environment, cycled through with an explicit "none"
    /// position at each end.
    pub active_env_index: Option<usize>,
    /// The path to act on once the loop terminates by selection; set
    /// exactly once, by the confirming event.
    pub primed: Option<String>,
}

impl SelectorState {
    /// The initial state: empty query, nothing selected or primed, no
    /// environment.
    pub fn new() -> (s: SelectorState)
        ensures
            s.query@.len() == 0,
            s.selected is None,
            s.active_env_index is None,
            s.primed is None,
    {
        SelectorState { query: String::new(), selected: None, active_env_index: None, primed: None }
    }

    /// Bring the selection back in bounds after the filtered view
    /// changed: clear it when the view is empty, select the top entry
    /// when it just became non-empty, and clamp it to the last entry when
    /// the view shrank below it. Whatever the previous state, afterwards
    /// the selection is in bounds or absent — never out of range.
    pub fn reconcile(&mut self, filtered_len: usize)
        ensures
            final(self).query == old(self).query,
            final(self).active_env_index == old(self).active_env_index,
            final(self).primed == old(self).primed,
            selection_ok(final(self).selected, filtered_len as int),
            filtered_len > 0 ==> match old(self).selected {
                None => final(self).selected == Some(0usize),
                Some(i) => {
                    if i < filtered_len {
                        final(self).selected == Some(i)
                    } else {
                        final(self).selected matches Some(j) && j == filtered_len - 1
                    }
                },
            },
    {
        if filtered_len == 0 {
            self.selected = None;
        } else {
            match self.selected {
                None => {
                    self.selected = Some(0);
                },
                Some(i) => {
                    if i >= filtered_len {
                        self.selected = Some(filtered_len - 1);
                    }
                },
            }
        }
    }

    /// Consume one key event against the current filtered view (the
    /// paths, best match first) and the number of loaded environments.
    /// The caller reconciles the selection against the same view first.
    pub fn handle_event(
        &mut self,
        event: SelectorEvent,
        filtered: &Vec<String>,
        num_environments: usize,
    ) -> (out: SelectorOutcome)
        requires
            selection_ok(old(self).selected, filtered@.len() as int),
        ensures
            selection_ok(final(self).selected, filtered@.len() as int),
            match event {
                SelectorEvent::Cancel => out is Cancelled && *final(self) == *old(self),
                SelectorEvent::CutWord => out is Continue && final(self).query@ == cut_word(
                    old(self).query@,
                    false,
                ) && final(self).selected == old(self).selected && final(self).active_env_index
                    == old(self).active_env_index && final(self).primed == old(self).primed,
                SelectorEvent::ClearQuery => out is Continue && final(self).query@.len() == 0
                    && final(self).selected == old(self).selected && final(self).active_env_index
                    == old(self).active_env_index && final(self).primed == old(self).primed,
                SelectorEvent::MoveUp => out is Continue && final(self).query == old(self).query
                    && final(self).active_env_index == old(self).active_env_index && final(self).primed == old(self).primed && final(self).selected == (match old(self).selected {
                    Some(i) => if i + 1 < filtered@.len() {
                        Some((i + 1) as usize)
                    } else {
                        Some(i)
                    },
                    None => None,
                }),
                SelectorEvent::MoveDown => out is Continue && final(self).query == old(self).query
                    && final(self).active_env_index == old(self).active_env_index && final(self).primed == old(self).primed && final(self).selected == (match old(self).selected {
                    Some(i) => if i > 0 {
                        Some((i - 1) as usize)
                    } else {
                        Some(i)
                    },
                    None => None,
                }),
                SelectorEvent::Confirm => match old(self).selected {
                    Some(i) => out is Confirmed && final(self).primed == Some(filtered@[i as int])
                        && final(self).query == old(self).query && final(self).selected == old(self).selected && final(self).active_env_index == old(self).active_env_index,
                    None => out is Continue && *final(self) == *old(self),
                },
                SelectorEvent::Backspace => out is Continue && final(self).selected == old(self).selected && final(self).active_env_index == old(self).active_env_index && final(self).primed == old(self).primed && (if old(self).query@.len() > 0 {
                    final(self).query@ == old(self).query@.drop_last()
                } else {
                    final(self).query@ == old(self).query@
                }),
                SelectorEvent::NextEnvironment => out is Continue && final(self).query == old(self).query && final(self).selected == old(self).selected && final(self).primed == old(self).primed && final(self).active_env_index == (match old(self).active_env_index {
                    None => if num_environments > 0 {
                        Some(0usize)
                    } else {
                        None
                    },
                    Some(i) => if i + 1 < num_environments {
                        Some((i + 1) as usize)
                    } else {
                        None
                    },
                }),
                SelectorEvent::PrevEnvironment => out is Continue && final(self).query == old(self).query && final(self).selected == old(self).selected && final(self).primed == old(self).primed && final(self).active_env_index == (match old(self).active_env_index {
                    None => if num_environments > 0 {
                        Some((num_environments - 1) as usize)
                    } else {
                        None
                    },
                    Some(i) => if i > 0 {
                        Some((i - 1) as usize)
                    } else {
                        None
                    },
                }),
                SelectorEvent::Char(c) => out is Continue && final(self).query@ == old(self).query@.push(c) && final(self).selected == old(self).selected && final(self).active_env_index == old(self).active_env_index && final(self).primed == old(self).primed,
            },
    {
        match event {
            SelectorEvent::Cancel => SelectorOutcome::Cancelled,
            SelectorEvent::CutWord => {
                cut_to_current_word_start(&mut self.query);
                SelectorOutcome::Continue
            },
            SelectorEvent::ClearQuery => {
                self.query = String::new();
                SelectorOutcome::Continue
            },
            SelectorEvent::MoveUp => {
                let flen = filtered.len();
                match self.selected {
                    Some(i) => {
                        if i + 1 < flen {
                            self.selected = Some(i + 1);
                        }
                    },
                    None => (),
                }
                SelectorOutcome::Continue
            },
            SelectorEvent::MoveDown => {
                match self.selected {
                    Some(i) => {
                        if i > 0 {
                            self.selected = Some(i - 1);
                        }
                    },
                    None => (),
                }
                SelectorOutcome::Continue
            },
            SelectorEvent::Confirm => {
                match self.selected {
                    Some(i) => {
                        self.primed = Some(filtered[i].clone());
                        SelectorOutcome::Confirmed
                    },
                    None => SelectorOutcome::Continue,
                }
            },
            SelectorEvent::Backspace => {
                let n = self.query.unicode_len();
                if n > 0 {
                    let r = truncate_chars(self.query.as_str(), n - 1);
                    proof {
                        assert(old(self).query@.take(n as int - 1) =~= old(self).query@.drop_last());
                    }
                    self.query = r;
                }
                SelectorOutcome::Continue
            },
            SelectorEvent::NextEnvironment => {
                match self.active_env_index {
                    None => {
                        if num_environments > 0 {
                            self.active_env_index = Some(0);
                        }
                    },
                    Some(i) => {
                        if num_environments > 0 && i < num_environments - 1 {
                            self.active_env_index = Some(i + 1);
                        } else {
                            self.active_env_index = None;
                        }
                    },
                }
                SelectorOutcome::Continue
            },
            SelectorEvent::PrevEnvironment => {
                match self.active_env_index {
                    None => {
                        if num_environments > 0 {
                            self.active_env_index = Some(num_environments - 1);
                        }
                    },
                    Some(i) => {
                        if i > 0 {
                            self.active_env_index = Some(i - 1);
                        } else {
                            self.active_env_index = None;
                        }
                    },
                }
                SelectorOutcome::Continue
            },
            SelectorEvent::Char(c) => {
                push_char(&mut self.query, c);
                SelectorOutcome::Continue
            },
        }
    }
}

} // verus!
