//! The session controller: the live input buffer, the focused result index,
//! the history recall cursor, and the bridge from execution outcomes to the
//! history log. The consumer's event loop maps key events to these calls.
use vstd::prelude::*;

use crate::config::Config;
use crate::order::str_views;

verus! {

/// The recall cursor as a mathematical value: nothing, for "live" input, or
/// an offset from the most recent history entry (offset zero is the most
/// recent one).
pub open spec fn cursor_of(idx: Option<usize>) -> Option<int> {
    match idx {
        Some(n) => Some(n as int),
        None => None,
    }
}

/// One step backward in time: from live to the most recent entry, else one
/// entry older, clamped at the oldest; with no history at all the cursor
/// stays live.
pub open spec fn prev_cursor(c: Option<int>, len: int) -> Option<int> {
    if len <= 0 {
        c
    } else {
        match c {
            None => Some(0),
            Some(n) => if n + 1 < len {
                Some(n + 1)
            } else {
                Some(n)
            },
        }
    }
}

/// One step forward in time: one entry more recent, and from the most
/// recent entry back to live; a live cursor stays live.
pub open spec fn next_cursor(c: Option<int>) -> Option<int> {
    match c {
        None => None,
        Some(n) => if n > 0 {
            Some(n - 1)
        } else {
            None
        },
    }
}

/// The input text a cursor position recalls: the history entry it points
/// at, or empty text when live.
pub open spec fn recall_text(c: Option<int>, h: Seq<Seq<char>>) -> Seq<char> {
    match c {
        Some(n) => h[h.len() - 1 - n],
        None => Seq::empty(),
    }
}

/// The session controller owned by the consumer: what the user typed, which
/// result is focused, where the recall cursor stands, and the configuration
/// with the history log.
pub struct Controller {
    pub input: String,
    pub focused: usize,
    pub history_idx: Option<usize>,
    pub config: Config,
}

impl Controller {
    /// The recall cursor, when set, points at an existing history entry.
    pub open spec fn wf(&self) -> bool {
        match self.history_idx {
            Some(n) => n < self.config.history@.len(),
            None => true,
        }
    }

    /// A fresh session around a loaded configuration: empty input, first
    /// result focused, live cursor.
    pub fn new(config: Config) -> (r: Controller)
        ensures
            r.input@ == Seq::<char>::empty(),
            r.focused == 0,
            r.history_idx is None,
            r.config == config,
            r.wf(),
    {
        Controller { input: String::new(), focused: 0, history_idx: None, config }
    }

    /// Step the recall cursor one entry back in time and show the newly
    /// recalled entry as the input. Past the boundary the call is a no-op:
    /// at the oldest entry, and with an empty history, the cursor and the
    /// input, edits included, stay untouched.
    pub fn recall_previous(&mut self)
        requires
            old(self).wf(),
        ensures
            final(self).wf(),
            cursor_of(final(self).history_idx) == prev_cursor(
                cursor_of(old(self).history_idx),
                old(self).config.history@.len() as int,
            ),
            prev_cursor(
                cursor_of(old(self).history_idx),
                old(self).config.history@.len() as int,
            ) != cursor_of(old(self).history_idx) ==> final(self).input@ == recall_text(
                cursor_of(final(self).history_idx),
                str_views(old(self).config.history@),
            ),
            prev_cursor(
                cursor_of(old(self).history_idx),
                old(self).config.history@.len() as int,
            ) == cursor_of(old(self).history_idx) ==> final(self).input == old(self).input,
            final(self).config == old(self).config,
            final(self).focused == old(self).focused,
    {
        let len = self.config.history.len();
        if len == 0 {
            return;
        }
        let at = match self.history_idx {
            None => 0,
            Some(n) => {
                if n + 1 < len {
                    n + 1
                } else {
                    return;
                }
            },
        };
        self.history_idx = Some(at);
        self.input = self.config.history[len - 1 - at].clone();
        proof {
            assert(str_views(self.config.history@)[len - 1 - at] == self.config.history@[len - 1
                - at]@);
        }
    }

    /// Step the recall cursor one entry forward in time; from the most
    /// recent entry the input returns to live, empty text. A live cursor
    /// stays live, and the call is then a no-op: the typed input is kept.
    pub fn recall_next(&mut self)
        requires
            old(self).wf(),
        ensures
            final(self).wf(),
            cursor_of(final(self).history_idx) == next_cursor(cursor_of(old(self).history_idx)),
            old(self).history_idx is Some ==> final(self).input@ == recall_text(
                cursor_of(final(self).history_idx),
                str_views(old(self).config.history@),
            ),
            old(self).history_idx is None ==> final(self).input == old(self).input,
            final(self).config == old(self).config,
            final(self).focused == old(self).focused,
    {
        match self.history_idx {
            None => {},
            Some(n) => {
                if n > 0 {
                    let at = n - 1;
                    self.history_idx = Some(at);
                    let len = self.config.history.len();
                    self.input = self.config.history[len - 1 - at].clone();
                    proof {
                        assert(str_views(self.config.history@)[len - 1 - at]
                            == self.config.history@[len - 1 - at]@);
                    }
                } else {
                    self.history_idx = None;
                    self.input = String::new();
                }
            },
        }
    }

    /// Record a successful execution: the executed string is appended to the
    /// history as exactly one new, most recent entry, the recall cursor
    /// returns to live, and the input buffer is cleared.
    pub fn record_execution(&mut self, executed: String)
        ensures
            final(self).wf(),
            final(self).config.history@ == old(self).config.history@.push(executed),
            final(self).history_idx is None,
            final(self).input@ == Seq::<char>::empty(),
            final(self).focused == old(self).focused,
    {
        self.config.push_history(executed);
        self.history_idx = None;
        self.input = String::new();
    }

    /// Move the focus one result down, clamped at the last of `results_len`
    /// results; never underflows, also when there are no results.
    pub fn focus_down(&mut self, results_len: usize)
        ensures
            final(self).focused as int == if old(self).focused + 1 < results_len {
                old(self).focused + 1
            } else {
                old(self).focused as int
            },
            final(self).input == old(self).input,
            final(self).history_idx == old(self).history_idx,
            final(self).config == old(self).config,
    {
        if self.focused < usize::MAX && self.focused + 1 < results_len {
            self.focused = self.focused + 1;
        }
    }

    /// Move the focus one result up, clamped at the first.
    pub fn focus_up(&mut self)
        ensures
            final(self).focused as int == if old(self).focused > 0 {
                old(self).focused - 1
            } else {
                0
            },
            final(self).input == old(self).input,
            final(self).history_idx == old(self).history_idx,
            final(self).config == old(self).config,
    {
        if self.focused > 0 {
            self.focused = self.focused - 1;
        }
    }

    /// The index of the entry an execute keystroke runs: the focused one,
    /// or the first when the focus lies beyond the results.
    pub fn selection_index(&self, results_len: usize) -> (r: usize)
        requires
            results_len > 0,
        ensures
            r == if self.focused < results_len {
                self.focused as int
            } else {
                0int
            },
            r < results_len,
    {
        if self.focused < results_len {
            self.focused
        } else {
            0
        }
    }

    /// Reset the focus to the first result, as an input change does.
    pub fn reset_focus(&mut self)
        ensures
            final(self).focused == 0,
            final(self).input == old(self).input,
            final(self).history_idx == old(self).history_idx,
            final(self).config == old(self).config,
    {
        self.focused = 0;
    }
}

/// Which execution a consumer should attempt when the user triggers one.
pub enum RunChoice {
    Entry,
    Raw,
    Nothing,
}

impl Controller {
    /// Decide what an execute keystroke runs: the focused entry when there
    /// are results, the raw input line when there are none but text was
    /// typed, and nothing otherwise.
    pub fn run_choice(&self, results_len: usize) -> (r: RunChoice)
        ensures
            (r is Entry) == (results_len > 0),
            (r is Raw) == (results_len == 0 && self.input@.len() > 0),
            (r is Nothing) == (results_len == 0 && self.input@.len() == 0),
    {
        if results_len > 0 {
            RunChoice::Entry
        } else if !self.input.as_str().is_empty() {
            RunChoice::Raw
        } else {
            RunChoice::Nothing
        }
    }
}

/// Iterated backward steps of the recall cursor.
pub open spec fn iter_prev(c: Option<int>, len: int, k: nat) -> Option<int>
    decreases k,
{
    if k == 0 {
        c
    } else {
        prev_cursor(iter_prev(c, len, (k - 1) as nat), len)
    }
}

/// Iterated forward steps of the recall cursor.
pub open spec fn iter_next(c: Option<int>, k: nat) -> Option<int>
    decreases k,
{
    if k == 0 {
        c
    } else {
        next_cursor(iter_next(c, (k - 1) as nat))
    }
}

/// Recall cursor bound, backward: from live, each of the first `len`
/// backward steps moves strictly toward the oldest entry, and every further
/// step stays at the oldest: the walk stops there.
pub proof fn lemma_recall_prev_walk(len: int, k: nat)
    requires
        len > 0,
        k >= 1,
    ensures
        iter_prev(None, len, k) == Some(
            if k <= len {
                k - 1
            } else {
                len - 1
            },
        ),
    decreases k,
{
    if k == 1 {
        assert(iter_prev(None, len, 0) == None::<int>);
    } else {
        lemma_recall_prev_walk(len, (k - 1) as nat);
    }
}

/// Recall cursor bound, forward: from the oldest entry, each of the first
/// `len - 1` forward steps moves strictly toward the most recent entry,
/// the next one reaches live, and every further step stays live.
pub proof fn lemma_recall_next_walk(len: int, k: nat)
    requires
        len > 0,
    ensures
        iter_next(Some(len - 1), k) == if k < len {
            Some(len - 1 - k)
        } else {
            None::<int>
        },
    decreases k,
{
    if k > 0 {
        lemma_recall_next_walk(len, (k - 1) as nat);
    }
}

} // verus!
