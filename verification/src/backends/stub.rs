//! A canned-results backend for exercising a consumer in isolation: it
//! filters a fixed candidate list and never spawns a process.
use vstd::prelude::*;

use crate::backends::filter_by_prefix;
use crate::backends::filtered;
use crate::backends::entry_views;
use crate::backends::CompletionBackend;
use crate::backends::CompletionEntry;
use crate::backends::EntryView;
use crate::backends::Exec;

verus! {

/// A backend with deterministic canned results: `generate` filters the
/// canned list by title prefix, and `execute`/`command` never spawn
/// anything, so a consumer can be driven without side effects.
pub struct StubBackend {
    pub canned: Vec<CompletionEntry>,
    pub current: Vec<CompletionEntry>,
}

impl StubBackend {
    /// A stub serving the given canned candidates, with no results selected
    /// yet.
    pub fn new(canned: Vec<CompletionEntry>) -> (r: StubBackend)
        ensures
            entry_views(r.canned@) == entry_views(canned@),
            r.results() == Seq::<EntryView>::empty(),
    {
        let r = StubBackend { canned, current: Vec::new() };
        proof {
            assert(entry_views(r.current@) =~= Seq::<EntryView>::empty());
        }
        r
    }
}

impl CompletionBackend for StubBackend {
    open spec fn results(&self) -> Seq<EntryView> {
        entry_views(self.current@)
    }

    fn generate(&mut self, input: &str)
        ensures
            final(self).canned == old(self).canned,
            input@.len() > 0 ==> final(self).results() == filtered(
                entry_views(old(self).canned@),
                input@,
            ),
    {
        if !input.is_empty() {
            self.current = filter_by_prefix(&self.canned, input);
        }
    }

    fn all(&self) -> (r: &[CompletionEntry]) {
        self.current.as_slice()
    }

    fn n(&self, n: usize) -> (r: &[CompletionEntry]) {
        if n >= self.current.len() {
            proof {
                assert(self.results().take(self.results().len() as int) =~= self.results());
            }
            self.current.as_slice()
        } else {
            let r = vstd::slice::slice_subrange(self.current.as_slice(), 0, n);
            proof {
                assert(entry_views(r@) =~= self.results().take(n as int));
            }
            r
        }
    }

    fn len(&self) -> (r: usize) {
        self.current.len()
    }

    /// Never spawns: the attempt only reports that the session goes on.
    fn execute(&self, task: &CompletionEntry) -> (r: Exec)
        ensures
            r is Continue,
    {
        Exec::Continue
    }

    /// Never spawns: the attempt only reports that the session goes on.
    fn command(&self, command: &str) -> (r: Exec)
        ensures
            r is Continue,
    {
        Exec::Continue
    }
}

} // verus!
