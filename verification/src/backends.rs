//! The completion backend contract: the candidate data model, the outcome of
//! an execution attempt, and the capability trait a consumer programs
//! against, polymorphic over candidate sources.
use vstd::prelude::*;

use crate::order::lex_le;
use crate::order::str_starts_with;

pub mod by_env;
pub mod stub;

verus! {

/// One launchable candidate: `action` alone suffices to execute it; `title`
/// and `subtitle` are what a consumer displays.
#[derive(Debug)]
pub struct CompletionEntry {
    pub title: String,
    pub subtitle: String,
    pub action: String,
}

/// The mathematical value of a candidate entry.
#[verifier::ext_equal]
pub struct EntryView {
    pub title: Seq<char>,
    pub subtitle: Seq<char>,
    pub action: Seq<char>,
}

impl View for CompletionEntry {
    type V = EntryView;

    open spec fn view(&self) -> EntryView {
        EntryView { title: self.title@, subtitle: self.subtitle@, action: self.action@ }
    }
}

impl Clone for CompletionEntry {
    fn clone(&self) -> (r: Self)
        ensures
            r@ == self@,
    {
        CompletionEntry {
            title: self.title.clone(),
            subtitle: self.subtitle.clone(),
            action: self.action.clone(),
        }
    }
}

/// The values of a sequence of entries.
pub open spec fn entry_views(s: Seq<CompletionEntry>) -> Seq<EntryView> {
    s.map_values(|e: CompletionEntry| e@)
}

/// Entries in (non-strictly) increasing title order.
pub open spec fn sorted_by_title(s: Seq<EntryView>) -> bool {
    forall|i: int, j: int| 0 <= i < j < s.len() ==> lex_le(s[i].title, s[j].title)
}

/// An entry matches an input when its title starts with it.
pub open spec fn matches_prefix(input: Seq<char>, e: EntryView) -> bool {
    input.is_prefix_of(e.title)
}

/// The subsequence of `s` whose titles start with `input`, in order.
pub open spec fn filtered(s: Seq<EntryView>, input: Seq<char>) -> Seq<EntryView> {
    s.filter(|e: EntryView| matches_prefix(input, e))
}

/// What an execution attempt tells the consumer to do next: keep running, or
/// terminate with a status code.
pub enum Exec {
    Exit(i32),
    Continue,
}

/// An error surfaced by a backend to its consumer.
pub enum UError {
    Unknown,
    Stderr(String),
}

/// The outcome a launcher derives from a process-launch attempt: a launcher
/// that handed its action off exits cleanly; a failed spawn keeps the session
/// alive so the user can edit and retry.
pub fn spawn_outcome(spawn_ok: bool) -> (r: Exec)
    ensures
        spawn_ok ==> r == Exec::Exit(0i32),
        !spawn_ok ==> r is Continue,
{
    if spawn_ok {
        Exec::Exit(0)
    } else {
        Exec::Continue
    }
}

/// The capability set a consumer depends on, polymorphic over candidate
/// sources.
pub trait CompletionBackend {
    /// The entries selected by the most recent accepted `generate` call.
    spec fn results(&self) -> Seq<EntryView>;

    /// Update the stored completions for `input`. An empty input is always
    /// rejected and leaves the completions untouched.
    fn generate(&mut self, input: &str)
        ensures
            input@.len() == 0 ==> final(self).results() == old(self).results(),
    ;

    /// All currently stored completions.
    fn all(&self) -> (r: &[CompletionEntry])
        ensures
            entry_views(r@) == self.results(),
    ;

    /// The first `n` completions, or all of them when fewer are stored.
    /// `n` of zero yields an empty slice; it never underflows.
    fn n(&self, n: usize) -> (r: &[CompletionEntry])
        ensures
            entry_views(r@) == self.results().take(
                vstd::math::min(n as int, self.results().len() as int),
            ),
    ;

    /// The number of entries `all` would return.
    fn len(&self) -> (r: usize)
        ensures
            r == self.results().len(),
    ;

    /// Run the given candidate, in a backend-dependent way.
    fn execute(&self, task: &CompletionEntry) -> Exec;

    /// Run an arbitrary command line, in a backend-dependent way.
    fn command(&self, command: &str) -> Exec;
}

proof fn lemma_filtered_push(s: Seq<EntryView>, x: EntryView, input: Seq<char>)
    ensures
        filtered(s.push(x), input) == if matches_prefix(input, x) {
            filtered(s, input).push(x)
        } else {
            filtered(s, input)
        },
{
    reveal(Seq::filter);
    assert(s.push(x).drop_last() =~= s);
    assert(s.push(x).last() == x);
}

/// The entries of `src` whose title starts with `input`, in order.
pub fn filter_by_prefix(src: &Vec<CompletionEntry>, input: &str) -> (r: Vec<CompletionEntry>)
    ensures
        entry_views(r@) == filtered(entry_views(src@), input@),
{
    let mut out: Vec<CompletionEntry> = Vec::new();
    let n = src.len();
    let mut i: usize = 0;
    while i < n
        invariant
            0 <= i <= n,
            n == src@.len(),
            entry_views(out@) == filtered(entry_views(src@.take(i as int)), input@),
        decreases n - i,
    {
        let ghost prefix_views = entry_views(src@.take(i as int));
        let ghost e = src@[i as int]@;
        proof {
            assert(entry_views(src@.take(i + 1)) =~= prefix_views.push(e));
            lemma_filtered_push(prefix_views, e, input@);
        }
        let ghost out0 = out@;
        if str_starts_with(src[i].title.as_str(), input) {
            out.push(src[i].clone());
            proof {
                assert(entry_views(out@) =~= entry_views(out0).push(e));
            }
        }
        i += 1;
    }
    proof {
        assert(src@.take(n as int) =~= src@);
    }
    out
}

} // verus!
