//! The persisted configuration: an ordered, append-only log of executed
//! command strings, and its document codec. The document format is TOML with
//! a single `history` array; the consumer only reads and writes the file.
use vstd::prelude::*;

use crate::order::str_views;

verus! {

/// The persisted state: previously executed command strings, oldest first.
#[derive(Debug)]
pub struct Config {
    pub history: Vec<String>,
}

impl Default for Config {
    /// A fresh configuration with an empty history.
    fn default() -> (r: Config)
        ensures
            r.history@ == Seq::<String>::empty(),
    {
        Config { history: Vec::new() }
    }
}

/// The document text that serializing a history list yields.
pub uninterp spec fn doc_text(h: Seq<Seq<char>>) -> Seq<char>;

/// What parsing persisted text yields: the history list the document holds,
/// or nothing when it holds none.
pub uninterp spec fn parsed_history(s: Seq<char>) -> Option<Seq<Seq<char>>>;

/// Relies on toml::to_string: serializing a string-keyed table never fails,
/// and the text it yields for a table holding one `history` array of strings
/// is a function of those strings alone.
#[verifier::external_body]
fn encode_history(h: &Vec<String>) -> (r: String)
    ensures
        r@ == doc_text(str_views(h@)),
{
    let items = h.iter().map(|s| toml::Value::String(s.clone())).collect();
    let mut table = toml::Table::new();
    table.insert("history".to_string(), toml::Value::Array(items));
    toml::to_string(&table).expect("a string-keyed table always serializes")
}

/// Relies on toml::from_str: what parsing yields is a function of the text
/// alone, and parsing inverts toml::to_string, so the document written for
/// a history list parses back to exactly that list; text that does not
/// hold a `history` array of strings yields nothing.
#[verifier::external_body]
fn decode_history(s: &str) -> (r: Option<Vec<String>>)
    ensures
        (r is Some) == (parsed_history(s@) is Some),
        r is Some ==> str_views(r->0@) == parsed_history(s@)->0,
        forall|h: Seq<Seq<char>>|
            s@ == doc_text(h) ==> (r is Some && str_views(r->0@) == h),
{
    let table: toml::Table = toml::from_str(s).ok()?;
    let items = table.get("history")?.as_array()?;
    let mut out = Vec::with_capacity(items.len());
    for item in items {
        out.push(item.as_str()?.to_string());
    }
    Some(out)
}

impl Config {
    /// Append one executed command to the history; nothing else changes and
    /// nothing is ever dropped.
    pub fn push_history(&mut self, entry: String)
        ensures
            final(self).history@ == old(self).history@.push(entry),
    {
        self.history.push(entry);
    }

    /// The document text to persist for this configuration.
    pub fn to_doc(&self) -> (r: String)
        ensures
            r@ == doc_text(str_views(self.history@)),
    {
        encode_history(&self.history)
    }

    /// The configuration a persisted document describes. Reading back a
    /// document written by `to_doc` yields the history it was written from;
    /// text that holds no history list falls back to the fresh, empty
    /// default, so startup never fails on a corrupt file.
    pub fn from_doc(s: &str) -> (r: Config)
        ensures
            str_views(r.history@) == match parsed_history(s@) {
                Some(h) => h,
                None => Seq::<Seq<char>>::empty(),
            },
            forall|h: Seq<Seq<char>>| s@ == doc_text(h) ==> str_views(r.history@) == h,
    {
        let r = match decode_history(s) {
            Some(v) => Config { history: v },
            None => Config::default(),
        };
        proof {
            if parsed_history(s@) is None {
                assert(str_views(r.history@) =~= Seq::<Seq<char>>::empty());
            }
        }
        r
    }
}

} // verus!
