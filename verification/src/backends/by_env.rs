//! The search-path candidate source: resolving a colon-separated variable
//! into a strictly sorted, duplicate-free list of directories, building a
//! sorted candidate snapshot from directory listings, and the completion
//! engine with its debounce, empty-input and lazy-snapshot policies.
use vstd::prelude::*;

use crate::backends::filter_by_prefix;
use crate::backends::filtered;
use crate::backends::entry_views;
use crate::backends::matches_prefix;
use crate::backends::sorted_by_title;
use crate::backends::CompletionEntry;
use crate::backends::EntryView;
use crate::order::insert_unique_sorted;
use crate::order::lemma_insert_contains;
use crate::order::lemma_insert_to_multiset;
use crate::order::lemma_lex_le_antisymmetric;
use crate::order::lemma_lex_le_transitive;
use crate::order::lemma_lex_not_le;
use crate::order::lemma_push_contains;
use crate::order::lemma_empty_to_multiset;
use crate::order::lemma_map_values_insert;
use crate::order::lemma_singleton_to_multiset;
use crate::order::lex_le;
use crate::order::lex_lt;
use crate::order::str_le;
use crate::order::str_views;
use crate::order::strictly_sorted;
use vstd::string::StringExecFns;

verus! {

/// Index of the first ':' in `s`, or `s.len()` when there is none.
pub open spec fn first_colon(s: Seq<char>) -> int
    decreases s.len(),
{
    if s.len() == 0 {
        0
    } else if s[0] == ':' {
        0
    } else {
        1 + first_colon(s.skip(1))
    }
}

pub proof fn lemma_first_colon_bounds(s: Seq<char>)
    ensures
        0 <= first_colon(s) <= s.len(),
        forall|j: int| 0 <= j < first_colon(s) ==> s[j] != ':',
        first_colon(s) < s.len() ==> s[first_colon(s)] == ':',
    decreases s.len(),
{
    if s.len() > 0 && s[0] != ':' {
        lemma_first_colon_bounds(s.skip(1));
        let i = first_colon(s);
        assert forall|j: int| 0 <= j < i implies s[j] != ':' by {
            if j >= 1 {
                assert(s[j] == s.skip(1)[j - 1]);
            }
        }
        if i < s.len() {
            assert(s[i] == s.skip(1)[i - 1]);
        }
    }
}

/// A position with no ':' before it that is the end or holds ':' is the first
/// colon position.
pub proof fn lemma_first_colon_is(s: Seq<char>, i: int)
    requires
        0 <= i <= s.len(),
        forall|j: int| 0 <= j < i ==> s[j] != ':',
        i < s.len() ==> s[i] == ':',
    ensures
        first_colon(s) == i,
    decreases i,
{
    if i > 0 {
        assert(s[0] != ':');
        assert forall|j: int| 0 <= j < i - 1 implies s.skip(1)[j] != ':' by {
            assert(s.skip(1)[j] == s[j + 1]);
        }
        if i < s.len() {
            assert(s.skip(1)[i - 1] == s[i]);
        }
        lemma_first_colon_is(s.skip(1), i - 1);
    } else {
        if s.len() > 0 {
            assert(s[0] == ':');
        }
    }
}

/// The segments of `s` between ':' separators, separators excluded; an empty
/// `s` yields one empty segment, and adjacent separators yield empty
/// segments.
pub open spec fn split_colon(s: Seq<char>) -> Seq<Seq<char>>
    decreases s.len(),
        via split_colon_decreases
{
    let i = first_colon(s);
    if i == s.len() {
        seq![s]
    } else {
        seq![s.take(i)] + split_colon(s.skip(i + 1))
    }
}

#[via_fn]
proof fn split_colon_decreases(s: Seq<char>) {
    lemma_first_colon_bounds(s);
}

/// The character position of the first ':' at or after `from`, or the length
/// of `s` when there is none.
fn find_colon(s: &str, from: usize) -> (j: usize)
    requires
        from <= s@.len(),
    ensures
        from <= j <= s@.len(),
        j - from == first_colon(s@.skip(from as int)),
{
    let n = s.unicode_len();
    let mut j = from;
    while j < n
        invariant
            from <= j <= n,
            n == s@.len(),
            forall|k: int| from <= k < j ==> s@[k] != ':',
        decreases n - j,
    {
        if s.get_char(j) == ':' {
            proof {
                lemma_colon_scan(s@, from as int, j as int);
            }
            return j;
        }
        j += 1;
    }
    proof {
        lemma_colon_scan(s@, from as int, j as int);
    }
    j
}

proof fn lemma_colon_scan(s: Seq<char>, from: int, j: int)
    requires
        0 <= from <= j <= s.len(),
        forall|k: int| from <= k < j ==> s[k] != ':',
        j < s.len() ==> s[j] == ':',
    ensures
        first_colon(s.skip(from)) == j - from,
{
    let t = s.skip(from);
    assert forall|k: int| 0 <= k < j - from implies t[k] != ':' by {
        assert(t[k] == s[k + from]);
    }
    if j < s.len() {
        assert(t[j - from] == s[j]);
    }
    lemma_first_colon_is(t, j - from);
}

/// The segments of `s` from character position `from` on.
fn split_from(s: &str, from: usize) -> (r: Vec<String>)
    requires
        from <= s@.len(),
    ensures
        str_views(r@) == split_colon(s@.skip(from as int)),
    decreases s@.len() - from,
{
    let ghost t = s@.skip(from as int);
    let j = find_colon(s, from);
    let seg: String = s.substring_char(from, j).to_owned();
    proof {
        assert(t.take(j - from) =~= s@.subrange(from as int, j as int));
    }
    let n = s.unicode_len();
    if j == n {
        let mut r: Vec<String> = Vec::new();
        r.push(seg);
        proof {
            assert(first_colon(t) == t.len());
            assert(seg@ =~= t);
            assert(str_views(r@) =~= seq![t]);
        }
        r
    } else {
        let mut r = split_from(s, j + 1);
        proof {
            assert(t.skip((j - from) + 1) =~= s@.skip(j + 1));
        }
        let ghost r0 = r@;
        r.insert(0, seg);
        proof {
            lemma_map_values_insert(r0, 0, seg, |x: String| x@);
            assert(str_views(r0).insert(0, seg@) =~= seq![seg@] + str_views(r0));
            assert(str_views(r@) =~= seq![t.take(j - from)] + split_colon(t.skip((j - from) + 1)));
        }
        r
    }
}

/// Resolve a colon-separated search-path variable into a strictly sorted,
/// duplicate-free list of directories: exactly the segments of the variable,
/// each kept once, in increasing order.
pub fn resolve_directories(path_var: &str) -> (r: Vec<String>)
    ensures
        strictly_sorted(str_views(r@)),
        forall|d: Seq<char>| str_views(r@).contains(d) <==> split_colon(path_var@).contains(d),
{
    proof {
        assert(path_var@.skip(0) =~= path_var@);
    }
    let segs = split_from(path_var, 0);
    let mut out: Vec<String> = Vec::new();
    let n = segs.len();
    let mut i: usize = 0;
    while i < n
        invariant
            0 <= i <= n,
            n == segs@.len(),
            str_views(segs@) == split_colon(path_var@),
            strictly_sorted(str_views(out@)),
            forall|d: Seq<char>|
                str_views(out@).contains(d) <==> str_views(segs@).take(i as int).contains(d),
        decreases n - i,
    {
        let ghost done = str_views(segs@).take(i as int);
        let ghost x = segs@[i as int]@;
        insert_unique_sorted(&mut out, segs[i].clone());
        proof {
            lemma_insert_contains(done, i as int, x);
            done.insert_ensures(i as int, x);
            assert(done.insert(i as int, x) =~= str_views(segs@).take(i + 1));
        }
        i += 1;
    }
    proof {
        assert(str_views(segs@).take(n as int) =~= str_views(segs@));
    }
    out
}

/// What a directory listing reports of one entry: its file name, whether it
/// is a regular file, and its permission bits.
pub struct FileMeta {
    pub name: String,
    pub is_regular: bool,
    pub mode: u32,
}

/// The mathematical value of a listed entry.
#[verifier::ext_equal]
pub struct FileMetaView {
    pub name: Seq<char>,
    pub is_regular: bool,
    pub mode: u32,
}

impl View for FileMeta {
    type V = FileMetaView;

    open spec fn view(&self) -> FileMetaView {
        FileMetaView { name: self.name@, is_regular: self.is_regular, mode: self.mode }
    }
}

/// The listing of one directory, as the consumer read it from the filesystem.
pub struct DirListing {
    pub dir: String,
    pub entries: Vec<FileMeta>,
}

/// The mathematical value of a directory listing.
#[verifier::ext_equal]
pub struct DirListingView {
    pub dir: Seq<char>,
    pub entries: Seq<FileMetaView>,
}

impl View for DirListing {
    type V = DirListingView;

    open spec fn view(&self) -> DirListingView {
        DirListingView { dir: self.dir@, entries: self.entries@.map_values(|m: FileMeta| m@) }
    }
}

/// The values of a sequence of listings.
pub open spec fn listing_views(ls: Seq<DirListing>) -> Seq<DirListingView> {
    ls.map_values(|l: DirListing| l@)
}

/// A listed entry survives the scan when it is a regular file with at least
/// one executable permission bit set.
pub open spec fn keeps(m: FileMetaView) -> bool {
    m.is_regular && m.mode & 0o111u32 != 0u32
}

/// The candidate built for file `name` in directory `dir`.
pub open spec fn entry_of(dir: Seq<char>, name: Seq<char>) -> EntryView {
    EntryView { title: name, subtitle: dir, action: dir + "/"@ + name }
}

/// The candidates one directory listing contributes, in listing order.
pub open spec fn listing_entries(dir: Seq<char>, ms: Seq<FileMetaView>) -> Seq<EntryView>
    decreases ms.len(),
{
    if ms.len() == 0 {
        Seq::empty()
    } else {
        let rest = listing_entries(dir, ms.skip(1));
        if keeps(ms[0]) {
            seq![entry_of(dir, ms[0].name)] + rest
        } else {
            rest
        }
    }
}

/// The candidates a whole scan contributes, directory by directory.
pub open spec fn scan_entries(ls: Seq<DirListingView>) -> Seq<EntryView>
    decreases ls.len(),
{
    if ls.len() == 0 {
        Seq::empty()
    } else {
        listing_entries(ls[0].dir, ls[0].entries) + scan_entries(ls.skip(1))
    }
}

/// Where a candidate lands among already sorted ones: before the first
/// entry with a strictly greater title, hence after every entry whose title
/// is equal, so that among equal titles the earlier-scanned entry stays
/// first.
pub open spec fn place_by_title(s: Seq<EntryView>, e: EntryView) -> Seq<EntryView>
    decreases s.len(),
{
    if s.len() == 0 {
        seq![e]
    } else if lex_lt(e.title, s[0].title) {
        seq![e] + s
    } else {
        seq![s[0]] + place_by_title(s.skip(1), e)
    }
}

/// The snapshot a sequence of scanned candidates yields: each in turn put
/// in its place. This fixes the result completely, equal titles included,
/// so equal listings always build one and the same snapshot.
pub open spec fn title_insertion_sort(es: Seq<EntryView>) -> Seq<EntryView>
    decreases es.len(),
{
    if es.len() == 0 {
        Seq::empty()
    } else {
        place_by_title(title_insertion_sort(es.drop_last()), es.last())
    }
}

proof fn lemma_place_at(s: Seq<EntryView>, e: EntryView, j: int)
    requires
        0 <= j <= s.len(),
        forall|k: int| 0 <= k < j ==> !lex_lt(e.title, s[k].title),
        j < s.len() ==> lex_lt(e.title, s[j as int].title),
    ensures
        place_by_title(s, e) == s.insert(j, e),
    decreases s.len(),
{
    if s.len() == 0 {
        assert(s.insert(0, e) =~= seq![e]);
    } else if j == 0 {
        assert(lex_lt(e.title, s[0].title));
        assert(s.insert(0, e) =~= seq![e] + s);
    } else {
        assert(!lex_lt(e.title, s[0].title));
        let t = s.skip(1);
        assert forall|k: int| 0 <= k < j - 1 implies !lex_lt(e.title, t[k].title) by {
            assert(t[k] == s[k + 1]);
        }
        if j - 1 < t.len() {
            assert(t[j - 1] == s[j as int]);
        }
        lemma_place_at(t, e, j - 1);
        assert(seq![s[0]] + t.insert(j - 1, e) =~= s.insert(j, e));
    }
}

/// Insert an entry into a title-sorted vector, at its place: before the
/// first entry with a strictly greater title, keeping the order.
fn insert_by_title(v: &mut Vec<CompletionEntry>, e: CompletionEntry)
    requires
        sorted_by_title(entry_views(old(v)@)),
    ensures
        sorted_by_title(entry_views(final(v)@)),
        entry_views(final(v)@).to_multiset() == entry_views(old(v)@).to_multiset().insert(e@),
        entry_views(final(v)@) == place_by_title(entry_views(old(v)@), e@),
{
    let ghost vs = entry_views(v@);
    let mut j: usize = 0;
    loop
        invariant
            sorted_by_title(vs),
            vs == entry_views(v@),
            0 <= j <= v@.len(),
            forall|k: int| 0 <= k < j ==> lex_le(vs[k].title, e@.title),
        ensures
            vs == entry_views(v@),
            0 <= j <= v@.len(),
            forall|k: int| 0 <= k < j ==> lex_le(vs[k].title, e@.title),
            j < vs.len() ==> lex_lt(e@.title, vs[j as int].title),
        decreases v@.len() - j,
    {
        if j == v.len() {
            break;
        }
        proof {
            assert(vs[j as int] == v@[j as int]@);
        }
        if !str_le(v[j].title.as_str(), e.title.as_str()) {
            proof {
                lemma_lex_not_le(vs[j as int].title, e@.title);
            }
            break;
        }
        j += 1;
    }
    let ghost ev = e@;
    let ghost vold = v@;
    v.insert(j, e);
    proof {
        let x = v@[j as int];
        vold.insert_ensures(j as int, x);
        vs.insert_ensures(j as int, ev);
        let nvs = entry_views(v@);
        assert(nvs =~= vs.insert(j as int, ev));
        lemma_insert_to_multiset(vs, j as int, ev);
        assert forall|k: int| 0 <= k < j implies !lex_lt(ev.title, vs[k].title) by {
            if lex_lt(ev.title, vs[k].title) {
                lemma_lex_le_antisymmetric(vs[k].title, ev.title);
            }
        }
        lemma_place_at(vs, ev, j as int);
        assert forall|a: int, b: int|
            0 <= a < b < nvs.len() implies lex_le(nvs[a].title, nvs[b].title) by {
            if b == j {
                assert(lex_le(vs[a].title, ev.title));
            } else if a == j {
                if b > j + 1 {
                    lemma_lex_le_transitive(ev.title, vs[j as int].title, vs[b - 1].title);
                }
            } else if a < j && j < b {
                assert(lex_le(vs[a].title, vs[b - 1].title));
            }
        }
    }
}

/// Build the candidate snapshot for a sequence of directory listings: one
/// candidate per surviving file, sorted by title; duplicate titles from
/// different directories all stay.
pub fn build_snapshot(listings: &Vec<DirListing>) -> (r: Vec<CompletionEntry>)
    ensures
        sorted_by_title(entry_views(r@)),
        entry_views(r@).to_multiset() == scan_entries(listing_views(listings@)).to_multiset(),
        entry_views(r@) == title_insertion_sort(scan_entries(listing_views(listings@))),
{
    let ghost lv = listing_views(listings@);
    let ghost goal = scan_entries(lv).to_multiset();
    let ghost mut done: Seq<EntryView> = Seq::empty();
    let mut out: Vec<CompletionEntry> = Vec::new();
    proof {
        broadcast use vstd::multiset::group_multiset_axioms;

        lemma_empty_to_multiset::<EntryView>();
        assert(entry_views(out@) =~= Seq::<EntryView>::empty());
        assert(lv.skip(0) =~= lv);
        assert(entry_views(out@).to_multiset().add(scan_entries(lv.skip(0)).to_multiset())
            =~= goal);
        assert(done + scan_entries(lv.skip(0)) =~= scan_entries(lv));
        assert(entry_views(out@) =~= title_insertion_sort(done));
    }
    let nl = listings.len();
    let mut li: usize = 0;
    while li < nl
        invariant
            0 <= li <= nl,
            nl == listings@.len(),
            lv == listing_views(listings@),
            goal == scan_entries(lv).to_multiset(),
            sorted_by_title(entry_views(out@)),
            entry_views(out@).to_multiset().add(scan_entries(lv.skip(li as int)).to_multiset())
                =~= goal,
            entry_views(out@) == title_insertion_sort(done),
            done + scan_entries(lv.skip(li as int)) == scan_entries(lv),
        decreases nl - li,
    {
        let listing = &listings[li];
        let ghost dv = lv[li as int].dir;
        let ghost mv = lv[li as int].entries;
        proof {
            broadcast use vstd::multiset::group_multiset_axioms;

            assert(lv.skip(li as int)[0] == lv[li as int]);
            assert(lv.skip(li as int).skip(1) =~= lv.skip(li + 1));
            assert(scan_entries(lv.skip(li as int)) == listing_entries(dv, mv) + scan_entries(
                lv.skip(li + 1),
            ));
            vstd::seq_lib::lemma_multiset_commutative(
                listing_entries(dv, mv),
                scan_entries(lv.skip(li + 1)),
            );
            assert(mv.skip(0) =~= mv);
            assert(entry_views(out@).to_multiset().add(
                listing_entries(dv, mv.skip(0)).to_multiset(),
            ).add(scan_entries(lv.skip(li + 1)).to_multiset()) =~= goal);
            assert(done + listing_entries(dv, mv.skip(0)) + scan_entries(lv.skip(li + 1))
                =~= scan_entries(lv));
        }
        let ne = listing.entries.len();
        let mut ei: usize = 0;
        while ei < ne
            invariant
                0 <= ei <= ne,
                ne == listing.entries@.len(),
                listing == &listings@[li as int],
                0 <= li < listings@.len(),
                lv == listing_views(listings@),
                goal == scan_entries(lv).to_multiset(),
                dv == listing@.dir,
                mv == listing@.entries,
                sorted_by_title(entry_views(out@)),
                entry_views(out@).to_multiset().add(
                    listing_entries(dv, mv.skip(ei as int)).to_multiset(),
                ).add(scan_entries(lv.skip(li + 1)).to_multiset()) =~= goal,
                entry_views(out@) == title_insertion_sort(done),
                done + listing_entries(dv, mv.skip(ei as int)) + scan_entries(lv.skip(li + 1))
                    == scan_entries(lv),
            decreases ne - ei,
        {
            let m = &listing.entries[ei];
            proof {
                assert(mv[ei as int] == m@);
                assert(mv.skip(ei as int)[0] == mv[ei as int]);
                assert(mv.skip(ei as int).skip(1) =~= mv.skip(ei + 1));
            }
            let ghost rest_ms = listing_entries(dv, mv.skip(ei + 1)).to_multiset();
            if m.is_regular && (m.mode & 0o111u32) != 0u32 {
                let mut action = listing.dir.clone();
                action.append("/");
                action.append(m.name.as_str());
                let e = CompletionEntry {
                    title: m.name.clone(),
                    subtitle: listing.dir.clone(),
                    action,
                };
                let ghost out0 = entry_views(out@).to_multiset();
                proof {
                    assert(e@ =~= entry_of(dv, m@.name));
                    assert(listing_entries(dv, mv.skip(ei as int)) == seq![entry_of(dv, m@.name)]
                        + listing_entries(dv, mv.skip(ei + 1)));
                    vstd::seq_lib::lemma_multiset_commutative(
                        seq![entry_of(dv, m@.name)],
                        listing_entries(dv, mv.skip(ei + 1)),
                    );
                    lemma_singleton_to_multiset(entry_of(dv, m@.name));
                }
                insert_by_title(&mut out, e);
                proof {
                    broadcast use vstd::multiset::group_multiset_axioms;

                    assert(entry_views(out@).to_multiset() == out0.insert(entry_of(dv, m@.name)));
                    assert(entry_views(out@).to_multiset().add(rest_ms).add(
                        scan_entries(lv.skip(li + 1)).to_multiset(),
                    ) =~= goal);
                    let x = entry_of(dv, m@.name);
                    assert(done.push(x).drop_last() =~= done);
                    assert(title_insertion_sort(done.push(x)) == place_by_title(
                        title_insertion_sort(done),
                        x,
                    ));
                    done = done.push(x);
                    assert(done + listing_entries(dv, mv.skip(ei + 1)) + scan_entries(
                        lv.skip(li + 1),
                    ) =~= scan_entries(lv));
                }
            } else {
                proof {
                    assert(!keeps(mv[ei as int]));
                    assert(listing_entries(dv, mv.skip(ei as int)) == listing_entries(
                        dv,
                        mv.skip(ei + 1),
                    ));
                }
            }
            ei += 1;
            proof {
                assert(done + listing_entries(dv, mv.skip(ei as int)) + scan_entries(
                    lv.skip(li as int + 1),
                ) == scan_entries(lv));
            }
        }
        proof {
            broadcast use vstd::multiset::group_multiset_axioms;

            lemma_empty_to_multiset::<EntryView>();
            assert(mv.skip(ne as int) =~= Seq::<FileMetaView>::empty());
            assert(listing_entries(dv, mv.skip(ne as int)) == Seq::<EntryView>::empty());
            assert(entry_views(out@).to_multiset().add(
                scan_entries(lv.skip(li + 1)).to_multiset(),
            ) =~= goal);
            assert(done + scan_entries(lv.skip(li + 1)) =~= scan_entries(lv));
        }
        li += 1;
    }
    proof {
        broadcast use vstd::multiset::group_multiset_axioms;

        lemma_empty_to_multiset::<EntryView>();
        assert(lv.skip(nl as int) =~= Seq::<DirListingView>::empty());
        assert(scan_entries(lv.skip(nl as int)) == Seq::<EntryView>::empty());
        assert(entry_views(out@).to_multiset() =~= goal);
        assert(done =~= scan_entries(lv));
    }
    out
}

/// The engine's mathematical state: the resolved directories, the cached
/// snapshot (absent until the one scan is installed), the current results,
/// and the tick of the last accepted generate call.
#[verifier::ext_equal]
pub struct EngineView {
    pub dirs: Seq<Seq<char>>,
    pub snapshot: Option<Seq<EntryView>>,
    pub results: Seq<EntryView>,
    pub stamp: Option<u64>,
}

/// A call within the debounce window of the last accepted call is suppressed.
pub open spec fn debounced(stamp: Option<u64>, now: u64) -> bool {
    match stamp {
        Some(t) => (now as int) < t + crate::DEBOUNCE_TICKS,
        None => false,
    }
}

/// A generate call is accepted when the input is non-empty, the debounce
/// window has passed, and a snapshot is cached.
pub open spec fn gen_accepted(v: EngineView, input: Seq<char>, now: u64) -> bool {
    input.len() > 0 && !debounced(v.stamp, now) && v.snapshot is Some
}

/// A generate call asks for a scan when it would otherwise be accepted but
/// no snapshot is cached yet.
pub open spec fn gen_needs_scan(v: EngineView, input: Seq<char>, now: u64) -> bool {
    input.len() > 0 && !debounced(v.stamp, now) && v.snapshot is None
}

/// What one generate call does to the engine state: an accepted call filters
/// the snapshot by prefix and updates the stamp; every other call changes
/// nothing.
pub open spec fn gen_step(v: EngineView, input: Seq<char>, now: u64) -> EngineView {
    if gen_accepted(v, input, now) {
        EngineView { results: filtered(v.snapshot->0, input), stamp: Some(now), ..v }
    } else {
        v
    }
}

/// What a generate call reported back to the consumer.
pub enum GenStatus {
    Rejected,
    NeedsScan,
    Accepted,
}

/// The search-path completion engine: it owns the resolved directories, the
/// lazily installed candidate snapshot, and the current filter results.
pub struct Completions {
    pub completions: Vec<CompletionEntry>,
    time: Option<u64>,
    dirs: Vec<String>,
    candidates: Option<Vec<CompletionEntry>>,
}

impl View for Completions {
    type V = EngineView;

    closed spec fn view(&self) -> EngineView {
        EngineView {
            dirs: str_views(self.dirs@),
            snapshot: match self.candidates {
                Some(c) => Some(entry_views(c@)),
                None => None,
            },
            results: entry_views(self.completions@),
            stamp: self.time,
        }
    }
}

impl Completions {
    /// A fresh engine for the given search-path variable value: directories
    /// resolved, no snapshot, no results, no accepted call yet. An unset
    /// variable yields an empty directory list.
    pub fn new(path_var: Option<&str>) -> (r: Completions)
        ensures
            r@.results == Seq::<EntryView>::empty(),
            r@.snapshot is None,
            r@.stamp is None,
            strictly_sorted(r@.dirs),
            match path_var {
                Some(s) => forall|d: Seq<char>| r@.dirs.contains(d) <==> split_colon(s@).contains(
                    d,
                ),
                None => r@.dirs == Seq::<Seq<char>>::empty(),
            },
    {
        let dirs = match path_var {
            Some(s) => resolve_directories(s),
            None => Vec::new(),
        };
        let r = Completions { completions: Vec::new(), time: None, dirs, candidates: None };
        proof {
            assert(entry_views(r.completions@) =~= Seq::<EntryView>::empty());
            if path_var is None {
                assert(str_views(r.dirs@) =~= Seq::<Seq<char>>::empty());
            }
        }
        r
    }

    /// The resolved search-path directories, for the consumer to list.
    pub fn dirs(&self) -> (r: &Vec<String>)
        ensures
            str_views(r@) == self@.dirs,
    {
        &self.dirs
    }

    /// Whether a snapshot still has to be installed before a generate call
    /// can filter.
    pub fn needs_scan(&self) -> (r: bool)
        ensures
            r == (self@.snapshot is None),
    {
        self.candidates.is_none()
    }

    /// Install the snapshot built from the consumer's directory listings.
    /// The engine never rescans by itself: a snapshot can be installed only
    /// once, so the filesystem scan happens at most once per engine.
    pub fn install_scan(&mut self, listings: &Vec<DirListing>)
        requires
            old(self)@.snapshot is None,
        ensures
            final(self)@.dirs == old(self)@.dirs,
            final(self)@.results == old(self)@.results,
            final(self)@.stamp == old(self)@.stamp,
            final(self)@.snapshot is Some,
            sorted_by_title(final(self)@.snapshot->0),
            final(self)@.snapshot->0.to_multiset() == scan_entries(
                listing_views(listings@),
            ).to_multiset(),
            final(self)@.snapshot->0 == title_insertion_sort(
                scan_entries(listing_views(listings@)),
            ),
    {
        let snap = build_snapshot(listings);
        self.candidates = Some(snap);
    }

    /// One generate call at clock tick `now`. An empty input is rejected
    /// outright; a call within the debounce window of the last accepted call
    /// is rejected; a call that finds no snapshot asks the consumer for one
    /// scan; otherwise the snapshot is filtered by title prefix, in order,
    /// and the stamp is set to `now`. Rejected and scan-requesting calls
    /// leave the engine, its results included, untouched.
    pub fn generate_at(&mut self, input: &str, now: u64) -> (r: GenStatus)
        ensures
            final(self)@ == gen_step(old(self)@, input@, now),
            (r is Accepted) == gen_accepted(old(self)@, input@, now),
            (r is NeedsScan) == gen_needs_scan(old(self)@, input@, now),
    {
        if input.is_empty() {
            return GenStatus::Rejected;
        }
        let suppressed = match self.time {
            Some(t) => now < t || now - t < crate::DEBOUNCE_TICKS,
            None => false,
        };
        if suppressed {
            proof {
                assert(debounced(self@.stamp, now));
            }
            return GenStatus::Rejected;
        }
        match &self.candidates {
            None => GenStatus::NeedsScan,
            Some(c) => {
                let results = filter_by_prefix(c, input);
                self.completions = results;
                self.time = Some(now);
                proof {
                    assert(self@ =~~= gen_step(old(self)@, input@, now));
                }
                GenStatus::Accepted
            },
        }
    }

    /// All current completions.
    pub fn all(&self) -> (r: &[CompletionEntry])
        ensures
            entry_views(r@) == self@.results,
    {
        self.completions.as_slice()
    }

    /// The first `n` completions, or all of them when fewer are stored; `n`
    /// of zero yields an empty slice, and no `n` underflows or panics.
    pub fn n(&self, n: usize) -> (r: &[CompletionEntry])
        ensures
            entry_views(r@) == self@.results.take(
                vstd::math::min(n as int, self@.results.len() as int),
            ),
            n == 0 ==> r@.len() == 0,
            n >= self@.results.len() ==> entry_views(r@) == self@.results,
    {
        if n >= self.completions.len() {
            proof {
                assert(self@.results.take(self@.results.len() as int) =~= self@.results);
            }
            self.completions.as_slice()
        } else {
            let r = vstd::slice::slice_subrange(self.completions.as_slice(), 0, n);
            proof {
                assert(entry_views(r@) =~= self@.results.take(n as int));
            }
            r
        }
    }

    /// The number of entries `all` would return.
    pub fn len(&self) -> (r: usize)
        ensures
            r == self@.results.len(),
    {
        self.completions.len()
    }
}

proof fn lemma_filtered_contains(s: Seq<EntryView>, input: Seq<char>, e: EntryView)
    ensures
        filtered(s, input).contains(e) <==> (s.contains(e) && matches_prefix(input, e)),
    decreases s.len(),
{
    reveal(Seq::filter);
    if s.len() > 0 {
        let d = s.drop_last();
        let l = s.last();
        lemma_filtered_contains(d, input, e);
        lemma_push_contains(d, l);
        assert(s =~= d.push(l));
        if matches_prefix(input, l) {
            lemma_push_contains(filtered(d, input), l);
            assert(filtered(s, input) == filtered(d, input).push(l));
        } else {
            assert(filtered(s, input) == filtered(d, input));
        }
    }
}

proof fn lemma_filtered_sorted(s: Seq<EntryView>, input: Seq<char>)
    requires
        sorted_by_title(s),
    ensures
        sorted_by_title(filtered(s, input)),
    decreases s.len(),
{
    reveal(Seq::filter);
    if s.len() > 0 {
        let d = s.drop_last();
        let l = s.last();
        assert(sorted_by_title(d));
        lemma_filtered_sorted(d, input);
        if matches_prefix(input, l) {
            let f = filtered(d, input);
            assert(filtered(s, input) == f.push(l));
            assert forall|i: int, j: int|
                0 <= i < j < f.push(l).len() implies lex_le(
                f.push(l)[i].title,
                f.push(l)[j].title,
            ) by {
                if j == f.len() {
                    assert(f.contains(f[i]));
                    lemma_filtered_contains(d, input, f[i]);
                    let k = choose|k: int| 0 <= k < d.len() && d[k] == f[i];
                    assert(lex_le(s[k].title, s[s.len() - 1].title));
                }
            }
        }
    }
}

/// Order preservation: an accepted generate call keeps the snapshot's title
/// order in its results, so no second ranking pass is needed.
pub proof fn lemma_results_keep_order(v: EngineView, input: Seq<char>, now: u64)
    requires
        gen_accepted(v, input, now),
        sorted_by_title(v.snapshot->0),
    ensures
        sorted_by_title(gen_step(v, input, now).results),
{
    lemma_filtered_sorted(v.snapshot->0, input);
}

/// Prefix correctness: after an accepted generate call, an entry stands in
/// the results exactly when it stands in the snapshot, the input is
/// non-empty, and the entry's title starts with the input.
pub proof fn lemma_prefix_correctness(v: EngineView, input: Seq<char>, now: u64, e: EntryView)
    requires
        gen_accepted(v, input, now),
    ensures
        gen_step(v, input, now).results.contains(e) <==> (v.snapshot->0.contains(e)
            && matches_prefix(input, e) && input.len() > 0),
{
    lemma_filtered_contains(v.snapshot->0, input, e);
}

/// Debounce: when a generate call with a non-empty input was accepted at
/// tick `t1`, a second call with the same input less than a debounce window
/// later changes nothing: the engine, its results included, stays as the
/// first call left it.
pub proof fn lemma_debounce(v: EngineView, input: Seq<char>, t1: u64, t2: u64)
    requires
        gen_accepted(v, input, t1),
        (t2 as int) < t1 + crate::DEBOUNCE_TICKS,
    ensures
        gen_step(gen_step(v, input, t1), input, t2) == gen_step(v, input, t1),
{
}

/// Lazy single scan: a generate step never installs, replaces or drops the
/// snapshot, whatever the input and however often it is called; only
/// `install_scan` installs one, and its precondition admits no second call,
/// so the filesystem scan runs at most once per engine lifetime.
pub proof fn lemma_generate_never_scans(v: EngineView, input: Seq<char>, now: u64)
    ensures
        gen_step(v, input, now).snapshot == v.snapshot,
        gen_step(v, input, now).dirs == v.dirs,
{
}

} // verus!
