//! The watch manager's event pipeline: given a raw filesystem event, decide
//! whether a change notification is emitted and with which paths.
//!
//! A raw event carries a kind and a list of absolute paths. An event is
//! relevant only if its kind is `Create`, `Modify` or `Remove`; from a
//! relevant event, exactly the paths whose final extension is `.yaml`,
//! `.yml` or `.json` (case-sensitive suffix match) survive, in their
//! original relative order. A notification is emitted only when at least
//! one path survives.

use vstd::prelude::*;

verus! {

/// The kind of a raw filesystem event, as far as the filter reads it.
#[derive(Clone, Copy, PartialEq, Eq, Structural, Debug)]
pub enum EventKind {
    Create,
    Modify,
    Remove,
    Other,
}

/// A raw filesystem event: a kind and the absolute paths it concerns.
pub struct RawEvent {
    pub kind: EventKind,
    pub paths: Vec<String>,
}

/// What the event source handed the watch loop on one iteration.
pub enum WatchMessage {
    /// A raw event was delivered.
    Event(RawEvent),
    /// The source reported a delivery error; the loop keeps waiting.
    SourceError,
    /// The source is permanently closed; the loop terminates.
    Closed,
}

/// What the watch loop does in reaction to one message.
pub enum WatchAction {
    /// Emit one change notification carrying these paths, then keep waiting.
    Emit(Vec<String>),
    /// Emit nothing and keep waiting.
    Continue,
    /// Terminate the watch task.
    Stop,
}

/// An event of this kind can produce a notification.
pub open spec fn is_relevant_kind(k: EventKind) -> bool {
    k is Create || k is Modify || k is Remove
}

/// `s` ends with `suffix`.
pub open spec fn ends_with(s: Seq<char>, suffix: Seq<char>) -> bool {
    suffix.len() <= s.len() && s.subrange(s.len() - suffix.len(), s.len() as int) == suffix
}

/// The path's final extension is one of the watched spec-file extensions.
pub open spec fn has_watched_extension(p: Seq<char>) -> bool {
    ends_with(p, ".yaml"@) || ends_with(p, ".yml"@) || ends_with(p, ".json"@)
}

/// The subsequence of `ps` whose elements have a watched extension, in
/// their original relative order.
pub open spec fn watched_paths(ps: Seq<Seq<char>>) -> Seq<Seq<char>>
    decreases ps.len(),
{
    if ps.len() == 0 {
        Seq::empty()
    } else {
        let rest = watched_paths(ps.drop_last());
        if has_watched_extension(ps.last()) {
            rest.push(ps.last())
        } else {
            rest
        }
    }
}

/// `watched_paths` keeps exactly the matching elements, in order: it is
/// the filter of the path list by `has_watched_extension`.
pub proof fn lemma_watched_paths_is_filter(ps: Seq<Seq<char>>)
    ensures
        watched_paths(ps) == ps.filter(|p: Seq<char>| has_watched_extension(p)),
        forall|i: int|
            0 <= i < watched_paths(ps).len() ==> has_watched_extension(
                #[trigger] watched_paths(ps)[i],
            ),
        forall|i: int|
            0 <= i < ps.len() && has_watched_extension(ps[i]) ==> watched_paths(ps).contains(
                ps[i],
            ),
    decreases ps.len(),
{
    reveal(Seq::filter);
    if ps.len() > 0 {
        lemma_watched_paths_is_filter(ps.drop_last());
        assert forall|i: int|
            0 <= i < ps.len() && has_watched_extension(ps[i]) implies watched_paths(ps).contains(
            ps[i],
        ) by {
            if i == ps.len() - 1 {
                assert(watched_paths(ps).last() == ps[i]);
            } else {
                assert(ps.drop_last()[i] == ps[i]);
                let rest = watched_paths(ps.drop_last());
                let j = choose|j: int| 0 <= j < rest.len() && rest[j] == ps[i];
                assert(watched_paths(ps)[j] == ps[i]);
            }
        }
    }
}

/// `s` ends with `suffix`, by character comparison.
pub fn path_ends_with(s: &str, suffix: &str) -> (b: bool)
    ensures
        b == ends_with(s@, suffix@),
{
    let n = s.unicode_len();
    let m = suffix.unicode_len();
    if m > n {
        return false;
    }
    let off = n - m;
    let mut j: usize = 0;
    while j < m
        invariant
            m <= n,
            off == n - m,
            n == s@.len(),
            m == suffix@.len(),
            j <= m,
            forall|k: int| 0 <= k < j ==> s@[off + k] == suffix@[k],
        decreases m - j,
    {
        if s.get_char(off + j) != suffix.get_char(j) {
            assert(s@.subrange(off as int, n as int)[j as int] != suffix@[j as int]);
            return false;
        }
        j += 1;
    }
    assert(s@.subrange(off as int, n as int) =~= suffix@);
    true
}

/// The path's final extension is `.yaml`, `.yml` or `.json`.
pub fn is_watched_path(p: &str) -> (b: bool)
    ensures
        b == has_watched_extension(p@),
{
    path_ends_with(p, ".yaml") || path_ends_with(p, ".yml") || path_ends_with(p, ".json")
}

/// Keep exactly the paths with a watched extension, in order.
pub fn filter_watched(paths: &Vec<String>) -> (r: Vec<String>)
    ensures
        r.deep_view() == watched_paths(paths.deep_view()),
{
    let ghost dv = paths.deep_view();
    let mut r: Vec<String> = Vec::new();
    let mut idx: usize = 0;
    while idx < paths.len()
        invariant
            idx <= paths.len(),
            dv == paths.deep_view(),
            dv.len() == paths.len(),
            r.deep_view() == watched_paths(dv.take(idx as int)),
        decreases paths.len() - idx,
    {
        let ghost r_old = r.deep_view();
        let p = &paths[idx];
        assert(p@ == dv[idx as int]);
        if is_watched_path(p.as_str()) {
            let q = p.clone();
            r.push(q);
            assert(r.deep_view() =~= r_old.push(dv[idx as int]));
        }
        assert(dv.take(idx + 1).drop_last() =~= dv.take(idx as int));
        assert(dv.take(idx + 1).last() == dv[idx as int]);
        idx += 1;
    }
    assert(dv.take(paths.len() as int) =~= dv);
    r
}

/// One iteration of the watch loop: what the background task does with one
/// message from the event source.
///
/// A relevant event with at least one surviving path yields exactly one
/// `Emit` carrying exactly the surviving paths in their original relative
/// order; every other event yields nothing. A source delivery error is
/// swallowed and the loop continues; a closed source stops the task.
pub fn watch_step(msg: WatchMessage) -> (a: WatchAction)
    ensures
        match msg {
            WatchMessage::Closed => a is Stop,
            WatchMessage::SourceError => a is Continue,
            WatchMessage::Event(ev) => {
                if is_relevant_kind(ev.kind) && watched_paths(ev.paths.deep_view()).len() > 0 {
                    a matches WatchAction::Emit(ps) && ps.deep_view() == watched_paths(
                        ev.paths.deep_view(),
                    )
                } else {
                    a is Continue
                }
            },
        },
{
    match msg {
        WatchMessage::Closed => WatchAction::Stop,
        WatchMessage::SourceError => WatchAction::Continue,
        WatchMessage::Event(ev) => {
            let relevant = match ev.kind {
                EventKind::Create | EventKind::Modify | EventKind::Remove => true,
                EventKind::Other => false,
            };
            if !relevant {
                return WatchAction::Continue;
            }
            let kept = filter_watched(&ev.paths);
            if kept.len() == 0 {
                WatchAction::Continue
            } else {
                WatchAction::Emit(kept)
            }
        },
    }
}

} // verus!
