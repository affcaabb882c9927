//! Selection, collapse and search-filter state of the flame graph.
use vstd::prelude::*;
use crate::data::{Session, Track};
use crate::text::{contains, lowercase, seq_contains, to_lowercase};

verus! {

/// Which frame a click/hover/selection refers to: `(track, flat index)`.
#[derive(Clone, Copy, PartialEq, Eq, Debug, Structural)]
pub struct FrameId {
    pub track: usize,
    pub flat: usize,
}

// ── track collapse ──────────────────────────────────────────────────────────

/// The tracks after toggling the collapse flag of track `track` (unchanged
/// when there is no such track).
pub open spec fn spec_toggle(tracks: Seq<Track>, track: int) -> Seq<Track> {
    if 0 <= track < tracks.len() {
        tracks.update(track, Track { collapsed: !tracks[track].collapsed, ..tracks[track] })
    } else {
        tracks
    }
}

/// The selection after toggling track `track`: collapsing the track that
/// holds the selected frame clears the selection.
pub open spec fn spec_selection_after_toggle(tracks: Seq<Track>, selected: Option<FrameId>, track: int) -> Option<FrameId> {
    if 0 <= track < tracks.len() && !tracks[track].collapsed && selected is Some && selected->0.track == track {
        None
    } else {
        selected
    }
}

/// Toggle the collapse flag of track `track`; collapsing the track that
/// holds the selected frame drops the selection. Out-of-range tracks are
/// ignored.
pub fn toggle_collapse(session: &mut Session, selected: &mut Option<FrameId>, track: usize)
    ensures
        final(session).tracks@ == spec_toggle(old(session).tracks@, track as int),
        *final(selected) == spec_selection_after_toggle(old(session).tracks@, *old(selected), track as int),
{
    if track >= session.tracks.len() {
        return;
    }
    let mut t = Track { name: String::new(), collapsed: false, roots: Vec::new() };
    session.tracks.set_and_swap(track, &mut t);
    t.collapsed = !t.collapsed;
    let now_collapsed = t.collapsed;
    session.tracks.set(track, t);
    if now_collapsed {
        match *selected {
            Some(f) => {
                if f.track == track {
                    *selected = None;
                }
            },
            None => {},
        }
    }
    assert(session.tracks@ =~= spec_toggle(old(session).tracks@, track as int));
}

/// Law (toggle is an involution): toggling the same track twice gives back
/// the original tracks.
pub proof fn law_toggle_twice_restores(tracks: Seq<Track>, track: int)
    ensures
        spec_toggle(spec_toggle(tracks, track), track) == tracks,
{
    if 0 <= track < tracks.len() {
        assert(spec_toggle(spec_toggle(tracks, track), track) =~= tracks);
    }
}

/// Law (only the toggled track's selection is dropped): no selection stays
/// none; a selection on any other track is kept unchanged; a selection on
/// the toggled track is dropped exactly when that track exists and was
/// expanded (so the toggle collapses it), and kept otherwise.
pub proof fn law_toggle_drops_only_selection_on_that_track(tracks: Seq<Track>, selected: Option<FrameId>, track: int)
    ensures
        selected is None ==> spec_selection_after_toggle(tracks, selected, track) is None,
        selected matches Some(f) && f.track != track ==> spec_selection_after_toggle(tracks, selected, track) == selected,
        selected matches Some(f) && f.track == track ==> (spec_selection_after_toggle(tracks, selected, track) is None
            <==> (0 <= track < tracks.len() && !tracks[track].collapsed)),
        spec_selection_after_toggle(tracks, selected, track) is None
            || spec_selection_after_toggle(tracks, selected, track) == selected,
{
}

/// Law (no selection inside a collapsed track): after a toggle that leaves
/// track `track` collapsed, the selection is not on that track.
pub proof fn law_collapsed_track_holds_no_selection(tracks: Seq<Track>, selected: Option<FrameId>, track: int)
    requires
        0 <= track < tracks.len(),
        spec_toggle(tracks, track)[track].collapsed,
    ensures
        !(spec_selection_after_toggle(tracks, selected, track) matches Some(f) && f.track == track),
{
}

/// Apply a click (a press released without dragging): a click that went
/// down on a track header toggles that track; otherwise the frame it went
/// down on becomes the selection, and a click on the background clears it.
pub fn apply_click(
    session: &mut Session,
    selected: &mut Option<FrameId>,
    down_header: Option<usize>,
    down_frame: Option<FrameId>,
)
    ensures
        down_header matches Some(t) ==> {
            &&& final(session).tracks@ == spec_toggle(old(session).tracks@, t as int)
            &&& *final(selected) == spec_selection_after_toggle(old(session).tracks@, *old(selected), t as int)
        },
        down_header is None ==> {
            &&& *final(session) == *old(session)
            &&& *final(selected) == down_frame
        },
{
    match down_header {
        Some(t) => toggle_collapse(session, selected, t),
        None => {
            *selected = down_frame;
        },
    }
}

/// Whether track `track` exists and is collapsed.
pub fn track_collapsed(session: &Session, track: usize) -> (b: bool)
    ensures
        b == (track < session.tracks@.len() && session.tracks@[track as int].collapsed),
{
    if track < session.tracks.len() {
        session.tracks[track].collapsed
    } else {
        false
    }
}

/// Number of frame rows drawn for track `i`: none when the track is
/// collapsed, otherwise one per nesting level (`max_depth + 1`).
pub open spec fn spec_visible_rows(collapsed: Seq<bool>, max_depths: Seq<usize>, i: int) -> int {
    if 0 <= i < collapsed.len() && collapsed[i] {
        0
    } else {
        max_depths[i] + 1
    }
}

/// Number of frame rows drawn for track `i` given each track's collapse flag
/// (a missing flag means expanded) and nesting depth.
pub fn visible_row_count(collapsed: &[bool], max_depths: &[usize], i: usize) -> (n: usize)
    requires
        (i < collapsed@.len() && collapsed@[i as int]) || (i < max_depths@.len() && max_depths@[i as int] < usize::MAX),
    ensures
        n == spec_visible_rows(collapsed@, max_depths@, i as int),
{
    if i < collapsed.len() && collapsed[i] {
        0
    } else {
        max_depths[i] + 1
    }
}

// ── search filter ───────────────────────────────────────────────────────────

/// The search filter: the query as typed and its lowercase form, which the
/// frame matching uses.
pub struct SearchFilter {
    search: String,
    search_lower: String,
}

impl SearchFilter {
    #[verifier::type_invariant]
    spec fn lower_matches_query(self) -> bool {
        self.search_lower@ == lowercase(self.search@)
    }

    /// The query as typed.
    pub closed spec fn spec_query(&self) -> Seq<char> {
        self.search@
    }

    /// Whether a frame called `name` matches the filter with query `query`:
    /// the lowercase query is empty or occurs in the lowercase name.
    pub open spec fn spec_matches(query: Seq<char>, name: Seq<char>) -> bool {
        lowercase(query).len() == 0 || seq_contains(lowercase(name), lowercase(query))
    }

    /// Law (whole-query substring match): a filter whose lowercase query is
    /// empty matches every name; otherwise it matches a name exactly when the
    /// whole lowercase query occurs as a contiguous run of characters in the
    /// lowercase name, at some position `i`.
    pub proof fn law_matches_whole_lowercase_query(query: Seq<char>, name: Seq<char>)
        ensures
            lowercase(query).len() == 0 ==> Self::spec_matches(query, name),
            lowercase(query).len() > 0 ==> (Self::spec_matches(query, name) <==> exists|i: int|
                0 <= i && i + lowercase(query).len() <= lowercase(name).len()
                    && #[trigger] lowercase(name).subrange(i, i + lowercase(query).len()) == lowercase(query)),
    {
    }

    /// A filter for `query`.
    pub fn new(query: &str) -> (f: Self)
        ensures
            f.spec_query() == query@,
    {
        SearchFilter { search: query.to_owned(), search_lower: to_lowercase(query) }
    }

    /// The query as typed.
    pub fn query(&self) -> (q: &str)
        ensures
            q@ == self.spec_query(),
    {
        self.search.as_str()
    }

    /// Set the query; returns whether it changed (an unchanged query leaves
    /// the filter as it was).
    pub fn set(&mut self, query: &str) -> (changed: bool)
        ensures
            changed == (old(self).spec_query() != query@),
            final(self).spec_query() == query@,
            !changed ==> *final(self) == *old(self),
    {
        let query_str = query.to_owned();
        if !(self.search == query_str) {
            *self = SearchFilter { search: query_str, search_lower: to_lowercase(query) };
            true
        } else {
            false
        }
    }

    /// Whether a frame called `name` matches the filter.
    pub fn matches(&self, name: &str) -> (b: bool)
        ensures
            b == Self::spec_matches(self.spec_query(), name@),
    {
        proof {
            use_type_invariant(self);
        }
        if self.search_lower.as_str().is_empty() {
            true
        } else {
            let name_lower = to_lowercase(name);
            contains(name_lower.as_str(), self.search_lower.as_str())
        }
    }
}

} // verus!
