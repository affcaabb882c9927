//! Data model and tree-to-flat layout for multi-track flame graphs.
//!
//! Times are nanoseconds: a frame's `start` is its absolute offset from the
//! start of the owning track, `duration` its length.
use vstd::prelude::*;
use vstd::utf8::encode_utf8;

verus! {

/// A single flame frame.
pub struct FlameFrame {
    pub name: String,
    /// Absolute offset from the start of the owning track, nanoseconds.
    pub start: u128,
    /// Length of the frame, nanoseconds.
    pub duration: u128,
    pub children: Vec<FlameFrame>,
}

/// A track shares one time axis with every other track.
pub struct Track {
    pub name: String,
    pub collapsed: bool,
    pub roots: Vec<FlameFrame>,
}

pub struct Session {
    pub tracks: Vec<Track>,
}

/// The integer key from which a frame's color is derived: a hue bucket out
/// of 997, a saturation step out of 16 and a lightness step out of 14.
#[derive(Clone, Copy, Debug, PartialEq, Eq, Structural)]
pub struct FrameColor {
    pub hue_step: u32,
    pub saturation_step: u32,
    pub lightness_step: u32,
}

/// One frame after flattening: absolute times in nanoseconds, plus its row
/// (nesting depth) and its deterministic color key.
pub struct FlatFrame {
    pub name: String,
    pub color: FrameColor,
    pub row: usize,
    pub abs_start: u128,
    pub abs_end: u128,
}

pub struct TrackLayout {
    pub name: String,
    /// Highest nesting depth: this track draws rows `0..=max_depth`.
    pub max_depth: usize,
    pub frames: Vec<FlatFrame>,
}

/// The flattened view of a session, recomputed whenever the data changes.
pub struct FlatSession {
    pub tracks: Vec<TrackLayout>,
    /// End of the whole trace (max frame end over all tracks), nanoseconds.
    pub session_end: u128,
}

/// Mathematical model of a [`FlatFrame`].
pub struct FlatFrameModel {
    pub name: Seq<char>,
    pub color: FrameColor,
    pub row: int,
    pub abs_start: int,
    pub abs_end: int,
}

/// Mathematical model of a [`TrackLayout`].
pub struct TrackLayoutModel {
    pub name: Seq<char>,
    pub max_depth: int,
    pub frames: Seq<FlatFrameModel>,
}

/// Mathematical model of a [`FlatSession`].
pub struct FlatSessionModel {
    pub tracks: Seq<TrackLayoutModel>,
    pub session_end: int,
}

impl View for FlatFrame {
    type V = FlatFrameModel;

    open spec fn view(&self) -> FlatFrameModel {
        FlatFrameModel {
            name: self.name@,
            color: self.color,
            row: self.row as int,
            abs_start: self.abs_start as int,
            abs_end: self.abs_end as int,
        }
    }
}

/// The models of a sequence of flat frames.
pub open spec fn frame_models(frames: Seq<FlatFrame>) -> Seq<FlatFrameModel> {
    frames.map_values(|f: FlatFrame| f@)
}

impl View for TrackLayout {
    type V = TrackLayoutModel;

    open spec fn view(&self) -> TrackLayoutModel {
        TrackLayoutModel {
            name: self.name@,
            max_depth: self.max_depth as int,
            frames: frame_models(self.frames@),
        }
    }
}

impl View for FlatSession {
    type V = FlatSessionModel;

    open spec fn view(&self) -> FlatSessionModel {
        FlatSessionModel {
            tracks: self.tracks@.map_values(|t: TrackLayout| t@),
            session_end: self.session_end as int,
        }
    }
}

impl FlameFrame {
    /// A frame with no children.
    pub fn new(name: &str, start: u128, duration: u128) -> (f: Self)
        ensures
            f.name@ == name@,
            f.start == start,
            f.duration == duration,
            f.children@.len() == 0,
    {
        FlameFrame { name: name.to_owned(), start, duration, children: Vec::new() }
    }

    /// The same frame with its children replaced by `children`.
    pub fn with_children(self, children: Vec<FlameFrame>) -> (f: Self)
        ensures
            f.name == self.name,
            f.start == self.start,
            f.duration == self.duration,
            f.children == children,
    {
        let mut f = self;
        f.children = children;
        f
    }
}

// ── flattening model ────────────────────────────────────────────────────────

/// The flat model of one node placed on row `depth`.
pub open spec fn flat_of(node: FlameFrame, depth: int) -> FlatFrameModel {
    FlatFrameModel {
        name: node.name@,
        color: spec_color_for(node.name@),
        row: depth,
        abs_start: node.start as int,
        abs_end: node.start + node.duration,
    }
}

/// Pre-order layout of the subtree rooted at `node`: the node itself on row
/// `depth`, then its children's subtrees, in order, one row below.
pub open spec fn frame_preorder(node: FlameFrame, depth: int) -> Seq<FlatFrameModel>
    decreases node,
{
    seq![flat_of(node, depth)] + forest_preorder(node.children@, depth + 1)
}

/// Pre-order layout of a list of sibling subtrees, all rooted on row `depth`.
pub open spec fn forest_preorder(nodes: Seq<FlameFrame>, depth: int) -> Seq<FlatFrameModel>
    decreases nodes,
{
    if nodes.len() == 0 {
        seq![]
    } else {
        forest_preorder(nodes.drop_last(), depth) + frame_preorder(nodes.last(), depth)
    }
}

/// The subtree of `node` on row `depth` is representable: every row fits in
/// `usize` and every frame end fits in `u128`.
pub open spec fn frame_fits(node: FlameFrame, depth: int) -> bool
    decreases node,
{
    &&& 0 <= depth <= usize::MAX
    &&& node.start + node.duration <= u128::MAX
    &&& forest_fits(node.children@, depth + 1)
}

/// Every subtree of `nodes`, rooted on row `depth`, is representable.
pub open spec fn forest_fits(nodes: Seq<FlameFrame>, depth: int) -> bool
    decreases nodes,
{
    if nodes.len() == 0 {
        true
    } else {
        forest_fits(nodes.drop_last(), depth) && frame_fits(nodes.last(), depth)
    }
}

/// Every track of the session is representable once flattened.
pub open spec fn session_fits(session: Session) -> bool {
    forall|i: int| 0 <= i < session.tracks@.len() ==> forest_fits(#[trigger] session.tracks@[i].roots@, 0)
}

/// Highest row among `frames` (0 when there is none).
pub open spec fn max_row(frames: Seq<FlatFrameModel>) -> int
    decreases frames.len(),
{
    if frames.len() == 0 {
        0
    } else {
        let m: int = max_row(frames.drop_last());
        if frames.last().row > m { frames.last().row } else { m }
    }
}

/// Latest end among `frames` (0 when there is none).
pub open spec fn max_end(frames: Seq<FlatFrameModel>) -> int
    decreases frames.len(),
{
    if frames.len() == 0 {
        0
    } else {
        let m: int = max_end(frames.drop_last());
        if frames.last().abs_end > m { frames.last().abs_end } else { m }
    }
}

/// The layout of one track.
pub open spec fn spec_layout(track: Track) -> TrackLayoutModel {
    TrackLayoutModel {
        name: track.name@,
        max_depth: max_row(forest_preorder(track.roots@, 0)),
        frames: forest_preorder(track.roots@, 0),
    }
}

/// The end of the whole trace: the latest frame end over all tracks, or 0.
pub open spec fn tracks_end(tracks: Seq<Track>) -> int
    decreases tracks.len(),
{
    if tracks.len() == 0 {
        0
    } else {
        let m: int = tracks_end(tracks.drop_last());
        let e: int = max_end(forest_preorder(tracks.last().roots@, 0));
        if e > m { e } else { m }
    }
}

/// The flattened session.
pub open spec fn spec_flatten(session: Session) -> FlatSessionModel {
    FlatSessionModel {
        tracks: session.tracks@.map_values(|t: Track| spec_layout(t)),
        session_end: tracks_end(session.tracks@),
    }
}

proof fn lemma_forest_fits_each(nodes: Seq<FlameFrame>, depth: int, i: int)
    requires
        forest_fits(nodes, depth),
        0 <= i < nodes.len(),
    ensures
        frame_fits(nodes[i], depth),
    decreases nodes.len(),
{
    if i < nodes.len() - 1 {
        lemma_forest_fits_each(nodes.drop_last(), depth, i);
    }
}

fn frame_within_limits(node: &FlameFrame, depth: usize) -> (b: bool)
    ensures
        b == frame_fits(*node, depth as int),
    decreases node,
{
    if node.duration > u128::MAX - node.start {
        false
    } else if node.children.len() == 0 {
        true
    } else if depth == usize::MAX {
        proof {
            if forest_fits(node.children@, depth + 1) {
                lemma_forest_fits_each(node.children@, depth + 1, 0);
            }
        }
        false
    } else {
        proof {
            assert(decreases_to!(*node => node.children));
        }
        forest_within_limits(&node.children, depth + 1)
    }
}

fn forest_within_limits(nodes: &Vec<FlameFrame>, depth: usize) -> (b: bool)
    ensures
        b == forest_fits(nodes@, depth as int),
    decreases nodes,
{
    let mut i: usize = 0;
    while i < nodes.len()
        invariant
            i <= nodes@.len(),
            forest_fits(nodes@.take(i as int), depth as int),
        decreases nodes@.len() - i,
    {
        proof {
            assert(nodes@.take(i + 1).drop_last() =~= nodes@.take(i as int));
            assert(decreases_to!(nodes => nodes@[i as int]));
        }
        if !frame_within_limits(&nodes[i], depth) {
            proof {
                if forest_fits(nodes@, depth as int) {
                    lemma_forest_fits_each(nodes@, depth as int, i as int);
                }
            }
            return false;
        }
        i = i + 1;
    }
    assert(nodes@.take(i as int) =~= nodes@);
    true
}

/// Whether the session can be flattened: every row fits in `usize` and every
/// frame end (`start + duration`) fits in `u128`.
pub fn session_within_limits(session: &Session) -> (b: bool)
    ensures
        b == session_fits(*session),
{
    let mut i: usize = 0;
    while i < session.tracks.len()
        invariant
            i <= session.tracks@.len(),
            forall|k: int| 0 <= k < i ==> forest_fits(#[trigger] session.tracks@[k].roots@, 0),
        decreases session.tracks@.len() - i,
    {
        if !forest_within_limits(&session.tracks[i].roots, 0) {
            return false;
        }
        i = i + 1;
    }
    true
}

// ── flattening ──────────────────────────────────────────────────────────────

/// Append the pre-order layout of `node` (on row `depth`) to `frames`,
/// keeping `max_depth` the highest row in `frames`.
fn visit(node: &FlameFrame, depth: usize, frames: &mut Vec<FlatFrame>, max_depth: &mut usize)
    requires
        frame_fits(*node, depth as int),
        *old(max_depth) == max_row(frame_models(old(frames)@)),
    ensures
        frame_models(final(frames)@) == frame_models(old(frames)@) + frame_preorder(*node, depth as int),
        *final(max_depth) == max_row(frame_models(final(frames)@)),
    decreases node,
{
    let ghost before = frame_models(frames@);
    if depth > *max_depth {
        *max_depth = depth;
    }
    frames.push(FlatFrame {
        name: node.name.clone(),
        color: color_for(node.name.as_str()),
        row: depth,
        abs_start: node.start,
        abs_end: node.start + node.duration,
    });
    assert(frame_models(frames@) =~= before + seq![flat_of(*node, depth as int)]);
    assert(frame_models(frames@).drop_last() =~= before);
    let ghost head = before + seq![flat_of(*node, depth as int)];
    let mut i: usize = 0;
    while i < node.children.len()
        invariant
            i <= node.children@.len(),
            head == before + seq![flat_of(*node, depth as int)],
            frame_fits(*node, depth as int),
            frame_models(frames@) == head + forest_preorder(node.children@.take(i as int), depth + 1),
            *max_depth == max_row(frame_models(frames@)),
        decreases node.children@.len() - i,
    {
        proof {
            lemma_forest_fits_each(node.children@, depth + 1, i as int);
            assert(node.children@.take(i + 1).drop_last() =~= node.children@.take(i as int));
            assert(node.children@.take(i + 1).last() == node.children@[i as int]);
            assert(decreases_to!(*node => node.children@[i as int]));
        }
        let ghost mid = frame_models(frames@);
        visit(&node.children[i], depth + 1, frames, max_depth);
        assert(frame_models(frames@) =~= head + forest_preorder(node.children@.take(i + 1), depth + 1));
        i = i + 1;
    }
    assert(node.children@.take(i as int) =~= node.children@);
    assert(frame_models(frames@) =~= before + frame_preorder(*node, depth as int));
}

// ── hashing and color ───────────────────────────────────────────────────────

/// 32-bit FNV-1a over a byte sequence.
pub open spec fn fnv1a_bytes(bytes: Seq<u8>) -> u32
    decreases bytes.len(),
{
    if bytes.len() == 0 {
        0x811c_9dc5u32
    } else {
        (fnv1a_bytes(bytes.drop_last()) ^ (bytes.last() as u32)).wrapping_mul(0x0100_0193u32)
    }
}

/// FNV-1a of a name, over its UTF-8 bytes.
pub open spec fn spec_fnv1a(name: Seq<char>) -> u32 {
    fnv1a_bytes(encode_utf8(name))
}

/// The color key of a name: a function of the name alone.
pub open spec fn spec_color_for(name: Seq<char>) -> FrameColor {
    let h: u32 = spec_fnv1a(name);
    FrameColor {
        hue_step: h % 997,
        saturation_step: (h >> 16u32) % 16,
        lightness_step: (h >> 8u32) % 14,
    }
}

/// 32-bit FNV-1a hash of the UTF-8 bytes of `name`.
pub fn fnv1a(name: &str) -> (h: u32)
    ensures
        h == spec_fnv1a(name@),
{
    let bytes = name.as_bytes();
    let mut h: u32 = 0x811c_9dc5;
    let mut i: usize = 0;
    while i < bytes.len()
        invariant
            i <= bytes@.len(),
            bytes@ == encode_utf8(name@),
            h == fnv1a_bytes(bytes@.take(i as int)),
        decreases bytes@.len() - i,
    {
        assert(bytes@.take(i + 1).drop_last() =~= bytes@.take(i as int));
        h = (h ^ (bytes[i] as u32)).wrapping_mul(0x0100_0193);
        i = i + 1;
    }
    assert(bytes@.take(i as int) =~= bytes@);
    h
}

/// Deterministic color key for a function name: the same name always gets
/// the same color wherever it appears. The hash is folded into a hue bucket
/// and into saturation and lightness steps.
pub fn color_for(name: &str) -> (c: FrameColor)
    ensures
        c == spec_color_for(name@),
{
    let h: u32 = fnv1a(name);
    FrameColor { hue_step: h % 997, saturation_step: (h >> 16) % 16, lightness_step: (h >> 8) % 14 }
}

fn layout_track(track: &Track) -> (layout: TrackLayout)
    requires
        forest_fits(track.roots@, 0),
    ensures
        layout@ == spec_layout(*track),
{
    let mut frames: Vec<FlatFrame> = Vec::new();
    let mut max_depth: usize = 0;
    assert(frame_models(frames@) =~= Seq::<FlatFrameModel>::empty());
    let mut i: usize = 0;
    while i < track.roots.len()
        invariant
            i <= track.roots@.len(),
            forest_fits(track.roots@, 0),
            frame_models(frames@) == forest_preorder(track.roots@.take(i as int), 0),
            max_depth == max_row(frame_models(frames@)),
        decreases track.roots@.len() - i,
    {
        proof {
            lemma_forest_fits_each(track.roots@, 0, i as int);
            assert(track.roots@.take(i + 1).drop_last() =~= track.roots@.take(i as int));
        }
        visit(&track.roots[i], 0, &mut frames, &mut max_depth);
        i = i + 1;
    }
    assert(track.roots@.take(i as int) =~= track.roots@);
    TrackLayout { name: track.name.clone(), max_depth, frames }
}

/// Latest end among `frames`, or 0 when there is none.
fn frames_end(frames: &Vec<FlatFrame>) -> (e: u128)
    ensures
        e == max_end(frame_models(frames@)),
{
    let mut e: u128 = 0;
    let mut j: usize = 0;
    while j < frames.len()
        invariant
            j <= frames@.len(),
            e == max_end(frame_models(frames@.take(j as int))),
        decreases frames@.len() - j,
    {
        assert(frame_models(frames@.take(j + 1)).drop_last() =~= frame_models(frames@.take(j as int)));
        if frames[j].abs_end > e {
            e = frames[j].abs_end;
        }
        j = j + 1;
    }
    assert(frames@.take(j as int) =~= frames@);
    e
}

/// Flatten a session into per-track flat frame lists.
///
/// Every frame becomes one flat frame, in pre-order: children of the same
/// parent are placed on the row below it, and each track's `max_depth` is its
/// deepest row. `session_end` is the latest frame end over all tracks.
pub fn flatten(session: &Session) -> (flat: FlatSession)
    requires
        session_fits(*session),
    ensures
        flat@ == spec_flatten(*session),
{
    let mut tracks: Vec<TrackLayout> = Vec::new();
    let mut session_end: u128 = 0;
    let mut i: usize = 0;
    while i < session.tracks.len()
        invariant
            i <= session.tracks@.len(),
            session_fits(*session),
            tracks@.len() == i,
            forall|k: int| 0 <= k < i ==> #[trigger] tracks@[k]@ == spec_layout(session.tracks@[k]),
            session_end == tracks_end(session.tracks@.take(i as int)),
        decreases session.tracks@.len() - i,
    {
        assert(session.tracks@.take(i + 1).drop_last() =~= session.tracks@.take(i as int));
        assert(forest_fits(session.tracks@[i as int].roots@, 0));
        let layout = layout_track(&session.tracks[i]);
        let end: u128 = frames_end(&layout.frames);
        if end > session_end {
            session_end = end;
        }
        tracks.push(layout);
        i = i + 1;
    }
    assert(session.tracks@.take(i as int) =~= session.tracks@);
    let flat = FlatSession { tracks, session_end };
    assert(flat@.tracks =~= spec_flatten(*session).tracks);
    flat
}

/// Indices (ascending) of the frames that sit on row `row`.
pub open spec fn indices_on_row(frames: Seq<FlatFrameModel>, row: int) -> Seq<usize>
    decreases frames.len(),
{
    if frames.len() == 0 {
        Seq::empty()
    } else {
        indices_on_row(frames.drop_last(), row) + (if frames.last().row == row {
            seq![(frames.len() - 1) as usize]
        } else {
            Seq::empty()
        })
    }
}

impl TrackLayout {
    /// The frames of this track grouped by row: entry `r` lists, in order,
    /// the indices into `frames` of the frames on row `r`.
    pub fn row_indices(&self) -> (rows: Vec<Vec<usize>>)
        requires
            self.max_depth < usize::MAX,
            forall|k: int| 0 <= k < self.frames@.len() ==> (#[trigger] self.frames@[k]).row <= self.max_depth,
        ensures
            rows@.len() == self.max_depth + 1,
            forall|r: int| 0 <= r <= self.max_depth ==> (#[trigger] rows@[r])@ == indices_on_row(self@.frames, r),
    {
        let n_rows: usize = self.max_depth + 1;
        let mut rows: Vec<Vec<usize>> = Vec::new();
        while rows.len() < n_rows
            invariant
                n_rows == self.max_depth + 1,
                rows@.len() <= n_rows,
                forall|r: int| 0 <= r < rows@.len() ==> (#[trigger] rows@[r])@ == Seq::<usize>::empty(),
            decreases n_rows - rows@.len(),
        {
            rows.push(Vec::new());
        }
        let mut k: usize = 0;
        while k < self.frames.len()
            invariant
                n_rows == self.max_depth + 1,
                rows@.len() == n_rows,
                k <= self.frames@.len(),
                forall|j: int| 0 <= j < self.frames@.len() ==> (#[trigger] self.frames@[j]).row <= self.max_depth,
                forall|r: int| 0 <= r < n_rows ==> (#[trigger] rows@[r])@
                    == indices_on_row(frame_models(self.frames@.take(k as int)), r),
            decreases self.frames@.len() - k,
        {
            let r: usize = self.frames[k].row;
            let ghost before = rows@;
            let mut row: Vec<usize> = Vec::new();
            rows.set_and_swap(r, &mut row);
            row.push(k);
            rows.set(r, row);
            proof {
                let m = frame_models(self.frames@.take(k + 1));
                assert(m.drop_last() =~= frame_models(self.frames@.take(k as int)));
                assert(m.last() == self.frames@[k as int]@);
                assert forall|q: int| 0 <= q < n_rows implies (#[trigger] rows@[q])@ == indices_on_row(m, q) by {
                    if q == r {
                        assert(rows@[q]@ =~= indices_on_row(m, q));
                    } else {
                        assert(rows@[q] == before[q]);
                        assert(indices_on_row(m, q) =~= indices_on_row(m.drop_last(), q));
                    }
                }
            }
            k = k + 1;
        }
        assert(self.frames@.take(k as int) =~= self.frames@);
        rows
    }
}

// ── properties of the layout ───────────────────────────────────────────────

/// Number of frames in a subtree.
pub open spec fn frame_size(node: FlameFrame) -> nat
    decreases node,
{
    1 + forest_size(node.children@)
}

/// Number of frames in a list of sibling subtrees.
pub open spec fn forest_size(nodes: Seq<FlameFrame>) -> nat
    decreases nodes,
{
    if nodes.len() == 0 {
        0
    } else {
        forest_size(nodes.drop_last()) + frame_size(nodes.last())
    }
}

/// Going from frame `k` to frame `k + 1` descends at most one row.
pub open spec fn descends_by_at_most_one(frames: Seq<FlatFrameModel>, k: int) -> bool {
    frames[k + 1].row <= frames[k].row + 1
}

/// Shape of a pre-order layout rooted on row `depth`: it starts on row
/// `depth`, never goes above it, descends at most one row from one frame to
/// the next, and every frame carries its name's color and ends no earlier
/// than it starts.
pub open spec fn layout_shape(frames: Seq<FlatFrameModel>, depth: int) -> bool {
    &&& frames.len() > 0 ==> frames[0].row == depth
    &&& forall|k: int| 0 <= k < frames.len() ==> (#[trigger] frames[k]).row >= depth
    &&& forall|k: int| 0 <= k < frames.len() ==> (#[trigger] frames[k]).color == spec_color_for(frames[k].name)
    &&& forall|k: int| 0 <= k < frames.len() ==> (#[trigger] frames[k]).abs_start <= frames[k].abs_end
    &&& forall|k: int| 0 <= k < frames.len() - 1 ==> #[trigger] descends_by_at_most_one(frames, k)
}

proof fn lemma_shape_concat(a: Seq<FlatFrameModel>, b: Seq<FlatFrameModel>, depth: int, depth_b: int)
    requires
        layout_shape(a, depth),
        layout_shape(b, depth_b),
        depth <= depth_b,
        a.len() == 0 ==> depth_b == depth,
        a.len() > 0 ==> depth_b <= a.last().row + 1,
    ensures
        layout_shape(a + b, depth),
{
    let s = a + b;
    assert forall|k: int| 0 <= k < s.len() implies {
        &&& (#[trigger] s[k]).row >= depth
        &&& s[k].color == spec_color_for(s[k].name)
        &&& s[k].abs_start <= s[k].abs_end
    } by {
        if k >= a.len() {
            assert(s[k] == b[k - a.len()]);
        } else {
            assert(s[k] == a[k]);
        }
    }
    assert forall|k: int| 0 <= k < s.len() - 1 implies #[trigger] descends_by_at_most_one(s, k) by {
        if k + 1 > a.len() {
            assert(s[k + 1] == b[k + 1 - a.len()]);
            assert(s[k] == b[k - a.len()]);
            assert(descends_by_at_most_one(b, k - a.len()));
        } else if k + 1 == a.len() {
            assert(s[k + 1] == b[0]);
            assert(s[k] == a[k]);
        } else {
            assert(s[k + 1] == a[k + 1]);
            assert(s[k] == a[k]);
            assert(descends_by_at_most_one(a, k));
        }
    }
    if s.len() > 0 {
        if a.len() > 0 {
            assert(s[0] == a[0]);
        } else {
            assert(s[0] == b[0]);
        }
    }
}

proof fn lemma_frame_shape(node: FlameFrame, depth: int)
    ensures
        layout_shape(frame_preorder(node, depth), depth),
        frame_preorder(node, depth).len() == frame_size(node),
    decreases node,
{
    lemma_forest_shape(node.children@, depth + 1);
    let a = seq![flat_of(node, depth)];
    assert(a[0] == flat_of(node, depth));
    assert(layout_shape(a, depth));
    lemma_shape_concat(a, forest_preorder(node.children@, depth + 1), depth, depth + 1);
}

proof fn lemma_forest_shape(nodes: Seq<FlameFrame>, depth: int)
    ensures
        layout_shape(forest_preorder(nodes, depth), depth),
        forest_preorder(nodes, depth).len() == forest_size(nodes),
    decreases nodes,
{
    if nodes.len() > 0 {
        lemma_forest_shape(nodes.drop_last(), depth);
        lemma_frame_shape(nodes.last(), depth);
        let a = forest_preorder(nodes.drop_last(), depth);
        if a.len() > 0 {
            assert(a[a.len() - 1].row >= depth);
        }
        lemma_shape_concat(a, frame_preorder(nodes.last(), depth), depth, depth);
    }
}

proof fn lemma_max_row(frames: Seq<FlatFrameModel>)
    ensures
        max_row(frames) >= 0,
        forall|k: int| 0 <= k < frames.len() ==> (#[trigger] frames[k]).row <= max_row(frames),
        frames.len() > 0 && frames[0].row >= 0 ==> exists|k: int|
            0 <= k < frames.len() && (#[trigger] frames[k]).row == max_row(frames),
    decreases frames.len(),
{
    if frames.len() > 0 {
        let p = frames.drop_last();
        lemma_max_row(p);
        assert forall|k: int| 0 <= k < frames.len() implies (#[trigger] frames[k]).row <= max_row(frames) by {
            if k < p.len() {
                assert(frames[k] == p[k]);
            }
        }
        if frames[0].row >= 0 {
            if frames.last().row > max_row(p) {
                assert(frames[frames.len() - 1].row == max_row(frames));
            } else if p.len() > 0 {
                assert(p[0] == frames[0]);
                let k = choose|k: int| 0 <= k < p.len() && (#[trigger] p[k]).row == max_row(p);
                assert(frames[k] == p[k]);
            } else {
                assert(frames[0].row == max_row(frames));
            }
        }
    }
}

proof fn lemma_max_end(frames: Seq<FlatFrameModel>)
    ensures
        max_end(frames) >= 0,
        forall|k: int| 0 <= k < frames.len() ==> (#[trigger] frames[k]).abs_end <= max_end(frames),
        max_end(frames) == 0 || exists|k: int|
            0 <= k < frames.len() && (#[trigger] frames[k]).abs_end == max_end(frames),
    decreases frames.len(),
{
    if frames.len() > 0 {
        let p = frames.drop_last();
        lemma_max_end(p);
        assert forall|k: int| 0 <= k < frames.len() implies (#[trigger] frames[k]).abs_end <= max_end(frames) by {
            if k < p.len() {
                assert(frames[k] == p[k]);
            }
        }
        if frames.last().abs_end > max_end(p) {
            assert(frames[frames.len() - 1].abs_end == max_end(frames));
        } else if max_end(p) != 0 {
            let k = choose|k: int| 0 <= k < p.len() && (#[trigger] p[k]).abs_end == max_end(p);
            assert(frames[k] == p[k]);
        }
    }
}

proof fn lemma_tracks_end(tracks: Seq<Track>)
    ensures
        tracks_end(tracks) >= 0,
        forall|t: int, k: int|
            0 <= t < tracks.len() && 0 <= k < spec_layout(tracks[t]).frames.len()
                ==> (#[trigger] spec_layout(tracks[t]).frames[k]).abs_end <= tracks_end(tracks),
        tracks_end(tracks) == 0 || exists|t: int, k: int|
            0 <= t < tracks.len() && 0 <= k < spec_layout(tracks[t]).frames.len()
                && (#[trigger] spec_layout(tracks[t]).frames[k]).abs_end == tracks_end(tracks),
    decreases tracks.len(),
{
    if tracks.len() > 0 {
        let p = tracks.drop_last();
        lemma_tracks_end(p);
        let last = spec_layout(tracks.last()).frames;
        lemma_max_end(last);
        assert forall|t: int, k: int|
            0 <= t < tracks.len() && 0 <= k < spec_layout(tracks[t]).frames.len()
            implies (#[trigger] spec_layout(tracks[t]).frames[k]).abs_end <= tracks_end(tracks) by {
            if t < p.len() {
                assert(tracks[t] == p[t]);
            }
        }
        if max_end(last) > tracks_end(p) {
            let k = choose|k: int| 0 <= k < last.len() && (#[trigger] last[k]).abs_end == max_end(last);
            assert(spec_layout(tracks[tracks.len() - 1]).frames[k].abs_end == tracks_end(tracks));
        } else if tracks_end(p) != 0 {
            let (t, k) = choose|t: int, k: int|
                0 <= t < p.len() && 0 <= k < spec_layout(p[t]).frames.len()
                    && (#[trigger] spec_layout(p[t]).frames[k]).abs_end == tracks_end(p);
            assert(tracks[t] == p[t]);
            assert(spec_layout(tracks[t]).frames[k].abs_end == tracks_end(tracks));
        }
    }
}

/// Law (rows follow nesting): in every flattened track, frames are in
/// pre-order, so the first frame is on row 0 and going from one frame to the
/// next descends at most one row (a child sits on the row just below its
/// parent).
pub proof fn law_rows_follow_nesting(session: Session)
    ensures
        forall|t: int| 0 <= t < spec_flatten(session).tracks.len()
            ==> layout_shape(#[trigger] spec_flatten(session).tracks[t].frames, 0),
{
    assert forall|t: int| 0 <= t < spec_flatten(session).tracks.len()
        implies layout_shape(#[trigger] spec_flatten(session).tracks[t].frames, 0) by {
        lemma_forest_shape(session.tracks@[t].roots@, 0);
    }
}

/// Law (one flat frame per frame): a flattened track has exactly as many
/// frames as its frame tree.
pub proof fn law_every_frame_flattened_once(session: Session)
    ensures
        spec_flatten(session).tracks.len() == session.tracks@.len(),
        forall|t: int| 0 <= t < session.tracks@.len()
            ==> (#[trigger] spec_flatten(session).tracks[t]).frames.len() == forest_size(session.tracks@[t].roots@),
{
    assert forall|t: int| 0 <= t < session.tracks@.len()
        implies (#[trigger] spec_flatten(session).tracks[t]).frames.len() == forest_size(session.tracks@[t].roots@) by {
        lemma_forest_shape(session.tracks@[t].roots@, 0);
    }
}

/// Law (max depth): every frame of a track lies on a row in
/// `0..=max_depth`, and a non-empty track has a frame on row `max_depth`.
pub proof fn law_max_depth_is_deepest_row(session: Session)
    ensures
        forall|t: int, k: int|
            0 <= t < spec_flatten(session).tracks.len() && 0 <= k < spec_flatten(session).tracks[t].frames.len()
                ==> 0 <= (#[trigger] spec_flatten(session).tracks[t].frames[k]).row
                    <= spec_flatten(session).tracks[t].max_depth,
        forall|t: int|
            0 <= t < spec_flatten(session).tracks.len() && (#[trigger] spec_flatten(session).tracks[t]).frames.len() > 0
                ==> exists|k: int|
                    0 <= k < spec_flatten(session).tracks[t].frames.len()
                        && (#[trigger] spec_flatten(session).tracks[t].frames[k]).row == spec_flatten(session).tracks[t].max_depth,
{
    let f = spec_flatten(session);
    assert forall|t: int| 0 <= t < f.tracks.len() implies {
        &&& forall|k: int| 0 <= k < f.tracks[t].frames.len()
            ==> 0 <= (#[trigger] f.tracks[t].frames[k]).row <= f.tracks[t].max_depth
        &&& f.tracks[t].frames.len() > 0 ==> exists|k: int|
            0 <= k < f.tracks[t].frames.len() && (#[trigger] f.tracks[t].frames[k]).row == f.tracks[t].max_depth
    } by {
        lemma_forest_shape(session.tracks@[t].roots@, 0);
        lemma_max_row(f.tracks[t].frames);
    }
}

/// Law (session end): no frame of any track ends after `session_end`, and
/// `session_end` is either 0 or the end of some frame.
pub proof fn law_session_end_is_latest_end(session: Session)
    ensures
        forall|t: int, k: int|
            0 <= t < spec_flatten(session).tracks.len() && 0 <= k < spec_flatten(session).tracks[t].frames.len()
                ==> (#[trigger] spec_flatten(session).tracks[t].frames[k]).abs_end <= spec_flatten(session).session_end,
        spec_flatten(session).session_end == 0 || exists|t: int, k: int|
            0 <= t < spec_flatten(session).tracks.len() && 0 <= k < spec_flatten(session).tracks[t].frames.len()
                && (#[trigger] spec_flatten(session).tracks[t].frames[k]).abs_end == spec_flatten(session).session_end,
{
    lemma_tracks_end(session.tracks@);
    let f = spec_flatten(session);
    let tr = session.tracks@;
    assert forall|t: int| 0 <= t < f.tracks.len() implies #[trigger] f.tracks[t] == spec_layout(tr[t]) by {}
    if f.session_end != 0 {
        let (t, k) = choose|t: int, k: int|
            0 <= t < tr.len() && 0 <= k < spec_layout(tr[t]).frames.len()
                && (#[trigger] spec_layout(tr[t]).frames[k]).abs_end == tracks_end(tr);
        assert(f.tracks[t].frames[k].abs_end == f.session_end);
    }
}

/// Law (deterministic colors): two flattened frames with the same name, in
/// the same track or in different ones, have the same color.
pub proof fn law_same_name_same_color(session: Session)
    ensures
        forall|t1: int, k1: int, t2: int, k2: int|
            0 <= t1 < spec_flatten(session).tracks.len() && 0 <= k1 < spec_flatten(session).tracks[t1].frames.len()
                && 0 <= t2 < spec_flatten(session).tracks.len() && 0 <= k2 < spec_flatten(session).tracks[t2].frames.len()
                && (#[trigger] spec_flatten(session).tracks[t1].frames[k1]).name == (#[trigger] spec_flatten(session).tracks[t2].frames[k2]).name
                ==> spec_flatten(session).tracks[t1].frames[k1].color == spec_flatten(session).tracks[t2].frames[k2].color,
{
    law_rows_follow_nesting(session);
}

// ── properties of the hash ──────────────────────────────────────────────────

/// Continue an FNV-1a hash from state `h` over `bytes`, first byte first:
/// each byte is xor-ed in and the state multiplied by the FNV prime
/// (wrapping).
pub open spec fn fnv1a_extend(h: u32, bytes: Seq<u8>) -> u32
    decreases bytes.len(),
{
    if bytes.len() == 0 {
        h
    } else {
        fnv1a_extend((h ^ (bytes[0] as u32)).wrapping_mul(0x0100_0193u32), bytes.drop_first())
    }
}

proof fn lemma_encode_utf8_concat(a: Seq<char>, b: Seq<char>)
    ensures
        encode_utf8(a + b) == encode_utf8(a) + encode_utf8(b),
    decreases a.len(),
{
    if a.len() == 0 {
        assert(a + b =~= b);
        assert(encode_utf8(a) + encode_utf8(b) =~= encode_utf8(b));
    } else {
        lemma_encode_utf8_concat(a.drop_first(), b);
        assert((a + b).drop_first() =~= a.drop_first() + b);
        assert((a + b)[0] == a[0]);
        assert(encode_utf8(a + b) =~= encode_utf8(a) + encode_utf8(b));
    }
}

proof fn lemma_fnv1a_bytes_concat(a: Seq<u8>, b: Seq<u8>)
    ensures
        fnv1a_bytes(a + b) == fnv1a_extend(fnv1a_bytes(a), b),
    decreases b.len(),
{
    if b.len() == 0 {
        assert(a + b =~= a);
    } else {
        let a2 = a.push(b[0]);
        assert(a2.drop_last() =~= a);
        assert(a2.last() == b[0]);
        lemma_fnv1a_bytes_concat(a2, b.drop_first());
        assert(a2 + b.drop_first() =~= a + b);
    }
}

/// Law (the hash folds every byte): the empty name hashes to the FNV offset
/// basis, and appending a character to a name continues the hash over that
/// character's UTF-8 bytes, xor-ing each in and multiplying by the FNV prime,
/// for names of any length.
pub proof fn law_fnv1a_folds_every_byte(name: Seq<char>, c: char)
    ensures
        spec_fnv1a(Seq::<char>::empty()) == 0x811c_9dc5u32,
        spec_fnv1a(name.push(c)) == fnv1a_extend(spec_fnv1a(name), encode_utf8(seq![c])),
        spec_fnv1a(name + seq![c]) == fnv1a_extend(spec_fnv1a(name), encode_utf8(seq![c])),
{
    assert(encode_utf8(Seq::<char>::empty()) =~= Seq::<u8>::empty());
    lemma_encode_utf8_concat(name, seq![c]);
    assert(name.push(c) =~= name + seq![c]);
    lemma_fnv1a_bytes_concat(encode_utf8(name), encode_utf8(seq![c]));
}

/// Law (ASCII step): appending an ASCII character `c` to any name turns its
/// hash `h` into `(h ^ c) * 0x01000193` (wrapping).
pub proof fn law_fnv1a_ascii_step(name: Seq<char>, c: char)
    requires
        (c as u32) < 0x80,
    ensures
        spec_fnv1a(name.push(c)) == (spec_fnv1a(name) ^ (c as u32)).wrapping_mul(0x0100_0193u32),
{
    law_fnv1a_folds_every_byte(name, c);
    let v = c as u32;
    let e = encode_utf8(seq![c]);
    assert(seq![c].drop_first() =~= Seq::<char>::empty());
    assert(e =~= vstd::utf8::encode_scalar(v) + encode_utf8(Seq::<char>::empty()));
    assert(((v & 0x7F) as u8) as u32 == v) by (bit_vector)
        requires
            v < 0x80,
    ;
    assert(e =~= seq![(v & 0x7F) as u8]);
    assert(e[0] as u32 == v);
    assert(e.drop_first() =~= Seq::<u8>::empty());
    let h = spec_fnv1a(name);
    let step = (h ^ v).wrapping_mul(0x0100_0193u32);
    assert(fnv1a_extend(step, Seq::<u8>::empty()) == step);
    assert(fnv1a_extend(h, e) == fnv1a_extend(step, e.drop_first()));
}

} // verus!
