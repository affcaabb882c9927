//! Data model, flattening and label logic for multi-track flame graphs.
//!
//! The library holds the integer and text side of a flame chart: the frame
//! tree and its flattened per-track layout (times in nanoseconds), the
//! deterministic per-name color key, the time-unit ladder used by labels,
//! search matching, track collapse and selection bookkeeping, label text and
//! the SQL text sent to a Perfetto trace processor.
pub mod data;
pub mod format;
pub mod labels;
pub mod perfetto;
pub mod source;
pub mod state;
pub mod text;

pub use data::{
    FlameFrame, FlatFrame, FlatSession, FrameColor, Session, Track, TrackLayout, color_for, flatten, fnv1a,
    session_within_limits,
};
pub use format::{TimeFormatConfig, TimeUnit, decimals_for_unit, default_time_format};
pub use labels::{track_stats_label, truncate_to_chars};
pub use perfetto::{PerfettoDataSource, PerfettoQueryBuilder};
pub use source::{MemoryDataSource, TrackInfo};
pub use state::{FrameId, SearchFilter, apply_click, toggle_collapse, track_collapsed, visible_row_count};
