//! Text of the labels drawn on frames and track headers.
use vstd::prelude::*;
use vstd::string::StrSliceExecFns;
use vstd::string::StringExecFns;
use crate::text::{decimal, push_char, push_decimal};

verus! {

/// A frame label cut down to `max_chars`: the first `max_chars - 1`
/// characters (all of them if there are fewer), followed by `…` when the
/// name has more than `max_chars` characters.
pub open spec fn truncated(text: Seq<char>, max_chars: int) -> Seq<char> {
    let keep: int = if max_chars - 1 < text.len() { if max_chars >= 1 { max_chars - 1 } else { 0 } } else { text.len() as int };
    text.take(keep) + (if text.len() > max_chars { seq!['…'] } else { Seq::empty() })
}

/// Truncate a frame label to at most `max_chars` characters' worth of room.
pub fn truncate_to_chars(text: &str, max_chars: usize) -> (s: String)
    ensures
        s@ == truncated(text@, max_chars as int),
{
    let n: usize = text.unicode_len();
    let wanted: usize = if max_chars >= 1 { max_chars - 1 } else { 0 };
    let keep: usize = if wanted < n { wanted } else { n };
    let mut s = text.substring_char(0, keep).to_owned();
    if n > max_chars {
        push_char(&mut s, '…');
    }
    s
}

/// The dim statistics after a track's name in its header.
pub open spec fn stats_label(frame_count: nat, max_depth: nat) -> Seq<char> {
    " · "@ + decimal(frame_count) + " frames · "@ + decimal(max_depth + 1) + " rows"@
}

/// Header statistics of a track: ` · N frames · R rows`, where `R` is the
/// number of rows (`max_depth + 1`).
pub fn track_stats_label(frame_count: usize, max_depth: usize) -> (s: String)
    requires
        max_depth < usize::MAX,
    ensures
        s@ == stats_label(frame_count as nat, max_depth as nat),
{
    let mut s = String::new();
    s.append(" · ");
    push_decimal(&mut s, frame_count as u64);
    s.append(" frames · ");
    push_decimal(&mut s, (max_depth + 1) as u64);
    s.append(" rows");
    assert(s@ =~= stats_label(frame_count as nat, max_depth as nat));
    s
}

} // verus!
