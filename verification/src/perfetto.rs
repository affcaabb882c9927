//! SQL generation for Perfetto trace processor databases.
//!
//! Maps the Perfetto `slice` table (`ts`, `dur`, `name`, `depth`,
//! `track_id`) onto flame-graph rows, aggregating frames that share a pixel
//! column on the database side.
use vstd::prelude::*;
use vstd::std_specs::iter::IteratorSpec;
use crate::source::TrackInfo;
use vstd::string::StringExecFns;
use crate::text::{push_char, push_signed_decimal, signed_decimal};

verus! {

broadcast use vstd::string::group_string_axioms;

/// `s` with every single quote doubled, as SQL string literals require.
pub open spec fn escape_quotes(s: Seq<char>) -> Seq<char>
    decreases s.len(),
{
    if s.len() == 0 {
        Seq::empty()
    } else {
        escape_quotes(s.drop_last()) + (if s.last() == '\'' { seq!['\'', '\''] } else { seq![s.last()] })
    }
}

/// The `matched` condition: `1` for an empty search, otherwise a
/// case-sensitive `LIKE` match of the escaped query anywhere in `name`.
pub open spec fn search_clause(query: Seq<char>) -> Seq<char> {
    if query.len() == 0 {
        "1"@
    } else {
        "name LIKE '%"@ + escape_quotes(query) + "%'"@
    }
}

/// The level-of-detail query for the window `[start_ns, end_ns]` with
/// buckets of `ns_per_pixel` nanoseconds (at least 1).
pub open spec fn lod_sql(query: Seq<char>, start_ns: int, end_ns: int, ns_per_pixel: int) -> Seq<char> {
    "SELECT \ntrack_id, depth, MIN(ts) AS min_ts, MAX(ts + dur) AS max_ts, name, \nCASE WHEN "@
        + search_clause(query)
        + " THEN 1 ELSE 0 END AS matched \nFROM slice \nWHERE ts + dur >= "@
        + signed_decimal(start_ns)
        + " AND ts <= "@
        + signed_decimal(end_ns)
        + " \nGROUP BY track_id, depth, ((ts - "@
        + signed_decimal(start_ns)
        + ") / "@
        + signed_decimal(if ns_per_pixel > 1 { ns_per_pixel } else { 1 })
        + ") \nORDER BY track_id, depth, min_ts;"@
}

/// Appends `query` to `out` with every single quote doubled.
fn push_escaped(out: &mut String, query: &str)
    ensures
        final(out)@ == old(out)@ + escape_quotes(query@),
{
    let ghost start = out@;
    let mut chars = query.chars();
    let ghost mut k: int = 0;
    loop
        invariant
            0 <= k <= query@.len(),
            chars.remaining() == query@.skip(k),
            out@ == start + escape_quotes(query@.take(k)),
        ensures
            out@ == start + escape_quotes(query@),
        decreases query@.len() - k,
    {
        match chars.next() {
            Some(c) => {
                proof {
                    assert(c == query@[k]);
                    assert(query@.take(k + 1).drop_last() =~= query@.take(k));
                    assert(query@.skip(k).drop_first() =~= query@.skip(k + 1));
                }
                if c == '\'' {
                    push_char(out, '\'');
                    push_char(out, '\'');
                } else {
                    push_char(out, c);
                }
                proof {
                    k = k + 1;
                }
                assert(out@ =~= start + escape_quotes(query@.take(k)));
            },
            None => {
                assert(query@.take(k) =~= query@);
                break;
            },
        }
    }
}

/// SQL query generator for Perfetto trace processor databases.
pub struct PerfettoQueryBuilder;

impl PerfettoQueryBuilder {
    /// The query that retrieves the frames visible in `[start_ns, end_ns]`
    /// (absolute trace timestamps), grouping frames of one track and depth
    /// that fall into the same `ns_per_pixel`-wide bucket (a bucket is at
    /// least 1 ns). A non-empty `search_query` marks frames whose name
    /// contains it; its single quotes are doubled.
    pub fn build_lod_sql_ns(start_ns: i64, end_ns: i64, ns_per_pixel: i64, search_query: &str) -> (sql: String)
        ensures
            sql@ == lod_sql(search_query@, start_ns as int, end_ns as int, ns_per_pixel as int),
    {
        let mut sql = String::new();
        sql.append("SELECT \ntrack_id, depth, MIN(ts) AS min_ts, MAX(ts + dur) AS max_ts, name, \nCASE WHEN ");
        if search_query.is_empty() {
            sql.append("1");
        } else {
            sql.append("name LIKE '%");
            push_escaped(&mut sql, search_query);
            sql.append("%'");
        }
        sql.append(" THEN 1 ELSE 0 END AS matched \nFROM slice \nWHERE ts + dur >= ");
        push_signed_decimal(&mut sql, start_ns);
        sql.append(" AND ts <= ");
        push_signed_decimal(&mut sql, end_ns);
        sql.append(" \nGROUP BY track_id, depth, ((ts - ");
        push_signed_decimal(&mut sql, start_ns);
        sql.append(") / ");
        let bucket: i64 = if ns_per_pixel > 1 { ns_per_pixel } else { 1 };
        push_signed_decimal(&mut sql, bucket);
        sql.append(") \nORDER BY track_id, depth, min_ts;");
        assert(sql@ =~= lod_sql(search_query@, start_ns as int, end_ns as int, ns_per_pixel as int));
        sql
    }
}

proof fn lemma_escape_concat(a: Seq<char>, b: Seq<char>)
    ensures
        escape_quotes(a + b) == escape_quotes(a) + escape_quotes(b),
    decreases b.len(),
{
    if b.len() == 0 {
        assert(a + b =~= a);
        assert(escape_quotes(a) + escape_quotes(b) =~= escape_quotes(a));
    } else {
        lemma_escape_concat(a, b.drop_last());
        assert((a + b).drop_last() =~= a + b.drop_last());
        assert((a + b).last() == b.last());
        assert(escape_quotes(a + b) =~= escape_quotes(a) + escape_quotes(b));
    }
}

/// Law (escaping is per character): escaping a concatenation escapes each
/// part on its own, and a single character is doubled when it is a single
/// quote and kept as it is otherwise; so every quote of the search text is
/// doubled, wherever it stands, and nothing else changes.
pub proof fn law_escape_doubles_every_quote(a: Seq<char>, b: Seq<char>, c: char)
    ensures
        escape_quotes(a + b) == escape_quotes(a) + escape_quotes(b),
        escape_quotes(seq![c]) == (if c == '\'' { seq!['\'', '\''] } else { seq![c] }),
        escape_quotes(Seq::<char>::empty()) == Seq::<char>::empty(),
{
    lemma_escape_concat(a, b);
    let s = seq![c];
    assert(s.drop_last() =~= Seq::<char>::empty());
    assert(s.last() == c);
    assert(escape_quotes(Seq::<char>::empty()) =~= Seq::<char>::empty());
    assert(escape_quotes(s) =~= (if c == '\'' { seq!['\'', '\''] } else { seq![c] }));
}

/// Law (known depths are reported as given): for a track inside the depth
/// list the reported depth is exactly the stored one; 1 is reported only for
/// tracks past the end of the list.
pub proof fn law_reported_depth_is_stored_depth(depths: Seq<usize>, index: int)
    ensures
        0 <= index < depths.len() ==> reported_depth(depths, index) == depths[index],
        !(0 <= index < depths.len()) ==> reported_depth(depths, index) == 1,
{
}

/// Track metadata of a Perfetto trace: one name per track, with each
/// track's nesting depth when known, and the trace's first timestamp.
pub struct PerfettoDataSource {
    track_names: Vec<String>,
    track_max_depths: Vec<usize>,
    min_ts_ns: i64,
}

/// Nesting depth reported for track `index`: the known depth, or 1 when the
/// depth list is shorter than the track list.
pub open spec fn reported_depth(depths: Seq<usize>, index: int) -> usize {
    if 0 <= index < depths.len() { depths[index] } else { 1 }
}

impl PerfettoDataSource {
    /// Track names, in order.
    pub closed spec fn spec_track_names(&self) -> Seq<Seq<char>> {
        self.track_names@.map_values(|n: String| n@)
    }

    /// Known nesting depths, in track order.
    pub closed spec fn spec_track_max_depths(&self) -> Seq<usize> {
        self.track_max_depths@
    }

    /// First timestamp of the trace, nanoseconds.
    pub closed spec fn spec_min_ts_ns(&self) -> i64 {
        self.min_ts_ns
    }

    /// Create a Perfetto data source handle.
    pub fn new(track_names: Vec<String>, track_max_depths: Vec<usize>, min_ts_ns: i64) -> (s: Self)
        ensures
            s.spec_track_names() == track_names@.map_values(|n: String| n@),
            s.spec_track_max_depths() == track_max_depths@,
            s.spec_min_ts_ns() == min_ts_ns,
    {
        PerfettoDataSource { track_names, track_max_depths, min_ts_ns }
    }

    /// First timestamp of the trace, nanoseconds.
    pub fn min_ts_ns(&self) -> (t: i64)
        ensures
            t == self.spec_min_ts_ns(),
    {
        self.min_ts_ns
    }

    /// Number of tracks.
    pub fn track_count(&self) -> (n: usize)
        ensures
            n == self.spec_track_names().len(),
    {
        self.track_names.len()
    }

    /// Metadata for track `index`: its name (empty when there is no such
    /// track) and its reported depth.
    pub fn track_info(&self, index: usize) -> (info: TrackInfo)
        ensures
            info.name@ == (if index < self.spec_track_names().len() {
                self.spec_track_names()[index as int]
            } else {
                Seq::<char>::empty()
            }),
            info.max_depth == reported_depth(self.spec_track_max_depths(), index as int),
    {
        let name = if index < self.track_names.len() {
            self.track_names[index].clone()
        } else {
            String::new()
        };
        let max_depth: usize = if index < self.track_max_depths.len() {
            self.track_max_depths[index]
        } else {
            1
        };
        TrackInfo { name, max_depth }
    }

    /// Metadata of every track, in order: the track list of a query result.
    pub fn track_infos(&self) -> (infos: Vec<TrackInfo>)
        ensures
            infos@.len() == self.spec_track_names().len(),
            forall|i: int| 0 <= i < infos@.len() ==> {
                &&& (#[trigger] infos@[i]).name@ == self.spec_track_names()[i]
                &&& infos@[i].max_depth == reported_depth(self.spec_track_max_depths(), i)
            },
    {
        let mut infos: Vec<TrackInfo> = Vec::new();
        let mut i: usize = 0;
        while i < self.track_names.len()
            invariant
                i <= self.track_names@.len(),
                infos@.len() == i,
                forall|k: int| 0 <= k < i ==> {
                    &&& (#[trigger] infos@[k]).name@ == self.spec_track_names()[k]
                    &&& infos@[k].max_depth == reported_depth(self.spec_track_max_depths(), k)
                },
            decreases self.track_names@.len() - i,
        {
            let info = self.track_info(i);
            infos.push(info);
            i = i + 1;
        }
        infos
    }
}

} // verus!
