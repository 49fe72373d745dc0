use vstd::prelude::*;

use crate::text::{decimal, push_decimal, push_str};

verus! {

/// Number of TPC-H queries; also the most rows a results table shows.
pub const TPCH_QUERY_COUNT: usize = 22;

/// Storage format a benchmark run reads its tables from.
#[derive(Clone, Copy, Debug, PartialEq, Eq, Structural, Hash)]
pub enum Format {
    Arrow,
    Parquet,
    OnDiskVortex { enable_compression: bool },
}

impl Format {
    /// The name used for this format in benchmark identifiers.
    pub open spec fn name_text(self) -> Seq<char> {
        match self {
            Format::Arrow => "arrow"@,
            Format::Parquet => "parquet"@,
            Format::OnDiskVortex { enable_compression } => if enable_compression {
                "on_disk_vortex-compressed"@
            } else {
                "on_disk_vortex-uncompressed"@
            },
        }
    }

    /// Appends the format's name to `s`.
    pub fn push_name(&self, s: &mut String)
        ensures
            final(s)@ == old(s)@ + self.name_text(),
    {
        match self {
            Format::Arrow => push_str(s, "arrow"),
            Format::Parquet => push_str(s, "parquet"),
            Format::OnDiskVortex { enable_compression } => if *enable_compression {
                push_str(s, "on_disk_vortex-compressed")
            } else {
                push_str(s, "on_disk_vortex-uncompressed")
            },
        }
    }

    /// The name used for this format in benchmark identifiers.
    pub fn name(&self) -> (res: String)
        ensures
            res@ == self.name_text(),
    {
        let mut s = String::new();
        self.push_name(&mut s);
        assert(Seq::<char>::empty() + self.name_text() == self.name_text());
        s
    }
}

/// The fastest of the timed runs of one query against one format.
#[derive(Clone, Copy, Debug)]
pub struct Measurement {
    pub query_idx: usize,
    /// Duration of the run in nanoseconds.
    pub time_ns: u128,
    pub format: Format,
}

/// One benchmark result in the shape a results dashboard reads.
pub struct JsonValue {
    pub name: String,
    pub unit: String,
    pub value: u128,
}

/// The identifier under which a measurement is reported: `tpch_q<query>/<format>`.
pub open spec fn measurement_name(query_idx: nat, format: Format) -> Seq<char> {
    "tpch_q"@ + decimal(query_idx) + "/"@ + format.name_text()
}

impl Measurement {
    pub fn to_json(&self) -> (res: JsonValue)
        ensures
            res.name@ == measurement_name(self.query_idx as nat, self.format),
            res.unit@ == "ns"@,
            res.value == self.time_ns,
    {
        let mut name = String::new();
        push_str(&mut name, "tpch_q");
        push_decimal(&mut name, self.query_idx as u128);
        push_str(&mut name, "/");
        self.format.push_name(&mut name);
        let mut unit = String::new();
        push_str(&mut unit, "ns");
        assert(Seq::<char>::empty() + "ns"@ == "ns"@);
        assert(Seq::<char>::empty() + "tpch_q"@ + decimal(self.query_idx as nat) + "/"@
            + self.format.name_text() == measurement_name(self.query_idx as nat, self.format));
        JsonValue { name, unit, value: self.time_ns }
    }
}

/// Highlight of a results cell, comparing a run with the baseline run of the same query.
#[derive(Clone, Copy, Debug, PartialEq, Eq, Structural)]
pub enum CellColor {
    /// More than 50% slower than the baseline.
    Red,
    /// More than 10% slower than the baseline.
    Yellow,
    /// At most 10% slower than the baseline, or faster.
    Green,
}

pub open spec fn color_for(baseline_time: int, test_time: int) -> CellColor {
    if test_time > baseline_time + baseline_time / 2 {
        CellColor::Red
    } else if test_time > baseline_time + baseline_time / 10 {
        CellColor::Yellow
    } else {
        CellColor::Green
    }
}

/// A cell is red exactly when it is more than 50% slower than the baseline, yellow exactly when
/// it is more than 10% but at most 50% slower, and green otherwise.
pub proof fn lemma_color_thresholds(baseline_time: int, test_time: int)
    requires
        baseline_time >= 0,
    ensures
        (color_for(baseline_time, test_time) == CellColor::Red) == (test_time > baseline_time
            + baseline_time / 2),
        (color_for(baseline_time, test_time) == CellColor::Yellow) == (baseline_time + baseline_time
            / 10 < test_time <= baseline_time + baseline_time / 2),
        (color_for(baseline_time, test_time) == CellColor::Green) == (test_time <= baseline_time
            + baseline_time / 10),
{
}

/// The thresholds scale with the baseline: a run exactly 50% slower is yellow, whatever the
/// baseline.
pub proof fn lemma_color_scales_with_baseline(k: int)
    requires
        k >= 1,
    ensures
        color_for(k * 100, k * 150) == CellColor::Yellow,
{
    assert((k * 100) / 2 == k * 50) by (nonlinear_arith);
    assert((k * 100) / 10 == k * 10) by (nonlinear_arith);
    lemma_color_thresholds(k * 100, k * 150);
}

/// Chooses the highlight of a cell from the baseline time and the cell's time.
pub fn color(baseline_time: u128, test_time: u128) -> (res: CellColor)
    requires
        baseline_time + baseline_time / 2 <= u128::MAX,
    ensures
        res == color_for(baseline_time as int, test_time as int),
        (res == CellColor::Red) == (test_time > baseline_time + baseline_time / 2),
        (res == CellColor::Yellow) == (baseline_time + baseline_time / 10 < test_time
            <= baseline_time + baseline_time / 2),
        (res == CellColor::Green) == (test_time <= baseline_time + baseline_time / 10),
{
    proof {
        lemma_color_thresholds(baseline_time as int, test_time as int);
    }
    if test_time > (baseline_time + baseline_time / 2) {
        CellColor::Red
    } else if test_time > (baseline_time + baseline_time / 10) {
        CellColor::Yellow
    } else {
        CellColor::Green
    }
}


/// The measurements of `format`, in arrival order.
pub open spec fn measurements_of(ms: Seq<Measurement>, format: Format) -> Seq<Measurement>
    decreases ms.len(),
{
    if ms.len() == 0 {
        Seq::empty()
    } else {
        let rest = measurements_of(ms.drop_last(), format);
        if ms.last().format == format {
            rest.push(ms.last())
        } else {
            rest
        }
    }
}

/// `m` placed after every element of `s` whose query index is at most its own
/// (immediately behind the trailing run of elements with a larger index).
pub open spec fn insert_by_query(s: Seq<Measurement>, m: Measurement) -> Seq<Measurement>
    decreases s.len(),
{
    if s.len() == 0 {
        seq![m]
    } else if s.last().query_idx <= m.query_idx {
        s.push(m)
    } else {
        insert_by_query(s.drop_last(), m).push(s.last())
    }
}

/// `s` stably sorted by query index: equal indices keep their relative order.
pub open spec fn sort_by_query(s: Seq<Measurement>) -> Seq<Measurement>
    decreases s.len(),
{
    if s.len() == 0 {
        s
    } else {
        insert_by_query(sort_by_query(s.drop_last()), s.last())
    }
}

/// The measurements of `format`, stably sorted by query index.
pub open spec fn sorted_group(ms: Seq<Measurement>, format: Format) -> Seq<Measurement> {
    sort_by_query(measurements_of(ms, format))
}

/// Number of rows of the results table: one per baseline measurement, at most one per query.
pub open spec fn table_row_count(ms: Seq<Measurement>, formats: Seq<Format>) -> int {
    let n: int = measurements_of(ms, formats[0]).len() as int;
    if n < TPCH_QUERY_COUNT {
        n
    } else {
        TPCH_QUERY_COUNT as int
    }
}

/// The results table can be built: there is a baseline format with at least one measurement,
/// and every format has a measurement for every row.
pub open spec fn table_complete(ms: Seq<Measurement>, formats: Seq<Format>) -> bool {
    &&& formats.len() > 0
    &&& measurements_of(ms, formats[0]).len() > 0
    &&& forall|c: int|
        0 <= c < formats.len() ==> #[trigger] measurements_of(ms, formats[c]).len()
            >= table_row_count(ms, formats)
}

/// One cell of the results table: a time in microseconds and, unless the column is the
/// baseline format, its highlight against the baseline.
#[derive(Clone, Copy, Debug, PartialEq, Eq, Structural)]
pub struct TableCell {
    pub time_us: u128,
    pub color: Option<CellColor>,
}

/// The cell in row `q`, column `c` of the results table.
pub open spec fn table_cell(ms: Seq<Measurement>, formats: Seq<Format>, q: int, c: int) -> TableCell {
    let time_us: u128 = (sorted_group(ms, formats[c])[q].time_ns / 1000) as u128;
    let baseline_us: u128 = (sorted_group(ms, formats[0])[q].time_ns / 1000) as u128;
    TableCell {
        time_us,
        color: if formats[c] == formats[0] {
            None
        } else {
            Some(color_for(baseline_us as int, time_us as int))
        },
    }
}

proof fn lemma_insert_by_query_len(s: Seq<Measurement>, m: Measurement)
    ensures
        insert_by_query(s, m).len() == s.len() + 1,
    decreases s.len(),
{
    if s.len() > 0 && s.last().query_idx > m.query_idx {
        lemma_insert_by_query_len(s.drop_last(), m);
    }
}

proof fn lemma_sort_by_query_len(s: Seq<Measurement>)
    ensures
        sort_by_query(s).len() == s.len(),
    decreases s.len(),
{
    if s.len() > 0 {
        lemma_sort_by_query_len(s.drop_last());
        lemma_insert_by_query_len(sort_by_query(s.drop_last()), s.last());
    }
}

/// Inserting at the position found by scanning back over larger query indices is
/// `insert_by_query`.
proof fn lemma_insert_by_query_at(s: Seq<Measurement>, m: Measurement, p: int)
    requires
        0 <= p <= s.len(),
        forall|j: int| p <= j < s.len() ==> #[trigger] s[j].query_idx > m.query_idx,
        p > 0 ==> s[p - 1].query_idx <= m.query_idx,
    ensures
        insert_by_query(s, m) == s.insert(p, m),
    decreases s.len(),
{
    if s.len() == 0 {
        assert(s.insert(p, m) =~= seq![m]);
    } else if s.last().query_idx <= m.query_idx {
        assert(p == s.len());
        assert(s.insert(p, m) =~= s.push(m));
    } else {
        assert(p < s.len());
        let t = s.drop_last();
        lemma_insert_by_query_at(t, m, p);
        assert(s.insert(p, m) =~= t.insert(p, m).push(s.last()));
    }
}

/// The measurements of `format` among `ms`, in arrival order.
pub fn measurements_for(ms: &Vec<Measurement>, format: Format) -> (res: Vec<Measurement>)
    ensures
        res@ == measurements_of(ms@, format),
{
    let mut res: Vec<Measurement> = Vec::new();
    let mut i: usize = 0;
    while i < ms.len()
        invariant
            i <= ms.len(),
            res@ == measurements_of(ms@.take(i as int), format),
        decreases ms.len() - i,
    {
        assert(ms@.take(i + 1).drop_last() =~= ms@.take(i as int));
        if ms[i].format == format {
            res.push(ms[i]);
        }
        i = i + 1;
    }
    assert(ms@.take(ms.len() as int) =~= ms@);
    res
}

/// Stably sorts measurements by query index.
pub fn sort_measurements(ms: &Vec<Measurement>) -> (res: Vec<Measurement>)
    ensures
        res@ == sort_by_query(ms@),
{
    let mut res: Vec<Measurement> = Vec::new();
    let mut i: usize = 0;
    while i < ms.len()
        invariant
            i <= ms.len(),
            res@ == sort_by_query(ms@.take(i as int)),
        decreases ms.len() - i,
    {
        let m = ms[i];
        let mut p: usize = res.len();
        while p > 0 && res[p - 1].query_idx > m.query_idx
            invariant
                p <= res.len(),
                forall|j: int| p <= j < res.len() ==> #[trigger] res@[j].query_idx > m.query_idx,
            decreases p,
        {
            p = p - 1;
        }
        proof {
            lemma_insert_by_query_at(res@, m, p as int);
            assert(ms@.take(i + 1).drop_last() =~= ms@.take(i as int));
        }
        res.insert(p, m);
        i = i + 1;
    }
    assert(ms@.take(ms.len() as int) =~= ms@);
    res
}

/// Whether the results table for `formats` can be built from `ms`.
pub fn table_is_complete(ms: &Vec<Measurement>, formats: &Vec<Format>) -> (ok: bool)
    ensures
        ok == table_complete(ms@, formats@),
{
    if formats.len() == 0 {
        return false;
    }
    let baseline_len: usize = measurements_for(ms, formats[0]).len();
    if baseline_len == 0 {
        return false;
    }
    let rows: usize = if baseline_len < TPCH_QUERY_COUNT {
        baseline_len
    } else {
        TPCH_QUERY_COUNT
    };
    let mut c: usize = 0;
    while c < formats.len()
        invariant
            c <= formats.len(),
            formats.len() > 0,
            rows == table_row_count(ms@, formats@),
            forall|k: int|
                0 <= k < c ==> #[trigger] measurements_of(ms@, formats@[k]).len() >= rows,
        decreases formats.len() - c,
    {
        if measurements_for(ms, formats[c]).len() < rows {
            return false;
        }
        c = c + 1;
    }
    true
}

/// Builds the results table: the measurements of each format are sorted by query index, the
/// first format is the baseline, and row `q` holds the `q`-th measurement of every format,
/// highlighted against the baseline's.
pub fn table_rows(ms: &Vec<Measurement>, formats: &Vec<Format>) -> (rows: Vec<Vec<TableCell>>)
    requires
        table_complete(ms@, formats@),
    ensures
        rows.len() == table_row_count(ms@, formats@),
        forall|q: int| 0 <= q < rows.len() ==> #[trigger] rows@[q].len() == formats.len(),
        forall|q: int, c: int|
            0 <= q < rows.len() && 0 <= c < formats.len() ==> #[trigger] rows@[q]@[c]
                == table_cell(ms@, formats@, q, c),
        forall|q: int, c: int|
            0 <= q < rows.len() && 0 <= c < formats.len() ==> #[trigger] rows@[q]@[c].color == if formats@[c]
                == formats@[0] {
                None
            } else {
                Some(color_for(rows@[q]@[0].time_us as int, rows@[q]@[c].time_us as int))
            },
        forall|q: int, c: int|
            0 <= q < rows.len() && 0 <= c < formats.len() ==> #[trigger] rows@[q]@[c].time_us == (
            sorted_group(ms@, formats@[c])[q].time_ns / 1000) as u128,
{
    let mut groups: Vec<Vec<Measurement>> = Vec::new();
    let mut c: usize = 0;
    while c < formats.len()
        invariant
            c <= formats.len(),
            groups.len() == c,
            forall|k: int| 0 <= k < c ==> #[trigger] groups@[k]@ == sorted_group(ms@, formats@[k]),
        decreases formats.len() - c,
    {
        let group = sort_measurements(&measurements_for(ms, formats[c]));
        groups.push(group);
        c = c + 1;
    }
    proof {
        assert forall|k: int| 0 <= k < formats.len() implies #[trigger] groups@[k]@.len()
            >= table_row_count(ms@, formats@) by {
            lemma_sort_by_query_len(measurements_of(ms@, formats@[k]));
        }
    }
    let baseline_len: usize = groups[0].len();
    let n_rows: usize = if baseline_len < TPCH_QUERY_COUNT {
        baseline_len
    } else {
        TPCH_QUERY_COUNT
    };
    assert(n_rows == table_row_count(ms@, formats@)) by {
        lemma_sort_by_query_len(measurements_of(ms@, formats@[0]));
    }
    let mut rows: Vec<Vec<TableCell>> = Vec::new();
    let mut q: usize = 0;
    while q < n_rows
        invariant
            q <= n_rows,
            n_rows == table_row_count(ms@, formats@),
            formats.len() > 0,
            groups.len() == formats.len(),
            forall|k: int| 0 <= k < formats.len() ==> #[trigger] groups@[k]@ == sorted_group(ms@, formats@[k]),
            forall|k: int| 0 <= k < formats.len() ==> #[trigger] groups@[k]@.len() >= n_rows,
            rows.len() == q,
            forall|r: int| 0 <= r < q ==> #[trigger] rows@[r].len() == formats.len(),
            forall|r: int, k: int|
                0 <= r < q && 0 <= k < formats.len() ==> #[trigger] rows@[r]@[k]
                    == table_cell(ms@, formats@, r, k),
        decreases n_rows - q,
    {
        assert(groups@[0]@.len() >= n_rows);
        let baseline_us: u128 = groups[0][q].time_ns / 1000;
        let mut row: Vec<TableCell> = Vec::new();
        let mut c: usize = 0;
        while c < formats.len()
            invariant
                c <= formats.len(),
                q < n_rows,
                formats.len() > 0,
                groups.len() == formats.len(),
                forall|k: int| 0 <= k < formats.len() ==> #[trigger] groups@[k]@ == sorted_group(ms@, formats@[k]),
                forall|k: int| 0 <= k < formats.len() ==> #[trigger] groups@[k]@.len() >= n_rows,
                baseline_us == (sorted_group(ms@, formats@[0])[q as int].time_ns / 1000) as u128,
                row.len() == c,
                forall|k: int| 0 <= k < c ==> #[trigger] row@[k] == table_cell(ms@, formats@, q as int, k),
            decreases formats.len() - c,
        {
            assert(groups@[c as int]@.len() >= n_rows);
            let time_us: u128 = groups[c][q].time_ns / 1000;
            let cell_color = if formats[c] == formats[0] {
                None
            } else {
                Some(color(baseline_us, time_us))
            };
            row.push(TableCell { time_us, color: cell_color });
            c = c + 1;
        }
        rows.push(row);
        q = q + 1;
    }
    proof {
        assert forall|q: int, c: int| 0 <= q < rows.len() && 0 <= c < formats.len() implies #[trigger] rows@[q]@[c].color
            == if formats@[c] == formats@[0] {
            None
        } else {
            Some(color_for(rows@[q]@[0].time_us as int, rows@[q]@[c].time_us as int))
        } by {
            lemma_baseline_column_uncolored(ms@, formats@, q, c);
            assert(rows@[q]@[0] == table_cell(ms@, formats@, q, 0));
        }
        assert forall|q: int, c: int| 0 <= q < rows.len() && 0 <= c < formats.len() implies #[trigger] rows@[q]@[c].time_us
            == (sorted_group(ms@, formats@[c])[q].time_ns / 1000) as u128 by {
            lemma_baseline_column_uncolored(ms@, formats@, q, c);
        }
    }
    rows
}

/// Each format's measurements come out sorted by query index.
pub proof fn lemma_sort_by_query_sorted(s: Seq<Measurement>)
    ensures
        forall|i: int, j: int|
            0 <= i <= j < sort_by_query(s).len() ==> #[trigger] sort_by_query(s)[i].query_idx
                <= #[trigger] sort_by_query(s)[j].query_idx,
    decreases s.len(),
{
    if s.len() > 0 {
        lemma_sort_by_query_sorted(s.drop_last());
        lemma_insert_sorted(sort_by_query(s.drop_last()), s.last());
    }
}

proof fn lemma_insert_sorted(s: Seq<Measurement>, m: Measurement)
    requires
        forall|i: int, j: int|
            0 <= i <= j < s.len() ==> #[trigger] s[i].query_idx <= #[trigger] s[j].query_idx,
    ensures
        forall|i: int, j: int|
            0 <= i <= j < insert_by_query(s, m).len() ==> #[trigger] insert_by_query(s, m)[i].query_idx
                <= #[trigger] insert_by_query(s, m)[j].query_idx,
        insert_by_query(s, m).len() == s.len() + 1,
        forall|i: int|
            0 <= i < insert_by_query(s, m).len() ==> (#[trigger] insert_by_query(s, m)[i] == m
                || s.contains(insert_by_query(s, m)[i])),
    decreases s.len(),
{
    lemma_insert_by_query_len(s, m);
    if s.len() > 0 && s.last().query_idx > m.query_idx {
        let t = s.drop_last();
        lemma_insert_sorted(t, m);
        let r = insert_by_query(t, m);
        assert forall|i: int| 0 <= i < r.len() implies #[trigger] r[i].query_idx <= s.last().query_idx by {
            if r[i] != m {
                let k: int = choose|k: int| 0 <= k < t.len() && t[k] == r[i];
                assert(s[k] == t[k]);
            }
        }
        assert forall|i: int| 0 <= i < r.len() implies (#[trigger] r[i] == m || s.contains(r[i])) by {
            if r[i] != m {
                let k: int = choose|k: int| 0 <= k < t.len() && t[k] == r[i];
                assert(s[k] == r[i]);
            }
        }
    }
}

/// Sorting neither adds nor drops measurements.
pub proof fn lemma_sort_by_query_permutes(s: Seq<Measurement>)
    ensures
        sort_by_query(s).to_multiset() == s.to_multiset(),
    decreases s.len(),
{
    if s.len() > 0 {
        let t = s.drop_last();
        lemma_sort_by_query_permutes(t);
        lemma_insert_by_query_permutes(sort_by_query(t), s.last());
        vstd::seq_lib::to_multiset_build(t, s.last());
        assert(t.push(s.last()) =~= s);
    }
}

proof fn lemma_insert_by_query_permutes(s: Seq<Measurement>, m: Measurement)
    ensures
        insert_by_query(s, m).to_multiset() == s.to_multiset().insert(m),
    decreases s.len(),
{
    if s.len() == 0 {
        vstd::seq_lib::to_multiset_build(s, m);
        assert(s.push(m) =~= seq![m]);
    } else if s.last().query_idx <= m.query_idx {
        vstd::seq_lib::to_multiset_build(s, m);
    } else {
        let t = s.drop_last();
        lemma_insert_by_query_permutes(t, m);
        vstd::seq_lib::to_multiset_build(insert_by_query(t, m), s.last());
        vstd::seq_lib::to_multiset_build(t, s.last());
        assert(t.push(s.last()) =~= s);
        broadcast use vstd::multiset::group_multiset_axioms;
        assert(s.to_multiset().insert(m) =~= t.to_multiset().insert(m).insert(s.last()));
    }
}


/// The formats a benchmark run compares, the first being the baseline.
pub fn bench_formats(only_vortex: bool) -> (res: Vec<Format>)
    ensures
        res@ == if only_vortex {
            seq![Format::Arrow, Format::OnDiskVortex { enable_compression: true }]
        } else {
            seq![
                Format::Arrow,
                Format::Parquet,
                Format::OnDiskVortex { enable_compression: true },
            ]
        },
{
    let mut res: Vec<Format> = Vec::new();
    res.push(Format::Arrow);
    if !only_vortex {
        res.push(Format::Parquet);
    }
    res.push(Format::OnDiskVortex { enable_compression: true });
    assert(res@ =~= if only_vortex {
        seq![Format::Arrow, Format::OnDiskVortex { enable_compression: true }]
    } else {
        seq![Format::Arrow, Format::Parquet, Format::OnDiskVortex { enable_compression: true }]
    });
    res
}

/// Number of queries a run covers: the listed ones, or all of them.
pub fn query_count(queries: &Option<Vec<usize>>) -> (res: usize)
    ensures
        res == match queries {
            Some(q) => q.len(),
            None => TPCH_QUERY_COUNT,
        },
{
    match queries {
        Some(q) => q.len(),
        None => TPCH_QUERY_COUNT,
    }
}

/// Whether `list` holds `x`.
fn list_contains(list: &Vec<usize>, x: usize) -> (res: bool)
    ensures
        res == list@.contains(x),
{
    let mut i: usize = 0;
    while i < list.len()
        invariant
            i <= list.len(),
            forall|j: int| 0 <= j < i ==> list@[j] != x,
        decreases list.len() - i,
    {
        if list[i] == x {
            assert(list@[i as int] == x);
            return true;
        }
        i = i + 1;
    }
    false
}

/// A query runs unless an include list is given that lacks it, or an exclude list holds it.
pub open spec fn query_runs(
    query_idx: usize,
    queries: Option<Seq<usize>>,
    exclude_queries: Option<Seq<usize>>,
) -> bool {
    &&& !(queries matches Some(q) && !q.contains(query_idx))
    &&& !(exclude_queries matches Some(e) && e.contains(query_idx))
}

pub open spec fn opt_view(list: &Option<Vec<usize>>) -> Option<Seq<usize>> {
    match list {
        Some(v) => Some(v@),
        None => None,
    }
}

/// A query runs exactly when it is in the include list (if one is given) and not in the exclude
/// list (if one is given).
pub proof fn lemma_query_runs(
    query_idx: usize,
    queries: Option<Seq<usize>>,
    exclude_queries: Option<Seq<usize>>,
)
    ensures
        query_runs(query_idx, queries, exclude_queries) == ((queries matches Some(l) ==> l.contains(
            query_idx,
        )) && (exclude_queries matches Some(e) ==> !e.contains(query_idx))),
{
}

/// Whether the query `query_idx` is part of a run.
pub fn query_selected(
    query_idx: usize,
    queries: &Option<Vec<usize>>,
    exclude_queries: &Option<Vec<usize>>,
) -> (res: bool)
    ensures
        res == query_runs(query_idx, opt_view(queries), opt_view(exclude_queries)),
        res == ((match queries {
            Some(l) => l@.contains(query_idx),
            None => true,
        }) && (match exclude_queries {
            Some(e) => !e@.contains(query_idx),
            None => true,
        })),
{
    if let Some(included) = queries {
        if !list_contains(included, query_idx) {
            return false;
        }
    }
    if let Some(excluded) = exclude_queries {
        if list_contains(excluded, query_idx) {
            return false;
        }
    }
    true
}

/// The shortest of the timed runs (in nanoseconds).
pub fn fastest(measures: &Vec<u128>) -> (res: u128)
    requires
        measures.len() > 0,
    ensures
        measures@.contains(res),
        forall|i: int| 0 <= i < measures.len() ==> res <= #[trigger] measures@[i],
{
    let mut best: u128 = measures[0];
    let mut i: usize = 1;
    assert(measures@[0] == best);
    while i < measures.len()
        invariant
            1 <= i <= measures.len(),
            measures@.contains(best),
            forall|j: int| 0 <= j < i ==> best <= #[trigger] measures@[j],
        decreases measures.len() - i,
    {
        if measures[i] < best {
            best = measures[i];
            assert(measures@[i as int] == best);
        }
        i = i + 1;
    }
    best
}

/// Whether a query's row count takes part in the check: when an include list is given only
/// the positions it names do.
pub open spec fn row_checked(idx: int, queries: Option<Seq<usize>>) -> bool {
    match queries {
        Some(q) => q.contains(idx as usize),
        None => true,
    }
}

/// The `(position, row count, expected row count)` triples among the first `n` positions whose
/// counts differ from the expected ones, in position order.
pub open spec fn mismatches_upto(
    row_counts: Seq<usize>,
    expected: Seq<usize>,
    queries: Option<Seq<usize>>,
    n: int,
) -> Seq<(usize, usize, usize)>
    decreases n,
{
    if n <= 0 {
        Seq::empty()
    } else {
        let rest = mismatches_upto(row_counts, expected, queries, n - 1);
        let i: int = n - 1;
        if row_checked(i, queries) && row_counts[i] != expected[i] {
            rest.push((i as usize, row_counts[i], expected[i]))
        } else {
            rest
        }
    }
}

/// Lists the positions whose row counts differ from the expected ones.
pub fn row_count_mismatches(
    row_counts: &Vec<usize>,
    expected: &Vec<usize>,
    queries: &Option<Vec<usize>>,
) -> (res: Vec<(usize, usize, usize)>)
    requires
        row_counts.len() == expected.len(),
    ensures
        res@ == mismatches_upto(row_counts@, expected@, opt_view(queries), row_counts.len() as int),
        forall|i: int|
            0 <= i < row_counts.len() ==> (((match queries {
                Some(l) => l@.contains(i as usize),
                None => true,
            }) && row_counts@[i] != expected@[i]) <==> res@.contains(
                (i as usize, row_counts@[i], expected@[i]),
            )),
        forall|k: int|
            0 <= k < res.len() ==> {
                let (i, got, want) = #[trigger] res@[k];
                &&& i < row_counts.len()
                &&& got == row_counts@[i as int]
                &&& want == expected@[i as int]
                &&& got != want
                &&& match queries {
                    Some(l) => l@.contains(i),
                    None => true,
                }
            },
        forall|k: int, l: int| 0 <= k < l < res.len() ==> #[trigger] res@[k].0 < #[trigger] res@[l].0,
{
    let mut res: Vec<(usize, usize, usize)> = Vec::new();
    let mut i: usize = 0;
    while i < row_counts.len()
        invariant
            i <= row_counts.len(),
            row_counts.len() == expected.len(),
            res@ == mismatches_upto(row_counts@, expected@, opt_view(queries), i as int),
        decreases row_counts.len() - i,
    {
        let checked = match queries {
            Some(q) => list_contains(q, i),
            None => true,
        };
        if checked && row_counts[i] != expected[i] {
            res.push((i, row_counts[i], expected[i]));
        }
        i = i + 1;
    }
    proof {
        lemma_mismatches_exact(row_counts@, expected@, opt_view(queries), row_counts.len() as int);
    }
    res
}

/// The mismatch report lists, in position order, exactly the checked positions (all of them, or
/// those an include list names) whose row count differs from the expected one, each with both
/// counts; a count too high is reported as well as one too low.
pub proof fn lemma_mismatches_exact(
    row_counts: Seq<usize>,
    expected: Seq<usize>,
    queries: Option<Seq<usize>>,
    n: int,
)
    requires
        0 <= n <= row_counts.len(),
        row_counts.len() == expected.len(),
        row_counts.len() <= usize::MAX,
    ensures
        forall|i: int|
            0 <= i < n ==> (((queries matches Some(l) ==> l.contains(i as usize)) && row_counts[i]
                != expected[i]) <==> mismatches_upto(row_counts, expected, queries, n).contains(
                (i as usize, row_counts[i], expected[i]),
            )),
        forall|k: int|
            0 <= k < mismatches_upto(row_counts, expected, queries, n).len() ==> {
                let (i, got, want) = #[trigger] mismatches_upto(row_counts, expected, queries, n)[k];
                &&& i < n
                &&& got == row_counts[i as int]
                &&& want == expected[i as int]
                &&& got != want
                &&& queries matches Some(l) ==> l.contains(i)
            },
        forall|k: int, l: int|
            0 <= k < l < mismatches_upto(row_counts, expected, queries, n).len() ==> #[trigger] mismatches_upto(
                row_counts,
                expected,
                queries,
                n,
            )[k].0 < #[trigger] mismatches_upto(row_counts, expected, queries, n)[l].0,
    decreases n,
{
    if n > 0 {
        lemma_mismatches_exact(row_counts, expected, queries, n - 1);
        let rest = mismatches_upto(row_counts, expected, queries, n - 1);
        let cur = mismatches_upto(row_counts, expected, queries, n);
        let j = n - 1;
        assert forall|i: int| 0 <= i < n implies (((queries matches Some(l) ==> l.contains(i as usize))
            && row_counts[i] != expected[i]) <==> cur.contains((i as usize, row_counts[i], expected[i]))) by {
            if i < j {
                if cur.contains((i as usize, row_counts[i], expected[i])) {
                    let k = choose|k: int| 0 <= k < cur.len() && cur[k] == (i as usize, row_counts[i], expected[i]);
                    if k < rest.len() {
                        assert(rest[k] == cur[k]);
                    }
                }
                if rest.contains((i as usize, row_counts[i], expected[i])) {
                    let k = choose|k: int| 0 <= k < rest.len() && rest[k] == (i as usize, row_counts[i], expected[i]);
                    assert(cur[k] == rest[k]);
                }
            } else {
                if rest.contains((i as usize, row_counts[i], expected[i])) {
                    let k = choose|k: int| 0 <= k < rest.len() && rest[k] == (i as usize, row_counts[i], expected[i]);
                    let (a, b, c) = rest[k];
                }
                if cur.contains((i as usize, row_counts[i], expected[i])) {
                    let k = choose|k: int| 0 <= k < cur.len() && cur[k] == (i as usize, row_counts[i], expected[i]);
                    if k < rest.len() {
                        assert(rest[k] == cur[k]);
                        let (a, b, c) = rest[k];
                    }
                }
                if row_checked(j, queries) && row_counts[j] != expected[j] {
                    assert(cur[cur.len() - 1] == (j as usize, row_counts[j], expected[j]));
                }
            }
        }
    }
}


/// The counts recorded for `format`, if any (the latest entry for it wins).
pub open spec fn counts_for(entries: Seq<(Format, Seq<usize>)>, format: Format) -> Option<Seq<usize>>
    decreases entries.len(),
{
    if entries.len() == 0 {
        None
    } else if entries.last().0 == format {
        Some(entries.last().1)
    } else {
        counts_for(entries.drop_last(), format)
    }
}

/// `n` zero counts.
pub open spec fn zero_counts(n: nat) -> Seq<usize> {
    Seq::new(n, |i: int| 0usize)
}

/// Row counts returned by the first run of each query, per format, with one slot per query.
pub struct RowCounts {
    entries: Vec<(Format, Vec<usize>)>,
    expected_len: usize,
}

proof fn lemma_counts_for_update(
    entries: Seq<(Format, Seq<usize>)>,
    k: int,
    format: Format,
    v: Seq<usize>,
    other: Format,
)
    requires
        0 <= k < entries.len(),
        entries[k].0 == format,
        forall|j: int| k < j < entries.len() ==> #[trigger] entries[j].0 != format,
    ensures
        counts_for(entries.update(k, (format, v)), other) == if other == format {
            Some(v)
        } else {
            counts_for(entries, other)
        },
        counts_for(entries, format) == Some(entries[k].1),
    decreases entries.len(),
{
    let u = entries.update(k, (format, v));
    if k < entries.len() - 1 {
        assert(u.drop_last() =~= entries.drop_last().update(k, (format, v)));
        assert(entries.last().0 != format);
        lemma_counts_for_update(entries.drop_last(), k, format, v, other);
    } else {
        assert(u.drop_last() =~= entries.drop_last());
    }
}

impl RowCounts {
    /// Entries as plain values: each format with its counts.
    pub closed spec fn entries_view(self) -> Seq<(Format, Seq<usize>)> {
        self.entries@.map_values(|e: (Format, Vec<usize>)| (e.0, e.1@))
    }

    /// Number of slots each format's counts have.
    pub closed spec fn slots(self) -> nat {
        self.expected_len as nat
    }

    /// The counts recorded for `format`, if any run of it has been recorded.
    pub open spec fn counts(self, format: Format) -> Option<Seq<usize>> {
        counts_for(self.entries_view(), format)
    }

    /// Every format's counts have one slot per expected row count.
    pub closed spec fn wf(self) -> bool {
        forall|i: int| 0 <= i < self.entries@.len() ==> #[trigger] self.entries@[i].1@.len() == self.expected_len
    }

    /// An empty table for queries whose expected row counts number `expected_len`.
    pub fn new(expected_len: usize) -> (res: Self)
        ensures
            res.wf(),
            res.slots() == expected_len,
            forall|f: Format| #[trigger] res.counts(f) is None,
    {
        let res = RowCounts { entries: Vec::new(), expected_len };
        assert(res.entries_view() =~= Seq::empty());
        res
    }

    /// Records that the first run of query `idx` on `format` returned `row_count` rows; a format
    /// seen for the first time starts with all counts zero.
    pub fn record(&mut self, format: Format, idx: usize, row_count: usize)
        requires
            old(self).wf(),
            idx < old(self).slots(),
        ensures
            final(self).wf(),
            final(self).slots() == old(self).slots(),
            forall|f: Format|
                #[trigger] final(self).counts(f) == if f == format {
                    Some(
                        match old(self).counts(format) {
                            Some(c) => c,
                            None => zero_counts(old(self).slots()),
                        }.update(idx as int, row_count),
                    )
                } else {
                    old(self).counts(f)
                },
    {
        let ghost old_view = self.entries_view();
        let mut k: usize = self.entries.len();
        while k > 0 && self.entries[k - 1].0 != format
            invariant
                k <= self.entries.len(),
                self.wf(),
                idx < self.expected_len,
                self.entries_view() == old_view,
                forall|j: int| k <= j < self.entries@.len() ==> #[trigger] self.entries@[j].0 != format,
            decreases k,
        {
            k = k - 1;
        }
        if k == 0 {
            let mut counts = vec![0usize; self.expected_len];
            assert(counts@ =~= zero_counts(self.expected_len as nat));
            counts.set(idx, row_count);
            let ghost new_counts = counts@;
            let ghost before = self.entries@;
            assert(new_counts.len() == self.expected_len);
            self.entries.push((format, counts));
            proof {
                assert forall|j: int| 0 <= j < self.entries@.len() implies #[trigger] self.entries@[j].1@.len() == self.expected_len by {
                    if j < before.len() {
                        assert(self.entries@[j] == before[j]);
                    }
                }
                assert(self.entries_view() =~= old_view.push((format, new_counts)));
                assert(self.entries_view().drop_last() =~= old_view);
                assert forall|j: int| 0 <= j < old_view.len() implies #[trigger] old_view[j].0 != format by {
                    assert(old_view[j].0 == self.entries@[j].0);
                }
                assert(counts_for(old_view, format) is None) by {
                    lemma_counts_for_absent(old_view, format);
                }
            }
        } else {
            let i: usize = k - 1;
            let mut entry: (Format, Vec<usize>) = (format, Vec::new());
            self.entries.set_and_swap(i, &mut entry);
            let ghost old_counts = entry.1@;
            entry.1.set(idx, row_count);
            let ghost new_counts = entry.1@;
            self.entries.set(i, entry);
            proof {
                assert forall|j: int| 0 <= j < self.entries@.len() implies #[trigger] self.entries@[j].1@.len() == self.expected_len by {
                    if j != i {
                        assert(self.entries@[j] == old(self).entries@[j]);
                    }
                }
                assert(self.entries_view() =~= old_view.update(i as int, (format, new_counts)));
                assert forall|j: int| i < j < old_view.len() implies #[trigger] old_view[j].0 != format by {
                    assert(old_view[j].0 == self.entries@[j].0);
                }
                assert forall|f: Format| #[trigger] counts_for(self.entries_view(), f) == if f == format {
                    Some(old_counts.update(idx as int, row_count))
                } else {
                    counts_for(old_view, f)
                } by {
                    lemma_counts_for_update(old_view, i as int, format, new_counts, f);
                }
                lemma_counts_for_update(old_view, i as int, format, new_counts, format);
            }
        }
    }

    /// Whether any recorded format returned a row count that differs from the expected one at a
    /// checked position; a run that sees one fails.
    pub fn mismatched(&self, expected: &Vec<usize>, queries: &Option<Vec<usize>>) -> (res: bool)
        requires
            self.wf(),
            expected.len() == self.slots(),
        ensures
            res == exists|k: int|
                0 <= k < self.entries_view().len() && #[trigger] mismatches_upto(
                    self.entries_view()[k].1,
                    expected@,
                    opt_view(queries),
                    expected.len() as int,
                ).len() > 0,
    {
        let mut k: usize = 0;
        while k < self.entries.len()
            invariant
                k <= self.entries.len(),
                self.wf(),
                expected.len() == self.slots(),
                forall|j: int|
                    0 <= j < k ==> #[trigger] mismatches_upto(
                        self.entries_view()[j].1,
                        expected@,
                        opt_view(queries),
                        expected.len() as int,
                    ).len() == 0,
            decreases self.entries.len() - k,
        {
            assert(self.entries_view()[k as int].1 == self.entries@[k as int].1@);
            let found = row_count_mismatches(&self.entries[k].1, expected, queries);
            if found.len() > 0 {
                return true;
            }
            k = k + 1;
        }
        false
    }

    /// Each recorded format with its counts, in the order the formats were first seen.
    pub fn entries(&self) -> (res: &Vec<(Format, Vec<usize>)>)
        ensures
            res@.map_values(|e: (Format, Vec<usize>)| (e.0, e.1@)) == self.entries_view(),
    {
        &self.entries
    }
}

proof fn lemma_counts_for_absent(entries: Seq<(Format, Seq<usize>)>, format: Format)
    requires
        forall|j: int| 0 <= j < entries.len() ==> #[trigger] entries[j].0 != format,
    ensures
        counts_for(entries, format) is None,
    decreases entries.len(),
{
    if entries.len() > 0 {
        assert(entries.last().0 != format);
        lemma_counts_for_absent(entries.drop_last(), format);
    }
}

/// The first format is the baseline: its column is never highlighted, and every other column
/// is highlighted against it.
pub proof fn lemma_baseline_column_uncolored(ms: Seq<Measurement>, formats: Seq<Format>, q: int, c: int)
    requires
        0 <= c < formats.len(),
    ensures
        table_cell(ms, formats, q, 0).color is None,
        formats[c] != formats[0] ==> table_cell(ms, formats, q, c).color is Some,
        formats[c] == formats[0] ==> table_cell(ms, formats, q, c).color is None,
        formats[c] != formats[0] ==> table_cell(ms, formats, q, c).color == Some(
            color_for(
                table_cell(ms, formats, q, 0).time_us as int,
                table_cell(ms, formats, q, c).time_us as int,
            ),
        ),
        table_cell(ms, formats, q, c).time_us == (sorted_group(ms, formats[c])[q].time_ns / 1000) as u128,
{
}

/// The queries a run covers, in the order of `candidates`: those `query_runs` admits.
pub open spec fn selected_queries(
    candidates: Seq<usize>,
    queries: Option<Seq<usize>>,
    exclude_queries: Option<Seq<usize>>,
) -> Seq<usize>
    decreases candidates.len(),
{
    if candidates.len() == 0 {
        Seq::empty()
    } else {
        let rest = selected_queries(candidates.drop_last(), queries, exclude_queries);
        if query_runs(candidates.last(), queries, exclude_queries) {
            rest.push(candidates.last())
        } else {
            rest
        }
    }
}

/// The queries a run covers are exactly the candidates, in order, that the include list (if
/// given) holds and the exclude list (if given) does not; none of them is excluded.
pub proof fn lemma_selected_queries_filter(
    candidates: Seq<usize>,
    queries: Option<Seq<usize>>,
    exclude_queries: Option<Seq<usize>>,
)
    ensures
        selected_queries(candidates, queries, exclude_queries) == candidates.filter(
            |x: usize|
                (queries matches Some(l) ==> l.contains(x)) && (exclude_queries matches Some(e)
                    ==> !e.contains(x)),
        ),
        forall|k: int|
            0 <= k < selected_queries(candidates, queries, exclude_queries).len() ==> {
                let x = #[trigger] selected_queries(candidates, queries, exclude_queries)[k];
                &&& candidates.contains(x)
                &&& (queries matches Some(l) ==> l.contains(x))
                &&& (exclude_queries matches Some(e) ==> !e.contains(x))
            },
    decreases candidates.len(),
{
    let pred = |x: usize|
        (queries matches Some(l) ==> l.contains(x)) && (exclude_queries matches Some(e) ==> !e.contains(x));
    reveal_with_fuel(Seq::filter, 1);
    if candidates.len() > 0 {
        lemma_selected_queries_filter(candidates.drop_last(), queries, exclude_queries);
        assert(candidates.filter(pred) == {
            let subseq = candidates.drop_last().filter(pred);
            if pred(candidates.last()) {
                subseq.push(candidates.last())
            } else {
                subseq
            }
        });
    }
    broadcast use vstd::seq_lib::group_filter_ensures;
    let s = selected_queries(candidates, queries, exclude_queries);
    assert forall|k: int| 0 <= k < s.len() implies {
        let x = #[trigger] s[k];
        &&& candidates.contains(x)
        &&& (queries matches Some(l) ==> l.contains(x))
        &&& (exclude_queries matches Some(e) ==> !e.contains(x))
    } by {
        assert(pred(candidates.filter(pred)[k]));
        assert(candidates.filter(pred).contains(s[k]));
    }
}

/// Number of untimed warm-up runs before the timed runs of each query and format.
pub open spec fn warmup_runs(warmup: bool) -> int {
    if warmup {
        2
    } else {
        0
    }
}

/// Whether a run is a warm-up (whose first run reports the row count) or a timed run.
#[derive(Clone, Copy, Debug, PartialEq, Eq, Structural)]
pub enum RunKind {
    Warmup { record_row_count: bool },
    Timed,
}

/// What a benchmark run does next.
#[derive(Clone, Copy, Debug, PartialEq, Eq, Structural)]
pub enum BenchAction {
    /// Run query `query_idx` against `format`.
    Run { query_idx: usize, format: Format, kind: RunKind },
    /// Every selected query has been measured against every format.
    Done,
}

/// What a finished run yields for the report.
#[derive(Clone, Copy, Debug)]
pub enum BenchRecord {
    Nothing,
    /// The row count of the first warm-up run of a query against a format.
    RowCount { query_idx: usize, format: Format, row_count: usize },
    /// The fastest timed run of a query against a format, once all its timed runs are done.
    Measured(Measurement),
}

/// The schedule of a benchmark run: for each selected query, for each format in order, the
/// warm-up runs (two, when warm-up is on, the first reporting the row count), then `iterations`
/// timed runs, after which the fastest is reported.
pub struct BenchSchedule {
    queries: Vec<usize>,
    formats: Vec<Format>,
    warmup: bool,
    iterations: usize,
    query_pos: usize,
    format_pos: usize,
    warmups_done: usize,
    timings: Vec<u128>,
}

impl BenchSchedule {
    pub closed spec fn queries(self) -> Seq<usize> {
        self.queries@
    }

    pub closed spec fn formats(self) -> Seq<Format> {
        self.formats@
    }

    pub closed spec fn warmup(self) -> bool {
        self.warmup
    }

    pub closed spec fn iterations(self) -> nat {
        self.iterations as nat
    }

    /// Position of the current query among the selected ones.
    pub closed spec fn query_pos(self) -> nat {
        self.query_pos as nat
    }

    /// Position of the current format.
    pub closed spec fn format_pos(self) -> nat {
        self.format_pos as nat
    }

    /// Warm-up runs done for the current query and format.
    pub closed spec fn warmups_done(self) -> nat {
        self.warmups_done as nat
    }

    /// Durations (in nanoseconds) of the timed runs done for the current query and format.
    pub closed spec fn timings(self) -> Seq<u128> {
        self.timings@
    }

    /// Every query has been run against every format.
    pub open spec fn is_done(self) -> bool {
        self.query_pos() >= self.queries().len() || self.formats().len() == 0
    }

    /// The kind of the current run.
    pub open spec fn run_kind(self) -> RunKind {
        if self.warmups_done() < warmup_runs(self.warmup()) {
            RunKind::Warmup { record_row_count: self.warmups_done() == 0 }
        } else {
            RunKind::Timed
        }
    }

    /// The run to perform now.
    pub open spec fn next_action(self) -> BenchAction {
        if self.is_done() {
            BenchAction::Done
        } else {
            BenchAction::Run {
                query_idx: self.queries()[self.query_pos() as int],
                format: self.formats()[self.format_pos() as int],
                kind: self.run_kind(),
            }
        }
    }

    pub open spec fn wf(self) -> bool {
        &&& self.iterations() > 0
        &&& self.query_pos() <= self.queries().len()
        &&& !self.is_done() ==> {
            &&& self.format_pos() < self.formats().len()
            &&& self.warmups_done() <= warmup_runs(self.warmup())
            &&& self.timings().len() < self.iterations()
            &&& self.timings().len() > 0 ==> self.warmups_done() == warmup_runs(self.warmup())
        }
    }

    /// A schedule over the queries of `candidates` that the include and exclude lists admit,
    /// against `formats`. A run needs at least one timed iteration, since it reports the fastest.
    pub fn new(
        candidates: &Vec<usize>,
        queries: &Option<Vec<usize>>,
        exclude_queries: &Option<Vec<usize>>,
        formats: Vec<Format>,
        warmup: bool,
        iterations: usize,
    ) -> (res: Self)
        requires
            iterations > 0,
        ensures
            res.wf(),
            res.queries() == selected_queries(candidates@, opt_view(queries), opt_view(exclude_queries)),
            res.queries() == candidates@.filter(
                |x: usize|
                    (opt_view(queries) matches Some(l) ==> l.contains(x)) && (opt_view(
                        exclude_queries,
                    ) matches Some(e) ==> !e.contains(x)),
            ),
            forall|k: int|
                0 <= k < res.queries().len() ==> {
                    &&& candidates@.contains(#[trigger] res.queries()[k])
                    &&& (opt_view(queries) matches Some(l) ==> l.contains(res.queries()[k]))
                    &&& (opt_view(exclude_queries) matches Some(e) ==> !e.contains(res.queries()[k]))
                },
            res.formats() == formats@,
            res.warmup() == warmup,
            res.iterations() == iterations,
            res.query_pos() == 0,
            res.format_pos() == 0,
            res.warmups_done() == 0,
            res.timings() == Seq::<u128>::empty(),
    {
        let mut selected: Vec<usize> = Vec::new();
        let mut i: usize = 0;
        while i < candidates.len()
            invariant
                i <= candidates.len(),
                selected@ == selected_queries(
                    candidates@.take(i as int),
                    opt_view(queries),
                    opt_view(exclude_queries),
                ),
            decreases candidates.len() - i,
        {
            assert(candidates@.take(i + 1).drop_last() =~= candidates@.take(i as int));
            if query_selected(candidates[i], queries, exclude_queries) {
                selected.push(candidates[i]);
            }
            i = i + 1;
        }
        assert(candidates@.take(candidates.len() as int) =~= candidates@);
        proof {
            lemma_selected_queries_filter(candidates@, opt_view(queries), opt_view(exclude_queries));
            let inc = opt_view(queries);
            let exc = opt_view(exclude_queries);
            let p1 = |x: usize| (inc matches Some(l) ==> l.contains(x)) && (exc matches Some(e) ==> !e.contains(x));
            let p2 = |x: usize|
                (opt_view(queries) matches Some(l) ==> l.contains(x)) && (opt_view(
                    exclude_queries,
                ) matches Some(e) ==> !e.contains(x));
            assert(p1 =~= p2);
        }
        BenchSchedule {
            queries: selected,
            formats,
            warmup,
            iterations,
            query_pos: 0,
            format_pos: 0,
            warmups_done: 0,
            timings: Vec::new(),
        }
    }

    /// The run to perform now.
    pub fn action(&self) -> (res: BenchAction)
        requires
            self.wf(),
        ensures
            res == self.next_action(),
    {
        if self.query_pos >= self.queries.len() || self.formats.len() == 0 {
            return BenchAction::Done;
        }
        let kind = if self.warmup && self.warmups_done < 2 {
            RunKind::Warmup { record_row_count: self.warmups_done == 0 }
        } else {
            RunKind::Timed
        };
        BenchAction::Run {
            query_idx: self.queries[self.query_pos],
            format: self.formats[self.format_pos],
            kind,
        }
    }

    /// Takes the outcome of the current run (the rows it returned and how long it took) and moves
    /// the schedule on: after the warm-ups come the timed runs, after the last timed run the next
    /// format, after the last format the next query.
    pub fn finish_run(&mut self, row_count: usize, elapsed_ns: u128) -> (res: BenchRecord)
        requires
            old(self).wf(),
            !old(self).is_done(),
        ensures
            final(self).wf(),
            final(self).queries() == old(self).queries(),
            final(self).formats() == old(self).formats(),
            final(self).warmup() == old(self).warmup(),
            final(self).iterations() == old(self).iterations(),
            ({
                let q = old(self).queries()[old(self).query_pos() as int];
                let f = old(self).formats()[old(self).format_pos() as int];
                let timed = old(self).timings().push(elapsed_ns);
                match old(self).run_kind() {
                    RunKind::Warmup { record_row_count } => {
                        &&& final(self).query_pos() == old(self).query_pos()
                        &&& final(self).format_pos() == old(self).format_pos()
                        &&& final(self).warmups_done() == old(self).warmups_done() + 1
                        &&& final(self).timings() == old(self).timings()
                        &&& if record_row_count {
                            res == (BenchRecord::RowCount { query_idx: q, format: f, row_count })
                        } else {
                            res is Nothing
                        }
                    },
                    RunKind::Timed => if timed.len() < old(self).iterations() {
                        &&& final(self).query_pos() == old(self).query_pos()
                        &&& final(self).format_pos() == old(self).format_pos()
                        &&& final(self).warmups_done() == old(self).warmups_done()
                        &&& final(self).timings() == timed
                        &&& res is Nothing
                    } else {
                        &&& final(self).warmups_done() == 0
                        &&& final(self).timings() == Seq::<u128>::empty()
                        &&& if old(self).format_pos() + 1 < old(self).formats().len() {
                            &&& final(self).query_pos() == old(self).query_pos()
                            &&& final(self).format_pos() == old(self).format_pos() + 1
                        } else {
                            &&& final(self).query_pos() == old(self).query_pos() + 1
                            &&& final(self).format_pos() == 0
                        }
                        &&& res matches BenchRecord::Measured(m) && m.query_idx == q && m.format
                            == f && timed.contains(m.time_ns) && forall|i: int|
                            0 <= i < timed.len() ==> m.time_ns <= #[trigger] timed[i]
                    },
                }
            }),
    {
        assert(self.query_pos < self.queries@.len() && self.format_pos < self.formats@.len());
        let qp: usize = self.query_pos;
        let fp: usize = self.format_pos;
        let nf: usize = self.formats.len();
        let _query_count: usize = self.queries.len();
        let q = self.queries[qp];
        let f = self.formats[fp];
        if self.warmup && self.warmups_done < 2 {
            let first = self.warmups_done == 0;
            self.warmups_done = self.warmups_done + 1;
            if first {
                BenchRecord::RowCount { query_idx: q, format: f, row_count }
            } else {
                BenchRecord::Nothing
            }
        } else {
            self.timings.push(elapsed_ns);
            if self.timings.len() < self.iterations {
                BenchRecord::Nothing
            } else {
                let time_ns = fastest(&self.timings);
                self.timings = Vec::new();
                self.warmups_done = 0;
                if fp + 1 < nf {
                    self.format_pos = fp + 1;
                } else {
                    self.query_pos = qp + 1;
                    self.format_pos = 0;
                }
                BenchRecord::Measured(Measurement { query_idx: q, time_ns, format: f })
            }
        }
    }
}

} // verus!
