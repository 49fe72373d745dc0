use vortex_core::tpch::{
    bench_formats, color, fastest, query_count, query_selected, row_count_mismatches,
    sort_measurements, table_is_complete, table_rows, CellColor, Format, Measurement, RowCounts,
    TableCell, TPCH_QUERY_COUNT,
};

fn m(query_idx: usize, time_ns: u128, format: Format) -> Measurement {
    Measurement { query_idx, time_ns, format }
}

const VORTEX: Format = Format::OnDiskVortex { enable_compression: true };

#[test]
fn format_names() {
    assert_eq!(Format::Arrow.name(), "arrow");
    assert_eq!(Format::Parquet.name(), "parquet");
    assert_eq!(VORTEX.name(), "on_disk_vortex-compressed");
    assert_eq!(
        Format::OnDiskVortex { enable_compression: false }.name(),
        "on_disk_vortex-uncompressed"
    );
}

#[test]
fn measurement_json() {
    let j = m(3, 12_345, Format::Arrow).to_json();
    assert_eq!(j.name, "tpch_q3/arrow");
    assert_eq!(j.unit, "ns");
    assert_eq!(j.value, 12_345);
    let j = m(17, 1, VORTEX).to_json();
    assert_eq!(j.name, "tpch_q17/on_disk_vortex-compressed");
}

#[test]
fn color_thresholds() {
    assert_eq!(color(100, 151), CellColor::Red);
    assert_eq!(color(100, 150), CellColor::Yellow);
    assert_eq!(color(100, 111), CellColor::Yellow);
    assert_eq!(color(100, 110), CellColor::Green);
    assert_eq!(color(100, 5), CellColor::Green);
    assert_eq!(color(0, 1), CellColor::Red);
    assert_eq!(color(0, 0), CellColor::Green);
}

#[test]
fn sorting_is_stable_by_query() {
    let ms = vec![
        m(2, 10, Format::Arrow),
        m(1, 20, Format::Arrow),
        m(2, 30, Format::Arrow),
        m(0, 40, Format::Arrow),
        m(1, 50, Format::Arrow),
    ];
    let sorted = sort_measurements(&ms);
    let keys: Vec<(usize, u128)> = sorted.iter().map(|x| (x.query_idx, x.time_ns)).collect();
    assert_eq!(keys, vec![(0, 40), (1, 20), (1, 50), (2, 10), (2, 30)]);
}

#[test]
fn results_table_against_baseline() {
    let formats = vec![Format::Arrow, VORTEX];
    // Arrival order is not query order.
    let ms = vec![
        m(1, 2_000_000, Format::Arrow),
        m(0, 1_000_000, Format::Arrow),
        m(0, 1_600_000, VORTEX),
        m(1, 2_100_000, VORTEX),
    ];
    assert!(table_is_complete(&ms, &formats));
    let rows = table_rows(&ms, &formats);
    assert_eq!(rows.len(), 2);
    assert_eq!(rows[0][0], TableCell { time_us: 1000, color: None });
    assert_eq!(rows[0][1], TableCell { time_us: 1600, color: Some(CellColor::Red) });
    assert_eq!(rows[1][0], TableCell { time_us: 2000, color: None });
    assert_eq!(rows[1][1], TableCell { time_us: 2100, color: Some(CellColor::Green) });
}

#[test]
fn results_table_has_at_most_one_row_per_query() {
    let formats = vec![Format::Arrow];
    let ms: Vec<Measurement> = (0..30).map(|i| m(i, 1000, Format::Arrow)).collect();
    assert!(table_is_complete(&ms, &formats));
    assert_eq!(table_rows(&ms, &formats).len(), TPCH_QUERY_COUNT);
}

#[test]
fn incomplete_tables_are_detected() {
    let ms = vec![m(0, 1000, Format::Arrow), m(1, 1000, Format::Arrow), m(0, 1000, VORTEX)];
    assert!(!table_is_complete(&ms, &vec![Format::Arrow, VORTEX]));
    assert!(!table_is_complete(&ms, &vec![]));
    assert!(!table_is_complete(&ms, &vec![Format::Parquet]));
    assert!(table_is_complete(&ms, &vec![VORTEX, Format::Arrow]));
}

#[test]
fn formats_to_compare() {
    assert_eq!(bench_formats(true), vec![Format::Arrow, VORTEX]);
    assert_eq!(bench_formats(false), vec![Format::Arrow, Format::Parquet, VORTEX]);
}

#[test]
fn query_selection() {
    assert_eq!(query_count(&None), 22);
    assert_eq!(query_count(&Some(vec![1, 5])), 2);
    assert!(query_selected(3, &None, &None));
    assert!(query_selected(3, &Some(vec![3, 4]), &None));
    assert!(!query_selected(2, &Some(vec![3, 4]), &None));
    assert!(!query_selected(3, &None, &Some(vec![3])));
    assert!(!query_selected(3, &Some(vec![3]), &Some(vec![3])));
}

#[test]
fn fastest_run() {
    assert_eq!(fastest(&vec![30, 10, 20]), 10);
    assert_eq!(fastest(&vec![5]), 5);
}

#[test]
fn row_count_checks() {
    let expected = vec![4usize, 10, 3];
    assert_eq!(row_count_mismatches(&vec![4, 10, 3], &expected, &None), vec![]);
    assert_eq!(
        row_count_mismatches(&vec![4, 0, 0], &expected, &None),
        vec![(1, 0, 10), (2, 0, 3)]
    );
    assert_eq!(
        row_count_mismatches(&vec![4, 0, 0], &expected, &Some(vec![2])),
        vec![(2, 0, 3)]
    );
}

#[test]
fn row_counts_per_format() {
    let mut rc = RowCounts::new(3);
    rc.record(Format::Arrow, 1, 10);
    rc.record(VORTEX, 0, 4);
    rc.record(Format::Arrow, 2, 3);
    let entries = rc.entries();
    assert_eq!(entries.len(), 2);
    assert_eq!(entries[0], (Format::Arrow, vec![0usize, 10, 3]));
    assert_eq!(entries[1], (VORTEX, vec![4usize, 0, 0]));
    assert!(rc.mismatched(&vec![4, 10, 3], &None));
    assert!(!rc.mismatched(&vec![4, 10, 3], &Some(vec![])));
    let mut ok = RowCounts::new(2);
    ok.record(Format::Arrow, 0, 5);
    ok.record(Format::Arrow, 1, 6);
    assert!(!ok.mismatched(&vec![5, 6], &None));
}

use vortex_core::tpch::{BenchAction, BenchRecord, BenchSchedule, RunKind};

#[test]
fn bench_schedule_runs_warmups_then_timed_runs() {
    let candidates: Vec<usize> = (1..=4).collect();
    let mut s = BenchSchedule::new(
        &candidates,
        &Some(vec![2, 3, 4]),
        &Some(vec![3]),
        vec![Format::Arrow, VORTEX],
        true,
        2,
    );
    let mut actions = Vec::new();
    let mut records = Vec::new();
    let mut elapsed = 100u128;
    loop {
        let a = s.action();
        if a == BenchAction::Done {
            break;
        }
        actions.push(a);
        elapsed -= 1;
        match s.finish_run(7, elapsed) {
            BenchRecord::Nothing => {}
            BenchRecord::RowCount { query_idx, format, row_count } => {
                records.push(format!("rows q{query_idx} {} {row_count}", format.name()))
            }
            BenchRecord::Measured(m) => {
                records.push(format!("time q{} {} {}", m.query_idx, m.format.name(), m.time_ns))
            }
        }
    }
    // Queries 2 and 4, two formats each, two warm-ups and two timed runs per pair.
    assert_eq!(actions.len(), 16);
    assert_eq!(
        actions[0],
        BenchAction::Run {
            query_idx: 2,
            format: Format::Arrow,
            kind: RunKind::Warmup { record_row_count: true }
        }
    );
    assert_eq!(
        actions[1],
        BenchAction::Run {
            query_idx: 2,
            format: Format::Arrow,
            kind: RunKind::Warmup { record_row_count: false }
        }
    );
    assert_eq!(
        actions[2],
        BenchAction::Run { query_idx: 2, format: Format::Arrow, kind: RunKind::Timed }
    );
    assert_eq!(
        actions[4],
        BenchAction::Run {
            query_idx: 2,
            format: VORTEX,
            kind: RunKind::Warmup { record_row_count: true }
        }
    );
    assert_eq!(
        actions[8],
        BenchAction::Run {
            query_idx: 4,
            format: Format::Arrow,
            kind: RunKind::Warmup { record_row_count: true }
        }
    );
    assert_eq!(
        records,
        vec![
            "rows q2 arrow 7",
            "time q2 arrow 96",
            "rows q2 on_disk_vortex-compressed 7",
            "time q2 on_disk_vortex-compressed 92",
            "rows q4 arrow 7",
            "time q4 arrow 88",
            "rows q4 on_disk_vortex-compressed 7",
            "time q4 on_disk_vortex-compressed 84",
        ]
    );
}

#[test]
fn bench_schedule_without_warmup() {
    let mut s = BenchSchedule::new(&vec![1, 2], &None, &None, vec![Format::Parquet], false, 3);
    let mut n = 0;
    let mut fastest_seen = Vec::new();
    let times = [50u128, 20, 30, 5, 9, 7];
    while s.action() != BenchAction::Done {
        if let BenchRecord::Measured(m) = s.finish_run(0, times[n]) {
            fastest_seen.push((m.query_idx, m.time_ns));
        }
        n += 1;
    }
    assert_eq!(n, 6);
    assert_eq!(fastest_seen, vec![(1, 20), (2, 5)]);
}

#[test]
fn bench_schedule_with_no_formats_is_done() {
    let s = BenchSchedule::new(&vec![1, 2], &None, &None, vec![], true, 1);
    assert_eq!(s.action(), BenchAction::Done);
}
