use partition_filter::data::{ParquetFile, PartitionId};
use partition_filter::filter::{
    ErrorPartitionFilter, FalsePartitionFilter, Filter, HasFilesPartitionFilter,
    MaxFilesPartitionFilter, MaxParquetBytesPartitionFilter, TruePartitionFilter,
};

fn pid() -> PartitionId {
    PartitionId::new(7)
}

fn files_of_sizes(sizes: &[u64]) -> Vec<ParquetFile> {
    sizes
        .iter()
        .enumerate()
        .map(|(i, s)| ParquetFile::new(i as i64, *s))
        .collect()
}

fn t() -> Filter {
    Filter::True(TruePartitionFilter::new())
}

fn f() -> Filter {
    Filter::False(FalsePartitionFilter::new())
}

fn err(msg: &str) -> Filter {
    Filter::Error(ErrorPartitionFilter::new(msg.to_string()))
}

#[test]
fn true_filter_always_passes() {
    let files = files_of_sizes(&[]);
    assert_eq!(
        TruePartitionFilter::new().apply(pid(), &files).unwrap(),
        true
    );
    assert_eq!(TruePartitionFilter::new().display_name(), "true");
}

#[test]
fn false_filter_always_rejects() {
    let files = files_of_sizes(&[10]);
    assert_eq!(
        FalsePartitionFilter::new().apply(pid(), &files).unwrap(),
        false
    );
    assert_eq!(FalsePartitionFilter::new().display_name(), "false");
}

#[test]
fn error_filter_always_fails() {
    let files = files_of_sizes(&[]);
    let e = ErrorPartitionFilter::new("boom".to_string())
        .apply(pid(), &files)
        .unwrap_err();
    assert_eq!(e.message, "boom");
}

#[test]
fn has_files_filter() {
    let none = files_of_sizes(&[]);
    let some = files_of_sizes(&[1]);
    let filter = HasFilesPartitionFilter::new();
    assert_eq!(filter.apply(pid(), &none).unwrap(), false);
    assert_eq!(filter.apply(pid(), &some).unwrap(), true);
    assert_eq!(filter.display_name(), "has_files");
}

#[test]
fn max_files_filter_boundaries() {
    let filter = MaxFilesPartitionFilter::new(2);
    assert_eq!(filter.apply(pid(), &files_of_sizes(&[])).unwrap(), true);
    assert_eq!(filter.apply(pid(), &files_of_sizes(&[1, 2])).unwrap(), true);
    assert_eq!(
        filter.apply(pid(), &files_of_sizes(&[1, 2, 3])).unwrap(),
        false
    );
    assert_eq!(filter.display_name(), "max_files");
}

#[test]
fn max_bytes_filter_boundaries() {
    let filter = MaxParquetBytesPartitionFilter::new(100);
    assert_eq!(filter.apply(pid(), &files_of_sizes(&[60, 40])).unwrap(), true);
    assert_eq!(
        filter.apply(pid(), &files_of_sizes(&[60, 41])).unwrap(),
        false
    );
    assert_eq!(filter.display_name(), "max_parquet_bytes");
}

#[test]
fn max_bytes_filter_huge_sizes_do_not_wrap() {
    // The running total exceeds any single size; summing must not wrap.
    let filter = MaxParquetBytesPartitionFilter::new(u64::MAX);
    let huge = files_of_sizes(&[u64::MAX, u64::MAX]);
    assert_eq!(filter.apply(pid(), &huge).unwrap(), false);
    let exact = files_of_sizes(&[u64::MAX]);
    assert_eq!(filter.apply(pid(), &exact).unwrap(), true);
}

#[test]
fn and_truth_table() {
    let files = files_of_sizes(&[]);
    assert_eq!(
        Filter::And(vec![t(), t()]).apply(pid(), &files).unwrap(),
        true
    );
    assert_eq!(
        Filter::And(vec![t(), f()]).apply(pid(), &files).unwrap(),
        false
    );
    // An empty AND is vacuously true.
    assert_eq!(Filter::And(vec![]).apply(pid(), &files).unwrap(), true);
}

#[test]
fn or_truth_table() {
    let files = files_of_sizes(&[]);
    assert_eq!(
        Filter::Or(vec![f(), f()]).apply(pid(), &files).unwrap(),
        false
    );
    assert_eq!(
        Filter::Or(vec![f(), t()]).apply(pid(), &files).unwrap(),
        true
    );
    // An empty OR is vacuously false.
    assert_eq!(Filter::Or(vec![]).apply(pid(), &files).unwrap(), false);
}

#[test]
fn and_short_circuits_before_an_error() {
    let files = files_of_sizes(&[]);
    // The failing child stands second: the first child already rejects, so
    // the overall answer is `false`, not an error.
    let guarded = Filter::And(vec![f(), err("unreachable")]);
    assert_eq!(guarded.apply(pid(), &files).unwrap(), false);
    // Order matters: a failing first child propagates its error unchanged.
    let exposed = Filter::And(vec![err("broken child"), f()]);
    let e = exposed.apply(pid(), &files).unwrap_err();
    assert_eq!(e.message, "broken child");
}

#[test]
fn or_short_circuits_before_an_error() {
    let files = files_of_sizes(&[]);
    let guarded = Filter::Or(vec![t(), err("unreachable")]);
    assert_eq!(guarded.apply(pid(), &files).unwrap(), true);
    let exposed = Filter::Or(vec![err("broken child"), t()]);
    let e = exposed.apply(pid(), &files).unwrap_err();
    assert_eq!(e.message, "broken child");
}

#[test]
fn decorators_are_transparent_to_the_decision() {
    let files = files_of_sizes(&[1, 2]);
    for inner in [t(), f()] {
        let plain = inner.apply(pid(), &files).unwrap();
        let logged = Filter::Logging(Box::new(clone_simple(&inner)))
            .apply(pid(), &files)
            .unwrap();
        let counted = Filter::Metrics(Box::new(clone_simple(&inner)))
            .apply(pid(), &files)
            .unwrap();
        assert_eq!(plain, logged);
        assert_eq!(plain, counted);
    }
    // Errors pass through decorators unchanged as well.
    let logged_err = Filter::Logging(Box::new(err("inner failure")))
        .apply(pid(), &files)
        .unwrap_err();
    assert_eq!(logged_err.message, "inner failure");
    let counted_err = Filter::Metrics(Box::new(err("inner failure")))
        .apply(pid(), &files)
        .unwrap_err();
    assert_eq!(counted_err.message, "inner failure");
}

// Rebuilds one of the two constant filters; enough for the transparency test.
fn clone_simple(filter: &Filter) -> Filter {
    match filter {
        Filter::True(_) => t(),
        _ => f(),
    }
}

#[test]
fn display_name_composition() {
    assert_eq!(
        Filter::And(vec![t(), f()]).display_name(),
        "(true) and (false)"
    );
    assert_eq!(
        Filter::Or(vec![f(), t()]).display_name(),
        "(false) or (true)"
    );
    assert_eq!(
        Filter::And(vec![
            Filter::HasFiles(HasFilesPartitionFilter::new()),
            Filter::MaxFiles(MaxFilesPartitionFilter::new(100)),
        ])
        .display_name(),
        "(has_files) and (max_files)"
    );
    assert_eq!(
        Filter::Logging(Box::new(t())).display_name(),
        "logging(true)"
    );
    assert_eq!(
        Filter::Metrics(Box::new(Filter::Logging(Box::new(f())))).display_name(),
        "metrics(logging(false))"
    );
    assert_eq!(
        Filter::And(vec![Filter::Or(vec![t(), f()]), t()]).display_name(),
        "((true) or (false)) and (true)"
    );
}

#[test]
fn end_to_end_scenarios() {
    let stage = Filter::And(vec![
        Filter::HasFiles(HasFilesPartitionFilter::new()),
        Filter::MaxFiles(MaxFilesPartitionFilter::new(100)),
    ]);
    // A partition without files fails the first child; the second never runs.
    let empty = files_of_sizes(&[]);
    assert_eq!(stage.apply(pid(), &empty).unwrap(), false);

    // Fifty files of 10 MB in total pass a 100-file, 20 MB stage.
    let fifty = files_of_sizes(&[200_000; 50]);
    let stage = Filter::And(vec![
        Filter::HasFiles(HasFilesPartitionFilter::new()),
        Filter::MaxFiles(MaxFilesPartitionFilter::new(100)),
        Filter::MaxBytes(MaxParquetBytesPartitionFilter::new(20_000_000)),
    ]);
    assert_eq!(stage.apply(pid(), &fifty).unwrap(), true);
}

#[test]
fn repeated_evaluation_is_stable() {
    let files = files_of_sizes(&[5, 6, 7]);
    let stage = Filter::Or(vec![
        Filter::MaxFiles(MaxFilesPartitionFilter::new(2)),
        Filter::MaxBytes(MaxParquetBytesPartitionFilter::new(100)),
    ]);
    let first = stage.apply(pid(), &files).unwrap();
    for _ in 0..5 {
        assert_eq!(stage.apply(pid(), &files).unwrap(), first);
    }
}
