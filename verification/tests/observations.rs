use partition_filter::data::{ParquetFile, PartitionId};
use partition_filter::filter::{
    ErrorPartitionFilter, FalsePartitionFilter, Filter, HasFilesPartitionFilter,
    TruePartitionFilter,
};
use partition_filter::observe::Observations;

fn pid() -> PartitionId {
    PartitionId::new(42)
}

fn some_files() -> Vec<ParquetFile> {
    vec![ParquetFile::new(1, 100), ParquetFile::new(2, 200)]
}

#[test]
fn fresh_observations_are_empty() {
    let obs = Observations::new();
    assert_eq!(obs.logs.len(), 0);
    assert_eq!(obs.metrics.entries.len(), 0);
    assert_eq!(obs.metrics.counts_for(&"anything".to_string()), (0, 0, 0));
}

#[test]
fn logging_decorator_records_the_inner_outcome() {
    let files = some_files();
    let mut obs = Observations::new();
    let wrapped = Filter::Logging(Box::new(Filter::True(TruePartitionFilter::new())));
    let r = wrapped.apply_observed(pid(), &files, &mut obs);
    assert_eq!(r.unwrap(), true);
    assert_eq!(obs.logs.len(), 1);
    assert_eq!(obs.logs[0].filter_name, "true");
    assert_eq!(obs.logs[0].partition_id.value, 42);
    assert_eq!(*obs.logs[0].outcome.as_ref().unwrap(), true);
}

#[test]
fn logging_decorator_records_errors_too() {
    let files = some_files();
    let mut obs = Observations::new();
    let wrapped = Filter::Logging(Box::new(Filter::Error(ErrorPartitionFilter::new(
        "no catalog".to_string(),
    ))));
    let e = wrapped.apply_observed(pid(), &files, &mut obs).unwrap_err();
    assert_eq!(e.message, "no catalog");
    assert_eq!(obs.logs.len(), 1);
    assert_eq!(obs.logs[0].filter_name, "error");
    assert_eq!(
        obs.logs[0].outcome.as_ref().unwrap_err().message,
        "no catalog"
    );
}

#[test]
fn nested_logging_records_inner_before_outer() {
    let files = some_files();
    let mut obs = Observations::new();
    let wrapped = Filter::Logging(Box::new(Filter::Logging(Box::new(Filter::False(
        FalsePartitionFilter::new(),
    )))));
    let r = wrapped.apply_observed(pid(), &files, &mut obs);
    assert_eq!(r.unwrap(), false);
    assert_eq!(obs.logs.len(), 2);
    assert_eq!(obs.logs[0].filter_name, "false");
    assert_eq!(obs.logs[1].filter_name, "logging(false)");
}

#[test]
fn metrics_counters_read_exactly_the_outcomes() {
    let mut obs = Observations::new();
    let counted = Filter::Metrics(Box::new(Filter::HasFiles(HasFilesPartitionFilter::new())));
    let full = some_files();
    let empty: Vec<ParquetFile> = vec![];
    // Three passes, two rejects.
    for _ in 0..3 {
        assert_eq!(counted.apply_observed(pid(), &full, &mut obs).unwrap(), true);
    }
    for _ in 0..2 {
        assert_eq!(
            counted.apply_observed(pid(), &empty, &mut obs).unwrap(),
            false
        );
    }
    // One error, counted under its own filter name.
    let failing = Filter::Metrics(Box::new(Filter::Error(ErrorPartitionFilter::new(
        "flaky".to_string(),
    ))));
    assert!(failing.apply_observed(pid(), &full, &mut obs).is_err());

    assert_eq!(obs.metrics.counts_for(&"has_files".to_string()), (3, 2, 0));
    assert_eq!(obs.metrics.counts_for(&"error".to_string()), (0, 0, 1));
    // Logging was never involved.
    assert_eq!(obs.logs.len(), 0);
}

#[test]
fn short_circuited_children_are_never_observed() {
    let files = some_files();
    let mut obs = Observations::new();
    // The metrics-wrapped failing child stands behind a rejecting child:
    // short-circuiting must keep it from running, so no counter moves and
    // the result is a plain reject.
    let stage = Filter::And(vec![
        Filter::False(FalsePartitionFilter::new()),
        Filter::Metrics(Box::new(Filter::Error(ErrorPartitionFilter::new(
            "unreachable".to_string(),
        )))),
    ]);
    let r = stage.apply_observed(pid(), &files, &mut obs);
    assert_eq!(r.unwrap(), false);
    assert_eq!(obs.metrics.counts_for(&"error".to_string()), (0, 0, 0));
    assert_eq!(obs.metrics.entries.len(), 0);

    // In front of the rejecting child it does run, and the error surfaces.
    let stage = Filter::And(vec![
        Filter::Metrics(Box::new(Filter::Error(ErrorPartitionFilter::new(
            "reachable".to_string(),
        )))),
        Filter::False(FalsePartitionFilter::new()),
    ]);
    let e = stage.apply_observed(pid(), &files, &mut obs).unwrap_err();
    assert_eq!(e.message, "reachable");
    assert_eq!(obs.metrics.counts_for(&"error".to_string()), (0, 0, 1));
}

#[test]
fn decorators_compose_in_any_nesting_order() {
    let files = some_files();
    let mut obs = Observations::new();
    // A combinator of decorators under a decorator of a combinator.
    let stage = Filter::Logging(Box::new(Filter::And(vec![
        Filter::Metrics(Box::new(Filter::True(TruePartitionFilter::new()))),
        Filter::Logging(Box::new(Filter::HasFiles(HasFilesPartitionFilter::new()))),
    ])));
    let r = stage.apply_observed(pid(), &files, &mut obs);
    assert_eq!(r.unwrap(), true);
    assert_eq!(obs.metrics.counts_for(&"true".to_string()), (1, 0, 0));
    assert_eq!(obs.logs.len(), 2);
    assert_eq!(obs.logs[0].filter_name, "has_files");
    assert_eq!(
        obs.logs[1].filter_name,
        "(metrics(true)) and (logging(has_files))"
    );
}

#[test]
fn plain_apply_leaves_no_observations_behind() {
    let files = some_files();
    let counted = Filter::Metrics(Box::new(Filter::True(TruePartitionFilter::new())));
    // The unobserved entry point decides identically but writes nowhere.
    assert_eq!(counted.apply(pid(), &files).unwrap(), true);
    let mut obs = Observations::new();
    assert_eq!(counted.apply_observed(pid(), &files, &mut obs).unwrap(), true);
    assert_eq!(obs.metrics.counts_for(&"true".to_string()), (1, 0, 0));
}
