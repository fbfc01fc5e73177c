use vstd::prelude::*;

use crate::data::{ParquetFile, PartitionId};
use crate::error::{FilterError, duplicate_outcome, outcome_of};
use crate::filter::Filter;

verus! {

/// One structured log entry, as contracts speak of it: the wrapped filter's
/// name, the partition, and the outcome it returned.
pub struct LogEvent {
    pub name: Seq<char>,
    pub partition: PartitionId,
    pub outcome: Result<bool, Seq<char>>,
}

/// One counter increment demanded of the metric registry: the wrapped
/// filter's name and the outcome that picks which counter moves.
pub struct MetricEvent {
    pub name: Seq<char>,
    pub outcome: Result<bool, Seq<char>>,
}

/// Everything the decorators inside a filter observe during one evaluation,
/// in evaluation order.
pub struct Trace {
    pub logs: Seq<LogEvent>,
    pub metrics: Seq<MetricEvent>,
}

impl Trace {
    pub open spec fn empty() -> Trace {
        Trace { logs: Seq::empty(), metrics: Seq::empty() }
    }

    pub open spec fn add(self, other: Trace) -> Trace {
        Trace { logs: self.logs + other.logs, metrics: self.metrics + other.metrics }
    }
}

impl Filter {
    /// The observations one evaluation emits. A decorator records the
    /// wrapped filter's outcome after it completes; children that
    /// short-circuiting skipped emit nothing.
    pub open spec fn trace(self, pid: PartitionId, files: Seq<ParquetFile>) -> Trace
        decreases self, 0int, 0int,
    {
        match self {
            Filter::And(children) => Self::and_trace(children@, pid, files, 0),
            Filter::Or(children) => Self::or_trace(children@, pid, files, 0),
            Filter::Logging(inner) => Trace {
                logs: (*inner).trace(pid, files).logs.push(
                    LogEvent {
                        name: (*inner).spec_name(),
                        partition: pid,
                        outcome: (*inner).decision(pid, files),
                    },
                ),
                metrics: (*inner).trace(pid, files).metrics,
            },
            Filter::Metrics(inner) => Trace {
                logs: (*inner).trace(pid, files).logs,
                metrics: (*inner).trace(pid, files).metrics.push(
                    MetricEvent {
                        name: (*inner).spec_name(),
                        outcome: (*inner).decision(pid, files),
                    },
                ),
            },
            _ => Trace::empty(),
        }
    }

    /// Observations of an AND evaluated from position `i` on: each child up
    /// to and including the first one that does not answer `true`.
    pub open spec fn and_trace(
        cs: Seq<Filter>,
        pid: PartitionId,
        files: Seq<ParquetFile>,
        i: int,
    ) -> Trace
        decreases cs, cs.len() - i, 0int,
    {
        if i < 0 || i >= cs.len() {
            Trace::empty()
        } else if cs[i].decision(pid, files) == Ok::<bool, Seq<char>>(true) {
            cs[i].trace(pid, files).add(Self::and_trace(cs, pid, files, i + 1))
        } else {
            cs[i].trace(pid, files)
        }
    }

    /// Observations of an OR evaluated from position `i` on: each child up
    /// to and including the first one that does not answer `false`.
    pub open spec fn or_trace(
        cs: Seq<Filter>,
        pid: PartitionId,
        files: Seq<ParquetFile>,
        i: int,
    ) -> Trace
        decreases cs, cs.len() - i, 0int,
    {
        if i < 0 || i >= cs.len() {
            Trace::empty()
        } else if cs[i].decision(pid, files) == Ok::<bool, Seq<char>>(false) {
            cs[i].trace(pid, files).add(Self::or_trace(cs, pid, files, i + 1))
        } else {
            cs[i].trace(pid, files)
        }
    }
}

/// One structured log record as the logging decorator writes it.
pub struct LogRecord {
    pub filter_name: String,
    pub partition_id: PartitionId,
    pub outcome: Result<bool, FilterError>,
}

impl View for LogRecord {
    type V = LogEvent;

    open spec fn view(&self) -> LogEvent {
        LogEvent {
            name: self.filter_name@,
            partition: self.partition_id,
            outcome: outcome_of(self.outcome),
        }
    }
}

/// Pass, reject and error counts for one filter name, as contracts speak of
/// them.
pub struct CounterState {
    pub name: Seq<char>,
    pub passed: u64,
    pub rejected: u64,
    pub errored: u64,
}

/// Pass, reject and error counters labeled with one filter name.
pub struct MetricEntry {
    pub name: String,
    pub passed: u64,
    pub rejected: u64,
    pub errored: u64,
}

impl View for MetricEntry {
    type V = CounterState;

    open spec fn view(&self) -> CounterState {
        CounterState {
            name: self.name@,
            passed: self.passed,
            rejected: self.rejected,
            errored: self.errored,
        }
    }
}

/// Position of the first entry carrying `name`, or -1 when there is none.
pub open spec fn index_of_name(reg: Seq<CounterState>, name: Seq<char>) -> int
    decreases reg.len(),
{
    if reg.len() == 0 {
        -1
    } else if reg[0].name == name {
        0
    } else {
        let rest = index_of_name(reg.drop_first(), name);
        if rest == -1 {
            -1
        } else {
            rest + 1
        }
    }
}

/// A counter increment that stops at the largest representable count rather
/// than wrap around.
pub open spec fn sat_inc(c: u64) -> u64 {
    if c < u64::MAX {
        (c + 1) as u64
    } else {
        c
    }
}

/// The counter triple after one more outcome.
pub open spec fn bumped_counter(c: CounterState, outcome: Result<bool, Seq<char>>) -> CounterState {
    match outcome {
        Ok(true) => CounterState {
            name: c.name,
            passed: sat_inc(c.passed),
            rejected: c.rejected,
            errored: c.errored,
        },
        Ok(false) => CounterState {
            name: c.name,
            passed: c.passed,
            rejected: sat_inc(c.rejected),
            errored: c.errored,
        },
        Err(_) => CounterState {
            name: c.name,
            passed: c.passed,
            rejected: c.rejected,
            errored: sat_inc(c.errored),
        },
    }
}

/// The counter triple a first outcome creates for a name.
pub open spec fn fresh_counter(ev: MetricEvent) -> CounterState {
    CounterState {
        name: ev.name,
        passed: if ev.outcome == Ok::<bool, Seq<char>>(true) {
            1
        } else {
            0
        },
        rejected: if ev.outcome == Ok::<bool, Seq<char>>(false) {
            1
        } else {
            0
        },
        errored: if ev.outcome is Err {
            1
        } else {
            0
        },
    }
}

/// The registry after absorbing one increment: the named entry counts one
/// more outcome, or is created on first use.
pub open spec fn bump(reg: Seq<CounterState>, ev: MetricEvent) -> Seq<CounterState> {
    let i = index_of_name(reg, ev.name);
    if i == -1 {
        reg.push(fresh_counter(ev))
    } else {
        reg.update(i, bumped_counter(reg[i], ev.outcome))
    }
}

/// The registry after absorbing a run of increments, first to last.
pub open spec fn apply_metric_events(reg: Seq<CounterState>, evs: Seq<MetricEvent>) -> Seq<
    CounterState,
>
    decreases evs.len(),
{
    if evs.len() == 0 {
        reg
    } else {
        apply_metric_events(bump(reg, evs[0]), evs.drop_first())
    }
}

/// Absorbing a concatenation is absorbing both runs in order.
pub proof fn lemma_apply_metric_events_concat(
    reg: Seq<CounterState>,
    a: Seq<MetricEvent>,
    b: Seq<MetricEvent>,
)
    ensures
        apply_metric_events(reg, a + b) == apply_metric_events(apply_metric_events(reg, a), b),
    decreases a.len(),
{
    if a.len() == 0 {
        assert(a + b =~= b);
    } else {
        assert((a + b)[0] == a[0]);
        assert((a + b).drop_first() =~= a.drop_first() + b);
        lemma_apply_metric_events_concat(bump(reg, a[0]), a.drop_first(), b);
    }
}

/// Absorbing one more increment at the end is one more bump.
pub proof fn lemma_apply_metric_events_snoc(
    reg: Seq<CounterState>,
    evs: Seq<MetricEvent>,
    ev: MetricEvent,
)
    ensures
        apply_metric_events(reg, evs.push(ev)) == bump(apply_metric_events(reg, evs), ev),
{
    assert(evs.push(ev) =~= evs + seq![ev]);
    lemma_apply_metric_events_concat(reg, evs, seq![ev]);
    assert(seq![ev].drop_first() =~= Seq::<MetricEvent>::empty());
    let rs = apply_metric_events(reg, evs);
    assert(seq![ev][0] == ev);
    assert(apply_metric_events(rs, seq![ev]) == apply_metric_events(
        bump(rs, ev),
        seq![ev].drop_first(),
    ));
}

/// The recursive first-match search agrees with "no earlier entry carries
/// the name".
pub proof fn lemma_index_of_name_first_match(reg: Seq<CounterState>, name: Seq<char>, i: int)
    requires
        0 <= i <= reg.len(),
        forall|j: int| 0 <= j < i ==> reg[j].name != name,
        i < reg.len() ==> reg[i].name == name,
    ensures
        i < reg.len() ==> index_of_name(reg, name) == i,
        i == reg.len() ==> index_of_name(reg, name) == -1,
    decreases reg.len(),
{
    if reg.len() == 0 {
    } else if reg[0].name == name {
        assert(i == 0);
    } else {
        assert(forall|j: int| 0 <= j < i - 1 ==> reg.drop_first()[j] == reg[j + 1]);
        if i < reg.len() {
            assert(reg.drop_first()[i - 1] == reg[i]);
        }
        lemma_index_of_name_first_match(reg.drop_first(), name, i - 1);
    }
}

/// The metric counter registry: one pass/reject/error triple per filter
/// name. This is the only shared mutable state of the core; the caller owns
/// it and serializes access to it.
pub struct MetricRegistry {
    pub entries: Vec<MetricEntry>,
}

impl MetricRegistry {
    /// The registry as contracts speak of it.
    pub open spec fn model(self) -> Seq<CounterState> {
        self.entries@.map_values(|e: MetricEntry| e@)
    }

    pub fn new() -> (r: Self)
        ensures
            r.model() == Seq::<CounterState>::empty(),
    {
        let r = MetricRegistry { entries: Vec::new() };
        proof {
            assert(r.model() =~= Seq::<CounterState>::empty());
        }
        r
    }

    /// Position of the first entry carrying `name`, or the length when
    /// there is none.
    fn find_index(entries: &Vec<MetricEntry>, name: &String) -> (r: usize)
        ensures
            r <= entries@.len(),
            forall|j: int| 0 <= j < r ==> entries@[j].name@ != name@,
            r < entries@.len() ==> entries@[r as int].name@ == name@,
    {
        let mut i: usize = 0;
        while i < entries.len()
            invariant
                i <= entries@.len(),
                forall|j: int| 0 <= j < i ==> entries@[j].name@ != name@,
            decreases entries@.len() - i,
        {
            if entries[i].name == *name {
                return i;
            }
            i = i + 1;
        }
        i
    }

    /// Increments the counter for `name` that `outcome` picks, creating the
    /// entry on first use. Counts stop at the largest representable value
    /// rather than wrap.
    pub fn record(&mut self, name: String, outcome: &Result<bool, FilterError>)
        ensures
            final(self).model() == bump(
                old(self).model(),
                MetricEvent { name: name@, outcome: outcome_of(*outcome) },
            ),
    {
        let ghost ev = MetricEvent { name: name@, outcome: outcome_of(*outcome) };
        let (is_pass, is_reject): (bool, bool) = match outcome {
            Ok(true) => (true, false),
            Ok(false) => (false, true),
            Err(_) => (false, false),
        };
        let i = Self::find_index(&self.entries, &name);
        proof {
            assert(forall|j: int| 0 <= j < self.entries@.len()
                ==> self.model()[j] == self.entries@[j]@);
            lemma_index_of_name_first_match(self.model(), name@, i as int);
        }
        if i < self.entries.len() {
            let updated = MetricEntry {
                name,
                passed: inc_if(self.entries[i].passed, is_pass),
                rejected: inc_if(self.entries[i].rejected, is_reject),
                errored: inc_if(self.entries[i].errored, !is_pass && !is_reject),
            };
            self.entries[i] = updated;
            proof {
                assert(self.model() =~= bump(old(self).model(), ev));
            }
        } else {
            let fresh = MetricEntry {
                name,
                passed: if is_pass {
                    1
                } else {
                    0
                },
                rejected: if is_reject {
                    1
                } else {
                    0
                },
                errored: if !is_pass && !is_reject {
                    1
                } else {
                    0
                },
            };
            self.entries.push(fresh);
            proof {
                assert(self.model() =~= bump(old(self).model(), ev));
            }
        }
    }

    /// Reads the pass, reject and error counts recorded for `name`; zeros
    /// when nothing was recorded for it.
    pub fn counts_for(&self, name: &String) -> (r: (u64, u64, u64))
        ensures
            (r.0 as int, r.1 as int, r.2 as int) == counts_of(self.model(), name@),
    {
        let i = Self::find_index(&self.entries, name);
        proof {
            assert(forall|j: int| 0 <= j < self.entries@.len()
                ==> self.model()[j] == self.entries@[j]@);
            lemma_index_of_name_first_match(self.model(), name@, i as int);
        }
        if i < self.entries.len() {
            (self.entries[i].passed, self.entries[i].rejected, self.entries[i].errored)
        } else {
            (0, 0, 0)
        }
    }
}

/// A saturating increment, taken only when `b` holds.
fn inc_if(c: u64, b: bool) -> (r: u64)
    ensures
        r == if b {
            sat_inc(c)
        } else {
            c
        },
{
    if b && c < u64::MAX {
        c + 1
    } else {
        c
    }
}

/// The pass, reject and error counts the registry shows for one name.
pub open spec fn counts_of(reg: Seq<CounterState>, name: Seq<char>) -> (int, int, int) {
    let i = index_of_name(reg, name);
    if i == -1 {
        (0, 0, 0)
    } else {
        (reg[i].passed as int, reg[i].rejected as int, reg[i].errored as int)
    }
}

/// The observation sinks an evaluation writes to: structured log records in
/// emission order, and the metric counter registry.
pub struct Observations {
    pub logs: Vec<LogRecord>,
    pub metrics: MetricRegistry,
}

impl Observations {
    /// The log records as contracts speak of them.
    pub open spec fn log_model(self) -> Seq<LogEvent> {
        self.logs@.map_values(|r: LogRecord| r@)
    }

    pub fn new() -> (r: Self)
        ensures
            r.log_model() == Seq::<LogEvent>::empty(),
            r.metrics.model() == Seq::<CounterState>::empty(),
    {
        let r = Observations { logs: Vec::new(), metrics: MetricRegistry::new() };
        proof {
            assert(r.log_model() =~= Seq::<LogEvent>::empty());
        }
        r
    }
}

impl Filter {
    /// Evaluates the filter and writes what its decorators observe. The
    /// result is exactly `decision`; the log records grow by the trace's
    /// log events in order; the metric counters absorb the trace's metric
    /// events. A filter without decorators leaves the sinks untouched.
    #[verifier::loop_isolation(false)]
    pub fn apply_observed(
        &self,
        partition_id: PartitionId,
        files: &Vec<ParquetFile>,
        obs: &mut Observations,
    ) -> (r: Result<bool, FilterError>)
        ensures
            outcome_of(r) == self.decision(partition_id, files@),
            final(obs).log_model() == old(obs).log_model() + self.trace(
                partition_id,
                files@,
            ).logs,
            final(obs).metrics.model() == apply_metric_events(
                old(obs).metrics.model(),
                self.trace(partition_id, files@).metrics,
            ),
        decreases *self, 0int, 0int,
    {
        match self {
            Filter::True(_)
            | Filter::False(_)
            | Filter::Error(_)
            | Filter::HasFiles(_)
            | Filter::MaxFiles(_)
            | Filter::MaxBytes(_) => {
                let r = self.apply(partition_id, files);
                proof {
                    assert(self.trace(partition_id, files@) == Trace::empty());
                    assert(obs.log_model() + Trace::empty().logs =~= obs.log_model());
                }
                r
            },
            Filter::Logging(inner) => {
                let r = inner.apply_observed(partition_id, files, obs);
                let name = inner.display_name();
                let rec = LogRecord {
                    filter_name: name,
                    partition_id,
                    outcome: duplicate_outcome(&r),
                };
                let ghost mid = *obs;
                obs.logs.push(rec);
                proof {
                    assert(obs.log_model() =~= mid.log_model().push(rec@));
                    assert(obs.log_model() =~= old(obs).log_model() + self.trace(
                        partition_id,
                        files@,
                    ).logs);
                }
                r
            },
            Filter::Metrics(inner) => {
                let r = inner.apply_observed(partition_id, files, obs);
                let name = inner.display_name();
                let ghost ev = MetricEvent {
                    name: (**inner).spec_name(),
                    outcome: (**inner).decision(partition_id, files@),
                };
                obs.metrics.record(name, &r);
                proof {
                    lemma_apply_metric_events_snoc(
                        old(obs).metrics.model(),
                        (**inner).trace(partition_id, files@).metrics,
                        ev,
                    );
                }
                r
            },
            Filter::And(children) => {
                let ghost cs = children@;
                let mut i: usize = 0;
                while i < children.len()
                    invariant
                        i <= cs.len(),
                        Self::and_decision(cs, partition_id, files@, 0) == Self::and_decision(
                            cs,
                            partition_id,
                            files@,
                            i as int,
                        ),
                        old(obs).log_model() + Self::and_trace(cs, partition_id, files@, 0).logs
                            == obs.log_model() + Self::and_trace(
                            cs,
                            partition_id,
                            files@,
                            i as int,
                        ).logs,
                        apply_metric_events(
                            old(obs).metrics.model(),
                            Self::and_trace(cs, partition_id, files@, 0).metrics,
                        ) == apply_metric_events(
                            obs.metrics.model(),
                            Self::and_trace(cs, partition_id, files@, i as int).metrics,
                        ),
                    decreases cs.len() - i,
                {
                    proof {
                        assert(decreases_to!(*self => cs[i as int]));
                    }
                    let ghost pre = *obs;
                    let ghost t_i = cs[i as int].trace(partition_id, files@);
                    let r = children[i].apply_observed(partition_id, files, obs);
                    match r {
                        Ok(true) => {
                            proof {
                                let rest = Self::and_trace(cs, partition_id, files@, i + 1);
                                assert(Self::and_trace(cs, partition_id, files@, i as int)
                                    == t_i.add(rest));
                                assert(pre.log_model() + (t_i.logs + rest.logs) =~= (
                                pre.log_model() + t_i.logs) + rest.logs);
                                lemma_apply_metric_events_concat(
                                    pre.metrics.model(),
                                    t_i.metrics,
                                    rest.metrics,
                                );
                            }
                            i = i + 1;
                        },
                        Ok(false) => {
                            return Ok(false);
                        },
                        Err(e) => {
                            return Err(e);
                        },
                    }
                }
                proof {
                    assert(obs.log_model() + Trace::empty().logs =~= obs.log_model());
                }
                Ok(true)
            },
            Filter::Or(children) => {
                let ghost cs = children@;
                let mut i: usize = 0;
                while i < children.len()
                    invariant
                        i <= cs.len(),
                        Self::or_decision(cs, partition_id, files@, 0) == Self::or_decision(
                            cs,
                            partition_id,
                            files@,
                            i as int,
                        ),
                        old(obs).log_model() + Self::or_trace(cs, partition_id, files@, 0).logs
                            == obs.log_model() + Self::or_trace(
                            cs,
                            partition_id,
                            files@,
                            i as int,
                        ).logs,
                        apply_metric_events(
                            old(obs).metrics.model(),
                            Self::or_trace(cs, partition_id, files@, 0).metrics,
                        ) == apply_metric_events(
                            obs.metrics.model(),
                            Self::or_trace(cs, partition_id, files@, i as int).metrics,
                        ),
                    decreases cs.len() - i,
                {
                    proof {
                        assert(decreases_to!(*self => cs[i as int]));
                    }
                    let ghost pre = *obs;
                    let ghost t_i = cs[i as int].trace(partition_id, files@);
                    let r = children[i].apply_observed(partition_id, files, obs);
                    match r {
                        Ok(true) => {
                            return Ok(true);
                        },
                        Ok(false) => {
                            proof {
                                let rest = Self::or_trace(cs, partition_id, files@, i + 1);
                                assert(Self::or_trace(cs, partition_id, files@, i as int)
                                    == t_i.add(rest));
                                assert(pre.log_model() + (t_i.logs + rest.logs) =~= (
                                pre.log_model() + t_i.logs) + rest.logs);
                                lemma_apply_metric_events_concat(
                                    pre.metrics.model(),
                                    t_i.metrics,
                                    rest.metrics,
                                );
                            }
                            i = i + 1;
                        },
                        Err(e) => {
                            return Err(e);
                        },
                    }
                }
                proof {
                    assert(obs.log_model() + Trace::empty().logs =~= obs.log_model());
                }
                Ok(false)
            },
        }
    }
}

/// Number of passing outcomes in a run of metric events.
pub open spec fn count_passes(evs: Seq<MetricEvent>) -> int
    decreases evs.len(),
{
    if evs.len() == 0 {
        0
    } else {
        (if evs[0].outcome == Ok::<bool, Seq<char>>(true) {
            1int
        } else {
            0int
        }) + count_passes(evs.drop_first())
    }
}

/// Number of rejecting outcomes in a run of metric events.
pub open spec fn count_rejects(evs: Seq<MetricEvent>) -> int
    decreases evs.len(),
{
    if evs.len() == 0 {
        0
    } else {
        (if evs[0].outcome == Ok::<bool, Seq<char>>(false) {
            1int
        } else {
            0int
        }) + count_rejects(evs.drop_first())
    }
}

/// Number of erroring outcomes in a run of metric events.
pub open spec fn count_errors(evs: Seq<MetricEvent>) -> int
    decreases evs.len(),
{
    if evs.len() == 0 {
        0
    } else {
        (if evs[0].outcome is Err {
            1int
        } else {
            0int
        }) + count_errors(evs.drop_first())
    }
}

proof fn lemma_counts_bounds(evs: Seq<MetricEvent>)
    ensures
        0 <= count_passes(evs) <= evs.len(),
        0 <= count_rejects(evs) <= evs.len(),
        0 <= count_errors(evs) <= evs.len(),
    decreases evs.len(),
{
    if evs.len() > 0 {
        lemma_counts_bounds(evs.drop_first());
    }
}

proof fn lemma_counts_single_entry(st: CounterState, evs: Seq<MetricEvent>)
    requires
        forall|j: int| 0 <= j < evs.len() ==> evs[j].name == st.name,
        st.passed + count_passes(evs) <= u64::MAX,
        st.rejected + count_rejects(evs) <= u64::MAX,
        st.errored + count_errors(evs) <= u64::MAX,
    ensures
        apply_metric_events(seq![st], evs) == seq![
            CounterState {
                name: st.name,
                passed: (st.passed + count_passes(evs)) as u64,
                rejected: (st.rejected + count_rejects(evs)) as u64,
                errored: (st.errored + count_errors(evs)) as u64,
            },
        ],
    decreases evs.len(),
{
    lemma_counts_bounds(evs);
    if evs.len() == 0 {
        assert(st == CounterState {
            name: st.name,
            passed: (st.passed + count_passes(evs)) as u64,
            rejected: (st.rejected + count_rejects(evs)) as u64,
            errored: (st.errored + count_errors(evs)) as u64,
        });
    } else {
        let ev = evs[0];
        lemma_counts_bounds(evs.drop_first());
        assert(seq![st][0] == st);
        assert(index_of_name(seq![st], ev.name) == 0);
        let b = bumped_counter(st, ev.outcome);
        assert(bump(seq![st], ev) =~= seq![b]);
        assert(forall|j: int| 0 <= j < evs.drop_first().len() ==> evs.drop_first()[j] == evs[j
            + 1]);
        lemma_counts_single_entry(b, evs.drop_first());
        assert(apply_metric_events(seq![st], evs) == apply_metric_events(
            seq![b],
            evs.drop_first(),
        ));
    }
}

/// Metrics counters lose no update: a fresh registry that absorbs any run
/// of outcomes recorded for one filter name shows, for that name, exactly
/// the number of passes, rejects and errors of the run.
pub proof fn lemma_metric_counts_exact(name: Seq<char>, evs: Seq<MetricEvent>)
    requires
        forall|j: int| 0 <= j < evs.len() ==> evs[j].name == name,
        evs.len() <= u64::MAX,
    ensures
        counts_of(apply_metric_events(Seq::empty(), evs), name) == (
            count_passes(evs),
            count_rejects(evs),
            count_errors(evs),
        ),
{
    lemma_counts_bounds(evs);
    if evs.len() == 0 {
        assert(index_of_name(Seq::empty(), name) == -1);
    } else {
        let ev = evs[0];
        assert(index_of_name(Seq::<CounterState>::empty(), ev.name) == -1);
        let fresh = fresh_counter(ev);
        assert(bump(Seq::empty(), ev) =~= seq![fresh]);
        assert(forall|j: int| 0 <= j < evs.drop_first().len() ==> evs.drop_first()[j] == evs[j
            + 1]);
        lemma_counts_bounds(evs.drop_first());
        lemma_counts_single_entry(fresh, evs.drop_first());
        let fin = apply_metric_events(Seq::<CounterState>::empty(), evs);
        assert(fin == apply_metric_events(seq![fresh], evs.drop_first()));
        assert(fin[0].name == name);
        assert(index_of_name(fin, name) == 0);
    }
}


} // verus!
