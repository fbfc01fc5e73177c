use vstd::prelude::*;

use crate::data::{ParquetFile, PartitionId};
use crate::error::{FilterError, outcome_of};
use crate::filter::Filter;
use crate::observe::{LogEvent, MetricEvent, Trace};

verus! {

/// Referential transparency: the outcome `apply` is bound to return is a
/// function of the filter and the `(partition_id, files)` input alone, so
/// any two results of the same evaluation agree.
pub proof fn lemma_apply_deterministic(
    f: Filter,
    pid: PartitionId,
    files: Seq<ParquetFile>,
    r1: Result<bool, FilterError>,
    r2: Result<bool, FilterError>,
)
    requires
        outcome_of(r1) == f.decision(pid, files),
        outcome_of(r2) == f.decision(pid, files),
    ensures
        outcome_of(r1) == outcome_of(r2),
{
}

/// An AND of no children is vacuously true, whatever the input.
pub proof fn lemma_empty_and_vacuously_true(
    w: Filter,
    pid: PartitionId,
    files: Seq<ParquetFile>,
)
    requires
        w matches Filter::And(cs) && cs@.len() == 0,
    ensures
        w.decision(pid, files) == Ok::<bool, Seq<char>>(true),
{
    assert(w.decision(pid, files) == Filter::and_decision(w->And_0@, pid, files, 0));
}

/// An OR of no children is vacuously false, whatever the input.
pub proof fn lemma_empty_or_vacuously_false(
    w: Filter,
    pid: PartitionId,
    files: Seq<ParquetFile>,
)
    requires
        w matches Filter::Or(cs) && cs@.len() == 0,
    ensures
        w.decision(pid, files) == Ok::<bool, Seq<char>>(false),
{
    assert(w.decision(pid, files) == Filter::or_decision(w->Or_0@, pid, files, 0));
}

/// Short-circuit of AND on `false`: when the first of two children rejects,
/// the second is never consulted, so the result is `false` even when the
/// second child would fail with an error.
pub proof fn lemma_and_short_circuits_on_false(
    w: Filter,
    f: Filter,
    g: Filter,
    pid: PartitionId,
    files: Seq<ParquetFile>,
)
    requires
        w matches Filter::And(cs) && cs@ == seq![f, g],
        f.decision(pid, files) == Ok::<bool, Seq<char>>(false),
    ensures
        w.decision(pid, files) == Ok::<bool, Seq<char>>(false),
{
    assert(w->And_0@[0] == f);
    assert(w.decision(pid, files) == Filter::and_decision(w->And_0@, pid, files, 0));
}

/// Order matters: an AND whose first child fails propagates that error
/// unchanged, whatever the second child would have answered.
pub proof fn lemma_and_propagates_first_error(
    w: Filter,
    f: Filter,
    g: Filter,
    pid: PartitionId,
    files: Seq<ParquetFile>,
    m: Seq<char>,
)
    requires
        w matches Filter::And(cs) && cs@ == seq![f, g],
        f.decision(pid, files) == Err::<bool, Seq<char>>(m),
    ensures
        w.decision(pid, files) == Err::<bool, Seq<char>>(m),
{
    assert(w->And_0@[0] == f);
    assert(w.decision(pid, files) == Filter::and_decision(w->And_0@, pid, files, 0));
}

/// Short-circuit of OR on `true`: when the first of two children accepts,
/// the second is never consulted, so the result is `true` even when the
/// second child would fail with an error.
pub proof fn lemma_or_short_circuits_on_true(
    w: Filter,
    f: Filter,
    g: Filter,
    pid: PartitionId,
    files: Seq<ParquetFile>,
)
    requires
        w matches Filter::Or(cs) && cs@ == seq![f, g],
        f.decision(pid, files) == Ok::<bool, Seq<char>>(true),
    ensures
        w.decision(pid, files) == Ok::<bool, Seq<char>>(true),
{
    assert(w->Or_0@[0] == f);
    assert(w.decision(pid, files) == Filter::or_decision(w->Or_0@, pid, files, 0));
}

/// Order matters for OR as well: a failing first child propagates its error
/// unchanged, even when a later child would have answered `true`.
pub proof fn lemma_or_propagates_first_error(
    w: Filter,
    f: Filter,
    g: Filter,
    pid: PartitionId,
    files: Seq<ParquetFile>,
    m: Seq<char>,
)
    requires
        w matches Filter::Or(cs) && cs@ == seq![f, g],
        f.decision(pid, files) == Err::<bool, Seq<char>>(m),
    ensures
        w.decision(pid, files) == Err::<bool, Seq<char>>(m),
{
    assert(w->Or_0@[0] == f);
    assert(w.decision(pid, files) == Filter::or_decision(w->Or_0@, pid, files, 0));
}

/// Decorator transparency: a logging wrapper decides exactly as the filter
/// it wraps, for successes and for errors alike.
pub proof fn lemma_logging_transparent(
    w: Filter,
    x: Filter,
    pid: PartitionId,
    files: Seq<ParquetFile>,
)
    requires
        w matches Filter::Logging(inner) && *inner == x,
    ensures
        w.decision(pid, files) == x.decision(pid, files),
{
}

/// Decorator transparency: a metrics wrapper decides exactly as the filter
/// it wraps, for successes and for errors alike.
pub proof fn lemma_metrics_transparent(
    w: Filter,
    x: Filter,
    pid: PartitionId,
    files: Seq<ParquetFile>,
)
    requires
        w matches Filter::Metrics(inner) && *inner == x,
    ensures
        w.decision(pid, files) == x.decision(pid, files),
{
}

/// Name composition: the display name of an AND of two children embeds both
/// children's own display names, joined by the "and" connective.
pub proof fn lemma_and_name_embeds_children(w: Filter, a: Filter, b: Filter)
    requires
        w matches Filter::And(cs) && cs@ == seq![a, b],
    ensures
        w.spec_name() == "("@ + a.spec_name() + ") and ("@ + b.spec_name() + ")"@,
{
    reveal_strlit("(");
    reveal_strlit(")");
    reveal_strlit(" and ");
    reveal_strlit(") and (");
    let cs = w->And_0@;
    assert(cs[0] == a && cs[1] == b);
    assert(w.spec_name() == Filter::joined_names(cs, " and "@, 0));
    assert(Filter::joined_names(cs, " and "@, 0) == "("@ + a.spec_name() + ")"@ + " and "@
        + Filter::joined_names(cs, " and "@, 1));
    assert(Filter::joined_names(cs, " and "@, 1) == "("@ + b.spec_name() + ")"@);
    assert(w.spec_name() =~= "("@ + a.spec_name() + ") and ("@ + b.spec_name() + ")"@);
}

/// Name composition for OR, with the "or" connective.
pub proof fn lemma_or_name_embeds_children(w: Filter, a: Filter, b: Filter)
    requires
        w matches Filter::Or(cs) && cs@ == seq![a, b],
    ensures
        w.spec_name() == "("@ + a.spec_name() + ") or ("@ + b.spec_name() + ")"@,
{
    reveal_strlit("(");
    reveal_strlit(")");
    reveal_strlit(" or ");
    reveal_strlit(") or (");
    let cs = w->Or_0@;
    assert(cs[0] == a && cs[1] == b);
    assert(w.spec_name() == Filter::joined_names(cs, " or "@, 0));
    assert(Filter::joined_names(cs, " or "@, 0) == "("@ + a.spec_name() + ")"@ + " or "@
        + Filter::joined_names(cs, " or "@, 1));
    assert(Filter::joined_names(cs, " or "@, 1) == "("@ + b.spec_name() + ")"@);
    assert(w.spec_name() =~= "("@ + a.spec_name() + ") or ("@ + b.spec_name() + ")"@);
}

/// A metrics wrapper around a filter that observes nothing itself emits
/// exactly one counter increment per evaluation: the wrapped filter's name
/// with its outcome, and no log record.
pub proof fn lemma_metrics_single_event(
    w: Filter,
    x: Filter,
    pid: PartitionId,
    files: Seq<ParquetFile>,
)
    requires
        w matches Filter::Metrics(inner) && *inner == x,
        x.trace(pid, files) == Trace::empty(),
    ensures
        w.trace(pid, files).metrics == seq![
            MetricEvent { name: x.spec_name(), outcome: x.decision(pid, files) },
        ],
        w.trace(pid, files).logs == Seq::<LogEvent>::empty(),
{
    assert(w.trace(pid, files).metrics =~= seq![
        MetricEvent { name: x.spec_name(), outcome: x.decision(pid, files) },
    ]);
}


proof fn lemma_and_stops_from(
    cs: Seq<Filter>,
    pid: PartitionId,
    files: Seq<ParquetFile>,
    i: int,
    j: int,
)
    requires
        0 <= i <= j < cs.len(),
        forall|k: int| i <= k < j ==> cs[k].decision(pid, files) == Ok::<bool, Seq<char>>(true),
        !(cs[j].decision(pid, files) == Ok::<bool, Seq<char>>(true)),
    ensures
        Filter::and_decision(cs, pid, files, i) == match cs[j].decision(pid, files) {
            Ok(_) => Ok::<bool, Seq<char>>(false),
            Err(m) => Err(m),
        },
    decreases j - i,
{
    if i < j {
        lemma_and_stops_from(cs, pid, files, i + 1, j);
    }
}

/// Short-circuit of AND in general: when every child before position `j`
/// answers `true` and the child at `j` does not, the AND returns that
/// child's outcome (`false`, or its error unchanged) — whatever stands
/// after `j` is never consulted.
pub proof fn lemma_and_stops_at_first_non_true(
    w: Filter,
    pid: PartitionId,
    files: Seq<ParquetFile>,
    j: int,
)
    requires
        w is And,
        0 <= j < w->And_0@.len(),
        forall|k: int| 0 <= k < j ==> w->And_0@[k].decision(pid, files) == Ok::<
            bool,
            Seq<char>,
        >(true),
        !(w->And_0@[j].decision(pid, files) == Ok::<bool, Seq<char>>(true)),
    ensures
        w.decision(pid, files) == match w->And_0@[j].decision(pid, files) {
            Ok(_) => Ok::<bool, Seq<char>>(false),
            Err(m) => Err(m),
        },
{
    assert(w.decision(pid, files) == Filter::and_decision(w->And_0@, pid, files, 0));
    lemma_and_stops_from(w->And_0@, pid, files, 0, j);
}

proof fn lemma_or_stops_from(
    cs: Seq<Filter>,
    pid: PartitionId,
    files: Seq<ParquetFile>,
    i: int,
    j: int,
)
    requires
        0 <= i <= j < cs.len(),
        forall|k: int| i <= k < j ==> cs[k].decision(pid, files) == Ok::<bool, Seq<char>>(false),
        !(cs[j].decision(pid, files) == Ok::<bool, Seq<char>>(false)),
    ensures
        Filter::or_decision(cs, pid, files, i) == match cs[j].decision(pid, files) {
            Ok(_) => Ok::<bool, Seq<char>>(true),
            Err(m) => Err(m),
        },
    decreases j - i,
{
    if i < j {
        lemma_or_stops_from(cs, pid, files, i + 1, j);
    }
}

/// Short-circuit of OR in general: when every child before position `j`
/// answers `false` and the child at `j` does not, the OR returns that
/// child's outcome (`true`, or its error unchanged).
pub proof fn lemma_or_stops_at_first_non_false(
    w: Filter,
    pid: PartitionId,
    files: Seq<ParquetFile>,
    j: int,
)
    requires
        w is Or,
        0 <= j < w->Or_0@.len(),
        forall|k: int| 0 <= k < j ==> w->Or_0@[k].decision(pid, files) == Ok::<
            bool,
            Seq<char>,
        >(false),
        !(w->Or_0@[j].decision(pid, files) == Ok::<bool, Seq<char>>(false)),
    ensures
        w.decision(pid, files) == match w->Or_0@[j].decision(pid, files) {
            Ok(_) => Ok::<bool, Seq<char>>(true),
            Err(m) => Err(m),
        },
{
    assert(w.decision(pid, files) == Filter::or_decision(w->Or_0@, pid, files, 0));
    lemma_or_stops_from(w->Or_0@, pid, files, 0, j);
}

proof fn lemma_and_true_iff_from(cs: Seq<Filter>, pid: PartitionId, files: Seq<ParquetFile>, i: int)
    requires
        0 <= i <= cs.len(),
    ensures
        Filter::and_decision(cs, pid, files, i) == Ok::<bool, Seq<char>>(true) <==> (forall|
            k: int,
        | i <= k < cs.len() ==> cs[k].decision(pid, files) == Ok::<bool, Seq<char>>(true)),
    decreases cs.len() - i,
{
    if i < cs.len() {
        lemma_and_true_iff_from(cs, pid, files, i + 1);
    }
}

/// An AND proceeds exactly when every child proceeds.
pub proof fn lemma_and_true_iff_all_children_true(
    w: Filter,
    pid: PartitionId,
    files: Seq<ParquetFile>,
)
    requires
        w is And,
    ensures
        w.decision(pid, files) == Ok::<bool, Seq<char>>(true) <==> (forall|k: int|
            0 <= k < w->And_0@.len() ==> w->And_0@[k].decision(pid, files) == Ok::<
                bool,
                Seq<char>,
            >(true)),
{
    assert(w.decision(pid, files) == Filter::and_decision(w->And_0@, pid, files, 0));
    lemma_and_true_iff_from(w->And_0@, pid, files, 0);
}

proof fn lemma_or_false_iff_from(cs: Seq<Filter>, pid: PartitionId, files: Seq<ParquetFile>, i: int)
    requires
        0 <= i <= cs.len(),
    ensures
        Filter::or_decision(cs, pid, files, i) == Ok::<bool, Seq<char>>(false) <==> (forall|
            k: int,
        | i <= k < cs.len() ==> cs[k].decision(pid, files) == Ok::<bool, Seq<char>>(false)),
    decreases cs.len() - i,
{
    if i < cs.len() {
        lemma_or_false_iff_from(cs, pid, files, i + 1);
    }
}

/// An OR excludes exactly when every child excludes.
pub proof fn lemma_or_false_iff_all_children_false(
    w: Filter,
    pid: PartitionId,
    files: Seq<ParquetFile>,
)
    requires
        w is Or,
    ensures
        w.decision(pid, files) == Ok::<bool, Seq<char>>(false) <==> (forall|k: int|
            0 <= k < w->Or_0@.len() ==> w->Or_0@[k].decision(pid, files) == Ok::<
                bool,
                Seq<char>,
            >(false)),
{
    assert(w.decision(pid, files) == Filter::or_decision(w->Or_0@, pid, files, 0));
    lemma_or_false_iff_from(w->Or_0@, pid, files, 0);
}


/// Short-circuiting leaves no observation behind: when the first of two AND
/// children does not answer `true`, the evaluation observes only that child
/// — nothing the second child's decorators would record happens.
pub proof fn lemma_and_short_circuit_observes_only_first(
    w: Filter,
    f: Filter,
    g: Filter,
    pid: PartitionId,
    files: Seq<ParquetFile>,
)
    requires
        w matches Filter::And(cs) && cs@ == seq![f, g],
        !(f.decision(pid, files) == Ok::<bool, Seq<char>>(true)),
    ensures
        w.trace(pid, files) == f.trace(pid, files),
{
    assert(w->And_0@[0] == f);
    assert(w.trace(pid, files) == Filter::and_trace(w->And_0@, pid, files, 0));
}

/// `needle` stands verbatim at position `lo` of `hay`.
pub open spec fn embedded_at(hay: Seq<char>, needle: Seq<char>, lo: int) -> bool {
    0 <= lo && lo + needle.len() <= hay.len() && hay.subrange(lo, lo + needle.len() as int)
        == needle
}

proof fn lemma_joined_names_embed_from(cs: Seq<Filter>, sep: Seq<char>, j: int, i: int)
    requires
        0 <= j <= i < cs.len(),
    ensures
        exists|lo: int|
            embedded_at(Filter::joined_names(cs, sep, j), cs[i].spec_name(), lo),
    decreases i - j,
{
    reveal_strlit("(");
    reveal_strlit(")");
    let n = cs[i].spec_name();
    let len = n.len() as int;
    let s = Filter::joined_names(cs, sep, j);
    if j == i {
        assert(s.subrange(1, 1 + len) =~= n);
        assert(embedded_at(s, n, 1));
    } else {
        lemma_joined_names_embed_from(cs, sep, j + 1, i);
        let pre = "("@ + cs[j].spec_name() + ")"@ + sep;
        let rest = Filter::joined_names(cs, sep, j + 1);
        assert(s == pre + rest);
        let lo = choose|lo: int| embedded_at(rest, n, lo);
        assert(s.subrange(pre.len() + lo, pre.len() + lo + len) =~= rest.subrange(lo, lo + len));
        assert(embedded_at(s, n, pre.len() + lo));
    }
}

/// Combinators never swallow child names: each child's display name stands
/// verbatim inside an AND's own display name, whatever the child count.
pub proof fn lemma_and_name_embeds_each_child(w: Filter, i: int)
    requires
        w is And,
        0 <= i < w->And_0@.len(),
    ensures
        exists|lo: int| embedded_at(w.spec_name(), w->And_0@[i].spec_name(), lo),
{
    assert(w.spec_name() == Filter::joined_names(w->And_0@, " and "@, 0));
    lemma_joined_names_embed_from(w->And_0@, " and "@, 0, i);
}

/// Combinators never swallow child names: each child's display name stands
/// verbatim inside an OR's own display name, whatever the child count.
pub proof fn lemma_or_name_embeds_each_child(w: Filter, i: int)
    requires
        w is Or,
        0 <= i < w->Or_0@.len(),
    ensures
        exists|lo: int| embedded_at(w.spec_name(), w->Or_0@[i].spec_name(), lo),
{
    assert(w.spec_name() == Filter::joined_names(w->Or_0@, " or "@, 0));
    lemma_joined_names_embed_from(w->Or_0@, " or "@, 0, i);
}


/// A logging wrapper around a filter that observes nothing itself emits
/// exactly one log record per evaluation: the wrapped filter's name, the
/// partition, and its outcome — and no counter increment.
pub proof fn lemma_logging_single_record(
    w: Filter,
    x: Filter,
    pid: PartitionId,
    files: Seq<ParquetFile>,
)
    requires
        w matches Filter::Logging(inner) && *inner == x,
        x.trace(pid, files) == Trace::empty(),
    ensures
        w.trace(pid, files).logs == seq![
            LogEvent { name: x.spec_name(), partition: pid, outcome: x.decision(pid, files) },
        ],
        w.trace(pid, files).metrics == Seq::<MetricEvent>::empty(),
{
    assert(w.trace(pid, files).logs =~= seq![
        LogEvent { name: x.spec_name(), partition: pid, outcome: x.decision(pid, files) },
    ]);
}


/// A leaf filter observes nothing: only decorators write to the sinks.
pub proof fn lemma_leaf_trace_empty(w: Filter, pid: PartitionId, files: Seq<ParquetFile>)
    requires
        !(w is And),
        !(w is Or),
        !(w is Logging),
        !(w is Metrics),
    ensures
        w.trace(pid, files) == Trace::empty(),
{
}

} // verus!
