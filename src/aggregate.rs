//! The aggregate operator: grouped and grouping-free aggregation over a
//! stream of batches, driven one pulled batch at a time.

use vstd::prelude::*;
use crate::types::{AggregateType, DataType, ExecutionError};
use crate::accumulator::{aggregate_of, in_i64_range, opt_view};
use crate::column::{Batch, Column, Field, GroupByScalar, key_view};
use crate::expr::{AggregateExpr, ColumnExpr, aggregate_support};
use crate::grouping::{GroupTable, KeyView, empty_inputs};
use crate::kernels::{array_max, array_min};

verus! {

/// The state of a grouping pass: keys in first-seen order, and for each
/// group and aggregate expression, the values absorbed.
pub type GroupState = (Seq<KeyView>, Seq<Seq<Seq<int>>>);

/// The columns of `b` that the evaluators `es` refer to.
pub open spec fn referenced(es: Seq<ColumnExpr>, b: Batch) -> Seq<Column> {
    Seq::new(es.len(), |i: int| b.columns@[es[i].index as int])
}

/// The argument evaluators of the aggregate expressions.
pub open spec fn args_of(aggr: Seq<AggregateExpr>) -> Seq<ColumnExpr> {
    Seq::new(aggr.len(), |j: int| aggr[j].arg)
}

/// The group key of `row`: one scalar per group column.
pub open spec fn row_key(cols: Seq<Column>, row: int) -> KeyView {
    Seq::new(cols.len(), |c: int| cols[c].key_at(row))
}

/// The aggregate arguments of `row`: one value per argument column.
pub open spec fn row_values(cols: Seq<Column>, row: int) -> Seq<int> {
    Seq::new(cols.len(), |j: int| cols[j].int_at(row))
}

/// Where key `k` stands, or where it will be added.
pub open spec fn group_pos(keys: Seq<KeyView>, k: KeyView) -> int {
    if keys.contains(k) {
        choose|i: int| 0 <= i < keys.len() && keys[i] == k
    } else {
        keys.len() as int
    }
}

/// One row joins its group, which is created empty if its key is new, and
/// each of the group's aggregates absorbs the row's argument value.
pub open spec fn group_step(st: GroupState, k: KeyView, vals: Seq<int>) -> GroupState {
    let keys = if st.0.contains(k) { st.0 } else { st.0.push(k) };
    let base = if st.0.contains(k) { st.1 } else { st.1.push(empty_inputs(vals.len())) };
    let g = group_pos(st.0, k);
    (keys, base.update(g, Seq::new(vals.len(), |j: int| base[g][j].push(vals[j]))))
}

/// The first `n` rows, in order, each taken by `group_step`.
pub open spec fn group_rows(st: GroupState, gcols: Seq<Column>, acols: Seq<Column>, n: nat) -> GroupState
    decreases n,
{
    if n == 0 {
        st
    } else {
        group_step(group_rows(st, gcols, acols, (n - 1) as nat), row_key(gcols, n - 1), row_values(acols, n - 1))
    }
}

pub open spec fn type_tag(t: DataType) -> int {
    match t {
        DataType::Boolean => 0,
        DataType::Int32 => 1,
        DataType::Int64 => 2,
        DataType::Utf8 => 3,
        DataType::Float64 => 4,
    }
}

/// Every key has one scalar per group expression, of the declared type.
pub open spec fn keys_typed(keys: Seq<KeyView>, group_expr: Seq<ColumnExpr>) -> bool {
    forall|g: int| 0 <= g < keys.len() ==> {
        &&& (#[trigger] keys[g]).len() == group_expr.len()
        &&& forall|c: int| 0 <= c < group_expr.len() ==> (#[trigger] keys[g][c]).0 == type_tag(group_expr[c].data_type)
    }
}

/// Every group has absorbed at least one value in each aggregate.
pub open spec fn inputs_nonempty(inputs: Seq<Seq<Seq<int>>>, n: nat) -> bool {
    forall|g: int, j: int| 0 <= g < inputs.len() && 0 <= j < n ==> (#[trigger] inputs[g][j]).len() > 0
}

pub proof fn lemma_same_column_rows(a: Column, b: Column, row: int)
    requires
        a.same_as(&b),
        0 <= row < a.spec_len(),
    ensures
        a.key_at(row) == b.key_at(row),
        a.int_at(row) == b.int_at(row),
        a.spec_len() == b.spec_len(),
{
    match (a, b) {
        (Column::Utf8(x), Column::Utf8(y)) => {
            assert(x@.map_values(|s: String| s@)[row] == y@.map_values(|s: String| s@)[row]);
            assert(x@.map_values(|s: String| s@).len() == y@.map_values(|s: String| s@).len());
        },
        _ => {},
    }
}

/// Why a group expression cannot be evaluated over `b`, if it cannot.
pub open spec fn group_fails(e: ColumnExpr, b: Batch) -> Option<ExecutionError> {
    if e.data_type is Float64 {
        Some(ExecutionError::UnsupportedType)
    } else if !e.evaluates_on(&b) {
        Some(e.error_on(&b))
    } else {
        None
    }
}

/// Why an aggregate expression cannot be evaluated over `b`, if it cannot.
pub open spec fn aggr_fails(a: AggregateExpr, b: Batch) -> Option<ExecutionError> {
    match aggregate_support(a.func, a.arg.data_type, a.output) {
        Err(e) => Some(e),
        Ok(_) => if !a.arg.evaluates_on(&b) {
            Some(a.arg.error_on(&b))
        } else {
            None
        },
    }
}

/// The error of the first group expression, then of the first aggregate
/// expression, that cannot be evaluated over `b`.
#[verifier::opaque]
pub open spec fn batch_error(group_expr: Seq<ColumnExpr>, aggr: Seq<AggregateExpr>, b: Batch) -> Option<ExecutionError> {
    if exists|i: int| 0 <= i < group_expr.len() && (#[trigger] group_fails(group_expr[i], b)) is Some {
        let i = choose|i: int| 0 <= i < group_expr.len() && (#[trigger] group_fails(group_expr[i], b)) is Some
            && forall|t: int| 0 <= t < i ==> (#[trigger] group_fails(group_expr[t], b)) is None;
        group_fails(group_expr[i], b)
    } else if exists|j: int| 0 <= j < aggr.len() && (#[trigger] aggr_fails(aggr[j], b)) is Some {
        let j = choose|j: int| 0 <= j < aggr.len() && (#[trigger] aggr_fails(aggr[j], b)) is Some
            && forall|t: int| 0 <= t < j ==> (#[trigger] aggr_fails(aggr[t], b)) is None;
        aggr_fails(aggr[j], b)
    } else {
        None
    }
}

proof fn lemma_first_group_error(ge: Seq<ColumnExpr>, ag: Seq<AggregateExpr>, b: Batch, i: int)
    requires
        0 <= i < ge.len(),
        group_fails(ge[i], b) is Some,
        forall|t: int| 0 <= t < i ==> (#[trigger] group_fails(ge[t], b)) is None,
    ensures
        batch_error(ge, ag, b) == group_fails(ge[i], b),
{
    reveal(batch_error);
    let ci = choose|ci: int| 0 <= ci < ge.len() && (#[trigger] group_fails(ge[ci], b)) is Some
        && forall|t: int| 0 <= t < ci ==> (#[trigger] group_fails(ge[t], b)) is None;
    if ci > i {
        assert(group_fails(ge[i], b) is None);
    }
}

proof fn lemma_first_aggr_error(ge: Seq<ColumnExpr>, ag: Seq<AggregateExpr>, b: Batch, j: int)
    requires
        forall|t: int| 0 <= t < ge.len() ==> (#[trigger] group_fails(ge[t], b)) is None,
        0 <= j < ag.len(),
        aggr_fails(ag[j], b) is Some,
        forall|t: int| 0 <= t < j ==> (#[trigger] aggr_fails(ag[t], b)) is None,
    ensures
        batch_error(ge, ag, b) == aggr_fails(ag[j], b),
{
    reveal(batch_error);
    let cj = choose|cj: int| 0 <= cj < ag.len() && (#[trigger] aggr_fails(ag[cj], b)) is Some
        && forall|t: int| 0 <= t < cj ==> (#[trigger] aggr_fails(ag[t], b)) is None;
    if cj > j {
        assert(aggr_fails(ag[j], b) is None);
    }
}

/// Aggregation without grouping: a non-empty batch feeds every value of
/// each argument column to the single group, created with the empty key.
/// Input without any row creates no group, so its result has no row:
/// columns here hold no nulls, so MIN, MAX and SUM of nothing have no
/// value to show.
pub open spec fn free_step(st: GroupState, acols: Seq<Column>, n: nat) -> GroupState {
    if n == 0 {
        st
    } else {
        let base: GroupState = if st.0.len() == 0 {
            (seq![Seq::<(int, int, Seq<char>)>::empty()], seq![empty_inputs(acols.len())])
        } else {
            st
        };
        (base.0, base.1.update(0, Seq::new(acols.len(), |j: int| base.1[0][j] + acols[j].int_values())))
    }
}

/// Aggregation without grouping over one non-empty batch, from a fresh
/// state, gives a single group whose value list `j` is exactly the values
/// of argument column `j`: its MIN is their minimum, its MAX their maximum.
pub proof fn lemma_free_single_batch(acols: Seq<Column>, n: nat, j: int)
    requires
        n > 0,
        0 <= j < acols.len(),
    ensures
        free_step((Seq::<KeyView>::empty(), Seq::<Seq<Seq<int>>>::empty()), acols, n).0.len() == 1,
        free_step((Seq::<KeyView>::empty(), Seq::<Seq<Seq<int>>>::empty()), acols, n).1[0][j] == acols[j].int_values(),
{
    let inputs = seq![empty_inputs(acols.len())];
    assert(inputs[0][j] == Seq::<int>::empty());
    assert(Seq::<int>::empty() + acols[j].int_values() =~= acols[j].int_values());
}

/// The grouping state after `b` has been absorbed into `st`.
pub open spec fn absorb_batch(st: GroupState, group_expr: Seq<ColumnExpr>, aggr: Seq<AggregateExpr>, b: Batch) -> GroupState {
    if group_expr.len() == 0 {
        free_step(st, referenced(args_of(aggr), b), b.num_rows as nat)
    } else {
        group_rows(st, referenced(group_expr, b), referenced(args_of(aggr), b), b.num_rows as nat)
    }
}

/// Evaluates each group expression, stopping at the first that fails.
fn evaluate_groups(es: &Vec<ColumnExpr>, b: &Batch) -> (r: Result<Vec<Column>, ExecutionError>)
    requires
        b.wf(),
    ensures
        r is Ok <==> forall|i: int| 0 <= i < es@.len() ==> (#[trigger] group_fails(es@[i], *b)) is None,
        r matches Err(e) ==> exists|i: int| 0 <= i < es@.len() && group_fails(es@[i], *b) == Some(e)
            && forall|t: int| 0 <= t < i ==> (#[trigger] group_fails(es@[t], *b)) is None,
        r matches Ok(cols) ==> cols@.len() == es@.len() && forall|i: int| 0 <= i < es@.len() ==> {
            &&& (#[trigger] cols@[i]).same_as(&referenced(es@, *b)[i])
            &&& cols@[i].spec_len() == b.num_rows
            &&& cols@[i].spec_data_type() == es@[i].data_type
        },
{
    let mut out: Vec<Column> = Vec::new();
    let mut i: usize = 0;
    while i < es.len()
        invariant
            b.wf(),
            i <= es@.len(),
            out@.len() == i,
            forall|t: int| 0 <= t < i ==> (#[trigger] group_fails(es@[t], *b)) is None,
            forall|t: int| 0 <= t < i ==> {
                &&& (#[trigger] out@[t]).same_as(&referenced(es@, *b)[t])
                &&& out@[t].spec_len() == b.num_rows
                &&& out@[t].spec_data_type() == es@[t].data_type
            },
        decreases es@.len() - i,
    {
        if es[i].data_type == DataType::Float64 {
            assert(group_fails(es@[i as int], *b) == Some(ExecutionError::UnsupportedType));
            return Err(ExecutionError::UnsupportedType);
        }
        match es[i].evaluate(b) {
            Ok(c) => {
                out.push(c);
            },
            Err(e) => {
                assert(group_fails(es@[i as int], *b) == Some(e));
                return Err(e);
            },
        }
        i = i + 1;
    }
    Ok(out)
}

/// Evaluates each aggregate argument, stopping at the first aggregate that
/// is unsupported or whose argument fails.
fn evaluate_args(aggr: &Vec<AggregateExpr>, b: &Batch) -> (r: Result<Vec<Column>, ExecutionError>)
    requires
        b.wf(),
    ensures
        r is Ok <==> forall|j: int| 0 <= j < aggr@.len() ==> (#[trigger] aggr_fails(aggr@[j], *b)) is None,
        r matches Err(e) ==> exists|j: int| 0 <= j < aggr@.len() && aggr_fails(aggr@[j], *b) == Some(e)
            && forall|t: int| 0 <= t < j ==> (#[trigger] aggr_fails(aggr@[t], *b)) is None,
        r matches Ok(cols) ==> cols@.len() == aggr@.len() && forall|j: int| 0 <= j < aggr@.len() ==> {
            &&& (#[trigger] cols@[j]).same_as(&referenced(args_of(aggr@), *b)[j])
            &&& cols@[j].spec_len() == b.num_rows
            &&& cols@[j].spec_data_type() == aggr@[j].arg.data_type
        },
{
    let mut out: Vec<Column> = Vec::new();
    let mut j: usize = 0;
    while j < aggr.len()
        invariant
            b.wf(),
            j <= aggr@.len(),
            out@.len() == j,
            forall|t: int| 0 <= t < j ==> (#[trigger] aggr_fails(aggr@[t], *b)) is None,
            forall|t: int| 0 <= t < j ==> {
                &&& (#[trigger] out@[t]).same_as(&referenced(args_of(aggr@), *b)[t])
                &&& out@[t].spec_len() == b.num_rows
                &&& out@[t].spec_data_type() == aggr@[t].arg.data_type
            },
        decreases aggr@.len() - j,
    {
        match aggr[j].check_support() {
            Err(e) => {
                assert(aggr_fails(aggr@[j as int], *b) == Some(e));
                return Err(e);
            },
            Ok(_) => {},
        }
        match aggr[j].arg.evaluate(b) {
            Ok(c) => {
                out.push(c);
            },
            Err(e) => {
                assert(aggr_fails(aggr@[j as int], *b) == Some(e));
                return Err(e);
            },
        }
        j = j + 1;
    }
    Ok(out)
}

/// Rows whose keys and argument values agree are grouped alike.
proof fn lemma_group_rows_congruent(st: GroupState, g1: Seq<Column>, a1: Seq<Column>, g2: Seq<Column>, a2: Seq<Column>, n: nat)
    requires
        forall|row: int| 0 <= row < n ==> row_key(g1, row) == row_key(g2, row) && row_values(a1, row) == row_values(a2, row),
    ensures
        group_rows(st, g1, a1, n) == group_rows(st, g2, a2, n),
    decreases n,
{
    if n > 0 {
        lemma_group_rows_congruent(st, g1, a1, g2, a2, (n - 1) as nat);
        assert(row_key(g1, n - 1) == row_key(g2, n - 1));
    }
}

/// Columns with the same values give the same keys and argument values.
proof fn lemma_rows_of_same_columns(c1: Seq<Column>, c2: Seq<Column>, n: nat)
    requires
        c1.len() == c2.len(),
        forall|i: int| 0 <= i < c1.len() ==> (#[trigger] c1[i]).same_as(&c2[i]) && c1[i].spec_len() == n,
    ensures
        forall|row: int| 0 <= row < n ==> row_key(c1, row) == row_key(c2, row) && row_values(c1, row) == row_values(c2, row),
{
    assert forall|row: int| 0 <= row < n implies row_key(c1, row) == row_key(c2, row) && row_values(c1, row) == row_values(c2, row) by {
        assert forall|i: int| 0 <= i < c1.len() implies c1[i].key_at(row) == c2[i].key_at(row) && c1[i].int_at(row) == c2[i].int_at(row) by {
            lemma_same_column_rows(c1[i], c2[i], row);
        }
        assert(row_key(c1, row) =~= row_key(c2, row));
        assert(row_values(c1, row) =~= row_values(c2, row));
    }
}

/// The group key of `row`.
fn build_key(gcols: &Vec<Column>, row: usize) -> (r: Vec<GroupByScalar>)
    requires
        forall|c: int| 0 <= c < gcols@.len() ==> row < (#[trigger] gcols@[c]).spec_len(),
    ensures
        key_view(r@) == row_key(gcols@, row as int),
{
    let mut key: Vec<GroupByScalar> = Vec::new();
    let mut c: usize = 0;
    while c < gcols.len()
        invariant
            c <= gcols@.len(),
            forall|t: int| 0 <= t < gcols@.len() ==> row < (#[trigger] gcols@[t]).spec_len(),
            key@.len() == c,
            forall|t: int| 0 <= t < c ==> (#[trigger] key@[t])@ == gcols@[t].key_at(row as int),
        decreases gcols@.len() - c,
    {
        key.push(gcols[c].key_scalar(row));
        c = c + 1;
    }
    assert(key_view(key@) =~= row_key(gcols@, row as int));
    key
}

/// Room for `n` more values in every value list of `st`, with `n` itself
/// below the largest count.
pub open spec fn room_for(st: GroupState, n: nat) -> bool {
    &&& n < u64::MAX
    &&& forall|g: int, j: int| 0 <= g < st.1.len() && 0 <= j < st.1[g].len() ==> #[trigger] st.1[g][j].len() + n < u64::MAX
}

/// How many values list `j` of group `g` held in `start`.
pub open spec fn start_len(start: GroupState, g: int, j: int) -> int {
    if g < start.1.len() { start.1[g][j].len() as int } else { 0 }
}

/// Groups each of the first `n` rows by its key and feeds its argument
/// values to its group's accumulators.
fn absorb_grouped(
    table: &mut GroupTable,
    gcols: &Vec<Column>,
    acols: &Vec<Column>,
    n: usize,
    aggr: &Vec<AggregateExpr>,
    group_expr: Ghost<Seq<ColumnExpr>>,
) -> (r: Result<(), ExecutionError>)
    requires
        old(table).wf(aggr@),
        keys_typed(old(table).keys(), group_expr@),
        inputs_nonempty(old(table).inputs(), aggr@.len()),
        gcols@.len() == group_expr@.len(),
        forall|c: int| 0 <= c < gcols@.len() ==> (#[trigger] gcols@[c]).spec_len() == n
            && gcols@[c].spec_data_type() == group_expr@[c].data_type,
        acols@.len() == aggr@.len(),
        forall|j: int| 0 <= j < acols@.len() ==> (#[trigger] acols@[j]).spec_len() == n,
    ensures
        final(table).wf(aggr@),
        r is Ok ==> keys_typed(final(table).keys(), group_expr@),
        r is Ok ==> inputs_nonempty(final(table).inputs(), aggr@.len()),
        r is Ok ==> (final(table).keys(), final(table).inputs())
            == group_rows((old(table).keys(), old(table).inputs()), gcols@, acols@, n as nat),
        r is Err ==> r == Err::<(), ExecutionError>(ExecutionError::Overflow),
        room_for((old(table).keys(), old(table).inputs()), n as nat) ==> r is Ok,
{
    let ghost start: GroupState = (table.keys(), table.inputs());
    let ghost na = aggr@.len();
    proof {
        table.lemma_shape(aggr@);
    }
    let mut row: usize = 0;
    while row < n
        invariant
            row <= n,
            table.wf(aggr@),
            keys_typed(table.keys(), group_expr@),
            inputs_nonempty(table.inputs(), na),
            na == aggr@.len(),
            gcols@.len() == group_expr@.len(),
            forall|c: int| 0 <= c < gcols@.len() ==> (#[trigger] gcols@[c]).spec_len() == n
                && gcols@[c].spec_data_type() == group_expr@[c].data_type,
            acols@.len() == aggr@.len(),
            forall|j: int| 0 <= j < acols@.len() ==> (#[trigger] acols@[j]).spec_len() == n,
            (table.keys(), table.inputs()) == group_rows(start, gcols@, acols@, row as nat),
            start == (old(table).keys(), old(table).inputs()),
            start.1.len() <= table.inputs().len(),
            forall|gg: int| 0 <= gg < start.1.len() ==> (#[trigger] start.1[gg]).len() == na,
            forall|gg: int, t: int| 0 <= gg < table.inputs().len() && 0 <= t < na ==>
                (#[trigger] table.inputs()[gg][t]).len() <= start_len(start, gg, t) + row,
        decreases n - row,
    {
        let ghost st: GroupState = (table.keys(), table.inputs());
        let ghost k = row_key(gcols@, row as int);
        let ghost vals = row_values(acols@, row as int);
        let ghost next = group_step(st, k, vals);
        let key = build_key(gcols, row);
        let g = table.find_or_insert(key, aggr);
        proof {
            if st.0.contains(k) {
                let ci = group_pos(st.0, k);
                table.lemma_keys_distinct(aggr@, ci, g as int);
            }
            assert(g as int == group_pos(st.0, k));
            assert(table.keys() == next.0);
            assert(keys_typed(table.keys(), group_expr@)) by {
                if !st.0.contains(k) {
                    assert forall|gg: int| 0 <= gg < table.keys().len() implies {
                        &&& (#[trigger] table.keys()[gg]).len() == group_expr@.len()
                        &&& forall|c: int| 0 <= c < group_expr@.len() ==> (#[trigger] table.keys()[gg][c]).0 == type_tag(group_expr@[c].data_type)
                    } by {
                        if gg == st.0.len() {
                            assert(table.keys()[gg] == k);
                        } else {
                            assert(table.keys()[gg] == st.0[gg]);
                        }
                    }
                }
            }
        }
        let ghost base = table.inputs();
        proof {
            table.lemma_shape(aggr@);
            assert forall|gg: int, t: int| 0 <= gg < base.len() && gg != g && 0 <= t < na implies (#[trigger] base[gg][t]).len() > 0 by {
                if gg < st.1.len() {
                    assert(base[gg] == st.1[gg]);
                }
            }
            assert forall|gg: int, t: int| 0 <= gg < base.len() && 0 <= t < na implies
                (#[trigger] base[gg][t]).len() <= start_len(start, gg, t) + row by {
                if gg < st.1.len() {
                    assert(base[gg] == st.1[gg]);
                } else {
                    assert(base[gg] == empty_inputs(vals.len()));
                }
            }
        }
        let mut j: usize = 0;
        proof {
            assert(Seq::new(na, |t: int| if t < j { base[g as int][t].push(vals[t]) } else { base[g as int][t] }) =~= base[g as int]);
            assert(base.update(g as int, base[g as int]) =~= base);
        }
        while j < aggr.len()
            invariant
                j <= na,
                na == aggr@.len(),
                acols@.len() == na,
                row < n,
                forall|t: int| 0 <= t < acols@.len() ==> (#[trigger] acols@[t]).spec_len() == n,
                vals == row_values(acols@, row as int),
                table.wf(aggr@),
                g < table.keys().len(),
                table.keys() == next.0,
                base.len() == table.keys().len(),
                base[g as int].len() == na,
                forall|gg: int, t: int| 0 <= gg < base.len() && gg != g && 0 <= t < na ==> (#[trigger] base[gg][t]).len() > 0,
                table.inputs() == base.update(g as int, Seq::new(na, |t: int| if t < j { base[g as int][t].push(vals[t]) } else { base[g as int][t] })),
                start == (old(table).keys(), old(table).inputs()),
                start.1.len() <= base.len(),
                forall|gg: int| 0 <= gg < start.1.len() ==> (#[trigger] start.1[gg]).len() == na,
                forall|gg: int, t: int| 0 <= gg < base.len() && 0 <= t < na ==>
                    (#[trigger] base[gg][t]).len() <= start_len(start, gg, t) + row,
            decreases na - j,
        {
            assert(table.inputs()[g as int][j as int] == base[g as int][j as int]);
            let v = acols[j].int_value(row);
            let ghost before = table.inputs();
            match table.feed(g, j, v, aggr) {
                Ok(_) => {},
                Err(e) => {
                    proof {
                        assert(base[g as int][j as int].len() <= start_len(start, g as int, j as int) + row);
                        if (g as int) < start.1.len() {
                            assert(start.1[g as int].len() == na);
                            assert(start.1[g as int][j as int].len() + n >= u64::MAX);
                        }
                        assert(!room_for(start, n as nat));
                    }
                    return Err(e);
                },
            }
            j = j + 1;
            assert(table.inputs()[g as int] =~= Seq::new(na, |t: int| if t < j { base[g as int][t].push(vals[t]) } else { base[g as int][t] }));
            assert(table.inputs() =~= base.update(g as int, Seq::new(na, |t: int| if t < j { base[g as int][t].push(vals[t]) } else { base[g as int][t] })));
        }
        proof {
            let sbase = if st.0.contains(k) { st.1 } else { st.1.push(empty_inputs(vals.len())) };
            assert(vals.len() == na);
            assert(base == sbase);
            assert(table.inputs()[g as int] =~= Seq::new(vals.len(), |t: int| sbase[g as int][t].push(vals[t])));
            assert(table.inputs() =~= next.1);
            assert(inputs_nonempty(table.inputs(), na)) by {
                assert forall|gg: int, t: int| 0 <= gg < table.inputs().len() && 0 <= t < na implies (#[trigger] table.inputs()[gg][t]).len() > 0 by {
                    if gg != g {
                        assert(table.inputs()[gg] == base[gg]);
                    }
                }
            }
            assert forall|gg: int, t: int| 0 <= gg < table.inputs().len() && 0 <= t < na implies
                (#[trigger] table.inputs()[gg][t]).len() <= start_len(start, gg, t) + row + 1 by {
                if gg != g {
                    assert(table.inputs()[gg] == base[gg]);
                }
            }
        }
        row = row + 1;
    }
    Ok(())
}

proof fn lemma_int_values_in_range(c: Column)
    ensures
        in_i64_range(c.int_values()),
{
    assert forall|i: int| 0 <= i < c.int_values().len() implies i64::MIN <= #[trigger] c.int_values()[i] <= i64::MAX by {
        match c {
            Column::Int32(v) => {},
            Column::Int64(v) => {},
            _ => {},
        }
    }
}

/// Feeds every value of each argument column to the single group of an
/// aggregation without grouping, creating it on the first non-empty batch.
fn absorb_free(table: &mut GroupTable, acols: &Vec<Column>, n: usize, aggr: &Vec<AggregateExpr>) -> (r: Result<(), ExecutionError>)
    requires
        old(table).wf(aggr@),
        keys_typed(old(table).keys(), Seq::<ColumnExpr>::empty()),
        inputs_nonempty(old(table).inputs(), aggr@.len()),
        acols@.len() == aggr@.len(),
        forall|j: int| 0 <= j < acols@.len() ==> (#[trigger] acols@[j]).spec_len() == n,
        forall|j: int| 0 <= j < acols@.len() && !(aggr@[j].func is Count) ==> crate::kernels::is_integer_column(#[trigger] &acols@[j]),
    ensures
        final(table).wf(aggr@),
        r is Ok ==> keys_typed(final(table).keys(), Seq::<ColumnExpr>::empty()),
        r is Ok ==> inputs_nonempty(final(table).inputs(), aggr@.len()),
        r is Ok ==> (final(table).keys(), final(table).inputs())
            == free_step((old(table).keys(), old(table).inputs()), acols@, n as nat),
        r is Err ==> r == Err::<(), ExecutionError>(ExecutionError::Overflow),
        room_for((old(table).keys(), old(table).inputs()), n as nat) ==> r is Ok,
{
    if n == 0 {
        return Ok(());
    }
    let ghost st: GroupState = (table.keys(), table.inputs());
    proof {
        table.lemma_shape(aggr@);
    }
    let ghost na = aggr@.len();
    let ghost empty_key = Seq::<(int, int, Seq<char>)>::empty();
    let key: Vec<GroupByScalar> = Vec::new();
    assert(key_view(key@) =~= empty_key);
    proof {
        if st.0.len() > 0 {
            assert(st.0[0] =~= empty_key);
        }
    }
    let g = table.find_or_insert(key, aggr);
    let ghost sbase: GroupState = if st.0.len() == 0 {
        (seq![empty_key], seq![empty_inputs(acols@.len())])
    } else {
        st
    };
    proof {
        table.lemma_shape(aggr@);
        if st.0.len() > 0 {
            assert(st.0.contains(empty_key));
            assert(table.keys()[0] =~= empty_key);
            table.lemma_keys_distinct(aggr@, 0, g as int);
        } else {
            assert(!st.0.contains(empty_key));
            assert(table.keys() =~= sbase.0);
            assert(table.inputs() =~= sbase.1);
        }
        assert(g == 0);
        assert(keys_typed(table.keys(), Seq::<ColumnExpr>::empty())) by {
            assert forall|gg: int| 0 <= gg < table.keys().len() implies (#[trigger] table.keys()[gg]).len() == 0 by {
                if st.0.len() > 0 {
                    assert(table.keys()[gg] == st.0[gg]);
                }
            }
        }
    }
    let ghost base = table.inputs();
    let ghost keys0 = table.keys();
    assert(base == sbase.1);
    assert(keys0 == sbase.0);
    let mut j: usize = 0;
    proof {
        assert(Seq::new(na, |t: int| if t < j { base[0][t] + acols@[t].int_values() } else { base[0][t] }) =~= base[0]);
        assert(base.update(0, base[0]) =~= base);
        if room_for(st, n as nat) {
            assert forall|t: int| 0 <= t < na implies #[trigger] base[0][t].len() + n < u64::MAX by {
                if st.0.len() > 0 {
                    assert(base[0] == st.1[0]);
                    assert(st.1[0].len() == na);
                } else {
                    assert(base[0] == empty_inputs(acols@.len()));
                }
            }
        }
    }
    while j < aggr.len()
        invariant
            j <= na,
            na == aggr@.len(),
            acols@.len() == na,
            n > 0,
            forall|t: int| 0 <= t < acols@.len() ==> (#[trigger] acols@[t]).spec_len() == n,
            forall|t: int| 0 <= t < acols@.len() && !(aggr@[t].func is Count) ==> crate::kernels::is_integer_column(#[trigger] &acols@[t]),
            table.wf(aggr@),
            g == 0,
            table.keys() == keys0,
            keys0.len() > 0,
            base.len() == table.keys().len(),
            base[0].len() == na,
            table.inputs() == base.update(0, Seq::new(na, |t: int| if t < j { base[0][t] + acols@[t].int_values() } else { base[0][t] })),
            room_for(st, n as nat) ==> forall|t: int| 0 <= t < na ==> #[trigger] base[0][t].len() + n < u64::MAX,
            st == (old(table).keys(), old(table).inputs()),
        decreases na - j,
    {
        let ghost before = table.inputs();
        assert(before[0][j as int] == base[0][j as int]);
        let ghost vals = acols@[j as int].int_values();
        proof {
            lemma_int_values_in_range(acols@[j as int]);
        }
        match aggr[j].func {
            AggregateType::Min | AggregateType::Max => {
                let found = if aggr[j].func == AggregateType::Min {
                    array_min(&acols[j])
                } else {
                    array_max(&acols[j])
                };
                let m = match found {
                    Ok(Some(m)) => m,
                    _ => {
                        proof {
                            assert(false);
                        }
                        return Err(ExecutionError::Overflow);
                    },
                };
                match table.feed_extreme(g, j, Ghost(vals), acols[j].len(), m, aggr) {
                    Ok(_) => {},
                    Err(e) => {
                        proof {
                            if room_for(st, n as nat) {
                                assert(base[0][j as int].len() + n < u64::MAX);
                                assert(before[0][j as int].len() + n < u64::MAX);
                            }
                        }
                        return Err(e);
                    },
                }
            },
            _ => {
                let mut row: usize = 0;
                let col = &acols[j];
                proof {
                    assert(before[0][j as int] + vals.subrange(0, 0) =~= before[0][j as int]);
                    assert(before[0].update(j as int, before[0][j as int]) =~= before[0]);
                    assert(before.update(0, before[0]) =~= before);
                }
                while row < n
                    invariant
                        row <= n,
                        n == col.spec_len(),
                        vals == col.int_values(),
                        table.wf(aggr@),
                        j < na,
                        na == aggr@.len(),
                        g == 0,
                        table.keys() == keys0,
                        keys0.len() > 0,
                        before.len() == table.keys().len(),
                        before[0].len() == na,
                        table.inputs() == before.update(0, before[0].update(j as int, before[0][j as int] + vals.subrange(0, row as int))),
                        room_for(st, n as nat) ==> before[0][j as int].len() + n < u64::MAX,
                        st == (old(table).keys(), old(table).inputs()),
                    decreases n - row,
                {
                    let ghost mid = table.inputs();
                    match table.feed(g, j, col.int_value(row), aggr) {
                        Ok(_) => {},
                        Err(e) => {
                            proof {
                                assert(mid[0][j as int] == before[0][j as int] + vals.subrange(0, row as int));
                                if room_for(st, n as nat) {
                                    assert(mid[0][j as int].len() + 1 < u64::MAX);
                                }
                            }
                            return Err(e);
                        },
                    }
                    proof {
                        assert(before[0][j as int] + vals.subrange(0, row + 1) =~= (before[0][j as int] + vals.subrange(0, row as int)).push(vals[row as int]));
                        assert(table.inputs()[0] =~= before[0].update(j as int, before[0][j as int] + vals.subrange(0, row + 1)));
                        assert(table.inputs() =~= before.update(0, before[0].update(j as int, before[0][j as int] + vals.subrange(0, row + 1))));
                    }
                    row = row + 1;
                }
                proof {
                    assert(vals.subrange(0, n as int) =~= vals);
                    assert(before[0].update(j as int, before[0][j as int]) =~= before[0]);
                    assert(before.update(0, before[0]) =~= before);
                }
            },
        }
        j = j + 1;
        proof {
            assert(table.inputs()[0] =~= Seq::new(na, |t: int| if t < j { base[0][t] + acols@[t].int_values() } else { base[0][t] }));
            assert(table.inputs() =~= base.update(0, Seq::new(na, |t: int| if t < j { base[0][t] + acols@[t].int_values() } else { base[0][t] })));
        }
    }
    proof {
        assert(table.inputs()[0] =~= Seq::new(acols@.len(), |t: int| sbase.1[0][t] + acols@[t].int_values()));
        assert(table.inputs() =~= free_step(st, acols@, n as nat).1);
        table.lemma_shape(aggr@);
        assert(inputs_nonempty(table.inputs(), na)) by {
            assert forall|gg: int, t: int| 0 <= gg < table.inputs().len() && 0 <= t < na implies (#[trigger] table.inputs()[gg][t]).len() > 0 by {
                if gg != 0 {
                    assert(table.inputs()[gg] == st.1[gg]);
                } else {
                    assert(acols@[t].int_values().len() == n);
                }
            }
        }
    }
    Ok(())
}

proof fn lemma_same_column_len(a: Column, b: Column)
    requires
        a.same_as(&b),
    ensures
        a.spec_len() == b.spec_len(),
{
    match (a, b) {
        (Column::Utf8(x), Column::Utf8(y)) => {
            assert(x@.map_values(|s: String| s@).len() == y@.map_values(|s: String| s@).len());
        },
        _ => {},
    }
}

proof fn lemma_free_step_congruent(st: GroupState, a1: Seq<Column>, a2: Seq<Column>, n: nat)
    requires
        a1.len() == a2.len(),
        forall|i: int| 0 <= i < a1.len() ==> (#[trigger] a1[i]).same_as(&a2[i]) && a1[i].spec_len() == n,
    ensures
        free_step(st, a1, n) == free_step(st, a2, n),
{
    assert forall|j: int| 0 <= j < a1.len() implies (#[trigger] a1[j]).int_values() == a2[j].int_values() by {
        lemma_same_column_len(a1[j], a2[j]);
        assert forall|row: int| 0 <= row < n implies a1[j].int_at(row) == a2[j].int_at(row) by {
            lemma_same_column_rows(a1[j], a2[j], row);
        }
        assert(a1[j].int_values() =~= a2[j].int_values());
    }
    if n > 0 {
        let base: GroupState = if st.0.len() == 0 {
            (seq![Seq::<(int, int, Seq<char>)>::empty()], seq![empty_inputs(a1.len())])
        } else {
            st
        };
        assert(Seq::new(a1.len(), |j: int| base.1[0][j] + a1[j].int_values())
            =~= Seq::new(a2.len(), |j: int| base.1[0][j] + a2[j].int_values()));
    }
}

/// Whether `v` can be stored in a column of type `t`.
pub open spec fn fits(t: DataType, v: int) -> bool {
    match t {
        DataType::Int32 => i32::MIN <= v <= i32::MAX,
        DataType::Int64 => i64::MIN <= v <= i64::MAX,
        _ => false,
    }
}

/// Column `c` of the group keys, one row per group.
fn key_column(table: &GroupTable, c: usize, dt: DataType, aggr: &Vec<AggregateExpr>, group_expr: Ghost<Seq<ColumnExpr>>) -> (r: Column)
    requires
        table.wf(aggr@),
        keys_typed(table.keys(), group_expr@),
        c < group_expr@.len(),
        group_expr@[c as int].data_type == dt,
        !(dt is Float64),
    ensures
        r.spec_len() == table.keys().len(),
        r.spec_data_type() == dt,
        forall|g: int| 0 <= g < table.keys().len() ==> (#[trigger] r.key_at(g)) == table.keys()[g][c as int],
{
    let n = table.len();
    let mut bools: Vec<bool> = Vec::new();
    let mut i32s: Vec<i32> = Vec::new();
    let mut i64s: Vec<i64> = Vec::new();
    let mut strs: Vec<String> = Vec::new();
    let mut g: usize = 0;
    while g < n
        invariant
            n == table.keys().len(),
            g <= n,
            keys_typed(table.keys(), group_expr@),
            c < group_expr@.len(),
            group_expr@[c as int].data_type == dt,
            !(dt is Float64),
            dt is Boolean ==> bools@.len() == g && forall|t: int| 0 <= t < g ==>
                (0int, if #[trigger] bools@[t] { 1int } else { 0int }, Seq::<char>::empty()) == table.keys()[t][c as int],
            dt is Int32 ==> i32s@.len() == g && forall|t: int| 0 <= t < g ==>
                (1int, #[trigger] i32s@[t] as int, Seq::<char>::empty()) == table.keys()[t][c as int],
            dt is Int64 ==> i64s@.len() == g && forall|t: int| 0 <= t < g ==>
                (2int, #[trigger] i64s@[t] as int, Seq::<char>::empty()) == table.keys()[t][c as int],
            dt is Utf8 ==> strs@.len() == g && forall|t: int| 0 <= t < g ==>
                (3int, 0int, (#[trigger] strs@[t])@) == table.keys()[t][c as int],
        decreases n - g,
    {
        let key = table.key(g);
        proof {
            assert(table.keys()[g as int].len() == group_expr@.len());
            assert(key_view(key@)[c as int] == key@[c as int]@);
            assert(table.keys()[g as int][c as int].0 == type_tag(dt));
        }
        match &key[c] {
            GroupByScalar::Boolean(b) => {
                bools.push(*b);
            },
            GroupByScalar::Int32(v) => {
                i32s.push(*v);
            },
            GroupByScalar::Int64(v) => {
                i64s.push(*v);
            },
            GroupByScalar::Utf8(v) => {
                strs.push(v.clone());
            },
        }
        g = g + 1;
    }
    match dt {
        DataType::Boolean => Column::Boolean(bools),
        DataType::Int32 => Column::Int32(i32s),
        DataType::Int64 => Column::Int64(i64s),
        _ => Column::Utf8(strs),
    }
}

/// Every result of aggregate `j` fits the aggregate's output type.
pub open spec fn results_fit(st: GroupState, aggr: Seq<AggregateExpr>, j: int) -> bool {
    forall|g: int| 0 <= g < st.1.len() ==> ((#[trigger] aggregate_of(aggr[j].func, st.1[g][j])) matches Some(v)
        && fits(aggr[j].spec_output_type(), v))
}

/// The results of aggregate `j`, one row per group; `Overflow` when one of
/// them does not fit the output type.
fn aggregate_column(table: &GroupTable, j: usize, aggr: &Vec<AggregateExpr>) -> (r: Result<Column, ExecutionError>)
    requires
        table.wf(aggr@),
        j < aggr@.len(),
        aggregate_support(aggr@[j as int].func, aggr@[j as int].arg.data_type, aggr@[j as int].output) is Ok,
    ensures
        r is Ok <==> results_fit((table.keys(), table.inputs()), aggr@, j as int),
        r is Err ==> r == Err::<Column, ExecutionError>(ExecutionError::Overflow),
        r matches Ok(col) ==> col.spec_len() == table.keys().len()
            && col.spec_data_type() == aggr@[j as int].spec_output_type()
            && forall|g: int| 0 <= g < table.keys().len() ==>
                Some(#[trigger] col.int_at(g)) == aggregate_of(aggr@[j as int].func, table.inputs()[g][j as int]),
{
    let n = table.len();
    let t = aggr[j].output_type();
    let ghost st: GroupState = (table.keys(), table.inputs());
    proof {
        table.lemma_shape(aggr@);
    }
    let mut i32s: Vec<i32> = Vec::new();
    let mut i64s: Vec<i64> = Vec::new();
    let mut g: usize = 0;
    while g < n
        invariant
            n == table.keys().len(),
            n == st.1.len(),
            st == (table.keys(), table.inputs()),
            table.wf(aggr@),
            j < aggr@.len(),
            g <= n,
            t == aggr@[j as int].spec_output_type(),
            t is Int32 || t is Int64,
            forall|u: int| 0 <= u < g ==> ((#[trigger] aggregate_of(aggr@[j as int].func, st.1[u][j as int])) matches Some(v)
                && fits(t, v)),
            t is Int32 ==> i32s@.len() == g && forall|u: int| 0 <= u < g ==>
                Some(#[trigger] i32s@[u] as int) == aggregate_of(aggr@[j as int].func, st.1[u][j as int]),
            t is Int64 ==> i64s@.len() == g && forall|u: int| 0 <= u < g ==>
                Some(#[trigger] i64s@[u] as int) == aggregate_of(aggr@[j as int].func, st.1[u][j as int]),
        decreases n - g,
    {
        let res = table.result(g, j, aggr);
        match res {
            Some(v) => {
                if t == DataType::Int32 && v >= i32::MIN as i128 && v <= i32::MAX as i128 {
                    i32s.push(v as i32);
                } else if t == DataType::Int64 && v >= i64::MIN as i128 && v <= i64::MAX as i128 {
                    i64s.push(v as i64);
                } else {
                    assert(!fits(t, aggregate_of(aggr@[j as int].func, st.1[g as int][j as int]).unwrap()));
                    return Err(ExecutionError::Overflow);
                }
            },
            None => {
                return Err(ExecutionError::Overflow);
            },
        }
        g = g + 1;
    }
    if t == DataType::Int32 {
        Ok(Column::Int32(i32s))
    } else {
        Ok(Column::Int64(i64s))
    }
}

/// What an operator hands back to the loop that drives it.
pub enum Pull {
    /// Pull the next batch from the input and hand it over.
    NeedInput,
    /// The single result batch of the pass.
    Output(Batch),
    /// The pass has ended; nothing more will come.
    Exhausted,
}

/// Aggregation over a stream of batches. The driving loop hands it each
/// pulled batch, then the end of the input; it answers with the one result
/// batch: one row per distinct group key, in first-seen order, group
/// columns first, then one column per aggregate expression. Aggregation
/// without grouping gives one row once any row arrived, and no row for
/// input without rows.
pub struct AggregateRelation {
    schema: Vec<Field>,
    group_expr: Vec<ColumnExpr>,
    aggr_expr: Vec<AggregateExpr>,
    table: GroupTable,
    seen: bool,
    done: bool,
}

/// The declared schema lists the group columns, then the aggregate
/// columns, each with the type it will have.
pub open spec fn schema_matches(schema: Seq<Field>, group_expr: Seq<ColumnExpr>, aggr: Seq<AggregateExpr>) -> bool {
    &&& schema.len() == group_expr.len() + aggr.len()
    &&& forall|c: int| 0 <= c < group_expr.len() ==> (#[trigger] schema[c]).data_type == group_expr[c].data_type
    &&& forall|j: int| 0 <= j < aggr.len() ==> (#[trigger] schema[group_expr.len() + j]).data_type == aggr[j].spec_output_type()
}

/// Why the result batch cannot be built at all, if it cannot: a group
/// expression of a type keys cannot hold, then the first unsupported
/// aggregate, then a schema that does not describe the output.
#[verifier::opaque]
pub open spec fn config_error(schema: Seq<Field>, group_expr: Seq<ColumnExpr>, aggr: Seq<AggregateExpr>) -> Option<ExecutionError> {
    if exists|c: int| 0 <= c < group_expr.len() && (#[trigger] group_expr[c]).data_type is Float64 {
        Some(ExecutionError::UnsupportedType)
    } else if exists|j: int| 0 <= j < aggr.len() && (#[trigger] aggregate_support(aggr[j].func, aggr[j].arg.data_type, aggr[j].output)) is Err {
        let j = choose|j: int| 0 <= j < aggr.len() && (#[trigger] aggregate_support(aggr[j].func, aggr[j].arg.data_type, aggr[j].output)) is Err
            && forall|t: int| 0 <= t < j ==> (#[trigger] aggregate_support(aggr[t].func, aggr[t].arg.data_type, aggr[t].output)) is Ok;
        match aggregate_support(aggr[j].func, aggr[j].arg.data_type, aggr[j].output) {
            Err(e) => Some(e),
            Ok(_) => None,
        }
    } else if !schema_matches(schema, group_expr, aggr) {
        Some(ExecutionError::SchemaMismatch)
    } else {
        None
    }
}

proof fn lemma_config_ok(schema: Seq<Field>, group_expr: Seq<ColumnExpr>, aggr: Seq<AggregateExpr>)
    requires
        config_error(schema, group_expr, aggr) is None,
    ensures
        forall|c: int| 0 <= c < group_expr.len() ==> !((#[trigger] group_expr[c]).data_type is Float64),
        forall|j: int| 0 <= j < aggr.len() ==> (#[trigger] aggregate_support(aggr[j].func, aggr[j].arg.data_type, aggr[j].output)) is Ok,
        schema_matches(schema, group_expr, aggr),
{
    reveal(config_error);
    if exists|j: int| 0 <= j < aggr.len() && (#[trigger] aggregate_support(aggr[j].func, aggr[j].arg.data_type, aggr[j].output)) is Err {
        let j0 = choose|j: int| 0 <= j < aggr.len() && (#[trigger] aggregate_support(aggr[j].func, aggr[j].arg.data_type, aggr[j].output)) is Err;
        lemma_first_unsupported(aggr, j0);
    }
}

/// Some aggregate is the first unsupported one.
proof fn lemma_first_unsupported(aggr: Seq<AggregateExpr>, j0: int)
    requires
        0 <= j0 < aggr.len(),
        aggregate_support(aggr[j0].func, aggr[j0].arg.data_type, aggr[j0].output) is Err,
    ensures
        exists|j: int| 0 <= j < aggr.len() && (#[trigger] aggregate_support(aggr[j].func, aggr[j].arg.data_type, aggr[j].output)) is Err
            && forall|t: int| 0 <= t < j ==> (#[trigger] aggregate_support(aggr[t].func, aggr[t].arg.data_type, aggr[t].output)) is Ok,
    decreases j0,
{
    if exists|t: int| 0 <= t < j0 && (#[trigger] aggregate_support(aggr[t].func, aggr[t].arg.data_type, aggr[t].output)) is Err {
        let t = choose|t: int| 0 <= t < j0 && (#[trigger] aggregate_support(aggr[t].func, aggr[t].arg.data_type, aggr[t].output)) is Err;
        lemma_first_unsupported(aggr, t);
    }
}

/// Each field of `out` has the name, type and nullability of the same
/// field of the declared `schema`.
pub open spec fn fields_match(out: Seq<Field>, schema: Seq<Field>) -> bool {
    &&& out.len() == schema.len()
    &&& forall|i: int| 0 <= i < schema.len() ==> (#[trigger] out[i]).name@ == schema[i].name@
        && out[i].data_type == schema[i].data_type && out[i].nullable == schema[i].nullable
}

/// The columns of the result batch of `st`: the key columns, then each
/// aggregate's results, one row per group, each of its declared type.
pub open spec fn columns_match(columns: Seq<Column>, group_expr: Seq<ColumnExpr>, aggr: Seq<AggregateExpr>, st: GroupState) -> bool {
    &&& columns.len() == group_expr.len() + aggr.len()
    &&& forall|i: int| 0 <= i < columns.len() ==> (#[trigger] columns[i]).spec_len() == st.0.len()
    &&& forall|c: int| 0 <= c < group_expr.len() ==> (#[trigger] columns[c]).spec_data_type() == group_expr[c].data_type
    &&& forall|j: int| 0 <= j < aggr.len() ==> (#[trigger] columns[group_expr.len() + j]).spec_data_type() == aggr[j].spec_output_type()
    &&& forall|g: int, c: int| 0 <= g < st.0.len() && 0 <= c < group_expr.len() ==>
        (#[trigger] columns[c].key_at(g)) == st.0[g][c]
    &&& forall|g: int, j: int| 0 <= g < st.0.len() && 0 <= j < aggr.len() ==>
        Some(#[trigger] columns[group_expr.len() + j].int_at(g)) == aggregate_of(aggr[j].func, st.1[g][j])
}

impl AggregateRelation {
    pub closed spec fn spec_schema(&self) -> Seq<Field> {
        self.schema@
    }

    pub closed spec fn spec_group_expr(&self) -> Seq<ColumnExpr> {
        self.group_expr@
    }

    pub closed spec fn spec_aggr_expr(&self) -> Seq<AggregateExpr> {
        self.aggr_expr@
    }

    /// The grouping state built from the batches absorbed so far.
    pub closed spec fn state(&self) -> GroupState {
        (self.table.keys(), self.table.inputs())
    }

    /// Whether a batch has been handed over in this pass.
    pub closed spec fn has_input(&self) -> bool {
        self.seen
    }

    pub closed spec fn is_done(&self) -> bool {
        self.done
    }

    pub closed spec fn wf(&self) -> bool {
        &&& self.table.wf(self.aggr_expr@)
        &&& keys_typed(self.table.keys(), self.group_expr@)
        &&& inputs_nonempty(self.table.inputs(), self.aggr_expr@.len())
    }

    /// The groups of the state have pairwise distinct keys: two rows share
    /// a group exactly when their keys are structurally equal.
    pub proof fn lemma_groups_distinct(&self, i: int, j: int)
        requires
            self.wf(),
            0 <= i < self.state().0.len(),
            0 <= j < self.state().0.len(),
        ensures
            self.state().0[i] == self.state().0[j] <==> i == j,
    {
        self.table.lemma_keys_distinct(self.aggr_expr@, i, j);
    }

    /// An operator that has absorbed nothing yet.
    pub fn new(schema: Vec<Field>, group_expr: Vec<ColumnExpr>, aggr_expr: Vec<AggregateExpr>) -> (r: Self)
        ensures
            r.wf(),
            !r.is_done(),
            !r.has_input(),
            r.spec_schema() == schema@,
            r.spec_group_expr() == group_expr@,
            r.spec_aggr_expr() == aggr_expr@,
            r.state() == (Seq::<KeyView>::empty(), Seq::<Seq<Seq<int>>>::empty()),
    {
        let table = GroupTable::new();
        AggregateRelation { schema, group_expr, aggr_expr, table, seen: false, done: false }
    }

    /// The declared output schema.
    pub fn schema(&self) -> (r: &Vec<Field>)
        ensures
            r@ == self.spec_schema(),
    {
        &self.schema
    }

    /// Hands the operator the next pulled batch (`Some`) or the end of the
    /// input (`None`). A batch is absorbed into the grouping state and more
    /// input is asked for; the end of the input yields the single result
    /// batch, or `Exhausted` when no batch came at all. After the result, or after any error, which also discards the
    /// grouping state, every call answers `Exhausted`.
    #[verifier::rlimit(30)]
    pub fn next(&mut self, input: Option<Batch>) -> (r: Result<Pull, ExecutionError>)
        requires
            old(self).wf(),
            input matches Some(b) ==> b.wf(),
        ensures
            final(self).wf(),
            final(self).spec_schema() == old(self).spec_schema(),
            final(self).spec_group_expr() == old(self).spec_group_expr(),
            final(self).spec_aggr_expr() == old(self).spec_aggr_expr(),
            old(self).is_done() ==> (r matches Ok(Pull::Exhausted)) && final(self).is_done(),
            r is Err ==> final(self).is_done() && final(self).state() == (Seq::<KeyView>::empty(), Seq::<Seq<Seq<int>>>::empty()),
            !old(self).is_done() && input is Some && r is Ok ==> (r matches Ok(Pull::NeedInput)) && !final(self).is_done() && final(self).has_input()
                && final(self).state() == absorb_batch(old(self).state(), old(self).spec_group_expr(), old(self).spec_aggr_expr(), input.unwrap()),
            !old(self).is_done() && input is None ==> final(self).is_done(),
            !old(self).is_done() && input is None && !old(self).has_input() ==> (r matches Ok(Pull::Exhausted)),
            !old(self).is_done() && input is None ==> (r matches Ok(Pull::Output(out)) ==> out.wf()
                && fields_match(out.schema@, old(self).spec_schema())
                && out.num_rows == old(self).state().0.len()
                && columns_match(out.columns@, old(self).spec_group_expr(), old(self).spec_aggr_expr(), old(self).state())),
            !old(self).is_done() && input is Some && batch_error(old(self).spec_group_expr(), old(self).spec_aggr_expr(), input.unwrap()) is Some
                ==> r == Err::<Pull, ExecutionError>(batch_error(old(self).spec_group_expr(), old(self).spec_aggr_expr(), input.unwrap()).unwrap()),
            !old(self).is_done() && input is Some && batch_error(old(self).spec_group_expr(), old(self).spec_aggr_expr(), input.unwrap()) is None
                && room_for(old(self).state(), input.unwrap().num_rows as nat) ==> (r matches Ok(Pull::NeedInput)),
            !old(self).is_done() && input is Some && batch_error(old(self).spec_group_expr(), old(self).spec_aggr_expr(), input.unwrap()) is None
                && r is Err ==> r == Err::<Pull, ExecutionError>(ExecutionError::Overflow),
            !old(self).is_done() && input is None && old(self).has_input() ==> (r is Ok <==> config_error(old(self).spec_schema(), old(self).spec_group_expr(), old(self).spec_aggr_expr()) is None
                && forall|j: int| 0 <= j < old(self).spec_aggr_expr().len() ==> #[trigger] results_fit(old(self).state(), old(self).spec_aggr_expr(), j)),
            !old(self).is_done() && input is None && old(self).has_input() && r is Ok ==> (r matches Ok(Pull::Output(_))),
            !old(self).is_done() && input is None && old(self).has_input() && config_error(old(self).spec_schema(), old(self).spec_group_expr(), old(self).spec_aggr_expr()) is Some
                ==> r == Err::<Pull, ExecutionError>(config_error(old(self).spec_schema(), old(self).spec_group_expr(), old(self).spec_aggr_expr()).unwrap()),
            !old(self).is_done() && input is None && config_error(old(self).spec_schema(), old(self).spec_group_expr(), old(self).spec_aggr_expr()) is None
                && r is Err ==> r == Err::<Pull, ExecutionError>(ExecutionError::Overflow),
    {
        if self.done {
            return Ok(Pull::Exhausted);
        }
        match input {
            None => {
                if !self.seen {
                    self.done = true;
                    return Ok(Pull::Exhausted);
                }
                let res = self.finish();
                self.done = true;
                match res {
                    Ok(b) => Ok(Pull::Output(b)),
                    Err(e) => {
                        self.discard();
                        Err(e)
                    },
                }
            },
            Some(batch) => match self.absorb(&batch) {
                Ok(_) => {
                    self.seen = true;
                    Ok(Pull::NeedInput)
                },
                Err(e) => {
                    self.discard();
                    Err(e)
                },
            },
        }
    }

    /// Absorbs one batch into the grouping state: `Ok` exactly when every
    /// expression evaluates and no count overflows. On an error the state
    /// may be partly updated; the caller discards it.
    #[verifier::rlimit(30)]
    fn absorb(&mut self, batch: &Batch) -> (r: Result<(), ExecutionError>)
        requires
            old(self).wf(),
            batch.wf(),
        ensures
            final(self).table.wf(final(self).aggr_expr@),
            final(self).schema@ == old(self).schema@,
            final(self).group_expr@ == old(self).group_expr@,
            final(self).aggr_expr@ == old(self).aggr_expr@,
            final(self).done == old(self).done,
            r is Ok ==> final(self).wf() && final(self).state()
                == absorb_batch(old(self).state(), old(self).group_expr@, old(self).aggr_expr@, *batch),
            batch_error(old(self).group_expr@, old(self).aggr_expr@, *batch) is Some
                ==> r == Err::<(), ExecutionError>(batch_error(old(self).group_expr@, old(self).aggr_expr@, *batch).unwrap()),
            batch_error(old(self).group_expr@, old(self).aggr_expr@, *batch) is None
                && room_for(old(self).state(), batch.num_rows as nat) ==> r is Ok,
            batch_error(old(self).group_expr@, old(self).aggr_expr@, *batch) is None
                && r is Err ==> r == Err::<(), ExecutionError>(ExecutionError::Overflow),
    {
        let ghost st = self.state();
        let gcols = match evaluate_groups(&self.group_expr, batch) {
            Ok(c) => c,
            Err(e) => {
                proof {
                    let i = choose|i: int| 0 <= i < self.group_expr@.len() && group_fails(self.group_expr@[i], *batch) == Some(e)
                        && forall|t: int| 0 <= t < i ==> (#[trigger] group_fails(self.group_expr@[t], *batch)) is None;
                    lemma_first_group_error(self.group_expr@, self.aggr_expr@, *batch, i);
                }
                return Err(e);
            },
        };
        let acols = match evaluate_args(&self.aggr_expr, batch) {
            Ok(c) => c,
            Err(e) => {
                proof {
                    let j = choose|j: int| 0 <= j < self.aggr_expr@.len() && aggr_fails(self.aggr_expr@[j], *batch) == Some(e)
                        && forall|t: int| 0 <= t < j ==> (#[trigger] aggr_fails(self.aggr_expr@[t], *batch)) is None;
                    lemma_first_aggr_error(self.group_expr@, self.aggr_expr@, *batch, j);
                }
                return Err(e);
            },
        };
        assert(batch_error(self.group_expr@, self.aggr_expr@, *batch) is None) by {
            reveal(batch_error);
        }
        let n = batch.num_rows;
        if self.group_expr.len() == 0 {
            proof {
                assert(keys_typed(self.table.keys(), Seq::<ColumnExpr>::empty())) by {
                    assert(self.group_expr@ =~= Seq::<ColumnExpr>::empty());
                }
                assert forall|j: int| 0 <= j < acols@.len() && !(self.aggr_expr@[j].func is Count)
                    implies crate::kernels::is_integer_column(#[trigger] &acols@[j]) by {
                    assert(aggr_fails(self.aggr_expr@[j], *batch) is None);
                }
                lemma_free_step_congruent(st, acols@, referenced(args_of(self.aggr_expr@), *batch), n as nat);
            }
            let r = absorb_free(&mut self.table, &acols, n, &self.aggr_expr);
            proof {
                if r is Ok {
                    assert(self.group_expr@ =~= Seq::<ColumnExpr>::empty());
                }
            }
            r
        } else {
            proof {
                lemma_rows_of_same_columns(gcols@, referenced(self.group_expr@, *batch), n as nat);
                lemma_rows_of_same_columns(acols@, referenced(args_of(self.aggr_expr@), *batch), n as nat);
                lemma_group_rows_congruent(st, gcols@, acols@, referenced(self.group_expr@, *batch),
                    referenced(args_of(self.aggr_expr@), *batch), n as nat);
            }
            absorb_grouped(&mut self.table, &gcols, &acols, n, &self.aggr_expr, Ghost(self.group_expr@))
        }
    }

    /// Ends the pass, dropping all grouping state.
    fn discard(&mut self)
        ensures
            final(self).wf(),
            final(self).is_done(),
            final(self).spec_schema() == old(self).spec_schema(),
            final(self).spec_group_expr() == old(self).spec_group_expr(),
            final(self).spec_aggr_expr() == old(self).spec_aggr_expr(),
            final(self).state() == (Seq::<KeyView>::empty(), Seq::<Seq<Seq<int>>>::empty()),
    {
        self.table = GroupTable::new();
        self.done = true;
    }

    #[verifier::rlimit(50)]
    fn check_config(&self) -> (r: Result<(), ExecutionError>)
        ensures
            r == (match config_error(self.schema@, self.group_expr@, self.aggr_expr@) {
                Some(e) => Err::<(), ExecutionError>(e),
                None => Ok(()),
            }),
    {
        let ghost ge = self.group_expr@;
        let ghost ag = self.aggr_expr@;
        let ng = self.group_expr.len();
        let na = self.aggr_expr.len();
        let mut c: usize = 0;
        while c < ng
            invariant
                ng == ge.len(),
                ge == self.group_expr@,
                c <= ng,
                forall|t: int| 0 <= t < c ==> !((#[trigger] ge[t]).data_type is Float64),
            decreases ng - c,
        {
            if self.group_expr[c].data_type == DataType::Float64 {
                proof {
                    reveal(config_error);
                }
                return Err(ExecutionError::UnsupportedType);
            }
            c = c + 1;
        }
        let mut j: usize = 0;
        while j < na
            invariant
                na == ag.len(),
                ag == self.aggr_expr@,
                ge == self.group_expr@,
                forall|t: int| 0 <= t < ge.len() ==> !((#[trigger] ge[t]).data_type is Float64),
                j <= na,
                forall|t: int| 0 <= t < j ==> (#[trigger] aggregate_support(ag[t].func, ag[t].arg.data_type, ag[t].output)) is Ok,
            decreases na - j,
        {
            match self.aggr_expr[j].check_support() {
                Err(e) => {
                    proof {
                        reveal(config_error);
                        let jj = choose|jj: int| 0 <= jj < ag.len() && (#[trigger] aggregate_support(ag[jj].func, ag[jj].arg.data_type, ag[jj].output)) is Err
                            && forall|t: int| 0 <= t < jj ==> (#[trigger] aggregate_support(ag[t].func, ag[t].arg.data_type, ag[t].output)) is Ok;
                        assert(jj == j as int) by {
                            if jj > j as int {
                                assert(aggregate_support(ag[j as int].func, ag[j as int].arg.data_type, ag[j as int].output) is Ok);
                            }
                        }
                    }
                    return Err(e);
                },
                Ok(_) => {},
            }
            j = j + 1;
        }
        if self.schema.len() < ng || self.schema.len() - ng != na {
            proof {
                reveal(config_error);
            }
            return Err(ExecutionError::SchemaMismatch);
        }
        let mut c: usize = 0;
        while c < ng
            invariant
                ng == ge.len(),
                na == ag.len(),
                ge == self.group_expr@,
                ag == self.aggr_expr@,
                forall|t: int| 0 <= t < ge.len() ==> !((#[trigger] ge[t]).data_type is Float64),
                forall|t: int| 0 <= t < ag.len() ==> (#[trigger] aggregate_support(ag[t].func, ag[t].arg.data_type, ag[t].output)) is Ok,
                self.schema@.len() == ng + na,
                c <= ng,
                forall|t: int| 0 <= t < c ==> (#[trigger] self.schema@[t]).data_type == ge[t].data_type,
            decreases ng - c,
        {
            if self.schema[c].data_type != self.group_expr[c].data_type {
                proof {
                    reveal(config_error);
                }
                return Err(ExecutionError::SchemaMismatch);
            }
            c = c + 1;
        }
        let mut j: usize = 0;
        while j < na
            invariant
                na == ag.len(),
                ng == ge.len(),
                ge == self.group_expr@,
                ag == self.aggr_expr@,
                forall|t: int| 0 <= t < ge.len() ==> !((#[trigger] ge[t]).data_type is Float64),
                forall|t: int| 0 <= t < ag.len() ==> (#[trigger] aggregate_support(ag[t].func, ag[t].arg.data_type, ag[t].output)) is Ok,
                forall|t: int| 0 <= t < ng ==> (#[trigger] self.schema@[t]).data_type == ge[t].data_type,
                self.schema@.len() == ng + na,
                j <= na,
                forall|t: int| 0 <= t < j ==> (#[trigger] self.schema@[ng + t]).data_type == ag[t].spec_output_type(),
            decreases na - j,
        {
            let k: usize = self.schema.len() - na + j;
            assert(k == ng + j);
            if self.schema[k].data_type != self.aggr_expr[j].output_type() {
                assert(!schema_matches(self.schema@, ge, ag)) by {
                    assert(self.schema@[ge.len() + j] == self.schema@[ng + j]);
                }
                proof {
                    reveal(config_error);
                }
                return Err(ExecutionError::SchemaMismatch);
            }
            j = j + 1;
        }
        assert(schema_matches(self.schema@, ge, ag)) by {
            assert forall|t: int| 0 <= t < ag.len() implies (#[trigger] self.schema@[ge.len() + t]).data_type == ag[t].spec_output_type() by {
                assert(self.schema@[ng + t] == self.schema@[ge.len() + t]);
            }
        }
        proof {
            reveal(config_error);
        }
        Ok(())
    }

    #[verifier::rlimit(50)]
    fn build_columns(&self) -> (r: Result<Vec<Column>, ExecutionError>)
        requires
            self.wf(),
            config_error(self.schema@, self.group_expr@, self.aggr_expr@) is None,
        ensures
            r is Ok <==> forall|j: int| 0 <= j < self.aggr_expr@.len() ==> #[trigger] results_fit(self.state(), self.aggr_expr@, j),
            r is Err ==> r == Err::<Vec<Column>, ExecutionError>(ExecutionError::Overflow),
            r matches Ok(columns) ==> columns_match(columns@, self.group_expr@, self.aggr_expr@, self.state()),
    {
        let ghost ge = self.group_expr@;
        let ghost ag = self.aggr_expr@;
        let ghost st = self.state();
        let ng = self.group_expr.len();
        let na = self.aggr_expr.len();
        proof {
            lemma_config_ok(self.schema@, ge, ag);
        }
        let mut columns: Vec<Column> = Vec::new();
        let n = self.table.len();
        let mut c: usize = 0;
        while c < ng
            invariant
                self.wf(),
                st == self.state(),
                n == st.0.len(),
                ng == ge.len(),
                ge == self.group_expr@,
                c <= ng,
                columns@.len() == c,
                forall|t: int| 0 <= t < ng ==> !((#[trigger] ge[t]).data_type is Float64),
                forall|t: int| 0 <= t < c ==> (#[trigger] columns@[t]).spec_len() == n
                    && columns@[t].spec_data_type() == ge[t].data_type,
                forall|g: int, t: int| 0 <= g < n && 0 <= t < c ==> (#[trigger] columns@[t].key_at(g)) == st.0[g][t],
            decreases ng - c,
        {
            let col = key_column(&self.table, c, self.group_expr[c].data_type, &self.aggr_expr, Ghost(self.group_expr@));
            columns.push(col);
            c = c + 1;
        }
        let mut j: usize = 0;
        while j < na
            invariant
                self.wf(),
                st == self.state(),
                n == st.0.len(),
                ng == ge.len(),
                na == ag.len(),
                ag == self.aggr_expr@,
                j <= na,
                columns@.len() == ng + j,
                forall|t: int| 0 <= t < na ==> (#[trigger] aggregate_support(ag[t].func, ag[t].arg.data_type, ag[t].output)) is Ok,
                forall|t: int| 0 <= t < j ==> #[trigger] results_fit(st, ag, t),
                forall|t: int| 0 <= t < ng + j ==> (#[trigger] columns@[t]).spec_len() == n,
                forall|t: int| 0 <= t < ng ==> (#[trigger] columns@[t]).spec_data_type() == ge[t].data_type,
                forall|t: int| 0 <= t < j ==> (#[trigger] columns@[ng + t]).spec_data_type() == ag[t].spec_output_type(),
                forall|g: int, t: int| 0 <= g < n && 0 <= t < ng ==> (#[trigger] columns@[t].key_at(g)) == st.0[g][t],
                forall|g: int, t: int| 0 <= g < n && 0 <= t < j ==>
                    Some(#[trigger] columns@[ng + t].int_at(g)) == aggregate_of(ag[t].func, st.1[g][t]),
            decreases na - j,
        {
            let ghost prev = columns@;
            match aggregate_column(&self.table, j, &self.aggr_expr) {
                Ok(col) => {
                    columns.push(col);
                },
                Err(e) => {
                    return Err(e);
                },
            }
            j = j + 1;
            proof {
                assert forall|g: int, t: int| 0 <= g < n && 0 <= t < ng implies (#[trigger] columns@[t].key_at(g)) == st.0[g][t] by {
                    assert(columns@[t] == prev[t]);
                }
                assert forall|g: int, t: int| 0 <= g < n && 0 <= t < j implies
                    Some(#[trigger] columns@[ng + t].int_at(g)) == aggregate_of(ag[t].func, st.1[g][t]) by {
                    if t < j - 1 {
                        assert(columns@[ng + t] == prev[ng + t]);
                    }
                }
            }
        }
        Ok(columns)
    }

    #[verifier::rlimit(30)]
    fn finish(&self) -> (r: Result<Batch, ExecutionError>)
        requires
            self.wf(),
        ensures
            r matches Ok(out) ==> out.num_rows == self.state().0.len()
                && columns_match(out.columns@, self.group_expr@, self.aggr_expr@, self.state()),
            r matches Ok(out) ==> out.wf() && fields_match(out.schema@, self.schema@),
            r is Ok <==> config_error(self.schema@, self.group_expr@, self.aggr_expr@) is None
                && forall|j: int| 0 <= j < self.aggr_expr@.len() ==> #[trigger] results_fit(self.state(), self.aggr_expr@, j),
            config_error(self.schema@, self.group_expr@, self.aggr_expr@) is Some
                ==> r == Err::<Batch, ExecutionError>(config_error(self.schema@, self.group_expr@, self.aggr_expr@).unwrap()),
            config_error(self.schema@, self.group_expr@, self.aggr_expr@) is None && r is Err
                ==> r == Err::<Batch, ExecutionError>(ExecutionError::Overflow),
    {
        match self.check_config() {
            Err(e) => {
                return Err(e);
            },
            Ok(_) => {},
        }
        let columns = match self.build_columns() {
            Err(e) => {
                return Err(e);
            },
            Ok(columns) => columns,
        };
        let mut fields: Vec<Field> = Vec::new();
        let mut i: usize = 0;
        while i < self.schema.len()
            invariant
                i <= self.schema@.len(),
                fields@.len() == i,
                forall|t: int| 0 <= t < i ==> (#[trigger] fields@[t]).name@ == self.schema@[t].name@
                    && fields@[t].data_type == self.schema@[t].data_type && fields@[t].nullable == self.schema@[t].nullable,
            decreases self.schema@.len() - i,
        {
            fields.push(self.schema[i].duplicate());
            i = i + 1;
        }
        let out = Batch { schema: fields, columns, num_rows: self.table.len() };
        proof {
            lemma_config_ok(self.schema@, self.group_expr@, self.aggr_expr@);
            let ng = self.group_expr@.len();
            assert forall|t: int| 0 <= t < out.columns@.len() implies out.schema@[t].data_type == (#[trigger] out.columns@[t]).spec_data_type() by {
                if t >= ng {
                    assert(out.columns@[ng + (t - ng)] == out.columns@[t]);
                    assert(self.schema@[ng + (t - ng)] == self.schema@[t]);
                }
            }
        }
        Ok(out)
    }
}

} // verus!
