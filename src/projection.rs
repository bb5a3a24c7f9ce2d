//! The projection operator: evaluates its column evaluators over each batch.

use vstd::prelude::*;
use crate::types::ExecutionError;
use crate::column::{Batch, Column, Field};
use crate::expr::ColumnExpr;

verus! {

/// Stateless per-batch column remapping.
pub struct ProjectRelation {
    expr: Vec<ColumnExpr>,
    schema: Vec<Field>,
}

/// `out` is the projection of `b` through `es`: one column per evaluator,
/// a copy of the column it refers to, under the evaluator's name and type.
pub open spec fn projected(out: Batch, es: Seq<ColumnExpr>, b: Batch) -> bool {
    &&& out.num_rows == b.num_rows
    &&& out.columns@.len() == es.len()
    &&& out.schema@.len() == es.len()
    &&& forall|i: int| 0 <= i < es.len() ==> {
        &&& (#[trigger] out.columns@[i]).same_as(&b.columns@[es[i].index as int])
        &&& out.columns@[i].spec_len() == b.num_rows
        &&& out.schema@[i].name@ == es[i].name@
        &&& out.schema@[i].data_type == es[i].data_type
        &&& out.schema@[i].nullable
    }
}

impl ProjectRelation {
    pub closed spec fn spec_expr(&self) -> Seq<ColumnExpr> {
        self.expr@
    }

    pub closed spec fn spec_schema(&self) -> Seq<Field> {
        self.schema@
    }

    pub fn new(expr: Vec<ColumnExpr>, schema: Vec<Field>) -> (r: Self)
        ensures
            r.spec_expr() == expr@,
            r.spec_schema() == schema@,
    {
        ProjectRelation { expr, schema }
    }

    /// The declared output schema.
    pub fn schema(&self) -> (r: &Vec<Field>)
        ensures
            r@ == self.spec_schema(),
    {
        &self.schema
    }

    /// Evaluates every evaluator over `batch`, in order; the first that
    /// fails aborts the projection with its error.
    pub fn project(&self, batch: &Batch) -> (r: Result<Batch, ExecutionError>)
        requires
            batch.wf(),
        ensures
            r is Ok <==> forall|i: int| 0 <= i < self.spec_expr().len() ==> (#[trigger] self.spec_expr()[i]).evaluates_on(batch),
            r matches Err(e) ==> exists|i: int| 0 <= i < self.spec_expr().len() && !self.spec_expr()[i].evaluates_on(batch)
                && e == self.spec_expr()[i].error_on(batch)
                && forall|t: int| 0 <= t < i ==> (#[trigger] self.spec_expr()[t]).evaluates_on(batch),
            r matches Ok(out) ==> out.wf() && projected(out, self.spec_expr(), *batch),
    {
        let mut columns: Vec<Column> = Vec::new();
        let mut fields: Vec<Field> = Vec::new();
        let mut i: usize = 0;
        while i < self.expr.len()
            invariant
                batch.wf(),
                i <= self.expr@.len(),
                columns@.len() == i,
                fields@.len() == i,
                forall|t: int| 0 <= t < i ==> (#[trigger] self.expr@[t]).evaluates_on(batch),
                forall|t: int| 0 <= t < i ==> {
                    &&& (#[trigger] columns@[t]).same_as(&batch.columns@[self.expr@[t].index as int])
                    &&& columns@[t].spec_len() == batch.num_rows
                    &&& columns@[t].spec_data_type() == self.expr@[t].data_type
                    &&& fields@[t].name@ == self.expr@[t].name@
                    &&& fields@[t].data_type == self.expr@[t].data_type
                    &&& fields@[t].nullable
                },
            decreases self.expr@.len() - i,
        {
            let e = &self.expr[i];
            match e.evaluate(batch) {
                Ok(c) => {
                    columns.push(c);
                    fields.push(Field { name: e.name.clone(), data_type: e.data_type, nullable: true });
                },
                Err(err) => {
                    assert(!self.spec_expr()[i as int].evaluates_on(batch));
                    assert(err == self.spec_expr()[i as int].error_on(batch));
                    return Err(err);
                },
            }
            i = i + 1;
        }
        Ok(Batch { schema: fields, columns, num_rows: batch.num_rows })
    }

    /// Hands the operator the next pulled batch (`Some`) or the end of the
    /// input (`None`), which it passes on as `None`.
    pub fn next(&self, input: Option<Batch>) -> (r: Result<Option<Batch>, ExecutionError>)
        requires
            input matches Some(b) ==> b.wf(),
        ensures
            input is None ==> r == Ok::<Option<Batch>, ExecutionError>(None),
            input matches Some(b) ==> (r is Ok <==> forall|i: int| 0 <= i < self.spec_expr().len() ==> (#[trigger] self.spec_expr()[i]).evaluates_on(&b)),
            input matches Some(b) ==> (r matches Ok(Some(out)) ==> out.wf() && projected(out, self.spec_expr(), b)),
            input is Some ==> (r is Ok ==> (r matches Ok(Some(_)))),
            input matches Some(b) ==> (r matches Err(e) ==> exists|i: int| 0 <= i < self.spec_expr().len()
                && !self.spec_expr()[i].evaluates_on(&b) && e == self.spec_expr()[i].error_on(&b)
                && forall|t: int| 0 <= t < i ==> (#[trigger] self.spec_expr()[t]).evaluates_on(&b)),
            r matches Ok(Some(_)) ==> input is Some,
    {
        match input {
            None => Ok(None),
            Some(b) => match self.project(&b) {
                Ok(out) => Ok(Some(out)),
                Err(e) => Err(e),
            },
        }
    }
}

} // verus!
