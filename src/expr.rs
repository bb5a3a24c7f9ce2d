//! Column evaluators: references to input columns with a declared name and type.

use vstd::prelude::*;
use crate::types::{AggregateType, DataType, ExecutionError};
use crate::column::{Batch, Column};

verus! {

/// Evaluates to column `index` of a batch, which must have the declared type.
pub struct ColumnExpr {
    pub index: usize,
    pub name: String,
    pub data_type: DataType,
}

/// An aggregate function applied to one argument evaluator, with the
/// declared type of the column it produces.
pub struct AggregateExpr {
    pub func: AggregateType,
    pub arg: ColumnExpr,
    pub output: DataType,
}

impl ColumnExpr {
    /// Evaluation succeeds exactly when the referenced column exists and has
    /// the declared type.
    pub open spec fn evaluates_on(&self, batch: &Batch) -> bool {
        &&& self.index < batch.columns@.len()
        &&& batch.columns@[self.index as int].spec_data_type() == self.data_type
    }

    pub open spec fn error_on(&self, batch: &Batch) -> ExecutionError {
        if self.index >= batch.columns@.len() {
            ExecutionError::EvaluationFailure
        } else {
            ExecutionError::SchemaMismatch
        }
    }

    /// The referenced column of `batch`: `EvaluationFailure` when there is no
    /// such column, `SchemaMismatch` when its type is not the declared one.
    pub fn evaluate(&self, batch: &Batch) -> (r: Result<Column, ExecutionError>)
        requires
            batch.wf(),
        ensures
            r is Ok <==> self.evaluates_on(batch),
            r matches Ok(c) ==> c.same_as(&batch.columns@[self.index as int])
                && c.spec_len() == batch.num_rows
                && c.spec_data_type() == self.data_type,
            r matches Err(e) ==> e == self.error_on(batch),
    {
        if self.index >= batch.columns.len() {
            return Err(ExecutionError::EvaluationFailure);
        }
        let c = &batch.columns[self.index];
        if c.data_type() != self.data_type {
            return Err(ExecutionError::SchemaMismatch);
        }
        Ok(c.duplicate())
    }

    pub fn duplicate(&self) -> (r: ColumnExpr)
        ensures
            r.index == self.index,
            r.name@ == self.name@,
            r.data_type == self.data_type,
    {
        ColumnExpr { index: self.index, name: self.name.clone(), data_type: self.data_type }
    }
}

/// Whether `func` is implemented over arguments of type `arg` with results
/// of type `out`, and if not, which error says so. Results are integers, so
/// the output must be an integer type.
pub open spec fn aggregate_support(func: AggregateType, arg: DataType, out: DataType) -> Result<(), ExecutionError> {
    match arg {
        DataType::Float64 => Err(ExecutionError::UnsupportedType),
        DataType::Int32 | DataType::Int64 => match out {
            DataType::Int32 | DataType::Int64 => Ok(()),
            _ => Err(ExecutionError::UnsupportedType),
        },
        _ => match func {
            AggregateType::Count => match out {
                DataType::Int32 | DataType::Int64 => Ok(()),
                _ => Err(ExecutionError::UnsupportedType),
            },
            _ => Err(ExecutionError::UnsupportedFunction),
        },
    }
}

impl AggregateExpr {
    pub open spec fn spec_output_type(&self) -> DataType {
        self.output
    }

    /// The declared type of the column this aggregate produces.
    pub fn output_type(&self) -> (r: DataType)
        ensures
            r == self.spec_output_type(),
    {
        self.output
    }

    /// Checks that the function is implemented for its declared argument
    /// and output types.
    pub fn check_support(&self) -> (r: Result<(), ExecutionError>)
        ensures
            r == aggregate_support(self.func, self.arg.data_type, self.output),
    {
        let out_ok = self.output == DataType::Int32 || self.output == DataType::Int64;
        match self.arg.data_type {
            DataType::Float64 => Err(ExecutionError::UnsupportedType),
            DataType::Int32 | DataType::Int64 => if out_ok {
                Ok(())
            } else {
                Err(ExecutionError::UnsupportedType)
            },
            _ => match self.func {
                AggregateType::Count => if out_ok {
                    Ok(())
                } else {
                    Err(ExecutionError::UnsupportedType)
                },
                _ => Err(ExecutionError::UnsupportedFunction),
            },
        }
    }
}

} // verus!
