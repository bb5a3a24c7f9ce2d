//! Whole-column MIN and MAX reductions through arrow's aggregate kernels.

use vstd::prelude::*;
use crate::types::ExecutionError;
use crate::accumulator::{seq_max, seq_min};
use crate::column::Column;

verus! {

pub open spec fn widen(values: Seq<i64>) -> Seq<int> {
    values.map_values(|v: i64| v as int)
}

/// Relies on `arrow::compute::min` over a null-free `Int64Array`: `None` for
/// an empty array, otherwise its smallest value.
#[verifier::external_body]
fn kernel_min(values: &Vec<i64>) -> (r: Option<i64>)
    ensures
        values@.len() == 0 ==> r is None,
        values@.len() > 0 ==> r is Some && r.unwrap() as int == seq_min(widen(values@)),
{
    arrow::compute::min(&arrow::array::Int64Array::from(values.clone()))
}

/// Relies on `arrow::compute::max` over a null-free `Int64Array`: `None` for
/// an empty array, otherwise its largest value.
#[verifier::external_body]
fn kernel_max(values: &Vec<i64>) -> (r: Option<i64>)
    ensures
        values@.len() == 0 ==> r is None,
        values@.len() > 0 ==> r is Some && r.unwrap() as int == seq_max(widen(values@)),
{
    arrow::compute::max(&arrow::array::Int64Array::from(values.clone()))
}

pub open spec fn is_integer_column(c: &Column) -> bool {
    c is Int32 || c is Int64
}

/// The smallest value of an integer column: `None` when it is empty,
/// `UnsupportedFunction` for a column that is not of integers.
pub fn array_min(column: &Column) -> (r: Result<Option<i64>, ExecutionError>)
    ensures
        !is_integer_column(column) <==> r == Err::<Option<i64>, ExecutionError>(ExecutionError::UnsupportedFunction),
        is_integer_column(column) && column.spec_len() == 0 ==> r == Ok::<Option<i64>, ExecutionError>(None),
        is_integer_column(column) && column.spec_len() > 0 ==> (r matches Ok(Some(m))
            && m as int == seq_min(column.int_values())),
{
    if !(column.data_type() == crate::types::DataType::Int32 || column.data_type() == crate::types::DataType::Int64) {
        return Err(ExecutionError::UnsupportedFunction);
    }
    let values = column.to_i64_values();
    assert(widen(values@) =~= column.int_values());
    Ok(kernel_min(&values))
}

/// The largest value of an integer column: `None` when it is empty,
/// `UnsupportedFunction` for a column that is not of integers.
pub fn array_max(column: &Column) -> (r: Result<Option<i64>, ExecutionError>)
    ensures
        !is_integer_column(column) <==> r == Err::<Option<i64>, ExecutionError>(ExecutionError::UnsupportedFunction),
        is_integer_column(column) && column.spec_len() == 0 ==> r == Ok::<Option<i64>, ExecutionError>(None),
        is_integer_column(column) && column.spec_len() > 0 ==> (r matches Ok(Some(m))
            && m as int == seq_max(column.int_values())),
{
    if !(column.data_type() == crate::types::DataType::Int32 || column.data_type() == crate::types::DataType::Int64) {
        return Err(ExecutionError::UnsupportedFunction);
    }
    let values = column.to_i64_values();
    assert(widen(values@) =~= column.int_values());
    Ok(kernel_max(&values))
}

} // verus!
