use rustquery::accumulator::Accumulator;
use rustquery::aggregate::{AggregateRelation, Pull};
use rustquery::column::{Batch, Column, Field};
use rustquery::expr::{AggregateExpr, ColumnExpr};
use rustquery::kernels::{array_max, array_min};
use rustquery::projection::ProjectRelation;
use rustquery::types::{AggregateType, DataType, ExecutionError};

fn field(name: &str, data_type: DataType) -> Field {
    Field { name: name.to_string(), data_type, nullable: false }
}

fn col(index: usize, name: &str, data_type: DataType) -> ColumnExpr {
    ColumnExpr { index, name: name.to_string(), data_type }
}

fn labelled(labels: Vec<i32>, values: Vec<i64>) -> Batch {
    let n = labels.len();
    Batch {
        schema: vec![field("label", DataType::Int32), field("value", DataType::Int64)],
        columns: vec![Column::Int32(labels), Column::Int64(values)],
        num_rows: n,
    }
}

fn run(op: &mut AggregateRelation, batches: Vec<Batch>) -> Result<Batch, ExecutionError> {
    for b in batches {
        match op.next(Some(b))? {
            Pull::NeedInput => {}
            _ => panic!("expected a request for more input"),
        }
    }
    match op.next(None)? {
        Pull::Output(b) => Ok(b),
        _ => panic!("expected the result batch"),
    }
}

fn int64s(c: &Column) -> Vec<i64> {
    match c {
        Column::Int64(v) => v.clone(),
        _ => panic!("expected an Int64 column"),
    }
}

fn int32s(c: &Column) -> Vec<i32> {
    match c {
        Column::Int32(v) => v.clone(),
        _ => panic!("expected an Int32 column"),
    }
}

#[test]
fn grouped_sum_one_row_per_label() {
    let mut op = AggregateRelation::new(
        vec![field("label", DataType::Int32), field("total", DataType::Int64)],
        vec![col(0, "label", DataType::Int32)],
        vec![AggregateExpr { func: AggregateType::Sum, arg: col(1, "value", DataType::Int64), output: DataType::Int64 }],
    );
    let out = run(&mut op, vec![
        labelled(vec![1, 2, 1], vec![10, 20, 30]),
        labelled(vec![3, 2], vec![40, 50]),
    ]).unwrap();
    assert_eq!(out.num_rows, 3);
    assert_eq!(int32s(&out.columns[0]), vec![1, 2, 3]);
    assert_eq!(int64s(&out.columns[1]), vec![40, 70, 40]);
}

#[test]
fn grouping_free_min_max_over_all_batches() {
    let mut op = AggregateRelation::new(
        vec![field("lo", DataType::Int32), field("hi", DataType::Int32)],
        vec![],
        vec![
            AggregateExpr { func: AggregateType::Min, arg: col(0, "label", DataType::Int32), output: DataType::Int32 },
            AggregateExpr { func: AggregateType::Max, arg: col(0, "label", DataType::Int32), output: DataType::Int32 },
        ],
    );
    let out = run(&mut op, vec![
        labelled(vec![5, -3, 9], vec![0, 0, 0]),
        labelled(vec![12, 4], vec![0, 0]),
    ]).unwrap();
    assert_eq!(out.num_rows, 1);
    assert_eq!(out.columns.len(), 2);
    assert_eq!(int32s(&out.columns[0]), vec![-3]);
    assert_eq!(int32s(&out.columns[1]), vec![12]);
}

#[test]
fn grouping_free_count_and_sum() {
    let mut op = AggregateRelation::new(
        vec![field("n", DataType::Int64), field("s", DataType::Int64)],
        vec![],
        vec![
            AggregateExpr { func: AggregateType::Count, arg: col(1, "value", DataType::Int64), output: DataType::Int64 },
            AggregateExpr { func: AggregateType::Sum, arg: col(1, "value", DataType::Int64), output: DataType::Int64 },
        ],
    );
    let out = run(&mut op, vec![labelled(vec![1, 2, 3], vec![7, 8, 9])]).unwrap();
    assert_eq!(int64s(&out.columns[0]), vec![3]);
    assert_eq!(int64s(&out.columns[1]), vec![24]);
}

#[test]
fn text_keys_group_by_equal_strings() {
    let names: Vec<String> = vec!["york", "leeds", "york", "bath"].into_iter().map(String::from).collect();
    let batch = Batch {
        schema: vec![field("name", DataType::Utf8), field("pop", DataType::Int64)],
        columns: vec![Column::Utf8(names), Column::Int64(vec![1, 2, 3, 4])],
        num_rows: 4,
    };
    let mut op = AggregateRelation::new(
        vec![field("name", DataType::Utf8), field("count", DataType::Int64)],
        vec![col(0, "name", DataType::Utf8)],
        vec![AggregateExpr { func: AggregateType::Count, arg: col(0, "name", DataType::Utf8), output: DataType::Int64 }],
    );
    let out = run(&mut op, vec![batch]).unwrap();
    assert_eq!(out.num_rows, 3);
    match &out.columns[0] {
        Column::Utf8(v) => assert_eq!(v, &vec!["york".to_string(), "leeds".to_string(), "bath".to_string()]),
        _ => panic!("expected a text column"),
    }
    assert_eq!(int64s(&out.columns[1]), vec![2, 1, 1]);
}

#[test]
fn exhausted_operator_stays_exhausted() {
    let mut op = AggregateRelation::new(
        vec![field("n", DataType::Int64)],
        vec![],
        vec![AggregateExpr { func: AggregateType::Count, arg: col(0, "label", DataType::Int32), output: DataType::Int64 }],
    );
    let out = run(&mut op, vec![labelled(vec![1], vec![1])]).unwrap();
    assert_eq!(out.num_rows, 1);
    assert!(matches!(op.next(None), Ok(Pull::Exhausted)));
    assert!(matches!(op.next(Some(labelled(vec![2], vec![2]))), Ok(Pull::Exhausted)));
}

#[test]
fn errors_are_distinct() {
    let text = Batch {
        schema: vec![field("name", DataType::Utf8)],
        columns: vec![Column::Utf8(vec!["a".to_string()])],
        num_rows: 1,
    };
    let mut op = AggregateRelation::new(vec![field("m", DataType::Utf8)], vec![],
        vec![AggregateExpr { func: AggregateType::Min, arg: col(0, "name", DataType::Utf8), output: DataType::Utf8 }]);
    assert!(matches!(op.next(Some(text)), Err(ExecutionError::UnsupportedFunction)));
    assert!(matches!(op.next(None), Ok(Pull::Exhausted)));

    let mut op = AggregateRelation::new(vec![field("m", DataType::Int32)], vec![],
        vec![AggregateExpr { func: AggregateType::Min, arg: col(7, "x", DataType::Int32), output: DataType::Int32 }]);
    assert!(matches!(op.next(Some(labelled(vec![1], vec![1]))), Err(ExecutionError::EvaluationFailure)));

    let mut op = AggregateRelation::new(vec![field("m", DataType::Int32)], vec![],
        vec![AggregateExpr { func: AggregateType::Min, arg: col(1, "value", DataType::Int32), output: DataType::Int32 }]);
    assert!(matches!(op.next(Some(labelled(vec![1], vec![1]))), Err(ExecutionError::SchemaMismatch)));

    let mut op = AggregateRelation::new(vec![field("k", DataType::Float64), field("n", DataType::Int64)],
        vec![col(0, "k", DataType::Float64)],
        vec![AggregateExpr { func: AggregateType::Count, arg: col(0, "k", DataType::Int32), output: DataType::Int64 }]);
    assert!(matches!(op.next(Some(labelled(vec![1], vec![1]))), Err(ExecutionError::UnsupportedType)));

    let mut op = AggregateRelation::new(vec![field("wrong", DataType::Int32)], vec![],
        vec![AggregateExpr { func: AggregateType::Count, arg: col(0, "label", DataType::Int32), output: DataType::Int64 }]);
    assert!(matches!(op.next(Some(labelled(vec![1], vec![1]))), Ok(Pull::NeedInput)));
    assert!(matches!(op.next(None), Err(ExecutionError::SchemaMismatch)));

    let mut op = AggregateRelation::new(vec![field("m", DataType::Utf8)], vec![],
        vec![AggregateExpr { func: AggregateType::Max, arg: col(0, "label", DataType::Int32), output: DataType::Utf8 }]);
    assert!(matches!(op.next(Some(labelled(vec![1], vec![1]))), Err(ExecutionError::UnsupportedType)));
}

#[test]
fn accumulator_order_does_not_matter() {
    for kind in [AggregateType::Min, AggregateType::Max, AggregateType::Sum, AggregateType::Count] {
        let mut a = Accumulator::new(kind, DataType::Int64);
        let mut b = Accumulator::new(kind, DataType::Int64);
        for v in [4i64, -7, 19, 0, 3] {
            a.accumulate(v).unwrap();
        }
        for v in [3i64, 19, 4, 0, -7] {
            b.accumulate(v).unwrap();
        }
        assert_eq!(a.result(), b.result());
    }
    let mut c = Accumulator::new(AggregateType::Count, DataType::Int64);
    assert_eq!(c.result(), None);
    c.accumulate(5).unwrap();
    assert_eq!(c.result(), Some(1));
    let mut s = Accumulator::new(AggregateType::Sum, DataType::Int64);
    assert_eq!(s.result(), None);
    s.accumulate(i64::MAX).unwrap();
    s.accumulate(i64::MAX).unwrap();
    assert_eq!(s.result(), Some(2 * (i64::MAX as i128)));
}

#[test]
fn kernels_reduce_whole_columns() {
    assert_eq!(array_min(&Column::Int32(vec![5, -3, 9])), Ok(Some(-3)));
    assert_eq!(array_max(&Column::Int64(vec![5, -3, 9])), Ok(Some(9)));
    assert_eq!(array_min(&Column::Int32(vec![])), Ok(None));
    assert_eq!(array_max(&Column::Boolean(vec![true])), Err(ExecutionError::UnsupportedFunction));
}

#[test]
fn project_all_columns() {
    let batch = Batch {
        schema: vec![field("id", DataType::Int32), field("first_name", DataType::Utf8)],
        columns: vec![Column::Int32(vec![1, 2]), Column::Utf8(vec!["ann".to_string(), "bo".to_string()])],
        num_rows: 2,
    };
    let projection = ProjectRelation::new(vec![col(0, "id", DataType::Int32)], vec![field("id", DataType::Int32)]);
    let out = projection.next(Some(batch)).unwrap().unwrap();
    assert_eq!(1, out.columns.len());
    assert_eq!("id", out.schema[0].name);
    assert_eq!(int32s(&out.columns[0]), vec![1, 2]);
    assert!(projection.next(None).unwrap().is_none());
}

#[test]
fn grouped_sum_declared_int32() {
    let batch = Batch {
        schema: vec![field("label", DataType::Int32), field("v", DataType::Int32)],
        columns: vec![Column::Int32(vec![1, 2, 1, 3, 2]), Column::Int32(vec![10, 20, 30, 40, 50])],
        num_rows: 5,
    };
    let mut op = AggregateRelation::new(
        vec![field("label", DataType::Int32), field("sum_v", DataType::Int32)],
        vec![col(0, "label", DataType::Int32)],
        vec![AggregateExpr { func: AggregateType::Sum, arg: col(1, "v", DataType::Int32), output: DataType::Int32 }],
    );
    let out = run(&mut op, vec![batch]).unwrap();
    assert_eq!(out.num_rows, 3);
    assert_eq!(out.columns.len(), 2);
    assert_eq!(int32s(&out.columns[0]), vec![1, 2, 3]);
    assert_eq!(int32s(&out.columns[1]), vec![40, 70, 40]);
    assert_eq!(out.schema[1].name, "sum_v");
    assert!(matches!(op.next(None), Ok(Pull::Exhausted)));
}

#[test]
fn sum_that_does_not_fit_int32_overflows() {
    let batch = labelled(vec![1, 1], vec![i32::MAX as i64, 1]);
    let mut op = AggregateRelation::new(
        vec![field("s", DataType::Int32)],
        vec![],
        vec![AggregateExpr { func: AggregateType::Sum, arg: col(1, "value", DataType::Int64), output: DataType::Int32 }],
    );
    assert!(matches!(op.next(Some(batch)), Ok(Pull::NeedInput)));
    assert!(matches!(op.next(None), Err(ExecutionError::Overflow)));
}

#[test]
fn end_of_input_without_batches_is_end_of_stream() {
    let mut op = AggregateRelation::new(
        vec![field("n", DataType::Int64)],
        vec![],
        vec![AggregateExpr { func: AggregateType::Count, arg: col(0, "label", DataType::Int32), output: DataType::Int64 }],
    );
    assert!(matches!(op.next(None), Ok(Pull::Exhausted)));
    assert!(matches!(op.next(None), Ok(Pull::Exhausted)));
}
