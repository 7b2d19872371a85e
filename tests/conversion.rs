use neo4j_parallel_loader::{
    convert_value, properties, relationship_parts, Column, LoadError, Property, RawValue,
    RelationshipWrite, Row, StoreValue,
};

fn col(name: &str, value: RawValue) -> Column {
    Column { name: name.to_string(), value }
}

#[test]
fn values_keep_their_kind() {
    let c = "c".to_string();
    assert_eq!(convert_value(&c, &RawValue::Null), Ok(StoreValue::Null));
    assert_eq!(convert_value(&c, &RawValue::Bool(true)), Ok(StoreValue::Boolean(true)));
    assert_eq!(convert_value(&c, &RawValue::Int(-7)), Ok(StoreValue::Integer(-7)));
    let bits = 2.5f64.to_bits();
    assert_eq!(convert_value(&c, &RawValue::Float(bits)), Ok(StoreValue::Float(bits)));
    assert_eq!(
        convert_value(&c, &RawValue::Text("x".to_string())),
        Ok(StoreValue::String("x".to_string()))
    );
}

#[test]
fn nested_value_is_a_conversion_error() {
    let c = "tags".to_string();
    assert_eq!(
        convert_value(&c, &RawValue::Nested("[1,2]".to_string())),
        Err(LoadError::Conversion("tags".to_string(), "[1,2]".to_string()))
    );
}

#[test]
fn node_properties_cover_every_column() {
    let row = Row { columns: vec![col("id", RawValue::Int(1)), col("name", RawValue::Text("Ann".to_string()))] };
    let props = properties(&row, &Vec::new()).unwrap();
    assert_eq!(
        props,
        vec![
            Property { key: "id".to_string(), value: StoreValue::Integer(1) },
            Property { key: "name".to_string(), value: StoreValue::String("Ann".to_string()) },
        ]
    );
}

#[test]
fn excluded_columns_are_left_out() {
    let row = Row { columns: vec![col("a", RawValue::Int(1)), col("b", RawValue::Int(2)), col("c", RawValue::Null)] };
    let props = properties(&row, &vec!["b".to_string()]).unwrap();
    assert_eq!(
        props,
        vec![
            Property { key: "a".to_string(), value: StoreValue::Integer(1) },
            Property { key: "c".to_string(), value: StoreValue::Null },
        ]
    );
}

#[test]
fn first_unconvertible_column_fails_the_row() {
    let row = Row {
        columns: vec![
            col("a", RawValue::Int(1)),
            col("b", RawValue::Nested("{}".to_string())),
            col("c", RawValue::Nested("[]".to_string())),
        ],
    };
    assert_eq!(
        properties(&row, &Vec::new()),
        Err(LoadError::Conversion("b".to_string(), "{}".to_string()))
    );
}

#[test]
fn relationship_row_splits_ids_and_properties() {
    let row = Row {
        columns: vec![
            col("start_id", RawValue::Int(1)),
            col("end_id", RawValue::Int(2)),
            col("since", RawValue::Int(2020)),
        ],
    };
    let w = relationship_parts(&row, "start_id", "end_id").unwrap();
    assert_eq!(
        w,
        RelationshipWrite {
            start: StoreValue::Integer(1),
            end: StoreValue::Integer(2),
            properties: vec![Property { key: "since".to_string(), value: StoreValue::Integer(2020) }],
        }
    );
}

#[test]
fn relationship_row_without_end_column() {
    let row = Row { columns: vec![col("start_id", RawValue::Int(1)), col("since", RawValue::Int(2021))] };
    assert_eq!(
        relationship_parts(&row, "start_id", "end_id"),
        Err(LoadError::MissingColumn("end_id".to_string()))
    );
}

#[test]
fn relationship_row_without_start_column() {
    let row = Row { columns: vec![col("end_id", RawValue::Int(1))] };
    assert_eq!(
        relationship_parts(&row, "start_id", "end_id"),
        Err(LoadError::MissingColumn("start_id".to_string()))
    );
}

#[test]
fn conversion_error_comes_before_missing_column() {
    let row = Row { columns: vec![col("start_id", RawValue::Int(1)), col("x", RawValue::Nested("[]".to_string()))] };
    assert_eq!(
        relationship_parts(&row, "start_id", "end_id"),
        Err(LoadError::Conversion("x".to_string(), "[]".to_string()))
    );
}
