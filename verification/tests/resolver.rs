use cryo::concurrency::parse_concurrency_args;
use cryo::schemas::{canonical_columns, default_sort, get_schema, ColumnType};
use cryo::types::{ColumnEncoding, ConfigError, Datatype, parse_datatype};

fn strings(v: &[&str]) -> Vec<String> {
    v.iter().map(|s| s.to_string()).collect()
}

#[test]
fn datatype_tokens_and_aliases() {
    assert_eq!(parse_datatype("blocks"), Ok(Datatype::Blocks));
    assert_eq!(parse_datatype("logs"), Ok(Datatype::Logs));
    assert_eq!(parse_datatype("events"), Ok(Datatype::Logs));
    assert_eq!(parse_datatype("transactions"), Ok(Datatype::Transactions));
    assert_eq!(parse_datatype("txs"), Ok(Datatype::Transactions));
    assert_eq!(parse_datatype("receipts"), Err(ConfigError::InvalidDatatype));
}

#[test]
fn concurrency_default_is_three_chunks() {
    assert_eq!(parse_concurrency_args(None, None, None), Ok((3, 32)));
}

#[test]
fn concurrency_single_caps() {
    assert_eq!(parse_concurrency_args(Some(90), None, None), Ok((3, 30)));
    assert_eq!(parse_concurrency_args(Some(1), None, None), Ok((3, 1)));
    assert_eq!(parse_concurrency_args(None, Some(7), None), Ok((7, 3)));
    assert_eq!(parse_concurrency_args(None, None, Some(8)), Ok((12, 8)));
    assert_eq!(parse_concurrency_args(None, None, Some(400)), Ok((1, 400)));
}

#[test]
fn concurrency_pairs() {
    assert_eq!(parse_concurrency_args(Some(40), Some(4), None), Ok((4, 10)));
    assert_eq!(parse_concurrency_args(None, Some(2), Some(4)), Ok((2, 4)));
    assert_eq!(parse_concurrency_args(Some(40), None, Some(8)), Ok((5, 8)));
}

#[test]
fn concurrency_triple_must_be_exact() {
    assert_eq!(
        parse_concurrency_args(Some(12), Some(3), Some(4)),
        Ok((3, 4))
    );
    assert_eq!(
        parse_concurrency_args(Some(10), Some(3), Some(4)),
        Err(ConfigError::IncompatibleConcurrency)
    );
}

#[test]
fn concurrency_zero_caps_are_rejected() {
    assert_eq!(
        parse_concurrency_args(None, Some(0), None),
        Err(ConfigError::ZeroConcurrency)
    );
    assert_eq!(
        parse_concurrency_args(None, None, Some(0)),
        Err(ConfigError::ZeroConcurrency)
    );
}

#[test]
fn full_blocks_schema_is_canonical() {
    let cols = canonical_columns(&Datatype::Blocks, &ColumnEncoding::Binary);
    let names: Vec<&str> = cols.iter().map(|c| c.name.as_str()).collect();
    assert_eq!(
        names,
        vec![
            "block_number",
            "block_hash",
            "parent_hash",
            "timestamp",
            "author",
            "gas_used",
            "extra_data",
            "base_fee_per_gas",
            "size",
            "transaction_count",
            "logs_bloom"
        ]
    );
    assert_eq!(cols[1].ctype, ColumnType::Binary);
    let hex_cols = canonical_columns(&Datatype::Blocks, &ColumnEncoding::Hex);
    assert_eq!(hex_cols[1].ctype, ColumnType::Hex);
    assert_eq!(hex_cols[0].ctype, ColumnType::UInt32);
}

#[test]
fn include_projection_keeps_canonical_order() {
    let s = get_schema(
        &Datatype::Blocks,
        &ColumnEncoding::Binary,
        &Some(strings(&["gas_used", "block_number"])),
        &None,
    )
    .unwrap();
    let names: Vec<&str> = s.columns.iter().map(|c| c.name.as_str()).collect();
    assert_eq!(names, vec!["block_number", "gas_used"]);
}

#[test]
fn exclude_projection_drops_columns() {
    let s = get_schema(
        &Datatype::Logs,
        &ColumnEncoding::Binary,
        &None,
        &Some(strings(&["topic2", "topic3"])),
    )
    .unwrap();
    let names: Vec<&str> = s.columns.iter().map(|c| c.name.as_str()).collect();
    assert_eq!(
        names,
        vec![
            "block_number",
            "block_hash",
            "transaction_hash",
            "transaction_index",
            "log_index",
            "address",
            "topic0",
            "topic1",
            "data"
        ]
    );
}

#[test]
fn empty_include_list_is_rejected() {
    assert!(matches!(
        get_schema(
            &Datatype::Blocks,
            &ColumnEncoding::Binary,
            &Some(strings(&[])),
            &None
        ),
        Err(ConfigError::EmptySchema)
    ));
}

#[test]
fn exclude_all_columns_is_rejected() {
    let all = strings(&[
        "block_number",
        "block_hash",
        "parent_hash",
        "timestamp",
        "author",
        "gas_used",
        "extra_data",
        "base_fee_per_gas",
        "size",
        "transaction_count",
        "logs_bloom",
    ]);
    assert!(matches!(
        get_schema(&Datatype::Blocks, &ColumnEncoding::Binary, &None, &Some(all)),
        Err(ConfigError::EmptySchema)
    ));
}

#[test]
fn unknown_columns_are_rejected() {
    assert!(matches!(
        get_schema(
            &Datatype::Blocks,
            &ColumnEncoding::Binary,
            &Some(strings(&["no_such_column"])),
            &None
        ),
        Err(ConfigError::UnknownColumn)
    ));
    assert!(matches!(
        get_schema(
            &Datatype::Blocks,
            &ColumnEncoding::Binary,
            &None,
            &Some(strings(&["no_such_column"]))
        ),
        Err(ConfigError::UnknownColumn)
    ));
}

#[test]
fn default_sort_keys_are_the_row_identity() {
    assert_eq!(default_sort(&Datatype::Blocks), strings(&["block_number"]));
    assert_eq!(
        default_sort(&Datatype::Transactions),
        strings(&["block_number", "transaction_index"])
    );
    assert_eq!(
        default_sort(&Datatype::Logs),
        strings(&["block_number", "log_index"])
    );
}
