use cryo::chunks::{get_subchunks, BlockChunk};
use cryo::csvio::write_csv;
use cryo::gather::{
    gather_blocks, gather_logs, gather_transactions, sort_blocks, sort_logs, sort_transactions,
    BlockRow, Cell, LogRow, TxRow,
};
use cryo::opts::{parse_opts, CliArgs};
use cryo::schemas::get_schema;
use cryo::strings::{
    chunk_file_name, dec_string, hex_string, network_name_from_chain_id, padded_dec_string,
    range_pad_width,
};
use cryo::types::{ColumnEncoding, ConfigError, Datatype, FileFormat};

fn strings(v: &[&str]) -> Vec<String> {
    v.iter().map(|s| s.to_string()).collect()
}

fn block_row(n: u64) -> BlockRow {
    BlockRow {
        block_number: n,
        block_hash: vec![0xaa; 32],
        parent_hash: vec![0xbb; 32],
        timestamp: 1_600_000_000,
        author: vec![0xcc; 20],
        gas_used: 1000 * n,
        extra_data: vec![],
        base_fee_per_gas: Some(7),
        size: 500,
        transaction_count: 2,
        logs_bloom: vec![0x00; 256],
    }
}

fn log_row(n: u64, ix: u32) -> LogRow {
    LogRow {
        block_number: n,
        block_hash: vec![0x11; 32],
        transaction_hash: vec![0x22; 32],
        transaction_index: 0,
        log_index: ix,
        address: vec![0xab; 20],
        topics: vec![vec![0xcd; 32]],
        data: vec![0x01, 0x02],
    }
}

fn tx_row(n: u64, ix: u32) -> TxRow {
    TxRow {
        block_number: n,
        transaction_index: ix,
        transaction_hash: vec![0x33; 32],
        nonce: 5,
        from_address: vec![0x44; 20],
        to_address: None,
        value: vec![0x00; 32],
        input: vec![],
        gas_limit: 21000,
        gas_price: Some(100),
        transaction_type: Some(2),
        max_priority_fee_per_gas: None,
        max_fee_per_gas: None,
        chain_id: Some(1),
    }
}

fn base_args() -> CliArgs {
    CliArgs {
        datatype: strings(&["blocks"]),
        blocks: strings(&["17000000:17000100"]),
        network_name: "ethereum".to_string(),
        chunk_size: 1000,
        output_dir: ".".to_string(),
        csv: false,
        hex: false,
        sort: strings(&[]),
        row_groups: None,
        row_group_size: None,
        no_stats: false,
        include_columns: None,
        exclude_columns: None,
        max_concurrent_requests: None,
        max_concurrent_chunks: None,
        max_concurrent_blocks: None,
        log_request_size: 1,
        dry: false,
    }
}

#[test]
fn batch_columns_have_equal_length() {
    let schema = get_schema(&Datatype::Blocks, &ColumnEncoding::Binary, &None, &None).unwrap();
    let rows = vec![block_row(1), block_row(2), block_row(3)];
    let batch = gather_blocks(&rows, &schema, &ColumnEncoding::Binary);
    assert_eq!(batch.n_rows, 3);
    assert_eq!(batch.columns.len(), schema.columns.len());
    for col in &batch.columns {
        assert_eq!(col.cells.len(), 3);
    }
}

#[test]
fn blocks_scenario_two_chunks_of_five_rows() {
    let range = BlockChunk {
        start_block: 17000000,
        end_block: 17000009,
    };
    let chunks = get_subchunks(&range, &5).unwrap();
    assert_eq!(chunks.len(), 2);
    let width = range_pad_width(&range);
    let mut names: Vec<String> = Vec::new();
    for c in &chunks {
        names.push(chunk_file_name(
            "ethereum",
            &Datatype::Blocks,
            c,
            width,
            &FileFormat::Parquet,
        ));
        let mut rows: Vec<BlockRow> = Vec::new();
        for h in (c.start_block..=c.end_block).rev() {
            rows.push(block_row(h));
        }
        let sorted = sort_blocks(rows);
        assert_eq!(sorted.len(), 5);
        for w in sorted.windows(2) {
            assert!(w[0].block_number < w[1].block_number);
        }
        let schema =
            get_schema(&Datatype::Blocks, &ColumnEncoding::Binary, &None, &None).unwrap();
        let batch = gather_blocks(&sorted, &schema, &ColumnEncoding::Binary);
        assert_eq!(batch.n_rows, 5);
    }
    assert_eq!(names[0], "ethereum__blocks__17000000_to_17000004.parquet");
    assert_eq!(names[1], "ethereum__blocks__17000005_to_17000009.parquet");
}

#[test]
fn logs_scenario_sorted_and_hex_encoded() {
    let rows = vec![
        log_row(17000002, 1),
        log_row(17000000, 3),
        log_row(17000002, 0),
        log_row(17000000, 1),
    ];
    let sorted = sort_logs(rows);
    let keys: Vec<(u64, u32)> = sorted
        .iter()
        .map(|r| (r.block_number, r.log_index))
        .collect();
    assert_eq!(
        keys,
        vec![(17000000, 1), (17000000, 3), (17000002, 0), (17000002, 1)]
    );
    let schema = get_schema(&Datatype::Logs, &ColumnEncoding::Hex, &None, &None).unwrap();
    let batch = gather_logs(&sorted, &schema, &ColumnEncoding::Hex);
    // topic0 is column 6, data is column 10 of the canonical logs schema
    match &batch.columns[6].cells[0] {
        Cell::OptStr(Some(s)) => {
            assert_eq!(s.len(), 2 + 64);
            assert!(s.starts_with("0xcdcd"));
        }
        _ => panic!("topic0 must be a hex string"),
    }
    match &batch.columns[10].cells[0] {
        Cell::Str(s) => assert_eq!(s, "0x0102"),
        _ => panic!("data must be a hex string"),
    }
    // topic1 was absent: encoded as an absent hex string
    match &batch.columns[7].cells[0] {
        Cell::OptStr(None) => {}
        _ => panic!("topic1 must be absent"),
    }
}

#[test]
fn transactions_csv_has_canonical_header_and_rows() {
    let rows = vec![tx_row(17000000, 1), tx_row(17000000, 0), tx_row(17000000, 2)];
    let sorted = sort_transactions(rows);
    let ixs: Vec<u32> = sorted.iter().map(|r| r.transaction_index).collect();
    assert_eq!(ixs, vec![0, 1, 2]);
    let schema = get_schema(
        &Datatype::Transactions,
        &ColumnEncoding::Binary,
        &Some(strings(&["block_number", "transaction_index", "value"])),
        &None,
    )
    .unwrap();
    let batch = gather_transactions(&sorted, &schema, &ColumnEncoding::Binary);
    let text = write_csv(&batch);
    let lines: Vec<&str> = text.lines().collect();
    assert_eq!(lines.len(), 4);
    assert_eq!(lines[0], "block_number,transaction_index,value");
    let zeros = "00".repeat(32);
    assert_eq!(lines[1], format!("17000000,0,{}", zeros));
    assert_eq!(lines[2], format!("17000000,1,{}", zeros));
    assert_eq!(lines[3], format!("17000000,2,{}", zeros));
}

#[test]
fn csv_quotes_fields_with_special_characters() {
    let schema = get_schema(
        &Datatype::Blocks,
        &ColumnEncoding::Hex,
        &Some(strings(&["block_number"])),
        &None,
    )
    .unwrap();
    let rows = vec![block_row(5)];
    let mut batch = gather_blocks(&rows, &schema, &ColumnEncoding::Hex);
    batch.columns[0].cells[0] = Cell::Str("a,\"b\"".to_string());
    let text = write_csv(&batch);
    let lines: Vec<&str> = text.lines().collect();
    assert_eq!(lines[1], "\"a,\"\"b\"\"\"");
}

#[test]
fn whole_plan_is_materialized() {
    let mut args = base_args();
    args.datatype = strings(&["blocks", "logs"]);
    args.blocks = strings(&["17000000:17000099"]);
    args.chunk_size = 50;
    args.max_concurrent_chunks = Some(2);
    args.max_concurrent_blocks = Some(4);
    let opts = parse_opts(&args).unwrap();
    assert_eq!(opts.max_concurrent_chunks, 2);
    assert_eq!(opts.max_concurrent_blocks, 4);
    assert_eq!(opts.block_chunks.len(), 2);
    assert_eq!(opts.datatypes, vec![Datatype::Blocks, Datatype::Logs]);
    assert_eq!(opts.schemas.len(), 2);
    assert_eq!(opts.sort.len(), 2);
    let width = range_pad_width(&BlockChunk {
        start_block: 17000000,
        end_block: 17000099,
    });
    let mut files: Vec<String> = Vec::new();
    for dt in &opts.datatypes {
        for c in &opts.block_chunks {
            files.push(chunk_file_name(
                "ethereum",
                dt,
                c,
                width,
                &opts.output_format,
            ));
        }
    }
    assert_eq!(files.len(), 4);
    files.sort();
    files.dedup();
    assert_eq!(files.len(), 4);
}

#[test]
fn dry_run_still_builds_the_full_plan() {
    let mut args = base_args();
    args.dry = true;
    args.blocks = strings(&["17000000:17000004"]);
    args.chunk_size = 1000;
    let opts = parse_opts(&args).unwrap();
    assert!(opts.dry_run);
    assert_eq!(opts.block_chunks.len(), 1);
    assert_eq!(opts.block_chunks[0].start_block, 17000000);
    assert_eq!(opts.block_chunks[0].end_block, 17000004);
}

#[test]
fn incompatible_concurrency_triple_is_fatal() {
    let mut args = base_args();
    args.max_concurrent_requests = Some(10);
    args.max_concurrent_chunks = Some(3);
    args.max_concurrent_blocks = Some(4);
    assert!(matches!(
        parse_opts(&args),
        Err(ConfigError::IncompatibleConcurrency)
    ));
}

#[test]
fn custom_sort_needs_single_datatype() {
    let mut args = base_args();
    args.datatype = strings(&["blocks", "logs"]);
    args.sort = strings(&["gas_used"]);
    assert!(matches!(
        parse_opts(&args),
        Err(ConfigError::SortWithMultipleDatatypes)
    ));
    let mut args2 = base_args();
    args2.sort = strings(&["gas_used"]);
    let opts = parse_opts(&args2).unwrap();
    assert_eq!(opts.sort[0].1, strings(&["gas_used"]));
    let mut args3 = base_args();
    args3.sort = strings(&["log_index"]);
    assert!(matches!(parse_opts(&args3), Err(ConfigError::UnknownColumn)));
}

#[test]
fn sort_keys_must_exist_in_projected_schema() {
    let mut args = base_args();
    args.exclude_columns = Some(strings(&["block_number"]));
    assert!(matches!(parse_opts(&args), Err(ConfigError::UnknownColumn)));
}

#[test]
fn datatype_duplicates_share_one_schema() {
    let mut args = base_args();
    args.datatype = strings(&["blocks", "blocks"]);
    let opts = parse_opts(&args).unwrap();
    assert_eq!(opts.datatypes.len(), 2);
    assert_eq!(opts.schemas.len(), 1);
}

#[test]
fn invalid_datatype_is_fatal() {
    let mut args = base_args();
    args.datatype = strings(&["receipts"]);
    assert!(matches!(parse_opts(&args), Err(ConfigError::InvalidDatatype)));
}

#[test]
fn zero_log_request_size_is_fatal() {
    let mut args = base_args();
    args.log_request_size = 0;
    assert!(matches!(parse_opts(&args), Err(ConfigError::ZeroLogRequestSize)));
}

#[test]
fn decimal_and_padded_formatting() {
    assert_eq!(dec_string(0), "0");
    assert_eq!(dec_string(17000000), "17000000");
    assert_eq!(padded_dec_string(7, 3), "007");
    assert_eq!(padded_dec_string(17000000, 3), "17000000");
}

#[test]
fn hex_formatting_is_lowercase_two_digits_per_byte() {
    assert_eq!(hex_string(&vec![]), "");
    assert_eq!(hex_string(&vec![0x00, 0xff, 0x1a]), "00ff1a");
}

#[test]
fn network_names_from_chain_ids() {
    assert_eq!(network_name_from_chain_id(1), "ethereum");
    assert_eq!(network_name_from_chain_id(5), "network_5");
    assert_eq!(network_name_from_chain_id(42161), "network_42161");
}

#[test]
fn csv_file_names_use_csv_extension() {
    let c = BlockChunk {
        start_block: 0,
        end_block: 99,
    };
    let name = chunk_file_name("network_5", &Datatype::Logs, &c, 2, &FileFormat::Csv);
    assert_eq!(name, "network_5__logs__00_to_99.csv");
}

#[test]
fn csv_field_round_trip() {
    let cases = [
        "",
        "plain",
        "with,comma",
        "with\"quote",
        "\"quoted\"",
        "line\nbreak",
        "a,\"b\",c\r\n",
    ];
    for s in cases {
        let quoted = cryo::csvio::csv_quote(s);
        assert_eq!(cryo::csvio::read_csv_field(&quoted), s);
    }
    // quoting is applied exactly when a special character occurs
    assert_eq!(cryo::csvio::csv_quote("plain"), "plain");
    assert_eq!(cryo::csvio::csv_quote("a,b"), "\"a,b\"");
}

#[test]
fn empty_datatype_list_is_fatal() {
    let mut args = base_args();
    args.datatype = strings(&[]);
    assert!(matches!(parse_opts(&args), Err(ConfigError::NoDatatypes)));
}

#[test]
fn invalid_range_token_is_fatal() {
    let mut args = base_args();
    args.blocks = strings(&["17000000:17000100", "oops"]);
    assert!(matches!(parse_opts(&args), Err(ConfigError::InvalidRange)));
}
