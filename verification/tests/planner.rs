use cryo::chunks::{
    get_subchunks, get_total_blocks, log_call_ranges, parse_block_inputs, parse_block_token,
    BlockChunk,
};
use cryo::types::ConfigError;

fn strings(v: &[&str]) -> Vec<String> {
    v.iter().map(|s| s.to_string()).collect()
}

#[test]
fn single_token_equals_pair_token() {
    let a = parse_block_token("17000005").unwrap();
    let b = parse_block_token("17000005:17000005").unwrap();
    assert_eq!(a, b);
    assert_eq!(a.start_block, 17000005);
    assert_eq!(a.end_block, 17000005);
}

#[test]
fn pair_token_parses_range() {
    let c = parse_block_token("17000000:17000100").unwrap();
    assert_eq!(c.start_block, 17000000);
    assert_eq!(c.end_block, 17000100);
}

#[test]
fn bad_tokens_are_rejected() {
    assert_eq!(parse_block_token(""), Err(ConfigError::InvalidRange));
    assert_eq!(parse_block_token("abc"), Err(ConfigError::InvalidRange));
    assert_eq!(parse_block_token("5:"), Err(ConfigError::InvalidRange));
    assert_eq!(parse_block_token(":5"), Err(ConfigError::InvalidRange));
    assert_eq!(parse_block_token("9:5"), Err(ConfigError::InvalidRange));
    assert_eq!(
        parse_block_token("99999999999999999999999"),
        Err(ConfigError::InvalidRange)
    );
}

#[test]
fn chunks_tile_range_exactly() {
    let range = BlockChunk {
        start_block: 17000000,
        end_block: 17000009,
    };
    let chunks = get_subchunks(&range, &5).unwrap();
    assert_eq!(chunks.len(), 2);
    assert_eq!(chunks[0].start_block, 17000000);
    assert_eq!(chunks[0].end_block, 17000004);
    assert_eq!(chunks[1].start_block, 17000005);
    assert_eq!(chunks[1].end_block, 17000009);
    assert_eq!(get_total_blocks(&chunks), 10);
}

#[test]
fn final_chunk_is_truncated() {
    let range = BlockChunk {
        start_block: 0,
        end_block: 6,
    };
    let chunks = get_subchunks(&range, &3).unwrap();
    assert_eq!(chunks.len(), 3);
    assert_eq!(chunks[2].start_block, 6);
    assert_eq!(chunks[2].end_block, 6);
}

#[test]
fn oversized_chunk_size_gives_one_chunk() {
    let range = BlockChunk {
        start_block: 17000000,
        end_block: 17000004,
    };
    let chunks = get_subchunks(&range, &1000).unwrap();
    assert_eq!(chunks.len(), 1);
    assert_eq!(chunks[0], range);
}

#[test]
fn zero_chunk_size_is_rejected() {
    let range = BlockChunk {
        start_block: 0,
        end_block: 9,
    };
    assert_eq!(get_subchunks(&range, &0), Err(ConfigError::ZeroChunkSize));
}

#[test]
fn block_inputs_take_union() {
    let c = parse_block_inputs(&strings(&["17000000:17000009", "17000020"])).unwrap();
    assert_eq!(c.start_block, 17000000);
    assert_eq!(c.end_block, 17000020);
}

#[test]
fn empty_block_inputs_are_rejected() {
    assert_eq!(
        parse_block_inputs(&strings(&[])),
        Err(ConfigError::EmptyRange)
    );
}

#[test]
fn log_calls_cover_chunk_in_subranges() {
    let chunk = BlockChunk {
        start_block: 17000000,
        end_block: 17000003,
    };
    let calls = log_call_ranges(&chunk, &2).unwrap();
    assert_eq!(calls.len(), 2);
    assert_eq!(calls[0].start_block, 17000000);
    assert_eq!(calls[0].end_block, 17000001);
    assert_eq!(calls[1].start_block, 17000002);
    assert_eq!(calls[1].end_block, 17000003);
}

#[test]
fn oversized_log_request_gives_one_call() {
    let chunk = BlockChunk {
        start_block: 17000000,
        end_block: 17000003,
    };
    let calls = log_call_ranges(&chunk, &1000).unwrap();
    assert_eq!(calls.len(), 1);
    assert_eq!(calls[0], chunk);
}

#[test]
fn zero_log_request_size_is_rejected() {
    let chunk = BlockChunk {
        start_block: 0,
        end_block: 3,
    };
    assert_eq!(
        log_call_ranges(&chunk, &0),
        Err(ConfigError::ZeroLogRequestSize)
    );
}
