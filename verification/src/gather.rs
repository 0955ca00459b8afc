use crate::schemas::Schema;
use crate::strings::{hex0x_of, hex0x_string};
use crate::types::ColumnEncoding;
use vstd::multiset::Multiset;
use vstd::prelude::*;

verus! {

/// One block header's fields, as plain values.
pub struct BlockRow {
    pub block_number: u64,
    pub block_hash: Vec<u8>,
    pub parent_hash: Vec<u8>,
    pub timestamp: u32,
    pub author: Vec<u8>,
    pub gas_used: u64,
    pub extra_data: Vec<u8>,
    pub base_fee_per_gas: Option<u64>,
    pub size: u64,
    pub transaction_count: u32,
    pub logs_bloom: Vec<u8>,
}

/// One transaction's fields, as plain values; `value` is the 32-byte
/// big-endian form of the transferred amount.
pub struct TxRow {
    pub block_number: u64,
    pub transaction_index: u32,
    pub transaction_hash: Vec<u8>,
    pub nonce: u64,
    pub from_address: Vec<u8>,
    pub to_address: Option<Vec<u8>>,
    pub value: Vec<u8>,
    pub input: Vec<u8>,
    pub gas_limit: u64,
    pub gas_price: Option<u64>,
    pub transaction_type: Option<u64>,
    pub max_priority_fee_per_gas: Option<u64>,
    pub max_fee_per_gas: Option<u64>,
    pub chain_id: Option<u64>,
}

/// One event log's fields, as plain values; `topics` holds up to four
/// 32-byte topics.
pub struct LogRow {
    pub block_number: u64,
    pub block_hash: Vec<u8>,
    pub transaction_hash: Vec<u8>,
    pub transaction_index: u32,
    pub log_index: u32,
    pub address: Vec<u8>,
    pub topics: Vec<Vec<u8>>,
    pub data: Vec<u8>,
}

/// One value of one column at one row.
pub enum Cell {
    UInt(u64),
    OptUInt(Option<u64>),
    Bytes(Vec<u8>),
    OptBytes(Option<Vec<u8>>),
    Str(String),
    OptStr(Option<String>),
}

/// The mathematical value of a cell.
pub enum CellV {
    UInt(int),
    OptUInt(Option<int>),
    Bytes(Seq<u8>),
    OptBytes(Option<Seq<u8>>),
    Str(Seq<char>),
    OptStr(Option<Seq<char>>),
}

pub open spec fn cell_view(c: Cell) -> CellV {
    match c {
        Cell::UInt(n) => CellV::UInt(n as int),
        Cell::OptUInt(o) => CellV::OptUInt(
            match o {
                Some(n) => Some(n as int),
                None => None,
            },
        ),
        Cell::Bytes(b) => CellV::Bytes(b@),
        Cell::OptBytes(o) => CellV::OptBytes(
            match o {
                Some(b) => Some(b@),
                None => None,
            },
        ),
        Cell::Str(s) => CellV::Str(s@),
        Cell::OptStr(o) => CellV::OptStr(
            match o {
                Some(s) => Some(s@),
                None => None,
            },
        ),
    }
}

/// A cell after the binary-column encoding choice is applied: bytes stay raw
/// under `Binary` and become `0x`-prefixed lowercase hex strings under `Hex`.
pub open spec fn encode_cell(c: CellV, enc: ColumnEncoding) -> CellV {
    match c {
        CellV::Bytes(b) => match enc {
            ColumnEncoding::Binary => CellV::Bytes(b),
            ColumnEncoding::Hex => CellV::Str(hex0x_of(b)),
        },
        CellV::OptBytes(o) => match enc {
            ColumnEncoding::Binary => CellV::OptBytes(o),
            ColumnEncoding::Hex => CellV::OptStr(
                match o {
                    Some(b) => Some(hex0x_of(b)),
                    None => None,
                },
            ),
        },
        _ => c,
    }
}

/// What a blocks row holds at a column, before encoding.
pub open spec fn block_cell(r: BlockRow, name: Seq<char>) -> CellV {
    if name == "block_number"@ {
        CellV::UInt(r.block_number as int)
    } else if name == "block_hash"@ {
        CellV::Bytes(r.block_hash@)
    } else if name == "parent_hash"@ {
        CellV::Bytes(r.parent_hash@)
    } else if name == "timestamp"@ {
        CellV::UInt(r.timestamp as int)
    } else if name == "author"@ {
        CellV::Bytes(r.author@)
    } else if name == "gas_used"@ {
        CellV::UInt(r.gas_used as int)
    } else if name == "extra_data"@ {
        CellV::Bytes(r.extra_data@)
    } else if name == "base_fee_per_gas"@ {
        CellV::OptUInt(
            match r.base_fee_per_gas {
                Some(n) => Some(n as int),
                None => None,
            },
        )
    } else if name == "size"@ {
        CellV::UInt(r.size as int)
    } else if name == "transaction_count"@ {
        CellV::UInt(r.transaction_count as int)
    } else if name == "logs_bloom"@ {
        CellV::Bytes(r.logs_bloom@)
    } else {
        CellV::OptUInt(None)
    }
}

/// What a transactions row holds at a column, before encoding.
pub open spec fn tx_cell(r: TxRow, name: Seq<char>) -> CellV {
    if name == "block_number"@ {
        CellV::UInt(r.block_number as int)
    } else if name == "transaction_index"@ {
        CellV::UInt(r.transaction_index as int)
    } else if name == "transaction_hash"@ {
        CellV::Bytes(r.transaction_hash@)
    } else if name == "nonce"@ {
        CellV::UInt(r.nonce as int)
    } else if name == "from_address"@ {
        CellV::Bytes(r.from_address@)
    } else if name == "to_address"@ {
        CellV::OptBytes(
            match r.to_address {
                Some(b) => Some(b@),
                None => None,
            },
        )
    } else if name == "value"@ {
        CellV::Bytes(r.value@)
    } else if name == "input"@ {
        CellV::Bytes(r.input@)
    } else if name == "gas_limit"@ {
        CellV::UInt(r.gas_limit as int)
    } else if name == "gas_price"@ {
        CellV::OptUInt(
            match r.gas_price {
                Some(n) => Some(n as int),
                None => None,
            },
        )
    } else if name == "transaction_type"@ {
        CellV::OptUInt(
            match r.transaction_type {
                Some(n) => Some(n as int),
                None => None,
            },
        )
    } else if name == "max_priority_fee_per_gas"@ {
        CellV::OptUInt(
            match r.max_priority_fee_per_gas {
                Some(n) => Some(n as int),
                None => None,
            },
        )
    } else if name == "max_fee_per_gas"@ {
        CellV::OptUInt(
            match r.max_fee_per_gas {
                Some(n) => Some(n as int),
                None => None,
            },
        )
    } else if name == "chain_id"@ {
        CellV::OptUInt(
            match r.chain_id {
                Some(n) => Some(n as int),
                None => None,
            },
        )
    } else {
        CellV::OptUInt(None)
    }
}

/// What a logs row holds at a column, before encoding.
pub open spec fn log_cell(r: LogRow, name: Seq<char>) -> CellV {
    if name == "block_number"@ {
        CellV::UInt(r.block_number as int)
    } else if name == "block_hash"@ {
        CellV::Bytes(r.block_hash@)
    } else if name == "transaction_hash"@ {
        CellV::Bytes(r.transaction_hash@)
    } else if name == "transaction_index"@ {
        CellV::UInt(r.transaction_index as int)
    } else if name == "log_index"@ {
        CellV::UInt(r.log_index as int)
    } else if name == "address"@ {
        CellV::Bytes(r.address@)
    } else if name == "topic0"@ {
        CellV::OptBytes(
            if r.topics@.len() > 0 {
                Some(r.topics@[0]@)
            } else {
                None
            },
        )
    } else if name == "topic1"@ {
        CellV::OptBytes(
            if r.topics@.len() > 1 {
                Some(r.topics@[1]@)
            } else {
                None
            },
        )
    } else if name == "topic2"@ {
        CellV::OptBytes(
            if r.topics@.len() > 2 {
                Some(r.topics@[2]@)
            } else {
                None
            },
        )
    } else if name == "topic3"@ {
        CellV::OptBytes(
            if r.topics@.len() > 3 {
                Some(r.topics@[3]@)
            } else {
                None
            },
        )
    } else if name == "data"@ {
        CellV::Bytes(r.data@)
    } else {
        CellV::OptUInt(None)
    }
}

fn clone_bytes(b: &Vec<u8>) -> (r: Vec<u8>)
    ensures
        r@ == b@,
{
    let mut out: Vec<u8> = Vec::new();
    let mut i: usize = 0;
    while i < b.len()
        invariant
            0 <= i <= b@.len(),
            out@ == b@.take(i as int),
        decreases b@.len() - i,
    {
        out.push(b[i]);
        proof {
            assert(out@ =~= b@.take(i + 1));
        }
        i = i + 1;
    }
    proof {
        assert(b@.take(b@.len() as int) =~= b@);
    }
    out
}

/// Encode a bytes value as a cell under the encoding choice.
fn encode_bytes(b: &Vec<u8>, enc: &ColumnEncoding) -> (c: Cell)
    ensures
        cell_view(c) == encode_cell(CellV::Bytes(b@), *enc),
{
    match enc {
        ColumnEncoding::Binary => Cell::Bytes(clone_bytes(b)),
        ColumnEncoding::Hex => Cell::Str(hex0x_string(b)),
    }
}

/// Encode an optional bytes value as a cell under the encoding choice.
fn encode_opt_bytes(b: &Option<Vec<u8>>, enc: &ColumnEncoding) -> (c: Cell)
    ensures
        cell_view(c) == encode_cell(
            CellV::OptBytes(
                match *b {
                    Some(v) => Some(v@),
                    None => None,
                },
            ),
            *enc,
        ),
{
    match b.as_ref() {
        Some(v) => match enc {
            ColumnEncoding::Binary => Cell::OptBytes(Some(clone_bytes(v))),
            ColumnEncoding::Hex => Cell::OptStr(Some(hex0x_string(v))),
        },
        None => match enc {
            ColumnEncoding::Binary => Cell::OptBytes(None),
            ColumnEncoding::Hex => Cell::OptStr(None),
        },
    }
}

/// The cell of one blocks row at one column, encoded.
fn block_cell_exec(r: &BlockRow, name: &String, enc: &ColumnEncoding) -> (c: Cell)
    ensures
        cell_view(c) == encode_cell(block_cell(*r, name@), *enc),
{
    if *name == "block_number".to_owned() {
        Cell::UInt(r.block_number)
    } else if *name == "block_hash".to_owned() {
        encode_bytes(&r.block_hash, enc)
    } else if *name == "parent_hash".to_owned() {
        encode_bytes(&r.parent_hash, enc)
    } else if *name == "timestamp".to_owned() {
        Cell::UInt(r.timestamp as u64)
    } else if *name == "author".to_owned() {
        encode_bytes(&r.author, enc)
    } else if *name == "gas_used".to_owned() {
        Cell::UInt(r.gas_used)
    } else if *name == "extra_data".to_owned() {
        encode_bytes(&r.extra_data, enc)
    } else if *name == "base_fee_per_gas".to_owned() {
        Cell::OptUInt(r.base_fee_per_gas)
    } else if *name == "size".to_owned() {
        Cell::UInt(r.size)
    } else if *name == "transaction_count".to_owned() {
        Cell::UInt(r.transaction_count as u64)
    } else if *name == "logs_bloom".to_owned() {
        encode_bytes(&r.logs_bloom, enc)
    } else {
        Cell::OptUInt(None)
    }
}

/// The cell of one transactions row at one column, encoded.
fn tx_cell_exec(r: &TxRow, name: &String, enc: &ColumnEncoding) -> (c: Cell)
    ensures
        cell_view(c) == encode_cell(tx_cell(*r, name@), *enc),
{
    if *name == "block_number".to_owned() {
        Cell::UInt(r.block_number)
    } else if *name == "transaction_index".to_owned() {
        Cell::UInt(r.transaction_index as u64)
    } else if *name == "transaction_hash".to_owned() {
        encode_bytes(&r.transaction_hash, enc)
    } else if *name == "nonce".to_owned() {
        Cell::UInt(r.nonce)
    } else if *name == "from_address".to_owned() {
        encode_bytes(&r.from_address, enc)
    } else if *name == "to_address".to_owned() {
        encode_opt_bytes(&r.to_address, enc)
    } else if *name == "value".to_owned() {
        encode_bytes(&r.value, enc)
    } else if *name == "input".to_owned() {
        encode_bytes(&r.input, enc)
    } else if *name == "gas_limit".to_owned() {
        Cell::UInt(r.gas_limit)
    } else if *name == "gas_price".to_owned() {
        Cell::OptUInt(r.gas_price)
    } else if *name == "transaction_type".to_owned() {
        Cell::OptUInt(r.transaction_type)
    } else if *name == "max_priority_fee_per_gas".to_owned() {
        Cell::OptUInt(r.max_priority_fee_per_gas)
    } else if *name == "max_fee_per_gas".to_owned() {
        Cell::OptUInt(r.max_fee_per_gas)
    } else if *name == "chain_id".to_owned() {
        Cell::OptUInt(r.chain_id)
    } else {
        Cell::OptUInt(None)
    }
}

fn topic_cell(r: &LogRow, i: usize, enc: &ColumnEncoding) -> (c: Cell)
    ensures
        cell_view(c) == encode_cell(
            CellV::OptBytes(
                if r.topics@.len() > i {
                    Some(r.topics@[i as int]@)
                } else {
                    None
                },
            ),
            *enc,
        ),
{
    if i < r.topics.len() {
        match enc {
            ColumnEncoding::Binary => Cell::OptBytes(Some(clone_bytes(&r.topics[i]))),
            ColumnEncoding::Hex => Cell::OptStr(Some(hex0x_string(&r.topics[i]))),
        }
    } else {
        match enc {
            ColumnEncoding::Binary => Cell::OptBytes(None),
            ColumnEncoding::Hex => Cell::OptStr(None),
        }
    }
}

/// The cell of one logs row at one column, encoded.
fn log_cell_exec(r: &LogRow, name: &String, enc: &ColumnEncoding) -> (c: Cell)
    ensures
        cell_view(c) == encode_cell(log_cell(*r, name@), *enc),
{
    if *name == "block_number".to_owned() {
        Cell::UInt(r.block_number)
    } else if *name == "block_hash".to_owned() {
        encode_bytes(&r.block_hash, enc)
    } else if *name == "transaction_hash".to_owned() {
        encode_bytes(&r.transaction_hash, enc)
    } else if *name == "transaction_index".to_owned() {
        Cell::UInt(r.transaction_index as u64)
    } else if *name == "log_index".to_owned() {
        Cell::UInt(r.log_index as u64)
    } else if *name == "address".to_owned() {
        encode_bytes(&r.address, enc)
    } else if *name == "topic0".to_owned() {
        topic_cell(r, 0, enc)
    } else if *name == "topic1".to_owned() {
        topic_cell(r, 1, enc)
    } else if *name == "topic2".to_owned() {
        topic_cell(r, 2, enc)
    } else if *name == "topic3".to_owned() {
        topic_cell(r, 3, enc)
    } else if *name == "data".to_owned() {
        encode_bytes(&r.data, enc)
    } else {
        Cell::OptUInt(None)
    }
}

/// One assembled output column: a name and one cell per row.
pub struct ColumnData {
    pub name: String,
    pub cells: Vec<Cell>,
}

/// The set of equal-length column vectors produced for one (chunk, datatype)
/// pair, ready for serialization.
pub struct Batch {
    pub columns: Vec<ColumnData>,
    pub n_rows: usize,
}

impl Batch {
    /// Every column vector has exactly one cell per row.
    pub open spec fn wf(self) -> bool {
        forall|j: int|
            0 <= j < self.columns@.len() ==> (#[trigger] self.columns@[j]).cells@.len()
                == self.n_rows
    }

    /// The batch has the schema's columns, in the schema's order.
    pub open spec fn matches_schema(self, schema: Schema) -> bool {
        self.columns@.len() == schema.columns@.len() && forall|j: int|
            0 <= j < self.columns@.len() ==> (#[trigger] self.columns@[j]).name@
                == schema.names()[j]
    }
}


broadcast use vstd::seq_lib::group_to_multiset_ensures;

/// Blocks order: by block number.
pub open spec fn block_le(a: BlockRow, b: BlockRow) -> bool {
    a.block_number <= b.block_number
}

/// Transactions order: by (block number, transaction index).
pub open spec fn tx_le(a: TxRow, b: TxRow) -> bool {
    a.block_number < b.block_number || (a.block_number == b.block_number
        && a.transaction_index <= b.transaction_index)
}

/// Logs order: by (block number, log index).
pub open spec fn log_le(a: LogRow, b: LogRow) -> bool {
    a.block_number < b.block_number || (a.block_number == b.block_number && a.log_index
        <= b.log_index)
}

pub open spec fn sorted_blocks(s: Seq<BlockRow>) -> bool {
    forall|i: int, j: int| 0 <= i < j < s.len() ==> block_le(#[trigger] s[i], #[trigger] s[j])
}

pub open spec fn sorted_txs(s: Seq<TxRow>) -> bool {
    forall|i: int, j: int| 0 <= i < j < s.len() ==> tx_le(#[trigger] s[i], #[trigger] s[j])
}

pub open spec fn sorted_logs(s: Seq<LogRow>) -> bool {
    forall|i: int, j: int| 0 <= i < j < s.len() ==> log_le(#[trigger] s[i], #[trigger] s[j])
}

/// Sort blocks rows ascending by block number; the result is a permutation
/// of the input.
pub fn sort_blocks(rows: Vec<BlockRow>) -> (r: Vec<BlockRow>)
    ensures
        sorted_blocks(r@),
        r@.to_multiset() == rows@.to_multiset(),
{
    let mut src = rows;
    let mut out: Vec<BlockRow> = Vec::new();
    proof {
        assert(out@.to_multiset().add(src@.to_multiset()) =~= src@.to_multiset());
    }
    let ghost all = src@;
    while src.len() > 0
        invariant
            sorted_blocks(out@),
            out@.to_multiset().add(src@.to_multiset()) == all.to_multiset(),
        decreases src@.len(),
    {
        let ghost src0 = src@;
        let ghost out0 = out@;
        let x = src.pop().unwrap();
        proof {
            assert(src0 =~= src@.push(x));
        }
        let mut k: usize = 0;
        while k < out.len()
            invariant
                0 <= k <= out@.len(),
                out@ == out0,
                forall|j: int| 0 <= j < k ==> block_le(#[trigger] out@[j], x),
            ensures
                0 <= k <= out@.len(),
                out@ == out0,
                forall|j: int| 0 <= j < k ==> block_le(#[trigger] out@[j], x),
                k < out@.len() ==> !block_le(out@[k as int], x),
            decreases out@.len() - k,
        {
            if x.block_number < out[k].block_number {
                break ;
            }
            k = k + 1;
        }
        out.insert(k, x);
        proof {
            assert(out@.remove(k as int) =~= out0);
            assert(out@[k as int] == x);
            assert(out@.contains(x)) by {
                assert(out@[k as int] == x);
            }
            assert(out@.to_multiset() =~= out0.to_multiset().insert(x));
            assert(out@.to_multiset().add(src@.to_multiset()) =~= all.to_multiset());
            assert forall|i: int, j: int| 0 <= i < j < out@.len() implies block_le(
                #[trigger] out@[i],
                #[trigger] out@[j],
            ) by {
                assert(out0 =~= out@.remove(k as int));
            }
        }
    }
    proof {
        assert(src@.to_multiset() =~= Multiset::<BlockRow>::empty());
        assert(out@.to_multiset() =~= all.to_multiset());
    }
    out
}

/// Sort transaction rows ascending by (block number, transaction index);
/// the result is a permutation of the input.
pub fn sort_transactions(rows: Vec<TxRow>) -> (r: Vec<TxRow>)
    ensures
        sorted_txs(r@),
        r@.to_multiset() == rows@.to_multiset(),
{
    let mut src = rows;
    let mut out: Vec<TxRow> = Vec::new();
    proof {
        assert(out@.to_multiset().add(src@.to_multiset()) =~= src@.to_multiset());
    }
    let ghost all = src@;
    while src.len() > 0
        invariant
            sorted_txs(out@),
            out@.to_multiset().add(src@.to_multiset()) == all.to_multiset(),
        decreases src@.len(),
    {
        let ghost src0 = src@;
        let ghost out0 = out@;
        let x = src.pop().unwrap();
        proof {
            assert(src0 =~= src@.push(x));
        }
        let mut k: usize = 0;
        while k < out.len()
            invariant
                0 <= k <= out@.len(),
                out@ == out0,
                forall|j: int| 0 <= j < k ==> tx_le(#[trigger] out@[j], x),
            ensures
                0 <= k <= out@.len(),
                out@ == out0,
                forall|j: int| 0 <= j < k ==> tx_le(#[trigger] out@[j], x),
                k < out@.len() ==> !tx_le(out@[k as int], x),
            decreases out@.len() - k,
        {
            let c = &out[k];
            if x.block_number < c.block_number || (x.block_number == c.block_number
                && x.transaction_index < c.transaction_index) {
                break ;
            }
            k = k + 1;
        }
        out.insert(k, x);
        proof {
            assert(out@.remove(k as int) =~= out0);
            assert(out@[k as int] == x);
            assert(out@.contains(x)) by {
                assert(out@[k as int] == x);
            }
            assert(out@.to_multiset() =~= out0.to_multiset().insert(x));
            assert(out@.to_multiset().add(src@.to_multiset()) =~= all.to_multiset());
            assert forall|i: int, j: int| 0 <= i < j < out@.len() implies tx_le(
                #[trigger] out@[i],
                #[trigger] out@[j],
            ) by {
                assert(out0 =~= out@.remove(k as int));
            }
        }
    }
    proof {
        assert(src@.to_multiset() =~= Multiset::<TxRow>::empty());
        assert(out@.to_multiset() =~= all.to_multiset());
    }
    out
}

/// Sort log rows ascending by (block number, log index); the result is a
/// permutation of the input.
pub fn sort_logs(rows: Vec<LogRow>) -> (r: Vec<LogRow>)
    ensures
        sorted_logs(r@),
        r@.to_multiset() == rows@.to_multiset(),
{
    let mut src = rows;
    let mut out: Vec<LogRow> = Vec::new();
    proof {
        assert(out@.to_multiset().add(src@.to_multiset()) =~= src@.to_multiset());
    }
    let ghost all = src@;
    while src.len() > 0
        invariant
            sorted_logs(out@),
            out@.to_multiset().add(src@.to_multiset()) == all.to_multiset(),
        decreases src@.len(),
    {
        let ghost src0 = src@;
        let ghost out0 = out@;
        let x = src.pop().unwrap();
        proof {
            assert(src0 =~= src@.push(x));
        }
        let mut k: usize = 0;
        while k < out.len()
            invariant
                0 <= k <= out@.len(),
                out@ == out0,
                forall|j: int| 0 <= j < k ==> log_le(#[trigger] out@[j], x),
            ensures
                0 <= k <= out@.len(),
                out@ == out0,
                forall|j: int| 0 <= j < k ==> log_le(#[trigger] out@[j], x),
                k < out@.len() ==> !log_le(out@[k as int], x),
            decreases out@.len() - k,
        {
            let c = &out[k];
            if x.block_number < c.block_number || (x.block_number == c.block_number && x.log_index
                < c.log_index) {
                break ;
            }
            k = k + 1;
        }
        out.insert(k, x);
        proof {
            assert(out@.remove(k as int) =~= out0);
            assert(out@[k as int] == x);
            assert(out@.contains(x)) by {
                assert(out@[k as int] == x);
            }
            assert(out@.to_multiset() =~= out0.to_multiset().insert(x));
            assert(out@.to_multiset().add(src@.to_multiset()) =~= all.to_multiset());
            assert forall|i: int, j: int| 0 <= i < j < out@.len() implies log_le(
                #[trigger] out@[i],
                #[trigger] out@[j],
            ) by {
                assert(out0 =~= out@.remove(k as int));
            }
        }
    }
    proof {
        assert(src@.to_multiset() =~= Multiset::<LogRow>::empty());
        assert(out@.to_multiset() =~= all.to_multiset());
    }
    out
}

fn blocks_column(rows: &Vec<BlockRow>, name: &String, enc: &ColumnEncoding) -> (c: Vec<Cell>)
    ensures
        c@.len() == rows@.len(),
        forall|k: int|
            0 <= k < rows@.len() ==> cell_view(#[trigger] c@[k]) == encode_cell(
                block_cell(rows@[k], name@),
                *enc,
            ),
{
    let mut out: Vec<Cell> = Vec::new();
    let mut k: usize = 0;
    while k < rows.len()
        invariant
            0 <= k <= rows@.len(),
            out@.len() == k,
            forall|j: int|
                0 <= j < k ==> cell_view(#[trigger] out@[j]) == encode_cell(
                    block_cell(rows@[j], name@),
                    *enc,
                ),
        decreases rows@.len() - k,
    {
        out.push(block_cell_exec(&rows[k], name, enc));
        k = k + 1;
    }
    out
}

fn txs_column(rows: &Vec<TxRow>, name: &String, enc: &ColumnEncoding) -> (c: Vec<Cell>)
    ensures
        c@.len() == rows@.len(),
        forall|k: int|
            0 <= k < rows@.len() ==> cell_view(#[trigger] c@[k]) == encode_cell(
                tx_cell(rows@[k], name@),
                *enc,
            ),
{
    let mut out: Vec<Cell> = Vec::new();
    let mut k: usize = 0;
    while k < rows.len()
        invariant
            0 <= k <= rows@.len(),
            out@.len() == k,
            forall|j: int|
                0 <= j < k ==> cell_view(#[trigger] out@[j]) == encode_cell(
                    tx_cell(rows@[j], name@),
                    *enc,
                ),
        decreases rows@.len() - k,
    {
        out.push(tx_cell_exec(&rows[k], name, enc));
        k = k + 1;
    }
    out
}

fn logs_column(rows: &Vec<LogRow>, name: &String, enc: &ColumnEncoding) -> (c: Vec<Cell>)
    ensures
        c@.len() == rows@.len(),
        forall|k: int|
            0 <= k < rows@.len() ==> cell_view(#[trigger] c@[k]) == encode_cell(
                log_cell(rows@[k], name@),
                *enc,
            ),
{
    let mut out: Vec<Cell> = Vec::new();
    let mut k: usize = 0;
    while k < rows.len()
        invariant
            0 <= k <= rows@.len(),
            out@.len() == k,
            forall|j: int|
                0 <= j < k ==> cell_view(#[trigger] out@[j]) == encode_cell(
                    log_cell(rows@[j], name@),
                    *enc,
                ),
        decreases rows@.len() - k,
    {
        out.push(log_cell_exec(&rows[k], name, enc));
        k = k + 1;
    }
    out
}

/// Assemble the batch of one chunk of blocks rows under a schema: one
/// equal-length, index-aligned column vector per schema column.
pub fn gather_blocks(rows: &Vec<BlockRow>, schema: &Schema, enc: &ColumnEncoding) -> (b: Batch)
    ensures
        b.n_rows == rows@.len(),
        b.wf(),
        b.matches_schema(*schema),
        forall|j: int, k: int|
            0 <= j < b.columns@.len() && 0 <= k < rows@.len() ==> cell_view(
                #[trigger] b.columns@[j].cells@[k],
            ) == encode_cell(block_cell(rows@[k], schema.names()[j]), *enc),
{
    let mut cols: Vec<ColumnData> = Vec::new();
    let mut j: usize = 0;
    while j < schema.columns.len()
        invariant
            0 <= j <= schema.columns@.len(),
            cols@.len() == j,
            forall|i: int| 0 <= i < j ==> (#[trigger] cols@[i]).name@ == schema.names()[i],
            forall|i: int| 0 <= i < j ==> (#[trigger] cols@[i]).cells@.len() == rows@.len(),
            forall|i: int, k: int|
                0 <= i < j && 0 <= k < rows@.len() ==> cell_view(
                    #[trigger] cols@[i].cells@[k],
                ) == encode_cell(block_cell(rows@[k], schema.names()[i]), *enc),
        decreases schema.columns@.len() - j,
    {
        let cells = blocks_column(rows, &schema.columns[j].name, enc);
        cols.push(ColumnData { name: schema.columns[j].name.clone(), cells });
        j = j + 1;
    }
    Batch { columns: cols, n_rows: rows.len() }
}

/// Assemble the batch of one chunk of transaction rows under a schema.
pub fn gather_transactions(rows: &Vec<TxRow>, schema: &Schema, enc: &ColumnEncoding) -> (b: Batch)
    ensures
        b.n_rows == rows@.len(),
        b.wf(),
        b.matches_schema(*schema),
        forall|j: int, k: int|
            0 <= j < b.columns@.len() && 0 <= k < rows@.len() ==> cell_view(
                #[trigger] b.columns@[j].cells@[k],
            ) == encode_cell(tx_cell(rows@[k], schema.names()[j]), *enc),
{
    let mut cols: Vec<ColumnData> = Vec::new();
    let mut j: usize = 0;
    while j < schema.columns.len()
        invariant
            0 <= j <= schema.columns@.len(),
            cols@.len() == j,
            forall|i: int| 0 <= i < j ==> (#[trigger] cols@[i]).name@ == schema.names()[i],
            forall|i: int| 0 <= i < j ==> (#[trigger] cols@[i]).cells@.len() == rows@.len(),
            forall|i: int, k: int|
                0 <= i < j && 0 <= k < rows@.len() ==> cell_view(
                    #[trigger] cols@[i].cells@[k],
                ) == encode_cell(tx_cell(rows@[k], schema.names()[i]), *enc),
        decreases schema.columns@.len() - j,
    {
        let cells = txs_column(rows, &schema.columns[j].name, enc);
        cols.push(ColumnData { name: schema.columns[j].name.clone(), cells });
        j = j + 1;
    }
    Batch { columns: cols, n_rows: rows.len() }
}

/// Assemble the batch of one chunk of log rows under a schema.
pub fn gather_logs(rows: &Vec<LogRow>, schema: &Schema, enc: &ColumnEncoding) -> (b: Batch)
    ensures
        b.n_rows == rows@.len(),
        b.wf(),
        b.matches_schema(*schema),
        forall|j: int, k: int|
            0 <= j < b.columns@.len() && 0 <= k < rows@.len() ==> cell_view(
                #[trigger] b.columns@[j].cells@[k],
            ) == encode_cell(log_cell(rows@[k], schema.names()[j]), *enc),
{
    let mut cols: Vec<ColumnData> = Vec::new();
    let mut j: usize = 0;
    while j < schema.columns.len()
        invariant
            0 <= j <= schema.columns@.len(),
            cols@.len() == j,
            forall|i: int| 0 <= i < j ==> (#[trigger] cols@[i]).name@ == schema.names()[i],
            forall|i: int| 0 <= i < j ==> (#[trigger] cols@[i]).cells@.len() == rows@.len(),
            forall|i: int, k: int|
                0 <= i < j && 0 <= k < rows@.len() ==> cell_view(
                    #[trigger] cols@[i].cells@[k],
                ) == encode_cell(log_cell(rows@[k], schema.names()[i]), *enc),
        decreases schema.columns@.len() - j,
    {
        let cells = logs_column(rows, &schema.columns[j].name, enc);
        cols.push(ColumnData { name: schema.columns[j].name.clone(), cells });
        j = j + 1;
    }
    Batch { columns: cols, n_rows: rows.len() }
}

} // verus!
