use crate::types::ConfigError;
use vstd::prelude::*;
use vstd::string::*;

verus! {

/// An inclusive interval of block heights; the unit of parallel ingestion
/// and of output files.
#[derive(Clone, Copy, PartialEq, Eq, Structural, Debug)]
pub struct BlockChunk {
    pub start_block: u64,
    pub end_block: u64,
}

impl BlockChunk {
    /// A chunk is an interval with a lower and an upper end.
    pub open spec fn wf(self) -> bool {
        self.start_block <= self.end_block
    }

    /// How many blocks the chunk covers.
    pub open spec fn width(self) -> int {
        self.end_block - self.start_block + 1
    }
}

pub open spec fn is_digit(c: char) -> bool {
    48 <= c as u32 <= 57
}

pub open spec fn digit_val(c: char) -> int {
    c as u32 - 48
}

pub open spec fn all_digits(s: Seq<char>) -> bool {
    forall|j: int| 0 <= j < s.len() ==> is_digit(#[trigger] s[j])
}

/// The value of a decimal digit string.
pub open spec fn dec_val(s: Seq<char>) -> int
    decreases s.len(),
{
    if s.len() == 0 {
        0
    } else {
        dec_val(s.drop_last()) * 10 + digit_val(s.last())
    }
}

/// A valid number token: nonempty, all digits, and within `u64`.
pub open spec fn valid_num(s: Seq<char>) -> bool {
    s.len() > 0 && all_digits(s) && dec_val(s) <= u64::MAX
}

/// The index of the first `:` in `s`, or -1 if there is none.
pub open spec fn colon_ix(s: Seq<char>) -> int
    decreases s.len(),
{
    if s.len() == 0 {
        -1
    } else if s[0] == ':' {
        0
    } else {
        let r = colon_ix(s.drop_first());
        if r < 0 {
            -1
        } else {
            r + 1
        }
    }
}

/// What a range token denotes: `N` denotes `[N, N]`; `A:B` with `A <= B`
/// denotes `[A, B]`; anything else is invalid.
pub open spec fn token_spec(s: Seq<char>) -> Option<(u64, u64)> {
    let ci = colon_ix(s);
    if ci < 0 {
        if valid_num(s) {
            Some((dec_val(s) as u64, dec_val(s) as u64))
        } else {
            None
        }
    } else {
        let a = s.take(ci);
        let b = s.skip(ci + 1);
        if valid_num(a) && valid_num(b) && dec_val(a) <= dec_val(b) {
            Some((dec_val(a) as u64, dec_val(b) as u64))
        } else {
            None
        }
    }
}

pub open spec fn min64(a: u64, b: u64) -> u64 {
    if a <= b {
        a
    } else {
        b
    }
}

pub open spec fn max64u(a: u64, b: u64) -> u64 {
    if a >= b {
        a
    } else {
        b
    }
}

/// What a sequence of range tokens denotes: every token must be valid, and
/// the result is the union interval, from the least start to the greatest end.
pub open spec fn inputs_spec(s: Seq<Seq<char>>) -> Result<BlockChunk, ConfigError>
    decreases s.len(),
{
    if s.len() == 0 {
        Err(ConfigError::EmptyRange)
    } else if s.len() == 1 {
        match token_spec(s[0]) {
            Some(t) => Ok(BlockChunk { start_block: t.0, end_block: t.1 }),
            None => Err(ConfigError::InvalidRange),
        }
    } else {
        match (inputs_spec(s.drop_last()), token_spec(s.last())) {
            (Ok(u), Some(t)) => Ok(
                BlockChunk {
                    start_block: min64(u.start_block, t.0),
                    end_block: max64u(u.end_block, t.1),
                },
            ),
            _ => Err(ConfigError::InvalidRange),
        }
    }
}

proof fn lemma_dec_val_nonneg(s: Seq<char>)
    requires
        all_digits(s),
    ensures
        dec_val(s) >= 0,
    decreases s.len(),
{
    if s.len() > 0 {
        assert(all_digits(s.drop_last()));
        lemma_dec_val_nonneg(s.drop_last());
    }
}

proof fn lemma_dec_val_take_le(s: Seq<char>, i: int)
    requires
        all_digits(s),
        0 <= i <= s.len(),
    ensures
        dec_val(s.take(i)) <= dec_val(s),
    decreases s.len() - i,
{
    assert(all_digits(s.take(i)));
    if i == s.len() {
        assert(s.take(i) =~= s);
    } else {
        assert(s.take(i + 1).drop_last() =~= s.take(i));
        assert(all_digits(s.take(i)));
        lemma_dec_val_nonneg(s.take(i));
        assert(dec_val(s.take(i + 1)) == dec_val(s.take(i)) * 10 + digit_val(s[i]));
        lemma_dec_val_take_le(s, i + 1);
    }
}

proof fn lemma_colon_ix_none(s: Seq<char>)
    requires
        forall|j: int| 0 <= j < s.len() ==> #[trigger] s[j] != ':',
    ensures
        colon_ix(s) == -1,
    decreases s.len(),
{
    if s.len() > 0 {
        lemma_colon_ix_none(s.drop_first());
    }
}

proof fn lemma_colon_ix_at(s: Seq<char>, i: int)
    requires
        0 <= i < s.len(),
        s[i] == ':',
        forall|j: int| 0 <= j < i ==> #[trigger] s[j] != ':',
    ensures
        colon_ix(s) == i,
    decreases s.len(),
{
    if i > 0 {
        lemma_colon_ix_at(s.drop_first(), i - 1);
    }
}

/// Parse the decimal number written at `s[from..to]`.
fn parse_number(s: &str, from: usize, to: usize) -> (r: Result<u64, ConfigError>)
    requires
        from <= to <= s@.len(),
    ensures
        (match r {
            Ok(v) => valid_num(s@.subrange(from as int, to as int)) && v == dec_val(
                s@.subrange(from as int, to as int),
            ),
            Err(e) => !valid_num(s@.subrange(from as int, to as int)) && e
                == ConfigError::InvalidRange,
        }),
{
    let ghost whole = s@.subrange(from as int, to as int);
    if from == to {
        assert(whole.len() == 0);
        return Err(ConfigError::InvalidRange);
    }
    let mut acc: u64 = 0;
    let mut i: usize = from;
    while i < to
        invariant
            from <= i <= to <= s@.len(),
            whole == s@.subrange(from as int, to as int),
            whole.len() > 0,
            all_digits(whole.take(i - from)),
            acc == dec_val(whole.take(i - from)),
        decreases to - i,
    {
        let c = s.get_char(i);
        let cv = c as u32;
        assert(c == whole[i - from]);
        if cv < 48 || cv > 57 {
            assert(!is_digit(whole[i - from]));
            assert(!all_digits(whole));
            return Err(ConfigError::InvalidRange);
        }
        let d: u64 = (cv - 48) as u64;
        proof {
            assert(whole.take(i - from + 1).drop_last() =~= whole.take(i - from));
            assert(dec_val(whole.take(i - from + 1)) == dec_val(whole.take(i - from)) * 10
                + digit_val(whole[i - from]));
        }
        let acc10 = match acc.checked_mul(10) {
            Some(v) => v,
            None => {
                proof {
                    if all_digits(whole) {
                        lemma_dec_val_take_le(whole, i - from + 1);
                    }
                }
                return Err(ConfigError::InvalidRange);
            },
        };
        acc = match acc10.checked_add(d) {
            Some(v) => v,
            None => {
                proof {
                    if all_digits(whole) {
                        lemma_dec_val_take_le(whole, i - from + 1);
                    }
                }
                return Err(ConfigError::InvalidRange);
            },
        };
        i = i + 1;
    }
    proof {
        assert(whole.take(to - from) =~= whole);
    }
    Ok(acc)
}

/// Parse one range token: `N` yields `[N, N]`, `A:B` with `A <= B` yields
/// `[A, B]`; anything else is a configuration error.
pub fn parse_block_token(s: &str) -> (r: Result<BlockChunk, ConfigError>)
    ensures
        (match r {
            Ok(c) => token_spec(s@) == Some((c.start_block, c.end_block)) && c.wf(),
            Err(e) => token_spec(s@) is None && e == ConfigError::InvalidRange,
        }),
{
    let n = s.unicode_len();
    let mut i: usize = 0;
    let mut colon: Option<usize> = None;
    while i < n
        invariant_except_break
            colon is None,
        invariant
            0 <= i <= n == s@.len(),
            forall|j: int| 0 <= j < i ==> #[trigger] s@[j] != ':',
        ensures
            (match colon {
                Some(ci) => ci < n && s@[ci as int] == ':' && (forall|j: int|
                    0 <= j < ci ==> #[trigger] s@[j] != ':'),
                None => forall|j: int| 0 <= j < n ==> #[trigger] s@[j] != ':',
            }),
        decreases n - i,
    {
        let c = s.get_char(i);
        if c == ':' {
            colon = Some(i);
            break ;
        }
        i = i + 1;
    }
    match colon {
        None => {
            proof {
                lemma_colon_ix_none(s@);
            }
            match parse_number(s, 0, n) {
                Ok(v) => {
                    proof {
                        assert(s@.subrange(0, n as int) =~= s@);
                    }
                    Ok(BlockChunk { start_block: v, end_block: v })
                },
                Err(e) => {
                    proof {
                        assert(s@.subrange(0, n as int) =~= s@);
                    }
                    Err(e)
                },
            }
        },
        Some(ci) => {
            proof {
                lemma_colon_ix_at(s@, ci as int);
                assert(s@.subrange(0, ci as int) =~= s@.take(ci as int));
                assert(s@.subrange(ci + 1, n as int) =~= s@.skip(ci + 1));
            }
            let a = match parse_number(s, 0, ci) {
                Ok(v) => v,
                Err(e) => {
                    return Err(e);
                },
            };
            let b = match parse_number(s, ci + 1, n) {
                Ok(v) => v,
                Err(e) => {
                    return Err(e);
                },
            };
            if a <= b {
                Ok(BlockChunk { start_block: a, end_block: b })
            } else {
                Err(ConfigError::InvalidRange)
            }
        },
    }
}

/// Parse all range tokens and return their union interval.
pub fn parse_block_inputs(inputs: &Vec<String>) -> (r: Result<BlockChunk, ConfigError>)
    ensures
        r == inputs_spec(inputs@.map_values(|x: String| x@)),
        r matches Ok(c) ==> c.wf(),
{
    let ghost views = inputs@.map_values(|x: String| x@);
    if inputs.len() == 0 {
        return Err(ConfigError::EmptyRange);
    }
    let first = match parse_block_token(inputs[0].as_str()) {
        Ok(c) => c,
        Err(e) => {
            proof {
                lemma_inputs_spec_err(views, 0);
            }
            return Err(e);
        },
    };
    let mut acc = first;
    let mut i: usize = 1;
    while i < inputs.len()
        invariant
            1 <= i <= inputs.len(),
            views == inputs@.map_values(|x: String| x@),
            views.len() == inputs.len(),
            inputs_spec(views.take(i as int)) == Ok::<BlockChunk, ConfigError>(acc),
            acc.wf(),
        decreases inputs.len() - i,
    {
        let t = match parse_block_token(inputs[i].as_str()) {
            Ok(c) => c,
            Err(e) => {
                proof {
                    lemma_inputs_spec_err(views, i as int);
                }
                return Err(e);
            },
        };
        let ns = if acc.start_block <= t.start_block {
            acc.start_block
        } else {
            t.start_block
        };
        let ne = if acc.end_block >= t.end_block {
            acc.end_block
        } else {
            t.end_block
        };
        proof {
            assert(views.take(i + 1).drop_last() =~= views.take(i as int));
            assert(views.take(i + 1).last() == views[i as int]);
        }
        acc = BlockChunk { start_block: ns, end_block: ne };
        i = i + 1;
    }
    proof {
        assert(views.take(inputs@.len() as int) =~= views);
    }
    Ok(acc)
}

/// A single token `N` denotes the same range as the pair token `N:N`.
pub proof fn lemma_single_token_as_pair(s: Seq<char>)
    requires
        s.len() > 0,
        all_digits(s),
    ensures
        token_spec(s) == token_spec(s + seq![':'] + s),
{
    let t = s + seq![':'] + s;
    assert forall|j: int| 0 <= j < s.len() implies #[trigger] t[j] != ':' by {
        assert(t[j] == s[j]);
        assert(is_digit(s[j]));
    }
    assert forall|j: int| 0 <= j < s.len() implies #[trigger] s[j] != ':' by {
        assert(is_digit(s[j]));
    }
    lemma_colon_ix_none(s);
    assert(t[s.len() as int] == ':');
    lemma_colon_ix_at(t, s.len() as int);
    assert(t.take(s.len() as int) =~= s);
    assert(t.skip(s.len() as int + 1) =~= s);
}

/// The facts that hold of a chunking `v` of the range `chunk` with width `w`:
/// the chunks tile the range in ascending order, all but the last have width
/// `w`, and there are exactly as many as the ceiling of width over `w`.
pub open spec fn subchunks_post(chunk: BlockChunk, w: u64, v: Seq<BlockChunk>) -> bool {
    &&& v.len() == (chunk.end_block - chunk.start_block) / (w as int) + 1
    &&& v[0].start_block == chunk.start_block
    &&& v[v.len() - 1].end_block == chunk.end_block
    &&& (forall|i: int| 0 <= i < v.len() ==> (#[trigger] v[i]).wf())
    &&& (forall|i: int| 0 <= i < v.len() - 1 ==> (#[trigger] v[i]).width() == w)
    &&& (forall|i: int|
        0 <= i < v.len() - 1 ==> (#[trigger] v[i]).end_block + 1 == v[i + 1].start_block)
    &&& v[v.len() - 1].width() <= w
}

/// Split a range into chunks of width `chunk_size`, in ascending order; the
/// final chunk is truncated at the range's end. A chunk size of zero is a
/// configuration error.
pub fn get_subchunks(chunk: &BlockChunk, chunk_size: &u64) -> (r: Result<
    Vec<BlockChunk>,
    ConfigError,
>)
    requires
        chunk.wf(),
    ensures
        (match r {
            Ok(v) => *chunk_size >= 1 && subchunks_post(*chunk, *chunk_size, v@),
            Err(e) => *chunk_size == 0 && e == ConfigError::ZeroChunkSize,
        }),
{
    let w = *chunk_size;
    if w == 0 {
        return Err(ConfigError::ZeroChunkSize);
    }
    let step: u64 = w - 1;
    let mut out: Vec<BlockChunk> = Vec::new();
    let mut cur: u64 = chunk.start_block;
    proof {
        assert(out@.len() * (w as int) == 0);
    }
    loop
        invariant_except_break
            w >= 1,
            step == w - 1,
            chunk.wf(),
            chunk.start_block <= cur <= chunk.end_block,
            cur == chunk.start_block + out@.len() * (w as int),
            out@.len() >= 1 ==> out@[0].start_block == chunk.start_block,
            out@.len() >= 1 ==> out@[out@.len() - 1].end_block + 1 == cur,
            forall|i: int| 0 <= i < out@.len() ==> (#[trigger] out@[i]).wf(),
            forall|i: int| 0 <= i < out@.len() ==> (#[trigger] out@[i]).width() == w,
            forall|i: int|
                0 <= i < out@.len() - 1 ==> (#[trigger] out@[i]).end_block + 1 == out@[i
                    + 1].start_block,
        ensures
            subchunks_post(*chunk, w, out@),
        decreases chunk.end_block - cur,
    {
        let rem: u64 = chunk.end_block - cur;
        let ghost k = out@.len() as int;
        if step <= rem {
            let ce: u64 = cur + step;
            out.push(BlockChunk { start_block: cur, end_block: ce });
            if ce == chunk.end_block {
                proof {
                    vstd::arithmetic::div_mod::lemma_fundamental_div_mod_converse(
                        chunk.end_block - chunk.start_block,
                        w as int,
                        k,
                        w - 1,
                    );
                }
                break ;
            }
            proof {
                assert((k + 1) * (w as int) == k * (w as int) + w) by (nonlinear_arith);
            }
            cur = ce + 1;
        } else {
            out.push(BlockChunk { start_block: cur, end_block: chunk.end_block });
            proof {
                vstd::arithmetic::div_mod::lemma_fundamental_div_mod_converse(
                    chunk.end_block - chunk.start_block,
                    w as int,
                    k,
                    chunk.end_block - cur,
                );
            }
            break ;
        }
    }
    Ok(out)
}

/// The number of getLogs calls a chunk issues, and the inclusive sub-range
/// each call covers: contiguous sub-ranges of at most `log_request_size`
/// blocks that tile the chunk.
pub fn log_call_ranges(chunk: &BlockChunk, log_request_size: &u64) -> (r: Result<
    Vec<BlockChunk>,
    ConfigError,
>)
    requires
        chunk.wf(),
    ensures
        (match r {
            Ok(v) => *log_request_size >= 1 && subchunks_post(*chunk, *log_request_size, v@),
            Err(e) => *log_request_size == 0 && e == ConfigError::ZeroLogRequestSize,
        }),
{
    match get_subchunks(chunk, log_request_size) {
        Ok(v) => Ok(v),
        Err(_) => Err(ConfigError::ZeroLogRequestSize),
    }
}

/// The chunks produced for a range are pairwise disjoint and in strictly
/// ascending order.
pub proof fn lemma_chunks_tile(chunk: BlockChunk, w: u64, v: Seq<BlockChunk>)
    requires
        chunk.wf(),
        w >= 1,
        subchunks_post(chunk, w, v),
    ensures
        forall|i: int, j: int|
            0 <= i < j < v.len() ==> (#[trigger] v[i]).end_block < (#[trigger] v[j]).start_block,
{
    assert forall|i: int, j: int| 0 <= i < j < v.len() implies (#[trigger] v[i]).end_block < (
    #[trigger] v[j]).start_block by {
        lemma_ends_ascend(v, i, j);
    }
}

/// A block height lies in the range if and only if it lies in one of the
/// produced chunks: the union of the chunks is exactly the range.
pub proof fn lemma_chunks_cover_range(chunk: BlockChunk, w: u64, v: Seq<BlockChunk>, h: int)
    requires
        chunk.wf(),
        w >= 1,
        subchunks_post(chunk, w, v),
    ensures
        (chunk.start_block <= h <= chunk.end_block) <==> (exists|i: int|
            0 <= i < v.len() && (#[trigger] v[i]).start_block <= h <= v[i].end_block),
{
    if chunk.start_block <= h <= chunk.end_block {
        lemma_chunks_cover(v, h);
    }
    if exists|i: int| 0 <= i < v.len() && (#[trigger] v[i]).start_block <= h <= v[i].end_block {
        let i = choose|i: int|
            0 <= i < v.len() && (#[trigger] v[i]).start_block <= h <= v[i].end_block;
        lemma_within_range(v, i);
    }
}

proof fn lemma_ends_ascend(v: Seq<BlockChunk>, i: int, j: int)
    requires
        0 <= i < j < v.len(),
        forall|k: int| 0 <= k < v.len() ==> (#[trigger] v[k]).wf(),
        forall|k: int|
            0 <= k < v.len() - 1 ==> (#[trigger] v[k]).end_block + 1 == v[k + 1].start_block,
    ensures
        v[i].end_block < v[j].start_block,
    decreases j - i,
{
    if j == i + 1 {
    } else {
        lemma_ends_ascend(v, i, j - 1);
    }
}

proof fn lemma_within_range(v: Seq<BlockChunk>, i: int)
    requires
        0 <= i < v.len(),
        forall|k: int| 0 <= k < v.len() ==> (#[trigger] v[k]).wf(),
        forall|k: int|
            0 <= k < v.len() - 1 ==> (#[trigger] v[k]).end_block + 1 == v[k + 1].start_block,
    ensures
        v[0].start_block <= v[i].start_block,
        v[i].end_block <= v[v.len() - 1].end_block,
{
    if i > 0 {
        lemma_ends_ascend(v, 0, i);
    }
    if i < v.len() - 1 {
        lemma_ends_ascend(v, i, v.len() - 1);
    }
}

proof fn lemma_chunks_cover(v: Seq<BlockChunk>, h: int)
    requires
        v.len() >= 1,
        forall|k: int| 0 <= k < v.len() ==> (#[trigger] v[k]).wf(),
        forall|k: int|
            0 <= k < v.len() - 1 ==> (#[trigger] v[k]).end_block + 1 == v[k + 1].start_block,
        v[0].start_block <= h <= v[v.len() - 1].end_block,
    ensures
        exists|i: int| 0 <= i < v.len() && (#[trigger] v[i]).start_block <= h <= v[i].end_block,
    decreases v.len(),
{
    let n = v.len() as int;
    if h >= v[n - 1].start_block {
        assert(v[n - 1].start_block <= h <= v[n - 1].end_block);
    } else {
        assert(n >= 2);
        let u = v.drop_last();
        assert(h <= v[n - 2].end_block);
        assert(forall|k: int| 0 <= k < u.len() ==> (#[trigger] u[k]).wf());
        assert(forall|k: int|
            0 <= k < u.len() - 1 ==> (#[trigger] u[k]).end_block + 1 == u[k + 1].start_block);
        lemma_chunks_cover(u, h);
        let i = choose|i: int|
            0 <= i < u.len() && (#[trigger] u[i]).start_block <= h <= u[i].end_block;
        assert(v[i].start_block <= h <= v[i].end_block);
    }
}

/// A chunk size at least the range's width yields exactly one chunk, and it
/// equals the range; the same holds of a log request size at least the width
/// of the chunk it covers.
pub proof fn lemma_oversized_chunk_size(chunk: BlockChunk, w: u64, v: Seq<BlockChunk>)
    requires
        chunk.wf(),
        w >= chunk.width(),
        subchunks_post(chunk, w, v),
    ensures
        v.len() == 1,
        v[0] == chunk,
{
    vstd::arithmetic::div_mod::lemma_basic_div(
        chunk.end_block - chunk.start_block,
        w as int,
    );
}

/// The total number of blocks covered by a list of chunks.
pub open spec fn total_blocks(s: Seq<BlockChunk>) -> int
    decreases s.len(),
{
    if s.len() == 0 {
        0
    } else {
        total_blocks(s.drop_last()) + s.last().width()
    }
}

proof fn lemma_total_take_le(s: Seq<BlockChunk>, i: int)
    requires
        forall|k: int| 0 <= k < s.len() ==> (#[trigger] s[k]).wf(),
        0 <= i <= s.len(),
    ensures
        0 <= total_blocks(s.take(i)) <= total_blocks(s),
    decreases s.len() - i,
{
    if i == s.len() {
        assert(s.take(i) =~= s);
        lemma_total_nonneg(s);
    } else {
        assert(s.take(i + 1).drop_last() =~= s.take(i));
        assert(total_blocks(s.take(i + 1)) == total_blocks(s.take(i)) + s[i].width());
        lemma_total_nonneg(s.take(i));
        lemma_total_take_le(s, i + 1);
    }
}

proof fn lemma_total_nonneg(s: Seq<BlockChunk>)
    requires
        forall|k: int| 0 <= k < s.len() ==> (#[trigger] s[k]).wf(),
    ensures
        total_blocks(s) >= 0,
    decreases s.len(),
{
    if s.len() > 0 {
        lemma_total_nonneg(s.drop_last());
    }
}

/// Sum the widths of a list of chunks.
pub fn get_total_blocks(chunks: &Vec<BlockChunk>) -> (r: u64)
    requires
        forall|k: int| 0 <= k < chunks@.len() ==> (#[trigger] chunks@[k]).wf(),
        total_blocks(chunks@) <= u64::MAX,
    ensures
        r == total_blocks(chunks@),
{
    let mut acc: u64 = 0;
    let mut i: usize = 0;
    while i < chunks.len()
        invariant
            0 <= i <= chunks@.len(),
            forall|k: int| 0 <= k < chunks@.len() ==> (#[trigger] chunks@[k]).wf(),
            total_blocks(chunks@) <= u64::MAX,
            acc == total_blocks(chunks@.take(i as int)),
        decreases chunks@.len() - i,
    {
        let c = chunks[i];
        proof {
            assert(chunks@.take(i + 1).drop_last() =~= chunks@.take(i as int));
            lemma_total_take_le(chunks@, i + 1);
        }
        let width: u64 = c.end_block - c.start_block;
        acc = acc + width + 1;
        i = i + 1;
    }
    proof {
        assert(chunks@.take(chunks@.len() as int) =~= chunks@);
    }
    acc
}

proof fn lemma_inputs_spec_err(s: Seq<Seq<char>>, i: int)
    requires
        0 <= i < s.len(),
        token_spec(s[i]) is None,
    ensures
        inputs_spec(s) == Err::<BlockChunk, ConfigError>(ConfigError::InvalidRange),
    decreases s.len(),
{
    if s.len() > 1 {
        if i < s.len() - 1 {
            lemma_inputs_spec_err(s.drop_last(), i);
        }
    }
}

} // verus!
