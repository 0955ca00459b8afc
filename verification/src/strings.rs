use crate::chunks::BlockChunk;
use crate::types::{Datatype, FileFormat};
use vstd::prelude::*;
use vstd::string::*;

verus! {

pub open spec fn dec_digit(d: int) -> char {
    if d == 0 {
        '0'
    } else if d == 1 {
        '1'
    } else if d == 2 {
        '2'
    } else if d == 3 {
        '3'
    } else if d == 4 {
        '4'
    } else if d == 5 {
        '5'
    } else if d == 6 {
        '6'
    } else if d == 7 {
        '7'
    } else if d == 8 {
        '8'
    } else {
        '9'
    }
}

/// The decimal digit string of `n`, without leading zeroes (just `0` for 0).
pub open spec fn dec_of(n: nat) -> Seq<char>
    decreases n,
{
    if n < 10 {
        seq![dec_digit(n as int)]
    } else {
        dec_of(n / 10).push(dec_digit((n % 10) as int))
    }
}

fn digit_str(d: u64) -> (r: &'static str)
    requires
        d < 10,
    ensures
        r@ == seq![dec_digit(d as int)],
{
    match d {
        0 => {
            proof {
                reveal_strlit("0");
                assert("0"@ =~= seq![dec_digit(0)]);
            }
            "0"
        },
        1 => {
            proof {
                reveal_strlit("1");
                assert("1"@ =~= seq![dec_digit(1)]);
            }
            "1"
        },
        2 => {
            proof {
                reveal_strlit("2");
                assert("2"@ =~= seq![dec_digit(2)]);
            }
            "2"
        },
        3 => {
            proof {
                reveal_strlit("3");
                assert("3"@ =~= seq![dec_digit(3)]);
            }
            "3"
        },
        4 => {
            proof {
                reveal_strlit("4");
                assert("4"@ =~= seq![dec_digit(4)]);
            }
            "4"
        },
        5 => {
            proof {
                reveal_strlit("5");
                assert("5"@ =~= seq![dec_digit(5)]);
            }
            "5"
        },
        6 => {
            proof {
                reveal_strlit("6");
                assert("6"@ =~= seq![dec_digit(6)]);
            }
            "6"
        },
        7 => {
            proof {
                reveal_strlit("7");
                assert("7"@ =~= seq![dec_digit(7)]);
            }
            "7"
        },
        8 => {
            proof {
                reveal_strlit("8");
                assert("8"@ =~= seq![dec_digit(8)]);
            }
            "8"
        },
        _ => {
            proof {
                reveal_strlit("9");
                assert("9"@ =~= seq![dec_digit(9)]);
            }
            "9"
        },
    }
}

/// Write `n` in decimal.
pub fn dec_string(n: u64) -> (r: String)
    ensures
        r@ == dec_of(n as nat),
    decreases n,
{
    if n < 10 {
        digit_str(n).to_owned()
    } else {
        let mut s = dec_string(n / 10);
        s.append(digit_str(n % 10));
        proof {
            assert(s@ =~= dec_of(n as nat));
        }
        s
    }
}

pub open spec fn zeroes(k: nat) -> Seq<char> {
    Seq::new(k, |i: int| '0')
}

/// The decimal digits of `n`, left-padded with zeroes to at least `width`
/// characters.
pub open spec fn padded_dec(n: nat, width: nat) -> Seq<char> {
    let d = dec_of(n);
    if d.len() >= width {
        d
    } else {
        zeroes((width - d.len()) as nat) + d
    }
}

/// Write `n` in decimal, left-padded with zeroes to at least `width`
/// characters.
pub fn padded_dec_string(n: u64, width: usize) -> (r: String)
    ensures
        r@ == padded_dec(n as nat, width as nat),
{
    let ds = dec_string(n);
    let len = ds.as_str().unicode_len();
    if len >= width {
        proof {
            assert(ds@ == padded_dec(n as nat, width as nat));
        }
        ds
    } else {
        let mut out = String::new();
        let mut k: usize = width - len;
        while k > 0
            invariant
                k <= width - len,
                len == dec_of(n as nat).len(),
                len < width,
                out@ =~= zeroes((width - len - k) as nat),
            decreases k,
        {
            proof {
                reveal_strlit("0");
            }
            out.append("0");
            k = k - 1;
            proof {
                assert(out@ =~= zeroes((width - len - k) as nat));
            }
        }
        out.append(ds.as_str());
        proof {
            assert(out@ =~= padded_dec(n as nat, width as nat));
        }
        out
    }
}

/// How many characters the widest block number of the range takes: the width
/// that chunk bounds are padded to in file names.
pub fn range_pad_width(chunk: &BlockChunk) -> (r: usize)
    ensures
        r == dec_of(chunk.end_block as nat).len(),
{
    let ds = dec_string(chunk.end_block);
    ds.as_str().unicode_len()
}

/// The network's display name: `ethereum` for chain id 1, otherwise
/// `network_<chain_id>`.
pub open spec fn network_name_of(chain_id: u64) -> Seq<char> {
    if chain_id == 1 {
        "ethereum"@
    } else {
        "network_"@ + dec_of(chain_id as nat)
    }
}

/// Derive the network name from a chain id.
pub fn network_name_from_chain_id(chain_id: u64) -> (r: String)
    ensures
        r@ == network_name_of(chain_id),
{
    if chain_id == 1 {
        "ethereum".to_owned()
    } else {
        let mut s = "network_".to_owned();
        s.append(dec_string(chain_id).as_str());
        proof {
            assert(s@ =~= network_name_of(chain_id));
        }
        s
    }
}

/// The output file name of one (datatype, chunk) pair:
/// `<network>__<datatype>__<start>_to_<end>.<ext>`, the bounds padded to
/// `width` characters.
pub open spec fn chunk_file_name_chars(
    network: Seq<char>,
    dt: Datatype,
    chunk: BlockChunk,
    width: nat,
    fmt: FileFormat,
) -> Seq<char> {
    network + "__"@ + crate::types::datatype_name(dt) + "__"@ + padded_dec(
        chunk.start_block as nat,
        width,
    ) + "_to_"@ + padded_dec(chunk.end_block as nat, width) + "."@ + crate::types::format_name(fmt)
}

/// Build the output file name of one (datatype, chunk) pair.
pub fn chunk_file_name(
    network: &str,
    datatype: &Datatype,
    chunk: &BlockChunk,
    width: usize,
    format: &FileFormat,
) -> (r: String)
    ensures
        r@ == chunk_file_name_chars(network@, *datatype, *chunk, width as nat, *format),
{
    let mut s = network.to_owned();
    s.append("__");
    s.append(datatype.as_str());
    s.append("__");
    s.append(padded_dec_string(chunk.start_block, width).as_str());
    s.append("_to_");
    s.append(padded_dec_string(chunk.end_block, width).as_str());
    s.append(".");
    s.append(format.as_str());
    proof {
        assert(s@ =~= chunk_file_name_chars(
            network@,
            *datatype,
            *chunk,
            width as nat,
            *format,
        ));
    }
    s
}


pub open spec fn hex_digit(d: int) -> char {
    if d == 0 {
        '0'
    } else if d == 1 {
        '1'
    } else if d == 2 {
        '2'
    } else if d == 3 {
        '3'
    } else if d == 4 {
        '4'
    } else if d == 5 {
        '5'
    } else if d == 6 {
        '6'
    } else if d == 7 {
        '7'
    } else if d == 8 {
        '8'
    } else if d == 9 {
        '9'
    } else if d == 10 {
        'a'
    } else if d == 11 {
        'b'
    } else if d == 12 {
        'c'
    } else if d == 13 {
        'd'
    } else if d == 14 {
        'e'
    } else {
        'f'
    }
}

/// The lowercase base-16 digits of a byte string, two per byte, without a
/// prefix.
pub open spec fn hex_of(b: Seq<u8>) -> Seq<char>
    decreases b.len(),
{
    if b.len() == 0 {
        Seq::empty()
    } else {
        hex_of(b.drop_last()) + seq![
            hex_digit(b.last() as int / 16),
            hex_digit(b.last() as int % 16),
        ]
    }
}

/// The `0x`-prefixed lowercase base-16 form of a byte string.
pub open spec fn hex0x_of(b: Seq<u8>) -> Seq<char> {
    "0x"@ + hex_of(b)
}

fn hex_digit_str(d: u8) -> (r: &'static str)
    requires
        d < 16,
    ensures
        r@ == seq![hex_digit(d as int)],
{
    if d < 10 {
        digit_str(d as u64)
    } else {
        match d {
            10 => {
                proof {
                    reveal_strlit("a");
                    assert("a"@ =~= seq![hex_digit(10)]);
                }
                "a"
            },
            11 => {
                proof {
                    reveal_strlit("b");
                    assert("b"@ =~= seq![hex_digit(11)]);
                }
                "b"
            },
            12 => {
                proof {
                    reveal_strlit("c");
                    assert("c"@ =~= seq![hex_digit(12)]);
                }
                "c"
            },
            13 => {
                proof {
                    reveal_strlit("d");
                    assert("d"@ =~= seq![hex_digit(13)]);
                }
                "d"
            },
            14 => {
                proof {
                    reveal_strlit("e");
                    assert("e"@ =~= seq![hex_digit(14)]);
                }
                "e"
            },
            _ => {
                proof {
                    reveal_strlit("f");
                    assert("f"@ =~= seq![hex_digit(15)]);
                }
                "f"
            },
        }
    }
}

/// Write a byte string in lowercase base-16, two digits per byte, without a
/// prefix.
pub fn hex_string(bytes: &Vec<u8>) -> (r: String)
    ensures
        r@ == hex_of(bytes@),
{
    let mut out = String::new();
    let mut i: usize = 0;
    while i < bytes.len()
        invariant
            0 <= i <= bytes@.len(),
            out@ == hex_of(bytes@.take(i as int)),
        decreases bytes@.len() - i,
    {
        let b = bytes[i];
        out.append(hex_digit_str(b / 16));
        out.append(hex_digit_str(b % 16));
        proof {
            assert(bytes@.take(i + 1).drop_last() =~= bytes@.take(i as int));
            assert(bytes@.take(i + 1).last() == bytes@[i as int]);
            assert(out@ =~= hex_of(bytes@.take(i + 1)));
        }
        i = i + 1;
    }
    proof {
        assert(bytes@.take(bytes@.len() as int) =~= bytes@);
    }
    out
}

/// Write a byte string as `0x` followed by its lowercase base-16 digits.
pub fn hex0x_string(bytes: &Vec<u8>) -> (r: String)
    ensures
        r@ == hex0x_of(bytes@),
{
    let mut out = "0x".to_owned();
    out.append(hex_string(bytes).as_str());
    proof {
        assert(out@ =~= hex0x_of(bytes@));
    }
    out
}

} // verus!
