use crate::gather::{Batch, Cell, CellV, ColumnData, cell_view};
use crate::strings::{dec_of, dec_string, hex_of, hex_string};
use vstd::prelude::*;
use vstd::string::*;

verus! {

/// Whether a CSV field must be quoted: it holds a comma, a double quote, or
/// a line break.
pub open spec fn needs_quote(s: Seq<char>) -> bool {
    exists|i: int|
        0 <= i < s.len() && ((#[trigger] s[i]) == ',' || s[i] == '"' || s[i] == '\n' || s[i]
            == '\r')
}

/// A field's characters with every double quote doubled.
pub open spec fn esc(s: Seq<char>) -> Seq<char>
    decreases s.len(),
{
    if s.len() == 0 {
        Seq::empty()
    } else {
        (if s[0] == '"' {
            seq!['"', '"']
        } else {
            seq![s[0]]
        }) + esc(s.drop_first())
    }
}

/// A field as it stands in a CSV record: quoted and escaped exactly when it
/// holds a special character.
pub open spec fn csv_quoted(s: Seq<char>) -> Seq<char> {
    if needs_quote(s) {
        seq!['"'] + esc(s) + seq!['"']
    } else {
        s
    }
}

/// The inverse of `esc`: collapse doubled double quotes.
pub open spec fn unesc(q: Seq<char>) -> Seq<char>
    decreases q.len(),
{
    if q.len() == 0 {
        Seq::empty()
    } else if q[0] == '"' && q.len() >= 2 && q[1] == '"' {
        seq!['"'] + unesc(q.skip(2))
    } else {
        seq![q[0]] + unesc(q.skip(1))
    }
}

/// The inverse of `csv_quoted`: strip one layer of quotes and collapse
/// doubled double quotes.
pub open spec fn csv_unquote(q: Seq<char>) -> Seq<char> {
    if q.len() >= 2 && q[0] == '"' && q.last() == '"' {
        unesc(q.subrange(1, q.len() - 1))
    } else {
        q
    }
}

proof fn lemma_unesc_esc(s: Seq<char>)
    ensures
        unesc(esc(s)) == s,
    decreases s.len(),
{
    if s.len() == 0 {
        assert(unesc(esc(s)) =~= s);
    } else {
        lemma_unesc_esc(s.drop_first());
        let q = esc(s);
        if s[0] == '"' {
            assert(q =~= seq!['"', '"'] + esc(s.drop_first()));
            assert(q[0] == '"' && q.len() >= 2 && q[1] == '"');
            assert(q.skip(2) =~= esc(s.drop_first()));
            assert(unesc(q) =~= seq!['"'] + s.drop_first());
            assert(unesc(q) =~= s);
        } else {
            assert(q =~= seq![s[0]] + esc(s.drop_first()));
            assert(q[0] == s[0]);
            assert(q.skip(1) =~= esc(s.drop_first()));
            assert(unesc(q) =~= seq![s[0]] + s.drop_first());
            assert(unesc(q) =~= s);
        }
    }
}

/// Unquoting a quoted CSV field recovers the field exactly, for every field.
pub proof fn lemma_csv_field_round_trip(s: Seq<char>)
    ensures
        csv_unquote(csv_quoted(s)) == s,
{
    if needs_quote(s) {
        let q = csv_quoted(s);
        assert(q.len() >= 2);
        assert(q[0] == '"');
        assert(q.last() == '"');
        assert(q.subrange(1, q.len() - 1) =~= esc(s));
        lemma_unesc_esc(s);
    } else {
        if csv_quoted(s).len() >= 2 && csv_quoted(s)[0] == '"' && csv_quoted(s).last() == '"' {
            assert(s[0] == '"');
            assert(needs_quote(s));
        }
    }
}

fn char_is_special(c: char) -> (r: bool)
    ensures
        r == (c == ',' || c == '"' || c == '\n' || c == '\r'),
{
    c == ',' || c == '"' || c == '\n' || c == '\r'
}

/// Quote and escape one CSV field exactly when it holds a special character.
pub fn csv_quote(s: &str) -> (r: String)
    ensures
        r@ == csv_quoted(s@),
{
    let n = s.unicode_len();
    let mut i: usize = 0;
    let mut special: bool = false;
    while i < n
        invariant_except_break
            !special,
        invariant
            0 <= i <= n == s@.len(),
            forall|j: int|
                0 <= j < i ==> !((#[trigger] s@[j]) == ',' || s@[j] == '"' || s@[j] == '\n'
                    || s@[j] == '\r'),
        ensures
            special == needs_quote(s@),
        decreases n - i,
    {
        if char_is_special(s.get_char(i)) {
            special = true;
            break ;
        }
        i = i + 1;
    }
    if !special {
        return s.to_owned();
    }
    let mut out = "\"".to_owned();
    proof {
        reveal_strlit("\"");
        assert(out@ =~= seq!['"'] + esc(s@.take(0int)));
    }
    let mut k: usize = 0;
    while k < n
        invariant
            0 <= k <= n == s@.len(),
            out@ == seq!['"'] + esc(s@.take(k as int)),
        decreases n - k,
    {
        let c = s.get_char(k);
        proof {
            assert(s@.take(k + 1).drop_last() =~= s@.take(k as int));
            lemma_esc_snoc(s@.take(k + 1));
            assert(s@.take(k + 1).last() == s@[k as int]);
        }
        if c == '"' {
            proof {
                reveal_strlit("\"\"");
            }
            out.append("\"\"");
            proof {
                assert("\"\""@ =~= seq!['"', '"']);
                assert(out@ =~= seq!['"'] + esc(s@.take(k + 1)));
            }
        } else {
            out.append(s.substring_char(k, k + 1));
            proof {
                assert(s@.subrange(k as int, k + 1) =~= seq![s@[k as int]]);
                assert(out@ =~= seq!['"'] + esc(s@.take(k + 1)));
            }
        }
        k = k + 1;
    }
    out.append("\"");
    proof {
        reveal_strlit("\"");
        assert(s@.take(n as int) =~= s@);
        assert(out@ =~= csv_quoted(s@));
    }
    out
}

proof fn lemma_esc_snoc(s: Seq<char>)
    requires
        s.len() > 0,
    ensures
        esc(s) == esc(s.drop_last()) + (if s.last() == '"' {
            seq!['"', '"']
        } else {
            seq![s.last()]
        }),
    decreases s.len(),
{
    if s.len() == 1 {
        assert(s.drop_last() =~= Seq::<char>::empty());
        assert(esc(s) =~= esc(s.drop_last()) + (if s.last() == '"' {
            seq!['"', '"']
        } else {
            seq![s.last()]
        }));
    } else {
        lemma_esc_snoc(s.drop_first());
        assert(s.drop_first().drop_last() =~= s.drop_last().drop_first());
        assert(s.drop_last()[0] == s[0]);
        assert(s.drop_last().len() > 0);
        assert(esc(s) == (if s[0] == '"' {
            seq!['"', '"']
        } else {
            seq![s[0]]
        }) + esc(s.drop_first()));
        assert(esc(s) =~= esc(s.drop_last()) + (if s.last() == '"' {
            seq!['"', '"']
        } else {
            seq![s.last()]
        }));
    }
}

/// Read one CSV field back: strip one layer of quotes and collapse doubled
/// double quotes. Reading back a quoted field recovers the field exactly.
pub fn read_csv_field(q: &str) -> (r: String)
    ensures
        r@ == csv_unquote(q@),
{
    let n = q.unicode_len();
    let quoted = n >= 2 && q.get_char(0) == '"' && q.get_char(n - 1) == '"';
    if !quoted {
        return q.to_owned();
    }
    let ghost m = q@.subrange(1, q@.len() - 1);
    let mut out = String::new();
    let mut i: usize = 1;
    proof {
        assert(m.skip(0) =~= m);
    }
    while i < n - 1
        invariant
            1 <= i <= n - 1,
            n == q@.len(),
            n >= 2,
            m == q@.subrange(1, q@.len() - 1),
            unesc(m) == out@ + unesc(m.skip(i - 1)),
        decreases n - i,
    {
        let c = q.get_char(i);
        proof {
            assert(m.skip(i - 1)[0] == m[i - 1]);
            assert(m[i - 1] == q@[i as int]);
        }
        if c == '"' && i + 1 < n - 1 && q.get_char(i + 1) == '"' {
            proof {
                reveal_strlit("\"");
                assert("\""@ =~= seq!['"']);
                assert(m.skip(i - 1)[1] == m[i as int]);
                assert(m.skip(i - 1).len() >= 2);
                assert(m.skip(i - 1).skip(2) =~= m.skip(i + 1));
                assert(unesc(m.skip(i - 1)) == seq!['"'] + unesc(m.skip(i + 1)));
            }
            out.append("\"");
            i = i + 2;
        } else {
            proof {
                if m[i - 1] == '"' {
                    assert(!(m.skip(i - 1)[0] == '"' && m.skip(i - 1).len() >= 2 && m.skip(
                        i - 1,
                    )[1] == '"')) by {
                        if m.skip(i - 1).len() >= 2 {
                            assert(m.skip(i - 1)[1] == m[i as int]);
                            assert(m[i as int] == q@[i + 1]);
                        }
                    }
                }
                assert(m.skip(i - 1).skip(1) =~= m.skip(i as int));
                assert(unesc(m.skip(i - 1)) == seq![m[i - 1]] + unesc(m.skip(i as int)));
                assert(q@.subrange(i as int, i + 1) =~= seq![q@[i as int]]);
            }
            out.append(q.substring_char(i, i + 1));
            i = i + 1;
        }
    }
    proof {
        assert(m.skip(n - 2) =~= Seq::<char>::empty());
        assert(unesc(m) =~= out@);
    }
    out
}

/// The text of a cell in a CSV record, before quoting: integers in decimal,
/// bytes promoted to lowercase hex without prefix, absent values empty.
pub open spec fn cell_chars(c: CellV) -> Seq<char> {
    match c {
        CellV::UInt(n) => dec_of(n as nat),
        CellV::OptUInt(o) => match o {
            Some(n) => dec_of(n as nat),
            None => Seq::empty(),
        },
        CellV::Bytes(b) => hex_of(b),
        CellV::OptBytes(o) => match o {
            Some(b) => hex_of(b),
            None => Seq::empty(),
        },
        CellV::Str(s) => s,
        CellV::OptStr(o) => match o {
            Some(s) => s,
            None => Seq::empty(),
        },
    }
}

/// Write the text of one cell, before quoting.
pub fn cell_text(cell: &Cell) -> (r: String)
    ensures
        r@ == cell_chars(cell_view(*cell)),
{
    match cell {
        Cell::UInt(n) => dec_string(*n),
        Cell::OptUInt(o) => match o.as_ref() {
            Some(n) => dec_string(*n),
            None => String::new(),
        },
        Cell::Bytes(b) => hex_string(b),
        Cell::OptBytes(o) => match o.as_ref() {
            Some(b) => hex_string(b),
            None => String::new(),
        },
        Cell::Str(s) => s.clone(),
        Cell::OptStr(o) => match o.as_ref() {
            Some(s) => s.clone(),
            None => String::new(),
        },
    }
}

/// One CSV record: the quoted fields joined by commas.
pub open spec fn csv_line(cells: Seq<Seq<char>>) -> Seq<char>
    decreases cells.len(),
{
    if cells.len() == 0 {
        Seq::empty()
    } else if cells.len() == 1 {
        csv_quoted(cells[0])
    } else {
        csv_line(cells.drop_last()) + seq![','] + csv_quoted(cells.last())
    }
}

/// The names of a batch's columns, in order.
pub open spec fn batch_names(b: Batch) -> Seq<Seq<char>> {
    b.columns@.map_values(|c: ColumnData| c.name@)
}

/// The unquoted field texts of row `k` of a batch, in column order.
pub open spec fn batch_row_chars(b: Batch, k: int) -> Seq<Seq<char>> {
    Seq::new(b.columns@.len(), |j: int| cell_chars(cell_view(b.columns@[j].cells@[k])))
}

/// The first `k` records of a batch, each ended by a line feed.
pub open spec fn csv_rows(b: Batch, k: int) -> Seq<char>
    decreases k,
{
    if k <= 0 {
        Seq::empty()
    } else {
        csv_rows(b, k - 1) + csv_line(batch_row_chars(b, k - 1)) + seq!['\n']
    }
}

/// A whole CSV file: the header record of column names, then one record per
/// row, each ended by a line feed.
pub open spec fn csv_text(b: Batch) -> Seq<char> {
    csv_line(batch_names(b)) + seq!['\n'] + csv_rows(b, b.n_rows as int)
}

/// Serialize a batch as CSV: a header of the column names in schema order,
/// then one comma-separated record per row.
pub fn write_csv(batch: &Batch) -> (r: String)
    requires
        batch.wf(),
    ensures
        r@ == csv_text(*batch),
{
    let ncols = batch.columns.len();
    let mut out = String::new();
    let mut j: usize = 0;
    proof {
        reveal_strlit(",");
        reveal_strlit("\n");
    }
    while j < ncols
        invariant
            0 <= j <= ncols == batch.columns@.len(),
            out@ == csv_line(batch_names(*batch).take(j as int)),
        decreases ncols - j,
    {
        if j > 0 {
            out.append(",");
        }
        out.append(csv_quote(batch.columns[j].name.as_str()).as_str());
        proof {
            reveal_strlit(",");
            assert(","@ =~= seq![',']);
            assert(batch_names(*batch).take(j + 1).drop_last() =~= batch_names(*batch).take(
                j as int,
            ));
            assert(batch_names(*batch).take(j + 1).last() == batch_names(*batch)[j as int]);
            assert(out@ =~= csv_line(batch_names(*batch).take(j + 1)));
        }
        j = j + 1;
    }
    out.append("\n");
    proof {
        reveal_strlit("\n");
        assert("\n"@ =~= seq!['\n']);
        assert(batch_names(*batch).take(ncols as int) =~= batch_names(*batch));
        assert(out@ =~= csv_line(batch_names(*batch)) + seq!['\n']);
        assert(out@ =~= csv_line(batch_names(*batch)) + seq!['\n'] + csv_rows(*batch, 0));
    }
    let mut k: usize = 0;
    while k < batch.n_rows
        invariant
            0 <= k <= batch.n_rows,
            ncols == batch.columns@.len(),
            batch.wf(),
            out@ == csv_line(batch_names(*batch)) + seq!['\n'] + csv_rows(*batch, k as int),
        decreases batch.n_rows - k,
    {
        let mut j: usize = 0;
        let ghost base = out@;
        while j < ncols
            invariant
                0 <= j <= ncols == batch.columns@.len(),
                0 <= k < batch.n_rows,
                batch.wf(),
                out@ == base + csv_line(batch_row_chars(*batch, k as int).take(j as int)),
            decreases ncols - j,
        {
            if j > 0 {
                out.append(",");
            }
            let field = cell_text(&batch.columns[j].cells[k]);
            out.append(csv_quote(field.as_str()).as_str());
            proof {
                reveal_strlit(",");
                assert(","@ =~= seq![',']);
                assert(batch_row_chars(*batch, k as int).take(j + 1).drop_last()
                    =~= batch_row_chars(*batch, k as int).take(j as int));
                assert(batch_row_chars(*batch, k as int).take(j + 1).last() == batch_row_chars(
                    *batch,
                    k as int,
                )[j as int]);
                assert(out@ =~= base + csv_line(batch_row_chars(*batch, k as int).take(j + 1)));
            }
            j = j + 1;
        }
        out.append("\n");
        proof {
            reveal_strlit("\n");
            assert("\n"@ =~= seq!['\n']);
            assert(batch_row_chars(*batch, k as int).take(ncols as int) =~= batch_row_chars(
                *batch,
                k as int,
            ));
            assert(out@ =~= csv_line(batch_names(*batch)) + seq!['\n'] + csv_rows(
                *batch,
                k + 1,
            ));
        }
        k = k + 1;
    }
    out
}

} // verus!
