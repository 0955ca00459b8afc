use crate::types::{ColumnEncoding, ConfigError, Datatype};
use vstd::prelude::*;

verus! {

/// The physical type of one output column.
#[derive(Clone, Copy, PartialEq, Eq, Structural, Debug)]
pub enum ColumnType {
    UInt32,
    UInt64,
    Binary,
    Hex,
}

pub open spec fn column_type_name(t: ColumnType) -> Seq<char> {
    match t {
        ColumnType::UInt32 => "uint32"@,
        ColumnType::UInt64 => "uint64"@,
        ColumnType::Binary => "binary"@,
        ColumnType::Hex => "hex"@,
    }
}

impl ColumnType {
    /// The display name of the column type.
    pub fn as_str(&self) -> (r: &'static str)
        ensures
            r@ == column_type_name(*self),
    {
        match self {
            ColumnType::UInt32 => "uint32",
            ColumnType::UInt64 => "uint64",
            ColumnType::Binary => "binary",
            ColumnType::Hex => "hex",
        }
    }
}

/// One named, typed output column.
#[derive(Clone, Debug)]
pub struct Column {
    pub name: String,
    pub ctype: ColumnType,
}

impl Column {
    pub open spec fn view(self) -> (Seq<char>, ColumnType) {
        (self.name@, self.ctype)
    }
}

/// An ordered column-name-to-type mapping: the shape of one datatype's output.
#[derive(Clone, Debug)]
pub struct Schema {
    pub columns: Vec<Column>,
}

impl Schema {
    /// The ordered (name, type) pairs of the schema.
    pub open spec fn pairs(self) -> Seq<(Seq<char>, ColumnType)> {
        self.columns@.map_values(|c: Column| c.view())
    }

    /// The ordered column names of the schema.
    pub open spec fn names(self) -> Seq<Seq<char>> {
        self.columns@.map_values(|c: Column| c.name@)
    }

    pub open spec fn wf(self) -> bool {
        self.columns@.len() > 0
    }

    /// How many columns the schema has.
    pub fn len(&self) -> (r: usize)
        ensures
            r == self.columns@.len(),
    {
        self.columns.len()
    }
}

/// How a bytes-typed column is materialized under an encoding choice.
pub open spec fn bytes_ctype(enc: ColumnEncoding) -> ColumnType {
    match enc {
        ColumnEncoding::Binary => ColumnType::Binary,
        ColumnEncoding::Hex => ColumnType::Hex,
    }
}

/// The canonical, ordered full schema of a datatype, with the bytes-typed
/// columns already materialized under the encoding choice.
pub open spec fn canonical_schema(dt: Datatype, enc: ColumnEncoding) -> Seq<
    (Seq<char>, ColumnType),
> {
    let b = bytes_ctype(enc);
    match dt {
        Datatype::Blocks => seq![
            ("block_number"@, ColumnType::UInt32),
            ("block_hash"@, b),
            ("parent_hash"@, b),
            ("timestamp"@, ColumnType::UInt32),
            ("author"@, b),
            ("gas_used"@, ColumnType::UInt64),
            ("extra_data"@, b),
            ("base_fee_per_gas"@, ColumnType::UInt64),
            ("size"@, ColumnType::UInt64),
            ("transaction_count"@, ColumnType::UInt32),
            ("logs_bloom"@, b),
        ],
        Datatype::Transactions => seq![
            ("block_number"@, ColumnType::UInt32),
            ("transaction_index"@, ColumnType::UInt32),
            ("transaction_hash"@, b),
            ("nonce"@, ColumnType::UInt64),
            ("from_address"@, b),
            ("to_address"@, b),
            ("value"@, b),
            ("input"@, b),
            ("gas_limit"@, ColumnType::UInt64),
            ("gas_price"@, ColumnType::UInt64),
            ("transaction_type"@, ColumnType::UInt32),
            ("max_priority_fee_per_gas"@, ColumnType::UInt64),
            ("max_fee_per_gas"@, ColumnType::UInt64),
            ("chain_id"@, ColumnType::UInt64),
        ],
        Datatype::Logs => seq![
            ("block_number"@, ColumnType::UInt32),
            ("block_hash"@, b),
            ("transaction_hash"@, b),
            ("transaction_index"@, ColumnType::UInt32),
            ("log_index"@, ColumnType::UInt32),
            ("address"@, b),
            ("topic0"@, b),
            ("topic1"@, b),
            ("topic2"@, b),
            ("topic3"@, b),
            ("data"@, b),
        ],
    }
}

/// The canonical, ordered column names of a datatype.
pub open spec fn canonical_names(dt: Datatype) -> Seq<Seq<char>> {
    canonical_schema(dt, ColumnEncoding::Binary).map_values(|p: (Seq<char>, ColumnType)| p.0)
}

/// A filtered sequence is a subsequence of the sequence it was filtered from.
proof fn lemma_filter_subseq<T>(s: Seq<T>, pred: spec_fn(T) -> bool)
    ensures
        is_subseq_of(s.filter(pred), s),
    decreases s.len(),
{
    reveal(Seq::filter);
    if s.len() == 0 {
    } else {
        lemma_filter_subseq(s.drop_last(), pred);
        if pred(s.last()) {
            assert(s.filter(pred) == s.drop_last().filter(pred).push(s.last()));
            assert(s.filter(pred).drop_last() =~= s.drop_last().filter(pred));
            assert(s.filter(pred).last() == s.last());
        } else {
            lemma_subseq_extend_right(s.filter(pred), s);
        }
    }
}

/// `a` appears inside `b` in order: `a` is a subsequence of `b`.
pub open spec fn is_subseq_of<T>(a: Seq<T>, b: Seq<T>) -> bool
    decreases b.len(),
{
    if a.len() == 0 {
        true
    } else if b.len() == 0 {
        false
    } else if a.last() == b.last() {
        is_subseq_of(a.drop_last(), b.drop_last())
    } else {
        is_subseq_of(a, b.drop_last())
    }
}

proof fn lemma_subseq_drop_left<T>(a: Seq<T>, b: Seq<T>)
    requires
        is_subseq_of(a, b),
        a.len() > 0,
    ensures
        is_subseq_of(a.drop_last(), b),
    decreases b.len(), 1int,
{
    if a.last() == b.last() {
        lemma_subseq_extend_right(a.drop_last(), b);
    } else {
        lemma_subseq_drop_left(a, b.drop_last());
        lemma_subseq_extend_right(a.drop_last(), b);
    }
}

proof fn lemma_subseq_extend_right<T>(a: Seq<T>, b: Seq<T>)
    requires
        b.len() > 0,
        is_subseq_of(a, b.drop_last()),
    ensures
        is_subseq_of(a, b),
    decreases b.len(), 0int,
{
    if a.len() == 0 {
    } else if a.last() == b.last() {
        lemma_subseq_drop_left(a, b.drop_last());
    }
}

/// Mapping both sequences preserves the subsequence relation.
proof fn lemma_subseq_map<T, U>(a: Seq<T>, b: Seq<T>, f: spec_fn(T) -> U)
    requires
        is_subseq_of(a, b),
    ensures
        is_subseq_of(a.map_values(f), b.map_values(f)),
    decreases b.len(),
{
    if a.len() == 0 {
        assert(a.map_values(f).len() == 0);
    } else if b.len() == 0 {
    } else {
        assert(a.map_values(f).drop_last() =~= a.drop_last().map_values(f));
        assert(b.map_values(f).drop_last() =~= b.drop_last().map_values(f));
        if a.last() == b.last() {
            lemma_subseq_map(a.drop_last(), b.drop_last(), f);
            lemma_subseq_extend_right_map(a.map_values(f), b.map_values(f));
        } else {
            lemma_subseq_map(a, b.drop_last(), f);
            if a.map_values(f).last() == b.map_values(f).last() {
                lemma_subseq_drop_left(a.map_values(f), b.drop_last().map_values(f));
            }
        }
    }
}

proof fn lemma_subseq_extend_right_map<U>(fa: Seq<U>, fb: Seq<U>)
    requires
        fb.len() > 0,
        fa.len() > 0,
        fa.last() == fb.last(),
        is_subseq_of(fa.drop_last(), fb.drop_last()),
    ensures
        is_subseq_of(fa, fb),
{
}


/// The views of a list of user-given column names.
pub open spec fn name_list_view(l: Seq<String>) -> Seq<Seq<char>> {
    l.map_values(|x: String| x@)
}

pub open spec fn opt_name_views(o: Option<Vec<String>>) -> Option<Seq<Seq<char>>> {
    match o {
        Some(l) => Some(name_list_view(l@)),
        None => None,
    }
}

/// Whether a column named `n` survives the include/exclude projection.
pub open spec fn keep_name(
    n: Seq<char>,
    inc: Option<Seq<Seq<char>>>,
    exc: Option<Seq<Seq<char>>>,
) -> bool {
    (match inc {
        Some(l) => l.contains(n),
        None => true,
    }) && (match exc {
        Some(l) => !l.contains(n),
        None => true,
    })
}

/// The effective schema: the canonical schema restricted to the columns that
/// survive the include/exclude projection, in canonical order.
pub open spec fn effective_schema(
    dt: Datatype,
    enc: ColumnEncoding,
    inc: Option<Seq<Seq<char>>>,
    exc: Option<Seq<Seq<char>>>,
) -> Seq<(Seq<char>, ColumnType)> {
    canonical_schema(dt, enc).filter(|p: (Seq<char>, ColumnType)| keep_name(p.0, inc, exc))
}

/// Every name in `l` is a canonical column name of `dt`.
pub open spec fn all_known(l: Seq<Seq<char>>, dt: Datatype) -> bool {
    forall|i: int| 0 <= i < l.len() ==> canonical_names(dt).contains(#[trigger] l[i])
}

pub open spec fn opt_all_known(o: Option<Seq<Seq<char>>>, dt: Datatype) -> bool {
    match o {
        Some(l) => all_known(l, dt),
        None => true,
    }
}

fn mk_column(name: &str, t: ColumnType) -> (r: Column)
    ensures
        r.name@ == name@,
        r.ctype == t,
{
    Column { name: name.to_owned(), ctype: t }
}

/// The canonical full schema of a datatype as executable columns, with the
/// bytes-typed columns materialized under the encoding choice.
pub fn canonical_columns(datatype: &Datatype, enc: &ColumnEncoding) -> (r: Vec<Column>)
    ensures
        r@.map_values(|c: Column| c.view()) == canonical_schema(*datatype, *enc),
        r@.len() > 0,
{
    let b = match enc {
        ColumnEncoding::Binary => ColumnType::Binary,
        ColumnEncoding::Hex => ColumnType::Hex,
    };
    let mut out: Vec<Column> = Vec::new();
    match datatype {
        Datatype::Blocks => {
            out.push(mk_column("block_number", ColumnType::UInt32));
            out.push(mk_column("block_hash", b));
            out.push(mk_column("parent_hash", b));
            out.push(mk_column("timestamp", ColumnType::UInt32));
            out.push(mk_column("author", b));
            out.push(mk_column("gas_used", ColumnType::UInt64));
            out.push(mk_column("extra_data", b));
            out.push(mk_column("base_fee_per_gas", ColumnType::UInt64));
            out.push(mk_column("size", ColumnType::UInt64));
            out.push(mk_column("transaction_count", ColumnType::UInt32));
            out.push(mk_column("logs_bloom", b));
        },
        Datatype::Transactions => {
            out.push(mk_column("block_number", ColumnType::UInt32));
            out.push(mk_column("transaction_index", ColumnType::UInt32));
            out.push(mk_column("transaction_hash", b));
            out.push(mk_column("nonce", ColumnType::UInt64));
            out.push(mk_column("from_address", b));
            out.push(mk_column("to_address", b));
            out.push(mk_column("value", b));
            out.push(mk_column("input", b));
            out.push(mk_column("gas_limit", ColumnType::UInt64));
            out.push(mk_column("gas_price", ColumnType::UInt64));
            out.push(mk_column("transaction_type", ColumnType::UInt32));
            out.push(mk_column("max_priority_fee_per_gas", ColumnType::UInt64));
            out.push(mk_column("max_fee_per_gas", ColumnType::UInt64));
            out.push(mk_column("chain_id", ColumnType::UInt64));
        },
        Datatype::Logs => {
            out.push(mk_column("block_number", ColumnType::UInt32));
            out.push(mk_column("block_hash", b));
            out.push(mk_column("transaction_hash", b));
            out.push(mk_column("transaction_index", ColumnType::UInt32));
            out.push(mk_column("log_index", ColumnType::UInt32));
            out.push(mk_column("address", b));
            out.push(mk_column("topic0", b));
            out.push(mk_column("topic1", b));
            out.push(mk_column("topic2", b));
            out.push(mk_column("topic3", b));
            out.push(mk_column("data", b));
        },
    }
    proof {
        assert(out@.map_values(|c: Column| c.view()) =~= canonical_schema(*datatype, *enc));
    }
    out
}

/// Whether a user-given name appears in a list of names.
fn list_contains(l: &Vec<String>, name: &String) -> (r: bool)
    ensures
        r == name_list_view(l@).contains(name@),
{
    let mut i: usize = 0;
    while i < l.len()
        invariant
            0 <= i <= l@.len(),
            forall|j: int| 0 <= j < i ==> name_list_view(l@)[j] != name@,
        decreases l@.len() - i,
    {
        if l[i] == *name {
            assert(name_list_view(l@)[i as int] == name@);
            return true;
        }
        i = i + 1;
    }
    assert(forall|j: int| 0 <= j < l@.len() ==> name_list_view(l@)[j] != name@);
    false
}

/// Whether a name is one of the given columns' names.
fn columns_contain(cols: &Vec<Column>, name: &String) -> (r: bool)
    ensures
        r == cols@.map_values(|c: Column| c.name@).contains(name@),
{
    let ghost names = cols@.map_values(|c: Column| c.name@);
    let mut i: usize = 0;
    while i < cols.len()
        invariant
            0 <= i <= cols@.len(),
            names == cols@.map_values(|c: Column| c.name@),
            forall|j: int| 0 <= j < i ==> names[j] != name@,
        decreases cols@.len() - i,
    {
        if cols[i].name == *name {
            assert(names[i as int] == name@);
            return true;
        }
        i = i + 1;
    }
    assert(forall|j: int| 0 <= j < names.len() ==> names[j] != name@);
    false
}

/// Resolve the effective schema of a datatype from the encoding choice and
/// the optional include and exclude lists: canonical order is kept, unknown
/// names and an empty result are configuration errors.
pub fn get_schema(
    datatype: &Datatype,
    binary_column_format: &ColumnEncoding,
    include_columns: &Option<Vec<String>>,
    exclude_columns: &Option<Vec<String>>,
) -> (r: Result<Schema, ConfigError>)
    ensures
        (match r {
            Ok(s) => {
                let inc = opt_name_views(*include_columns);
                let exc = opt_name_views(*exclude_columns);
                &&& opt_all_known(inc, *datatype)
                &&& opt_all_known(exc, *datatype)
                &&& s.pairs() == effective_schema(*datatype, *binary_column_format, inc, exc)
                &&& s.wf()
                &&& is_subseq_of(s.names(), canonical_names(*datatype))
            },
            Err(e) => {
                let inc = opt_name_views(*include_columns);
                let exc = opt_name_views(*exclude_columns);
                ||| (e == ConfigError::UnknownColumn && !(opt_all_known(inc, *datatype)
                    && opt_all_known(exc, *datatype)))
                ||| (e == ConfigError::EmptySchema && opt_all_known(inc, *datatype)
                    && opt_all_known(exc, *datatype) && effective_schema(
                    *datatype,
                    *binary_column_format,
                    inc,
                    exc,
                ).len() == 0)
            },
        }),
{
    let ghost inc = opt_name_views(*include_columns);
    let ghost exc = opt_name_views(*exclude_columns);
    let canonical = canonical_columns(datatype, binary_column_format);
    let ghost cpairs = canonical@.map_values(|c: Column| c.view());
    let ghost cnames = canonical@.map_values(|c: Column| c.name@);
    proof {
        assert(cnames =~= cpairs.map_values(|p: (Seq<char>, ColumnType)| p.0));
        assert(cnames =~= canonical_names(*datatype));
    }
    if let Some(l) = include_columns.as_ref() {
        let mut i: usize = 0;
        while i < l.len()
            invariant
                0 <= i <= l@.len(),
                cnames == canonical@.map_values(|c: Column| c.name@),
                cnames == canonical_names(*datatype),
                inc == Some(name_list_view(l@)),
                inc == opt_name_views(*include_columns),
                exc == opt_name_views(*exclude_columns),
                forall|j: int| 0 <= j < i ==> cnames.contains(#[trigger] name_list_view(l@)[j]),
            decreases l@.len() - i,
        {
            if !columns_contain(&canonical, &l[i]) {
                assert(!cnames.contains(name_list_view(l@)[i as int]));
                assert(!all_known(name_list_view(l@), *datatype));
                return Err(ConfigError::UnknownColumn);
            }
            i = i + 1;
        }
        assert(all_known(name_list_view(l@), *datatype));
    }
    if let Some(l) = exclude_columns.as_ref() {
        let mut i: usize = 0;
        while i < l.len()
            invariant
                0 <= i <= l@.len(),
                cnames == canonical@.map_values(|c: Column| c.name@),
                cnames == canonical_names(*datatype),
                exc == Some(name_list_view(l@)),
                exc == opt_name_views(*exclude_columns),
                inc == opt_name_views(*include_columns),
                opt_all_known(inc, *datatype),
                forall|j: int| 0 <= j < i ==> cnames.contains(#[trigger] name_list_view(l@)[j]),
            decreases l@.len() - i,
        {
            if !columns_contain(&canonical, &l[i]) {
                assert(!cnames.contains(name_list_view(l@)[i as int]));
                assert(!all_known(name_list_view(l@), *datatype));
                return Err(ConfigError::UnknownColumn);
            }
            i = i + 1;
        }
        assert(all_known(name_list_view(l@), *datatype));
    }
    let ghost pred = |p: (Seq<char>, ColumnType)| keep_name(p.0, inc, exc);
    let mut out: Vec<Column> = Vec::new();
    let mut i: usize = 0;
    proof {
        reveal(Seq::filter);
        assert(cpairs.take(0int).filter(pred) =~= Seq::<(Seq<char>, ColumnType)>::empty());
    }
    while i < canonical.len()
        invariant
            0 <= i <= canonical@.len(),
            cpairs == canonical@.map_values(|c: Column| c.view()),
            pred == (|p: (Seq<char>, ColumnType)| keep_name(p.0, inc, exc)),
            inc == opt_name_views(*include_columns),
            exc == opt_name_views(*exclude_columns),
            out@.map_values(|c: Column| c.view()) == cpairs.take(i as int).filter(pred),
        decreases canonical@.len() - i,
    {
        let c = &canonical[i];
        let keep_inc = match include_columns.as_ref() {
            Some(l) => list_contains(l, &c.name),
            None => true,
        };
        let keep_exc = match exclude_columns.as_ref() {
            Some(l) => !list_contains(l, &c.name),
            None => true,
        };
        proof {
            reveal(Seq::filter);
            assert(cpairs.take(i + 1).drop_last() =~= cpairs.take(i as int));
            assert(cpairs.take(i + 1).last() == cpairs[i as int]);
            assert((keep_inc && keep_exc) == pred(cpairs[i as int]));
        }
        if keep_inc && keep_exc {
            let col = Column { name: c.name.clone(), ctype: c.ctype };
            out.push(col);
            proof {
                assert(out@.map_values(|c: Column| c.view()) =~= cpairs.take(i as int).filter(
                    pred,
                ).push(cpairs[i as int]));
            }
        }
        i = i + 1;
    }
    proof {
        assert(cpairs.take(canonical@.len() as int) =~= cpairs);
    }
    if out.len() == 0 {
        return Err(ConfigError::EmptySchema);
    }
    let s = Schema { columns: out };
    proof {
        lemma_filter_subseq(cpairs, pred);
        lemma_subseq_map(
            cpairs.filter(pred),
            cpairs,
            |p: (Seq<char>, ColumnType)| p.0,
        );
        assert(s.pairs().map_values(|p: (Seq<char>, ColumnType)| p.0) =~= s.names());
        assert(cpairs.map_values(|p: (Seq<char>, ColumnType)| p.0) =~= canonical_names(*datatype));
    }
    Ok(s)
}

/// The default sort keys of a datatype: its canonical row identity.
pub open spec fn default_sort_names(dt: Datatype) -> Seq<Seq<char>> {
    match dt {
        Datatype::Blocks => seq!["block_number"@],
        Datatype::Transactions => seq!["block_number"@, "transaction_index"@],
        Datatype::Logs => seq!["block_number"@, "log_index"@],
    }
}

/// The default sort keys of a datatype as executable strings.
pub fn default_sort(datatype: &Datatype) -> (r: Vec<String>)
    ensures
        name_list_view(r@) == default_sort_names(*datatype),
{
    let mut out: Vec<String> = Vec::new();
    match datatype {
        Datatype::Blocks => {
            out.push("block_number".to_owned());
        },
        Datatype::Transactions => {
            out.push("block_number".to_owned());
            out.push("transaction_index".to_owned());
        },
        Datatype::Logs => {
            out.push("block_number".to_owned());
            out.push("log_index".to_owned());
        },
    }
    proof {
        assert(name_list_view(out@) =~= default_sort_names(*datatype));
    }
    out
}

/// Every name of `l` is a column name of `names`.
pub open spec fn names_all_in(l: Seq<Seq<char>>, names: Seq<Seq<char>>) -> bool {
    forall|j: int| 0 <= j < l.len() ==> names.contains(#[trigger] l[j])
}

fn check_sort_names(sort: &Vec<String>, schema: &Schema) -> (r: bool)
    ensures
        r == names_all_in(name_list_view(sort@), schema.names()),
{
    let mut i: usize = 0;
    while i < sort.len()
        invariant
            0 <= i <= sort@.len(),
            forall|j: int|
                0 <= j < i ==> schema.names().contains(#[trigger] name_list_view(sort@)[j]),
        decreases sort@.len() - i,
    {
        if !columns_contain(&schema.columns, &sort[i]) {
            assert(!schema.names().contains(name_list_view(sort@)[i as int]));
            return false;
        }
        i = i + 1;
    }
    true
}

fn clone_names(l: &Vec<String>) -> (r: Vec<String>)
    ensures
        name_list_view(r@) == name_list_view(l@),
{
    let mut out: Vec<String> = Vec::new();
    let mut i: usize = 0;
    while i < l.len()
        invariant
            0 <= i <= l@.len(),
            name_list_view(out@) == name_list_view(l@).take(i as int),
        decreases l@.len() - i,
    {
        proof {
            assert(name_list_view(out@).len() == out@.len());
            assert(name_list_view(l@).take(i as int).len() == i);
        }
        let c = l[i].clone();
        out.push(c);
        proof {
            assert(out@[i as int]@ == l@[i as int]@);
            assert(name_list_view(out@) =~= name_list_view(l@).take(i + 1));
        }
        i = i + 1;
    }
    proof {
        assert(name_list_view(l@).take(l@.len() as int) =~= name_list_view(l@));
    }
    out
}

/// Resolve the per-datatype sort keys. Without a custom sort every datatype
/// gets its default keys; a custom sort is only allowed with one datatype,
/// and every sort key must be a column of that datatype's effective schema.
pub fn parse_sort(raw_sort: &Vec<String>, schemas: &Vec<(Datatype, Schema)>) -> (r: Result<
    Vec<(Datatype, Vec<String>)>,
    ConfigError,
>)
    ensures
        (match r {
            Ok(v) => {
                &&& v@.len() == schemas@.len()
                &&& forall|i: int| 0 <= i < v@.len() ==> (#[trigger] v@[i]).0 == schemas@[i].0
                &&& forall|i: int|
                    0 <= i < v@.len() ==> names_all_in(
                        name_list_view((#[trigger] v@[i]).1@),
                        schemas@[i].1.names(),
                    )
                &&& (raw_sort@.len() == 0 ==> forall|i: int|
                    0 <= i < v@.len() ==> name_list_view((#[trigger] v@[i]).1@)
                        == default_sort_names(schemas@[i].0))
                &&& (raw_sort@.len() > 0 ==> schemas@.len() == 1 && v@.len() == 1
                    && name_list_view(v@[0].1@) == name_list_view(raw_sort@))
            },
            Err(e) => {
                ||| (e == ConfigError::SortWithMultipleDatatypes && raw_sort@.len() > 0
                    && schemas@.len() > 1)
                ||| (e == ConfigError::NoDatatypes && raw_sort@.len() > 0 && schemas@.len() == 0)
                ||| (e == ConfigError::UnknownColumn && (
                    if raw_sort@.len() == 0 {
                        exists|i: int|
                            0 <= i < schemas@.len() && !names_all_in(
                                default_sort_names((#[trigger] schemas@[i]).0),
                                schemas@[i].1.names(),
                            )
                    } else {
                        schemas@.len() == 1 && !names_all_in(
                            name_list_view(raw_sort@),
                            schemas@[0].1.names(),
                        )
                    }))
            },
        }),
{
    if raw_sort.len() == 0 {
        let mut out: Vec<(Datatype, Vec<String>)> = Vec::new();
        let mut i: usize = 0;
        while i < schemas.len()
            invariant
                raw_sort@.len() == 0,
                0 <= i <= schemas@.len(),
                out@.len() == i,
                forall|j: int| 0 <= j < i ==> (#[trigger] out@[j]).0 == schemas@[j].0,
                forall|j: int|
                    0 <= j < i ==> name_list_view((#[trigger] out@[j]).1@) == default_sort_names(
                        schemas@[j].0,
                    ),
                forall|j: int|
                    0 <= j < i ==> names_all_in(
                        name_list_view((#[trigger] out@[j]).1@),
                        schemas@[j].1.names(),
                    ),
            decreases schemas@.len() - i,
        {
            let dt = schemas[i].0;
            let ds = default_sort(&dt);
            if !check_sort_names(&ds, &schemas[i].1) {
                return Err(ConfigError::UnknownColumn);
            }
            out.push((dt, ds));
            i = i + 1;
        }
        Ok(out)
    } else if schemas.len() > 1 {
        Err(ConfigError::SortWithMultipleDatatypes)
    } else if schemas.len() == 0 {
        Err(ConfigError::NoDatatypes)
    } else {
        if !check_sort_names(raw_sort, &schemas[0].1) {
            return Err(ConfigError::UnknownColumn);
        }
        let mut out: Vec<(Datatype, Vec<String>)> = Vec::new();
        out.push((schemas[0].0, clone_names(raw_sort)));
        Ok(out)
    }
}

} // verus!
