use vstd::prelude::*;

verus! {

/// The kinds of blockchain data that can be collected.
#[derive(Clone, Copy, PartialEq, Eq, Structural, Debug)]
pub enum Datatype {
    Blocks,
    Transactions,
    Logs,
}

/// How bytes-typed columns are represented in output files.
#[derive(Clone, Copy, PartialEq, Eq, Structural, Debug)]
pub enum ColumnEncoding {
    Binary,
    Hex,
}

/// The on-disk file format of a chunk's output.
#[derive(Clone, Copy, PartialEq, Eq, Structural, Debug)]
pub enum FileFormat {
    Parquet,
    Csv,
}

/// A fatal error found while turning user inputs into a run plan.
#[derive(Clone, Copy, PartialEq, Eq, Structural, Debug)]
pub enum ConfigError {
    /// A datatype token is not one of the recognized names.
    InvalidDatatype,
    /// A block range token is not `N` or `A:B` with `A <= B`.
    InvalidRange,
    /// No block range tokens were given.
    EmptyRange,
    /// The chunk size is zero.
    ZeroChunkSize,
    /// A concurrency cap was given as zero.
    ZeroConcurrency,
    /// All three concurrency caps were given but requests != chunks * blocks.
    IncompatibleConcurrency,
    /// An include, exclude or sort column is not a column of the datatype.
    UnknownColumn,
    /// Projection removed every column of a schema.
    EmptySchema,
    /// A custom sort was given together with more than one datatype.
    SortWithMultipleDatatypes,
    /// The log request size is zero.
    ZeroLogRequestSize,
    /// No datatypes were given.
    NoDatatypes,
}

pub open spec fn datatype_name(d: Datatype) -> Seq<char> {
    match d {
        Datatype::Blocks => "blocks"@,
        Datatype::Transactions => "transactions"@,
        Datatype::Logs => "logs"@,
    }
}

pub open spec fn format_name(f: FileFormat) -> Seq<char> {
    match f {
        FileFormat::Parquet => "parquet"@,
        FileFormat::Csv => "csv"@,
    }
}

pub open spec fn encoding_name(e: ColumnEncoding) -> Seq<char> {
    match e {
        ColumnEncoding::Binary => "binary"@,
        ColumnEncoding::Hex => "hex"@,
    }
}

impl Datatype {
    /// The canonical name of the datatype.
    pub fn as_str(&self) -> (r: &'static str)
        ensures
            r@ == datatype_name(*self),
    {
        match self {
            Datatype::Blocks => "blocks",
            Datatype::Transactions => "transactions",
            Datatype::Logs => "logs",
        }
    }
}

impl FileFormat {
    /// The file extension and display name of the format.
    pub fn as_str(&self) -> (r: &'static str)
        ensures
            r@ == format_name(*self),
    {
        match self {
            FileFormat::Parquet => "parquet",
            FileFormat::Csv => "csv",
        }
    }
}

impl ColumnEncoding {
    /// The display name of the encoding.
    pub fn as_str(&self) -> (r: &'static str)
        ensures
            r@ == encoding_name(*self),
    {
        match self {
            ColumnEncoding::Binary => "binary",
            ColumnEncoding::Hex => "hex",
        }
    }
}

/// What a datatype token denotes; `events` and `txs` are accepted aliases.
pub open spec fn datatype_of_token(s: Seq<char>) -> Option<Datatype> {
    if s == "blocks"@ {
        Some(Datatype::Blocks)
    } else if s == "logs"@ || s == "events"@ {
        Some(Datatype::Logs)
    } else if s == "transactions"@ || s == "txs"@ {
        Some(Datatype::Transactions)
    } else {
        None
    }
}

/// Recognize a datatype token; `events` and `txs` are accepted aliases.
pub fn parse_datatype(datatype: &str) -> (r: Result<Datatype, ConfigError>)
    ensures
        r == (match datatype_of_token(datatype@) {
            Some(d) => Ok::<Datatype, ConfigError>(d),
            None => Err::<Datatype, ConfigError>(ConfigError::InvalidDatatype),
        }),
{
    proof {
        reveal_strlit("blocks");
        reveal_strlit("logs");
        reveal_strlit("events");
        reveal_strlit("transactions");
        reveal_strlit("txs");
        assert("blocks"@.len() == 6);
        assert("logs"@.len() == 4);
        assert("events"@.len() == 6);
        assert("transactions"@.len() == 12);
        assert("txs"@.len() == 3);
        assert("blocks"@[0] == 'b' && "events"@[0] == 'e');
    }
    let s = datatype.to_owned();
    if s == "blocks".to_owned() {
        Ok(Datatype::Blocks)
    } else if s == "logs".to_owned() || s == "events".to_owned() {
        Ok(Datatype::Logs)
    } else if s == "transactions".to_owned() || s == "txs".to_owned() {
        Ok(Datatype::Transactions)
    } else {
        Err(ConfigError::InvalidDatatype)
    }
}

} // verus!
