use crate::chunks::{BlockChunk, get_subchunks, inputs_spec, parse_block_inputs, subchunks_post};
use crate::concurrency::{parse_concurrency_args, spec_resolve_concurrency};
use crate::schemas::{
    ColumnType, Schema, default_sort_names, effective_schema, get_schema, name_list_view,
    names_all_in, opt_all_known, opt_name_views, parse_sort,
};
use crate::types::{ColumnEncoding, ConfigError, Datatype, FileFormat, datatype_of_token};
use vstd::prelude::*;

verus! {

/// The parsed command-line inputs, as plain values; the network name is
/// already resolved (given by the user or derived from the chain id).
pub struct CliArgs {
    pub datatype: Vec<String>,
    pub blocks: Vec<String>,
    pub network_name: String,
    pub chunk_size: u64,
    pub output_dir: String,
    pub csv: bool,
    pub hex: bool,
    pub sort: Vec<String>,
    pub row_groups: Option<u64>,
    pub row_group_size: Option<u64>,
    pub no_stats: bool,
    pub include_columns: Option<Vec<String>>,
    pub exclude_columns: Option<Vec<String>>,
    pub max_concurrent_requests: Option<u64>,
    pub max_concurrent_chunks: Option<u64>,
    pub max_concurrent_blocks: Option<u64>,
    pub log_request_size: u64,
    pub dry: bool,
}

/// The immutable driver value of one ingestion run.
pub struct FreezeOpts {
    pub datatypes: Vec<Datatype>,
    pub block_chunks: Vec<BlockChunk>,
    pub output_dir: String,
    pub output_format: FileFormat,
    pub binary_column_format: ColumnEncoding,
    pub network_name: String,
    pub max_concurrent_chunks: u64,
    pub max_concurrent_blocks: u64,
    pub log_request_size: u64,
    pub dry_run: bool,
    pub schemas: Vec<(Datatype, Schema)>,
    pub sort: Vec<(Datatype, Vec<String>)>,
    pub row_groups: Option<u64>,
    pub row_group_size: Option<u64>,
    pub parquet_statistics: bool,
}

impl FreezeOpts {
    /// The run plan's invariants: positive concurrency caps and log request
    /// size, chunks that tile a range in ascending order, one schema and one
    /// sort entry per distinct datatype, and sort keys drawn from the
    /// datatype's schema.
    pub open spec fn wf(self) -> bool {
        &&& self.max_concurrent_chunks >= 1
        &&& self.max_concurrent_blocks >= 1
        &&& self.log_request_size >= 1
        &&& self.block_chunks@.len() >= 1
        &&& forall|i: int|
            0 <= i < self.block_chunks@.len() ==> (#[trigger] self.block_chunks@[i]).wf()
        &&& forall|i: int|
            0 <= i < self.block_chunks@.len() - 1 ==> (#[trigger] self.block_chunks@[i]).end_block
                + 1 == self.block_chunks@[i + 1].start_block
        &&& self.schemas@.len() == self.sort@.len()
        &&& forall|j: int| 0 <= j < self.schemas@.len() ==> (#[trigger] self.schemas@[j]).1.wf()
        &&& forall|j: int|
            0 <= j < self.sort@.len() ==> (#[trigger] self.sort@[j]).0 == self.schemas@[j].0
        &&& forall|j: int|
            0 <= j < self.sort@.len() ==> names_all_in(
                name_list_view((#[trigger] self.sort@[j]).1@),
                self.schemas@[j].1.names(),
            )
        &&& forall|i: int|
            0 <= i < self.datatypes@.len() ==> exists|j: int|
                0 <= j < self.schemas@.len() && (#[trigger] self.schemas@[j]).0 == (
                #[trigger] self.datatypes@[i])
    }
}

/// The datatypes denoted by the parsed tokens, in order, duplicates kept.
pub open spec fn parsed_dts(args: CliArgs) -> Seq<Datatype> {
    args.datatype@.map_values(|x: String| datatype_of_token(x@)->0)
}

/// The distinct elements of `s`, in order of first occurrence.
pub open spec fn dedup_dts(s: Seq<Datatype>) -> Seq<Datatype>
    decreases s.len(),
{
    if s.len() == 0 {
        Seq::empty()
    } else {
        let r = dedup_dts(s.drop_last());
        if r.contains(s.last()) {
            r
        } else {
            r.push(s.last())
        }
    }
}

proof fn lemma_dedup_contains(s: Seq<Datatype>, x: Datatype)
    ensures
        dedup_dts(s).contains(x) <==> s.contains(x),
    decreases s.len(),
{
    if s.len() > 0 {
        lemma_dedup_contains(s.drop_last(), x);
        let d = dedup_dts(s.drop_last());
        let ds = dedup_dts(s);
        if d.contains(x) {
            let w = choose|w: int| 0 <= w < d.len() && d[w] == x;
            assert(ds[w] == x);
            assert(ds.contains(x));
        }
        if s.contains(x) {
            let i = choose|i: int| 0 <= i < s.len() && s[i] == x;
            if i < s.len() - 1 {
                assert(s.drop_last()[i] == x);
                assert(s.drop_last().contains(x));
            } else {
                if !d.contains(s.last()) {
                    assert(ds[ds.len() - 1] == x);
                    assert(ds.contains(x));
                }
            }
        }
        if ds.contains(x) {
            let j = choose|j: int| 0 <= j < ds.len() && ds[j] == x;
            if d.contains(s.last()) {
                assert(d[j] == x);
                assert(d.contains(x));
                assert(s.drop_last().contains(x));
                let i = choose|i: int| 0 <= i < s.drop_last().len() && s.drop_last()[i] == x;
                assert(s[i] == x);
                assert(s.contains(x));
            } else {
                if j < d.len() {
                    assert(d[j] == x);
                    assert(d.contains(x));
                    assert(s.drop_last().contains(x));
                    let i = choose|i: int|
                        0 <= i < s.drop_last().len() && s.drop_last()[i] == x;
                    assert(s[i] == x);
                    assert(s.contains(x));
                } else {
                    assert(x == s.last());
                    assert(s[s.len() - 1] == x);
                    assert(s.contains(x));
                }
            }
        }
    }
}

pub open spec fn chosen_encoding(args: CliArgs) -> ColumnEncoding {
    if args.hex {
        ColumnEncoding::Hex
    } else {
        ColumnEncoding::Binary
    }
}

/// The ordered column names of the effective schema of a datatype.
pub open spec fn effective_names(
    dt: Datatype,
    enc: ColumnEncoding,
    inc: Option<Seq<Seq<char>>>,
    exc: Option<Seq<Seq<char>>>,
) -> Seq<Seq<char>> {
    effective_schema(dt, enc, inc, exc).map_values(|p: (Seq<char>, ColumnType)| p.0)
}

/// When the parsed inputs make a valid run plan: every datatype token is
/// recognized, the ranges parse, the chunk size, log request size and
/// concurrency caps are admissible, every datatype's projected schema is
/// known and nonempty, and the sort keys exist in the schema (a custom sort
/// needs a single datatype).
pub open spec fn opts_ok(args: CliArgs) -> bool {
    let dviews = args.datatype@.map_values(|x: String| x@);
    let enc = chosen_encoding(args);
    let inc = opt_name_views(args.include_columns);
    let exc = opt_name_views(args.exclude_columns);
    let dd = dedup_dts(parsed_dts(args));
    &&& args.datatype@.len() > 0
    &&& forall|i: int| 0 <= i < dviews.len() ==> datatype_of_token(#[trigger] dviews[i]) is Some
    &&& inputs_spec(args.blocks@.map_values(|x: String| x@)) is Ok
    &&& args.chunk_size >= 1
    &&& spec_resolve_concurrency(
        args.max_concurrent_requests,
        args.max_concurrent_chunks,
        args.max_concurrent_blocks,
    ) is Ok
    &&& args.log_request_size >= 1
    &&& forall|j: int|
        0 <= j < dd.len() ==> opt_all_known(inc, #[trigger] dd[j]) && opt_all_known(exc, dd[j])
            && effective_schema(dd[j], enc, inc, exc).len() > 0
    &&& (if args.sort@.len() == 0 {
        forall|j: int|
            0 <= j < dd.len() ==> names_all_in(
                default_sort_names(#[trigger] dd[j]),
                effective_names(dd[j], enc, inc, exc),
            )
    } else {
        dd.len() == 1 && names_all_in(
            name_list_view(args.sort@),
            effective_names(dd[0], enc, inc, exc),
        )
    })
}

fn dts_contains(v: &Vec<Datatype>, d: Datatype) -> (r: bool)
    ensures
        r == v@.contains(d),
{
    let mut i: usize = 0;
    while i < v.len()
        invariant
            0 <= i <= v@.len(),
            forall|j: int| 0 <= j < i ==> v@[j] != d,
        decreases v@.len() - i,
    {
        if v[i] == d {
            return true;
        }
        i = i + 1;
    }
    false
}

/// Turn the parsed command-line inputs into the run plan, or the first
/// configuration error: exactly the inputs that `opts_ok` admits succeed.
pub fn parse_opts(args: &CliArgs) -> (r: Result<FreezeOpts, ConfigError>)
    ensures
        r is Ok <==> opts_ok(*args),
        (match r {
            Ok(o) => {
                let enc = chosen_encoding(*args);
                let inc = opt_name_views(args.include_columns);
                let exc = opt_name_views(args.exclude_columns);
                &&& o.wf()
                &&& o.datatypes@ == parsed_dts(*args)
                &&& (inputs_spec(args.blocks@.map_values(|x: String| x@)) matches Ok(range)
                    && subchunks_post(range, args.chunk_size, o.block_chunks@))
                &&& o.output_dir@ == args.output_dir@
                &&& o.output_format == (if args.csv {
                    FileFormat::Csv
                } else {
                    FileFormat::Parquet
                })
                &&& o.binary_column_format == enc
                &&& o.network_name@ == args.network_name@
                &&& spec_resolve_concurrency(
                    args.max_concurrent_requests,
                    args.max_concurrent_chunks,
                    args.max_concurrent_blocks,
                ) == Ok::<(u64, u64), ConfigError>(
                    (o.max_concurrent_chunks, o.max_concurrent_blocks),
                )
                &&& o.log_request_size == args.log_request_size
                &&& o.dry_run == args.dry
                &&& o.row_groups == args.row_groups
                &&& o.row_group_size == args.row_group_size
                &&& o.parquet_statistics == !args.no_stats
                &&& o.schemas@.map_values(|p: (Datatype, Schema)| p.0) == dedup_dts(
                    parsed_dts(*args),
                )
                &&& forall|j: int|
                    0 <= j < o.schemas@.len() ==> (#[trigger] o.schemas@[j]).1.pairs()
                        == effective_schema(o.schemas@[j].0, enc, inc, exc)
                &&& o.sort@.len() == o.schemas@.len()
                &&& (args.sort@.len() == 0 ==> forall|j: int|
                    0 <= j < o.sort@.len() ==> name_list_view((#[trigger] o.sort@[j]).1@)
                        == default_sort_names(o.schemas@[j].0))
                &&& (args.sort@.len() > 0 ==> o.sort@.len() == 1 && name_list_view(o.sort@[0].1@)
                    == name_list_view(args.sort@))
            },
            Err(e) => !opts_ok(*args),
        }),
{
    let ghost dviews = args.datatype@.map_values(|x: String| x@);
    let ghost enc_s = chosen_encoding(*args);
    let ghost inc = opt_name_views(args.include_columns);
    let ghost exc = opt_name_views(args.exclude_columns);

    // datatypes
    if args.datatype.len() == 0 {
        return Err(ConfigError::NoDatatypes);
    }
    let mut datatypes: Vec<Datatype> = Vec::new();
    let mut i: usize = 0;
    while i < args.datatype.len()
        invariant
            0 <= i <= args.datatype@.len(),
            dviews == args.datatype@.map_values(|x: String| x@),
            datatypes@.len() == i,
            forall|j: int|
                0 <= j < i ==> datatype_of_token(#[trigger] dviews[j]) == Some(datatypes@[j]),
        decreases args.datatype@.len() - i,
    {
        match crate::types::parse_datatype(args.datatype[i].as_str()) {
            Ok(d) => {
                datatypes.push(d);
            },
            Err(e) => {
                proof {
                    assert(datatype_of_token(dviews[i as int]) is None);
                }
                return Err(e);
            },
        }
        i = i + 1;
    }
    proof {
        assert forall|j: int| 0 <= j < datatypes@.len() implies datatypes@[j] == parsed_dts(
            *args,
        )[j] by {
            assert(datatype_of_token(dviews[j]) == Some(datatypes@[j]));
        }
        assert(datatypes@ =~= parsed_dts(*args));
    }

    // block chunks
    let block_chunk = match parse_block_inputs(&args.blocks) {
        Ok(c) => c,
        Err(e) => {
            return Err(e);
        },
    };
    let block_chunks = match get_subchunks(&block_chunk, &args.chunk_size) {
        Ok(v) => v,
        Err(e) => {
            return Err(e);
        },
    };

    // concurrency
    let caps = match parse_concurrency_args(
        args.max_concurrent_requests,
        args.max_concurrent_chunks,
        args.max_concurrent_blocks,
    ) {
        Ok(cb) => cb,
        Err(e) => {
            return Err(e);
        },
    };
    proof {
        crate::concurrency::lemma_resolved_cap(
            args.max_concurrent_requests,
            args.max_concurrent_chunks,
            args.max_concurrent_blocks,
            caps,
        );
    }

    // log request size
    if args.log_request_size == 0 {
        return Err(ConfigError::ZeroLogRequestSize);
    }

    // distinct datatypes, in order of first occurrence
    let mut uniq: Vec<Datatype> = Vec::new();
    let mut i: usize = 0;
    while i < datatypes.len()
        invariant
            0 <= i <= datatypes@.len(),
            uniq@ == dedup_dts(datatypes@.take(i as int)),
        decreases datatypes@.len() - i,
    {
        let d = datatypes[i];
        proof {
            assert(datatypes@.take(i + 1).drop_last() =~= datatypes@.take(i as int));
            assert(datatypes@.take(i + 1).last() == datatypes@[i as int]);
        }
        if !dts_contains(&uniq, d) {
            uniq.push(d);
        }
        i = i + 1;
    }
    proof {
        assert(datatypes@.take(datatypes@.len() as int) =~= datatypes@);
    }

    // schemas
    let enc = if args.hex {
        ColumnEncoding::Hex
    } else {
        ColumnEncoding::Binary
    };
    let fmt = if args.csv {
        FileFormat::Csv
    } else {
        FileFormat::Parquet
    };
    let mut schemas: Vec<(Datatype, Schema)> = Vec::new();
    let mut j: usize = 0;
    while j < uniq.len()
        invariant
            0 <= j <= uniq@.len(),
            uniq@ == dedup_dts(parsed_dts(*args)),
            enc == enc_s,
            enc_s == chosen_encoding(*args),
            inc == opt_name_views(args.include_columns),
            exc == opt_name_views(args.exclude_columns),
            schemas@.len() == j,
            forall|k: int| 0 <= k < j ==> (#[trigger] schemas@[k]).0 == uniq@[k],
            forall|k: int|
                0 <= k < j ==> (#[trigger] schemas@[k]).1.pairs() == effective_schema(
                    uniq@[k],
                    enc_s,
                    inc,
                    exc,
                ),
            forall|k: int| 0 <= k < j ==> (#[trigger] schemas@[k]).1.wf(),
            forall|k: int|
                0 <= k < j ==> opt_all_known(inc, (#[trigger] schemas@[k]).0) && opt_all_known(
                    exc,
                    schemas@[k].0,
                ),
        decreases uniq@.len() - j,
    {
        let d = uniq[j];
        match get_schema(&d, &enc, &args.include_columns, &args.exclude_columns) {
            Ok(s) => {
                schemas.push((d, s));
            },
            Err(e) => {
                proof {
                    assert(!(opt_all_known(inc, uniq@[j as int]) && opt_all_known(
                        exc,
                        uniq@[j as int],
                    ) && effective_schema(uniq@[j as int], enc_s, inc, exc).len() > 0));
                    assert(!opts_ok(*args));
                }
                return Err(e);
            },
        }
        j = j + 1;
    }

    // sort keys
    let sort = match parse_sort(&args.sort, &schemas) {
        Ok(v) => v,
        Err(e) => {
            proof {
                lemma_schema_names_effective(schemas@, uniq@, enc_s, inc, exc);
                let dd = dedup_dts(parsed_dts(*args));
                assert(uniq@ == dd);
                if e == ConfigError::SortWithMultipleDatatypes {
                    assert(dd.len() > 1);
                    assert(!opts_ok(*args));
                } else if e == ConfigError::NoDatatypes {
                    assert(schemas@.len() >= 1);
                    assert(false);
                } else {
                    assert(e == ConfigError::UnknownColumn);
                    if args.sort@.len() == 0 {
                        let i = choose|i: int|
                            0 <= i < schemas@.len() && !names_all_in(
                                default_sort_names((#[trigger] schemas@[i]).0),
                                schemas@[i].1.names(),
                            );
                        assert(schemas@[i].1.names() == effective_names(
                            uniq@[i],
                            enc_s,
                            inc,
                            exc,
                        ));
                        assert(!names_all_in(
                            default_sort_names(dd[i]),
                            effective_names(dd[i], enc_s, inc, exc),
                        ));
                        assert(!opts_ok(*args));
                    } else {
                        assert(schemas@.len() == 1);
                        assert(!names_all_in(
                            name_list_view(args.sort@),
                            schemas@[0].1.names(),
                        ));
                        assert(schemas@[0].1.names() == effective_names(
                            dd[0],
                            enc_s,
                            inc,
                            exc,
                        ));
                        assert(!opts_ok(*args));
                    }
                }
            }
            return Err(e);
        },
    };

    let opts = FreezeOpts {
        datatypes,
        block_chunks,
        output_dir: args.output_dir.clone(),
        output_format: fmt,
        binary_column_format: enc,
        network_name: args.network_name.clone(),
        max_concurrent_chunks: caps.0,
        max_concurrent_blocks: caps.1,
        log_request_size: args.log_request_size,
        dry_run: args.dry,
        schemas,
        sort,
        row_groups: args.row_groups,
        row_group_size: args.row_group_size,
        parquet_statistics: !args.no_stats,
    };
    proof {
        assert(opts.schemas@.map_values(|p: (Datatype, Schema)| p.0) =~= dedup_dts(
            parsed_dts(*args),
        ));
        lemma_schema_names_effective(opts.schemas@, uniq@, enc_s, inc, exc);
        assert forall|i: int| 0 <= i < opts.datatypes@.len() implies exists|j: int|
            0 <= j < opts.schemas@.len() && (#[trigger] opts.schemas@[j]).0 == (
            #[trigger] opts.datatypes@[i]) by {
            assert(parsed_dts(*args).contains(opts.datatypes@[i])) by {
                assert(parsed_dts(*args)[i] == opts.datatypes@[i]);
            }
            lemma_dedup_contains(parsed_dts(*args), opts.datatypes@[i]);
            let j = choose|j: int|
                0 <= j < uniq@.len() && uniq@[j] == opts.datatypes@[i];
            assert(opts.schemas@[j].0 == opts.datatypes@[i]);
        }
        let dd = dedup_dts(parsed_dts(*args));
        assert(uniq@ == dd);
        assert forall|j: int|
            0 <= j < dd.len() implies opt_all_known(inc, #[trigger] dd[j]) && opt_all_known(
            exc,
            dd[j],
        ) && effective_schema(dd[j], enc_s, inc, exc).len() > 0 by {
            assert(opts.schemas@[j].1.pairs() == effective_schema(uniq@[j], enc_s, inc, exc));
            assert(opts.schemas@[j].1.pairs().len() == opts.schemas@[j].1.columns@.len());
            assert(opts.schemas@[j].1.wf());
            assert(opt_all_known(inc, opts.schemas@[j].0));
        }
        lemma_schema_names_effective(opts.schemas@, uniq@, enc_s, inc, exc);
        if args.sort@.len() == 0 {
            assert forall|j: int| 0 <= j < dd.len() implies names_all_in(
                default_sort_names(#[trigger] dd[j]),
                effective_names(dd[j], enc_s, inc, exc),
            ) by {
                assert(name_list_view(opts.sort@[j].1@) == default_sort_names(
                    opts.schemas@[j].0,
                ));
                assert(names_all_in(
                    name_list_view(opts.sort@[j].1@),
                    opts.schemas@[j].1.names(),
                ));
                assert(opts.schemas@[j].1.names() == effective_names(
                    uniq@[j],
                    enc_s,
                    inc,
                    exc,
                ));
            }
        } else {
            assert(dd.len() == 1);
            assert(names_all_in(name_list_view(args.sort@), opts.schemas@[0].1.names()));
            assert(opts.schemas@[0].1.names() == effective_names(dd[0], enc_s, inc, exc));
        }
        assert(opts_ok(*args));
    }
    Ok(opts)
}

proof fn lemma_schema_names_effective(
    schemas: Seq<(Datatype, Schema)>,
    uniq: Seq<Datatype>,
    enc: ColumnEncoding,
    inc: Option<Seq<Seq<char>>>,
    exc: Option<Seq<Seq<char>>>,
)
    requires
        schemas.len() == uniq.len(),
        forall|k: int| 0 <= k < schemas.len() ==> (#[trigger] schemas[k]).0 == uniq[k],
        forall|k: int|
            0 <= k < schemas.len() ==> (#[trigger] schemas[k]).1.pairs() == effective_schema(
                uniq[k],
                enc,
                inc,
                exc,
            ),
    ensures
        forall|k: int|
            0 <= k < schemas.len() ==> (#[trigger] schemas[k]).1.names() == effective_names(
                uniq[k],
                enc,
                inc,
                exc,
            ),
{
    assert forall|k: int| 0 <= k < schemas.len() implies (#[trigger] schemas[k]).1.names()
        == effective_names(uniq[k], enc, inc, exc) by {
        assert(schemas[k].1.names() =~= schemas[k].1.pairs().map_values(
            |p: (Seq<char>, ColumnType)| p.0,
        ));
    }
}

} // verus!
