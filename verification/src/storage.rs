//! The columnar archive: ten parallel columns extracted from the
//! record vector, the timestamp column delta-encoded, every column
//! serialised and entropy-coded into a block, and the container framed
//! around the template table and string pool.  `parse_chunk` is the
//! single mathematical description of what a byte string decodes to;
//! the encoder proves its output parses back to the chunk, and the
//! decoder proves it returns exactly the parse.

use vstd::prelude::*;
use crate::chunk::LogChunk;
use crate::chunk::LogRecord;
use crate::chunk::LogRecordV;
use crate::chunk::Template;
use crate::codec::pc_de_bools;
use crate::codec::pc_de_container;
use crate::codec::pc_de_i64s;
use crate::codec::pc_de_opt_u32s;
use crate::codec::pc_de_str_lists;
use crate::codec::pc_de_u32s;
use crate::codec::pc_parse_bools;
use crate::codec::pc_parse_i64s;
use crate::codec::pc_parse_opt_u32s;
use crate::codec::pc_parse_str_lists;
use crate::codec::pc_parse_u32s;
use crate::codec::pc_ser_bools;
use crate::codec::pc_ser_container;
use crate::codec::pc_ser_i64s;
use crate::codec::pc_ser_opt_u32s;
use crate::codec::pc_ser_str_lists;
use crate::codec::pc_ser_u32s;
use crate::codec::zstd_compress;
use crate::codec::zstd_decompress;
use crate::codec::zstd_inflate;
use crate::delta::delta_decode;
use crate::delta::delta_encode;
use crate::delta::lemma_delta_round_trip;
use crate::delta::undelta_of;

verus! {

/// How decoding an archive fails.  Encoding cannot fail: the
/// serialisers and the entropy coder accept every chunk.
#[derive(Debug, PartialEq, Eq)]
pub enum StorageError {
    /// The bytes are not a well-formed archive: a bad frame, a column
    /// length mismatch, or a template id out of range.
    FormatCorrupt,
}

/// The compression level every block is written with; part of the
/// on-disk contract.
pub const COMPRESSION_LEVEL: i32 = 3;

/// The observable content of an archive: dense patterns, the string
/// pool, and the records.
pub struct ChunkModel {
    pub templates: Seq<Seq<char>>,
    pub string_pool: Seq<Seq<char>>,
    pub records: Seq<LogRecordV>,
}

/// The serialised container: the template pairs, the string pool, and
/// one entropy-coded block per column, in the archive's field order.
pub struct CompressedChunk {
    pub templates: Vec<Template>,
    pub string_pool: Vec<String>,
    pub timestamp_block: Vec<u8>,
    pub priority_block: Vec<u8>,
    pub hostname_id_block: Vec<u8>,
    pub app_name_id_block: Vec<u8>,
    pub procid_id_block: Vec<u8>,
    pub msgid_id_block: Vec<u8>,
    pub sd_id_block: Vec<u8>,
    pub template_id_block: Vec<u8>,
    pub variable_block: Vec<u8>,
    pub is_rfc5424_block: Vec<u8>,
}

/// The container's ten blocks, in field order.
pub open spec fn blocks_of(cc: CompressedChunk) -> Seq<Seq<u8>> {
    seq![
        cc.timestamp_block@,
        cc.priority_block@,
        cc.hostname_id_block@,
        cc.app_name_id_block@,
        cc.procid_id_block@,
        cc.msgid_id_block@,
        cc.sd_id_block@,
        cc.template_id_block@,
        cc.variable_block@,
        cc.is_rfc5424_block@,
    ]
}

/// The model a chunk presents to the archive.
pub open spec fn chunk_model(c: LogChunk) -> ChunkModel {
    ChunkModel {
        templates: c.templates.deep_view(),
        string_pool: c.string_pool.deep_view(),
        records: c.records.deep_view(),
    }
}

/// An entropy-coded, serialised `i64` column.
pub open spec fn col_i64s(b: Seq<u8>) -> Option<Seq<i64>> {
    match zstd_inflate(b) {
        None => None,
        Some(x) => pc_parse_i64s(x),
    }
}

/// An entropy-coded raw byte column.
pub open spec fn col_raw(b: Seq<u8>) -> Option<Seq<u8>> {
    zstd_inflate(b)
}

/// An entropy-coded, serialised optional-id column.
pub open spec fn col_opt_u32s(b: Seq<u8>) -> Option<Seq<Option<u32>>> {
    match zstd_inflate(b) {
        None => None,
        Some(x) => pc_parse_opt_u32s(x),
    }
}

/// An entropy-coded, serialised `u32` column.
pub open spec fn col_u32s(b: Seq<u8>) -> Option<Seq<u32>> {
    match zstd_inflate(b) {
        None => None,
        Some(x) => pc_parse_u32s(x),
    }
}

/// An entropy-coded, serialised variables column.
pub open spec fn col_strs(b: Seq<u8>) -> Option<Seq<Seq<Seq<char>>>> {
    match zstd_inflate(b) {
        None => None,
        Some(x) => pc_parse_str_lists(x),
    }
}

/// An entropy-coded, serialised `bool` column.
pub open spec fn col_bools(b: Seq<u8>) -> Option<Seq<bool>> {
    match zstd_inflate(b) {
        None => None,
        Some(x) => pc_parse_bools(x),
    }
}

/// Template ids in the container are dense: pair `k` carries id `k`.
pub open spec fn dense_pairs(ps: Seq<(u32, Seq<char>)>) -> bool {
    forall|k: int| 0 <= k < ps.len() ==> (#[trigger] ps[k].0 as int) == k
}

/// What a byte string decodes to, if anything: the container parses,
/// its template ids are dense, every block entropy-decodes and
/// deserialises, all ten columns have one entry per record, the
/// timestamp deltas are summed back, and every record's template id
/// resolves.
pub open spec fn parse_chunk(b: Seq<u8>) -> Option<ChunkModel> {
    match crate::codec::pc_parse_container(b) {
        None => None,
        Some(c) => if c.2.len() != 10 || !dense_pairs(c.0) || c.0.len() > u32::MAX {
            None
        } else if col_i64s(c.2[0]) is Some && col_raw(c.2[1]) is Some && col_opt_u32s(c.2[2]) is Some
            && col_opt_u32s(c.2[3]) is Some && col_opt_u32s(c.2[4]) is Some && col_opt_u32s(
            c.2[5],
        ) is Some && col_opt_u32s(c.2[6]) is Some && col_u32s(c.2[7]) is Some && col_strs(
            c.2[8],
        ) is Some && col_bools(c.2[9]) is Some {
            let ts = undelta_of(col_i64s(c.2[0])->0);
            let pris = col_raw(c.2[1])->0;
            let hosts = col_opt_u32s(c.2[2])->0;
            let apps = col_opt_u32s(c.2[3])->0;
            let procs = col_opt_u32s(c.2[4])->0;
            let mids = col_opt_u32s(c.2[5])->0;
            let sds = col_opt_u32s(c.2[6])->0;
            let tids = col_u32s(c.2[7])->0;
            let vars = col_strs(c.2[8])->0;
            let flags = col_bools(c.2[9])->0;
            if pris.len() == ts.len() && hosts.len() == ts.len() && apps.len() == ts.len()
                && procs.len() == ts.len() && mids.len() == ts.len() && sds.len() == ts.len()
                && tids.len() == ts.len() && vars.len() == ts.len() && flags.len() == ts.len() {
                if forall|i: int| 0 <= i < tids.len() ==> (#[trigger] tids[i] as int) < c.0.len() {
                    Some(
                        ChunkModel {
                            templates: Seq::new(c.0.len(), |i: int| c.0[i].1),
                            string_pool: c.1,
                            records: Seq::new(
                                ts.len(),
                                |i: int|
                                    LogRecordV {
                                        timestamp: ts[i],
                                        priority: pris[i],
                                        hostname_id: hosts[i],
                                        app_name_id: apps[i],
                                        procid_id: procs[i],
                                        msgid_id: mids[i],
                                        structured_data_id: sds[i],
                                        template_id: tids[i],
                                        variables: vars[i],
                                        is_rfc5424: flags[i],
                                    },
                            ),
                        },
                    )
                } else {
                    None
                }
            } else {
                None
            }
        } else {
            None
        },
    }
}

/// Clones a string column.
fn clone_strings(v: &Vec<String>) -> (r: Vec<String>)
    ensures
        r.deep_view() == v.deep_view(),
{
    let mut r: Vec<String> = Vec::new();
    let mut i: usize = 0;
    while i < v.len()
        invariant
            i <= v@.len(),
            r@.len() == i,
            forall|j: int| 0 <= j < i ==> r.deep_view()[j] == v.deep_view()[j],
        decreases v@.len() - i,
    {
        r.push(v[i].clone());
        proof {
            assert(r.deep_view()[i as int] == r@[i as int]@);
            assert(v.deep_view()[i as int] == v@[i as int]@);
        }
        i = i + 1;
    }
    proof {
        assert(r.deep_view() =~= v.deep_view());
    }
    r
}

/// Clones a byte column.
fn clone_bytes(v: &Vec<u8>) -> (r: Vec<u8>)
    ensures
        r@ == v@,
{
    let mut r: Vec<u8> = Vec::new();
    let mut i: usize = 0;
    while i < v.len()
        invariant
            i <= v@.len(),
            r@ == v@.take(i as int),
        decreases v@.len() - i,
    {
        r.push(v[i]);
        proof {
            assert(v@.take(i + 1) =~= v@.take(i as int).push(v@[i as int]));
        }
        i = i + 1;
    }
    proof {
        assert(v@.take(v@.len() as int) =~= v@);
    }
    r
}

/// The container's blocks as one list, in field order.
fn container_blocks(cc: &CompressedChunk) -> (r: Vec<Vec<u8>>)
    ensures
        r.deep_view() == blocks_of(*cc),
        r@.len() == 10,
{
    let mut r: Vec<Vec<u8>> = Vec::new();
    r.push(clone_bytes(&cc.timestamp_block));
    r.push(clone_bytes(&cc.priority_block));
    r.push(clone_bytes(&cc.hostname_id_block));
    r.push(clone_bytes(&cc.app_name_id_block));
    r.push(clone_bytes(&cc.procid_id_block));
    r.push(clone_bytes(&cc.msgid_id_block));
    r.push(clone_bytes(&cc.sd_id_block));
    r.push(clone_bytes(&cc.template_id_block));
    r.push(clone_bytes(&cc.variable_block));
    r.push(clone_bytes(&cc.is_rfc5424_block));
    proof {
        assert(r@.len() == 10);
        assert(r.deep_view()[0] == r@[0]@ && r.deep_view()[1] == r@[1]@ && r.deep_view()[2]
            == r@[2]@ && r.deep_view()[3] == r@[3]@ && r.deep_view()[4] == r@[4]@
            && r.deep_view()[5] == r@[5]@ && r.deep_view()[6] == r@[6]@ && r.deep_view()[7]
            == r@[7]@ && r.deep_view()[8] == r@[8]@ && r.deep_view()[9] == r@[9]@);
        assert(r.deep_view() =~= blocks_of(*cc));
    }
    r
}

/// The ten parallel columns of a record vector.
struct ColumnData {
    timestamps: Vec<i64>,
    priorities: Vec<u8>,
    hostname_ids: Vec<Option<u32>>,
    app_name_ids: Vec<Option<u32>>,
    procid_ids: Vec<Option<u32>>,
    msgid_ids: Vec<Option<u32>>,
    structured_data_ids: Vec<Option<u32>>,
    template_ids: Vec<u32>,
    variables: Vec<Vec<String>>,
    flags: Vec<bool>,
}

impl ColumnData {
    /// The columns are the fields of `recs`, in record order.
    spec fn matches(&self, recs: Seq<LogRecordV>) -> bool {
        &&& self.timestamps@.len() == recs.len()
        &&& self.priorities@.len() == recs.len()
        &&& self.hostname_ids@.len() == recs.len()
        &&& self.app_name_ids@.len() == recs.len()
        &&& self.procid_ids@.len() == recs.len()
        &&& self.msgid_ids@.len() == recs.len()
        &&& self.structured_data_ids@.len() == recs.len()
        &&& self.template_ids@.len() == recs.len()
        &&& self.variables.deep_view().len() == recs.len()
        &&& self.flags@.len() == recs.len()
        &&& forall|i: int|
            0 <= i < recs.len() ==> {
                let r = #[trigger] recs[i];
                &&& self.timestamps@[i] == r.timestamp
                &&& self.priorities@[i] == r.priority
                &&& self.hostname_ids@[i] == r.hostname_id
                &&& self.app_name_ids@[i] == r.app_name_id
                &&& self.procid_ids@[i] == r.procid_id
                &&& self.msgid_ids@[i] == r.msgid_id
                &&& self.structured_data_ids@[i] == r.structured_data_id
                &&& self.template_ids@[i] == r.template_id
                &&& self.variables.deep_view()[i] == r.variables
                &&& self.flags@[i] == r.is_rfc5424
            }
    }
}

/// Extracts the ten columns from the records.
fn build_columns(records: &Vec<LogRecord>) -> (r: ColumnData)
    ensures
        r.matches(records.deep_view()),
{
    let mut cols = ColumnData {
        timestamps: Vec::new(),
        priorities: Vec::new(),
        hostname_ids: Vec::new(),
        app_name_ids: Vec::new(),
        procid_ids: Vec::new(),
        msgid_ids: Vec::new(),
        structured_data_ids: Vec::new(),
        template_ids: Vec::new(),
        variables: Vec::new(),
        flags: Vec::new(),
    };
    let mut i: usize = 0;
    while i < records.len()
        invariant
            i <= records@.len(),
            cols.matches(records.deep_view().take(i as int)),
        decreases records@.len() - i,
    {
        let ghost pre = records.deep_view().take(i as int);
        cols.timestamps.push(records[i].timestamp);
        cols.priorities.push(records[i].priority);
        cols.hostname_ids.push(records[i].hostname_id);
        cols.app_name_ids.push(records[i].app_name_id);
        cols.procid_ids.push(records[i].procid_id);
        cols.msgid_ids.push(records[i].msgid_id);
        cols.structured_data_ids.push(records[i].structured_data_id);
        cols.template_ids.push(records[i].template_id);
        let vars = clone_strings(&records[i].variables);
        cols.variables.push(vars);
        cols.flags.push(records[i].is_rfc5424);
        proof {
            let cur = records.deep_view().take(i + 1);
            assert(cur.drop_last() =~= pre);
            assert(records.deep_view()[i as int] == records@[i as int]@);
            assert(cols.variables.deep_view()[i as int] == records@[i as int]@.variables);
            assert forall|q: int| 0 <= q < cur.len() implies {
                let r = #[trigger] cur[q];
                &&& cols.timestamps@[q] == r.timestamp
                &&& cols.priorities@[q] == r.priority
                &&& cols.hostname_ids@[q] == r.hostname_id
                &&& cols.app_name_ids@[q] == r.app_name_id
                &&& cols.procid_ids@[q] == r.procid_id
                &&& cols.msgid_ids@[q] == r.msgid_id
                &&& cols.structured_data_ids@[q] == r.structured_data_id
                &&& cols.template_ids@[q] == r.template_id
                &&& cols.variables.deep_view()[q] == r.variables
                &&& cols.flags@[q] == r.is_rfc5424
            } by {
                if q < i {
                    assert(cur[q] == pre[q]);
                }
            }
        }
        i = i + 1;
    }
    proof {
        assert(records.deep_view().take(records@.len() as int) =~= records.deep_view());
    }
    cols
}

/// Round trip: archive bytes that parse to a chunk's model decode to
/// that chunk on every observable field.  `encode_chunk` ensures its
/// output parses to the chunk's model, and `decode_chunk` ensures its
/// result is exactly the parse; together, decoding what the encoder
/// wrote reproduces the templates, the pool and every record.
pub proof fn lemma_archive_round_trip(c: LogChunk, b: Seq<u8>)
    requires
        parse_chunk(b) == Some(chunk_model(c)),
    ensures
        parse_chunk(b)->0.templates == c.templates.deep_view(),
        parse_chunk(b)->0.string_pool == c.string_pool.deep_view(),
        parse_chunk(b)->0.records == c.records.deep_view(),
{
}

/// The archive reader and writer.
pub struct StorageEngine;

impl StorageEngine {
    /// Serialises and compresses a sealed chunk into archive bytes.
    /// The encoder is total: it always succeeds, and the bytes parse
    /// back to exactly the chunk's model.
    pub fn encode_chunk(chunk: &LogChunk) -> (r: Vec<u8>)
        requires
            chunk.templates@.len() <= u32::MAX as nat,
            forall|k: int|
                0 <= k < chunk.records@.len() ==> (#[trigger] chunk.records@[k]@.template_id as int)
                    < chunk.templates@.len(),
        ensures
            parse_chunk(r@) == Some(chunk_model(*chunk)),
    {
        let ghost tplsd = chunk.templates.deep_view();
        // the template table as (id, pattern) pairs, ids dense
        let mut tpls: Vec<Template> = Vec::new();
        let mut i: usize = 0;
        while i < chunk.templates.len()
            invariant
                i <= chunk.templates@.len(),
                chunk.templates@.len() <= u32::MAX as nat,
                tplsd == chunk.templates.deep_view(),
                tpls@.len() == i,
                forall|k: int|
                    0 <= k < i ==> (#[trigger] tpls.deep_view()[k]) == (k as u32, tplsd[k]),
            decreases chunk.templates@.len() - i,
        {
            let ghost pre = tpls.deep_view();
            tpls.push(Template { id: i as u32, pattern: chunk.templates[i].clone() });
            proof {
                assert(tpls.deep_view() =~= pre.push((i as u32, tplsd[i as int])));
            }
            i = i + 1;
        }
        let cols = build_columns(&chunk.records);
        let dts = delta_encode(&cols.timestamps);
        let ghost recsd = chunk.records.deep_view();

        let ts_data = pc_ser_i64s(&dts).unwrap();
        let host_data = pc_ser_opt_u32s(&cols.hostname_ids).unwrap();
        let app_data = pc_ser_opt_u32s(&cols.app_name_ids).unwrap();
        let proc_data = pc_ser_opt_u32s(&cols.procid_ids).unwrap();
        let msgid_data = pc_ser_opt_u32s(&cols.msgid_ids).unwrap();
        let sd_data = pc_ser_opt_u32s(&cols.structured_data_ids).unwrap();
        let id_data = pc_ser_u32s(&cols.template_ids).unwrap();
        let var_data = pc_ser_str_lists(&cols.variables).unwrap();
        let rfc_data = pc_ser_bools(&cols.flags).unwrap();

        let b0 = zstd_compress(&ts_data, COMPRESSION_LEVEL).unwrap();
        let b1 = zstd_compress(&cols.priorities, COMPRESSION_LEVEL).unwrap();
        let b2 = zstd_compress(&host_data, COMPRESSION_LEVEL).unwrap();
        let b3 = zstd_compress(&app_data, COMPRESSION_LEVEL).unwrap();
        let b4 = zstd_compress(&proc_data, COMPRESSION_LEVEL).unwrap();
        let b5 = zstd_compress(&msgid_data, COMPRESSION_LEVEL).unwrap();
        let b6 = zstd_compress(&sd_data, COMPRESSION_LEVEL).unwrap();
        let b7 = zstd_compress(&id_data, COMPRESSION_LEVEL).unwrap();
        let b8 = zstd_compress(&var_data, COMPRESSION_LEVEL).unwrap();
        let b9 = zstd_compress(&rfc_data, COMPRESSION_LEVEL).unwrap();
        let container = CompressedChunk {
            templates: tpls,
            string_pool: clone_strings(&chunk.string_pool),
            timestamp_block: b0,
            priority_block: b1,
            hostname_id_block: b2,
            app_name_id_block: b3,
            procid_id_block: b4,
            msgid_id_block: b5,
            sd_id_block: b6,
            template_id_block: b7,
            variable_block: b8,
            is_rfc5424_block: b9,
        };
        let blocks = container_blocks(&container);
        let bytes = pc_ser_container(&container.templates, &container.string_pool, &blocks).unwrap();
        proof {
            lemma_delta_round_trip(cols.timestamps@);
            let c = (
                container.templates.deep_view(),
                container.string_pool.deep_view(),
                blocks_of(container),
            );
            assert(crate::codec::pc_parse_container(bytes@) == Some(c));
            assert(c.2.len() == 10);
            assert(dense_pairs(c.0));
            assert(col_i64s(c.2[0]) == Some(dts@));
            assert(col_raw(c.2[1]) == Some(cols.priorities@));
            assert(col_opt_u32s(c.2[2]) == Some(cols.hostname_ids@));
            assert(col_opt_u32s(c.2[3]) == Some(cols.app_name_ids@));
            assert(col_opt_u32s(c.2[4]) == Some(cols.procid_ids@));
            assert(col_opt_u32s(c.2[5]) == Some(cols.msgid_ids@));
            assert(col_opt_u32s(c.2[6]) == Some(cols.structured_data_ids@));
            assert(col_u32s(c.2[7]) == Some(cols.template_ids@));
            assert(col_strs(c.2[8]) == Some(cols.variables.deep_view()));
            assert(col_bools(c.2[9]) == Some(cols.flags@));
            assert(undelta_of(dts@) == cols.timestamps@);
            assert forall|q: int| 0 <= q < cols.template_ids@.len() implies (
            #[trigger] cols.template_ids@[q] as int) < tplsd.len() by {
                assert(recsd[q] == chunk.records@[q]@);
                assert(cols.template_ids@[q] == recsd[q].template_id);
            }
            assert(parse_chunk(bytes@) is Some);
            let m = parse_chunk(bytes@)->0;
            assert(m.templates =~= tplsd);
            assert(m.string_pool == chunk.string_pool.deep_view());
            assert forall|q: int| 0 <= q < recsd.len() implies m.records[q] == recsd[q] by {
                assert(cols.timestamps@[q] == recsd[q].timestamp);
                assert(cols.priorities@[q] == recsd[q].priority);
                assert(cols.hostname_ids@[q] == recsd[q].hostname_id);
                assert(cols.app_name_ids@[q] == recsd[q].app_name_id);
                assert(cols.procid_ids@[q] == recsd[q].procid_id);
                assert(cols.msgid_ids@[q] == recsd[q].msgid_id);
                assert(cols.structured_data_ids@[q] == recsd[q].structured_data_id);
                assert(cols.template_ids@[q] == recsd[q].template_id);
                assert(cols.variables.deep_view()[q] == recsd[q].variables);
                assert(cols.flags@[q] == recsd[q].is_rfc5424);
            }
            assert(m.records =~= recsd);
        }
        bytes
    }

    /// Decompresses and deserialises archive bytes back into a chunk:
    /// the result is exactly what `parse_chunk` says the bytes hold,
    /// and any malformed input is rejected as corrupt.
    pub fn decode_chunk(data: &Vec<u8>) -> (r: Result<LogChunk, StorageError>)
        ensures
            r is Ok <==> parse_chunk(data@) is Some,
            r is Ok ==> ({
                let m = parse_chunk(data@)->0;
                let c = r->Ok_0;
                &&& c.templates.deep_view() == m.templates
                &&& c.string_pool.deep_view() == m.string_pool
                &&& c.records.deep_view() == m.records
                &&& c.raw_messages@.len() == 0
                &&& c.next_template_id as nat == c.templates@.len()
            }),
            r is Err ==> r->Err_0 == StorageError::FormatCorrupt,
    {
        let (tpl_pairs, string_pool, blocks) = match pc_de_container(data) {
            Some(v) => v,
            None => {
                return Err(StorageError::FormatCorrupt);
            },
        };
        let ghost c = crate::codec::pc_parse_container(data@)->0;
        let timestamp_block = clone_bytes(&blocks[0]);
        let priority_block = clone_bytes(&blocks[1]);
        let hostname_id_block = clone_bytes(&blocks[2]);
        let app_name_id_block = clone_bytes(&blocks[3]);
        let procid_id_block = clone_bytes(&blocks[4]);
        let msgid_id_block = clone_bytes(&blocks[5]);
        let sd_id_block = clone_bytes(&blocks[6]);
        let template_id_block = clone_bytes(&blocks[7]);
        let variable_block = clone_bytes(&blocks[8]);
        let is_rfc5424_block = clone_bytes(&blocks[9]);
        proof {
            assert(blocks.deep_view()[0] == blocks@[0]@ && blocks.deep_view()[1] == blocks@[1]@
                && blocks.deep_view()[2] == blocks@[2]@ && blocks.deep_view()[3] == blocks@[3]@
                && blocks.deep_view()[4] == blocks@[4]@ && blocks.deep_view()[5] == blocks@[5]@
                && blocks.deep_view()[6] == blocks@[6]@ && blocks.deep_view()[7] == blocks@[7]@
                && blocks.deep_view()[8] == blocks@[8]@ && blocks.deep_view()[9] == blocks@[9]@);
            assert(c.2[0] == timestamp_block@ && c.2[1] == priority_block@ && c.2[2]
                == hostname_id_block@ && c.2[3] == app_name_id_block@ && c.2[4]
                == procid_id_block@ && c.2[5] == msgid_id_block@ && c.2[6] == sd_id_block@
                && c.2[7] == template_id_block@ && c.2[8] == variable_block@ && c.2[9]
                == is_rfc5424_block@);
        }

        // dense ids: pair k carries id k
        if tpl_pairs.len() > u32::MAX as usize {
            return Err(StorageError::FormatCorrupt);
        }
        let mut templates: Vec<String> = Vec::new();
        let mut i: usize = 0;
        while i < tpl_pairs.len()
            invariant
                i <= tpl_pairs@.len(),
                tpl_pairs@.len() <= u32::MAX as nat,
                tpl_pairs.deep_view() == c.0,
                templates@.len() == i,
                forall|k: int| 0 <= k < i ==> (#[trigger] c.0[k].0 as int) == k,
                forall|k: int| 0 <= k < i ==> (#[trigger] templates.deep_view()[k]) == c.0[k].1,
            decreases tpl_pairs@.len() - i,
        {
            proof {
                assert(tpl_pairs.deep_view()[i as int] == tpl_pairs@[i as int]@);
            }
            if tpl_pairs[i].id != i as u32 {
                proof {
                    assert(c.0[i as int].0 != i as u32);
                    assert(!dense_pairs(c.0));
                }
                return Err(StorageError::FormatCorrupt);
            }
            let ghost pre = templates.deep_view();
            templates.push(tpl_pairs[i].pattern.clone());
            proof {
                assert(c.0[i as int] == tpl_pairs@[i as int]@);
                assert(templates.deep_view() =~= pre.push(c.0[i as int].1));
                assert(c.0[i as int].0 as int == i);
            }
            i = i + 1;
        }
        proof {
            assert(dense_pairs(c.0));
        }

        let dts = match decode_i64_block(&timestamp_block) {
            Some(v) => v,
            None => {
                return Err(StorageError::FormatCorrupt);
            },
        };
        let timestamps = delta_decode(&dts);
        let priorities = match decode_raw_block(&priority_block) {
            Some(v) => v,
            None => {
                return Err(StorageError::FormatCorrupt);
            },
        };
        let hostname_ids = match decode_opt_u32_block(&hostname_id_block) {
            Some(v) => v,
            None => {
                return Err(StorageError::FormatCorrupt);
            },
        };
        let app_name_ids = match decode_opt_u32_block(&app_name_id_block) {
            Some(v) => v,
            None => {
                return Err(StorageError::FormatCorrupt);
            },
        };
        let procid_ids = match decode_opt_u32_block(&procid_id_block) {
            Some(v) => v,
            None => {
                return Err(StorageError::FormatCorrupt);
            },
        };
        let msgid_ids = match decode_opt_u32_block(&msgid_id_block) {
            Some(v) => v,
            None => {
                return Err(StorageError::FormatCorrupt);
            },
        };
        let sd_ids = match decode_opt_u32_block(&sd_id_block) {
            Some(v) => v,
            None => {
                return Err(StorageError::FormatCorrupt);
            },
        };
        let template_ids = match decode_u32_block(&template_id_block) {
            Some(v) => v,
            None => {
                return Err(StorageError::FormatCorrupt);
            },
        };
        let variables = match decode_str_block(&variable_block) {
            Some(v) => v,
            None => {
                return Err(StorageError::FormatCorrupt);
            },
        };
        let flags = match decode_bool_block(&is_rfc5424_block) {
            Some(v) => v,
            None => {
                return Err(StorageError::FormatCorrupt);
            },
        };

        let n = timestamps.len();
        if priorities.len() != n || hostname_ids.len() != n || app_name_ids.len() != n
            || procid_ids.len() != n || msgid_ids.len() != n || sd_ids.len() != n
            || template_ids.len() != n || variables.len() != n || flags.len() != n {
            return Err(StorageError::FormatCorrupt);
        }

        // every record's template id must resolve
        let mut t: usize = 0;
        while t < template_ids.len()
            invariant
                t <= template_ids@.len(),
                templates@.len() == tpl_pairs@.len(),
                tpl_pairs.deep_view() == c.0,
                template_ids@ == col_u32s(c.2[7])->0,
                forall|q: int| 0 <= q < t ==> (#[trigger] template_ids@[q] as int) < c.0.len(),
            decreases template_ids@.len() - t,
        {
            if templates.len() <= template_ids[t] as usize {
                proof {
                    assert((template_ids@[t as int] as int) >= c.0.len());
                }
                return Err(StorageError::FormatCorrupt);
            }
            t = t + 1;
        }

        proof {
            // all conditions of the parse hold, so the bytes parse
            crate::delta::lemma_undelta_len(col_i64s(c.2[0])->0);
            assert(parse_chunk(data@) is Some);
            let m0 = parse_chunk(data@)->0;
            assert(timestamps@ =~= m_ts(m0));
            assert(priorities@ =~= m_pris(m0));
            assert(hostname_ids@ =~= m_hosts(m0));
            assert(app_name_ids@ =~= m_apps(m0));
            assert(procid_ids@ =~= m_procs(m0));
            assert(msgid_ids@ =~= m_mids(m0));
            assert(sd_ids@ =~= m_sds(m0));
            assert(template_ids@ =~= m_tids(m0));
            assert(variables.deep_view() =~= m_vars(m0));
            assert(flags@ =~= m_flags(m0));
            assert(Seq::new(c.0.len(), |q: int| c.0[q].1) =~= templates.deep_view());
        }
        let mut chunk = LogChunk::new();
        chunk.templates = templates;
        chunk.string_pool = string_pool;
        chunk.next_template_id = chunk.templates.len() as u32;
        let ghost m = parse_chunk(data@)->0;
        let mut k: usize = 0;
        while k < n
            invariant
                k <= n,
                n == timestamps@.len(),
                chunk.records@.len() == k,
                parse_chunk(data@) is Some,
                m == parse_chunk(data@)->0,
                m.records.len() == n,
                chunk.raw_messages@.len() == 0,
                chunk.templates.deep_view() == m.templates,
                chunk.string_pool.deep_view() == m.string_pool,
                chunk.next_template_id as nat == chunk.templates@.len(),
                priorities@.len() == n,
                hostname_ids@.len() == n,
                app_name_ids@.len() == n,
                procid_ids@.len() == n,
                msgid_ids@.len() == n,
                sd_ids@.len() == n,
                template_ids@.len() == n,
                variables@.len() == n,
                flags@.len() == n,
                timestamps@ == m_ts(m),
                priorities@ == m_pris(m),
                hostname_ids@ == m_hosts(m),
                app_name_ids@ == m_apps(m),
                procid_ids@ == m_procs(m),
                msgid_ids@ == m_mids(m),
                sd_ids@ == m_sds(m),
                template_ids@ == m_tids(m),
                variables.deep_view() == m_vars(m),
                flags@ == m_flags(m),
                forall|q: int| 0 <= q < k ==> (#[trigger] chunk.records.deep_view()[q]) == m.records[q],
            decreases n - k,
        {
            let vars = clone_strings(&variables[k]);
            proof {
                assert(variables.deep_view()[k as int] == variables@[k as int].deep_view());
            }
            let rec = LogRecord {
                timestamp: timestamps[k],
                priority: priorities[k],
                hostname_id: hostname_ids[k],
                app_name_id: app_name_ids[k],
                procid_id: procid_ids[k],
                msgid_id: msgid_ids[k],
                structured_data_id: sd_ids[k],
                template_id: template_ids[k],
                variables: vars,
                is_rfc5424: flags[k],
            };
            proof {
                assert(rec@ == m.records[k as int]);
            }
            let ghost prerec = chunk.records.deep_view();
            chunk.records.push(rec);
            proof {
                assert(chunk.records.deep_view() =~= prerec.push(rec@));
            }
            k = k + 1;
        }
        proof {
            assert(chunk.records.deep_view() =~= m.records);
        }
        Ok(chunk)
    }
}

/// The timestamps a parsed model holds, column-wise.
pub open spec fn m_ts(m: ChunkModel) -> Seq<i64> {
    Seq::new(m.records.len(), |i: int| m.records[i].timestamp)
}

pub open spec fn m_pris(m: ChunkModel) -> Seq<u8> {
    Seq::new(m.records.len(), |i: int| m.records[i].priority)
}

pub open spec fn m_hosts(m: ChunkModel) -> Seq<Option<u32>> {
    Seq::new(m.records.len(), |i: int| m.records[i].hostname_id)
}

pub open spec fn m_apps(m: ChunkModel) -> Seq<Option<u32>> {
    Seq::new(m.records.len(), |i: int| m.records[i].app_name_id)
}

pub open spec fn m_procs(m: ChunkModel) -> Seq<Option<u32>> {
    Seq::new(m.records.len(), |i: int| m.records[i].procid_id)
}

pub open spec fn m_mids(m: ChunkModel) -> Seq<Option<u32>> {
    Seq::new(m.records.len(), |i: int| m.records[i].msgid_id)
}

pub open spec fn m_sds(m: ChunkModel) -> Seq<Option<u32>> {
    Seq::new(m.records.len(), |i: int| m.records[i].structured_data_id)
}

pub open spec fn m_tids(m: ChunkModel) -> Seq<u32> {
    Seq::new(m.records.len(), |i: int| m.records[i].template_id)
}

pub open spec fn m_vars(m: ChunkModel) -> Seq<Seq<Seq<char>>> {
    Seq::new(m.records.len(), |i: int| m.records[i].variables)
}

pub open spec fn m_flags(m: ChunkModel) -> Seq<bool> {
    Seq::new(m.records.len(), |i: int| m.records[i].is_rfc5424)
}

/// Entropy-decodes and deserialises an `i64` block.
fn decode_i64_block(block: &Vec<u8>) -> (r: Option<Vec<i64>>)
    ensures
        r is Some <==> col_i64s(block@) is Some,
        r is Some ==> Some(r->0@) == col_i64s(block@),
{
    match zstd_decompress(block) {
        None => None,
        Some(raw) => pc_de_i64s(&raw),
    }
}

/// Entropy-decodes a raw byte block.
fn decode_raw_block(block: &Vec<u8>) -> (r: Option<Vec<u8>>)
    ensures
        r is Some <==> col_raw(block@) is Some,
        r is Some ==> Some(r->0@) == col_raw(block@),
{
    zstd_decompress(block)
}

/// Entropy-decodes and deserialises an optional-id block.
fn decode_opt_u32_block(block: &Vec<u8>) -> (r: Option<Vec<Option<u32>>>)
    ensures
        r is Some <==> col_opt_u32s(block@) is Some,
        r is Some ==> Some(r->0@) == col_opt_u32s(block@),
{
    match zstd_decompress(block) {
        None => None,
        Some(raw) => pc_de_opt_u32s(&raw),
    }
}

/// Entropy-decodes and deserialises a `u32` block.
fn decode_u32_block(block: &Vec<u8>) -> (r: Option<Vec<u32>>)
    ensures
        r is Some <==> col_u32s(block@) is Some,
        r is Some ==> Some(r->0@) == col_u32s(block@),
{
    match zstd_decompress(block) {
        None => None,
        Some(raw) => pc_de_u32s(&raw),
    }
}

/// Entropy-decodes and deserialises the variables block.
fn decode_str_block(block: &Vec<u8>) -> (r: Option<Vec<Vec<String>>>)
    ensures
        r is Some <==> col_strs(block@) is Some,
        r is Some ==> Some(r->0.deep_view()) == col_strs(block@),
{
    match zstd_decompress(block) {
        None => None,
        Some(raw) => pc_de_str_lists(&raw),
    }
}

/// Entropy-decodes and deserialises a `bool` block.
fn decode_bool_block(block: &Vec<u8>) -> (r: Option<Vec<bool>>)
    ensures
        r is Some <==> col_bools(block@) is Some,
        r is Some ==> Some(r->0@) == col_bools(block@),
{
    match zstd_decompress(block) {
        None => None,
        Some(raw) => pc_de_bools(&raw),
    }
}

} // verus!
