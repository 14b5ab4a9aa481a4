//! The binary tile-set format: a header, the mesh parameters and a list of
//! tile records, all little-endian and without padding.
//!
//! ```text
//! header       magic: i32 = "MSET", version: i32 = 1, declared tile count: i32
//! parameters   origin: f32 x 3, tile width: f32, tile height: f32,
//!              max tiles: i32, max polygons: i32
//! tile record  tile reference: u32, payload size: i32, payload: size bytes
//! ```
//!
//! The list ends after the declared count, or earlier at a record whose tile
//! reference or payload size is zero.
use vstd::prelude::*;
use vstd::arithmetic::div_mod::{lemma_div_denominator, lemma_fundamental_div_mod};
use crate::geom::Vec3;

verus! {

/// The four characters "MSET", most significant first.
pub const TILE_SET_MAGIC: u32 = 0x4d53_4554;

/// The one format version this library reads.
pub const TILE_SET_VERSION: u32 = 1;

/// Length in bytes of the header.
pub const HEADER_LEN: usize = 12;

/// Offset of the first tile record: header plus mesh parameters.
pub const RECORDS_START: usize = 40;

/// Length in bytes of a tile record before its payload.
pub const TILE_HEADER_LEN: usize = 8;

/// Why an import failed.
#[derive(Clone, Copy, Debug, PartialEq, Eq, Structural)]
pub enum ImportError {
    /// The buffer does not start with the tile-set magic.
    FormatError,
    /// The format version is not the supported one.
    VersionError,
    /// The buffer ends inside the header, the parameters or a tile record.
    TruncatedInputError,
    /// The mesh engine refused the mesh parameters.
    InitializationError,
    /// No memory could be had for a tile payload.
    AllocationError,
    /// The mesh engine refused a tile.
    TileRegistrationError,
}

/// Parameters of an empty mesh.
#[derive(Clone, Copy, Debug, PartialEq, Eq, Structural)]
pub struct MeshParams {
    pub origin: Vec3,
    /// Bit pattern of the tile width.
    pub tile_width: u32,
    /// Bit pattern of the tile height.
    pub tile_height: u32,
    pub max_tiles: i32,
    pub max_polys: i32,
}

/// One tile record; its payload is `size` bytes of the buffer from `offset`.
#[derive(Clone, Copy, Debug, PartialEq, Eq, Structural)]
pub struct TileRecord {
    pub tile_ref: u32,
    pub offset: usize,
    pub size: usize,
}

/// A decoded tile set: what the header declares, the mesh parameters and the
/// tile records before the end of the list.
#[derive(Debug)]
pub struct TileSet {
    pub declared_tiles: i32,
    pub params: MeshParams,
    pub tiles: Vec<TileRecord>,
}

impl View for TileSet {
    type V = (i32, MeshParams, Seq<TileRecord>);

    open spec fn view(&self) -> (i32, MeshParams, Seq<TileRecord>) {
        (self.declared_tiles, self.params, self.tiles@)
    }
}

/// The little-endian 32-bit word at `at`.
pub open spec fn le_u32(b: Seq<u8>, at: int) -> u32 {
    (b[at] as int + 256 * b[at + 1] as int + 65536 * b[at + 2] as int + 16777216 * b[at + 3] as int) as u32
}

/// The two's-complement reading of a 32-bit word.
pub open spec fn signed(w: u32) -> i32 {
    if w < 0x8000_0000 {
        w as i32
    } else {
        (w as int - 0x1_0000_0000) as i32
    }
}

fn to_signed(w: u32) -> (r: i32)
    ensures
        r == signed(w),
{
    if w < 0x8000_0000 {
        w as i32
    } else {
        (w - 0x8000_0000) as i32 - 0x7fff_ffff - 1
    }
}

/// The mesh parameters encoded at `at`.
pub open spec fn params_at(b: Seq<u8>, at: int) -> MeshParams {
    MeshParams {
        origin: Vec3 { x: le_u32(b, at), y: le_u32(b, at + 4), z: le_u32(b, at + 8) },
        tile_width: le_u32(b, at + 12),
        tile_height: le_u32(b, at + 16),
        max_tiles: signed(le_u32(b, at + 20)),
        max_polys: signed(le_u32(b, at + 24)),
    }
}

/// `acc` followed by the records of `rest`, or the error of `rest`.
pub open spec fn prepend(acc: Seq<TileRecord>, rest: Result<Seq<TileRecord>, ImportError>) -> Result<
    Seq<TileRecord>,
    ImportError,
> {
    match rest {
        Ok(t) => Ok(acc + t),
        Err(e) => Err(e),
    }
}

/// The tile records from `pos` on, when at most `remaining` more are
/// declared. A payload size that is negative as an `i32`, or that runs past
/// the end of the buffer, is a truncation.
pub open spec fn records_from(b: Seq<u8>, pos: int, remaining: int) -> Result<Seq<TileRecord>, ImportError>
    decreases remaining,
{
    if remaining <= 0 {
        Ok(seq![])
    } else if pos + TILE_HEADER_LEN > b.len() {
        Err(ImportError::TruncatedInputError)
    } else {
        let tile_ref = le_u32(b, pos);
        let size = le_u32(b, pos + 4);
        if tile_ref == 0 || size == 0 {
            Ok(seq![])
        } else if size >= 0x8000_0000 || pos + TILE_HEADER_LEN + size > b.len() {
            Err(ImportError::TruncatedInputError)
        } else {
            let rec = TileRecord {
                tile_ref,
                offset: (pos + TILE_HEADER_LEN) as usize,
                size: size as usize,
            };
            prepend(seq![rec], records_from(b, pos + TILE_HEADER_LEN + size, remaining - 1))
        }
    }
}

/// What a buffer decodes to. The magic is checked as soon as it can be
/// read, then the version, before anything else.
pub open spec fn decode(b: Seq<u8>) -> Result<(i32, MeshParams, Seq<TileRecord>), ImportError> {
    if b.len() < 4 {
        Err(ImportError::TruncatedInputError)
    } else if le_u32(b, 0) != TILE_SET_MAGIC {
        Err(ImportError::FormatError)
    } else if b.len() < 8 {
        Err(ImportError::TruncatedInputError)
    } else if le_u32(b, 4) != TILE_SET_VERSION {
        Err(ImportError::VersionError)
    } else if b.len() < RECORDS_START {
        Err(ImportError::TruncatedInputError)
    } else {
        let declared = signed(le_u32(b, 8));
        match records_from(b, RECORDS_START as int, declared as int) {
            Ok(t) => Ok((declared, params_at(b, HEADER_LEN as int), t)),
            Err(e) => Err(e),
        }
    }
}

fn read_u32(b: &[u8], at: usize) -> (r: u32)
    requires
        at + 4 <= b@.len(),
    ensures
        r == le_u32(b@, at as int),
{
    b[at] as u32 + 256 * (b[at + 1] as u32) + 65536 * (b[at + 2] as u32) + 16777216 * (b[at + 3] as u32)
}

fn read_params(b: &[u8], at: usize) -> (r: MeshParams)
    requires
        at + 28 <= b@.len(),
        at + 28 <= usize::MAX,
    ensures
        r == params_at(b@, at as int),
{
    MeshParams {
        origin: Vec3 { x: read_u32(b, at), y: read_u32(b, at + 4), z: read_u32(b, at + 8) },
        tile_width: read_u32(b, at + 12),
        tile_height: read_u32(b, at + 16),
        max_tiles: to_signed(read_u32(b, at + 20)),
        max_polys: to_signed(read_u32(b, at + 24)),
    }
}

/// Decodes a tile-set buffer, checking every read against its length.
pub fn parse_tile_set(b: &[u8]) -> (r: Result<TileSet, ImportError>)
    ensures
        match r {
            Ok(s) => decode(b@) == Ok::<_, ImportError>(s@),
            Err(e) => decode(b@) == Err::<(i32, MeshParams, Seq<TileRecord>), _>(e),
        },
{
    let len = b.len();
    if len < 4 {
        return Err(ImportError::TruncatedInputError);
    }
    if read_u32(b, 0) != TILE_SET_MAGIC {
        return Err(ImportError::FormatError);
    }
    if len < 8 {
        return Err(ImportError::TruncatedInputError);
    }
    if read_u32(b, 4) != TILE_SET_VERSION {
        return Err(ImportError::VersionError);
    }
    if len < RECORDS_START {
        return Err(ImportError::TruncatedInputError);
    }
    let declared = to_signed(read_u32(b, 8));
    let params = read_params(b, HEADER_LEN);
    let mut tiles: Vec<TileRecord> = Vec::new();
    let mut pos: usize = RECORDS_START;
    let mut k: i32 = 0;
    while k < declared
        invariant
            RECORDS_START <= pos <= len,
            len == b@.len(),
            le_u32(b@, 0) == TILE_SET_MAGIC,
            le_u32(b@, 4) == TILE_SET_VERSION,
            0 <= k,
            k <= declared || k == 0,
            declared == signed(le_u32(b@, 8)),
            params == params_at(b@, HEADER_LEN as int),
            records_from(b@, RECORDS_START as int, declared as int) == prepend(
                tiles@,
                records_from(b@, pos as int, declared - k),
            ),
        decreases declared - k,
    {
        if len - pos < TILE_HEADER_LEN {
            return Err(ImportError::TruncatedInputError);
        }
        let tile_ref = read_u32(b, pos);
        let size = read_u32(b, pos + 4);
        if tile_ref == 0 || size == 0 {
            assert(tiles@ + seq![] =~= tiles@);
            return Ok(TileSet { declared_tiles: declared, params, tiles });
        }
        if size >= 0x8000_0000 || size as usize > len - pos - TILE_HEADER_LEN {
            return Err(ImportError::TruncatedInputError);
        }
        let rec = TileRecord { tile_ref, offset: pos + TILE_HEADER_LEN, size: size as usize };
        let ghost before = tiles@;
        let ghost rest = records_from(b@, (pos + TILE_HEADER_LEN + size) as int, declared - k - 1);
        tiles.push(rec);
        assert(records_from(b@, pos as int, declared - k) == prepend(seq![rec], rest));
        proof {
            if let Ok(t) = rest {
                assert(before + (seq![rec] + t) =~= tiles@ + t);
            }
        }
        pos = pos + TILE_HEADER_LEN + size as usize;
        k = k + 1;
    }
    assert(tiles@ + seq![] =~= tiles@);
    Ok(TileSet { declared_tiles: declared, params, tiles })
}

/// The little-endian bytes of a 32-bit word.
pub open spec fn u32_bytes(w: u32) -> Seq<u8> {
    seq![(w % 256) as u8, ((w / 256) % 256) as u8, ((w / 65536) % 256) as u8, (w / 16777216) as u8]
}

/// A tile record as written: reference, payload size, payload.
pub open spec fn record_bytes(rec: (u32, Seq<u8>)) -> Seq<u8> {
    u32_bytes(rec.0) + u32_bytes(rec.1.len() as u32) + rec.1
}

/// A list of tile records as written, one after the other.
pub open spec fn records_bytes(recs: Seq<(u32, Seq<u8>)>) -> Seq<u8>
    decreases recs.len(),
{
    if recs.len() == 0 {
        seq![]
    } else {
        record_bytes(recs[0]) + records_bytes(recs.drop_first())
    }
}

/// A record that does not end the list: a nonzero reference and a payload
/// of positive size that fits an `i32`.
pub open spec fn record_ok(rec: (u32, Seq<u8>)) -> bool {
    rec.0 != 0 && 0 < rec.1.len() < 0x8000_0000
}

/// A whole tile set as written, with anything after its last record.
pub open spec fn tile_set_bytes(params: Seq<u8>, recs: Seq<(u32, Seq<u8>)>, tail: Seq<u8>) -> Seq<u8> {
    u32_bytes(TILE_SET_MAGIC) + u32_bytes(TILE_SET_VERSION) + u32_bytes(recs.len() as u32) + params
        + records_bytes(recs) + tail
}

proof fn lemma_le_u32_bytes(b: Seq<u8>, at: int, w: u32)
    requires
        0 <= at,
        at + 4 <= b.len(),
        b.subrange(at, at + 4) == u32_bytes(w),
    ensures
        le_u32(b, at) == w,
{
    assert(b[at] == u32_bytes(w)[0]);
    assert(b[at + 1] == u32_bytes(w)[1]);
    assert(b[at + 2] == u32_bytes(w)[2]);
    assert(b[at + 3] == u32_bytes(w)[3]);
    let x = w as int;
    lemma_fundamental_div_mod(x, 256);
    lemma_fundamental_div_mod(x / 256, 256);
    lemma_fundamental_div_mod(x / 65536, 256);
    lemma_div_denominator(x, 256, 256);
    lemma_div_denominator(x, 65536, 256);
    assert(x / 16777216 < 256);
}

/// Splits the bytes of a nonempty record list, found at `pos`, into those
/// of its first record and those of the rest.
proof fn lemma_split_records(b: Seq<u8>, pos: int, recs: Seq<(u32, Seq<u8>)>)
    requires
        recs.len() > 0,
        forall|i: int| 0 <= i < recs.len() ==> record_ok(#[trigger] recs[i]),
        0 <= pos,
        pos + records_bytes(recs).len() <= b.len(),
        b.subrange(pos, pos + records_bytes(recs).len()) == records_bytes(recs),
    ensures
        ({
            let rest = recs.drop_first();
            let l0 = record_bytes(recs[0]).len() as int;
            &&& record_ok(recs[0])
            &&& forall|i: int| 0 <= i < rest.len() ==> record_ok(#[trigger] rest[i])
            &&& records_bytes(recs).len() == l0 + records_bytes(rest).len()
            &&& b.subrange(pos, pos + l0) == record_bytes(recs[0])
            &&& b.subrange(pos + l0, pos + records_bytes(recs).len()) == records_bytes(rest)
        }),
{
    let all = records_bytes(recs);
    let rest = recs.drop_first();
    let rb0 = record_bytes(recs[0]);
    let l0 = rb0.len() as int;
    assert(all == rb0 + records_bytes(rest));
    assert(record_ok(recs[0]));
    assert forall|i: int| 0 <= i < rest.len() implies record_ok(#[trigger] rest[i]) by {
        assert(rest[i] == recs[i + 1]);
    }
    assert(b.subrange(pos, pos + l0) =~= all.subrange(0, l0));
    assert(all.subrange(0, l0) =~= rb0);
    assert(b.subrange(pos + l0, pos + all.len()) =~= all.subrange(l0, all.len() as int));
    assert(all.subrange(l0, all.len() as int) =~= records_bytes(rest));
}

proof fn lemma_head_record(b: Seq<u8>, pos: int, r0: (u32, Seq<u8>), n: int)
    requires
        0 <= pos,
        pos + record_bytes(r0).len() <= b.len() <= usize::MAX,
        b.subrange(pos, pos + record_bytes(r0).len()) == record_bytes(r0),
        record_ok(r0),
        0 < n,
    ensures
        records_from(b, pos, n) == prepend(
            seq![TileRecord { tile_ref: r0.0, offset: (pos + 8) as usize, size: r0.1.len() as usize }],
            records_from(b, pos + 8 + r0.1.len(), n - 1),
        ),
        b.subrange(pos + 8, pos + 8 + r0.1.len()) == r0.1,
{
    let rb0 = record_bytes(r0);
    assert(b.subrange(pos, pos + 4) =~= rb0.subrange(0, 4));
    assert(rb0.subrange(0, 4) =~= u32_bytes(r0.0));
    assert(b.subrange(pos + 4, pos + 8) =~= rb0.subrange(4, 8));
    assert(rb0.subrange(4, 8) =~= u32_bytes(r0.1.len() as u32));
    lemma_le_u32_bytes(b, pos, r0.0);
    lemma_le_u32_bytes(b, pos + 4, r0.1.len() as u32);
    assert(b.subrange(pos + 8, pos + 8 + r0.1.len()) =~= rb0.subrange(8, rb0.len() as int));
    assert(rb0.subrange(8, rb0.len() as int) =~= r0.1);
}

proof fn lemma_records_from_bytes(b: Seq<u8>, pos: int, recs: Seq<(u32, Seq<u8>)>)
    requires
        forall|i: int| 0 <= i < recs.len() ==> record_ok(#[trigger] recs[i]),
        0 <= pos,
        pos + records_bytes(recs).len() <= b.len() <= usize::MAX,
        b.subrange(pos, pos + records_bytes(recs).len()) == records_bytes(recs),
    ensures
        ({
            let r = records_from(b, pos, recs.len() as int);
            &&& r is Ok
            &&& r->Ok_0.len() == recs.len()
            &&& forall|i: int| 0 <= i < recs.len() ==> {
                let t = #[trigger] r->Ok_0[i];
                &&& t.tile_ref == recs[i].0
                &&& b.subrange(t.offset as int, t.offset + t.size) == recs[i].1
            }
        }),
    decreases recs.len(),
{
    if recs.len() > 0 {
        let all = records_bytes(recs);
        let r0 = recs[0];
        let rest = recs.drop_first();
        let rb0 = record_bytes(r0);
        let l0 = rb0.len() as int;
        lemma_split_records(b, pos, recs);
        lemma_head_record(b, pos, r0, recs.len() as int);
        lemma_records_from_bytes(b, pos + l0, rest);
        let r = records_from(b, pos, recs.len() as int);
        let later = records_from(b, pos + l0, rest.len() as int);
        assert forall|i: int| 0 <= i < recs.len() implies {
            let t = #[trigger] r->Ok_0[i];
            &&& t.tile_ref == recs[i].0
            &&& b.subrange(t.offset as int, t.offset + t.size) == recs[i].1
        } by {
            if i > 0 {
                assert(r->Ok_0[i] == later->Ok_0[i - 1]);
                assert(recs[i] == rest[i - 1]);
            }
        }
    }
}

/// A buffer that holds the header, the parameters and `n` tile records that
/// do not end the list, followed by anything, decodes to exactly `n` tile
/// records, each with its reference and its payload.
pub proof fn lemma_decode_tile_set(params: Seq<u8>, recs: Seq<(u32, Seq<u8>)>, tail: Seq<u8>)
    requires
        params.len() == 28,
        recs.len() < 0x8000_0000,
        forall|i: int| 0 <= i < recs.len() ==> record_ok(#[trigger] recs[i]),
        tile_set_bytes(params, recs, tail).len() <= usize::MAX,
    ensures
        ({
            let b = tile_set_bytes(params, recs, tail);
            let d = decode(b);
            &&& d is Ok
            &&& d->Ok_0.0 == recs.len()
            &&& d->Ok_0.1 == params_at(b, HEADER_LEN as int)
            &&& d->Ok_0.2.len() == recs.len()
            &&& forall|i: int| 0 <= i < recs.len() ==> {
                let t = #[trigger] d->Ok_0.2[i];
                &&& t.tile_ref == recs[i].0
                &&& b.subrange(t.offset as int, t.offset + t.size) == recs[i].1
            }
        }),
{
    let b = tile_set_bytes(params, recs, tail);
    let n = recs.len() as u32;
    let prefix = u32_bytes(TILE_SET_MAGIC) + u32_bytes(TILE_SET_VERSION) + u32_bytes(n) + params;
    assert(b =~= prefix + records_bytes(recs) + tail);
    assert(b.subrange(0, 4) =~= u32_bytes(TILE_SET_MAGIC));
    assert(b.subrange(4, 8) =~= u32_bytes(TILE_SET_VERSION));
    assert(b.subrange(8, 12) =~= u32_bytes(n));
    lemma_le_u32_bytes(b, 0, TILE_SET_MAGIC);
    lemma_le_u32_bytes(b, 4, TILE_SET_VERSION);
    lemma_le_u32_bytes(b, 8, n);
    assert(signed(n) as int == recs.len());
    assert(b.subrange(40, 40 + records_bytes(recs).len() as int) =~= records_bytes(recs));
    lemma_records_from_bytes(b, 40, recs);
}

proof fn lemma_cut_records(b: Seq<u8>, pos: int, recs: Seq<(u32, Seq<u8>)>, k: int)
    requires
        forall|i: int| 0 <= i < recs.len() ==> record_ok(#[trigger] recs[i]),
        0 <= pos <= k < pos + records_bytes(recs).len(),
        pos + records_bytes(recs).len() <= b.len() <= usize::MAX,
        b.subrange(pos, pos + records_bytes(recs).len()) == records_bytes(recs),
    ensures
        records_from(b.subrange(0, k), pos, recs.len() as int) == Err::<Seq<TileRecord>, _>(
            ImportError::TruncatedInputError,
        ),
    decreases recs.len(),
{
    let c = b.subrange(0, k);
    let all = records_bytes(recs);
    let r0 = recs[0];
    let rest = recs.drop_first();
    let rb0 = record_bytes(r0);
    let l0 = rb0.len() as int;
    lemma_split_records(b, pos, recs);
    if k >= pos + l0 {
        assert(c.subrange(pos, pos + l0) =~= b.subrange(pos, pos + l0));
        lemma_head_record(c, pos, r0, recs.len() as int);
        lemma_cut_records(b, pos + l0, rest, k);
        assert(b.subrange(0, k).subrange(0, k) =~= c);
    } else if k >= pos + 8 {
        assert(c.subrange(pos, pos + 4) =~= rb0.subrange(0, 4));
        assert(rb0.subrange(0, 4) =~= u32_bytes(r0.0));
        assert(c.subrange(pos + 4, pos + 8) =~= rb0.subrange(4, 8));
        assert(rb0.subrange(4, 8) =~= u32_bytes(r0.1.len() as u32));
        lemma_le_u32_bytes(c, pos, r0.0);
        lemma_le_u32_bytes(c, pos + 4, r0.1.len() as u32);
    }
}

/// Decoding classifies bad input: a wrong magic is a format error, whatever
/// follows it; the right magic with another version is a version error,
/// whatever follows it; a buffer that ends inside the header or the
/// parameters, or a well-formed tile set cut anywhere after
/// its parameters and before the end of its last record, is truncated.
pub proof fn lemma_decode_errors(b: Seq<u8>, params: Seq<u8>, recs: Seq<(u32, Seq<u8>)>, k: int)
    ensures
        b.len() < 4 ==> decode(b) == Err::<(i32, MeshParams, Seq<TileRecord>), _>(
            ImportError::TruncatedInputError,
        ),
        b.len() >= 4 && le_u32(b, 0) != TILE_SET_MAGIC ==> decode(b) == Err::<
            (i32, MeshParams, Seq<TileRecord>),
            _,
        >(ImportError::FormatError),
        4 <= b.len() < 8 && le_u32(b, 0) == TILE_SET_MAGIC ==> decode(b) == Err::<
            (i32, MeshParams, Seq<TileRecord>),
            _,
        >(ImportError::TruncatedInputError),
        b.len() >= 8 && le_u32(b, 0) == TILE_SET_MAGIC && le_u32(b, 4) != TILE_SET_VERSION
            ==> decode(b) == Err::<(i32, MeshParams, Seq<TileRecord>), _>(ImportError::VersionError),
        8 <= b.len() < RECORDS_START && le_u32(b, 0) == TILE_SET_MAGIC && le_u32(b, 4)
            == TILE_SET_VERSION ==> decode(b) == Err::<(i32, MeshParams, Seq<TileRecord>), _>(
            ImportError::TruncatedInputError,
        ),
        ({
            let full = tile_set_bytes(params, recs, seq![]);
            params.len() == 28 && recs.len() < 0x8000_0000 && (forall|i: int|
                0 <= i < recs.len() ==> record_ok(#[trigger] recs[i])) && full.len() <= usize::MAX
                && RECORDS_START <= k < full.len() ==> decode(full.subrange(0, k)) == Err::<
                (i32, MeshParams, Seq<TileRecord>),
                _,
            >(ImportError::TruncatedInputError)
        }),
{
    let full = tile_set_bytes(params, recs, seq![]);
    if params.len() == 28 && recs.len() < 0x8000_0000 && (forall|i: int|
        0 <= i < recs.len() ==> record_ok(#[trigger] recs[i])) && full.len() <= usize::MAX
        && RECORDS_START <= k < full.len() {
        let n = recs.len() as u32;
        let c = full.subrange(0, k);
        let prefix = u32_bytes(TILE_SET_MAGIC) + u32_bytes(TILE_SET_VERSION) + u32_bytes(n) + params;
        assert(full =~= prefix + records_bytes(recs) + seq![]);
        assert(c.subrange(0, 4) =~= u32_bytes(TILE_SET_MAGIC));
        assert(c.subrange(4, 8) =~= u32_bytes(TILE_SET_VERSION));
        assert(c.subrange(8, 12) =~= u32_bytes(n));
        lemma_le_u32_bytes(c, 0, TILE_SET_MAGIC);
        lemma_le_u32_bytes(c, 4, TILE_SET_VERSION);
        lemma_le_u32_bytes(c, 8, n);
        assert(signed(n) as int == recs.len());
        assert(full.subrange(40, 40 + records_bytes(recs).len() as int) =~= records_bytes(recs));
        lemma_cut_records(full, 40, recs, k);
    }
}

proof fn lemma_records_then(b: Seq<u8>, pos: int, recs: Seq<(u32, Seq<u8>)>, extra: int)
    requires
        forall|i: int| 0 <= i < recs.len() ==> record_ok(#[trigger] recs[i]),
        0 <= pos,
        0 <= extra,
        pos + records_bytes(recs).len() <= b.len() <= usize::MAX,
        b.subrange(pos, pos + records_bytes(recs).len()) == records_bytes(recs),
    ensures
        records_from(b, pos, recs.len() + extra) == prepend(
            records_from(b, pos, recs.len() as int)->Ok_0,
            records_from(b, pos + records_bytes(recs).len(), extra),
        ),
    decreases recs.len(),
{
    lemma_records_from_bytes(b, pos, recs);
    if recs.len() == 0 {
        if let Ok(t) = records_from(b, pos, extra) {
            assert(Seq::<TileRecord>::empty() + t =~= t);
        }
    } else {
        let all = records_bytes(recs);
        let r0 = recs[0];
        let rest = recs.drop_first();
        let rb0 = record_bytes(r0);
        let l0 = rb0.len() as int;
        lemma_split_records(b, pos, recs);
        lemma_head_record(b, pos, r0, recs.len() + extra);
        lemma_head_record(b, pos, r0, recs.len() as int);
        lemma_records_then(b, pos + l0, rest, extra);
        lemma_records_from_bytes(b, pos + l0, rest);
        let head = seq![TileRecord { tile_ref: r0.0, offset: (pos + 8) as usize, size: r0.1.len() as usize }];
        let mid = records_from(b, pos + l0, rest.len() as int)->Ok_0;
        if let Ok(t) = records_from(b, pos + all.len(), extra) {
            assert(head + (mid + t) =~= (head + mid) + t);
        }
    }
}

/// A record with a zero reference or a zero payload size, met before the
/// declared count is reached, ends the list: decoding still succeeds, with
/// only the records before it.
pub proof fn lemma_terminator_ends_list(
    params: Seq<u8>,
    recs: Seq<(u32, Seq<u8>)>,
    declared: u32,
    end_ref: u32,
    end_size: u32,
    tail: Seq<u8>,
)
    requires
        params.len() == 28,
        recs.len() < declared < 0x8000_0000,
        end_ref == 0 || end_size == 0,
        forall|i: int| 0 <= i < recs.len() ==> record_ok(#[trigger] recs[i]),
        (u32_bytes(TILE_SET_MAGIC) + u32_bytes(TILE_SET_VERSION) + u32_bytes(declared) + params + records_bytes(recs)
            + u32_bytes(end_ref) + u32_bytes(end_size) + tail).len() <= usize::MAX,
    ensures
        ({
            let b = u32_bytes(TILE_SET_MAGIC) + u32_bytes(TILE_SET_VERSION) + u32_bytes(declared) + params
                + records_bytes(recs) + u32_bytes(end_ref) + u32_bytes(end_size) + tail;
            let d = decode(b);
            &&& d is Ok
            &&& d->Ok_0.0 == declared
            &&& d->Ok_0.2.len() == recs.len()
            &&& forall|i: int| 0 <= i < recs.len() ==> {
                let t = #[trigger] d->Ok_0.2[i];
                &&& t.tile_ref == recs[i].0
                &&& b.subrange(t.offset as int, t.offset + t.size) == recs[i].1
            }
        }),
{
    let b = u32_bytes(TILE_SET_MAGIC) + u32_bytes(TILE_SET_VERSION) + u32_bytes(declared) + params
        + records_bytes(recs) + u32_bytes(end_ref) + u32_bytes(end_size) + tail;
    let l = records_bytes(recs).len() as int;
    assert(b.subrange(0, 4) =~= u32_bytes(TILE_SET_MAGIC));
    assert(b.subrange(4, 8) =~= u32_bytes(TILE_SET_VERSION));
    assert(b.subrange(8, 12) =~= u32_bytes(declared));
    lemma_le_u32_bytes(b, 0, TILE_SET_MAGIC);
    lemma_le_u32_bytes(b, 4, TILE_SET_VERSION);
    lemma_le_u32_bytes(b, 8, declared);
    assert(signed(declared) as int == declared);
    assert(b.subrange(40, 40 + l) =~= records_bytes(recs));
    assert(b.subrange(40 + l, 44 + l) =~= u32_bytes(end_ref));
    assert(b.subrange(44 + l, 48 + l) =~= u32_bytes(end_size));
    lemma_le_u32_bytes(b, 40 + l, end_ref);
    lemma_le_u32_bytes(b, 44 + l, end_size);
    lemma_records_from_bytes(b, 40, recs);
    lemma_records_then(b, 40, recs, declared - recs.len());
    assert(records_from(b, 40 + l, declared - recs.len()) == Ok::<Seq<TileRecord>, ImportError>(seq![]));
    let got = records_from(b, 40, recs.len() as int)->Ok_0;
    assert(got + Seq::<TileRecord>::empty() =~= got);
}

} // verus!
