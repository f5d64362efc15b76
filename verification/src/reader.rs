//! The binary log reader: parses the framed container into a table of
//! (entry identifier, key name, declared type) and an ordered sequence of
//! raw typed records.
//!
//! The container is framed as: a six-byte signature, a two-byte format
//! version, a length-prefixed header-metadata block, then records. Each
//! record carries a one-byte length bitfield, an entry identifier, a payload
//! size, a timestamp (all little-endian, one to eight bytes) and the
//! payload. Entry identifier zero marks a control record (start, finish or
//! set-metadata of an entry); any other identifier names a data record whose
//! payload is read per the entry's declared type.
//!
//! Any framing or signature inconsistency is fatal to the whole decode: the
//! operation fails with a [`FormatError`] and returns no partial table and
//! no partial records, since a corrupted frame boundary invalidates the
//! offsets of every subsequent record.
use vstd::prelude::*;
use vstd::slice::slice_subrange;
use vstd::string::StrSliceExecFns;
use vstd::utf8::decode_utf8;
use vstd::utf8::valid_utf8;

use crate::value::Payload;
use crate::value::PayloadModel;
use crate::wire::le_i64;
use crate::wire::le_int;
use crate::wire::lemma_le_int_bound;
use crate::wire::lemma_pow256_monotone;
use crate::wire::pow256;
use crate::wire::read_le_i64;
use crate::wire::read_le_u64;
use crate::wire::str_eq;
use crate::wire::utf8_to_string;

verus! {

/// Why a decode failed. Every failure is fatal to the whole decode.
#[derive(Debug, Clone, Copy, PartialEq, Eq, Structural)]
pub enum FormatError {
    /// The six-byte signature at the start of the container is wrong.
    BadMagic,
    /// The two-byte format version is not the supported one.
    BadVersion,
    /// The input ends inside the header, a record frame or a payload.
    Truncated,
    /// A control record is malformed: unknown control type or wrong layout.
    BadControl,
    /// An embedded string is not valid UTF-8.
    BadString,
    /// A data record's payload does not fit its entry's declared type.
    BadPayload,
}

/// The closed classification of an entry's declared type string.
#[derive(Debug, Clone, Copy, PartialEq, Eq, Structural)]
pub enum TypeTag {
    Boolean,
    Int64,
    Float32,
    Double,
    Str,
    BooleanArray,
    Int64Array,
    Float32Array,
    DoubleArray,
    StringArray,
    Struct,
    StructArray,
    Raw,
}

/// Classification rule: the ten primitive and array names map to their
/// tags, a name beginning `struct:` is schema-dependent (array when it ends
/// `[]`), and anything else is read as raw bytes.
pub open spec fn spec_classify(t: Seq<char>) -> TypeTag {
    if t == "boolean"@ {
        TypeTag::Boolean
    } else if t == "int64"@ {
        TypeTag::Int64
    } else if t == "float"@ {
        TypeTag::Float32
    } else if t == "double"@ {
        TypeTag::Double
    } else if t == "string"@ {
        TypeTag::Str
    } else if t == "boolean[]"@ {
        TypeTag::BooleanArray
    } else if t == "int64[]"@ {
        TypeTag::Int64Array
    } else if t == "float[]"@ {
        TypeTag::Float32Array
    } else if t == "double[]"@ {
        TypeTag::DoubleArray
    } else if t == "string[]"@ {
        TypeTag::StringArray
    } else if t.len() >= 7 && t.take(7) == "struct:"@ {
        if t.len() >= 9 && t.skip(t.len() - 2) == "[]"@ {
            TypeTag::StructArray
        } else {
            TypeTag::Struct
        }
    } else {
        TypeTag::Raw
    }
}

/// Classifies one declared type string.
pub fn classify(t: &str) -> (r: TypeTag)
    ensures
        r == spec_classify(t@),
{
    if str_eq(t, "boolean") {
        TypeTag::Boolean
    } else if str_eq(t, "int64") {
        TypeTag::Int64
    } else if str_eq(t, "float") {
        TypeTag::Float32
    } else if str_eq(t, "double") {
        TypeTag::Double
    } else if str_eq(t, "string") {
        TypeTag::Str
    } else if str_eq(t, "boolean[]") {
        TypeTag::BooleanArray
    } else if str_eq(t, "int64[]") {
        TypeTag::Int64Array
    } else if str_eq(t, "float[]") {
        TypeTag::Float32Array
    } else if str_eq(t, "double[]") {
        TypeTag::DoubleArray
    } else if str_eq(t, "string[]") {
        TypeTag::StringArray
    } else {
        let n = t.unicode_len();
        if n >= 7 && str_eq(t.substring_char(0, 7), "struct:") {
            proof {
                assert(t@.subrange(0, 7) =~= t@.take(7));
            }
            if n >= 9 && str_eq(t.substring_char(n - 2, n), "[]") {
                proof {
                    assert(t@.subrange(n - 2, n as int) =~= t@.skip(t@.len() - 2));
                }
                TypeTag::StructArray
            } else {
                proof {
                    if t@.len() >= 9 {
                        assert(t@.subrange(n - 2, n as int) =~= t@.skip(t@.len() - 2));
                    }
                }
                TypeTag::Struct
            }
        } else {
            proof {
                if t@.len() >= 7 {
                    assert(t@.subrange(0, 7) =~= t@.take(7));
                }
            }
            TypeTag::Raw
        }
    }
}

/// One declared entry of the log: its identifier, key name, declared type,
/// and whether it is still started (live).
pub struct LogEntry {
    pub id: u32,
    pub name: String,
    pub declared_type: String,
    pub live: bool,
}

/// Mathematical model of a [`LogEntry`].
pub struct EntryModel {
    pub id: u32,
    pub name: Seq<char>,
    pub declared_type: Seq<char>,
    pub live: bool,
}

impl View for LogEntry {
    type V = EntryModel;

    open spec fn view(&self) -> EntryModel {
        EntryModel { id: self.id, name: self.name@, declared_type: self.declared_type@, live: self.live }
    }
}

/// One raw typed record: the entry it is bound to, its timestamp, and its
/// payload read per the entry's declared type.
pub struct RawRecord {
    pub entry_id: u32,
    pub timestamp: u64,
    pub payload: Payload,
}

/// Mathematical model of a [`RawRecord`].
pub struct RecordModel {
    pub entry_id: u32,
    pub timestamp: u64,
    pub payload: PayloadModel,
}

impl View for RawRecord {
    type V = RecordModel;

    open spec fn view(&self) -> RecordModel {
        RecordModel { entry_id: self.entry_id, timestamp: self.timestamp, payload: self.payload@ }
    }
}

/// Model of the table of entries.
pub open spec fn table_model(t: Seq<LogEntry>) -> Seq<EntryModel> {
    t.map_values(|e: LogEntry| e@)
}

/// Model of the ordered record list.
pub open spec fn records_model(t: Seq<RawRecord>) -> Seq<RecordModel> {
    t.map_values(|r: RawRecord| r@)
}

/// What a successful decode yields.
pub struct DecodeModel {
    pub table: Seq<EntryModel>,
    pub records: Seq<RecordModel>,
}

/// The six signature bytes, `WPILOG`.
pub open spec fn magic_bytes() -> Seq<u8> {
    seq![0x57u8, 0x50u8, 0x49u8, 0x4cu8, 0x4fu8, 0x47u8]
}

/// Parses the container header: signature, version, and the length-prefixed
/// header-metadata block. On success, the position where records begin.
pub open spec fn spec_parse_header(b: Seq<u8>) -> Result<int, FormatError> {
    if b.len() < 12 {
        Err(FormatError::Truncated)
    } else if b.subrange(0, 6) != magic_bytes() {
        Err(FormatError::BadMagic)
    } else if !(b[6] == 0 && b[7] == 1) {
        Err(FormatError::BadVersion)
    } else if 12 + le_int(b.subrange(8, 12)) > b.len() {
        Err(FormatError::Truncated)
    } else {
        Ok(12 + le_int(b.subrange(8, 12)) as int)
    }
}

/// One record frame: the entry identifier, the timestamp, the payload
/// bytes, and the position of the next frame.
pub struct Frame {
    pub entry_id: u32,
    pub timestamp: u64,
    pub payload: Seq<u8>,
    pub next: int,
}

/// Parses the frame that starts at `pos`: the length bitfield, then the
/// identifier, payload size and timestamp fields at the widths it encodes,
/// then the payload.
pub open spec fn spec_parse_frame(b: Seq<u8>, pos: int) -> Result<Frame, FormatError> {
    if pos + 1 > b.len() {
        Err(FormatError::Truncated)
    } else {
        let hdr = b[pos];
        let idl = (hdr & 3) + 1;
        let pl = ((hdr >> 2) & 3) + 1;
        let tl = ((hdr >> 4) & 7) + 1;
        if pos + 1 + idl + pl + tl > b.len() {
            Err(FormatError::Truncated)
        } else {
            let id_end = pos + 1 + idl;
            let size_end = id_end + pl;
            let ts_end = size_end + tl;
            let size = le_int(b.subrange(id_end, size_end)) as int;
            if ts_end + size > b.len() {
                Err(FormatError::Truncated)
            } else {
                Ok(Frame {
                    entry_id: le_int(b.subrange(pos + 1, id_end)) as u32,
                    timestamp: le_int(b.subrange(size_end, ts_end)) as u64,
                    payload: b.subrange(ts_end, ts_end + size),
                    next: ts_end + size,
                })
            }
        }
    }
}

/// A parsed control record.
pub enum ControlModel {
    /// Declares (starts) an entry: identifier, key name, declared type.
    /// The metadata string is validated and then ignored.
    Start { target: u32, name: Seq<char>, declared_type: Seq<char> },
    /// Finishes an entry: records for it are no longer accepted.
    Finish { target: u32 },
    /// Replaces an entry's metadata; the table is unchanged.
    Meta { target: u32 },
}

/// Parses a control payload: a one-byte control type, the four-byte target
/// identifier, then for start records three length-prefixed strings (name,
/// type, metadata) that consume the payload exactly, for set-metadata one
/// such string, and for finish nothing more.
pub open spec fn spec_parse_control(p: Seq<u8>) -> Result<ControlModel, FormatError> {
    if p.len() < 5 {
        Err(FormatError::BadControl)
    } else {
        let target = le_int(p.subrange(1, 5)) as u32;
        if p[0] == 0 {
            if p.len() < 9 {
                Err(FormatError::BadControl)
            } else {
                let nlen = le_int(p.subrange(5, 9)) as int;
                if 9 + nlen + 4 > p.len() {
                    Err(FormatError::BadControl)
                } else {
                    let name_b = p.subrange(9, 9 + nlen);
                    let tp = 9 + nlen;
                    let tlen = le_int(p.subrange(tp, tp + 4)) as int;
                    if tp + 4 + tlen + 4 > p.len() {
                        Err(FormatError::BadControl)
                    } else {
                        let type_b = p.subrange(tp + 4, tp + 4 + tlen);
                        let mp = tp + 4 + tlen;
                        let mlen = le_int(p.subrange(mp, mp + 4)) as int;
                        if mp + 4 + mlen != p.len() {
                            Err(FormatError::BadControl)
                        } else if !valid_utf8(name_b) || !valid_utf8(type_b) || !valid_utf8(
                            p.subrange(mp + 4, mp + 4 + mlen),
                        ) {
                            Err(FormatError::BadString)
                        } else {
                            Ok(ControlModel::Start {
                                target,
                                name: decode_utf8(name_b),
                                declared_type: decode_utf8(type_b),
                            })
                        }
                    }
                }
            }
        } else if p[0] == 1 {
            if p.len() == 5 {
                Ok(ControlModel::Finish { target })
            } else {
                Err(FormatError::BadControl)
            }
        } else if p[0] == 2 {
            if p.len() < 9 {
                Err(FormatError::BadControl)
            } else {
                let mlen = le_int(p.subrange(5, 9)) as int;
                if 9 + mlen != p.len() {
                    Err(FormatError::BadControl)
                } else if !valid_utf8(p.subrange(9, 9 + mlen)) {
                    Err(FormatError::BadString)
                } else {
                    Ok(ControlModel::Meta { target })
                }
            }
        } else {
            Err(FormatError::BadControl)
        }
    }
}

/// The index of the entry with the given identifier, or -1. Identifiers are
/// unique in the table, so this is the only match.
pub open spec fn find_entry(t: Seq<EntryModel>, id: u32) -> int
    decreases t.len(),
{
    if t.len() == 0 {
        -1
    } else if t[0].id == id {
        0
    } else {
        let r = find_entry(t.skip(1), id);
        if r < 0 {
            -1
        } else {
            r + 1
        }
    }
}

/// What [`find_entry`] returns: the least index holding the identifier, or
/// -1 when no entry holds it.
pub proof fn lemma_find_entry(t: Seq<EntryModel>, id: u32)
    ensures
        find_entry(t, id) == -1 ==> forall|k: int| 0 <= k < t.len() ==> t[k].id != id,
        find_entry(t, id) >= 0 ==> find_entry(t, id) < t.len() && t[find_entry(t, id)].id == id
            && forall|k: int| 0 <= k < find_entry(t, id) ==> t[k].id != id,
    decreases t.len(),
{
    if t.len() > 0 && t[0].id != id {
        lemma_find_entry(t.skip(1), id);
        assert(forall|k: int| 1 <= k < t.len() ==> t[k] == t.skip(1)[k - 1]);
    }
}

/// How a control record evolves the table. A start for an identifier that
/// is already live is ignored; one for a finished identifier re-declares it
/// in place; a new identifier is appended. A finish marks the entry no
/// longer live; set-metadata leaves the table unchanged.
pub open spec fn spec_apply_control(t: Seq<EntryModel>, c: ControlModel) -> Seq<EntryModel> {
    match c {
        ControlModel::Start { target, name, declared_type } => {
            let i = find_entry(t, target);
            if i >= 0 {
                if t[i].live {
                    t
                } else {
                    t.update(i, EntryModel { id: target, name, declared_type, live: true })
                }
            } else {
                t.push(EntryModel { id: target, name, declared_type, live: true })
            }
        },
        ControlModel::Finish { target } => {
            let i = find_entry(t, target);
            if i >= 0 && t[i].live {
                t.update(
                    i,
                    EntryModel {
                        id: t[i].id,
                        name: t[i].name,
                        declared_type: t[i].declared_type,
                        live: false,
                    },
                )
            } else {
                t
            }
        },
        ControlModel::Meta { .. } => t,
    }
}

/// Parses one data payload per the declared type. Fixed-width types must
/// fill their payload exactly; element arrays must be an exact multiple of
/// the element width; strings must be valid UTF-8; raw and schema-dependent
/// payloads accept any bytes.
pub open spec fn spec_parse_payload(tag: TypeTag, p: Seq<u8>) -> Result<PayloadModel, FormatError> {
    match tag {
        TypeTag::Boolean => if p.len() == 1 {
            Ok(PayloadModel::Boolean(p[0] != 0))
        } else {
            Err(FormatError::BadPayload)
        },
        TypeTag::Int64 => if p.len() == 8 {
            Ok(PayloadModel::Int64(le_i64(p) as i64))
        } else {
            Err(FormatError::BadPayload)
        },
        TypeTag::Float32 => if p.len() == 4 {
            Ok(PayloadModel::Float32(le_int(p) as u32))
        } else {
            Err(FormatError::BadPayload)
        },
        TypeTag::Double => if p.len() == 8 {
            Ok(PayloadModel::Double(le_int(p) as u64))
        } else {
            Err(FormatError::BadPayload)
        },
        TypeTag::Str => if valid_utf8(p) {
            Ok(PayloadModel::Str(decode_utf8(p)))
        } else {
            Err(FormatError::BadString)
        },
        TypeTag::BooleanArray => Ok(
            PayloadModel::BooleanArray(Seq::new(p.len(), |i: int| p[i] != 0)),
        ),
        TypeTag::Int64Array => if p.len() % 8 == 0 {
            Ok(
                PayloadModel::Int64Array(
                    Seq::new(p.len() / 8, |i: int| le_i64(p.subrange(8 * i, 8 * i + 8)) as i64),
                ),
            )
        } else {
            Err(FormatError::BadPayload)
        },
        TypeTag::Float32Array => if p.len() % 4 == 0 {
            Ok(
                PayloadModel::Float32Array(
                    Seq::new(p.len() / 4, |i: int| le_int(p.subrange(4 * i, 4 * i + 4)) as u32),
                ),
            )
        } else {
            Err(FormatError::BadPayload)
        },
        TypeTag::DoubleArray => if p.len() % 8 == 0 {
            Ok(
                PayloadModel::DoubleArray(
                    Seq::new(p.len() / 8, |i: int| le_int(p.subrange(8 * i, 8 * i + 8)) as u64),
                ),
            )
        } else {
            Err(FormatError::BadPayload)
        },
        TypeTag::StringArray => match spec_parse_strings(p) {
            Ok(v) => Ok(PayloadModel::StringArray(v)),
            Err(e) => Err(e),
        },
        TypeTag::Struct => Ok(PayloadModel::Struct(p)),
        TypeTag::StructArray => Ok(PayloadModel::StructArray(p)),
        TypeTag::Raw => Ok(PayloadModel::RawBytes(p)),
    }
}

/// A string-array payload: length-prefixed UTF-8 strings consuming the
/// payload exactly.
pub open spec fn spec_parse_strings(p: Seq<u8>) -> Result<Seq<Seq<char>>, FormatError>
    decreases p.len(),
{
    if p.len() == 0 {
        Ok(Seq::empty())
    } else if p.len() < 4 {
        Err(FormatError::BadPayload)
    } else {
        let slen = le_int(p.subrange(0, 4)) as int;
        if 4 + slen > p.len() {
            Err(FormatError::BadPayload)
        } else {
            let sb = p.subrange(4, 4 + slen);
            if !valid_utf8(sb) {
                Err(FormatError::BadString)
            } else {
                match spec_parse_strings(p.skip(4 + slen)) {
                    Ok(rest) => Ok(seq![decode_utf8(sb)] + rest),
                    Err(e) => Err(e),
                }
            }
        }
    }
}

/// Parses all records from `pos` to the end of the input, threading the
/// entry table and the ordered record list. A data record bound to a live
/// entry is kept, read per that entry's declared type; one bound to no live
/// entry is discarded, since the container declares values only for started
/// entries.
pub open spec fn spec_parse_records(
    b: Seq<u8>,
    pos: int,
    table: Seq<EntryModel>,
    recs: Seq<RecordModel>,
) -> Result<DecodeModel, FormatError>
    decreases b.len() - pos,
{
    if pos >= b.len() {
        Ok(DecodeModel { table, records: recs })
    } else {
        match spec_parse_frame(b, pos) {
            Err(e) => Err(e),
            Ok(f) => if f.entry_id == 0 {
                match spec_parse_control(f.payload) {
                    Err(e) => Err(e),
                    Ok(c) => spec_parse_records(b, f.next, spec_apply_control(table, c), recs),
                }
            } else {
                let i = find_entry(table, f.entry_id);
                if i >= 0 && table[i].live {
                    match spec_parse_payload(spec_classify(table[i].declared_type), f.payload) {
                        Err(e) => Err(e),
                        Ok(pm) => spec_parse_records(
                            b,
                            f.next,
                            table,
                            recs.push(
                                RecordModel {
                                    entry_id: f.entry_id,
                                    timestamp: f.timestamp,
                                    payload: pm,
                                },
                            ),
                        ),
                    }
                } else {
                    spec_parse_records(b, f.next, table, recs)
                }
            },
        }
    }
}

/// A successfully parsed frame always advances: its end lies strictly
/// beyond `pos` and within the input.
pub proof fn lemma_frame_advances(b: Seq<u8>, pos: int)
    requires
        spec_parse_frame(b, pos) is Ok,
    ensures
        pos < spec_parse_frame(b, pos)->Ok_0.next <= b.len(),
{
}

/// Parses the whole container.
pub open spec fn spec_decode(b: Seq<u8>) -> Result<DecodeModel, FormatError> {
    match spec_parse_header(b) {
        Err(e) => Err(e),
        Ok(pos) => spec_parse_records(b, pos, Seq::empty(), Seq::empty()),
    }
}


/// A parsed control record, carried between the frame parser and the table.
pub enum Control {
    Start { target: u32, name: String, declared_type: String },
    Finish { target: u32 },
    Meta { target: u32 },
}

impl View for Control {
    type V = ControlModel;

    open spec fn view(&self) -> ControlModel {
        match self {
            Control::Start { target, name, declared_type } => ControlModel::Start {
                target: *target,
                name: name@,
                declared_type: declared_type@,
            },
            Control::Finish { target } => ControlModel::Finish { target: *target },
            Control::Meta { target } => ControlModel::Meta { target: *target },
        }
    }
}

/// Reads the little-endian value of `len` bytes at `start` and shows it
/// fits below `256^len`.
fn read_le_bounded(bytes: &[u8], start: usize, len: usize) -> (r: u64)
    requires
        len <= 8,
        start + len <= bytes@.len(),
    ensures
        r == le_int(bytes@.subrange(start as int, (start + len) as int)),
        r < pow256(len as nat),
{
    let r = read_le_u64(bytes, start, len);
    proof {
        lemma_le_int_bound(bytes@.subrange(start as int, (start + len) as int));
    }
    r
}

/// Reads a four-byte little-endian value; it fits in 32 bits.
fn read_le_u32v(bytes: &[u8], start: usize) -> (r: u64)
    requires
        start + 4 <= bytes@.len(),
    ensures
        r == le_int(bytes@.subrange(start as int, start as int + 4)),
        r < 0x100000000,
{
    let r = read_le_bounded(bytes, start, 4);
    proof {
        assert(pow256(4) == 0x100000000) by {
            reveal_with_fuel(pow256, 5);
        }
    }
    r
}

/// Parses the record frame that starts at `pos`: on success, the entry
/// identifier, the timestamp, and the payload's start and end positions.
fn parse_frame(bytes: &[u8], pos: usize) -> (r: Result<(u32, u64, usize, usize), FormatError>)
    requires
        pos < bytes@.len(),
    ensures
        r matches Ok(f) ==> pos < f.3 <= bytes@.len() && f.2 <= f.3 && spec_parse_frame(
            bytes@,
            pos as int,
        ) == Ok::<Frame, FormatError>(
            Frame {
                entry_id: f.0,
                timestamp: f.1,
                payload: bytes@.subrange(f.2 as int, f.3 as int),
                next: f.3 as int,
            },
        ),
        r matches Err(e) ==> spec_parse_frame(bytes@, pos as int) == Err::<Frame, FormatError>(e),
{
    let n = bytes.len();
    let hdr = bytes[pos];
    proof {
        assert(hdr & 3 <= 3) by (bit_vector);
        assert((hdr >> 2) & 3 <= 3) by (bit_vector);
        assert((hdr >> 4) & 7 <= 7) by (bit_vector);
    }
    let idl = ((hdr & 3) + 1) as usize;
    let pl = (((hdr >> 2) & 3) + 1) as usize;
    let tl = (((hdr >> 4) & 7) + 1) as usize;
    if n - pos - 1 < idl + pl + tl {
        return Err(FormatError::Truncated);
    }
    let id64 = read_le_bounded(bytes, pos + 1, idl);
    let size64 = read_le_bounded(bytes, pos + 1 + idl, pl);
    let ts64 = read_le_bounded(bytes, pos + 1 + idl + pl, tl);
    let body = pos + 1 + idl + pl + tl;
    proof {
        lemma_pow256_monotone(idl as nat, 4);
        assert(pow256(4) == 0x100000000) by {
            reveal_with_fuel(pow256, 5);
        }
    }
    let entry_id = id64 as u32;
    if size64 > (n - body) as u64 {
        return Err(FormatError::Truncated);
    }
    let size = size64 as usize;
    let next = body + size;
    proof {
        assert(bytes@.subrange(body as int, next as int) == spec_parse_frame(
            bytes@,
            pos as int,
        )->Ok_0.payload);
    }
    Ok((entry_id, ts64, body, next))
}

/// Parses one control payload.
fn parse_control(p: &[u8]) -> (r: Result<Control, FormatError>)
    ensures
        r matches Ok(c) ==> spec_parse_control(p@) == Ok::<ControlModel, FormatError>(c@),
        r matches Err(e) ==> spec_parse_control(p@) == Err::<ControlModel, FormatError>(e),
{
    let n = p.len();
    if n < 5 {
        return Err(FormatError::BadControl);
    }
    let ct = p[0];
    let target = read_le_u32v(p, 1) as u32;
    if ct == 0 {
        if n < 9 {
            return Err(FormatError::BadControl);
        }
        let nlen64 = read_le_u32v(p, 5);
        if nlen64 + 4 > (n - 9) as u64 {
            return Err(FormatError::BadControl);
        }
        let nlen = nlen64 as usize;
        let tp = 9 + nlen;
        let tlen64 = read_le_u32v(p, tp);
        if tlen64 + 4 > (n - tp - 4) as u64 {
            return Err(FormatError::BadControl);
        }
        let tlen = tlen64 as usize;
        let mp = tp + 4 + tlen;
        let mlen64 = read_le_u32v(p, mp);
        if mlen64 != (n - mp - 4) as u64 {
            return Err(FormatError::BadControl);
        }
        let mlen = mlen64 as usize;
        let name_b = slice_subrange(p, 9, 9 + nlen);
        let type_b = slice_subrange(p, tp + 4, tp + 4 + tlen);
        let meta_b = slice_subrange(p, mp + 4, mp + 4 + mlen);
        let name = match utf8_to_string(name_b) {
            Some(s) => s,
            None => {
                return Err(FormatError::BadString);
            },
        };
        let declared_type = match utf8_to_string(type_b) {
            Some(s) => s,
            None => {
                return Err(FormatError::BadString);
            },
        };
        match utf8_to_string(meta_b) {
            Some(_) => (),
            None => {
                return Err(FormatError::BadString);
            },
        };
        Ok(Control::Start { target, name, declared_type })
    } else if ct == 1 {
        if n == 5 {
            Ok(Control::Finish { target })
        } else {
            Err(FormatError::BadControl)
        }
    } else if ct == 2 {
        if n < 9 {
            return Err(FormatError::BadControl);
        }
        let mlen64 = read_le_u32v(p, 5);
        if mlen64 != (n - 9) as u64 {
            return Err(FormatError::BadControl);
        }
        let meta_b = slice_subrange(p, 9, n);
        match utf8_to_string(meta_b) {
            Some(_) => Ok(Control::Meta { target }),
            None => Err(FormatError::BadString),
        }
    } else {
        Err(FormatError::BadControl)
    }
}

/// The index of the entry holding `id`, if any; agrees with [`find_entry`].
pub fn find_index(table: &Vec<LogEntry>, id: u32) -> (r: Option<usize>)
    ensures
        r matches Some(i) ==> i < table@.len() && find_entry(table_model(table@), id) == i as int,
        r is None ==> find_entry(table_model(table@), id) == -1,
{
    let ghost m = table_model(table@);
    proof {
        lemma_find_entry(m, id);
    }
    let n = table.len();
    let mut i: usize = 0;
    while i < n
        invariant
            i <= n,
            n == table@.len(),
            m == table_model(table@),
            forall|k: int| 0 <= k < i ==> m[k].id != id,
        decreases n - i,
    {
        if table[i].id == id {
            proof {
                lemma_find_entry(m, id);
                assert(m[i as int] == table@[i as int]@);
                assert(m[i as int].id == id);
            }
            return Some(i);
        }
        i = i + 1;
    }
    proof {
        lemma_find_entry(m, id);
    }
    None
}

/// Applies one control record to the table.
fn apply_control(table: &mut Vec<LogEntry>, c: Control)
    ensures
        table_model(final(table)@) == spec_apply_control(table_model(old(table)@), c@),
{
    let ghost m0 = table_model(old(table)@);
    match c {
        Control::Start { target, name, declared_type } => {
            match find_index(table, target) {
                Some(i) => {
                    if !table[i].live {
                        table[i] = LogEntry { id: target, name, declared_type, live: true };
                        proof {
                            assert(table_model(table@) =~= spec_apply_control(
                                m0,
                                ControlModel::Start {
                                    target,
                                    name: name@,
                                    declared_type: declared_type@,
                                },
                            ));
                        }
                    }
                },
                None => {
                    table.push(LogEntry { id: target, name, declared_type, live: true });
                    proof {
                        assert(table_model(table@) =~= spec_apply_control(
                            m0,
                            ControlModel::Start {
                                target,
                                name: name@,
                                declared_type: declared_type@,
                            },
                        ));
                    }
                },
            }
        },
        Control::Finish { target } => {
            match find_index(table, target) {
                Some(i) => {
                    if table[i].live {
                        table[i].live = false;
                        proof {
                            assert(table_model(table@) =~= spec_apply_control(
                                m0,
                                ControlModel::Finish { target },
                            ));
                        }
                    }
                },
                None => (),
            }
        },
        Control::Meta { .. } => (),
    }
}

/// Parses one data payload per the declared type's tag.
fn parse_payload(tag: TypeTag, p: &[u8]) -> (r: Result<Payload, FormatError>)
    ensures
        r matches Ok(v) ==> spec_parse_payload(tag, p@) == Ok::<PayloadModel, FormatError>(v@),
        r matches Err(e) ==> spec_parse_payload(tag, p@) == Err::<PayloadModel, FormatError>(e),
{
    let n = p.len();
    match tag {
        TypeTag::Boolean => {
            if n == 1 {
                Ok(Payload::Boolean(p[0] != 0))
            } else {
                Err(FormatError::BadPayload)
            }
        },
        TypeTag::Int64 => {
            if n == 8 {
                let v = read_le_i64(p, 0);
                proof {
                    assert(p@.subrange(0, 8) =~= p@);
                }
                Ok(Payload::Int64(v))
            } else {
                Err(FormatError::BadPayload)
            }
        },
        TypeTag::Float32 => {
            if n == 4 {
                let v = read_le_bounded(p, 0, 4);
                proof {
                    assert(p@.subrange(0, 4) =~= p@);
                    assert(pow256(4) == 0x100000000) by {
                        reveal_with_fuel(pow256, 5);
                    }
                }
                Ok(Payload::Float32(v as u32))
            } else {
                Err(FormatError::BadPayload)
            }
        },
        TypeTag::Double => {
            if n == 8 {
                let v = read_le_bounded(p, 0, 8);
                proof {
                    assert(p@.subrange(0, 8) =~= p@);
                }
                Ok(Payload::Double(v))
            } else {
                Err(FormatError::BadPayload)
            }
        },
        TypeTag::Str => {
            match utf8_to_string(p) {
                Some(s) => Ok(Payload::Str(s)),
                None => Err(FormatError::BadString),
            }
        },
        TypeTag::BooleanArray => {
            let mut v: Vec<bool> = Vec::new();
            let mut i: usize = 0;
            while i < n
                invariant
                    i <= n,
                    n == p@.len(),
                    v@.len() == i,
                    forall|k: int| 0 <= k < i ==> v@[k] == (p@[k] != 0),
                decreases n - i,
            {
                v.push(p[i] != 0);
                i = i + 1;
            }
            proof {
                assert(v@ =~= Seq::new(p@.len(), |k: int| p@[k] != 0));
            }
            Ok(Payload::BooleanArray(v))
        },
        TypeTag::Int64Array => {
            if n % 8 != 0 {
                return Err(FormatError::BadPayload);
            }
            let count = n / 8;
            let mut v: Vec<i64> = Vec::new();
            let mut k: usize = 0;
            let mut pos: usize = 0;
            while k < count
                invariant
                    k <= count,
                    pos == 8 * k,
                    n == p@.len(),
                    n == 8 * count,
                    v@.len() == k,
                    forall|j: int| 0 <= j < k ==> v@[j] == le_i64(
                        p@.subrange(8 * j, 8 * j + 8),
                    ) as i64,
                decreases count - k,
            {
                let x = read_le_i64(p, pos);
                v.push(x);
                k = k + 1;
                pos = pos + 8;
            }
            proof {
                assert(v@ =~= Seq::new(
                    p@.len() / 8,
                    |j: int| le_i64(p@.subrange(8 * j, 8 * j + 8)) as i64,
                ));
            }
            Ok(Payload::Int64Array(v))
        },
        TypeTag::Float32Array => {
            if n % 4 != 0 {
                return Err(FormatError::BadPayload);
            }
            let count = n / 4;
            let mut v: Vec<u32> = Vec::new();
            let mut k: usize = 0;
            let mut pos: usize = 0;
            while k < count
                invariant
                    k <= count,
                    pos == 4 * k,
                    n == p@.len(),
                    n == 4 * count,
                    v@.len() == k,
                    forall|j: int| 0 <= j < k ==> v@[j] == le_int(
                        p@.subrange(4 * j, 4 * j + 4),
                    ) as u32,
                decreases count - k,
            {
                let x = read_le_bounded(p, pos, 4);
                proof {
                    assert(pow256(4) == 0x100000000) by {
                        reveal_with_fuel(pow256, 5);
                    }
                }
                v.push(x as u32);
                k = k + 1;
                pos = pos + 4;
            }
            proof {
                assert(v@ =~= Seq::new(
                    p@.len() / 4,
                    |j: int| le_int(p@.subrange(4 * j, 4 * j + 4)) as u32,
                ));
            }
            Ok(Payload::Float32Array(v))
        },
        TypeTag::DoubleArray => {
            if n % 8 != 0 {
                return Err(FormatError::BadPayload);
            }
            let count = n / 8;
            let mut v: Vec<u64> = Vec::new();
            let mut k: usize = 0;
            let mut pos: usize = 0;
            while k < count
                invariant
                    k <= count,
                    pos == 8 * k,
                    n == p@.len(),
                    n == 8 * count,
                    v@.len() == k,
                    forall|j: int| 0 <= j < k ==> v@[j] == le_int(p@.subrange(8 * j, 8 * j + 8)),
                decreases count - k,
            {
                let x = read_le_bounded(p, pos, 8);
                v.push(x);
                k = k + 1;
                pos = pos + 8;
            }
            proof {
                assert(v@ =~= Seq::new(
                    p@.len() / 8,
                    |j: int| le_int(p@.subrange(8 * j, 8 * j + 8)) as u64,
                ));
            }
            Ok(Payload::DoubleArray(v))
        },
        TypeTag::StringArray => {
            match parse_string_array(p) {
                Ok(v) => Ok(Payload::StringArray(v)),
                Err(e) => Err(e),
            }
        },
        TypeTag::Struct => Ok(Payload::Struct(vstd::slice::slice_to_vec(p))),
        TypeTag::StructArray => Ok(Payload::StructArray(vstd::slice::slice_to_vec(p))),
        TypeTag::Raw => Ok(Payload::RawBytes(vstd::slice::slice_to_vec(p))),
    }
}

/// Model of a string list.
pub open spec fn strings_model(v: Seq<String>) -> Seq<Seq<char>> {
    v.map_values(|s: String| s@)
}

/// Parses a string-array payload: length-prefixed UTF-8 strings that
/// consume the payload exactly.
fn parse_string_array(p: &[u8]) -> (r: Result<Vec<String>, FormatError>)
    ensures
        r matches Ok(v) ==> spec_parse_strings(p@) == Ok::<Seq<Seq<char>>, FormatError>(strings_model(v@)),
        r matches Err(e) ==> spec_parse_strings(p@) == Err::<Seq<Seq<char>>, FormatError>(e),
{
    let n = p.len();
    let mut v: Vec<String> = Vec::new();
    let mut pos: usize = 0;
    proof {
        assert(p@.skip(0) =~= p@);
        assert(strings_model(v@) =~= Seq::<Seq<char>>::empty());
        if let Ok(rest) = spec_parse_strings(p@) {
            assert(strings_model(v@) + rest =~= rest);
        }
    }
    while pos < n
        invariant
            pos <= n,
            n == p@.len(),
            spec_parse_strings(p@) == (match spec_parse_strings(p@.skip(pos as int)) {
                Ok(rest) => Ok::<Seq<Seq<char>>, FormatError>(strings_model(v@) + rest),
                Err(e) => Err(e),
            }),
        decreases n - pos,
    {
        let ghost tail = p@.skip(pos as int);
        if n - pos < 4 {
            return Err(FormatError::BadPayload);
        }
        let slen64 = read_le_u32v(p, pos);
        proof {
            assert(tail.subrange(0, 4) =~= p@.subrange(pos as int, pos as int + 4));
        }
        if slen64 + 4 > (n - pos) as u64 {
            return Err(FormatError::BadPayload);
        }
        let slen = slen64 as usize;
        let sb = slice_subrange(p, pos + 4, pos + 4 + slen);
        proof {
            assert(sb@ =~= tail.subrange(4, 4 + slen as int));
        }
        match utf8_to_string(sb) {
            None => {
                return Err(FormatError::BadString);
            },
            Some(s) => {
                let ghost old_v = v@;
                v.push(s);
                pos = pos + 4 + slen;
                proof {
                    assert(p@.skip(pos as int) =~= tail.skip(4 + slen as int));
                    assert(strings_model(v@) =~= strings_model(old_v).push(s@));
                    if let Ok(rest) = spec_parse_strings(p@.skip(pos as int)) {
                        assert(strings_model(old_v) + (seq![s@] + rest) =~= strings_model(v@)
                            + rest);
                    }
                }
            },
        }
    }
    proof {
        assert(p@.skip(n as int) =~= Seq::<u8>::empty());
        assert(strings_model(v@) + Seq::<Seq<char>>::empty() =~= strings_model(v@));
    }
    Ok(v)
}

/// Parses the framed binary container into the entry table and the ordered
/// record list.
///
/// The decode is atomic: it yields the resolved table and the full ordered
/// record list exactly when the whole input parses, and yields the error
/// [`spec_decode`] assigns — with no partial output — otherwise.
pub fn decode(bytes: &[u8]) -> (r: Result<(Vec<LogEntry>, Vec<RawRecord>), FormatError>)
    ensures
        r matches Ok(out) ==> spec_decode(bytes@) == Ok::<DecodeModel, FormatError>(
            DecodeModel { table: table_model(out.0@), records: records_model(out.1@) },
        ),
        r matches Err(e) ==> spec_decode(bytes@) == Err::<DecodeModel, FormatError>(e),
{
    let n = bytes.len();
    if n < 12 {
        return Err(FormatError::Truncated);
    }
    if !(bytes[0] == 0x57 && bytes[1] == 0x50 && bytes[2] == 0x49 && bytes[3] == 0x4c && bytes[4]
        == 0x4f && bytes[5] == 0x47) {
        proof {
            assert(bytes@.subrange(0, 6) != magic_bytes());
        }
        return Err(FormatError::BadMagic);
    }
    proof {
        assert(bytes@.subrange(0, 6) =~= magic_bytes());
    }
    if !(bytes[6] == 0 && bytes[7] == 1) {
        return Err(FormatError::BadVersion);
    }
    let hlen64 = read_le_bounded(bytes, 8, 4);
    if hlen64 > (n - 12) as u64 {
        return Err(FormatError::Truncated);
    }
    let mut pos: usize = 12 + (hlen64 as usize);
    proof {
        assert(spec_parse_header(bytes@) == Ok::<int, FormatError>(pos as int));
    }
    let mut table: Vec<LogEntry> = Vec::new();
    let mut recs: Vec<RawRecord> = Vec::new();
    proof {
        assert(table_model(table@) =~= Seq::<EntryModel>::empty());
        assert(records_model(recs@) =~= Seq::<RecordModel>::empty());
    }
    while pos < n
        invariant
            pos <= n,
            n == bytes@.len(),
            spec_decode(bytes@) == spec_parse_records(
                bytes@,
                pos as int,
                table_model(table@),
                records_model(recs@),
            ),
        decreases n - pos,
    {
        let ghost t0 = table_model(table@);
        let ghost r0 = records_model(recs@);
        match parse_frame(bytes, pos) {
            Err(e) => {
                return Err(e);
            },
            Ok((entry_id, ts, ps, next)) => {
                let payload = slice_subrange(bytes, ps, next);
                if entry_id == 0 {
                    match parse_control(payload) {
                        Err(e) => {
                            return Err(e);
                        },
                        Ok(c) => {
                            apply_control(&mut table, c);
                            pos = next;
                        },
                    }
                } else {
                    let found = find_index(&table, entry_id);
                    proof {
                        lemma_find_entry(t0, entry_id);
                    }
                    match found {
                        Some(i) => {
                            if table[i].live {
                                let tag = classify(table[i].declared_type.as_str());
                                match parse_payload(tag, payload) {
                                    Err(e) => {
                                        return Err(e);
                                    },
                                    Ok(pv) => {
                                        let rec = RawRecord { entry_id, timestamp: ts, payload: pv };
                                        proof {
                                            assert(records_model(recs@.push(rec)) =~= r0.push(
                                                rec@,
                                            ));
                                        }
                                        recs.push(rec);
                                        pos = next;
                                    },
                                }
                            } else {
                                pos = next;
                            }
                        },
                        None => {
                            pos = next;
                        },
                    }
                }
            },
        }
    }
    Ok((table, recs))
}


/// A schema-dependent payload never fails to parse: whatever bytes a
/// `struct`-typed or `struct`-array-typed record carries, the decode keeps
/// them opaquely rather than erroring.
pub proof fn lemma_struct_payload_total(p: Seq<u8>)
    ensures
        spec_parse_payload(TypeTag::Struct, p) == Ok::<PayloadModel, FormatError>(
            PayloadModel::Struct(p),
        ),
        spec_parse_payload(TypeTag::StructArray, p) == Ok::<PayloadModel, FormatError>(
            PayloadModel::StructArray(p),
        ),
{
}

} // verus!
