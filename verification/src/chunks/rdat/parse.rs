//! RDAT parser.
//!
//! A versioned chunk starts with its version and its part count, followed by the offset of each part. A
//! legacy chunk starts with its part count alone, and its parts follow one behind the other. A part has its
//! type, its size and its data, filled up to a whole word. The data of a record table starts with the record
//! count and the record stride.
use super::types::{part_models, record_models, PartModel, PartType, RdatPart, RuntimeData, RDAT_VERSION_10};
use crate::bytes::{copied_span, le32, padding4, read_u32};
use vstd::prelude::*;

verus! {

/// A part of this stored type is a table of records. Types from thirteen to twenty-one are tables that are
/// not known yet.
pub open spec fn table_type(part_type: u32) -> bool {
    match PartType::of(part_type) {
        Some(t) => t.holds_records(),
        None => 13 <= part_type <= 21,
    }
}

fn is_record_table(part_type: u32) -> (r: bool)
    ensures
        r == table_type(part_type),
{
    match PartType::from_u32(part_type) {
        Some(t) => t.is_record_table(),
        None => 13 <= part_type && part_type <= 21,
    }
}

/// How many records a table holds: as many as it counts, as far as its bytes hold them whole.
pub open spec fn record_count(data: Seq<u8>) -> nat {
    let count = le32(data, 0) as int;
    let stride = le32(data, 4) as int;
    if count * stride + 8 <= data.len() {
        count as nat
    } else {
        ((data.len() - 8) / stride) as nat
    }
}

/// The records of a table.
pub open spec fn records_of(data: Seq<u8>) -> Seq<Seq<u8>> {
    let stride = le32(data, 4) as int;
    Seq::new(record_count(data), |i: int| data.subrange(8 + i * stride, 8 + i * stride + stride))
}

/// The words that bytes hold, as far as they are whole.
pub open spec fn words_of(data: Seq<u8>) -> Seq<u32> {
    Seq::new(data.len() / 4, |i: int| le32(data, 4 * i))
}

/// The part of a type and its data. A record table too short for its header gives none.
pub open spec fn part_of(part_type: u32, data: Seq<u8>) -> Option<PartModel> {
    if part_type == 1 {
        Some(PartModel::StringBuffer(data))
    } else if part_type == 2 {
        Some(PartModel::IndexArrays(words_of(data)))
    } else if part_type == 5 {
        Some(PartModel::RawBytes(data))
    } else if table_type(part_type) {
        if data.len() < 8 {
            None
        } else {
            Some(PartModel::RecordTable { part_type, record_stride: le32(data, 4), records: records_of(data) })
        }
    } else {
        Some(PartModel::Unknown { part_type, data })
    }
}

/// The part that starts at `at` lies within the data.
pub open spec fn part_fits_at(data: Seq<u8>, at: int) -> bool {
    at + 8 <= data.len() && at + 8 + le32(data, at + 4) <= data.len()
}

/// How far the reading of parts has come: the parts, where the next one of a legacy chunk starts, and
/// whether every part so far lay within the data.
pub struct Progress {
    pub parts: Seq<PartModel>,
    pub next: int,
    pub going: bool,
}

/// Where a part starts.
pub open spec fn part_start(data: Seq<u8>, versioned: bool, at: int, next: int) -> int {
    if versioned {
        le32(data, 8 + 4 * at) as int
    } else {
        next
    }
}

/// The reading of the first `n` parts. It stops at a part that does not lie within the data, and fails at
/// one that cannot be read.
pub open spec fn parts_read(data: Seq<u8>, versioned: bool, n: nat) -> Option<Progress>
    decreases n,
{
    if n == 0 {
        Some(Progress { parts: Seq::empty(), next: 4, going: true })
    } else {
        match parts_read(data, versioned, (n - 1) as nat) {
            None => None,
            Some(p) => {
                let at = part_start(data, versioned, n - 1, p.next);
                if !p.going {
                    Some(p)
                } else if !part_fits_at(data, at) {
                    Some(Progress { parts: p.parts, next: p.next, going: false })
                } else {
                    let size = le32(data, at + 4) as nat;
                    match part_of(le32(data, at), data.subrange(at + 8, at + 8 + size)) {
                        None => None,
                        Some(part) => Some(
                            Progress {
                                parts: p.parts.push(part),
                                next: at + 8 + size + padding4(size),
                                going: true,
                            },
                        ),
                    }
                }
            },
        }
    }
}

/// The chunk states its version.
pub open spec fn is_versioned(data: Seq<u8>) -> bool {
    le32(data, 0) >= RDAT_VERSION_10
}

/// How many parts the chunk counts.
pub open spec fn part_count(data: Seq<u8>) -> nat {
    if is_versioned(data) {
        le32(data, 4) as nat
    } else {
        le32(data, 0) as nat
    }
}

/// The header is there: at least two words, and in a versioned chunk the offset of each part.
pub open spec fn has_header(data: Seq<u8>) -> bool {
    data.len() >= 8 && (is_versioned(data) ==> 8 + 4 * part_count(data) <= data.len())
}

/// What a chunk holds, where it can be read: its version and its parts.
pub open spec fn rdat_of(data: Seq<u8>) -> Option<(u32, Seq<PartModel>)> {
    if !has_header(data) {
        None
    } else {
        match parts_read(data, is_versioned(data), part_count(data)) {
            None => None,
            Some(p) => Some((if is_versioned(data) {
                le32(data, 0)
            } else {
                0
            }, p.parts)),
        }
    }
}

fn word(data: &[u8], at: u64) -> (r: u32)
    requires
        at + 4 <= data@.len(),
    ensures
        r == le32(data@, at as int),
{
    match read_u32(data, at) {
        Some(v) => v,
        None => 0,
    }
}

fn read_words(data: &[u8]) -> (r: Vec<u32>)
    ensures
        r@ == words_of(data@),
{
    let count: usize = data.len() / 4;
    let mut out: Vec<u32> = Vec::new();
    let mut i: usize = 0;
    while i < count
        invariant
            i <= count,
            count == data@.len() / 4,
            data@.len() <= usize::MAX,
            out@ == words_of(data@).take(i as int),
        decreases count - i,
    {
        out.push(word(data, 4 * i as u64));
        i = i + 1;
        proof {
            assert(out@ =~= words_of(data@).take(i as int));
        }
    }
    proof {
        assert(words_of(data@).take(i as int) =~= words_of(data@));
    }
    out
}

fn parse_record_table(data: &[u8], part_type: u32) -> (r: Option<RdatPart>)
    requires
        table_type(part_type),
        part_type != 1,
        part_type != 2,
        part_type != 5,
    ensures
        match r {
            Some(p) => part_of(part_type, data@) == Some(p@),
            None => part_of(part_type, data@) is None,
        },
{
    if data.len() < 8 {
        return None;
    }
    let count: u64 = word(data, 0) as u64;
    let record_stride: u32 = word(data, 4);
    let stride: u64 = record_stride as u64;
    let room: u64 = data.len() as u64 - 8;
    proof {
        let a = count as int;
        let b = stride as int;
        let m = room as int;
        assert(0 <= a * b <= 0xFFFF_FFFE_0000_0001) by (nonlinear_arith)
            requires
                0 <= a <= 0xFFFF_FFFF,
                0 <= b <= 0xFFFF_FFFF,
        ;
        assert(a * b > m ==> b > 0 && m / b >= 0 && (m / b) * b <= m && m / b <= a) by (nonlinear_arith)
            requires
                0 <= m,
                0 <= a,
                0 <= b,
        ;
    }
    let total: u64 = if count * stride <= room {
        count
    } else {
        room / stride
    };
    let mut records: Vec<Vec<u8>> = Vec::new();
    let mut i: u64 = 0;
    while i < total
        invariant
            i <= total,
            total <= 0xFFFF_FFFF,
            stride <= 0xFFFF_FFFF,
            stride == le32(data@, 4),
            total == record_count(data@),
            total * stride + 8 <= data@.len(),
            data@.len() <= usize::MAX,
            records@.len() == i,
            forall|k: int| 0 <= k < i ==> (#[trigger] records@[k])@ == records_of(data@)[k],
        decreases total - i,
    {
        proof {
            let a = i as int;
            let b = stride as int;
            let t = total as int;
            assert(0 <= a * b && a * b + b <= t * b) by (nonlinear_arith)
                requires
                    0 <= a < t,
                    0 <= b,
            ;
        }
        let start: u64 = 8 + i * stride;
        let end: u64 = start + stride;
        let one = copied_span(data, start as usize, end as usize);
        records.push(one);
        i = i + 1;
    }
    let r = RdatPart::RecordTable { part_type, record_stride, records };
    proof {
        assert(record_models(records@) =~= records_of(data@));
    }
    Some(r)
}

fn parse_part(part_type: u32, data: &[u8]) -> (r: Option<RdatPart>)
    ensures
        match r {
            Some(p) => part_of(part_type, data@) == Some(p@),
            None => part_of(part_type, data@) is None,
        },
{
    match part_type {
        1 => Some(RdatPart::StringBuffer(crate::bytes::copied(data))),
        2 => Some(RdatPart::IndexArrays(read_words(data))),
        5 => Some(RdatPart::RawBytes(crate::bytes::copied(data))),
        _ => if is_record_table(part_type) {
            parse_record_table(data, part_type)
        } else {
            Some(RdatPart::Unknown { part_type, data: crate::bytes::copied(data) })
        },
    }
}

/// Parse an RDAT chunk.
pub fn parse_rdat(data: &[u8]) -> (r: Option<RuntimeData>)
    ensures
        match r {
            Some(v) => rdat_of(data@) == Some((v.version, part_models(v.parts@))),
            None => rdat_of(data@) is None,
        },
{
    if data.len() < 8 {
        return None;
    }
    let first: u32 = word(data, 0);
    let versioned: bool = first >= RDAT_VERSION_10;
    let version: u32 = if versioned {
        first
    } else {
        0
    };
    let count: u64 = if versioned {
        word(data, 4) as u64
    } else {
        first as u64
    };
    let len: u64 = data.len() as u64;
    if versioned && (len - 8) / 4 < count {
        return None;
    }
    let mut parts: Vec<RdatPart> = Vec::new();
    let mut next: u64 = 4;
    let mut going: bool = true;
    let mut i: u64 = 0;
    proof {
        assert(part_models(parts@) =~= Seq::empty());
    }
    while i < count && going
        invariant
            i <= count,
            count <= 0xFFFF_FFFF,
            len == data@.len(),
            len <= usize::MAX,
            versioned == is_versioned(data@),
            versioned ==> 8 + 4 * count <= len,
            count == part_count(data@),
            parts_read(data@, versioned, i as nat) matches Some(p) && p.parts == part_models(parts@) && p.going == going
                && (p.next == next || (p.next + 8 > len && next + 8 > len)),
        decreases count - i,
    {
        let at: u64 = if versioned {
            word(data, 8 + 4 * i) as u64
        } else {
            next
        };
        let fits: bool = at <= len && len - at >= 8 && len - at - 8 >= word(data, at + 4) as u64;
        if !fits {
            going = false;
        } else {
            let part_type: u32 = word(data, at);
            let size: u64 = word(data, at + 4) as u64;
            let held = copied_span(data, (at + 8) as usize, (at + 8 + size) as usize);
            match parse_part(part_type, held.as_slice()) {
                None => {
                    proof {
                        lemma_parts_fail(data@, versioned, (i + 1) as nat, count as nat);
                    }
                    return None;
                },
                Some(part) => {
                    let ghost before = part_models(parts@);
                    let ghost m = part@;
                    parts.push(part);
                    proof {
                        assert(part_models(parts@) =~= before.push(m));
                    }
                    let end: u64 = at + 8 + size;
                    let pad: u64 = (4 - size % 4) % 4;
                    next = if end <= u64::MAX - 3 {
                        end + pad
                    } else {
                        u64::MAX
                    };
                },
            }
        }
        i = i + 1;
    }
    proof {
        lemma_parts_stop(data@, versioned, i as nat, count as nat);
    }
    Some(RuntimeData { version, parts })
}

proof fn lemma_parts_fail(data: Seq<u8>, versioned: bool, m: nat, n: nat)
    requires
        m <= n,
        parts_read(data, versioned, m) is None,
    ensures
        parts_read(data, versioned, n) is None,
    decreases n,
{
    if m < n {
        lemma_parts_fail(data, versioned, m, (n - 1) as nat);
    }
}

proof fn lemma_parts_stop(data: Seq<u8>, versioned: bool, m: nat, n: nat)
    requires
        m <= n,
        parts_read(data, versioned, m) matches Some(p) && (m < n ==> !p.going),
    ensures
        parts_read(data, versioned, n) matches Some(q) && q.parts == parts_read(data, versioned, m)->0.parts,
    decreases n,
{
    if m < n {
        if m < n - 1 {
            lemma_parts_stop(data, versioned, m, (n - 1) as nat);
            lemma_stopped_stays(data, versioned, m, (n - 1) as nat);
        }
    }
}

proof fn lemma_stopped_stays(data: Seq<u8>, versioned: bool, m: nat, n: nat)
    requires
        m <= n,
        parts_read(data, versioned, m) matches Some(p) && !p.going,
    ensures
        parts_read(data, versioned, n) == parts_read(data, versioned, m),
    decreases n,
{
    if m < n {
        lemma_stopped_stays(data, versioned, m, (n - 1) as nat);
    }
}

} // verus!
