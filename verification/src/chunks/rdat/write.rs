//! RDAT writer.
use super::parse::{part_fits_at, part_of, parts_read, rdat_of, records_of, table_type, words_of, Progress};
use super::types::{part_models, record_models, PartModel, RdatPart, RuntimeData, RDAT_VERSION_10};
use crate::bytes::{
    copied, flat, le32, lemma_flat_joined, lemma_flat_len, lemma_flat_reads, padding4, push_all, push_words, push_zeros, zeros,
};
use vstd::prelude::*;

verus! {

/// A record filled up with zeros to the stride.
pub open spec fn record_bytes(record: Seq<u8>, stride: u32) -> Seq<u8> {
    record + (if record.len() < stride {
        zeros((stride - record.len()) as nat)
    } else {
        Seq::<u8>::empty()
    })
}

/// The first `n` records, each filled up to the stride.
pub open spec fn records_bytes(records: Seq<Seq<u8>>, stride: u32, n: nat) -> Seq<u8>
    decreases n,
{
    if n == 0 {
        Seq::empty()
    } else {
        records_bytes(records, stride, (n - 1) as nat) + record_bytes(records[n - 1], stride)
    }
}

/// The data of a part.
pub open spec fn part_data(part: PartModel) -> Seq<u8> {
    match part {
        PartModel::StringBuffer(buf) => buf,
        PartModel::IndexArrays(indices) => flat(indices),
        PartModel::RawBytes(buf) => buf,
        PartModel::RecordTable { record_stride, records, .. } => flat(seq![records.len() as u32, record_stride])
            + records_bytes(records, record_stride, records.len()),
        PartModel::Unknown { data, .. } => data,
    }
}

/// The stored type of a part.
pub open spec fn part_type_of(part: PartModel) -> u32 {
    match part {
        PartModel::StringBuffer(_) => 1,
        PartModel::IndexArrays(_) => 2,
        PartModel::RawBytes(_) => 5,
        PartModel::RecordTable { part_type, .. } => part_type,
        PartModel::Unknown { part_type, .. } => part_type,
    }
}

/// A part: its type, its size and its data, filled up to a whole word.
pub open spec fn part_bytes(part: PartModel) -> Seq<u8> {
    flat(seq![part_type_of(part), part_data(part).len() as u32]) + part_data(part) + zeros(
        padding4(part_data(part).len()),
    )
}

/// The first `n` parts.
pub open spec fn parts_bytes(parts: Seq<PartModel>, n: nat) -> Seq<u8>
    decreases n,
{
    if n == 0 {
        Seq::empty()
    } else {
        parts_bytes(parts, (n - 1) as nat) + part_bytes(parts[n - 1])
    }
}

/// How many bytes stand before the parts of a versioned chunk.
pub open spec fn header_size(count: nat) -> nat {
    8 + 4 * count
}

/// Where a part of a versioned chunk stands.
pub open spec fn part_place(parts: Seq<PartModel>, at: nat) -> nat {
    header_size(parts.len()) + parts_bytes(parts, at).len()
}

/// The offsets of the first `n` parts.
pub open spec fn offsets(parts: Seq<PartModel>, n: nat) -> Seq<u32> {
    Seq::new(n, |i: int| part_place(parts, i as nat) as u32)
}

/// The offsets reach every part.
pub open spec fn parts_reached(parts: Seq<PartModel>) -> bool {
    forall|i: nat| i < parts.len() ==> #[trigger] part_place(parts, i) <= u32::MAX
}

/// The payload of a chunk of a version with these parts.
pub open spec fn rdat_bytes(version: u32, parts: Seq<PartModel>) -> Seq<u8> {
    if version >= RDAT_VERSION_10 {
        flat(seq![version, parts.len() as u32]) + flat(offsets(parts, parts.len())) + parts_bytes(parts, parts.len())
    } else {
        flat(seq![parts.len() as u32]) + parts_bytes(parts, parts.len())
    }
}

fn push_records(out: &mut Vec<u8>, records: &Vec<Vec<u8>>, stride: u32)
    ensures
        final(out)@ == old(out)@ + records_bytes(record_models(records@), stride, records@.len()),
{
    let ghost start = out@;
    let ghost all = record_models(records@);
    let mut i: usize = 0;
    proof {
        assert(out@ =~= start + records_bytes(all, stride, 0));
    }
    while i < records.len()
        invariant
            i <= records@.len(),
            all == record_models(records@),
            out@ == start + records_bytes(all, stride, i as nat),
        decreases records@.len() - i,
    {
        let len: usize = records[i].len();
        push_all(out, records[i].as_slice());
        if (len as u64) < stride as u64 {
            push_zeros(out, (stride as u64 - len as u64) as usize);
        }
        i = i + 1;
        proof {
            assert(out@ =~= start + records_bytes(all, stride, i as nat));
        }
    }
}

fn write_part_data(part: &RdatPart) -> (r: Vec<u8>)
    ensures
        r@ == part_data(part@),
{
    match part {
        RdatPart::StringBuffer(buf) => copied(buf.as_slice()),
        RdatPart::IndexArrays(indices) => {
            let mut out: Vec<u8> = Vec::new();
            push_words(&mut out, indices.as_slice());
            proof {
                assert(out@ =~= flat(indices@));
            }
            out
        },
        RdatPart::RawBytes(buf) => copied(buf.as_slice()),
        RdatPart::RecordTable { record_stride, records, .. } => {
            let mut out: Vec<u8> = Vec::new();
            let head: [u32; 2] = [records.len() as u32, *record_stride];
            push_words(&mut out, &head);
            push_records(&mut out, records, *record_stride);
            proof {
                assert(head@ =~= seq![records@.len() as u32, *record_stride]);
                assert(out@ =~= part_data(part@));
            }
            out
        },
        RdatPart::Unknown { data, .. } => copied(data.as_slice()),
    }
}

fn part_type_id(part: &RdatPart) -> (r: u32)
    ensures
        r == part_type_of(part@),
{
    match part {
        RdatPart::StringBuffer(_) => 1,
        RdatPart::IndexArrays(_) => 2,
        RdatPart::RawBytes(_) => 5,
        RdatPart::RecordTable { part_type, .. } => *part_type,
        RdatPart::Unknown { part_type, .. } => *part_type,
    }
}

fn push_part(out: &mut Vec<u8>, part: &RdatPart)
    ensures
        final(out)@ == old(out)@ + part_bytes(part@),
{
    let ghost start = out@;
    let data = write_part_data(part);
    let len: usize = data.len();
    let head: [u32; 2] = [part_type_id(part), len as u32];
    push_words(out, &head);
    push_all(out, data.as_slice());
    push_zeros(out, (4 - len % 4) % 4);
    proof {
        assert(head@ =~= seq![part_type_of(part@), part_data(part@).len() as u32]);
        assert(out@ =~= start + part_bytes(part@));
    }
}

/// The payload can be counted.
pub open spec fn countable(parts: Seq<PartModel>) -> bool {
    header_size(parts.len()) + parts_bytes(parts, parts.len()).len() <= usize::MAX
}

proof fn lemma_parts_grow(parts: Seq<PartModel>, m: nat, n: nat)
    requires
        m <= n,
    ensures
        parts_bytes(parts, m).len() <= parts_bytes(parts, n).len(),
    decreases n,
{
    if m < n {
        lemma_parts_grow(parts, m, (n - 1) as nat);
    }
}

/// Write an RDAT chunk: in the layout with offsets where it has a version, else in the legacy layout.
pub fn write_rdat(rdat: &RuntimeData) -> (r: Vec<u8>)
    requires
        countable(part_models(rdat.parts@)),
    ensures
        r@ == rdat_bytes(rdat.version, part_models(rdat.parts@)),
{
    let ghost all = part_models(rdat.parts@);
    let count: usize = rdat.parts.len();
    let mut body: Vec<u8> = Vec::new();
    let mut places: Vec<u32> = Vec::new();
    let mut i: usize = 0;
    proof {
        assert(body@ =~= parts_bytes(all, 0));
        assert(places@ =~= offsets(all, 0));
    }
    while i < count
        invariant
            i <= count,
            count == rdat.parts@.len(),
            all == part_models(rdat.parts@),
            countable(all),
            body@ == parts_bytes(all, i as nat),
            places@ == offsets(all, i as nat),
        decreases count - i,
    {
        proof {
            lemma_parts_grow(all, i as nat, all.len());
        }
        places.push((8 + 4 * count + body.len()) as u32);
        push_part(&mut body, &rdat.parts[i]);
        i = i + 1;
        proof {
            assert(places@ =~= offsets(all, i as nat));
        }
    }
    let mut out: Vec<u8> = Vec::new();
    if rdat.version >= RDAT_VERSION_10 {
        let head: [u32; 2] = [rdat.version, count as u32];
        push_words(&mut out, &head);
        push_words(&mut out, places.as_slice());
        proof {
            assert(head@ =~= seq![rdat.version, all.len() as u32]);
        }
    } else {
        let head: [u32; 1] = [count as u32];
        push_words(&mut out, &head);
        proof {
            assert(head@ =~= seq![all.len() as u32]);
        }
    }
    push_all(&mut out, body.as_slice());
    proof {
        assert(out@ =~= rdat_bytes(rdat.version, all));
    }
    out
}

/// A part can be told from its type and its data: a table has a type of tables and whole records, an unknown
/// part has a type that is not known, and the counts fit their words.
pub open spec fn part_fits(part: PartModel) -> bool {
    &&& part_data(part).len() <= u32::MAX
    &&& match part {
        PartModel::RecordTable { part_type, record_stride, records } => table_type(part_type) && records.len()
            <= u32::MAX && forall|i: int| 0 <= i < records.len() ==> (#[trigger] records[i]).len() == record_stride,
        PartModel::Unknown { part_type, .. } => !table_type(part_type) && part_type != 1 && part_type != 2
            && part_type != 5,
        _ => true,
    }
}

proof fn lemma_records_stand(records: Seq<Seq<u8>>, stride: u32, n: nat)
    requires
        n <= records.len(),
        forall|i: int| 0 <= i < records.len() ==> (#[trigger] records[i]).len() == stride,
    ensures
        records_bytes(records, stride, n).len() == n * stride,
        forall|i: int|
            0 <= i < n ==> records_bytes(records, stride, n).subrange(i * stride, i * stride + stride)
                == #[trigger] records[i],
    decreases n,
{
    let w = stride as int;
    if n == 0 {
        assert(0 * w == 0) by (nonlinear_arith);
    } else {
        let m = (n - 1) as nat;
        lemma_records_stand(records, stride, m);
        let before = records_bytes(records, stride, m);
        let all = records_bytes(records, stride, n);
        assert(record_bytes(records[m as int], stride) =~= records[m as int]);
        assert(m * w + w == n * w) by (nonlinear_arith)
            requires
                n == m + 1,
        ;
        assert forall|i: int| 0 <= i < n implies all.subrange(i * w, i * w + w) == #[trigger] records[i] by {
            if i < m {
                assert(0 <= i * w && i * w + w <= m * w) by (nonlinear_arith)
                    requires
                        0 <= i < m,
                        w >= 0,
                ;
                assert(all.subrange(i * w, i * w + w) =~= before.subrange(i * w, i * w + w));
            } else {
                assert(all.subrange(i * w, i * w + w) =~= records[i]);
            }
        }
    }
}

proof fn lemma_table_comes_back(part_type: u32, stride: u32, records: Seq<Seq<u8>>)
    requires
        table_type(part_type),
        records.len() <= u32::MAX,
        forall|i: int| 0 <= i < records.len() ==> (#[trigger] records[i]).len() == stride,
    ensures
        ({
            let part = PartModel::RecordTable { part_type, record_stride: stride, records };
            part_data(part).len() >= 8 && le32(part_data(part), 4) == stride && records_of(part_data(part)) == records
        }),
{
    let part = PartModel::RecordTable { part_type, record_stride: stride, records };
    let data = part_data(part);
    let n = records.len();
    let head = seq![n as u32, stride];
    let rest = records_bytes(records, stride, n);
    lemma_flat_len(head);
    lemma_records_stand(records, stride, n);
    assert(data =~= Seq::<u8>::empty() + flat(head) + rest);
    lemma_flat_reads(Seq::empty(), head, rest);
    assert(le32(data, 4int * 0) == head[0]);
    assert(le32(data, 4int * 1) == head[1]);
    let got = records_of(data);
    let w = stride as int;
    assert forall|i: int| 0 <= i < n implies got[i] == #[trigger] records[i] by {
        assert(0 <= i * w && i * w + w <= n * w) by (nonlinear_arith)
            requires
                0 <= i < n,
                w >= 0,
        ;
        assert(data.subrange(8 + i * w, 8 + i * w + w) =~= rest.subrange(i * w, i * w + w));
    }
    assert(got =~= records);
}

/// The part that a part's type and data stand for is the part.
proof fn lemma_part_comes_back(part: PartModel)
    requires
        part_fits(part),
    ensures
        part_of(part_type_of(part), part_data(part)) == Some(part),
{
    match part {
        PartModel::IndexArrays(indices) => {
            let data = flat(indices);
            lemma_flat_len(indices);
            lemma_flat_reads(Seq::empty(), indices, Seq::empty());
            assert(Seq::<u8>::empty() + data + Seq::<u8>::empty() =~= data);
            let got = words_of(data);
            assert forall|i: int| 0 <= i < indices.len() implies got[i] == #[trigger] indices[i] by {
                assert(le32(data, 0 + 4 * i) == indices[i]);
            }
            assert(got =~= indices);
        },
        PartModel::RecordTable { part_type, record_stride, records } => {
            lemma_table_comes_back(part_type, record_stride, records);
        },
        _ => {},
    }
}

/// The bytes of a part, read where they stand.
proof fn lemma_part_reads(data: Seq<u8>, part: PartModel, at: int)
    requires
        0 <= at,
        at + part_bytes(part).len() <= data.len(),
        data.subrange(at, at + part_bytes(part).len()) == part_bytes(part),
        part_fits(part),
    ensures
        part_fits_at(data, at),
        le32(data, at) == part_type_of(part),
        le32(data, at + 4) == part_data(part).len(),
        data.subrange(at + 8, at + 8 + part_data(part).len()) == part_data(part),
        part_bytes(part).len() == 8 + part_data(part).len() + padding4(part_data(part).len()),
{
    let head = seq![part_type_of(part), part_data(part).len() as u32];
    let held = part_data(part);
    let part_all = part_bytes(part);
    lemma_flat_len(head);
    let prefix = data.subrange(0, at);
    let rest = data.subrange(at + 8, data.len() as int);
    assert(part_all.subrange(0, 8) =~= flat(head));
    assert(data =~= prefix + flat(head) + rest) by {
        assert forall|i: int| at <= i < at + 8 implies data[i] == flat(head)[i - at] by {
            assert(data.subrange(at, at + part_all.len())[i - at] == data[i]);
            assert(part_all[i - at] == part_all.subrange(0, 8)[i - at]);
        }
    }
    lemma_flat_reads(prefix, head, rest);
    assert(le32(data, at + 4 * 0) == head[0]);
    assert(le32(data, at + 4 * 1) == head[1]);
    assert(part_all.subrange(8, 8int + held.len()) =~= held);
    assert(data.subrange(at + 8, at + 8 + held.len()) =~= part_all.subrange(8, 8int + held.len())) by {
        assert forall|i: int| 0 <= i < held.len() implies #[trigger] data[at + 8 + i] == part_all[8 + i] by {
            assert(data.subrange(at, at + part_all.len())[8 + i] == data[at + 8 + i]);
        }
    }
}

proof fn lemma_parts_stand(parts: Seq<PartModel>, i: nat, n: nat)
    requires
        i < n <= parts.len(),
    ensures
        ({
            let at = parts_bytes(parts, i).len() as int;
            let w = part_bytes(parts[i as int]).len() as int;
            &&& at + w <= parts_bytes(parts, n).len()
            &&& parts_bytes(parts, n).subrange(at, at + w) == part_bytes(parts[i as int])
            &&& parts_bytes(parts, i + 1).len() == at + w
        }),
    decreases n,
{
    let at = parts_bytes(parts, i).len() as int;
    let w = part_bytes(parts[i as int]).len() as int;
    let all = parts_bytes(parts, n);
    let before = parts_bytes(parts, (n - 1) as nat);
    if i < n - 1 {
        lemma_parts_stand(parts, i, (n - 1) as nat);
        assert(all.subrange(at, at + w) =~= before.subrange(at, at + w));
    } else {
        assert(all.subrange(at, at + w) =~= part_bytes(parts[i as int]));
    }
}

/// The offset that a payload gives for a part.
spec fn offset_word(data: Seq<u8>, i: int) -> u32 {
    le32(data, 8 + 4 * i)
}

/// The parts stand behind the first `start` bytes.
spec fn body_stands(data: Seq<u8>, parts: Seq<PartModel>, start: nat) -> bool {
    &&& start + parts_bytes(parts, parts.len()).len() == data.len()
    &&& data.subrange(start as int, data.len() as int) == parts_bytes(parts, parts.len())
}

proof fn lemma_part_stands(data: Seq<u8>, parts: Seq<PartModel>, start: nat, m: nat)
    requires
        m < parts.len(),
        body_stands(data, parts, start),
        part_fits(parts[m as int]),
    ensures
        ({
            let at = (start + parts_bytes(parts, m).len()) as int;
            let part = parts[m as int];
            &&& part_fits_at(data, at)
            &&& le32(data, at) == part_type_of(part)
            &&& le32(data, at + 4) == part_data(part).len()
            &&& data.subrange(at + 8, at + 8 + part_data(part).len()) == part_data(part)
            &&& at + 8 + part_data(part).len() + padding4(part_data(part).len()) == start + parts_bytes(parts, m + 1).len()
        }),
{
    let part = parts[m as int];
    let at = (start + parts_bytes(parts, m).len()) as int;
    lemma_parts_stand(parts, m, parts.len());
    let w = part_bytes(part).len() as int;
    let body = parts_bytes(parts, parts.len());
    let off = parts_bytes(parts, m).len() as int;
    assert(data.subrange(at, at + w) =~= body.subrange(off, off + w)) by {
        assert forall|i: int| 0 <= i < w implies #[trigger] data[at + i] == body[off + i] by {
            assert(data.subrange(start as int, data.len() as int)[off + i] == data[start + off + i]);
        }
    }
    lemma_part_reads(data, part, at);
}

/// Reading the parts of a payload goes through all of them.
proof fn lemma_parts_come_back(data: Seq<u8>, parts: Seq<PartModel>, versioned: bool, start: nat, n: nat)
    requires
        n <= parts.len(),
        forall|i: int| 0 <= i < parts.len() ==> part_fits(#[trigger] parts[i]),
        body_stands(data, parts, start),
        !versioned ==> start == 4,
        versioned ==> forall|i: int|
            0 <= i < parts.len() ==> #[trigger] offset_word(data, i) == start + parts_bytes(parts, i as nat).len(),
    ensures
        parts_read(data, versioned, n) == Some(
            Progress {
                parts: parts.take(n as int),
                next: parts_read(data, versioned, n)->0.next,
                going: true,
            },
        ),
        !versioned ==> parts_read(data, versioned, n)->0.next == start + parts_bytes(parts, n).len(),
    decreases n,
{
    if n == 0 {
        assert(parts.take(0) =~= Seq::empty());
    } else {
        let m = (n - 1) as nat;
        lemma_parts_come_back(data, parts, versioned, start, m);
        let p = parts_read(data, versioned, m)->0;
        let at = super::parse::part_start(data, versioned, m as int, p.next);
        let part = parts[m as int];
        if versioned {
            assert(offset_word(data, m as int) == start + parts_bytes(parts, m).len());
        }
        assert(at == start + parts_bytes(parts, m).len());
        lemma_part_stands(data, parts, start, m);
        lemma_part_comes_back(part);
        assert(parts.take(n as int) =~= parts.take(m as int).push(part));
    }
}

proof fn lemma_versioned_comes_back(version: u32, parts: Seq<PartModel>)
    requires
        forall|i: int| 0 <= i < parts.len() ==> part_fits(#[trigger] parts[i]),
        parts_reached(parts),
        version >= RDAT_VERSION_10,
    ensures
        rdat_of(rdat_bytes(version, parts)) == Some((version, parts)),
{
    let data = rdat_bytes(version, parts);
    let n = parts.len();
    let body = parts_bytes(parts, n);
    let head = seq![version, n as u32];
    let places = offsets(parts, n);
    let words = head + places;
    let start = header_size(n);
    lemma_flat_len(head);
    lemma_flat_len(places);
    lemma_flat_joined(head, places);
    if n > 0 {
        assert(part_place(parts, 0) <= u32::MAX);
    }
    assert(data =~= Seq::<u8>::empty() + flat(words) + body);
    lemma_flat_reads(Seq::empty(), words, body);
    assert(le32(data, 4int * 0) == words[0]);
    assert(le32(data, 4int * 1) == words[1]);
    assert(data.subrange(start as int, data.len() as int) =~= body);
    assert forall|i: int| 0 <= i < n implies #[trigger] offset_word(data, i) == start + parts_bytes(
        parts,
        i as nat,
    ).len() by {
        assert(part_place(parts, i as nat) <= u32::MAX);
        assert(words[2 + i] == places[i]);
        assert(le32(data, 0 + 4 * (2 + i)) == words[2 + i]);
    }
    lemma_parts_come_back(data, parts, true, start, n);
    assert(parts.take(n as int) =~= parts);
}

proof fn lemma_legacy_comes_back(parts: Seq<PartModel>)
    requires
        forall|i: int| 0 <= i < parts.len() ==> part_fits(#[trigger] parts[i]),
        0 < parts.len() < RDAT_VERSION_10,
    ensures
        rdat_of(rdat_bytes(0, parts)) == Some((0u32, parts)),
{
    let data = rdat_bytes(0, parts);
    let n = parts.len();
    let body = parts_bytes(parts, n);
    let head = seq![n as u32];
    lemma_flat_len(head);
    assert(data =~= Seq::<u8>::empty() + flat(head) + body);
    lemma_flat_reads(Seq::empty(), head, body);
    assert(le32(data, 4int * 0) == head[0]);
    assert(data.subrange(4, data.len() as int) =~= body);
    lemma_parts_stand(parts, 0, n);
    lemma_flat_len(seq![part_type_of(parts[0]), part_data(parts[0]).len() as u32]);
    lemma_parts_come_back(data, parts, false, 4, n);
    assert(parts.take(n as int) =~= parts);
}

/// Parsing what was written gives the version and the parts back, where each part can be told from its type
/// and data and the offsets of a versioned chunk reach every part. A legacy chunk has no version, at least
/// one part, and fewer than would make it look like a version.
pub proof fn law_runtime_data_comes_back(version: u32, parts: Seq<PartModel>)
    requires
        forall|i: int| 0 <= i < parts.len() ==> part_fits(#[trigger] parts[i]),
        version >= RDAT_VERSION_10 ==> parts_reached(parts),
        version < RDAT_VERSION_10 ==> version == 0 && 0 < parts.len() < RDAT_VERSION_10,
    ensures
        rdat_of(rdat_bytes(version, parts)) == Some((version, parts)),
{
    if version >= RDAT_VERSION_10 {
        lemma_versioned_comes_back(version, parts);
    } else {
        lemma_legacy_comes_back(parts);
    }
}

/// A part that was read from a type and data can be told from its own.
proof fn lemma_part_readable(part_type: u32, data: Seq<u8>)
    requires
        data.len() <= u32::MAX,
        part_of(part_type, data) is Some,
    ensures
        part_fits(part_of(part_type, data)->0),
{
    let part = part_of(part_type, data)->0;
    match part {
        PartModel::IndexArrays(indices) => {
            lemma_flat_len(indices);
        },
        PartModel::RecordTable { record_stride, records, .. } => {
            let w = record_stride as int;
            let count = le32(data, 0) as int;
            let n = records.len();
            assert(n * w + 8 <= data.len() && n <= u32::MAX) by {
                if count * w + 8 > data.len() {
                    assert(w != 0) by (nonlinear_arith)
                        requires
                            count * w + 8 > data.len(),
                            data.len() >= 8,
                    ;
                    let room = data.len() - 8;
                    assert(room / w * w <= room && room / w <= room) by (nonlinear_arith)
                        requires
                            w > 0,
                            room >= 0,
                    ;
                }
            }
            assert forall|i: int| 0 <= i < records.len() implies (#[trigger] records[i]).len() == record_stride by {
                assert(0 <= i * w && i * w + w <= n * w) by (nonlinear_arith)
                    requires
                        0 <= i < n,
                        w >= 0,
                ;
            }
            lemma_flat_len(seq![n as u32, record_stride]);
            lemma_records_stand(records, record_stride, n);
        },
        _ => {},
    }
}

/// The parts that are read from a chunk can be told from their types and data.
proof fn lemma_parts_readable(data: Seq<u8>, versioned: bool, n: nat)
    requires
        parts_read(data, versioned, n) is Some,
    ensures
        parts_read(data, versioned, n)->0.parts.len() <= n,
        parts_read(data, versioned, n)->0.next >= 0,
        forall|i: int|
            0 <= i < parts_read(data, versioned, n)->0.parts.len() ==> part_fits(
                #[trigger] parts_read(data, versioned, n)->0.parts[i],
            ),
    decreases n,
{
    if n > 0 {
        lemma_parts_readable(data, versioned, (n - 1) as nat);
        let p = parts_read(data, versioned, (n - 1) as nat)->0;
        let at = super::parse::part_start(data, versioned, n - 1, p.next);
        if p.going && part_fits_at(data, at) {
            let size = le32(data, at + 4) as nat;
            lemma_part_readable(le32(data, at), data.subrange(at + 8, at + 8 + size));
        }
    }
}

/// Whatever is read from a chunk can be written, where the offsets reach every part, and reading what was written gives
/// it back. A legacy chunk has at least one part.
pub proof fn law_parsed_runtime_data_comes_back(data: Seq<u8>, version: u32, parts: Seq<PartModel>)
    requires
        rdat_of(data) == Some((version, parts)),
        version >= RDAT_VERSION_10 ==> parts_reached(parts),
        version < RDAT_VERSION_10 ==> parts.len() > 0,
    ensures
        forall|i: int| 0 <= i < parts.len() ==> part_fits(#[trigger] parts[i]),
        rdat_of(rdat_bytes(version, parts)) == Some((version, parts)),
{
    lemma_parts_readable(data, super::parse::is_versioned(data), super::parse::part_count(data));
    law_runtime_data_comes_back(version, parts);
}

} // verus!
