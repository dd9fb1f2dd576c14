//! Little-endian numbers in byte sequences: reading through a cursor, and writing.
use nostdio::{ReadLe, Seek, SeekFrom, SliceCursor};
use vstd::prelude::*;

verus! {

/// The number that two bytes hold, low byte first.
pub open spec fn le16(s: Seq<u8>, at: int) -> u16 {
    (s[at] + 256 * s[at + 1]) as u16
}

/// The number that four bytes hold, low byte first.
pub open spec fn le32(s: Seq<u8>, at: int) -> u32 {
    (s[at] + 256 * s[at + 1] + 65536 * s[at + 2] + 16777216 * s[at + 3]) as u32
}

/// The byte at `at`, where there is one.
pub open spec fn read8(s: Seq<u8>, at: int) -> Option<u8> {
    if 0 <= at && at + 1 <= s.len() {
        Some(s[at])
    } else {
        None
    }
}

/// The two-byte number at `at`, where the bytes reach that far.
pub open spec fn read16(s: Seq<u8>, at: int) -> Option<u16> {
    if 0 <= at && at + 2 <= s.len() {
        Some(le16(s, at))
    } else {
        None
    }
}

/// The four-byte number at `at`, where the bytes reach that far.
pub open spec fn read32(s: Seq<u8>, at: int) -> Option<u32> {
    if 0 <= at && at + 4 <= s.len() {
        Some(le32(s, at))
    } else {
        None
    }
}

/// The number that the four bytes from a place on stand for: each byte weighs 256 times the one before it.
pub open spec fn stored(data: Seq<u8>, at: int) -> int {
    data[at] + 0x100 * (data[at + 1] + 0x100 * (data[at + 2] + 0x100 * data[at + 3]))
}

/// The bytes of a two-byte number, low byte first.
pub open spec fn bytes16(v: u16) -> Seq<u8> {
    seq![(v % 256) as u8, (v / 256) as u8]
}

/// The bytes of a four-byte number, low byte first.
pub open spec fn bytes32(v: u32) -> Seq<u8> {
    seq![
        (v % 256) as u8,
        ((v / 256) % 256) as u8,
        ((v / 65536) % 256) as u8,
        (v / 16777216) as u8,
    ]
}

/// `ReadLe::read_u8_le` of a `SliceCursor` that was moved to `at`: the byte there, or an error where
/// the data ends before it.
#[verifier::external_body]
fn u8_at(data: &[u8], at: usize) -> (r: Option<u8>)
    ensures
        r == read8(data@, at as int),
{
    let mut cursor = SliceCursor::new(data);
    cursor.seek(SeekFrom::Start(at as u64)).ok()?;
    cursor.read_u8_le().ok()
}

/// `ReadLe::read_u16_le` of a `SliceCursor` that was moved to `at`: the two bytes there, low byte
/// first, or an error where the data ends before them.
#[verifier::external_body]
fn u16_at(data: &[u8], at: usize) -> (r: Option<u16>)
    ensures
        r == read16(data@, at as int),
{
    let mut cursor = SliceCursor::new(data);
    cursor.seek(SeekFrom::Start(at as u64)).ok()?;
    cursor.read_u16_le().ok()
}

/// `ReadLe::read_u32_le` of a `SliceCursor` that was moved to `at`: the four bytes there, low byte
/// first, or an error where the data ends before them.
#[verifier::external_body]
fn u32_at(data: &[u8], at: usize) -> (r: Option<u32>)
    ensures
        r == read32(data@, at as int),
{
    let mut cursor = SliceCursor::new(data);
    cursor.seek(SeekFrom::Start(at as u64)).ok()?;
    cursor.read_u32_le().ok()
}

/// The four-byte number at `at`, where the data reaches that far.
pub fn read_u32(data: &[u8], at: u64) -> (r: Option<u32>)
    ensures
        r == read32(data@, at as int),
{
    if at <= data.len() as u64 {
        u32_at(data, at as usize)
    } else {
        None
    }
}

/// The two-byte number at `at`, where the data reaches that far.
pub fn read_u16(data: &[u8], at: u64) -> (r: Option<u16>)
    ensures
        r == read16(data@, at as int),
{
    if at <= data.len() as u64 {
        u16_at(data, at as usize)
    } else {
        None
    }
}

/// The byte at `at`, where the data reaches that far.
pub fn read_u8(data: &[u8], at: u64) -> (r: Option<u8>)
    ensures
        r == read8(data@, at as int),
{
    if at <= data.len() as u64 {
        u8_at(data, at as usize)
    } else {
        None
    }
}

/// Put the two bytes of `v` behind `out`.
pub fn push16(out: &mut Vec<u8>, v: u16)
    ensures
        final(out)@ == old(out)@ + bytes16(v),
{
    out.push((v % 256) as u8);
    out.push((v / 256) as u8);
    proof {
        assert(out@ =~= old(out)@ + bytes16(v));
    }
}

/// Put the four bytes of `v` behind `out`.
pub fn push32(out: &mut Vec<u8>, v: u32)
    ensures
        final(out)@ == old(out)@ + bytes32(v),
{
    out.push((v % 256) as u8);
    out.push(((v / 256) % 256) as u8);
    out.push(((v / 65536) % 256) as u8);
    out.push((v / 16777216) as u8);
    proof {
        assert(out@ =~= old(out)@ + bytes32(v));
    }
}

/// Put all of `part` behind `out`.
pub fn push_all(out: &mut Vec<u8>, part: &[u8])
    ensures
        final(out)@ == old(out)@ + part@,
{
    let ghost before = out@;
    let mut i: usize = 0;
    while i < part.len()
        invariant
            i <= part@.len(),
            out@ == before + part@.take(i as int),
        decreases part@.len() - i,
    {
        out.push(part[i]);
        i = i + 1;
        proof {
            assert(out@ =~= before + part@.take(i as int));
        }
    }
    proof {
        assert(part@.take(i as int) =~= part@);
    }
}

/// A copy of bytes.
pub fn copied(part: &[u8]) -> (r: Vec<u8>)
    ensures
        r@ == part@,
{
    let mut out: Vec<u8> = Vec::new();
    push_all(&mut out, part);
    proof {
        assert(out@ =~= part@);
    }
    out
}

/// A copy of a stretch of bytes.
pub fn copied_span(data: &[u8], from: usize, to: usize) -> (r: Vec<u8>)
    requires
        from <= to <= data@.len(),
    ensures
        r@ == data@.subrange(from as int, to as int),
{
    let mut out: Vec<u8> = Vec::new();
    let mut i: usize = from;
    while i < to
        invariant
            from <= i <= to <= data@.len(),
            out@ == data@.subrange(from as int, i as int),
        decreases to - i,
    {
        out.push(data[i]);
        i = i + 1;
    }
    out
}

/// Put `count` zero bytes behind `out`.
pub fn push_zeros(out: &mut Vec<u8>, count: usize)
    ensures
        final(out)@ == old(out)@ + zeros(count as nat),
{
    let ghost before = out@;
    let mut i: usize = 0;
    proof {
        assert(out@ =~= before + zeros(0));
    }
    while i < count
        invariant
            i <= count,
            out@ == before + zeros(i as nat),
        decreases count - i,
    {
        out.push(0);
        i = i + 1;
        proof {
            assert(out@ =~= before + zeros(i as nat));
        }
    }
}

/// A run of zero bytes.
pub open spec fn zeros(count: nat) -> Seq<u8> {
    Seq::new(count, |i: int| 0u8)
}

/// How many bytes bring `len` up to a multiple of four.
pub open spec fn padding4(len: nat) -> nat {
    ((4 - len % 4) % 4) as nat
}

/// A four-byte number read where its bytes were written comes back.
pub proof fn lemma_read_back32(s: Seq<u8>, at: int, v: u32)
    requires
        0 <= at,
        at + 4 <= s.len(),
        s.subrange(at, at + 4) == bytes32(v),
    ensures
        le32(s, at) == v,
        read32(s, at) == Some(v),
{
    let t = s.subrange(at, at + 4);
    assert(s[at] == t[0] && s[at + 1] == t[1] && s[at + 2] == t[2] && s[at + 3] == t[3]);
}

/// A two-byte number read where its bytes were written comes back.
pub proof fn lemma_read_back16(s: Seq<u8>, at: int, v: u16)
    requires
        0 <= at,
        at + 2 <= s.len(),
        s.subrange(at, at + 2) == bytes16(v),
    ensures
        le16(s, at) == v,
        read16(s, at) == Some(v),
{
    let t = s.subrange(at, at + 2);
    assert(s[at] == t[0] && s[at + 1] == t[1]);
}

/// One byte of a four-byte number, counted from the low one.
pub open spec fn byte_of(v: u32, k: int) -> u8 {
    if k == 0 {
        (v % 256) as u8
    } else if k == 1 {
        ((v / 256) % 256) as u8
    } else if k == 2 {
        ((v / 65536) % 256) as u8
    } else {
        (v / 16777216) as u8
    }
}

/// The bytes of four-byte numbers, one behind the other.
#[verifier::opaque]
pub open spec fn flat(words: Seq<u32>) -> Seq<u8> {
    Seq::new(4 * words.len(), |i: int| byte_of(words[i / 4], i % 4))
}

/// Put the bytes of each word behind `out`.
pub fn push_words(out: &mut Vec<u8>, words: &[u32])
    ensures
        final(out)@ == old(out)@ + flat(words@),
{
    let ghost before = out@;
    let mut i: usize = 0;
    proof {
        lemma_flat_len(words@.take(0));
        assert(out@ =~= before + flat(words@.take(0)));
    }
    while i < words.len()
        invariant
            i <= words@.len(),
            out@ == before + flat(words@.take(i as int)),
        decreases words@.len() - i,
    {
        push32(out, words[i]);
        i = i + 1;
        proof {
            lemma_flat_push(words@.take(i - 1), words@[i - 1]);
            assert(words@.take(i as int) =~= words@.take(i - 1).push(words@[i - 1]));
            assert(out@ =~= before + flat(words@.take(i as int)));
        }
    }
    proof {
        assert(words@.take(i as int) =~= words@);
    }
}

/// Each word takes four bytes.
pub proof fn lemma_flat_len(words: Seq<u32>)
    ensures
        flat(words).len() == 4 * words.len(),
{
    reveal(flat);
}

/// The bytes of words with one more behind them.
pub proof fn lemma_flat_push(words: Seq<u32>, v: u32)
    ensures
        flat(words.push(v)) == flat(words) + bytes32(v),
{
    reveal(flat);
    let a = flat(words.push(v));
    let b = flat(words) + bytes32(v);
    assert forall|i: int| 0 <= i < a.len() implies a[i] == b[i] by {
        if i < 4 * words.len() {
            assert(i / 4 < words.len());
        } else {
            assert(i / 4 == words.len());
            assert(i % 4 == i - 4 * words.len());
        }
    }
    assert(a =~= b);
}

/// The bytes of two runs of words.
pub proof fn lemma_flat_joined(a: Seq<u32>, b: Seq<u32>)
    ensures
        flat(a + b) == flat(a) + flat(b),
{
    reveal(flat);
    let l = flat(a + b);
    let r = flat(a) + flat(b);
    assert forall|i: int| 0 <= i < l.len() implies l[i] == r[i] by {
        if i < 4 * a.len() {
            assert(i / 4 < a.len());
        } else {
            assert(i / 4 - a.len() == (i - 4 * a.len()) / 4);
            assert(i % 4 == (i - 4 * a.len()) % 4);
        }
    }
    assert(l =~= r);
}

/// Words are read back where their bytes stand.
pub proof fn lemma_flat_reads(before: Seq<u8>, words: Seq<u32>, after: Seq<u8>)
    ensures
        forall|i: int|
            0 <= i < words.len() ==> le32(before + flat(words) + after, before.len() + 4 * i) == #[trigger] words[i],
{
    reveal(flat);
    let s = before + flat(words) + after;
    assert forall|i: int| 0 <= i < words.len() implies le32(s, before.len() + 4 * i) == #[trigger] words[i] by {
        let at = before.len() + 4 * i;
        let v = words[i];
        assert((4 * i) / 4 == i && (4 * i + 1) / 4 == i && (4 * i + 2) / 4 == i && (4 * i + 3) / 4 == i);
        assert((4 * i) % 4 == 0 && (4 * i + 1) % 4 == 1 && (4 * i + 2) % 4 == 2 && (4 * i + 3) % 4 == 3);
        assert(s.subrange(at, at + 4) =~= bytes32(v));
        lemma_read_back32(s, at, v);
    }
}

/// The bytes cut or filled up with zeros to a length.
pub open spec fn resized(s: Seq<u8>, len: nat) -> Seq<u8> {
    if s.len() >= len {
        s.take(len as int)
    } else {
        s + zeros((len - s.len()) as nat)
    }
}

/// Cut the bytes or fill them up with zeros to a length.
pub fn resize(out: Vec<u8>, len: usize) -> (r: Vec<u8>)
    ensures
        r@ == resized(out@, len as nat),
{
    if out.len() >= len {
        copied_span(out.as_slice(), 0, len)
    } else {
        let mut r = out;
        let missing: usize = len - r.len();
        push_zeros(&mut r, missing);
        r
    }
}

/// Bytes stand in others at a place.
pub open spec fn stands_at(data: Seq<u8>, at: int, part: Seq<u8>) -> bool {
    0 <= at && at + part.len() <= data.len() && data.subrange(at, at + part.len()) == part
}

/// Where two runs of bytes stand as one, each stands.
pub proof fn lemma_stands_split(data: Seq<u8>, at: int, a: Seq<u8>, b: Seq<u8>)
    requires
        stands_at(data, at, a + b),
    ensures
        stands_at(data, at, a),
        stands_at(data, at + a.len(), b),
{
    let whole = data.subrange(at, at + (a + b).len());
    assert(data.subrange(at, at + a.len()) =~= whole.subrange(0, a.len() as int));
    assert(whole.subrange(0, a.len() as int) =~= a);
    assert(data.subrange(at + a.len(), at + a.len() + b.len()) =~= whole.subrange(a.len() as int, whole.len() as int));
    assert(whole.subrange(a.len() as int, whole.len() as int) =~= b);
}

/// Words are read where their bytes stand.
pub proof fn lemma_stands_words(data: Seq<u8>, at: int, words: Seq<u32>)
    requires
        stands_at(data, at, flat(words)),
    ensures
        at + 4 * words.len() <= data.len(),
        forall|i: int| 0 <= i < words.len() ==> le32(data, at + 4 * i) == #[trigger] words[i],
{
    lemma_flat_len(words);
    let before = data.subrange(0, at);
    let after = data.subrange(at + 4 * words.len(), data.len() as int);
    assert(before + flat(words) + after =~= data) by {
        assert forall|i: int| at <= i < at + flat(words).len() implies data[i] == flat(words)[i - at] by {
            assert(data.subrange(at, at + flat(words).len())[i - at] == data[i]);
        }
    }
    lemma_flat_reads(before, words, after);
}

/// A byte is read where it stands among others.
pub proof fn lemma_stands_byte(data: Seq<u8>, at: int, part: Seq<u8>, k: int)
    requires
        stands_at(data, at, part),
        0 <= k < part.len(),
    ensures
        data[at + k] == part[k],
{
    assert(data.subrange(at, at + part.len())[k] == data[at + k]);
}

/// How many of `count` entries of a stride, the first one at an offset, data of a length holds whole.
pub open spec fn fitting(len: nat, offset: nat, stride: nat, count: nat) -> nat {
    if offset + count * stride <= len {
        count
    } else if offset <= len {
        ((len - offset) / stride as int) as nat
    } else {
        0
    }
}

/// How many of `count` entries of a stride, the first one at an offset, data of a length holds whole.
pub fn fitting_count(len: usize, offset: u32, stride: u32, count: u32) -> (r: u64)
    requires
        0 < stride <= 64,
    ensures
        r == fitting(len as nat, offset as nat, stride as nat, count as nat),
        r <= count,
        r > 0 ==> offset + r * stride <= len,
{
    let room: u64 = if len as u64 >= offset as u64 {
        len as u64 - offset as u64
    } else {
        0
    };
    let whole: u64 = room / stride as u64;
    proof {
        let m = room as int;
        let w = stride as int;
        let c = count as int;
        assert((c <= m / w) == (c * w <= m)) by (nonlinear_arith)
            requires
                w > 0,
                m >= 0,
                c >= 0,
        ;
        assert((m / w) * w <= m) by (nonlinear_arith)
            requires
                w > 0,
                m >= 0,
        ;
        assert(c * w == 0 ==> c == 0) by (nonlinear_arith)
            requires
                w > 0,
                c >= 0,
        ;
        assert(0 <= c * w) by (nonlinear_arith)
            requires
                w > 0,
                c >= 0,
        ;
    }
    if len as u64 >= offset as u64 && count as u64 <= whole {
        count as u64
    } else if len as u64 >= offset as u64 {
        whole
    } else {
        0
    }
}

} // verus!
