//! What an encoded program decodes to.
use crate::bytes::{bytes32, le32, lemma_read_back32};
use crate::shex::decode::{
    access_text, before_trailer, behind_extended, bit, components_of, conditional, declares_input, declares_input_value,
    declares_output, declares_output_value, declares_pixel_input, dimension_text, domain_text, extended_by,
    extended_from, extended_of, flag_list, immediate_words, index_at, instruction_of, interpolation_text, kind_of, left,
    length_at, operand_at, operands_from, operands_start, output_primitive_text, partitioning_text, program_of,
    return_types, rows_of, sampler_text, sign4, stage_text, stream, stream_end, with_flag, words_at, words_from,
    Extended,
};
use crate::shex::encode::{
    all_levels_fit, dimension_value, domain_value, extended_words, first_token, flag_bit, flag_bits, immediate,
    index_level_fits, index_levels_fit, index_words, indices_words, instruction_words, interpolation_value, kind_words,
    loose_extended, modified, modifier_token, nested_levels_fit, offsets_word, opdata, operand_head, operand_words,
    operands_words, output_primitive_value, partitioning_value, plain_token, program_bytes, program_levels_fit,
    program_words, representation, return_type_word, rows_words, sampler_value, select_bits, stage_value, stream_words,
    system_value_value, with_representations, words_bytes,
};
use crate::shex::ir::{
    system_value_text, ComponentSelect, CustomDataType, GsPrimitive, IndexModel, InstructionModel, KindModel,
    OperandModel, ProgramModel, RegisterType, ReturnType,
};
use crate::shex::opcodes::{law_code_tells_opcodes_apart, Opcode};
use vstd::prelude::*;

verus! {

/// A selection that an operand token has room for.
pub open spec fn selection_fits(c: ComponentSelect) -> bool {
    match c {
        ComponentSelect::Mask(m) => m < 16,
        ComponentSelect::Swizzle(s) => s[0] < 4 && s[1] < 4 && s[2] < 4 && s[3] < 4,
        ComponentSelect::Scalar(c) => c < 4,
        _ => true,
    }
}

/// An operand that its words can say all of: the register type fits its field, there are at most three
/// index levels, and immediate values stand where an immediate register type asks for them, as many as
/// it asks for.
pub open spec fn operand_fits(op: OperandModel) -> bool
    decreases op, 0nat,
{
    &&& op.reg_type.raw() <= 0xFF
    &&& op.reg_type == RegisterType::of(op.reg_type.raw())
    &&& selection_fits(op.components)
    &&& op.indices.len() <= 3
    &&& op.immediate_values.len() == (if op.indices.len() == 0 {
        immediate_words(op.reg_type.raw(), op.components.count())
    } else {
        0
    })
    &&& levels_fit(op.indices, op.indices.len())
}

/// The first `n` index levels hold operands that their words can say all of.
pub open spec fn levels_fit(indices: Seq<IndexModel>, n: nat) -> bool
    decreases indices, n,
{
    if n == 0 || n > indices.len() {
        true
    } else {
        levels_fit(indices, (n - 1) as nat) && level_fits(indices[n - 1])
    }
}

/// The operand within an index level is one that its words can say all of.
pub open spec fn level_fits(idx: IndexModel) -> bool
    decreases idx, 0nat,
{
    match idx {
        IndexModel::Relative(sub) => operand_fits(*sub),
        IndexModel::RelativePlusImm(_, sub) => operand_fits(*sub),
        _ => true,
    }
}

/// Every operand of a list is one that its words can say all of.
pub open spec fn operands_fit(ops: Seq<OperandModel>) -> bool {
    forall|i: int| 0 <= i < ops.len() ==> operand_fits(#[trigger] ops[i])
}

proof fn lemma_operand_token(a: u32, k: u32, n: u32, e: u32, r0: u32, r1: u32, r2: u32)
    by (bit_vector)
    requires
        a < 4096,
        k < 256,
        n < 4,
        e < 2,
        r0 < 8,
        r1 < 8,
        r2 < 8,
    ensures
        ({
            let t = ((((a | (k << 12)) | (n << 20)) | (e << 31)) | (r0 << 22)) | (r1 << 25) | (r2 << 28);
            &&& t & 3 == a & 3
            &&& (t >> 2) & 3 == (a >> 2) & 3
            &&& (t >> 4) & 0xF == (a >> 4) & 0xF
            &&& (t >> 4) & 3 == (a >> 4) & 3
            &&& (t >> 6) & 3 == (a >> 6) & 3
            &&& (t >> 8) & 3 == (a >> 8) & 3
            &&& (t >> 10) & 3 == (a >> 10) & 3
            &&& (t >> 12) & 0xFF == k
            &&& (t >> 20) & 3 == n
            &&& (t >> 22) & 7 == r0
            &&& (t >> 25) & 7 == r1
            &&& (t >> 28) & 7 == r2
            &&& (t >> 31) & 1 == e
        }),
{
}

proof fn lemma_or_nothing(x: u32)
    by (bit_vector)
    ensures
        x | 0 == x,
        x | (0u32 << 22) == x,
        x | (0u32 << 25) == x,
        x | (0u32 << 28) == x,
        x | (0u32 << 31) == x,
        x < 256 ==> x & 0xFF == x,
        x < 4 ==> x & 3 == x,
        1u32 == 0x1,
        ((1u32 | (1u32 << 6)) >> 6) & 1 != 0,
        (((1u32 | (1u32 << 6)) | (1u32 << 7)) >> 6) & 1 != 0,
        (((1u32 | (1u32 << 6)) | (1u32 << 7)) >> 7) & 1 != 0,
        ((1u32 | (1u32 << 7)) >> 7) & 1 != 0,
        ((1u32 | (1u32 << 7)) >> 6) & 1 == 0,
        ((1u32 | (1u32 << 6)) >> 7) & 1 == 0,
{
}

proof fn lemma_selection_bits(m: u32, s0: u32, s1: u32, s2: u32, s3: u32)
    by (bit_vector)
    requires
        s0 < 4,
        s1 < 4,
        s2 < 4,
        s3 < 4,
        m < 16,
    ensures
        0u32 & 3 == 0,
        1u32 & 3 == 1,
        0u32 | 0u32 == 0,
        1u32 | 0u32 == 1,
        ({
            let a = 2u32 | (m << 4);
            &&& a < 4096
            &&& a & 3 == 2
            &&& (a >> 2) & 3 == 0
            &&& (a >> 4) & 0xF == m
        }),
        ({
            let a = 2u32 | ((1u32 << 2) | ((s0 | (s1 << 2) | (s2 << 4) | (s3 << 6)) << 4));
            &&& a < 4096
            &&& a & 3 == 2
            &&& (a >> 2) & 3 == 1
            &&& (a >> 4) & 3 == s0
            &&& (a >> 6) & 3 == s1
            &&& (a >> 8) & 3 == s2
            &&& (a >> 10) & 3 == s3
        }),
        ({
            let a = 2u32 | ((2u32 << 2) | (s0 << 4));
            &&& a < 4096
            &&& a & 3 == 2
            &&& (a >> 2) & 3 == 2
            &&& (a >> 4) & 3 == s0
        }),
{
}

proof fn lemma_halves(v: u64)
    by (bit_vector)
    ensures
        ((v as u32) as u64) | ((((v >> 32) as u32) as u64) << 32) == v,
{
}

/// A selection comes back out of a token whose low twelve bits are those of the selection.
proof fn lemma_selection_reads(c: ComponentSelect, t: u32)
    requires
        selection_fits(c),
        ({
            let a = c.count() | select_bits(c);
            &&& t & 3 == a & 3
            &&& (t >> 2) & 3 == (a >> 2) & 3
            &&& (t >> 4) & 0xF == (a >> 4) & 0xF
            &&& (t >> 4) & 3 == (a >> 4) & 3
            &&& (t >> 6) & 3 == (a >> 6) & 3
            &&& (t >> 8) & 3 == (a >> 8) & 3
            &&& (t >> 10) & 3 == (a >> 10) & 3
        }),
    ensures
        c.count() | select_bits(c) < 4096,
        components_of(t) == c,
{
    match c {
        ComponentSelect::Mask(m) => {
            lemma_selection_bits(m as u32, 0, 0, 0, 0);
        },
        ComponentSelect::Swizzle(s) => {
            lemma_selection_bits(0, s[0] as u32, s[1] as u32, s[2] as u32, s[3] as u32);
            assert(components_of(t)->Swizzle_0 =~= s);
        },
        ComponentSelect::Scalar(x) => {
            lemma_selection_bits(0, x as u32, 0, 0, 0);
        },
        _ => {
            lemma_selection_bits(0, 0, 0, 0, 0);
        },
    }
}

proof fn lemma_selection_small(c: ComponentSelect)
    requires
        selection_fits(c),
    ensures
        c.count() | select_bits(c) < 4096,
{
    match c {
        ComponentSelect::Mask(m) => {
            lemma_selection_bits(m as u32, 0, 0, 0, 0);
        },
        ComponentSelect::Swizzle(s) => {
            lemma_selection_bits(0, s[0] as u32, s[1] as u32, s[2] as u32, s[3] as u32);
        },
        ComponentSelect::Scalar(x) => {
            lemma_selection_bits(0, x as u32, 0, 0, 0);
        },
        _ => {
            lemma_selection_bits(0, 0, 0, 0, 0);
        },
    }
}

/// The representation of an index level, nought where there is no such level.
spec fn representation_at(indices: Seq<IndexModel>, i: int) -> u32 {
    if i < indices.len() {
        representation(indices[i])
    } else {
        0
    }
}

/// What the fields of an operand's token say.
proof fn lemma_token_fields(op: OperandModel)
    requires
        operand_fits(op),
    ensures
        ({
            let t = operand_head(op)[0];
            &&& components_of(t) == op.components
            &&& (t >> 12) & 0xFF == op.reg_type.raw()
            &&& (t >> 20) & 3 == op.indices.len()
            &&& (t >> 22) & 7 == representation_at(op.indices, 0)
            &&& (t >> 25) & 7 == representation_at(op.indices, 1)
            &&& (t >> 28) & 7 == representation_at(op.indices, 2)
            &&& bit(t, 31) == modified(op)
        }),
{
    let a = op.components.count() | select_bits(op.components);
    let k = op.reg_type.raw();
    let n = op.indices.len() as u32;
    let e: u32 = if modified(op) {
        1
    } else {
        0
    };
    let r0 = representation_at(op.indices, 0);
    let r1 = representation_at(op.indices, 1);
    let r2 = representation_at(op.indices, 2);
    lemma_selection_small(op.components);
    lemma_operand_token(a, k, n, e, r0, r1, r2);
    lemma_or_nothing(k);
    lemma_or_nothing(n);
    let base = (a | (k << 12)) | (n << 20);
    lemma_or_nothing(base);
    let p = base | (e << 31);
    assert(plain_token(op) == p);
    lemma_or_nothing(p);
    let p0 = p | (r0 << 22);
    let p1 = p0 | (r1 << 25);
    let p2 = p1 | (r2 << 28);
    lemma_or_nothing(p0);
    lemma_or_nothing(p1);
    reveal_with_fuel(with_representations, 4);
    let t = operand_head(op)[0];
    assert(t == p2);
    lemma_selection_reads(op.components, t);
}

/// The words stand in `t` from `pos` on.
pub open spec fn stand(t: Seq<u32>, pos: nat, w: Seq<u32>) -> bool {
    &&& pos + w.len() <= t.len()
    &&& forall|i: int| 0 <= i < w.len() ==> t[pos + i] == #[trigger] w[i]
}

/// Where two runs of words stand end to end, each stands at its place.
proof fn lemma_stand_parts(t: Seq<u32>, pos: nat, a: Seq<u32>, b: Seq<u32>)
    requires
        stand(t, pos, a + b),
    ensures
        stand(t, pos, a),
        stand(t, pos + a.len(), b),
{
    let w = a + b;
    assert forall|i: int| 0 <= i < a.len() implies t[pos + i] == #[trigger] a[i] by {
        assert(w[i] == a[i]);
    }
    assert forall|i: int| 0 <= i < b.len() implies t[pos + a.len() + i] == #[trigger] b[i] by {
        assert(w[a.len() + i] == b[i]);
    }
}

/// An operand that its words can say all of is what is read where those words stand.
#[verifier::rlimit(40)]
#[verifier::spinoff_prover]
proof fn lemma_operand_reads(op: OperandModel, t: Seq<u32>, pos: nat)
    requires
        operand_fits(op),
        stand(t, pos, operand_words(op)),
    ensures
        operand_at(t, pos) == (op, operand_words(op).len()),
        operand_words(op).len() >= 1,
    decreases op, 4nat, 0nat,
{
    let w = operand_words(op);
    let h = operand_head(op);
    let head = h.len();
    lemma_token_fields(op);
    lemma_or_nothing(0);
    let data = if immediate(op) {
        op.immediate_values
    } else {
        indices_words(op.indices, op.indices.len())
    };
    assert(w == h + data);
    lemma_stand_parts(t, pos, h, data);
    assert(t[pos as int + 0] == h[0]);
    if modified(op) {
        assert(t[pos as int + 1] == h[1]);
        assert(bit(modifier_token(op), 6) == op.negate);
        assert(bit(modifier_token(op), 7) == op.abs);
    }
    let got = operand_at(t, pos).0;
    if op.indices.len() == 0 {
        let wanted = immediate_words(op.reg_type.raw(), op.components.count());
        if !immediate(op) {
            assert(wanted == 0);
            assert(op.immediate_values =~= Seq::empty());
            assert(data =~= Seq::empty());
        }
        let held = words_from(t, (pos + head) as int, wanted as int);
        assert(held =~= op.immediate_values) by {
            assert forall|i: int| 0 <= i < wanted implies t[pos + head + i] == op.immediate_values[i] by {
                assert(t[pos + head + i] == data[i]);
            }
        }
        assert(got.indices =~= op.indices);
        assert(got.immediate_values =~= op.immediate_values);
        assert(got == op);
    } else {
        assert(op.immediate_values =~= Seq::empty());
        let n = op.indices.len();
        let start = pos + head;
        lemma_levels_read(op, t, start, n);
        lemma_level_read(op, t, start, 0);
        assert(indices_words(op.indices, 0).len() == 0);
        if n > 1 {
            lemma_level_read(op, t, start, 1);
        }
        if n > 2 {
            lemma_level_read(op, t, start, 2);
        }
        assert(got.indices =~= op.indices);
        assert(got.immediate_values =~= op.immediate_values);
        assert(got == op);
    }
}

proof fn lemma_level_of(indices: Seq<IndexModel>, n: nat, i: int)
    requires
        levels_fit(indices, n),
        0 <= i < n <= indices.len(),
    ensures
        level_fits(indices[i]),
    decreases n,
{
    if i < n - 1 {
        lemma_level_of(indices, (n - 1) as nat, i);
    }
}

/// The words of each of the first `n` index levels stand one behind the other.
proof fn lemma_levels_read(op: OperandModel, t: Seq<u32>, start: nat, n: nat)
    requires
        n <= op.indices.len(),
        stand(t, start, indices_words(op.indices, n)),
    ensures
        forall|i: nat|
            i < n ==> stand(t, start + (#[trigger] indices_words(op.indices, i)).len(), index_words(op.indices[i as int])),
    decreases n,
{
    if n > 0 {
        let m = (n - 1) as nat;
        let before = indices_words(op.indices, m);
        let last = index_words(op.indices[m as int]);
        assert(indices_words(op.indices, n) == before + last);
        lemma_stand_parts(t, start, before, last);
        lemma_levels_read(op, t, start, m);
    }
}

/// An index level of an operand is what is read where its words stand.
proof fn lemma_level_read(op: OperandModel, t: Seq<u32>, start: nat, i: nat)
    requires
        operand_fits(op),
        i < op.indices.len(),
        stand(t, start + indices_words(op.indices, i).len(), index_words(op.indices[i as int])),
    ensures
        index_at(t, start + indices_words(op.indices, i).len(), representation(op.indices[i as int])) == (
            op.indices[i as int],
            index_words(op.indices[i as int]).len(),
        ),
        indices_words(op.indices, i + 1).len() == indices_words(op.indices, i).len() + index_words(
            op.indices[i as int],
        ).len(),
    decreases op, 3nat, 0nat,
{
    lemma_level_of(op.indices, op.indices.len(), i as int);
    lemma_index_reads(op.indices[i as int], t, start + indices_words(op.indices, i).len());
}

/// An index level is what is read where its words stand.
proof fn lemma_index_reads(idx: IndexModel, t: Seq<u32>, pos: nat)
    requires
        level_fits(idx),
        stand(t, pos, index_words(idx)),
    ensures
        index_at(t, pos, representation(idx)) == (idx, index_words(idx).len()),
    decreases idx, 5nat, 0nat,
{
    let w = index_words(idx);
    match idx {
        IndexModel::Imm32(v) => {
            assert(t[pos as int + 0] == w[0]);
        },
        IndexModel::Imm64(v) => {
            assert(t[pos as int + 0] == w[0]);
            assert(t[pos as int + 1] == w[1]);
            lemma_halves(v);
        },
        IndexModel::Relative(sub) => {
            lemma_operand_reads(*sub, t, pos);
        },
        IndexModel::RelativePlusImm(imm, sub) => {
            let first = seq![imm];
            assert(w == first + operand_words(*sub));
            lemma_stand_parts(t, pos, first, operand_words(*sub));
            assert(t[pos as int + 0] == first[0]);
            lemma_operand_reads(*sub, t, pos + 1);
        },
    }
}

/// The words of each of the first `n` operands stand one behind the other.
proof fn lemma_operands_stand(ops: Seq<OperandModel>, t: Seq<u32>, pos: nat, n: nat)
    requires
        n <= ops.len(),
        stand(t, pos, operands_words(ops, n)),
    ensures
        forall|i: nat|
            i < n ==> stand(t, pos + (#[trigger] operands_words(ops, i)).len(), operand_words(ops[i as int])),
    decreases n,
{
    if n > 0 {
        let m = (n - 1) as nat;
        lemma_stand_parts(t, pos, operands_words(ops, m), operand_words(ops[m as int]));
        lemma_operands_stand(ops, t, pos, m);
    }
}

proof fn lemma_operands_read_from(ops: Seq<OperandModel>, t: Seq<u32>, pos: nat, k: nat)
    requires
        operands_fit(ops),
        k <= ops.len(),
        stand(t, pos, operands_words(ops, ops.len())),
        t.len() == pos + operands_words(ops, ops.len()).len(),
    ensures
        operands_from(t, pos + operands_words(ops, k).len()) == ops.subrange(k as int, ops.len() as int),
    decreases ops.len() - k,
{
    let at = pos + operands_words(ops, k).len();
    if k == ops.len() {
        assert(ops.subrange(k as int, ops.len() as int) =~= Seq::empty());
    } else {
        lemma_operands_stand(ops, t, pos, ops.len());
        assert(stand(t, at, operand_words(ops[k as int])));
        lemma_operand_reads(ops[k as int], t, at);
        lemma_operands_read_from(ops, t, pos, k + 1);
        assert(operands_words(ops, k + 1).len() == operands_words(ops, k).len() + operand_words(ops[k as int]).len());
        assert(ops.subrange(k as int, ops.len() as int) =~= seq![ops[k as int]] + ops.subrange(
            k as int + 1,
            ops.len() as int,
        ));
    }
}

/// A list of operands is what is read from where its words stand to the end.
proof fn lemma_operands_read(ops: Seq<OperandModel>, t: Seq<u32>, pos: nat)
    requires
        operands_fit(ops),
        stand(t, pos, operands_words(ops, ops.len())),
        t.len() == pos + operands_words(ops, ops.len()).len(),
    ensures
        operands_from(t, pos) == ops,
        ops.len() > 0 ==> operands_words(ops, ops.len()).len() > 0,
{
    lemma_operands_read_from(ops, t, pos, 0);
    assert(ops.subrange(0, ops.len() as int) =~= ops);
    if ops.len() > 0 {
        let n = ops.len();
        lemma_operands_stand(ops, t, pos, n);
        let m = (n - 1) as nat;
        assert(stand(t, pos + operands_words(ops, m).len(), operand_words(ops[m as int])));
        lemma_operand_reads(ops[m as int], t, pos + operands_words(ops, m).len());
    }
}

proof fn lemma_first_token_bits(code: u32, data: u32, e: u32, len: u32)
    by (bit_vector)
    requires
        code <= 0x7FF,
        data & 0xFF0007FF == 0,
        e < 2,
        len < 128,
    ensures
        ({
            let t = (((code & 0x7FF) | data) | (e << 31)) | ((len & 0x7F) << 24);
            &&& t & 0x7FF == code
            &&& (t >> 24) & 0x7F == len
            &&& (t >> 31) & 1 == e
            &&& (t >> 11) & 1 == (data >> 11) & 1
            &&& (t >> 11) & 3 == (data >> 11) & 3
            &&& (t >> 11) & 7 == (data >> 11) & 7
            &&& (t >> 11) & 0xF == (data >> 11) & 0xF
            &&& (t >> 11) & 0x1F == (data >> 11) & 0x1F
            &&& (t >> 11) & 0x3F == (data >> 11) & 0x3F
            &&& (t >> 11) & 0x1FFF == (data >> 11) & 0x1FFF
            &&& (t >> 13) & 1 == (data >> 13) & 1
            &&& (t >> 16) & 0x7F == (data >> 16) & 0x7F
            &&& (t >> 16) & 0xFF == (data >> 16) & 0xFF
            &&& (t >> 18) & 1 == (data >> 18) & 1
            &&& (t >> 19) & 0xF == (data >> 19) & 0xF
        }),
{
}

proof fn lemma_data_shapes(v: u32, s: u32, w: u32, x: u32, y: u32, z: u32)
    by (bit_vector)
    requires
        v < 256,
        w < 32,
    ensures
        (v << 11) & 0xFF0007FF == 0,
        ((v << 11) >> 11) & 0x1FFF == v,
        v < 64 ==> ((v << 11) >> 11) & 0x3F == v,
        v < 32 ==> ((v << 11) >> 11) & 0x1F == v,
        v < 16 ==> ((v << 11) >> 11) & 0xF == v,
        v < 8 ==> ((v << 11) >> 11) & 7 == v,
        v < 4 ==> ((v << 11) >> 11) & 3 == v,
        v < 2 ==> ((v << 11) >> 11) & 1 == v,
        v < 64 ==> v & 0x3F == v,
        v < 16 ==> v & 0xF == v,
        v < 128 ==> v & 0x7F == v,
        v & 0xFF == v,
        ((s & 0xFF) << 16) & 0xFF0007FF == 0,
        (((s & 0xFF) << 16) >> 16) & 0xFF == s & 0xFF,
        ({
            let d = (w << 11) | ((s & 0x7F) << 16);
            &&& d & 0xFF0007FF == 0
            &&& (d >> 11) & 0x1F == w
            &&& (d >> 16) & 0x7F == s & 0x7F
        }),
        ({
            let d = (w << 11) | ((s & 0xFF) << 16);
            &&& d & 0xFF0007FF == 0
            &&& (d >> 11) & 0x1F == w
            &&& (d >> 16) & 0xFF == s & 0xFF
        }),
        ((((x & 0xF) << 11) | (1u32 << 18)) | ((y & 0xF) << 19)) & 0xFF0007FF == 0,
        ((((x & 0xF) << 11) | 0u32) | ((y & 0xF) << 19)) & 0xFF0007FF == 0,
        ((((1u32 << 13) | ((z & 3) << 11)) | (1u32 << 18)) | ((y & 0xF) << 19)) & 0xFF0007FF == 0,
        ((((1u32 << 13) | ((z & 3) << 11)) | 0u32) | ((y & 0xF) << 19)) & 0xFF0007FF == 0,
        (((0u32 | ((z & 3) << 11)) | (1u32 << 18)) | ((y & 0xF) << 19)) & 0xFF0007FF == 0,
        (((0u32 | ((z & 3) << 11)) | 0u32) | ((y & 0xF) << 19)) & 0xFF0007FF == 0,
        ((((1u32 << 13) | 0u32) | (1u32 << 18)) | ((y & 0xF) << 19)) & 0xFF0007FF == 0,
        ((((1u32 << 13) | 0u32) | 0u32) | ((y & 0xF) << 19)) & 0xFF0007FF == 0,
        (((0u32 | 0u32) | (1u32 << 18)) | ((y & 0xF) << 19)) & 0xFF0007FF == 0,
        (((0u32 | 0u32) | 0u32) | ((y & 0xF) << 19)) & 0xFF0007FF == 0,
        0u32 & 0xFF0007FF == 0,
        (0u32 >> 11) & 1 == 0,
        (1u32 << 11) & 0xFF0007FF == 0,
        ((1u32 << 11) >> 11) & 1 == 1,
        (x & 0x3F) < 64,
        (x & 0xF) < 16,
{
}

proof fn lemma_flag_bits_small(list: Seq<Seq<char>>, n: nat)
    ensures
        flag_bits(list, n) < 256,
    decreases n,
{
    lemma_one_bits();
    if n > 0 {
        lemma_flag_bits_small(list, (n - 1) as nat);
        let a = flag_bits(list, (n - 1) as nat);
        let b = flag_bit(list[n - 1]);
        assert(b < 256);
        assert(a | b < 256) by (bit_vector)
            requires
                a < 256,
                b < 256,
        ;
    }
}

proof fn lemma_one_bits()
    by (bit_vector)
    ensures
        1u32 << 0u32 == 1,
        1u32 << 1u32 == 2,
        1u32 << 2u32 == 4,
        1u32 << 3u32 == 8,
        1u32 << 4u32 == 16,
        1u32 << 5u32 == 32,
        1u32 << 6u32 == 64,
        1u32 << 7u32 == 128,
{
}

/// The bits that an instruction's data put into its first token lie in their own field.
proof fn lemma_opdata_in_field(instr: InstructionModel)
    ensures
        opdata(instr) & 0xFF0007FF == 0,
{
    match instr.kind {
        KindModel::DclGlobalFlags { flags } => {
            lemma_flag_bits_small(flags, flags.len());
            lemma_data_shapes(flag_bits(flags, flags.len()), 0, 0, 0, 0, 0);
        },
        KindModel::DclInput { interpolation, .. } => match interpolation {
            Some(text) => {
                lemma_data_shapes(interpolation_value(text), 0, 0, 0, 0, 0);
            },
            None => {
                lemma_data_shapes(0, 0, 0, 0, 0, 0);
            },
        },
        KindModel::DclResource { dimension, sample_count, .. } => {
            lemma_data_shapes(0, sample_count, dimension_value(dimension), 0, 0, 0);
        },
        KindModel::DclSampler { mode, .. } => {
            lemma_data_shapes(sampler_value(mode), 0, 0, 0, 0, 0);
        },
        KindModel::DclGsInputPrimitive { primitive } => {
            lemma_data_shapes(0, 0, 0, primitive.raw(), 0, 0);
            lemma_data_shapes(primitive.raw() & 0x3F, 0, 0, 0, 0, 0);
        },
        KindModel::DclGsOutputTopology { topology } => {
            lemma_data_shapes(0, 0, 0, topology.raw(), 0, 0);
            lemma_data_shapes(topology.raw() & 0xF, 0, 0, 0, 0, 0);
        },
        KindModel::DclOutputControlPointCount { count } => {
            lemma_data_shapes(0, 0, 0, count, 0, 0);
            lemma_data_shapes(count & 0x3F, 0, 0, 0, 0, 0);
        },
        KindModel::DclInputControlPointCount { count } => {
            lemma_data_shapes(0, 0, 0, count, 0, 0);
            lemma_data_shapes(count & 0x3F, 0, 0, 0, 0, 0);
        },
        KindModel::DclTessDomain { domain } => {
            lemma_data_shapes(domain_value(domain), 0, 0, 0, 0, 0);
        },
        KindModel::DclTessPartitioning { partitioning } => {
            lemma_data_shapes(partitioning_value(partitioning), 0, 0, 0, 0, 0);
        },
        KindModel::DclTessOutputPrimitive { primitive } => {
            lemma_data_shapes(output_primitive_value(primitive), 0, 0, 0, 0, 0);
        },
        KindModel::DclUavTyped { dimension, flags, .. } => {
            lemma_data_shapes(0, flags, dimension_value(dimension), 0, 0, 0);
        },
        KindModel::DclUavRaw { flags, .. } => {
            lemma_data_shapes(0, flags, 0, 0, 0, 0);
        },
        KindModel::DclUavStructured { flags, .. } => {
            lemma_data_shapes(0, flags, 0, 0, 0, 0);
        },
        _ => {
            let z = match instr.resinfo_return_type {
                Some(rt) => rt,
                None => 0,
            };
            lemma_data_shapes(0, 0, 0, instr.sync_flags as u32, instr.precise_mask as u32, z);
        },
    }
}

/// The instruction has no extended tokens.
pub open spec fn unextended(instr: InstructionModel) -> bool {
    instr.tex_offsets is None && instr.resource_dim is None && instr.resource_return_type is None
}

/// The extended tokens can say all of what the instruction keeps of them: the offsets fit four bits, and
/// a kept token is of its own type, with bit 31 set where another follows it.
pub open spec fn extension_fits(instr: InstructionModel) -> bool {
    &&& instr.tex_offsets matches Some(o) ==> -8 <= o[0] < 8 && -8 <= o[1] < 8 && -8 <= o[2] < 8
    &&& instr.resource_dim matches Some(raw) ==> raw & 0x3F == 2 && bit(raw, 31) == (
    instr.resource_return_type is Some)
    &&& instr.resource_return_type matches Some(raw) ==> raw & 0x3F == 3 && !bit(raw, 31)
}

/// The bits that an instruction's payload puts into its first token.
pub open spec fn data_bits(instr: InstructionModel) -> u32 {
    match instr.kind {
        KindModel::CustomData { subtype, .. } => subtype.raw() << 11,
        _ => opdata(instr),
    }
}

/// The instruction's control fields are those that the bits of its first token say. A declaration has its
/// own data in those bits.
pub open spec fn controls_agree(instr: InstructionModel) -> bool {
    let d = data_bits(instr);
    let op = instr.opcode;
    &&& instr.saturate == (!(op is Sync) && bit(d, 13))
    &&& instr.test_nonzero == (conditional(op) && bit(d, 18))
    &&& instr.precise_mask == ((d >> 19) & 0xF) as u8
    &&& instr.resinfo_return_type == (if op is Resinfo {
        Some((d >> 11) & 0x3)
    } else {
        None
    })
    &&& instr.sync_flags == (if op is Sync {
        ((d >> 11) & 0xF) as u8
    } else {
        0
    })
}

/// A return type that its four-bit field can say.
pub open spec fn return_type_fits(rt: ReturnType) -> bool {
    rt.raw() < 16 && rt == ReturnType::of(rt.raw())
}

/// Four return types that their word can say.
pub open spec fn return_types_fit(rt: [ReturnType; 4]) -> bool {
    return_type_fits(rt[0]) && return_type_fits(rt[1]) && return_type_fits(rt[2]) && return_type_fits(rt[3])
}

/// A system value stands with the opcodes that have one, and its name is one that there is a number for.
pub open spec fn system_value_fits(valued: bool, sv: Option<Seq<char>>, operands: Seq<OperandModel>) -> bool {
    if valued {
        &&& operands.len() > 0
        &&& sv matches Some(text) && text == system_value_text(system_value_value(text))
    } else {
        sv is None
    }
}

/// The opcode is no declaration, no custom data and no phase marker.
pub open spec fn generic(op: Opcode) -> bool {
    !(op is CustomData || op is DclGlobalFlags || declares_input(op) || declares_output(op) || op is DclResource
        || op is DclUnorderedAccessViewTyped || op is DclUnorderedAccessViewRaw
        || op is DclUnorderedAccessViewStructured || op is DclResourceRaw || op is DclResourceStructured
        || op is DclIndexRange || op is DclSampler || op is DclConstantBuffer || op is DclTemps
        || op is DclIndexableTemp || op is DclGsInputPrimitive || op is DclGsOutputPrimitiveTopology
        || op is DclMaxOutputVertexCount || op is DclGsInstanceCount || op is DclOutputControlPointCount
        || op is DclInputControlPointCount || op is DclTessDomain || op is DclTessPartitioning
        || op is DclTessOutputPrimitive || op is DclHsMaxTessFactor || op is DclHsForkPhaseInstanceCount
        || op is DclHsJoinPhaseInstanceCount || op is DclThreadGroup || op is DclFunctionBody || op is DclFunctionTable
        || op is DclInterface || op is HsDecls || op is HsControlPointPhase || op is HsForkPhase || op is HsJoinPhase)
}

/// The payload is the opcode's own, and its fields hold what the words can say.
pub open spec fn payload_fits(op: Opcode, kind: KindModel) -> bool {
    operands_fit(kind.operands()) && match kind {
        KindModel::Generic { .. } => generic(op),
        KindModel::DclGlobalFlags { flags } => op is DclGlobalFlags && exists|bits: u32|
            bits < 256 && flags == #[trigger] flag_list(bits),
        KindModel::DclInput { interpolation, system_value, operands } => declares_input(op) && (if declares_pixel_input(
            op,
        ) {
            interpolation matches Some(text) && text == interpolation_text(interpolation_value(text))
        } else {
            interpolation is None
        }) && system_value_fits(declares_input_value(op), system_value, operands),
        KindModel::DclOutput { system_value, operands } => declares_output(op) && system_value_fits(
            declares_output_value(op),
            system_value,
            operands,
        ),
        KindModel::DclResource { dimension, sample_count, return_type, operands } => op is DclResource && dimension
            == dimension_text(dimension_value(dimension)) && sample_count < 128 && return_types_fit(return_type)
            && operands.len() > 0,
        KindModel::DclSampler { mode, .. } => op is DclSampler && mode == sampler_text(sampler_value(mode)),
        KindModel::DclConstantBuffer { access, .. } => op is DclConstantBuffer && access == access_text(
            access == "dynamicIndexed"@,
        ),
        KindModel::DclTemps { .. } => op is DclTemps,
        KindModel::DclIndexableTemp { .. } => op is DclIndexableTemp,
        KindModel::DclGsInputPrimitive { primitive } => op is DclGsInputPrimitive && primitive.raw() < 64 && primitive
            == GsPrimitive::of(primitive.raw()),
        KindModel::DclGsOutputTopology { .. } => op is DclGsOutputPrimitiveTopology,
        KindModel::DclMaxOutputVertexCount { .. } => op is DclMaxOutputVertexCount,
        KindModel::DclGsInstanceCount { .. } => op is DclGsInstanceCount,
        KindModel::DclOutputControlPointCount { count } => op is DclOutputControlPointCount && count < 64,
        KindModel::DclInputControlPointCount { count } => op is DclInputControlPointCount && count < 64,
        KindModel::DclTessDomain { domain } => op is DclTessDomain && domain == domain_text(domain_value(domain)),
        KindModel::DclTessPartitioning { partitioning } => op is DclTessPartitioning && partitioning
            == partitioning_text(partitioning_value(partitioning)),
        KindModel::DclTessOutputPrimitive { primitive } => op is DclTessOutputPrimitive && primitive
            == output_primitive_text(output_primitive_value(primitive)),
        KindModel::DclHsMaxTessFactor { .. } => op is DclHsMaxTessFactor,
        KindModel::DclHsForkPhaseInstanceCount { .. } => op is DclHsForkPhaseInstanceCount
            || op is DclHsJoinPhaseInstanceCount,
        KindModel::DclThreadGroup { .. } => op is DclThreadGroup,
        KindModel::DclUavTyped { dimension, flags, return_type, operands } => op is DclUnorderedAccessViewTyped
            && dimension == dimension_text(dimension_value(dimension)) && flags < 256 && return_types_fit(return_type)
            && operands.len() > 0,
        KindModel::DclUavRaw { flags, .. } => op is DclUnorderedAccessViewRaw && flags < 256,
        KindModel::DclUavStructured { flags, operands, .. } => op is DclUnorderedAccessViewStructured && flags < 256
            && operands.len() > 0,
        KindModel::DclResourceRaw { .. } => op is DclResourceRaw,
        KindModel::DclResourceStructured { operands, .. } => op is DclResourceStructured && operands.len() > 0,
        KindModel::DclFunctionBody { .. } => op is DclFunctionBody,
        KindModel::DclFunctionTable { .. } => op is DclFunctionTable,
        KindModel::DclInterface { .. } => op is DclInterface,
        KindModel::DclIndexRange { operands, .. } => op is DclIndexRange && operands.len() > 0,
        KindModel::HsPhase => op is HsDecls || op is HsControlPointPhase || op is HsForkPhase || op is HsJoinPhase,
        KindModel::CustomData { subtype, values, raw_dword_count, rest } => op is CustomData && subtype.raw() < 32
            && subtype == CustomDataType::of(subtype.raw()) && raw_dword_count == 2 + 4 * values.len() + rest.len() && (
        if subtype is ImmediateConstantBuffer {
            rest.len() < 4
        } else {
            values.len() == 0
        }) && raw_dword_count <= u32::MAX,
    }
}

/// An instruction that its words can say all of.
pub open spec fn instruction_fits(instr: InstructionModel) -> bool {
    &&& instr.opcode.code() <= 0x7FF
    &&& instr.opcode is Unknown ==> Opcode::unassigned(instr.opcode.code())
    &&& payload_fits(instr.opcode, instr.kind)
    &&& controls_agree(instr)
    &&& extension_fits(instr)
    &&& instr.kind is Generic || unextended(instr)
    &&& instr.kind is CustomData || instruction_words(instr).len() < 128
}

/// What the fields of an instruction's first token say.
proof fn lemma_first_token_fields(instr: InstructionModel)
    requires
        instr.opcode.code() <= 0x7FF,
        !(instr.kind is CustomData),
        instruction_words(instr).len() < 128,
    ensures
        ({
            let t = instruction_words(instr)[0];
            let d = opdata(instr);
            &&& t & 0x7FF == instr.opcode.code()
            &&& (t >> 24) & 0x7F == instruction_words(instr).len()
            &&& bit(t, 31) == (extended_words(instr).len() > 0)
            &&& (t >> 11) & 1 == (d >> 11) & 1
            &&& (t >> 11) & 3 == (d >> 11) & 3
            &&& (t >> 11) & 7 == (d >> 11) & 7
            &&& (t >> 11) & 0xF == (d >> 11) & 0xF
            &&& (t >> 11) & 0x1F == (d >> 11) & 0x1F
            &&& (t >> 11) & 0x3F == (d >> 11) & 0x3F
            &&& (t >> 11) & 0x1FFF == (d >> 11) & 0x1FFF
            &&& (t >> 13) & 1 == (d >> 13) & 1
            &&& (t >> 16) & 0x7F == (d >> 16) & 0x7F
            &&& (t >> 16) & 0xFF == (d >> 16) & 0xFF
            &&& (t >> 18) & 1 == (d >> 18) & 1
            &&& (t >> 19) & 0xF == (d >> 19) & 0xF
        }),
{
    let rest = extended_words(instr) + kind_words(instr.kind);
    let len = (1 + rest.len()) as u32;
    let e: u32 = if extended_words(instr).len() > 0 {
        1
    } else {
        0
    };
    lemma_opdata_in_field(instr);
    lemma_first_token_bits(instr.opcode.code(), opdata(instr), e, len);
    lemma_or_nothing((instr.opcode.code() & 0x7FF) | opdata(instr));
    assert(instruction_words(instr)[0] == first_token(instr, 1 + rest.len()));
}

proof fn lemma_extended_bits(a: u32, b: u32, c: u32, r: u32)
    by (bit_vector)
    requires
        a < 16,
        b < 16,
        c < 16,
    ensures
        ({
            let x = ((1u32 | (a << 9)) | (b << 13)) | (c << 17);
            let y = x | (1u32 << 31);
            &&& x & 0x3F == 1
            &&& (x >> 9) & 0xF == a
            &&& (x >> 13) & 0xF == b
            &&& (x >> 17) & 0xF == c
            &&& (x >> 31) & 1 == 0
            &&& y & 0x3F == 1
            &&& (y >> 9) & 0xF == a
            &&& (y >> 13) & 0xF == b
            &&& (y >> 17) & 0xF == c
            &&& (y >> 31) & 1 == 1
        }),
        (r >> 31) & 1 == 0 ==> r & 0x7FFF_FFFF == r,
        (r >> 31) & 1 != 0 ==> (r & 0x7FFF_FFFF) | (1u32 << 31) == r,
        a & 0xF < 16,
        r & 0xF < 16,
{
}

proof fn lemma_sign4(o: i8)
    by (bit_vector)
    requires
        -8 <= o < 8,
    ensures
        o >= 0 ==> (o as u32) & 0xF == o as u32,
        o < 0 ==> (o as u32) & 0xF == (o + 16) as u32,
{
}

proof fn lemma_offset_reads(o: i8)
    requires
        -8 <= o < 8,
    ensures
        sign4((o as u32) & 0xF) == o,
        (o as u32) & 0xF < 16,
{
    lemma_sign4(o);
    lemma_extended_bits(0, 0, 0, o as u32);
}

/// What an instruction keeps of its extended tokens is what is read from them, and its operands start
/// behind them.
#[verifier::rlimit(60)]
#[verifier::spinoff_prover]
proof fn lemma_extension_reads(instr: InstructionModel, t: Seq<u32>)
    requires
        extension_fits(instr),
        t.len() > 0,
        stand(t, 1, extended_words(instr)),
        bit(t[0], 31) == (extended_words(instr).len() > 0),
    ensures
        extended_of(t) == (Extended {
            tex_offsets: instr.tex_offsets,
            resource_dim: instr.resource_dim,
            resource_return_type: instr.resource_return_type,
        }),
        operands_start(t) == 1 + extended_words(instr).len(),
{
    let e = extended_words(instr);
    let loose = loose_extended(instr);
    reveal_with_fuel(extended_from, 4);
    reveal_with_fuel(behind_extended, 4);
    if let Some(o) = instr.tex_offsets {
        lemma_offset_reads(o[0]);
        lemma_offset_reads(o[1]);
        lemma_offset_reads(o[2]);
        lemma_extended_bits((o[0] as u32) & 0xF, (o[1] as u32) & 0xF, (o[2] as u32) & 0xF, 0);
        let x = offsets_word(o);
        let nothing = Extended { tex_offsets: None, resource_dim: None, resource_return_type: None };
        assert(extended_by(nothing, x).tex_offsets->0 =~= o);
        assert(extended_by(nothing, x | (1u32 << 31)).tex_offsets->0 =~= o);
    }
    if let Some(raw) = instr.resource_dim {
        lemma_extended_bits(0, 0, 0, raw);
    }
    if let Some(raw) = instr.resource_return_type {
        lemma_extended_bits(0, 0, 0, raw);
    }
    assert(e.len() == loose.len() <= 3);
    if e.len() > 0 {
        assert(t[1int + 0] == e[0]);
    }
    if e.len() > 1 {
        assert(t[1int + 1] == e[1]);
    }
    if e.len() > 2 {
        assert(t[1int + 2] == e[2]);
    }
}

proof fn lemma_return_bits(a: u32, b: u32, c: u32, d: u32)
    by (bit_vector)
    requires
        a < 16,
        b < 16,
        c < 16,
        d < 16,
    ensures
        ({
            let x = ((a | (b << 4)) | (c << 8)) | (d << 12);
            &&& x & 0xF == a
            &&& (x >> 4) & 0xF == b
            &&& (x >> 8) & 0xF == c
            &&& (x >> 12) & 0xF == d
        }),
{
}

proof fn lemma_return_types_read(rt: [ReturnType; 4])
    requires
        return_types_fit(rt),
    ensures
        return_types(return_type_word(rt)) == rt,
{
    lemma_return_bits(rt[0].raw(), rt[1].raw(), rt[2].raw(), rt[3].raw());
    assert(return_types(return_type_word(rt)) =~= rt);
}

/// The words of an instruction without extended tokens: its first token and its payload's words.
proof fn lemma_unextended_words(instr: InstructionModel)
    requires
        unextended(instr),
        !(instr.kind is CustomData),
    ensures
        extended_words(instr).len() == 0,
        instruction_words(instr).len() == 1 + kind_words(instr.kind).len(),
        stand(instruction_words(instr), 1, kind_words(instr.kind)),
{
    let k = kind_words(instr.kind);
    assert(extended_words(instr) =~= Seq::empty());
    assert(extended_words(instr) + k =~= k);
    let w = instruction_words(instr);
    assert(w =~= seq![w[0]] + k);
    assert forall|i: int| 0 <= i < k.len() implies w[1 + i] == #[trigger] k[i] by {}
}

/// Operands that fill the rest of an instruction are read back.
proof fn lemma_operands_only(instr: InstructionModel, ops: Seq<OperandModel>)
    requires
        unextended(instr),
        !(instr.kind is CustomData),
        operands_fit(ops),
        kind_words(instr.kind) == operands_words(ops, ops.len()),
    ensures
        operands_from(instruction_words(instr), 1) == ops,
{
    lemma_unextended_words(instr);
    lemma_operands_read(ops, instruction_words(instr), 1);
}

/// Operands with one word behind them are read back.
proof fn lemma_operands_then_word(instr: InstructionModel, ops: Seq<OperandModel>, last: u32)
    requires
        unextended(instr),
        !(instr.kind is CustomData),
        operands_fit(ops),
        ops.len() > 0,
        kind_words(instr.kind) == operands_words(ops, ops.len()) + seq![last],
    ensures
        instruction_words(instr).len() >= 3,
        instruction_words(instr).last() == last,
        operands_from(instruction_words(instr).drop_last(), 1) == ops,
{
    lemma_unextended_words(instr);
    let w = instruction_words(instr);
    let o = operands_words(ops, ops.len());
    let tail = seq![last];
    lemma_stand_parts(w, 1, o, tail);
    assert(w[1int + o.len() + 0] == tail[0]);
    let t = w.drop_last();
    assert forall|i: int| 0 <= i < o.len() implies t[1 + i] == #[trigger] o[i] by {
        assert(w[1 + i] == o[i]);
    }
    lemma_operands_read(ops, t, 1);
}

spec fn flag_names() -> Seq<Seq<char>> {
    seq![
        "refactoringAllowed"@,
        "enableDoublePrecisionFloatOps"@,
        "forceEarlyDepthStencil"@,
        "enableRawAndStructuredBuffers"@,
        "skipOptimization"@,
        "enableMinPrecision"@,
        "enable11_1DoubleExtensions"@,
        "enable11_1ShaderExtensions"@,
    ]
}

/// The names of the global flags stand for different bits.
proof fn lemma_flag_bits_apart()
    ensures
        forall|i: int| 0 <= i < 8 ==> flag_bit(#[trigger] flag_names()[i]) == 1u32 << (i as u32),
{
    reveal_strlit("refactoringAllowed");
    reveal_strlit("enableDoublePrecisionFloatOps");
    reveal_strlit("forceEarlyDepthStencil");
    reveal_strlit("enableRawAndStructuredBuffers");
    reveal_strlit("skipOptimization");
    reveal_strlit("enableMinPrecision");
    reveal_strlit("enable11_1DoubleExtensions");
    reveal_strlit("enable11_1ShaderExtensions");
    let a = "refactoringAllowed"@;
    let b = "enableDoublePrecisionFloatOps"@;
    let c = "forceEarlyDepthStencil"@;
    let d = "enableRawAndStructuredBuffers"@;
    let e = "skipOptimization"@;
    let f = "enableMinPrecision"@;
    let g = "enable11_1DoubleExtensions"@;
    let h = "enable11_1ShaderExtensions"@;
    assert(a[0] == 'r' && f[0] == 'e');
    assert(b[6] == 'D' && d[6] == 'R');
    assert(g[10] == 'D' && h[10] == 'S');
    assert(a.len() == 18 && b.len() == 29 && c.len() == 22 && d.len() == 29 && e.len() == 16 && f.len() == 18
        && g.len() == 26 && h.len() == 26);
}

/// The bits of the flags below `n`.
spec fn low_bits(bits: u32, n: nat) -> u32
    decreases n,
{
    if n == 0 {
        0
    } else {
        let m = (n - 1) as u32;
        low_bits(bits, (n - 1) as nat) | (if bits & (1u32 << m) != 0 {
            1u32 << m
        } else {
            0
        })
    }
}

/// The names of the flags below `n`.
spec fn low_list(bits: u32, n: nat) -> Seq<Seq<char>>
    decreases n,
{
    if n == 0 {
        Seq::empty()
    } else {
        with_flag(low_list(bits, (n - 1) as nat), bits, (n - 1) as u32, flag_names()[n - 1])
    }
}

proof fn lemma_flag_bits_prefix(list: Seq<Seq<char>>, name: Seq<char>, n: nat)
    requires
        n <= list.len(),
    ensures
        flag_bits(list.push(name), n) == flag_bits(list, n),
    decreases n,
{
    if n > 0 {
        lemma_flag_bits_prefix(list, name, (n - 1) as nat);
    }
}

proof fn lemma_low_flags(bits: u32, n: nat)
    requires
        n <= 8,
    ensures
        flag_bits(low_list(bits, n), low_list(bits, n).len()) == low_bits(bits, n),
    decreases n,
{
    if n > 0 {
        lemma_low_flags(bits, (n - 1) as nat);
        lemma_flag_bits_apart();
        let before = low_list(bits, (n - 1) as nat);
        let name = flag_names()[n - 1];
        lemma_or_nothing(low_bits(bits, (n - 1) as nat));
        if bits & (1u32 << ((n - 1) as u32)) != 0 {
            lemma_flag_bits_prefix(before, name, before.len());
        }
    }
}

proof fn lemma_low_bits_whole(bits: u32)
    requires
        bits < 256,
    ensures
        low_bits(bits, 8) == bits,
{
    reveal_with_fuel(low_bits, 9);
    assert(bits < 256 ==> (((((((0u32 | (if bits & (1u32 << 0u32) != 0 { 1u32 << 0u32 } else { 0u32 })) | (if bits & (
    1u32 << 1u32) != 0 { 1u32 << 1u32 } else { 0u32 })) | (if bits & (1u32 << 2u32) != 0 { 1u32 << 2u32 } else { 0u32
    })) | (if bits & (1u32 << 3u32) != 0 { 1u32 << 3u32 } else { 0u32 })) | (if bits & (1u32 << 4u32) != 0 { 1u32
        << 4u32 } else { 0u32 })) | (if bits & (1u32 << 5u32) != 0 { 1u32 << 5u32 } else { 0u32 })) | (if bits & (1u32
        << 6u32) != 0 { 1u32 << 6u32 } else { 0u32 })) | (if bits & (1u32 << 7u32) != 0 { 1u32 << 7u32 } else { 0u32 })
        == bits) by (bit_vector);
}

/// The names of the flags that are set stand for the bits that they came from.
pub proof fn lemma_flags_read(bits: u32)
    requires
        bits < 256,
    ensures
        flag_bits(flag_list(bits), flag_list(bits).len()) == bits,
{
    reveal_with_fuel(low_list, 9);
    assert(flag_list(bits) == low_list(bits, 8));
    lemma_low_flags(bits, 8);
    lemma_low_bits_whole(bits);
}

proof fn lemma_custom_token_bits(code: u32, raw: u32)
    by (bit_vector)
    requires
        code <= 0x7FF,
        raw < 32,
    ensures
        ({
            let t = (code & 0x7FF) | (raw << 11);
            let d = raw << 11;
            &&& t & 0x7FF == code
            &&& (t >> 31) & 1 == 0
            &&& (t >> 11) & 0x1F == raw
            &&& (t >> 11) & 3 == (d >> 11) & 3
            &&& (t >> 11) & 0xF == (d >> 11) & 0xF
            &&& (t >> 13) & 1 == (d >> 13) & 1
            &&& (t >> 18) & 1 == (d >> 18) & 1
            &&& (t >> 19) & 0xF == (d >> 19) & 0xF
        }),
{
}

pub proof fn lemma_rows_laid(rows: Seq<[u32; 4]>, n: nat)
    requires
        n <= rows.len(),
    ensures
        rows_words(rows, n).len() == 4 * n,
        forall|i: int, k: int|
            0 <= i < n && 0 <= k < 4 ==> rows_words(rows, n)[4 * i + k] == #[trigger] rows[i][k],
    decreases n,
{
    if n > 0 {
        let m = (n - 1) as nat;
        lemma_rows_laid(rows, m);
        let before = rows_words(rows, m);
        assert(rows_words(rows, n) == before + rows[m as int]@);
        assert forall|i: int, k: int| 0 <= i < n && 0 <= k < 4 implies rows_words(rows, n)[4 * i + k]
            == #[trigger] rows[i][k] by {
            if i < m {
                assert(before[4 * i + k] == rows[i][k]);
            } else {
                assert(rows_words(rows, n)[4 * i + k] == rows[m as int]@[k]);
            }
        }
    }
}

/// A custom data block is read back.
#[verifier::rlimit(60)]
#[verifier::spinoff_prover]
proof fn lemma_custom_reads(instr: InstructionModel)
    requires
        instruction_fits(instr),
        instr.kind is CustomData,
    ensures
        instruction_of(instruction_words(instr), instr.opcode) == instr,
        instruction_words(instr)[0] & 0x7FF == instr.opcode.code(),
        instruction_words(instr).len() >= 2,
        instruction_words(instr)[1] == instruction_words(instr).len(),
{
    if let KindModel::CustomData { subtype, values, raw_dword_count, rest } = instr.kind {
        let t = instruction_words(instr);
        let code = instr.opcode.code();
        lemma_custom_token_bits(code, subtype.raw());
        lemma_rows_laid(values, values.len());
        let rows = rows_words(values, values.len());
        assert(t == seq![(code & 0x7FF) | (subtype.raw() << 11), raw_dword_count as u32] + rows + rest);
        assert(t.len() == 2 + 4 * values.len() + rest.len());
        assert(words_from(t, (2 + 4 * values.len()) as int, t.len() as int) =~= rest);
        if subtype is ImmediateConstantBuffer {
            assert(rows_of(t) =~= values) by {
                assert forall|i: int| 0 <= i < values.len() implies rows_of(t)[i] == values[i] by {
                    assert(rows[4 * i + 0] == values[i][0]);
                    assert(rows[4 * i + 1] == values[i][1]);
                    assert(rows[4 * i + 2] == values[i][2]);
                    assert(rows[4 * i + 3] == values[i][3]);
                    assert(t[2 + (4 * i + 0)] == rows[4 * i + 0]);
                    assert(t[2 + (4 * i + 1)] == rows[4 * i + 1]);
                    assert(t[2 + (4 * i + 2)] == rows[4 * i + 2]);
                    assert(t[2 + (4 * i + 3)] == rows[4 * i + 3]);
                    assert(rows_of(t)[i] =~= values[i]);
                }
            }
        } else {
            assert(values =~= Seq::empty());
        }
        assert(kind_of(t, instr.opcode) == instr.kind);
        assert(instruction_of(t, instr.opcode) == instr);
    }
}

/// A declaration with operands is read back.
#[verifier::rlimit(60)]
#[verifier::spinoff_prover]
proof fn lemma_operand_kind_reads(instr: InstructionModel)
    requires
        instruction_fits(instr),
        instr.kind is DclInput || instr.kind is DclOutput || instr.kind is DclResource || instr.kind is DclSampler
            || instr.kind is DclConstantBuffer || instr.kind is DclUavTyped || instr.kind is DclUavRaw
            || instr.kind is DclUavStructured || instr.kind is DclResourceRaw || instr.kind is DclResourceStructured
            || instr.kind is DclIndexRange,
    ensures
        kind_of(instruction_words(instr), instr.opcode) == instr.kind,
{
    lemma_first_token_fields(instr);
    let d = opdata(instr);
    match instr.kind {
        KindModel::DclInput { interpolation, system_value, operands } => {
            if let Some(text) = interpolation {
                lemma_data_shapes(interpolation_value(text), 0, 0, 0, 0, 0);
            }
            if let Some(text) = system_value {
                lemma_operands_then_word(instr, operands, system_value_value(text));
            } else {
                assert(kind_words(instr.kind) =~= operands_words(operands, operands.len()));
                lemma_operands_only(instr, operands);
            }
        },
        KindModel::DclOutput { system_value, operands } => {
            if let Some(text) = system_value {
                lemma_operands_then_word(instr, operands, system_value_value(text));
            } else {
                assert(kind_words(instr.kind) =~= operands_words(operands, operands.len()));
                lemma_operands_only(instr, operands);
            }
        },
        KindModel::DclResource { dimension, sample_count, return_type, operands } => {
            lemma_data_shapes(sample_count, sample_count, dimension_value(dimension), 0, 0, 0);
            lemma_return_types_read(return_type);
            lemma_operands_then_word(instr, operands, return_type_word(return_type));
        },
        KindModel::DclSampler { mode, operands } => {
            lemma_data_shapes(sampler_value(mode), 0, 0, 0, 0, 0);
            lemma_operands_only(instr, operands);
        },
        KindModel::DclConstantBuffer { access, operands } => {
            lemma_data_shapes(0, 0, 0, 0, 0, 0);
            lemma_operands_only(instr, operands);
        },
        KindModel::DclUavTyped { dimension, flags, return_type, operands } => {
            lemma_data_shapes(flags, flags, dimension_value(dimension), 0, 0, 0);
            lemma_return_types_read(return_type);
            lemma_operands_then_word(instr, operands, return_type_word(return_type));
        },
        KindModel::DclUavRaw { flags, operands } => {
            lemma_data_shapes(flags, flags, 0, 0, 0, 0);
            lemma_operands_only(instr, operands);
        },
        KindModel::DclUavStructured { flags, stride, operands } => {
            lemma_data_shapes(flags, flags, 0, 0, 0, 0);
            lemma_operands_then_word(instr, operands, stride);
        },
        KindModel::DclResourceRaw { operands } => {
            lemma_operands_only(instr, operands);
        },
        KindModel::DclResourceStructured { stride, operands } => {
            lemma_operands_then_word(instr, operands, stride);
        },
        KindModel::DclIndexRange { operands, count } => {
            lemma_operands_then_word(instr, operands, count);
        },
        _ => {},
    }
}

/// A declaration with all its data in the first token is read back.
#[verifier::rlimit(60)]
#[verifier::spinoff_prover]
proof fn lemma_token_kind_reads(instr: InstructionModel)
    requires
        instruction_fits(instr),
        instr.kind is DclGlobalFlags || instr.kind is DclGsInputPrimitive || instr.kind is DclGsOutputTopology
            || instr.kind is DclOutputControlPointCount || instr.kind is DclInputControlPointCount
            || instr.kind is DclTessDomain || instr.kind is DclTessPartitioning || instr.kind is DclTessOutputPrimitive,
    ensures
        kind_of(instruction_words(instr), instr.opcode) == instr.kind,
{
    lemma_first_token_fields(instr);
    match instr.kind {
        KindModel::DclGlobalFlags { flags } => {
            let bits = choose|bits: u32| bits < 256 && flags == #[trigger] flag_list(bits);
            lemma_flags_read(bits);
            lemma_data_shapes(bits, 0, 0, 0, 0, 0);
        },
        KindModel::DclGsInputPrimitive { primitive } => {
            lemma_data_shapes(primitive.raw(), 0, 0, 0, 0, 0);
        },
        KindModel::DclGsOutputTopology { topology } => {
            lemma_data_shapes(topology.raw(), 0, 0, 0, 0, 0);
        },
        KindModel::DclOutputControlPointCount { count } => {
            lemma_data_shapes(count, 0, 0, 0, 0, 0);
        },
        KindModel::DclInputControlPointCount { count } => {
            lemma_data_shapes(count, 0, 0, 0, 0, 0);
        },
        KindModel::DclTessDomain { domain } => {
            lemma_data_shapes(domain_value(domain), 0, 0, 0, 0, 0);
        },
        KindModel::DclTessPartitioning { partitioning } => {
            lemma_data_shapes(partitioning_value(partitioning), 0, 0, 0, 0, 0);
        },
        KindModel::DclTessOutputPrimitive { primitive } => {
            lemma_data_shapes(output_primitive_value(primitive), 0, 0, 0, 0, 0);
        },
        _ => {},
    }
}

/// A declaration with its data in words of their own is read back.
#[verifier::rlimit(60)]
#[verifier::spinoff_prover]
proof fn lemma_word_kind_reads(instr: InstructionModel)
    requires
        instruction_fits(instr),
        instr.kind is DclTemps || instr.kind is DclIndexableTemp || instr.kind is DclMaxOutputVertexCount
            || instr.kind is DclGsInstanceCount || instr.kind is DclHsMaxTessFactor
            || instr.kind is DclHsForkPhaseInstanceCount || instr.kind is DclThreadGroup
            || instr.kind is DclFunctionBody || instr.kind is DclFunctionTable || instr.kind is DclInterface
            || instr.kind is HsPhase,
    ensures
        kind_of(instruction_words(instr), instr.opcode) == instr.kind,
{
    lemma_unextended_words(instr);
    let t = instruction_words(instr);
    let k = kind_words(instr.kind);
    if k.len() > 0 {
        assert(t[1int + 0] == k[0]);
    }
    if k.len() > 1 {
        assert(t[1int + 1] == k[1]);
    }
    if k.len() > 2 {
        assert(t[1int + 2] == k[2]);
    }
    match instr.kind {
        KindModel::DclFunctionTable { table_index, body_indices } => {
            assert(words_from(t, 3, body_indices.len() as int) =~= body_indices) by {
                assert forall|i: int| 0 <= i < body_indices.len() implies t[3 + i] == body_indices[i] by {
                    assert(t[1 + (2 + i)] == k[2 + i]);
                }
            }
        },
        KindModel::DclInterface { interface_index, num_call_sites, table_indices } => {
            assert(words_from(t, 4, table_indices.len() as int) =~= table_indices) by {
                assert forall|i: int| 0 <= i < table_indices.len() implies t[4 + i] == table_indices[i] by {
                    assert(t[1 + (3 + i)] == k[3 + i]);
                }
            }
        },
        _ => {},
    }
}

/// An instruction that its words can say all of is what its words are read as.
pub proof fn law_instruction_comes_back(instr: InstructionModel)
    requires
        instruction_fits(instr),
    ensures
        instruction_of(instruction_words(instr), instr.opcode) == instr,
{
    let t = instruction_words(instr);
    if instr.kind is CustomData {
        lemma_custom_reads(instr);
    } else {
        lemma_first_token_fields(instr);
        let e = extended_words(instr);
        let k = kind_words(instr.kind);
        let first = seq![t[0]];
        assert(t =~= first + (e + k));
        assert(stand(t, 0, first + (e + k)));
        lemma_stand_parts(t, 0, first, e + k);
        lemma_stand_parts(t, 1, e, k);
        lemma_extension_reads(instr, t);
        if let KindModel::Generic { operands } = instr.kind {
            lemma_operands_read(operands, t, 1 + e.len());
            assert(kind_of(t, instr.opcode) == instr.kind);
        } else if instr.kind is DclGlobalFlags || instr.kind is DclGsInputPrimitive || instr.kind is DclGsOutputTopology
            || instr.kind is DclOutputControlPointCount || instr.kind is DclInputControlPointCount
            || instr.kind is DclTessDomain || instr.kind is DclTessPartitioning
            || instr.kind is DclTessOutputPrimitive {
            lemma_token_kind_reads(instr);
        } else if instr.kind is DclTemps || instr.kind is DclIndexableTemp || instr.kind is DclMaxOutputVertexCount
            || instr.kind is DclGsInstanceCount || instr.kind is DclHsMaxTessFactor
            || instr.kind is DclHsForkPhaseInstanceCount || instr.kind is DclThreadGroup
            || instr.kind is DclFunctionBody || instr.kind is DclFunctionTable || instr.kind is DclInterface
            || instr.kind is HsPhase {
            lemma_word_kind_reads(instr);
        } else {
            lemma_operand_kind_reads(instr);
        }
        assert(instruction_of(t, instr.opcode) == instr);
    }
}

proof fn lemma_bytes_hold_words(words: Seq<u32>, n: nat)
    requires
        n <= words.len(),
    ensures
        words_bytes(words, n).len() == 4 * n,
        forall|i: int| 0 <= i < n ==> le32(words_bytes(words, n), 4 * i) == #[trigger] words[i],
    decreases n,
{
    if n > 0 {
        let m = (n - 1) as nat;
        lemma_bytes_hold_words(words, m);
        let before = words_bytes(words, m);
        let all = words_bytes(words, n);
        assert(all == before + bytes32(words[m as int]));
        assert forall|i: int| 0 <= i < n implies le32(all, 4 * i) == #[trigger] words[i] by {
            if i < m {
                assert(le32(before, 4 * i) == words[i]);
                assert(all[4 * i] == before[4 * i] && all[4 * i + 1] == before[4 * i + 1] && all[4 * i + 2]
                    == before[4 * i + 2] && all[4 * i + 3] == before[4 * i + 3]);
            } else {
                assert(all.subrange(4 * i, 4 * i + 4) =~= bytes32(words[i]));
                lemma_read_back32(all, 4 * i, words[i]);
            }
        }
    }
}

proof fn lemma_instructions_stand(instrs: Seq<InstructionModel>, t: Seq<u32>, pos: nat, n: nat)
    requires
        n <= instrs.len(),
        stand(t, pos, stream_words(instrs, n)),
    ensures
        forall|i: nat|
            i < n ==> stand(t, pos + (#[trigger] stream_words(instrs, i)).len(), instruction_words(instrs[i as int])),
    decreases n,
{
    if n > 0 {
        let m = (n - 1) as nat;
        lemma_stand_parts(t, pos, stream_words(instrs, m), instruction_words(instrs[m as int]));
        lemma_instructions_stand(instrs, t, pos, m);
    }
}

/// The words of an instruction that they can say all of say how many there are.
proof fn lemma_length_reads(instr: InstructionModel, t: Seq<u32>, data: Seq<u8>, pos: nat)
    requires
        instruction_fits(instr),
        stand(t, pos, instruction_words(instr)),
        data == words_bytes(t, t.len()),
    ensures
        instruction_words(instr).len() >= 1,
        Opcode::of(le32(data, 4 * pos as int) & 0x7FF) == instr.opcode,
        length_at(data, 4 * pos, data.len()) == instruction_words(instr).len(),
        words_at(data, 4 * pos, instruction_words(instr).len()) == instruction_words(instr),
{
    let w = instruction_words(instr);
    lemma_bytes_hold_words(t, t.len());
    assert(t[pos as int + 0] == w[0]);
    assert(le32(data, 4 * (pos as int)) == t[pos as int]);
    if instr.kind is CustomData {
        lemma_custom_reads(instr);
        assert(t[pos as int + 1] == w[1]);
        assert(le32(data, 4 * (pos as int + 1)) == t[pos as int + 1]);
    } else {
        lemma_first_token_fields(instr);
    }
    let op = instr.opcode;
    assert(op.code() == instr.opcode.code() && (op is Unknown <==> Opcode::unassigned(op.code()))) by {
        if !(op is Unknown) {
            lemma_known_assigned(op);
        }
    }
    law_code_tells_opcodes_apart(op, Opcode::of(op.code()));
    assert(words_at(data, 4 * pos, w.len()) =~= w) by {
        assert forall|i: int| 0 <= i < w.len() implies le32(data, (4 * pos) as int + 4 * i) == w[i] by {
            assert(t[pos + i] == w[i]);
            assert(le32(data, 4 * (pos + i)) == t[pos + i]);
        }
    }
}

proof fn lemma_known_assigned(op: Opcode)
    requires
        !(op is Unknown),
    ensures
        !Opcode::unassigned(op.code()),
{
}

#[verifier::rlimit(60)]
#[verifier::spinoff_prover]
proof fn lemma_stream_reads(instrs: Seq<InstructionModel>, t: Seq<u32>, data: Seq<u8>, k: nat)
    requires
        forall|i: int| 0 <= i < instrs.len() ==> instruction_fits(#[trigger] instrs[i]),
        k <= instrs.len(),
        stand(t, 2, stream_words(instrs, instrs.len())),
        t.len() == 2 + stream_words(instrs, instrs.len()).len(),
        data == words_bytes(t, t.len()),
    ensures
        stream(data, 4 * (2 + stream_words(instrs, k).len()), data.len()) == (
            instrs.subrange(k as int, instrs.len() as int),
            Seq::<Seq<char>>::empty(),
        ),
    decreases instrs.len() - k,
{
    lemma_bytes_hold_words(t, t.len());
    let pos = 2 + stream_words(instrs, k).len();
    if k == instrs.len() {
        assert(instrs.subrange(k as int, instrs.len() as int) =~= Seq::empty());
    } else {
        let one = instrs[k as int];
        lemma_instructions_stand(instrs, t, 2, instrs.len());
        assert(stand(t, pos, instruction_words(one)));
        lemma_length_reads(one, t, data, pos);
        law_instruction_comes_back(one);
        lemma_stream_reads(instrs, t, data, k + 1);
        let n = instruction_words(one).len();
        assert(stream_words(instrs, k + 1).len() == stream_words(instrs, k).len() + n);
        assert(4 * pos + n * 4 == 4 * (2 + stream_words(instrs, k + 1).len()));
        assert(instrs.subrange(k as int, instrs.len() as int) =~= seq![one] + instrs.subrange(
            k as int + 1,
            instrs.len() as int,
        ));
    }
}

/// A program that its bytes can say all of: a known stage, versions that fit their fields, no warnings,
/// instructions that their words can say all of, and no more words than the header can count.
pub open spec fn program_fits(p: ProgramModel) -> bool {
    &&& p.shader_type == stage_text(stage_value(p.shader_type))
    &&& p.major_version < 16
    &&& p.minor_version < 16
    &&& p.warnings.len() == 0
    &&& forall|i: int| 0 <= i < p.instructions.len() ==> instruction_fits(#[trigger] p.instructions[i])
    &&& program_words(p).len() <= u32::MAX
}

proof fn lemma_version_bits(stage: u32, major: u32, minor: u32)
    by (bit_vector)
    requires
        stage < 16,
        major < 16,
        minor < 16,
    ensures
        ({
            let v = ((stage << 16) | (major << 4)) | minor;
            &&& (v >> 16) & 0xFFFF == stage
            &&& (v >> 4) & 0xF == major
            &&& v & 0xF == minor
        }),
{
}

/// Encoding and then decoding gives the program back.
pub proof fn law_program_comes_back(p: ProgramModel)
    requires
        program_fits(p),
    ensures
        program_of(program_bytes(p), p.fourcc) == p,
        program_bytes(p).len() >= 8,
{
    let t = program_words(p);
    let data = program_bytes(p);
    let n = p.instructions.len();
    let body = stream_words(p.instructions, n);
    lemma_bytes_hold_words(t, t.len());
    lemma_version_bits(stage_value(p.shader_type), p.major_version, p.minor_version);
    assert(le32(data, 4int * 0) == t[0]);
    assert(le32(data, 4int * 1) == t[1]);
    assert forall|i: int| 0 <= i < body.len() implies t[2 + i] == #[trigger] body[i] by {}
    assert(stand(t, 2, body));
    assert(stream_end(data) == data.len());
    lemma_stream_reads(p.instructions, t, data, 0);
    assert(p.instructions.subrange(0, n as int) =~= p.instructions);
    assert(stream_words(p.instructions, 0).len() == 0);
    let got = program_of(data, p.fourcc);
    assert(got.warnings =~= p.warnings);
    assert(got.instructions == p.instructions);
    assert(got == p);
}

/// Decoding an encoded program and encoding it again gives the same bytes.
pub proof fn law_bytes_come_back(p: ProgramModel)
    requires
        program_fits(p),
    ensures
        program_bytes(program_of(program_bytes(p), p.fourcc)) == program_bytes(p),
{
    law_program_comes_back(p);
}

/// An operand that decoding gives has room in its token for its index levels.
proof fn lemma_operand_levels(t: Seq<u32>, pos: nat)
    ensures
        index_levels_fit(operand_at(t, pos).0),
    decreases left(t, pos), 0nat,
{
    let op = operand_at(t, pos).0;
    reveal_with_fuel(nested_levels_fit, 4);
    if pos < t.len() {
        let token = t[pos as int];
        let dims = (token >> 20) & 0x3;
        let head: nat = if bit(token, 31) && pos + 1 < t.len() {
            2
        } else {
            1
        };
        if dims != 0 {
            let n0 = index_at(t, pos + head, (token >> 22) & 0x7).1;
            lemma_index_levels(t, pos + head, (token >> 22) & 0x7);
            if dims != 1 {
                let n1 = index_at(t, pos + head + n0, (token >> 25) & 0x7).1;
                lemma_index_levels(t, pos + head + n0, (token >> 25) & 0x7);
                if dims != 2 {
                    lemma_index_levels(t, pos + head + n0 + n1, (token >> 28) & 0x7);
                }
            }
        }
    }
    assert(op.indices.len() <= 3);
    assert(nested_levels_fit(op.indices, op.indices.len()));
}

/// An index level that decoding gives holds no operand without such room.
proof fn lemma_index_levels(t: Seq<u32>, pos: nat, repr: u32)
    ensures
        index_level_fits(index_at(t, pos, repr).0),
    decreases left(t, pos), 1nat,
{
    if repr == 2 {
        lemma_operand_levels(t, pos);
    } else if repr == 3 && pos < t.len() {
        lemma_operand_levels(t, pos + 1);
    }
}

/// Operands that decoding gives all have such room.
proof fn lemma_operands_levels(t: Seq<u32>, pos: nat)
    ensures
        all_levels_fit(operands_from(t, pos)),
    decreases left(t, pos),
{
    if pos < t.len() {
        let (op, n) = operand_at(t, pos);
        lemma_operand_levels(t, pos);
        if n != 0 {
            lemma_operands_levels(t, pos + n);
        }
    }
}

/// Instructions that decoding gives hold only such operands.
proof fn lemma_stream_levels(data: Seq<u8>, offset: nat, end: nat)
    ensures
        forall|i: int|
            0 <= i < stream(data, offset, end).0.len() ==> all_levels_fit(
                (#[trigger] stream(data, offset, end).0[i]).kind.operands(),
            ),
    decreases end - offset,
{
    if offset + 4 <= end {
        let n = length_at(data, offset, end);
        if n != 0 && offset + n * 4 <= end {
            let t = words_at(data, offset, n);
            lemma_operands_levels(t, 1);
            lemma_operands_levels(t.drop_last(), 1);
            lemma_operands_levels(before_trailer(t), 1);
            lemma_operands_levels(t, operands_start(t));
            lemma_stream_levels(data, offset + n * 4, end);
        }
    }
}

/// Whatever decoding gives can be encoded.
pub proof fn law_decoded_program_encodes(data: Seq<u8>, fourcc: [u8; 4])
    ensures
        program_levels_fit(program_of(data, fourcc)),
{
    lemma_stream_levels(data, 8, stream_end(data));
}

} // verus!
