//! Where the fields of an RDEF chunk lie: the records that its header points at, and the words within each.
use super::parse::{is_sm5, rdef_of, type_of, variable_of, variable_stride};
use super::roundtrip::{law_resource_def_comes_back, rdef_storable};
use super::write::rdef_payload;
use super::RdefModel;
use crate::bytes::{fitting, le32, stored};
use crate::util::cstring;
use vstd::prelude::*;

verus! {

/// Four bytes, the lowest first, are a number within the data.
proof fn lemma_number(data: Seq<u8>, at: int)
    ensures
        le32(data, at) == stored(data, at),
{
}

/// The entries that fit lie within the data.
proof fn lemma_fits(len: nat, offset: nat, stride: nat, count: nat, i: int)
    requires
        stride > 0,
        0 <= i < fitting(len, offset, stride, count),
    ensures
        offset + i * stride + stride <= len,
{
    if offset + count * stride <= len {
        assert((i + 1) * stride <= count * stride) by (nonlinear_arith)
            requires
                i + 1 <= count,
                stride > 0,
        ;
    } else {
        let n = (len - offset) / stride as int;
        assert(n * stride <= len - offset) by (nonlinear_arith)
            requires
                n == (len - offset) / stride as int,
                stride > 0,
        ;
        assert((i + 1) * stride <= n * stride) by (nonlinear_arith)
            requires
                i + 1 <= n,
                stride > 0,
        ;
    }
    assert((i + 1) * stride == i * stride + stride) by (nonlinear_arith);
}

/// The header: how many constant buffers there are and where, how many bindings and where, the target version, the compile
/// flags and where the creator's name is.
pub proof fn law_header_layout(data: Seq<u8>)
    requires
        data.len() >= 28,
    ensures
        ({
            let r = rdef_of(data);
            &&& r.target_version == stored(data, 16)
            &&& r.compile_flags == stored(data, 20)
            &&& r.creator == cstring(data, stored(data, 24))
            &&& stored(data, 4) + stored(data, 0) * 24 <= data.len() ==> r.constant_buffers.len() == stored(data, 0)
            &&& stored(data, 12) + stored(data, 8) * 32 <= data.len() ==> r.bindings.len() == stored(data, 8)
            &&& r.rd11_extra is Some <==> (stored(data, 16) / 256) % 256 >= 5 && data.len() >= 60
            &&& r.rd11_extra is Some ==> forall|k: int| 0 <= k < 8 ==> #[trigger] r.rd11_extra->0[k] == stored(data, 28 + 4 * k)
        }),
{
    lemma_number(data, 0);
    lemma_number(data, 4);
    lemma_number(data, 8);
    lemma_number(data, 12);
    let r = rdef_of(data);
    if r.rd11_extra is Some {
        assert forall|k: int| 0 <= k < 8 implies #[trigger] r.rd11_extra->0[k] == stored(data, 28 + 4 * k) by {
            assert(k == 0 || k == 1 || k == 2 || k == 3 || k == 4 || k == 5 || k == 6 || k == 7);
        }
    }
}

/// A binding: 32 bytes, in which the words are where its name is, its input type, return type, dimension, number of samples,
/// bind point, bind count and flags, in this order.
pub proof fn law_binding_layout(data: Seq<u8>, i: int)
    requires
        data.len() >= 28,
        0 <= i < rdef_of(data).bindings.len(),
    ensures
        ({
            let b = rdef_of(data).bindings[i];
            let at = stored(data, 12) + 32 * i;
            &&& at + 32 <= data.len()
            &&& b.name == cstring(data, stored(data, at))
            &&& b.input_type == stored(data, at + 4)
            &&& b.return_type == stored(data, at + 8)
            &&& b.dimension == stored(data, at + 12)
            &&& b.num_samples == stored(data, at + 16)
            &&& b.bind_point == stored(data, at + 20)
            &&& b.bind_count == stored(data, at + 24)
            &&& b.flags == stored(data, at + 28)
        }),
{
    lemma_number(data, 8);
    lemma_number(data, 12);
    lemma_fits(data.len(), le32(data, 12) as nat, 32, le32(data, 8) as nat, i);
}

/// A constant buffer: 24 bytes, in which the words are where its name is, how many variables it has, where they are, its
/// size, flags and type.
#[verifier::spinoff_prover]
#[verifier::rlimit(40)]
pub proof fn law_buffer_layout(data: Seq<u8>, i: int)
    requires
        data.len() >= 28,
        0 <= i < rdef_of(data).constant_buffers.len(),
    ensures
        ({
            let b = rdef_of(data).constant_buffers[i];
            let at = stored(data, 4) + 24 * i;
            let stride: int = if (stored(data, 16) / 256) % 256 >= 5 { 40 } else { 24 };
            &&& at + 24 <= data.len()
            &&& b.name == cstring(data, stored(data, at))
            &&& stored(data, at + 8) + stored(data, at + 4) * stride <= data.len() ==> b.variables.len() == stored(
                data,
                at + 4,
            )
            &&& b.size == stored(data, at + 12)
            &&& b.flags == stored(data, at + 16)
            &&& b.cb_type == stored(data, at + 20)
        }),
{
    lemma_number(data, 0);
    lemma_number(data, 4);
    lemma_number(data, 16);
    let at = le32(data, 4) + 24 * i;
    lemma_number(data, at + 4);
    lemma_number(data, at + 8);
    lemma_fits(data.len(), le32(data, 4) as nat, 24, le32(data, 0) as nat, i);
}

/// A variable: words for where its name is, its offset, size and flags, where its type and its default value are, and in
/// shader model five where its textures start and how many they are, and the same of its samplers.
#[verifier::spinoff_prover]
#[verifier::rlimit(40)]
pub proof fn law_variable_layout(data: Seq<u8>, at: int, sm5: bool)
    ensures
        ({
            let v = variable_of(data, at, sm5);
            let from = stored(data, at + 20);
            let size = stored(data, at + 8);
            &&& v.name == cstring(data, stored(data, at))
            &&& v.offset == stored(data, at + 4)
            &&& v.size == size
            &&& v.flags == stored(data, at + 12)
            &&& v.var_type == type_of(data, stored(data, at + 16), sm5, data.len())
            &&& v.default_value.len() == (if from != 0 && from + size <= data.len() { size } else { 0 })
            &&& forall|k: int| 0 <= k < v.default_value.len() ==> #[trigger] v.default_value[k] == data[from + k]
            &&& sm5 ==> v.texture_start is Some && v.texture_start->0 == stored(data, at + 24)
            &&& sm5 ==> v.texture_size is Some && v.texture_size->0 == stored(data, at + 28)
            &&& sm5 ==> v.sampler_start is Some && v.sampler_start->0 == stored(data, at + 32)
            &&& sm5 ==> v.sampler_size is Some && v.sampler_size->0 == stored(data, at + 36)
            &&& !sm5 ==> v.texture_start is None && v.texture_size is None && v.sampler_start is None && v.sampler_size
                is None
        }),
{
    lemma_number(data, at);
    lemma_number(data, at + 4);
    lemma_number(data, at + 8);
    lemma_number(data, at + 12);
    lemma_number(data, at + 16);
    lemma_number(data, at + 20);
    lemma_number(data, at + 24);
    lemma_number(data, at + 28);
    lemma_number(data, at + 32);
    lemma_number(data, at + 36);
}

/// The variables of a constant buffer stand one behind the other where its record says, each of 24 bytes, or 40 in shader
/// model five.
#[verifier::spinoff_prover]
#[verifier::rlimit(40)]
pub proof fn law_variable_place(data: Seq<u8>, i: int, j: int)
    requires
        data.len() >= 28,
        0 <= i < rdef_of(data).constant_buffers.len(),
        0 <= j < rdef_of(data).constant_buffers[i].variables.len(),
    ensures
        ({
            let sm5 = (rdef_of(data).target_version / 256) % 256 >= 5;
            let stride: int = if sm5 { 40 } else { 24 };
            let at = stored(data, stored(data, 4) + 24 * i + 8) + j * stride;
            &&& at + stride <= data.len()
            &&& rdef_of(data).constant_buffers[i].variables[j] == variable_of(data, at, sm5)
        }),
{
    lemma_number(data, 4);
    let buffer = le32(data, 4) + 24 * i;
    lemma_number(data, buffer + 8);
    let sm5 = is_sm5(le32(data, 16));
    let offset = le32(data, buffer + 8) as nat;
    lemma_fits(data.len(), offset, variable_stride(sm5), le32(data, buffer + 4) as nat, j);
}

/// The halves of a word are numbers of two bytes.
proof fn lemma_halves(data: Seq<u8>, at: int)
    ensures
        le32(data, at) % 65536 == data[at] + 256 * data[at + 1],
        le32(data, at) / 65536 == data[at + 2] + 256 * data[at + 3],
{
}

/// A type: half words for its class, kind, rows, columns, elements and how many members it has, then where the members are.
#[verifier::spinoff_prover]
#[verifier::rlimit(40)]
pub proof fn law_type_layout(data: Seq<u8>, at: int, sm5: bool, levels: nat)
    requires
        levels > 0,
        0 <= at,
        at + 16 <= data.len(),
    ensures
        ({
            let t = type_of(data, at, sm5, levels);
            let count = data[at + 10] + 256 * data[at + 11];
            &&& t.class == data[at] + 256 * data[at + 1]
            &&& t.var_type == data[at + 2] + 256 * data[at + 3]
            &&& t.rows == data[at + 4] + 256 * data[at + 5]
            &&& t.columns == data[at + 6] + 256 * data[at + 7]
            &&& t.elements == data[at + 8] + 256 * data[at + 9]
            &&& t.members.len() == (if stored(data, at + 12) + count * 12 <= data.len() { count } else { 0 })
        }),
{
    lemma_halves(data, at);
    lemma_halves(data, at + 4);
    lemma_halves(data, at + 8);
    lemma_number(data, at + 12);
    let t = type_of(data, at, sm5, levels);
    let count = (le32(data, at + 8) / 65536) as nat;
    assert(count == data[at + 10] + 256 * data[at + 11]);
}

/// A member of a type: 12 bytes, in which the words are where its name and its type are and its offset.
pub proof fn law_member_layout(data: Seq<u8>, at: int, sm5: bool, levels: nat, k: int)
    requires
        levels > 0,
        0 <= at,
        at + 16 <= data.len(),
        0 <= k < type_of(data, at, sm5, levels).members.len(),
    ensures
        ({
            let m = type_of(data, at, sm5, levels).members[k];
            let place = stored(data, at + 12) + 12 * k;
            &&& m.name == cstring(data, stored(data, place))
            &&& m.member_type == type_of(data, stored(data, place + 4), sm5, (levels - 1) as nat)
            &&& m.offset == stored(data, place + 8)
        }),
{
    lemma_number(data, at + 12);
    let place = stored(data, at + 12) + 12 * k;
    lemma_number(data, place);
    lemma_number(data, place + 4);
    lemma_number(data, place + 8);
}

/// What shader model five adds to a type: four words behind it, and then where its name is.
pub proof fn law_type_extra_layout(data: Seq<u8>, at: int, sm5: bool, levels: nat)
    requires
        levels > 0,
        0 <= at,
        at + 36 <= data.len(),
    ensures
        ({
            let t = type_of(data, at, sm5, levels);
            &&& t.sm5_extra is Some <==> sm5
            &&& sm5 ==> {
                &&& t.sm5_extra->0[0] == stored(data, at + 16)
                &&& t.sm5_extra->0[1] == stored(data, at + 20)
                &&& t.sm5_extra->0[2] == stored(data, at + 24)
                &&& t.sm5_extra->0[3] == stored(data, at + 28)
            }
            &&& sm5 && 0 < stored(data, at + 32) < data.len() ==> t.name == cstring(data, stored(data, at + 32))
            &&& !sm5 ==> t.name.len() == 0
        }),
{
    lemma_number(data, at + 16);
    lemma_number(data, at + 20);
    lemma_number(data, at + 24);
    lemma_number(data, at + 28);
    lemma_number(data, at + 32);
}

/// What is written of a binding stands where the header of the same payload says and in the same order.
pub proof fn law_written_binding_layout(r: RdefModel, i: int)
    requires
        rdef_storable(r),
        0 <= i < r.bindings.len(),
    ensures
        ({
            let data = rdef_payload(r);
            let at = stored(data, 12) + 32 * i;
            &&& at + 32 <= data.len()
            &&& r.bindings[i].name == cstring(data, stored(data, at))
            &&& r.bindings[i].input_type == stored(data, at + 4)
            &&& r.bindings[i].return_type == stored(data, at + 8)
            &&& r.bindings[i].dimension == stored(data, at + 12)
            &&& r.bindings[i].num_samples == stored(data, at + 16)
            &&& r.bindings[i].bind_point == stored(data, at + 20)
            &&& r.bindings[i].bind_count == stored(data, at + 24)
            &&& r.bindings[i].flags == stored(data, at + 28)
        }),
{
    law_resource_def_comes_back(r);
    law_binding_layout(rdef_payload(r), i);
}

} // verus!
