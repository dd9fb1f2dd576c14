//! Reading an RDEF chunk.
use super::{
    binding_models, buffer_models, no_type, variable_models, BindingModel, BufferModel, CBufferDef, CBufferVariable,
    MemberDesc, MemberModel, RdefModel, ResourceBinding, ResourceDef, TypeDesc, TypeModel, VariableModel,
};
use crate::bytes::{copied_span, fitting, fitting_count, le32, read32, read_u32};
use crate::util::{cstring, read_cstring};
use vstd::prelude::*;

verus! {

/// The version is of shader model five or later.
pub open spec fn is_sm5(target_version: u32) -> bool {
    (target_version / 256) % 256 >= 5
}

/// A word that counts as nought where the data does not reach that far.
pub open spec fn word_or_zero(data: Seq<u8>, at: int) -> u32 {
    match read32(data, at) {
        Some(v) => v,
        None => 0,
    }
}

/// The name of a type, which only shader model five states.
pub open spec fn type_name_of(data: Seq<u8>, at: int, sm5: bool) -> Seq<char> {
    if sm5 && at + 36 <= data.len() && 0 < le32(data, at + 32) < data.len() {
        cstring(data, le32(data, at + 32) as int)
    } else {
        Seq::empty()
    }
}

/// The type descriptor at a place, its members read as deep as there are levels left. One that does not lie
/// within the data stands for no type. With as many levels as the data has bytes, a type is only ever cut
/// where it holds itself.
pub open spec fn type_of(data: Seq<u8>, at: int, sm5: bool, levels: nat) -> TypeModel
    decreases levels,
{
    if levels == 0 || at + 16 > data.len() {
        no_type()
    } else {
        let count = (le32(data, at + 8) / 65536) as nat;
        let place = le32(data, at + 12) as int;
        TypeModel {
            class: (le32(data, at) % 65536) as u16,
            var_type: (le32(data, at) / 65536) as u16,
            rows: (le32(data, at + 4) % 65536) as u16,
            columns: (le32(data, at + 4) / 65536) as u16,
            elements: (le32(data, at + 8) % 65536) as u16,
            members: if place + count * 12 <= data.len() {
                Seq::new(
                    count,
                    |k: int|
                        MemberModel {
                            name: cstring(data, le32(data, place + 12 * k) as int),
                            member_type: type_of(data, le32(data, place + 12 * k + 4) as int, sm5, (levels - 1) as nat),
                            offset: le32(data, place + 12 * k + 8),
                        },
                )
            } else {
                Seq::empty()
            },
            sm5_extra: if sm5 {
                Some(
                    [
                        word_or_zero(data, at + 16),
                        word_or_zero(data, at + 20),
                        word_or_zero(data, at + 24),
                        word_or_zero(data, at + 28),
                    ],
                )
            } else {
                None
            },
            name: type_name_of(data, at, sm5),
        }
    }
}

/// A word that only shader model five has.
pub open spec fn sm5_word(data: Seq<u8>, at: int, sm5: bool) -> Option<u32> {
    if sm5 {
        Some(le32(data, at))
    } else {
        None
    }
}

/// The default value of a variable, where it has one within the data.
pub open spec fn default_of(data: Seq<u8>, at: int, size: int) -> Seq<u8> {
    if at != 0 && size > 0 && at + size <= data.len() {
        data.subrange(at, at + size)
    } else {
        Seq::empty()
    }
}

/// The variable at a place.
pub open spec fn variable_of(data: Seq<u8>, at: int, sm5: bool) -> VariableModel {
    VariableModel {
        name: cstring(data, le32(data, at) as int),
        offset: le32(data, at + 4),
        size: le32(data, at + 8),
        flags: le32(data, at + 12),
        var_type: type_of(data, le32(data, at + 16) as int, sm5, data.len()),
        default_value: default_of(data, le32(data, at + 20) as int, le32(data, at + 8) as int),
        texture_start: sm5_word(data, at + 24, sm5),
        texture_size: sm5_word(data, at + 28, sm5),
        sampler_start: sm5_word(data, at + 32, sm5),
        sampler_size: sm5_word(data, at + 36, sm5),
    }
}

/// How many bytes a variable takes.
pub open spec fn variable_stride(sm5: bool) -> nat {
    if sm5 {
        40
    } else {
        24
    }
}

/// The variables from a place on, as far as the data holds them whole.
pub open spec fn variables_of(data: Seq<u8>, offset: u32, count: u32, sm5: bool) -> Seq<VariableModel> {
    Seq::new(
        fitting(data.len(), offset as nat, variable_stride(sm5), count as nat),
        |i: int| variable_of(data, offset + i * variable_stride(sm5), sm5),
    )
}

/// The constant buffer at a place.
pub open spec fn buffer_of(data: Seq<u8>, at: int, sm5: bool) -> BufferModel {
    BufferModel {
        name: cstring(data, le32(data, at) as int),
        variables: variables_of(data, le32(data, at + 8), le32(data, at + 4), sm5),
        size: le32(data, at + 12),
        flags: le32(data, at + 16),
        cb_type: le32(data, at + 20),
    }
}

/// The constant buffers, as far as the data holds them whole.
pub open spec fn buffers_of(data: Seq<u8>, offset: u32, count: u32, sm5: bool) -> Seq<BufferModel> {
    Seq::new(fitting(data.len(), offset as nat, 24, count as nat), |i: int| buffer_of(data, offset + i * 24, sm5))
}

/// The resource binding at a place.
pub open spec fn binding_of(data: Seq<u8>, at: int) -> BindingModel {
    BindingModel {
        name: cstring(data, le32(data, at) as int),
        input_type: le32(data, at + 4),
        return_type: le32(data, at + 8),
        dimension: le32(data, at + 12),
        num_samples: le32(data, at + 16),
        bind_point: le32(data, at + 20),
        bind_count: le32(data, at + 24),
        flags: le32(data, at + 28),
    }
}

/// The resource bindings, as far as the data holds them whole.
pub open spec fn bindings_of(data: Seq<u8>, offset: u32, count: u32) -> Seq<BindingModel> {
    Seq::new(fitting(data.len(), offset as nat, 32, count as nat), |i: int| binding_of(data, offset + i * 32))
}

/// The eight words behind the header, which only shader model five has.
pub open spec fn rd11_of(data: Seq<u8>) -> Option<[u32; 8]> {
    if is_sm5(le32(data, 16)) && data.len() >= 60 {
        Some(
            [
                le32(data, 28), le32(data, 32), le32(data, 36), le32(data, 40), le32(data, 44), le32(data, 48),
                le32(data, 52), le32(data, 56),
            ],
        )
    } else {
        None
    }
}

/// What a chunk with a header holds.
pub open spec fn rdef_of(data: Seq<u8>) -> RdefModel {
    RdefModel {
        constant_buffers: buffers_of(data, le32(data, 4), le32(data, 0), is_sm5(le32(data, 16))),
        bindings: bindings_of(data, le32(data, 12), le32(data, 8)),
        creator: cstring(data, le32(data, 24) as int),
        target_version: le32(data, 16),
        compile_flags: le32(data, 20),
        rd11_extra: rd11_of(data),
    }
}

fn word(data: &[u8], at: u64) -> (r: u32)
    requires
        at + 4 <= data@.len(),
    ensures
        r == le32(data@, at as int),
{
    match read_u32(data, at) {
        Some(v) => v,
        None => 0,
    }
}

fn word_or(data: &[u8], at: u64) -> (r: u32)
    ensures
        r == word_or_zero(data@, at as int),
{
    match read_u32(data, at) {
        Some(v) => v,
        None => 0,
    }
}

fn text_at(data: &[u8], offset: u32) -> (r: String)
    ensures
        r@ == cstring(data@, offset as int),
{
    read_cstring(data, offset as usize).to_owned()
}

fn parse_type_name(data: &[u8], at: u64, sm5: bool) -> (r: String)
    requires
        at <= 0xFFFF_FFFF,
    ensures
        r@ == type_name_of(data@, at as int, sm5),
{
    if sm5 && at + 36 <= data.len() as u64 {
        let offset: u32 = word(data, at + 32);
        if offset > 0 && (offset as u64) < data.len() as u64 {
            return text_at(data, offset);
        }
    }
    let r = String::new();
    proof {
        assert(r@ =~= Seq::<char>::empty());
    }
    r
}

/// Parse a type descriptor.
fn parse_type_desc(data: &[u8], at: u64, sm5: bool, levels: usize) -> (r: TypeDesc)
    requires
        at <= 0xFFFF_FFFF,
    ensures
        r@ == type_of(data@, at as int, sm5, levels as nat),
    decreases levels,
{
    let len: u64 = data.len() as u64;
    let ghost want = type_of(data@, at as int, sm5, levels as nat);
    if levels == 0 || at + 16 > len {
        let r = TypeDesc {
            class: 0,
            var_type: 0,
            rows: 0,
            columns: 0,
            elements: 0,
            members: Vec::new(),
            sm5_extra: None,
            name: String::new(),
        };
        proof {
            assert(r@.members =~= Seq::empty());
            assert(r@.name =~= Seq::empty());
        }
        return r;
    }
    let class_type: u32 = word(data, at);
    let rows_cols: u32 = word(data, at + 4);
    let elems_members: u32 = word(data, at + 8);
    let place: u64 = word(data, at + 12) as u64;
    let count: u64 = (elems_members / 65536) as u64;
    let sm5_extra = if sm5 {
        let extra: [u32; 4] = [
            word_or(data, at + 16),
            word_or(data, at + 20),
            word_or(data, at + 24),
            word_or(data, at + 28),
        ];
        proof {
            assert(extra@ =~= want.sm5_extra->0@);
            assert(extra =~= want.sm5_extra->0);
        }
        Some(extra)
    } else {
        None
    };
    let mut members: Vec<MemberDesc> = Vec::new();
    if place + count * 12 <= len {
        let mut k: u64 = 0;
        while k < count
            invariant
                k <= count <= 0xFFFF,
                levels > 0,
                len == data@.len(),
                place <= 0xFFFF_FFFF,
                place + count * 12 <= len,
                members@.len() == k,
                want.members.len() == count,
                forall|i: int|
                    0 <= i < count ==> #[trigger] want.members[i] == (MemberModel {
                        name: cstring(data@, le32(data@, place + 12 * i) as int),
                        member_type: type_of(data@, le32(data@, place + 12 * i + 4) as int, sm5, (levels - 1) as nat),
                        offset: le32(data@, place + 12 * i + 8),
                    }),
                forall|i: int| 0 <= i < k ==> (#[trigger] members@[i])@ == want.members[i],
            decreases count - k,
        {
            let here: u64 = place + 12 * k;
            let name = text_at(data, word(data, here));
            let member_type = parse_type_desc(data, word(data, here + 4) as u64, sm5, levels - 1);
            let one = MemberDesc { name, member_type, offset: word(data, here + 8) };
            proof {
                assert(one@ == want.members[k as int]);
            }
            members.push(one);
            k = k + 1;
        }
    }
    let r = TypeDesc {
        class: (class_type % 65536) as u16,
        var_type: (class_type / 65536) as u16,
        rows: (rows_cols % 65536) as u16,
        columns: (rows_cols / 65536) as u16,
        elements: (elems_members % 65536) as u16,
        members,
        sm5_extra,
        name: parse_type_name(data, at, sm5),
    };
    proof {
        assert(r@.members =~= want.members);
    }
    r
}

fn parse_default(data: &[u8], at: u32, size: u32) -> (r: Vec<u8>)
    ensures
        r@ == default_of(data@, at as int, size as int),
{
    if at != 0 && size > 0 && at as u64 + size as u64 <= data.len() as u64 {
        copied_span(data, at as usize, (at as u64 + size as u64) as usize)
    } else {
        Vec::new()
    }
}

fn parse_sm5_word(data: &[u8], at: u64, sm5: bool) -> (r: Option<u32>)
    requires
        sm5 ==> at + 4 <= data@.len(),
    ensures
        r == sm5_word(data@, at as int, sm5),
{
    if sm5 {
        Some(word(data, at))
    } else {
        None
    }
}

fn parse_variable(data: &[u8], at: u64, sm5: bool) -> (r: CBufferVariable)
    requires
        at + variable_stride(sm5) <= data@.len(),
        at <= 0xFFFF_FFFF_FFFF,
    ensures
        r@ == variable_of(data@, at as int, sm5),
{
    let size: u32 = word(data, at + 8);
    CBufferVariable {
        name: text_at(data, word(data, at)),
        offset: word(data, at + 4),
        size,
        flags: word(data, at + 12),
        var_type: parse_type_desc(data, word(data, at + 16) as u64, sm5, data.len()),
        default_value: parse_default(data, word(data, at + 20), size),
        texture_start: parse_sm5_word(data, at + 24, sm5),
        texture_size: parse_sm5_word(data, at + 28, sm5),
        sampler_start: parse_sm5_word(data, at + 32, sm5),
        sampler_size: parse_sm5_word(data, at + 36, sm5),
    }
}

fn parse_variables(data: &[u8], offset: u32, count: u32, sm5: bool) -> (r: Vec<CBufferVariable>)
    ensures
        variable_models(r@) == variables_of(data@, offset, count, sm5),
{
    let stride: u32 = if sm5 {
        40
    } else {
        24
    };
    let ghost want = variables_of(data@, offset, count, sm5);
    let total: u64 = fitting_count(data.len(), offset, stride, count);
    let mut out: Vec<CBufferVariable> = Vec::new();
    let mut i: u64 = 0;
    while i < total
        invariant
            i <= total <= 0xFFFF_FFFF,
            stride == variable_stride(sm5),
            stride <= 40,
            total > 0 ==> offset + total * stride <= data@.len(),
            want == variables_of(data@, offset, count, sm5),
            total == want.len(),
            out@.len() == i,
            forall|k: int| 0 <= k < i ==> (#[trigger] out@[k])@ == want[k],
        decreases total - i,
    {
        proof {
            let a = i as int;
            let t = total as int;
            let w = stride as int;
            assert(0 <= a * w && a * w + w <= t * w && a * w <= 0xFFFF_FFFF * 40) by (nonlinear_arith)
                requires
                    0 <= a < t,
                    t <= 0xFFFF_FFFF,
                    0 < w <= 40,
            ;
        }
        let one = parse_variable(data, offset as u64 + i * stride as u64, sm5);
        out.push(one);
        i = i + 1;
    }
    proof {
        assert(variable_models(out@) =~= want);
    }
    out
}

fn parse_buffers(data: &[u8], offset: u32, count: u32, sm5: bool) -> (r: Vec<CBufferDef>)
    ensures
        buffer_models(r@) == buffers_of(data@, offset, count, sm5),
{
    let ghost want = buffers_of(data@, offset, count, sm5);
    let total: u64 = fitting_count(data.len(), offset, 24, count);
    let mut out: Vec<CBufferDef> = Vec::new();
    let mut i: u64 = 0;
    while i < total
        invariant
            i <= total <= 0xFFFF_FFFF,
            total > 0 ==> offset + total * 24 <= data@.len(),
            want == buffers_of(data@, offset, count, sm5),
            total == want.len(),
            out@.len() == i,
            forall|k: int| 0 <= k < i ==> (#[trigger] out@[k])@ == want[k],
        decreases total - i,
    {
        let at: u64 = offset as u64 + i * 24;
        let one = CBufferDef {
            name: text_at(data, word(data, at)),
            variables: parse_variables(data, word(data, at + 8), word(data, at + 4), sm5),
            size: word(data, at + 12),
            flags: word(data, at + 16),
            cb_type: word(data, at + 20),
        };
        out.push(one);
        i = i + 1;
    }
    proof {
        assert(buffer_models(out@) =~= want);
    }
    out
}

fn parse_bindings(data: &[u8], offset: u32, count: u32) -> (r: Vec<ResourceBinding>)
    ensures
        binding_models(r@) == bindings_of(data@, offset, count),
{
    let ghost want = bindings_of(data@, offset, count);
    let total: u64 = fitting_count(data.len(), offset, 32, count);
    let mut out: Vec<ResourceBinding> = Vec::new();
    let mut i: u64 = 0;
    while i < total
        invariant
            i <= total <= 0xFFFF_FFFF,
            total > 0 ==> offset + total * 32 <= data@.len(),
            want == bindings_of(data@, offset, count),
            total == want.len(),
            out@.len() == i,
            forall|k: int| 0 <= k < i ==> (#[trigger] out@[k])@ == want[k],
        decreases total - i,
    {
        let at: u64 = offset as u64 + i * 32;
        let one = ResourceBinding {
            name: text_at(data, word(data, at)),
            input_type: word(data, at + 4),
            return_type: word(data, at + 8),
            dimension: word(data, at + 12),
            num_samples: word(data, at + 16),
            bind_point: word(data, at + 20),
            bind_count: word(data, at + 24),
            flags: word(data, at + 28),
        };
        out.push(one);
        i = i + 1;
    }
    proof {
        assert(binding_models(out@) =~= want);
    }
    out
}

/// Parse an RDEF chunk. Data too short for the header gives none.
pub fn parse_rdef(data: &[u8]) -> (r: Option<ResourceDef>)
    ensures
        match r {
            Some(v) => data@.len() >= 28 && v@ == rdef_of(data@),
            None => data@.len() < 28,
        },
{
    if data.len() < 28 {
        return None;
    }
    let target_version: u32 = word(data, 16);
    let sm5: bool = (target_version / 256) % 256 >= 5;
    let rd11_extra = if sm5 && data.len() >= 60 {
        let extra: [u32; 8] = [
            word(data, 28),
            word(data, 32),
            word(data, 36),
            word(data, 40),
            word(data, 44),
            word(data, 48),
            word(data, 52),
            word(data, 56),
        ];
        proof {
            assert(extra@ =~= rd11_of(data@)->0@);
            assert(extra =~= rd11_of(data@)->0);
        }
        Some(extra)
    } else {
        None
    };
    Some(
        ResourceDef {
            constant_buffers: parse_buffers(data, word(data, 4), word(data, 0), sm5),
            bindings: parse_bindings(data, word(data, 12), word(data, 8)),
            creator: text_at(data, word(data, 24)),
            target_version,
            compile_flags: word(data, 20),
            rd11_extra,
        },
    )
}

} // verus!
