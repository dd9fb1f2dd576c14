//! What is declared of the resources that a shader reads, and how they are read.
use super::declare::{object_text, return_text};
use super::fetch::{
    declared_slot, dimension_declared, reads_resource, sampling_method, span_declared, span_of, stride_declared,
};
use super::machine::lines_up;
use super::names::{component_base, domain_of};
use crate::shex::decode::dimension_text;
use crate::shex::ir::{InstructionModel, KindModel, ReturnType};
use crate::shex::opcodes::Opcode;
use crate::shex::opnumbers::{
    law_opcode_numbers_from_0, law_opcode_numbers_from_43, law_opcode_numbers_from_86,
    law_opcode_numbers_from_132, law_opcode_numbers_from_175,
};
use vstd::prelude::*;

verus! {

/// A letter without its case.
pub open spec fn lower(c: char) -> char {
    if 'A' <= c <= 'Z' {
        (c as int + 32) as char
    } else {
        c
    }
}

/// Whether two texts are the same but for the case of the letters of the first.
pub open spec fn alike(object: Seq<char>, dimension: Seq<char>) -> bool {
    &&& object.len() == dimension.len()
    &&& forall|i: int| 0 <= i < object.len() ==> lower(#[trigger] object[i]) == dimension[i]
}

proof fn lemma_alike(object: Seq<char>, dimension: Seq<char>)
    requires
        object.len() == dimension.len() <= 16,
        0 < object.len() ==> lower(object[0]) == dimension[0],
        1 < object.len() ==> lower(object[1]) == dimension[1],
        2 < object.len() ==> lower(object[2]) == dimension[2],
        3 < object.len() ==> lower(object[3]) == dimension[3],
        4 < object.len() ==> lower(object[4]) == dimension[4],
        5 < object.len() ==> lower(object[5]) == dimension[5],
        6 < object.len() ==> lower(object[6]) == dimension[6],
        7 < object.len() ==> lower(object[7]) == dimension[7],
        8 < object.len() ==> lower(object[8]) == dimension[8],
        9 < object.len() ==> lower(object[9]) == dimension[9],
        10 < object.len() ==> lower(object[10]) == dimension[10],
        11 < object.len() ==> lower(object[11]) == dimension[11],
        12 < object.len() ==> lower(object[12]) == dimension[12],
        13 < object.len() ==> lower(object[13]) == dimension[13],
        14 < object.len() ==> lower(object[14]) == dimension[14],
        15 < object.len() ==> lower(object[15]) == dimension[15],
    ensures
        alike(object, dimension),
{
}

/// The object that stands for a resource is called what the listing calls the resource's dimension, but for the case of
/// the letters. A dimension that has no number is a texture in two dimensions.
#[verifier::spinoff_prover]
#[verifier::rlimit(80)]
pub proof fn law_object_is_called_by_its_dimension(n: u32)
    ensures
        1 <= n <= 10 ==> alike(object_text(dimension_text(n)), dimension_text(n)),
        !(1 <= n <= 10) ==> object_text(dimension_text(n)) == object_text(dimension_text(3)),
{
    reveal_strlit("buffer");
    reveal_strlit("texture1d");
    reveal_strlit("texture2d");
    reveal_strlit("texture2dms");
    reveal_strlit("texture3d");
    reveal_strlit("texturecube");
    reveal_strlit("texture1darray");
    reveal_strlit("texture2darray");
    reveal_strlit("texture2dmsarray");
    reveal_strlit("texturecubearray");
    reveal_strlit("unknown");
    assert("texture1d"@[7] == '1' && "texture2d"@[7] == '2' && "texture3d"@[7] == '3');
    assert("texture1darray"@[7] == '1' && "texture2darray"@[7] == '2' && "texture2dms"@[7] == '2');
    assert("texturecube"@[7] == 'c' && "texturecubearray"@[7] == 'c' && "texture2dmsarray"@[7] == '2');
    assert("buffer"@.len() == 6 && "texture1d"@.len() == 9 && "texture2d"@.len() == 9 && "texture3d"@.len() == 9);
    assert("texture2dms"@.len() == 11 && "texturecube"@.len() == 11);
    assert("texture1darray"@.len() == 14 && "texture2darray"@.len() == 14);
    assert("texture2dmsarray"@.len() == 16 && "texturecubearray"@.len() == 16);
    if n == 1 {
        reveal_strlit("Buffer");
        assert(object_text(dimension_text(n)) == "Buffer"@);
        lemma_alike("Buffer"@, "buffer"@);
    } else if n == 2 {
        reveal_strlit("Texture1D");
        assert(object_text(dimension_text(n)) == "Texture1D"@);
        lemma_alike("Texture1D"@, "texture1d"@);
    } else if n == 3 {
        reveal_strlit("Texture2D");
        assert(object_text(dimension_text(n)) == "Texture2D"@);
        lemma_alike("Texture2D"@, "texture2d"@);
    } else if n == 4 {
        reveal_strlit("Texture2DMS");
        assert(object_text(dimension_text(n)) == "Texture2DMS"@);
        lemma_alike("Texture2DMS"@, "texture2dms"@);
    } else if n == 5 {
        reveal_strlit("Texture3D");
        assert(object_text(dimension_text(n)) == "Texture3D"@);
        lemma_alike("Texture3D"@, "texture3d"@);
    } else if n == 6 {
        reveal_strlit("TextureCube");
        assert(object_text(dimension_text(n)) == "TextureCube"@);
        lemma_alike("TextureCube"@, "texturecube"@);
    } else if n == 7 {
        reveal_strlit("Texture1DArray");
        assert(object_text(dimension_text(n)) == "Texture1DArray"@);
        lemma_alike("Texture1DArray"@, "texture1darray"@);
    } else if n == 8 {
        reveal_strlit("Texture2DArray");
        assert(object_text(dimension_text(n)) == "Texture2DArray"@);
        lemma_alike("Texture2DArray"@, "texture2darray"@);
    } else if n == 9 {
        reveal_strlit("Texture2DMSArray");
        assert(object_text(dimension_text(n)) == "Texture2DMSArray"@);
        lemma_alike("Texture2DMSArray"@, "texture2dmsarray"@);
    } else if n == 10 {
        reveal_strlit("TextureCubeArray");
        assert(object_text(dimension_text(n)) == "TextureCubeArray"@);
        lemma_alike("TextureCubeArray"@, "texturecubearray"@);
    } else {
        assert("unknown"@.len() == 7);
    }
}

/// What a resource gives back is declared in the kind of number that it holds, and a value of that kind is read as
/// such: signed, unsigned, or else a float. So are the components of an element of a signature.
pub proof fn law_declared_kinds_are_read_as_such(types: [ReturnType; 4], component_type: u32)
    ensures
        types@[0] is Sint <==> domain_of(return_text(types)) is Int,
        types@[0] is Uint <==> domain_of(return_text(types)) is Uint,
        component_type == 1 <==> domain_of(component_base(component_type)) is Uint,
        component_type == 2 <==> domain_of(component_base(component_type)) is Int,
        component_type != 1 && component_type != 2 <==> domain_of(component_base(component_type)) is Float,
{
    reveal_strlit("int");
    reveal_strlit("uint");
    reveal_strlit("float");
    reveal_strlit("int4");
    reveal_strlit("uint4");
    reveal_strlit("double4");
    reveal_strlit("float4");
    assert("uint4"@.subrange(0, 4) =~= "uint"@);
    assert("uint"@.subrange(0, 4) =~= "uint"@);
    assert("int4"@.subrange(0, 3) =~= "int"@);
    assert("int"@.subrange(0, 3) =~= "int"@);
    assert("int4"@.subrange(0, 4)[0] == 'i');
    assert("float4"@.subrange(0, 4)[0] == 'f' && "float4"@.subrange(0, 3)[0] == 'f');
    assert("float"@.subrange(0, 4)[0] == 'f' && "float"@.subrange(0, 3)[0] == 'f');
    assert("double4"@.subrange(0, 4)[0] == 'd' && "double4"@.subrange(0, 3)[0] == 'd');
    assert("uint"@[0] == 'u' && "int"@[0] == 'i');
}

/// An instruction that declares a resource with a dimension in a slot.
pub open spec fn declares_dimension(i: InstructionModel, slot: u32) -> bool {
    i.kind is DclResource && declared_slot(i) == Some(slot)
}

proof fn lemma_dimension_step(instructions: Seq<InstructionModel>, slot: u32, n: int)
    requires
        0 < n <= instructions.len(),
    ensures
        declares_dimension(instructions[n - 1], slot) ==> (instructions[n - 1].kind matches KindModel::DclResource { dimension, .. }
            && dimension_declared(instructions, slot, n) == Some(dimension)),
        !declares_dimension(instructions[n - 1], slot) ==> dimension_declared(instructions, slot, n) == dimension_declared(
            instructions,
            slot,
            n - 1,
        ),
{
    let last = instructions[n - 1];
    assert(declares_dimension(last, slot) <==> last.kind is DclResource && declared_slot(last) == Some(slot));
}

/// The dimension of a slot is that of the last instruction that declares it, and there is none where no instruction
/// does.
pub proof fn law_last_dimension_counts(instructions: Seq<InstructionModel>, slot: u32, n: int, i: int)
    requires
        0 <= i < n <= instructions.len(),
    ensures
        declares_dimension(instructions[i], slot) && (forall|j: int|
            i < j < n ==> !#[trigger] declares_dimension(instructions[j], slot)) ==> (instructions[i].kind matches KindModel::DclResource {
            dimension,
            ..
        } && dimension_declared(instructions, slot, n) == Some(dimension)),
        (forall|j: int| 0 <= j < n ==> !#[trigger] declares_dimension(instructions[j], slot)) ==> dimension_declared(
            instructions,
            slot,
            n,
        ) is None,
    decreases n,
{
    lemma_dimension_step(instructions, slot, n);
    if n - 1 > i {
        law_last_dimension_counts(instructions, slot, n - 1, i);
    } else if i > 0 {
        law_last_dimension_counts(instructions, slot, n - 1, i - 1);
    }
    assert(dimension_declared(instructions, slot, 0) is None);
}

/// An instruction that declares a resource of elements in a slot.
pub open spec fn declares_stride(i: InstructionModel, slot: u32) -> bool {
    i.kind is DclResourceStructured && declared_slot(i) == Some(slot)
}

proof fn lemma_stride_step(instructions: Seq<InstructionModel>, slot: u32, n: int)
    requires
        0 < n <= instructions.len(),
    ensures
        declares_stride(instructions[n - 1], slot) ==> (instructions[n - 1].kind matches KindModel::DclResourceStructured { stride, .. }
            && stride_declared(instructions, slot, n) == Some(stride)),
        !declares_stride(instructions[n - 1], slot) ==> stride_declared(instructions, slot, n) == stride_declared(
            instructions,
            slot,
            n - 1,
        ),
{
    let last = instructions[n - 1];
    assert(declares_stride(last, slot) <==> last.kind is DclResourceStructured && declared_slot(last) == Some(slot));
}

/// The length of a slot's elements is that of the last instruction that declares it, and there is none where no
/// instruction does.
pub proof fn law_last_stride_counts(instructions: Seq<InstructionModel>, slot: u32, n: int, i: int)
    requires
        0 <= i < n <= instructions.len(),
    ensures
        declares_stride(instructions[i], slot) && (forall|j: int|
            i < j < n ==> !#[trigger] declares_stride(instructions[j], slot)) ==> (instructions[i].kind matches KindModel::DclResourceStructured {
            stride,
            ..
        } && stride_declared(instructions, slot, n) == Some(stride)),
        (forall|j: int| 0 <= j < n ==> !#[trigger] declares_stride(instructions[j], slot)) ==> stride_declared(
            instructions,
            slot,
            n,
        ) is None,
    decreases n,
{
    lemma_stride_step(instructions, slot, n);
    if n - 1 > i {
        law_last_stride_counts(instructions, slot, n - 1, i);
    } else if i > 0 {
        law_last_stride_counts(instructions, slot, n - 1, i - 1);
    }
    assert(stride_declared(instructions, slot, 0) is None);
}

/// An instruction that declares how far the buffer in a slot reaches.
pub open spec fn spans(i: InstructionModel, slot: u16) -> bool {
    span_of(i) matches Some((held, _)) && held == slot
}

/// The span of a buffer's slot is that of the last instruction that declares it, and there is none where no instruction
/// does.
pub proof fn law_last_span_counts(instructions: Seq<InstructionModel>, slot: u16, n: int)
    requires
        0 <= n <= instructions.len(),
    ensures
        match span_declared(instructions, slot, n) {
            Some(span) => exists|i: int|
                0 <= i < n && #[trigger] spans(instructions[i], slot) && span_of(instructions[i]) == Some((slot, span)) && forall|j: int|
                    i < j < n ==> !#[trigger] spans(instructions[j], slot),
            None => forall|j: int|
                0 <= j < n ==> !#[trigger] spans(instructions[j], slot),
        },
    decreases n,
{
    if n > 0 {
        law_last_span_counts(instructions, slot, n - 1);
        assert(spans(instructions[n - 1], slot) || !spans(instructions[n - 1], slot));
        if !spans(instructions[n - 1], slot) && span_declared(instructions, slot, n) is Some {
            let span = span_declared(instructions, slot, n)->0;
            let i = choose|i: int|
                0 <= i < n - 1 && #[trigger] spans(instructions[i], slot) && span_of(instructions[i]) == Some((slot, span))
                    && forall|j: int| i < j < n - 1 ==> !#[trigger] spans(instructions[j], slot);
            assert(spans(instructions[i], slot));
        }
    }
}

/// How the instructions sample, by their numbers: plainly, compared, compared at the first level, at a level, along a
/// slope or with a bias. One that gathers gathers the component that is asked for, and no other instruction samples.
#[verifier::spinoff_prover]
#[verifier::rlimit(60)]
pub proof fn law_sampling_by_instruction(v: u32, channel: u8)
    ensures
        v == 69 ==> sampling_method(Opcode::of(v), channel) == Some("Sample"@),
        v == 70 ==> sampling_method(Opcode::of(v), channel) == Some("SampleCmp"@),
        v == 71 ==> sampling_method(Opcode::of(v), channel) == Some("SampleCmpLevelZero"@),
        v == 72 ==> sampling_method(Opcode::of(v), channel) == Some("SampleLevel"@),
        v == 73 ==> sampling_method(Opcode::of(v), channel) == Some("SampleGrad"@),
        v == 74 ==> sampling_method(Opcode::of(v), channel) == Some("SampleBias"@),
        v == 109 && channel == 0 ==> sampling_method(Opcode::of(v), channel) == Some("GatherRed"@),
        v == 109 && channel == 1 ==> sampling_method(Opcode::of(v), channel) == Some("GatherGreen"@),
        v == 109 && channel == 2 ==> sampling_method(Opcode::of(v), channel) == Some("GatherBlue"@),
        v == 109 && channel == 3 ==> sampling_method(Opcode::of(v), channel) == Some("GatherAlpha"@),
        sampling_method(Opcode::of(v), channel) is Some <==> 69 <= v <= 74 || v == 109,
        sampling_method(Opcode::of(v), channel) is Some ==> reads_resource(Opcode::of(v)) && !lines_up(Opcode::of(v)),
{
    law_opcode_numbers_from_0(v);
    law_opcode_numbers_from_43(v);
    law_opcode_numbers_from_86(v);
    law_opcode_numbers_from_132(v);
    law_opcode_numbers_from_175(v);
}

/// The instructions that read a resource, and those whose sources do not line up with what they write, by their
/// numbers.
#[verifier::spinoff_prover]
#[verifier::rlimit(60)]
pub proof fn law_resource_readers_by_instruction(v: u32)
    ensures
        reads_resource(Opcode::of(v)) <==> v == 45 || v == 46 || v == 61 || 69 <= v <= 74 || v == 109 || v == 165 || v == 167,
        !lines_up(Opcode::of(v)) <==> 15 <= v <= 17 || v == 45 || v == 46 || v == 61 || 69 <= v <= 74 || 108 <= v <= 111
            || v == 121 || v == 165 || v == 167,
        reads_resource(Opcode::of(v)) ==> !lines_up(Opcode::of(v)),
{
    law_opcode_numbers_from_0(v);
    law_opcode_numbers_from_43(v);
    law_opcode_numbers_from_86(v);
    law_opcode_numbers_from_132(v);
    law_opcode_numbers_from_175(v);
}

} // verus!
