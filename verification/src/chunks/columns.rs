//! Where in a line what is said of a resource stands.
use crate::chunks::rdef::BindingModel;
use crate::chunks::rts0::{
    parameter_text, range_text, DescriptorRange, DescriptorRangeType, ParameterModel, PayloadModel,
};
use crate::chunks::signature::ElementModel;
use crate::shex::fmt::mask_text;
use crate::text::{dec, left_aligned, right_aligned};
use vstd::prelude::*;

verus! {

/// A text stands in another at a place.
pub open spec fn stands_at(line: Seq<char>, text: Seq<char>, at: int) -> bool {
    0 <= at && at + text.len() <= line.len() && line.subrange(at, at + text.len()) == text
}

proof fn lemma_aligned(text: Seq<char>, width: nat)
    requires
        text.len() <= width,
    ensures
        left_aligned(text, width).len() == width,
        stands_at(left_aligned(text, width), text, 0),
        right_aligned(text, width).len() == width,
        stands_at(right_aligned(text, width), text, width - text.len()),
{
    assert(left_aligned(text, width).subrange(0, text.len() as int) =~= text);
    assert(right_aligned(text, width).subrange(width - text.len(), width as int) =~= text);
}

proof fn lemma_inside(before: Seq<char>, part: Seq<char>, behind: Seq<char>, text: Seq<char>, at: int)
    requires
        stands_at(part, text, at),
    ensures
        stands_at(before + part + behind, text, before.len() + at),
{
    let line = before + part + behind;
    assert(line.subrange(before.len() + at, before.len() + at + text.len()) =~= part.subrange(at, at + text.len()));
}

/// The columns of a binding: its type from the first on, its dimension from the fourteenth, the slot that it is bound at
/// from the twenty-third and how many slots it takes from the twenty-eighth, where each fits its column.
pub proof fn law_binding_columns(b: BindingModel)
    requires
        b.type_text().len() <= 12,
        b.dim_text().len() <= 8,
        dec(b.bind_point as nat).len() <= 4,
        dec(b.bind_count as nat).len() <= 5,
    ensures
        stands_at(b.columns(), b.type_text(), 0),
        stands_at(b.columns(), b.dim_text(), 13),
        stands_at(b.columns(), dec(b.bind_point as nat), 22),
        stands_at(b.columns(), dec(b.bind_count as nat), 27),
{
    reveal_strlit(" ");
    let kind = left_aligned(b.type_text(), 12);
    let dim = left_aligned(b.dim_text(), 8);
    let point = left_aligned(dec(b.bind_point as nat), 4);
    let count = left_aligned(dec(b.bind_count as nat), 5);
    lemma_aligned(b.type_text(), 12);
    lemma_aligned(b.dim_text(), 8);
    lemma_aligned(dec(b.bind_point as nat), 4);
    lemma_aligned(dec(b.bind_count as nat), 5);
    let line = b.columns();
    let none = Seq::<char>::empty();
    lemma_inside(none, kind, line.skip(12), b.type_text(), 0);
    assert(none + kind + line.skip(12) =~= line);
    lemma_inside(kind + " "@, dim, line.skip(21), b.dim_text(), 0);
    assert(kind + " "@ + dim + line.skip(21) =~= line);
    lemma_inside(kind + " "@ + dim + " "@, point, line.skip(26), dec(b.bind_point as nat), 0);
    assert(kind + " "@ + dim + " "@ + point + line.skip(26) =~= line);
    lemma_inside(kind + " "@ + dim + " "@ + point + " "@, count, line.skip(32), dec(b.bind_count as nat), 0);
    assert(kind + " "@ + dim + " "@ + point + " "@ + count + line.skip(32) =~= line);
}

/// The columns of an element of a signature: its type at the end of the first seven, then the register behind a letter
/// and the mask behind a point.
pub proof fn law_element_columns(e: ElementModel)
    requires
        e.type_text().len() <= 7,
    ensures
        stands_at(e.columns(), e.type_text(), 7 - e.type_text().len()),
        e.columns()[8] == 'v',
        stands_at(e.columns(), dec(e.register as nat), 9),
        e.columns()[9int + dec(e.register as nat).len()] == '.',
        stands_at(e.columns(), mask_text(e.mask), 10int + dec(e.register as nat).len()),
{
    reveal_strlit(" v");
    reveal_strlit(".");
    lemma_aligned(e.type_text(), 7);
    let kind = right_aligned(e.type_text(), 7);
    let register = dec(e.register as nat);
    let mask = mask_text(e.mask);
    let line = e.columns();
    assert(line.subrange(7 - e.type_text().len(), 7) =~= kind.subrange(7 - e.type_text().len(), 7));
    assert(line.subrange(9, 9int + register.len()) =~= register);
    assert(line.subrange(10int + register.len(), 10int + register.len() + mask.len()) =~= mask);
}

/// The letter of a range's registers, for each kind of range.
pub proof fn law_ranges_have_their_letters(kind: DescriptorRangeType)
    ensures
        kind is Srv <==> kind.prefix_char() == 't',
        kind is Uav <==> kind.prefix_char() == 'u',
        kind is Cbv <==> kind.prefix_char() == 'b',
        kind is Sampler <==> kind.prefix_char() == 's',
{
}

/// What a parameter that stands for one slot says last: the letter that ranges of its kind have, its register, and its
/// space.
pub open spec fn slot_words(kind: DescriptorRangeType, register: u32, space: u32) -> Seq<char> {
    ""@.push(' ').push(kind.prefix_char()) + dec(register as nat) + " space="@ + dec(space as nat)
}

/// A text ends with another.
pub open spec fn ends(line: Seq<char>, text: Seq<char>) -> bool {
    line.len() >= text.len() && line.skip(line.len() - text.len()) == text
}

/// A parameter for one slot names the slot by the letter of its kind, with the register before the space. The three
/// kinds are told apart by the letter and by what stands first.
#[verifier::spinoff_prover]
#[verifier::rlimit(40)]
pub proof fn law_parameter_names_its_slot(p: ParameterModel)
    ensures
        p.param_type matches PayloadModel::Cbv { register, space } ==> ends(
            parameter_text(p),
            slot_words(DescriptorRangeType::Cbv, register, space),
        ),
        p.param_type matches PayloadModel::Srv { register, space } ==> ends(
            parameter_text(p),
            slot_words(DescriptorRangeType::Srv, register, space),
        ),
        p.param_type matches PayloadModel::Uav { register, space } ==> ends(
            parameter_text(p),
            slot_words(DescriptorRangeType::Uav, register, space),
        ),
        p.param_type matches PayloadModel::Constants32Bit { register, space, num_values } ==> ends(
            parameter_text(p),
            slot_words(DescriptorRangeType::Cbv, register, space) + " num32BitValues="@ + dec(num_values as nat),
        ),
{
    reveal_strlit("");
    reveal_strlit(" b");
    reveal_strlit(" t");
    reveal_strlit(" u");
    assert(" b"@ =~= ""@.push(' ').push('b'));
    assert(" t"@ =~= ""@.push(' ').push('t'));
    assert(" u"@ =~= ""@.push(' ').push('u'));
    let line = parameter_text(p);
    match p.param_type {
        PayloadModel::Cbv { register, space } => {
            let last = slot_words(DescriptorRangeType::Cbv, register, space);
            assert(line.skip(line.len() - last.len()) =~= last);
        },
        PayloadModel::Srv { register, space } => {
            let last = slot_words(DescriptorRangeType::Srv, register, space);
            assert(line.skip(line.len() - last.len()) =~= last);
        },
        PayloadModel::Uav { register, space } => {
            let last = slot_words(DescriptorRangeType::Uav, register, space);
            assert(line.skip(line.len() - last.len()) =~= last);
        },
        PayloadModel::Constants32Bit { register, space, num_values } => {
            let last = slot_words(DescriptorRangeType::Cbv, register, space) + " num32BitValues="@ + dec(
                num_values as nat,
            );
            assert(line.skip(line.len() - last.len()) =~= last);
        },
        _ => {},
    }
}

/// A range says how many descriptors it has, or that there is no bound; then the letter of its kind with its first
/// register, its space, and where in the table it starts, or that it starts behind the one before it.
#[verifier::spinoff_prover]
#[verifier::rlimit(40)]
pub proof fn law_range_says_where_it_lies(r: DescriptorRange)
    ensures
        ({
            let count = if r.num_descriptors == 0xFFFF_FFFF {
                "unbounded"@
            } else {
                dec(r.num_descriptors as nat)
            };
            let offset = if r.offset_in_descriptors_from_table_start == 0xFFFF_FFFF {
                "APPEND"@
            } else {
                dec(r.offset_in_descriptors_from_table_start as nat)
            };
            let last = slot_words(r.range_type, r.base_shader_register, r.register_space) + " offset="@ + offset;
            let line = range_text(r);
            &&& ends(line, last)
            &&& line.take(line.len() - last.len()) == r.range_type.name_text() + "("@ + count + ")"@
        }),
{
    reveal_strlit("");
    reveal_strlit("(");
    reveal_strlit(") ");
    reveal_strlit(")");
    let count = if r.num_descriptors == 0xFFFF_FFFF {
        "unbounded"@
    } else {
        dec(r.num_descriptors as nat)
    };
    let offset = if r.offset_in_descriptors_from_table_start == 0xFFFF_FFFF {
        "APPEND"@
    } else {
        dec(r.offset_in_descriptors_from_table_start as nat)
    };
    let last = slot_words(r.range_type, r.base_shader_register, r.register_space) + " offset="@ + offset;
    let line = range_text(r);
    assert(line =~= r.range_type.name_text() + "("@ + count + ")"@ + last);
    assert(line.skip(line.len() - last.len()) =~= last);
    assert(line.take(line.len() - last.len()) =~= r.range_type.name_text() + "("@ + count + ")"@);
}

} // verus!
