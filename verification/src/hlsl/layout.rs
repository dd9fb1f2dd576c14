//! Constant buffer layout: the fields a buffer holds, read from the RDEF chunk.
//!
//! Whatever named the buffer usually says nothing about its inside, while the reflection describes it in
//! full. Every consumer has to agree on it: a second copy that sizes a field differently produces a different
//! declaration.
use crate::chunks::rdef::{BufferModel, CBufferDef, TypeDesc, TypeModel};
use crate::text::{cat2, cat4, dec, decimal, same};
use vstd::prelude::*;

verus! {

/// A field of a constant buffer, as the shader declared it.
#[derive(Clone)]
pub struct Member {
    /// Field name (e.g. `"m_TransformMatrix"`).
    pub name: String,
    /// Bytes from the start of one element of the buffer.
    pub offset: u32,
    /// Bytes it takes, including whatever padding follows it before the next field.
    pub size: u32,
    /// How its type reads in HLSL.
    pub kind: String,
}

/// What a field holds.
pub struct LayoutModel {
    pub name: Seq<char>,
    pub offset: u32,
    pub size: u32,
    pub kind: Seq<char>,
}

impl Member {
    /// What the field holds.
    pub open spec fn view(&self) -> LayoutModel {
        LayoutModel { name: self.name@, offset: self.offset, size: self.size, kind: self.kind@ }
    }
}

/// What each field of a list holds.
pub open spec fn layout_models(members: Seq<Member>) -> Seq<LayoutModel> {
    Seq::new(members.len(), |i: int| members[i]@)
}

/// How a type reads in HLSL, which is what the reflection records it as.
pub open spec fn kind_text(t: TypeModel) -> Seq<char> {
    let base = if t.name.len() == 0 {
        "type "@ + dec(t.var_type as nat)
    } else {
        t.name
    };
    if t.elements == 0 {
        base
    } else {
        base + "["@ + dec(t.elements as nat) + "]"@
    }
}

/// How a type reads in HLSL, which is what the reflection records it as.
pub fn kind_name(desc: &TypeDesc) -> (r: String)
    ensures
        r@ == kind_text(desc@),
{
    let base = if desc.name.as_str().unicode_len() == 0 {
        let d = decimal(desc.var_type as u64);
        cat2("type ", d.as_str())
    } else {
        desc.name.clone()
    };
    if desc.elements == 0 {
        base
    } else {
        let d = decimal(desc.elements as u64);
        cat4(base.as_str(), "[", d.as_str(), "]")
    }
}

/// The difference of two offsets, nought where it would be below.
pub open spec fn room(end: u32, start: u32) -> u32 {
    if end >= start {
        (end - start) as u32
    } else {
        0
    }
}

/// The fields of a struct of a size. Where a field ends is where the next one starts, and the last ends where
/// the element does. Working it out from the type instead misses the padding a matrix row or an array element
/// carries, which leaves the registers in between looking unaccounted for.
pub open spec fn struct_fields(t: TypeModel, element: u32) -> Seq<LayoutModel> {
    Seq::new(
        t.members.len(),
        |i: int|
            LayoutModel {
                name: t.members[i].name,
                offset: t.members[i].offset,
                size: room(
                    if i + 1 < t.members.len() {
                        t.members[i + 1].offset
                    } else {
                        element
                    },
                    t.members[i].offset,
                ),
                kind: kind_text(t.members[i].member_type),
            },
    )
}

/// The variables of a buffer as its fields.
pub open spec fn plain_fields(b: BufferModel) -> Seq<LayoutModel> {
    Seq::new(
        b.variables.len(),
        |i: int|
            LayoutModel {
                name: b.variables[i].name,
                offset: b.variables[i].offset,
                size: b.variables[i].size,
                kind: kind_text(b.variables[i].var_type),
            },
    )
}

/// The fields of a constant buffer as the shader declared them.
///
/// A buffer normally holds one struct instance named after itself, whose members are the real fields. One that
/// instead holds a single bare array named after itself says nothing the register grid does not already show,
/// so that case comes back empty. A matrix is different: the reflection records its shape, and that shape is
/// the difference between reading a transform and reading four rows that happen to sit together.
pub open spec fn layout(b: BufferModel) -> Seq<LayoutModel> {
    let only = b.variables[0];
    let count = if only.var_type.elements == 0 {
        1
    } else {
        only.var_type.elements as u32
    };
    if b.variables.len() == 1 && only.var_type.members.len() > 0 {
        struct_fields(only.var_type, b.size / count)
    } else if b.variables.len() == 1 && only.name == b.name && only.var_type.rows < 2 {
        Seq::empty()
    } else {
        plain_fields(b)
    }
}

fn fields_of(desc: &TypeDesc, element: u32) -> (r: Vec<Member>)
    ensures
        layout_models(r@) == struct_fields(desc@, element),
{
    let ghost want = struct_fields(desc@, element);
    let mut out: Vec<Member> = Vec::new();
    let mut i: usize = 0;
    while i < desc.members.len()
        invariant
            i <= desc.members@.len(),
            want == struct_fields(desc@, element),
            out@.len() == i,
            forall|k: int| 0 <= k < i ==> (#[trigger] out@[k])@ == want[k],
        decreases desc.members@.len() - i,
    {
        let member = &desc.members[i];
        proof {
            assert(desc@.members[i as int] == member@);
            if i + 1 < desc.members@.len() {
                assert(desc@.members[i + 1] == desc.members@[i + 1]@);
            }
        }
        let end: u32 = if i + 1 < desc.members.len() {
            desc.members[i + 1].offset
        } else {
            element
        };
        let size: u32 = if end >= member.offset {
            end - member.offset
        } else {
            0
        };
        out.push(
            Member { name: member.name.clone(), offset: member.offset, size, kind: kind_name(&member.member_type) },
        );
        i = i + 1;
    }
    proof {
        assert(layout_models(out@) =~= want);
    }
    out
}

/// The fields of a constant buffer as the shader declared them.
pub fn members(buffer: &CBufferDef) -> (r: Vec<Member>)
    ensures
        layout_models(r@) == layout(buffer@),
{
    proof {
        assert(buffer@.variables.len() == buffer.variables@.len());
        if buffer.variables@.len() > 0 {
            assert(buffer@.variables[0] == buffer.variables@[0]@);
        }
    }
    if buffer.variables.len() == 1 {
        let only = &buffer.variables[0];
        if only.var_type.members.len() > 0 {
            let count: u32 = if only.var_type.elements == 0 {
                1
            } else {
                only.var_type.elements as u32
            };
            return fields_of(&only.var_type, buffer.size / count);
        }
        if same(only.name.as_str(), buffer.name.as_str()) && only.var_type.rows < 2 {
            let none: Vec<Member> = Vec::new();
            proof {
                assert(layout_models(none@) =~= Seq::empty());
            }
            return none;
        }
    }
    let ghost want = plain_fields(buffer@);
    let mut out: Vec<Member> = Vec::new();
    let mut i: usize = 0;
    while i < buffer.variables.len()
        invariant
            i <= buffer.variables@.len(),
            want == plain_fields(buffer@),
            out@.len() == i,
            forall|k: int| 0 <= k < i ==> (#[trigger] out@[k])@ == want[k],
        decreases buffer.variables@.len() - i,
    {
        let variable = &buffer.variables[i];
        proof {
            assert(buffer@.variables[i as int] == variable@);
        }
        out.push(
            Member {
                name: variable.name.clone(),
                offset: variable.offset,
                size: variable.size,
                kind: kind_name(&variable.var_type),
            },
        );
        i = i + 1;
    }
    proof {
        assert(layout_models(out@) =~= want);
    }
    out
}

} // verus!
