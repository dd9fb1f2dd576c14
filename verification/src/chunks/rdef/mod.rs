//! RDEF chunk: constant buffers, resource bindings and the compiler's creator string.
//!
//! The header has seven words: constant buffer count and offset, bound resource count and offset, target
//! version, compile flags and creator offset. From shader model five on, eight more words follow it.
use crate::text::{align_left, cat2, cat3, cat7, dec, decimal, hex, hexadecimal, join, joined, left_aligned, views};
use vstd::prelude::*;

pub mod format;
pub mod parse;
pub mod roundtrip;
pub mod write;

pub use self::parse::parse_rdef;

verus! {

/// Parsed RDEF chunk, constant buffers, resource bindings, and creator string.
#[derive(Debug)]
pub struct ResourceDef {
    /// Constant buffer definitions (layouts and variables).
    pub constant_buffers: Vec<CBufferDef>,
    /// Shader resource bindings (textures, samplers, UAVs, etc.).
    pub bindings: Vec<ResourceBinding>,
    /// Compiler identification string (e.g. `"Microsoft (R) HLSL Shader Compiler 10.1"`).
    pub creator: String,
    /// Target version (minor | major<<8 | type<<16).
    pub target_version: u32,
    /// Compile flags.
    pub compile_flags: u32,
    /// SM5 RD11 sub-header (32 bytes after the main header). None for SM4.
    pub rd11_extra: Option<[u32; 8]>,
}

/// A single constant buffer and its variable layout.
#[derive(Debug)]
pub struct CBufferDef {
    /// Constant buffer name (e.g. `"$Globals"`, `"cb0"`).
    pub name: String,
    /// Variables declared inside the buffer.
    pub variables: Vec<CBufferVariable>,
    /// Total buffer size in bytes.
    pub size: u32,
    /// Buffer flags.
    pub flags: u32,
    /// Buffer type (0=cbuffer, 1=tbuffer, etc.).
    pub cb_type: u32,
}

/// A variable inside a constant buffer.
#[derive(Debug)]
pub struct CBufferVariable {
    /// Variable name.
    pub name: String,
    /// Byte offset within the constant buffer.
    pub offset: u32,
    /// Size in bytes.
    pub size: u32,
    /// Variable flags.
    pub flags: u32,
    /// Parsed type descriptor for this variable.
    pub var_type: TypeDesc,
    /// Default value bytes (empty if none).
    pub default_value: Vec<u8>,
    /// SM5 extra: start texture slot (-1 if unused).
    pub texture_start: Option<u32>,
    /// SM5 extra: texture bind count.
    pub texture_size: Option<u32>,
    /// SM5 extra: start sampler slot (-1 if unused).
    pub sampler_start: Option<u32>,
    /// SM5 extra: sampler bind count.
    pub sampler_size: Option<u32>,
}

/// HLSL type descriptor (D3D11_SHADER_TYPE_DESC).
///
/// Binary layout (all u32):
///   0: `[class:16 | type:16]`
///   4: `[rows:16 | columns:16]`
///   8: `[elements:16 | members:16]`
///  12: member descriptor offset
/// SM5 adds 4 unknown u32s + 1 name offset u32.
#[derive(Debug)]
pub struct TypeDesc {
    /// Variable class (scalar, vector, matrix, object, struct).
    pub class: u16,
    /// Variable type (void, bool, int, float, etc.).
    pub var_type: u16,
    /// Number of rows (1 for scalars and vectors, >1 for matrices).
    pub rows: u16,
    /// Number of columns.
    pub columns: u16,
    /// Array element count (0 if not an array).
    pub elements: u16,
    /// Struct member descriptors (empty if not a struct).
    pub members: Vec<MemberDesc>,
    /// SM5 extra: four unknown values kept as they are.
    pub sm5_extra: Option<[u32; 4]>,
    /// Type name (SM5 interface types only, empty otherwise).
    pub name: String,
}

/// A struct member descriptor inside a type.
///
/// Binary layout (12 bytes):
///   0: u32 name offset
///   4: u32 type offset (recursive)
///   8: u32 byte offset within parent
#[derive(Debug)]
pub struct MemberDesc {
    /// Member name.
    pub name: String,
    /// Parsed type for this member.
    pub member_type: TypeDesc,
    /// Byte offset within the parent structure.
    pub offset: u32,
}

/// Resource input type (D3D_SHADER_INPUT_TYPE).
#[derive(Debug, Clone, Copy, PartialEq, Eq, Structural)]
pub enum ResourceInputType {
    /// Constant buffer.
    CBuffer,
    /// Texture buffer.
    TBuffer,
    /// Texture (SRV).
    Texture,
    /// Sampler state.
    Sampler,
    /// Read-write typed UAV.
    UavRwTyped,
    /// Structured buffer (SRV).
    Structured,
    /// Read-write structured buffer (UAV).
    UavRwStructured,
    /// Byte-address buffer (SRV).
    ByteAddress,
    /// Read-write byte-address buffer (UAV).
    UavRwByteAddress,
    /// Append structured buffer (UAV).
    UavAppendStructured,
    /// Consume structured buffer (UAV).
    UavConsumeStructured,
    /// Read-write structured buffer with hidden counter (UAV).
    UavRwStructuredWithCounter,
}

/// Resource dimension (D3D_SRV_DIMENSION).
#[derive(Debug, Clone, Copy, PartialEq, Eq, Structural)]
pub enum ResourceDimension {
    /// Buffer resource.
    Buffer,
    /// 1D texture.
    Texture1D,
    /// 2D texture.
    Texture2D,
    /// 2D multisampled texture.
    Texture2DMS,
    /// 3D (volume) texture.
    Texture3D,
    /// Cube-map texture.
    TextureCube,
    /// 1D texture array.
    Texture1DArray,
    /// 2D texture array.
    Texture2DArray,
    /// 2D multisampled texture array.
    Texture2DMSArray,
    /// Cube-map texture array.
    TextureCubeArray,
}

/// Binding was explicitly packed by the user.
pub const BIND_FLAG_USER_PACKED: u32 = 0x1;
/// Binding is actually used by the shader.
pub const BIND_FLAG_USED: u32 = 0x2;
/// Sampler is a comparison sampler.
pub const BIND_FLAG_COMPARISON_SAMPLER: u32 = 0x4;
/// Texture component flag bit 0.
pub const BIND_FLAG_TEX_COMP_0: u32 = 0x8;
/// Texture component flag bit 1.
pub const BIND_FLAG_TEX_COMP_1: u32 = 0x10;

/// Sentinel value for unused texture/sampler start slots.
pub const SLOT_UNUSED: u32 = 0xFFFF_FFFF;

/// A shader resource binding (texture, sampler, cbuffer, UAV, etc.).
#[derive(Debug)]
pub struct ResourceBinding {
    /// Binding name.
    pub name: String,
    /// Resource type (0=cbuffer, 2=texture, 3=sampler, 4=uav_rwtyped, and so on).
    pub input_type: u32,
    /// Return type for typed resources.
    pub return_type: u32,
    /// Resource dimension (1=buffer, 2=1d, 3=2d, and so on).
    pub dimension: u32,
    /// Number of samples (for multisampled resources).
    pub num_samples: u32,
    /// Register slot (e.g. `t0`, `s1`, `b2`).
    pub bind_point: u32,
    /// Number of contiguous registers bound.
    pub bind_count: u32,
    /// Binding flags (userPacked, used, comparisonSampler, and so on).
    pub flags: u32,
}

impl ResourceInputType {
    /// The variant of a stored value, where it is one.
    pub open spec fn of(v: u32) -> Option<ResourceInputType> {
        if v == 0 { Some(ResourceInputType::CBuffer) }
        else if v == 1 { Some(ResourceInputType::TBuffer) }
        else if v == 2 { Some(ResourceInputType::Texture) }
        else if v == 3 { Some(ResourceInputType::Sampler) }
        else if v == 4 { Some(ResourceInputType::UavRwTyped) }
        else if v == 5 { Some(ResourceInputType::Structured) }
        else if v == 6 { Some(ResourceInputType::UavRwStructured) }
        else if v == 7 { Some(ResourceInputType::ByteAddress) }
        else if v == 8 { Some(ResourceInputType::UavRwByteAddress) }
        else if v == 9 { Some(ResourceInputType::UavAppendStructured) }
        else if v == 10 { Some(ResourceInputType::UavConsumeStructured) }
        else if v == 11 { Some(ResourceInputType::UavRwStructuredWithCounter) }
        else { None }
    }

    /// What a variant is called.
    pub open spec fn name_text(self) -> Seq<char> {
        match self {
            ResourceInputType::CBuffer => "cbuffer"@,
            ResourceInputType::TBuffer => "tbuffer"@,
            ResourceInputType::Texture => "texture"@,
            ResourceInputType::Sampler => "sampler"@,
            ResourceInputType::UavRwTyped => "uav_rwtyped"@,
            ResourceInputType::Structured => "structured"@,
            ResourceInputType::UavRwStructured => "uav_rwstructured"@,
            ResourceInputType::ByteAddress => "byteaddress"@,
            ResourceInputType::UavRwByteAddress => "uav_rwbyteaddress"@,
            ResourceInputType::UavAppendStructured => "uav_append_structured"@,
            ResourceInputType::UavConsumeStructured => "uav_consume_structured"@,
            ResourceInputType::UavRwStructuredWithCounter => "uav_rwstructured_with_counter"@,
        }
    }

    /// The variant of a stored value, where it is one.
    pub fn from_u32(v: u32) -> (r: Option<Self>)
        ensures
            r == ResourceInputType::of(v),
    {
        match v {
            0 => Some(ResourceInputType::CBuffer),
            1 => Some(ResourceInputType::TBuffer),
            2 => Some(ResourceInputType::Texture),
            3 => Some(ResourceInputType::Sampler),
            4 => Some(ResourceInputType::UavRwTyped),
            5 => Some(ResourceInputType::Structured),
            6 => Some(ResourceInputType::UavRwStructured),
            7 => Some(ResourceInputType::ByteAddress),
            8 => Some(ResourceInputType::UavRwByteAddress),
            9 => Some(ResourceInputType::UavAppendStructured),
            10 => Some(ResourceInputType::UavConsumeStructured),
            11 => Some(ResourceInputType::UavRwStructuredWithCounter),
            _ => None,
        }
    }

    /// The name used in disassembly output.
    pub fn name(self) -> (r: &'static str)
        ensures
            r@ == self.name_text(),
    {
        match self {
            ResourceInputType::CBuffer => "cbuffer",
            ResourceInputType::TBuffer => "tbuffer",
            ResourceInputType::Texture => "texture",
            ResourceInputType::Sampler => "sampler",
            ResourceInputType::UavRwTyped => "uav_rwtyped",
            ResourceInputType::Structured => "structured",
            ResourceInputType::UavRwStructured => "uav_rwstructured",
            ResourceInputType::ByteAddress => "byteaddress",
            ResourceInputType::UavRwByteAddress => "uav_rwbyteaddress",
            ResourceInputType::UavAppendStructured => "uav_append_structured",
            ResourceInputType::UavConsumeStructured => "uav_consume_structured",
            ResourceInputType::UavRwStructuredWithCounter => "uav_rwstructured_with_counter",
        }
    }
}

impl ResourceDimension {
    /// The variant of a stored value, where it is one.
    pub open spec fn of(v: u32) -> Option<ResourceDimension> {
        if v == 1 { Some(ResourceDimension::Buffer) }
        else if v == 2 { Some(ResourceDimension::Texture1D) }
        else if v == 3 { Some(ResourceDimension::Texture2D) }
        else if v == 4 { Some(ResourceDimension::Texture2DMS) }
        else if v == 5 { Some(ResourceDimension::Texture3D) }
        else if v == 6 { Some(ResourceDimension::TextureCube) }
        else if v == 7 { Some(ResourceDimension::Texture1DArray) }
        else if v == 8 { Some(ResourceDimension::Texture2DArray) }
        else if v == 9 { Some(ResourceDimension::Texture2DMSArray) }
        else if v == 10 { Some(ResourceDimension::TextureCubeArray) }
        else { None }
    }

    /// What a variant is called.
    pub open spec fn name_text(self) -> Seq<char> {
        match self {
            ResourceDimension::Buffer => "buf"@,
            ResourceDimension::Texture1D => "1d"@,
            ResourceDimension::Texture2D => "2d"@,
            ResourceDimension::Texture2DMS => "2dMS"@,
            ResourceDimension::Texture3D => "3d"@,
            ResourceDimension::TextureCube => "cube"@,
            ResourceDimension::Texture1DArray => "1darray"@,
            ResourceDimension::Texture2DArray => "2darray"@,
            ResourceDimension::Texture2DMSArray => "2dMSarray"@,
            ResourceDimension::TextureCubeArray => "cubearray"@,
        }
    }

    /// The variant of a stored value, where it is one.
    pub fn from_u32(v: u32) -> (r: Option<Self>)
        ensures
            r == ResourceDimension::of(v),
    {
        match v {
            1 => Some(ResourceDimension::Buffer),
            2 => Some(ResourceDimension::Texture1D),
            3 => Some(ResourceDimension::Texture2D),
            4 => Some(ResourceDimension::Texture2DMS),
            5 => Some(ResourceDimension::Texture3D),
            6 => Some(ResourceDimension::TextureCube),
            7 => Some(ResourceDimension::Texture1DArray),
            8 => Some(ResourceDimension::Texture2DArray),
            9 => Some(ResourceDimension::Texture2DMSArray),
            10 => Some(ResourceDimension::TextureCubeArray),
            _ => None,
        }
    }

    /// The name used in disassembly output.
    pub fn name(self) -> (r: &'static str)
        ensures
            r@ == self.name_text(),
    {
        match self {
            ResourceDimension::Buffer => "buf",
            ResourceDimension::Texture1D => "1d",
            ResourceDimension::Texture2D => "2d",
            ResourceDimension::Texture2DMS => "2dMS",
            ResourceDimension::Texture3D => "3d",
            ResourceDimension::TextureCube => "cube",
            ResourceDimension::Texture1DArray => "1darray",
            ResourceDimension::Texture2DArray => "2darray",
            ResourceDimension::Texture2DMSArray => "2dMSarray",
            ResourceDimension::TextureCubeArray => "cubearray",
        }
    }
}

/// What a type descriptor holds.
#[verifier::ext_equal]
pub struct TypeModel {
    pub class: u16,
    pub var_type: u16,
    pub rows: u16,
    pub columns: u16,
    pub elements: u16,
    pub members: Seq<MemberModel>,
    pub sm5_extra: Option<[u32; 4]>,
    pub name: Seq<char>,
}

/// What a member of a struct holds.
#[verifier::ext_equal]
pub struct MemberModel {
    pub name: Seq<char>,
    pub member_type: TypeModel,
    pub offset: u32,
}

/// What a variable of a constant buffer holds.
pub struct VariableModel {
    pub name: Seq<char>,
    pub offset: u32,
    pub size: u32,
    pub flags: u32,
    pub var_type: TypeModel,
    pub default_value: Seq<u8>,
    pub texture_start: Option<u32>,
    pub texture_size: Option<u32>,
    pub sampler_start: Option<u32>,
    pub sampler_size: Option<u32>,
}

/// What a constant buffer holds.
pub struct BufferModel {
    pub name: Seq<char>,
    pub variables: Seq<VariableModel>,
    pub size: u32,
    pub flags: u32,
    pub cb_type: u32,
}

/// What a resource binding holds.
pub struct BindingModel {
    pub name: Seq<char>,
    pub input_type: u32,
    pub return_type: u32,
    pub dimension: u32,
    pub num_samples: u32,
    pub bind_point: u32,
    pub bind_count: u32,
    pub flags: u32,
}

/// What the chunk holds.
pub struct RdefModel {
    pub constant_buffers: Seq<BufferModel>,
    pub bindings: Seq<BindingModel>,
    pub creator: Seq<char>,
    pub target_version: u32,
    pub compile_flags: u32,
    pub rd11_extra: Option<[u32; 8]>,
}

/// The type that stands for none.
pub open spec fn no_type() -> TypeModel {
    TypeModel {
        class: 0,
        var_type: 0,
        rows: 0,
        columns: 0,
        elements: 0,
        members: Seq::empty(),
        sm5_extra: None,
        name: Seq::empty(),
    }
}

impl TypeDesc {
    /// What the type descriptor holds.
    pub open spec fn view(&self) -> TypeModel
        decreases self,
    {
        TypeModel {
            class: self.class,
            var_type: self.var_type,
            rows: self.rows,
            columns: self.columns,
            elements: self.elements,
            members: Seq::new(
                self.members@.len(),
                |i: int|
                    if 0 <= i < self.members@.len() {
                        self.members@[i]@
                    } else {
                        MemberModel { name: Seq::empty(), member_type: no_type(), offset: 0 }
                    },
            ),
            sm5_extra: self.sm5_extra,
            name: self.name@,
        }
    }
}

impl MemberDesc {
    /// What the member holds.
    pub open spec fn view(&self) -> MemberModel
        decreases self,
    {
        MemberModel { name: self.name@, member_type: self.member_type@, offset: self.offset }
    }
}

impl TypeDesc {
    /// A copy of the descriptor and all that is below it.
    pub fn duplicate(&self) -> (r: TypeDesc)
        ensures
            r@ == self@,
        decreases self,
    {
        let members = self.duplicate_members();
        let r = TypeDesc {
            class: self.class,
            var_type: self.var_type,
            rows: self.rows,
            columns: self.columns,
            elements: self.elements,
            members,
            sm5_extra: self.sm5_extra,
            name: self.name.clone(),
        };
        proof {
            assert(r@.members =~= self@.members);
        }
        r
    }

    fn duplicate_members(&self) -> (r: Vec<MemberDesc>)
        ensures
            r@.len() == self.members@.len(),
            forall|i: int| 0 <= i < r@.len() ==> (#[trigger] r@[i])@ == self.members@[i]@,
        decreases self.members,
    {
        let mut out: Vec<MemberDesc> = Vec::new();
        let mut k: usize = 0;
        while k < self.members.len()
            invariant
                k <= self.members@.len(),
                out@.len() == k,
                forall|i: int| 0 <= i < k ==> (#[trigger] out@[i])@ == self.members@[i]@,
            decreases self.members@.len() - k,
        {
            let m = &self.members[k];
            out.push(MemberDesc { name: m.name.clone(), member_type: m.member_type.duplicate(), offset: m.offset });
            k = k + 1;
        }
        out
    }
}

impl Clone for TypeDesc {
    fn clone(&self) -> (r: Self)
        ensures
            r@ == self@,
    {
        self.duplicate()
    }
}

impl Clone for MemberDesc {
    fn clone(&self) -> (r: Self)
        ensures
            r@ == self@,
    {
        MemberDesc { name: self.name.clone(), member_type: self.member_type.duplicate(), offset: self.offset }
    }
}

impl CBufferVariable {
    /// What the variable holds.
    pub open spec fn view(&self) -> VariableModel {
        VariableModel {
            name: self.name@,
            offset: self.offset,
            size: self.size,
            flags: self.flags,
            var_type: self.var_type@,
            default_value: self.default_value@,
            texture_start: self.texture_start,
            texture_size: self.texture_size,
            sampler_start: self.sampler_start,
            sampler_size: self.sampler_size,
        }
    }
}

/// What each variable of a list holds.
pub open spec fn variable_models(variables: Seq<CBufferVariable>) -> Seq<VariableModel> {
    Seq::new(variables.len(), |i: int| variables[i]@)
}

impl CBufferDef {
    /// What the constant buffer holds.
    pub open spec fn view(&self) -> BufferModel {
        BufferModel {
            name: self.name@,
            variables: variable_models(self.variables@),
            size: self.size,
            flags: self.flags,
            cb_type: self.cb_type,
        }
    }
}

/// What each constant buffer of a list holds.
pub open spec fn buffer_models(buffers: Seq<CBufferDef>) -> Seq<BufferModel> {
    Seq::new(buffers.len(), |i: int| buffers[i]@)
}

impl ResourceBinding {
    /// What the binding holds.
    pub open spec fn view(&self) -> BindingModel {
        BindingModel {
            name: self.name@,
            input_type: self.input_type,
            return_type: self.return_type,
            dimension: self.dimension,
            num_samples: self.num_samples,
            bind_point: self.bind_point,
            bind_count: self.bind_count,
            flags: self.flags,
        }
    }
}

/// What each binding of a list holds.
pub open spec fn binding_models(bindings: Seq<ResourceBinding>) -> Seq<BindingModel> {
    Seq::new(bindings.len(), |i: int| bindings[i]@)
}

impl ResourceDef {
    /// What the chunk holds.
    pub open spec fn view(&self) -> RdefModel {
        RdefModel {
            constant_buffers: buffer_models(self.constant_buffers@),
            bindings: binding_models(self.bindings@),
            creator: self.creator@,
            target_version: self.target_version,
            compile_flags: self.compile_flags,
            rd11_extra: self.rd11_extra,
        }
    }
}

impl BindingModel {
    /// What the resource type is called.
    pub open spec fn type_text(self) -> Seq<char> {
        match ResourceInputType::of(self.input_type) {
            Some(t) => t.name_text(),
            None => "unknown"@,
        }
    }

    /// What the dimension is called.
    pub open spec fn dim_text(self) -> Seq<char> {
        match ResourceDimension::of(self.dimension) {
            Some(d) => d.name_text(),
            None => "NA"@,
        }
    }

    /// The names of the flags that are set.
    pub open spec fn flag_names(self) -> Seq<Seq<char>> {
        flag_name(self.flags, BIND_FLAG_USER_PACKED, "userPacked"@) + flag_name(self.flags, BIND_FLAG_USED, "used"@)
            + flag_name(self.flags, BIND_FLAG_COMPARISON_SAMPLER, "comparisonSampler"@) + flag_name(
            self.flags,
            BIND_FLAG_TEX_COMP_0,
            "texComp0"@,
        ) + flag_name(self.flags, BIND_FLAG_TEX_COMP_1, "texComp1"@)
    }

    /// The flags in words: the names of those known, or the number where none is.
    pub open spec fn flags_text(self) -> Seq<char> {
        if self.flag_names().len() == 0 {
            "0x"@ + hex(self.flags as nat)
        } else {
            joined(self.flag_names(), ";"@)
        }
    }

    /// The type, dimension, slot, bind count, and flags columns.
    pub open spec fn columns(self) -> Seq<char> {
        left_aligned(self.type_text(), 12) + " "@ + left_aligned(self.dim_text(), 8) + " "@ + left_aligned(
            dec(self.bind_point as nat),
            4,
        ) + " "@ + left_aligned(dec(self.bind_count as nat), 5) + (if self.flags != 0 {
            " "@ + self.flags_text()
        } else {
            ""@
        })
    }
}

/// A flag's name, where it is set.
pub open spec fn flag_name(flags: u32, bit: u32, name: Seq<char>) -> Seq<Seq<char>> {
    if flags & bit != 0 {
        seq![name]
    } else {
        Seq::empty()
    }
}

fn push_flag(out: &mut Vec<String>, flags: u32, bit: u32, name: &str)
    ensures
        views(final(out)@) == views(old(out)@) + flag_name(flags, bit, name@),
{
    let ghost before = views(out@);
    if flags & bit != 0 {
        out.push(name.to_owned());
        proof {
            assert(views(out@) =~= before + seq![name@]);
        }
    } else {
        proof {
            assert(views(out@) =~= before + Seq::<Seq<char>>::empty());
        }
    }
}

impl ResourceBinding {
    fn kind_name(&self) -> (r: &'static str)
        ensures
            r@ == self@.type_text(),
    {
        match ResourceInputType::from_u32(self.input_type) {
            Some(t) => t.name(),
            None => "unknown",
        }
    }

    fn dim_name(&self) -> (r: &'static str)
        ensures
            r@ == self@.dim_text(),
    {
        match ResourceDimension::from_u32(self.dimension) {
            Some(d) => d.name(),
            None => "NA",
        }
    }

    fn format_flags(&self) -> (r: String)
        ensures
            r@ == self@.flags_text(),
    {
        let mut names: Vec<String> = Vec::new();
        proof {
            assert(views(names@) =~= Seq::empty());
        }
        push_flag(&mut names, self.flags, BIND_FLAG_USER_PACKED, "userPacked");
        push_flag(&mut names, self.flags, BIND_FLAG_USED, "used");
        push_flag(&mut names, self.flags, BIND_FLAG_COMPARISON_SAMPLER, "comparisonSampler");
        push_flag(&mut names, self.flags, BIND_FLAG_TEX_COMP_0, "texComp0");
        push_flag(&mut names, self.flags, BIND_FLAG_TEX_COMP_1, "texComp1");
        proof {
            assert(views(names@) =~= self@.flag_names());
        }
        if names.len() == 0 {
            let h = hexadecimal(self.flags as u64);
            cat2("0x", h.as_str())
        } else {
            join(names.as_slice(), ";")
        }
    }

    /// The type, dimension, slot, bind count, and flags columns.
    pub fn fmt_columns(&self) -> (r: String)
        ensures
            r@ == self@.columns(),
    {
        let kind = align_left(self.kind_name(), 12);
        let dim = align_left(self.dim_name(), 8);
        let point = decimal(self.bind_point as u64);
        let point = align_left(point.as_str(), 4);
        let count = decimal(self.bind_count as u64);
        let count = align_left(count.as_str(), 5);
        let flags = if self.flags != 0 {
            let held = self.format_flags();
            cat2(" ", held.as_str())
        } else {
            "".to_owned()
        };
        let head = cat7(kind.as_str(), " ", dim.as_str(), " ", point.as_str(), " ", count.as_str());
        cat2(head.as_str(), flags.as_str())
    }

    /// The binding in words.
    pub fn text(&self) -> (r: String)
        ensures
            r@ == left_aligned(self.name@, 20) + " "@ + self@.columns(),
    {
        let name = align_left(self.name.as_str(), 20);
        let columns = self.fmt_columns();
        cat3(name.as_str(), " ", columns.as_str())
    }
}

} // verus!
