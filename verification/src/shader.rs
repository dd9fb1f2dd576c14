//! A shader with typed access to its chunks, and its full disassembly.
use crate::chunks::dxil::DxilData;
use crate::chunks::ildn::DebugName;
use crate::chunks::psv0::psv_text;
use crate::chunks::rdef::{BindingModel, BufferModel, CBufferDef, RdefModel, ResourceDef, VariableModel};
use crate::chunks::rts0::{root_text, RootSignature};
use crate::chunks::sfi0::ShaderFeatureInfo;
use crate::chunks::signature::{element_models, ElementModel, Signature, SignatureElement};
use crate::chunks::stat::ShaderStats;
use crate::container::{
    container_models, containers_from, kind, kind_of, scan_dxbc, ChunkData, ChunkKind, DxbcContainer, RawChunk,
};
use crate::shex::fmt::{format_program, program_text};
use crate::shex::ir::Program;
use crate::text::{align_left, cat2, dec, decimal, left_aligned, repeat, repeated};
use vstd::prelude::*;
use vstd::utf8::encode_utf8;

verus! {

/// The first chunk of a kind, from one on.
pub open spec fn first_of_kind(chunks: Seq<RawChunk>, wanted: ChunkKind, from: int) -> Option<int>
    decreases chunks.len() - from,
{
    if from < 0 || from >= chunks.len() {
        None
    } else if kind_of(chunks[from].fourcc@) == wanted {
        Some(from)
    } else {
        first_of_kind(chunks, wanted, from + 1)
    }
}

/// A parsed shader container with typed chunk access and formatting.
pub struct Shader {
    container: DxbcContainer,
    parsed: Vec<ChunkData>,
}

/// Every chunk is parsed as what its tag says.
pub open spec fn all_parsed(chunks: Seq<RawChunk>, parsed: Seq<ChunkData>) -> bool {
    chunks.len() == parsed.len() && forall|i: int| 0 <= i < chunks.len() ==> chunks[i].holds(#[trigger] parsed[i])
}

impl Shader {
    #[verifier::type_invariant]
    spec fn whole(self) -> bool {
        all_parsed(self.container.chunks@, self.parsed@)
    }

    /// The container.
    pub closed spec fn held(self) -> DxbcContainer {
        self.container
    }

    /// The parsed chunks, in the order of the container.
    pub closed spec fn data(self) -> Seq<ChunkData> {
        self.parsed@
    }

    /// The first chunk of a kind.
    pub open spec fn found(self, wanted: ChunkKind) -> Option<ChunkData> {
        match first_of_kind(self.held().chunks@, wanted, 0) {
            Some(i) => Some(self.data()[i]),
            None => None,
        }
    }

    /// Wrap a container.
    pub fn from_container(container: DxbcContainer) -> (r: Self)
        ensures
            r.held() == container,
            all_parsed(container.chunks@, r.data()),
    {
        let mut parsed: Vec<ChunkData> = Vec::new();
        let mut i: usize = 0;
        while i < container.chunks.len()
            invariant
                i <= container.chunks@.len(),
                parsed@.len() == i,
                forall|k: int| 0 <= k < i ==> container.chunks@[k].holds(#[trigger] parsed@[k]),
            decreases container.chunks@.len() - i,
        {
            parsed.push(container.chunks[i].parse());
            i = i + 1;
        }
        Shader { container, parsed }
    }

    /// The first chunk of a kind.
    fn find(&self, wanted: ChunkKind) -> (r: Option<&ChunkData>)
        ensures
            match r {
                Some(c) => self.found(wanted) == Some(*c),
                None => self.found(wanted) is None,
            },
    {
        proof {
            use_type_invariant(self);
        }
        let ghost chunks = self.container.chunks@;
        let mut i: usize = 0;
        while i < self.container.chunks.len()
            invariant
                i <= self.container.chunks@.len(),
                chunks == self.container.chunks@,
                self.parsed@.len() == chunks.len(),
                first_of_kind(chunks, wanted, 0) == first_of_kind(chunks, wanted, i as int),
            decreases self.container.chunks@.len() - i,
        {
            if kind(self.container.chunks[i].fourcc) == wanted {
                return Some(&self.parsed[i]);
            }
            i = i + 1;
        }
        None
    }

    /// Byte offset of this container in the source file.
    pub fn offset(&self) -> (r: usize)
        ensures
            r == self.held().offset_in_file,
    {
        self.container.offset_in_file
    }

    /// Total size of the container in bytes.
    pub fn size(&self) -> (r: u32)
        ensures
            r == self.held().total_size,
    {
        self.container.total_size
    }

    /// The decoded shader program, if present.
    pub fn program(&self) -> (r: Option<&Program>)
        ensures
            match r {
                Some(v) => self.found(ChunkKind::Shader) == Some(ChunkData::Shader(*v)),
                None => !(self.found(ChunkKind::Shader) matches Some(ChunkData::Shader(_))),
            },
    {
        match self.find(ChunkKind::Shader) {
            Some(ChunkData::Shader(v)) => Some(v),
            _ => None,
        }
    }

    /// Resource definitions: constant buffers, bindings, creator string.
    pub fn resource_def(&self) -> (r: Option<&ResourceDef>)
        ensures
            match r {
                Some(v) => self.found(ChunkKind::Rdef) == Some(ChunkData::Rdef(*v)),
                None => !(self.found(ChunkKind::Rdef) matches Some(ChunkData::Rdef(_))),
            },
    {
        match self.find(ChunkKind::Rdef) {
            Some(ChunkData::Rdef(v)) => Some(v),
            _ => None,
        }
    }

    /// Input signature elements.
    pub fn input_signature(&self) -> (r: Option<&Signature>)
        ensures
            match r {
                Some(v) => self.found(ChunkKind::InputSignature) == Some(ChunkData::InputSignature(*v)),
                None => !(self.found(ChunkKind::InputSignature) matches Some(ChunkData::InputSignature(_))),
            },
    {
        match self.find(ChunkKind::InputSignature) {
            Some(ChunkData::InputSignature(v)) => Some(v),
            _ => None,
        }
    }

    /// Output signature elements.
    pub fn output_signature(&self) -> (r: Option<&Signature>)
        ensures
            match r {
                Some(v) => self.found(ChunkKind::OutputSignature) == Some(ChunkData::OutputSignature(*v)),
                None => !(self.found(ChunkKind::OutputSignature) matches Some(ChunkData::OutputSignature(_))),
            },
    {
        match self.find(ChunkKind::OutputSignature) {
            Some(ChunkData::OutputSignature(v)) => Some(v),
            _ => None,
        }
    }

    /// Patch constant signature elements (hull and domain shaders).
    pub fn patch_constant_signature(&self) -> (r: Option<&Signature>)
        ensures
            match r {
                Some(v) => self.found(ChunkKind::PatchConstantSignature) == Some(ChunkData::PatchConstantSignature(*v)),
                None => !(self.found(ChunkKind::PatchConstantSignature) matches Some(ChunkData::PatchConstantSignature(_))),
            },
    {
        match self.find(ChunkKind::PatchConstantSignature) {
            Some(ChunkData::PatchConstantSignature(v)) => Some(v),
            _ => None,
        }
    }

    /// Shader statistics: instruction counts, register usage.
    pub fn stats(&self) -> (r: Option<&ShaderStats>)
        ensures
            match r {
                Some(v) => self.found(ChunkKind::Stats) == Some(ChunkData::Stats(*v)),
                None => !(self.found(ChunkKind::Stats) matches Some(ChunkData::Stats(_))),
            },
    {
        match self.find(ChunkKind::Stats) {
            Some(ChunkData::Stats(v)) => Some(v),
            _ => None,
        }
    }

    /// Root signature.
    pub fn root_signature(&self) -> (r: Option<&RootSignature>)
        ensures
            match r {
                Some(v) => self.found(ChunkKind::RootSignature) == Some(ChunkData::RootSignature(*v)),
                None => !(self.found(ChunkKind::RootSignature) matches Some(ChunkData::RootSignature(_))),
            },
    {
        match self.find(ChunkKind::RootSignature) {
            Some(ChunkData::RootSignature(v)) => Some(v),
            _ => None,
        }
    }

    /// Shader feature flags.
    pub fn feature_info(&self) -> (r: Option<&ShaderFeatureInfo>)
        ensures
            match r {
                Some(v) => self.found(ChunkKind::FeatureInfo) == Some(ChunkData::FeatureInfo(*v)),
                None => !(self.found(ChunkKind::FeatureInfo) matches Some(ChunkData::FeatureInfo(_))),
            },
    {
        match self.find(ChunkKind::FeatureInfo) {
            Some(ChunkData::FeatureInfo(v)) => Some(v),
            _ => None,
        }
    }

    /// Debug name.
    pub fn debug_name(&self) -> (r: Option<&DebugName>)
        ensures
            match r {
                Some(v) => self.found(ChunkKind::DebugName) == Some(ChunkData::DebugName(*v)),
                None => !(self.found(ChunkKind::DebugName) matches Some(ChunkData::DebugName(_))),
            },
    {
        match self.find(ChunkKind::DebugName) {
            Some(ChunkData::DebugName(v)) => Some(v),
            _ => None,
        }
    }

    /// DXIL bytecode.
    pub fn dxil(&self) -> (r: Option<&DxilData>)
        ensures
            match r {
                Some(v) => self.found(ChunkKind::Dxil) == Some(ChunkData::Dxil(*v)),
                None => !(self.found(ChunkKind::Dxil) matches Some(ChunkData::Dxil(_))),
            },
    {
        match self.find(ChunkKind::Dxil) {
            Some(ChunkData::Dxil(v)) => Some(v),
            _ => None,
        }
    }

    /// The underlying container.
    pub fn container(&self) -> (r: &DxbcContainer)
        ensures
            *r == self.held(),
    {
        &self.container
    }

    /// All parsed chunks, in the order of the container.
    pub fn chunks(&self) -> (r: &[ChunkData])
        ensures
            r@ == self.data(),
            all_parsed(self.held().chunks@, r@),
    {
        proof {
            use_type_invariant(self);
        }
        self.parsed.as_slice()
    }
}

/// Parse all shaders found in a file.
pub fn parse(data: &[u8]) -> (r: Vec<Shader>)
    ensures
        r@.len() == containers_from(data@, 0).len(),
        forall|i: int| 0 <= i < r@.len() ==> (#[trigger] r@[i]).held()@ == containers_from(data@, 0)[i],
        forall|i: int| 0 <= i < r@.len() ==> all_parsed((#[trigger] r@[i]).held().chunks@, r@[i].data()),
{
    let ghost want = containers_from(data@, 0);
    let mut left = scan_dxbc(data);
    let count: usize = left.len();
    let mut out: Vec<Shader> = Vec::new();
    let ghost all = left@;
    proof {
        assert(container_models(all).len() == all.len());
        assert(left@ =~= all.skip(0));
    }
    while left.len() > 0
        invariant
            want == container_models(all),
            all.len() == want.len(),
            out@.len() + left@.len() == all.len(),
            left@ == all.skip(out@.len() as int),
            forall|i: int| 0 <= i < out@.len() ==> (#[trigger] out@[i]).held()@ == want[i],
            forall|i: int| 0 <= i < out@.len() ==> all_parsed((#[trigger] out@[i]).held().chunks@, out@[i].data()),
        decreases left@.len(),
    {
        let ghost at = out@.len() as int;
        assert(left@[0] == all[at]);
        assert(want[at] == all[at]@);
        let held = left.remove(0);
        out.push(Shader::from_container(held));
        proof {
            assert(left@ =~= all.skip(at + 1));
        }
    }
    out
}

/// The wider of two columns.
pub open spec fn wider(a: nat, b: nat) -> nat {
    if a > b {
        a
    } else {
        b
    }
}

/// The column the names of the first bindings take, four at the least.
pub open spec fn binding_width(bindings: Seq<BindingModel>, n: int) -> nat
    decreases n,
{
    if n <= 0 {
        4
    } else {
        wider(encode_utf8(bindings[n - 1].name).len(), binding_width(bindings, n - 1))
    }
}

/// The column the names of the first variables take, four at the least.
pub open spec fn variable_width(variables: Seq<VariableModel>, n: int) -> nat
    decreases n,
{
    if n <= 0 {
        4
    } else {
        wider(encode_utf8(variables[n - 1].name).len(), variable_width(variables, n - 1))
    }
}

/// The rows of the first bindings.
pub open spec fn binding_rows(bindings: Seq<BindingModel>, column: nat, n: int) -> Seq<char>
    decreases n,
{
    if n <= 0 {
        Seq::empty()
    } else {
        binding_rows(bindings, column, n - 1) + "// "@ + left_aligned(bindings[n - 1].name, column) + " "@ + bindings[n
            - 1].columns() + "\n"@
    }
}

/// The table of resource bindings.
pub open spec fn bindings_text(bindings: Seq<BindingModel>) -> Seq<char> {
    if bindings.len() == 0 {
        Seq::empty()
    } else {
        let column = binding_width(bindings, bindings.len() as int);
        "//\n// Resource Bindings:\n// "@ + left_aligned("Name"@, column)
            + " Type         Dim      Slot Count Flags\n// "@ + repeated('-', column)
            + " ------------ -------- ---- ----- -----\n"@ + binding_rows(bindings, column, bindings.len() as int)
    }
}

/// The rows of the first variables of a buffer.
pub open spec fn variable_rows(variables: Seq<VariableModel>, column: nat, n: int) -> Seq<char>
    decreases n,
{
    if n <= 0 {
        Seq::empty()
    } else {
        let v = variables[n - 1];
        variable_rows(variables, column, n - 1) + "//   "@ + left_aligned(v.name, column) + " "@ + left_aligned(
            dec(v.offset as nat),
            6,
        ) + "  "@ + dec(v.size as nat) + "\n"@
    }
}

/// A constant buffer and its variables.
pub open spec fn buffer_text(b: BufferModel) -> Seq<char> {
    let column = variable_width(b.variables, b.variables.len() as int);
    "//\n// cbuffer "@ + b.name + " ("@ + dec(b.size as nat) + " bytes)\n//   "@ + left_aligned("Name"@, column)
        + " Offset  Size\n//   "@ + repeated('-', column) + " ------  ----\n"@ + variable_rows(
        b.variables,
        column,
        b.variables.len() as int,
    )
}

/// The first constant buffers and their variables.
pub open spec fn buffers_text(buffers: Seq<BufferModel>, n: int) -> Seq<char>
    decreases n,
{
    if n <= 0 {
        Seq::empty()
    } else {
        buffers_text(buffers, n - 1) + buffer_text(buffers[n - 1])
    }
}

/// Resource definitions as commented disassembly text.
pub open spec fn resource_text(rd: RdefModel) -> Seq<char> {
    (if rd.creator.len() == 0 {
        Seq::empty()
    } else {
        "// Compiled with: "@ + rd.creator + "\n"@
    }) + bindings_text(rd.bindings) + buffers_text(rd.constant_buffers, rd.constant_buffers.len() as int) + "//\n"@
}

/// The column the names of the first elements take, four at the least.
pub open spec fn element_width(elements: Seq<ElementModel>, n: int) -> nat
    decreases n,
{
    if n <= 0 {
        4
    } else {
        wider(elements[n - 1].indexed_name().len(), element_width(elements, n - 1))
    }
}

/// The rows of the first elements of a signature, names filled up to a column.
pub open spec fn element_rows(elements: Seq<ElementModel>, column: nat, n: int) -> Seq<char>
    decreases n,
{
    if n <= 0 {
        Seq::empty()
    } else {
        let e = elements[n - 1];
        element_rows(elements, column, n - 1) + "//   "@ + left_aligned(e.indexed_name(), column) + " "@ + e.columns()
            + "\n"@
    }
}

/// A signature as commented disassembly text.
pub open spec fn signature_text(header: Seq<char>, elements: Seq<ElementModel>) -> Seq<char> {
    if elements.len() == 0 {
        Seq::empty()
    } else {
        "// "@ + header + ":\n"@ + element_rows(
            elements,
            element_width(elements, elements.len() as int),
            elements.len() as int,
        ) + "//\n"@
    }
}

fn name_bytes(name: &String) -> (r: usize)
    ensures
        r == encode_utf8(name@).len(),
{
    name.as_str().as_bytes().len()
}

fn push_bindings(rd: &ResourceDef, out: &mut String)
    ensures
        final(out)@ == old(out)@ + bindings_text(rd@.bindings),
{
    let ghost before = out@;
    let ghost all = rd@.bindings;
    proof {
        assert(all.len() == rd.bindings@.len());
    }
    if rd.bindings.len() == 0 {
        proof {
            assert(out@ =~= before + bindings_text(all));
        }
        return;
    }
    let mut column: usize = 4;
    let mut i: usize = 0;
    while i < rd.bindings.len()
        invariant
            i <= rd.bindings@.len(),
            all == rd@.bindings,
            all.len() == rd.bindings@.len(),
            column == binding_width(all, i as int),
        decreases rd.bindings@.len() - i,
    {
        assert(all[i as int] == rd.bindings@[i as int]@);
        let wide = name_bytes(&rd.bindings[i].name);
        if wide > column {
            column = wide;
        }
        i = i + 1;
    }
    let title = align_left("Name", column);
    let dashes = repeat('-', column);
    out.push_str("//\n// Resource Bindings:\n// ");
    out.push_str(title.as_str());
    out.push_str(" Type         Dim      Slot Count Flags\n// ");
    out.push_str(dashes.as_str());
    out.push_str(" ------------ -------- ---- ----- -----\n");
    let ghost lead = out@;
    let mut i: usize = 0;
    proof {
        assert(lead + binding_rows(all, column as nat, 0) =~= lead);
    }
    while i < rd.bindings.len()
        invariant
            i <= rd.bindings@.len(),
            all == rd@.bindings,
            all.len() == rd.bindings@.len(),
            out@ == lead + binding_rows(all, column as nat, i as int),
        decreases rd.bindings@.len() - i,
    {
        assert(all[i as int] == rd.bindings@[i as int]@);
        let name = align_left(rd.bindings[i].name.as_str(), column);
        let columns = rd.bindings[i].fmt_columns();
        out.push_str("// ");
        out.push_str(name.as_str());
        out.push_str(" ");
        out.push_str(columns.as_str());
        out.push_str("\n");
        proof {
            assert(out@ =~= lead + binding_rows(all, column as nat, i + 1));
        }
        i = i + 1;
    }
    proof {
        assert(out@ =~= before + bindings_text(all));
    }
}

fn push_buffer(b: &CBufferDef, out: &mut String)
    ensures
        final(out)@ == old(out)@ + buffer_text(b@),
{
    let ghost before = out@;
    let ghost all = b@.variables;
    proof {
        assert(all.len() == b.variables@.len());
    }
    let mut column: usize = 4;
    let mut i: usize = 0;
    while i < b.variables.len()
        invariant
            i <= b.variables@.len(),
            all == b@.variables,
            all.len() == b.variables@.len(),
            column == variable_width(all, i as int),
        decreases b.variables@.len() - i,
    {
        assert(all[i as int] == b.variables@[i as int]@);
        let wide = name_bytes(&b.variables[i].name);
        if wide > column {
            column = wide;
        }
        i = i + 1;
    }
    let title = align_left("Name", column);
    let dashes = repeat('-', column);
    let size = decimal(b.size as u64);
    out.push_str("//\n// cbuffer ");
    out.push_str(b.name.as_str());
    out.push_str(" (");
    out.push_str(size.as_str());
    out.push_str(" bytes)\n//   ");
    out.push_str(title.as_str());
    out.push_str(" Offset  Size\n//   ");
    out.push_str(dashes.as_str());
    out.push_str(" ------  ----\n");
    let ghost lead = out@;
    let mut i: usize = 0;
    proof {
        assert(lead + variable_rows(all, column as nat, 0) =~= lead);
    }
    while i < b.variables.len()
        invariant
            i <= b.variables@.len(),
            all == b@.variables,
            all.len() == b.variables@.len(),
            out@ == lead + variable_rows(all, column as nat, i as int),
        decreases b.variables@.len() - i,
    {
        assert(all[i as int] == b.variables@[i as int]@);
        let v = &b.variables[i];
        let name = align_left(v.name.as_str(), column);
        let o = decimal(v.offset as u64);
        let offset = align_left(o.as_str(), 6);
        let held = decimal(v.size as u64);
        out.push_str("//   ");
        out.push_str(name.as_str());
        out.push_str(" ");
        out.push_str(offset.as_str());
        out.push_str("  ");
        out.push_str(held.as_str());
        out.push_str("\n");
        proof {
            assert(out@ =~= lead + variable_rows(all, column as nat, i + 1));
        }
        i = i + 1;
    }
    proof {
        assert(out@ =~= before + buffer_text(b@));
    }
}

/// Write resource definitions as commented disassembly text.
pub fn fmt_resource_def(out: &mut String, rd: &ResourceDef)
    ensures
        final(out)@ == old(out)@ + resource_text(rd@),
{
    let ghost before = out@;
    let ghost all = rd@.constant_buffers;
    proof {
        assert(all.len() == rd.constant_buffers@.len());
    }
    if rd.creator.as_str().unicode_len() > 0 {
        out.push_str("// Compiled with: ");
        out.push_str(rd.creator.as_str());
        out.push_str("\n");
    }
    push_bindings(rd, out);
    let ghost lead = out@;
    let mut i: usize = 0;
    proof {
        assert(lead + buffers_text(all, 0) =~= lead);
    }
    while i < rd.constant_buffers.len()
        invariant
            i <= rd.constant_buffers@.len(),
            all == rd@.constant_buffers,
            all.len() == rd.constant_buffers@.len(),
            out@ == lead + buffers_text(all, i as int),
        decreases rd.constant_buffers@.len() - i,
    {
        assert(all[i as int] == rd.constant_buffers@[i as int]@);
        push_buffer(&rd.constant_buffers[i], out);
        proof {
            assert(out@ =~= lead + buffers_text(all, i + 1));
        }
        i = i + 1;
    }
    out.push_str("//\n");
    proof {
        assert(out@ =~= before + resource_text(rd@));
    }
}

/// Write a signature as commented disassembly text.
pub fn fmt_signature(out: &mut String, header: &str, elements: &Vec<SignatureElement>)
    ensures
        final(out)@ == old(out)@ + signature_text(header@, element_models(elements@)),
{
    let ghost before = out@;
    let ghost all = element_models(elements@);
    proof {
        assert(all.len() == elements@.len());
    }
    if elements.len() == 0 {
        proof {
            assert(out@ =~= before + signature_text(header@, all));
        }
        return;
    }
    let mut column: usize = 4;
    let mut i: usize = 0;
    while i < elements.len()
        invariant
            i <= elements@.len(),
            all == element_models(elements@),
            column == element_width(all, i as int),
        decreases elements@.len() - i,
    {
        assert(all[i as int] == elements@[i as int]@);
        let name = elements[i].fmt_name_with_index();
        let wide: usize = name.as_str().unicode_len();
        if wide > column {
            column = wide;
        }
        i = i + 1;
    }
    out.push_str("// ");
    out.push_str(header);
    out.push_str(":\n");
    let ghost lead = out@;
    let mut i: usize = 0;
    proof {
        assert(lead + element_rows(all, column as nat, 0) =~= lead);
    }
    while i < elements.len()
        invariant
            i <= elements@.len(),
            all == element_models(elements@),
            out@ == lead + element_rows(all, column as nat, i as int),
        decreases elements@.len() - i,
    {
        assert(all[i as int] == elements@[i as int]@);
        let e = &elements[i];
        let name = e.fmt_name_with_index();
        let name = align_left(name.as_str(), column);
        let columns = e.fmt_columns();
        out.push_str("//   ");
        out.push_str(name.as_str());
        out.push_str(" ");
        out.push_str(columns.as_str());
        out.push_str("\n");
        proof {
            assert(out@ =~= lead + element_rows(all, column as nat, i + 1));
        }
        i = i + 1;
    }
    out.push_str("//\n");
    proof {
        assert(out@ =~= before + signature_text(header@, all));
    }
}

/// What a chunk adds behind everything else: state validation, runtime data, debug data, private data and libraries.
pub open spec fn trailing_text(chunk: ChunkData) -> Seq<char> {
    match chunk {
        ChunkData::PipelineStateValidation(v) => psv_text(v@),
        ChunkData::RuntimeData(v) => v.text_spec(),
        ChunkData::DebugData(v) => "// Debug Data: "@ + dec(v.raw@.len()) + " bytes\n"@,
        ChunkData::PrivateData(v) => v.text_spec(),
        ChunkData::LibraryHeader(v) => "// Library Header: "@ + dec(v.size as nat) + " bytes\n"@,
        ChunkData::LibraryFunction(v) => v.text_spec(),
        ChunkData::LibraryFunctionSignatures(v) => v.text_spec(),
        _ => Seq::empty(),
    }
}

/// What the first chunks add behind everything else.
pub open spec fn trailing_texts(chunks: Seq<ChunkData>, n: int) -> Seq<char>
    decreases n,
{
    if n <= 0 {
        Seq::empty()
    } else {
        trailing_texts(chunks, n - 1) + trailing_text(chunks[n - 1])
    }
}

/// What a chunk that is found by its kind says.
#[verifier::opaque]
pub open spec fn leading_text(chunk: Option<ChunkData>) -> Seq<char> {
    match chunk {
        Some(ChunkData::RootSignature(v)) => root_text(v@),
        Some(ChunkData::Rdef(v)) => resource_text(v@),
        Some(ChunkData::InputSignature(v)) => signature_text("Input Signature"@, element_models(v.elements@)),
        Some(ChunkData::OutputSignature(v)) => signature_text("Output Signature"@, element_models(v.elements@)),
        Some(ChunkData::PatchConstantSignature(v)) => signature_text(
            "Patch Constant Signature"@,
            element_models(v.elements@),
        ),
        Some(ChunkData::DebugName(v)) => "// Debug Name: "@ + v.name@ + "\n"@,
        Some(ChunkData::FeatureInfo(v)) => v.text_spec() + "//\n"@,
        Some(ChunkData::Shader(v)) => program_text(v@),
        Some(ChunkData::Stats(v)) => v.text_spec(),
        Some(ChunkData::Dxil(v)) => v.text_spec(),
        _ => Seq::empty(),
    }
}

fn trailing(chunk: &ChunkData) -> (r: String)
    ensures
        r@ == trailing_text(*chunk),
{
    match chunk {
        ChunkData::PipelineStateValidation(v) => v.text(),
        ChunkData::RuntimeData(v) => v.text(),
        ChunkData::DebugData(v) => v.text(),
        ChunkData::PrivateData(v) => v.text(),
        ChunkData::LibraryHeader(v) => v.text(),
        ChunkData::LibraryFunction(v) => v.text(),
        ChunkData::LibraryFunctionSignatures(v) => v.text(),
        _ => {
            let none = String::new();
            proof {
                assert(none@ =~= Seq::<char>::empty());
            }
            none
        },
    }
}

fn push_trailing(chunks: &[ChunkData], out: &mut String)
    ensures
        final(out)@ == old(out)@ + trailing_texts(chunks@, chunks@.len() as int),
{
    let ghost lead = out@;
    let mut i: usize = 0;
    proof {
        assert(lead + trailing_texts(chunks@, 0) =~= lead);
    }
    while i < chunks.len()
        invariant
            i <= chunks@.len(),
            out@ == lead + trailing_texts(chunks@, i as int),
        decreases chunks@.len() - i,
    {
        let said = trailing(&chunks[i]);
        proof {
            assert(out@ + said@ =~= lead + trailing_texts(chunks@, i + 1));
        }
        out.push_str(said.as_str());
        i = i + 1;
    }
}

impl Shader {
    /// The disassembly of the shader: its root signature, resources and signatures, its name and features, its program
    /// and statistics, and whatever else it holds in the order it holds it.
    pub open spec fn listing(self) -> Seq<char> {
        leading_text(self.found(ChunkKind::RootSignature)) + leading_text(self.found(ChunkKind::Rdef)) + leading_text(
            self.found(ChunkKind::InputSignature),
        ) + leading_text(self.found(ChunkKind::OutputSignature)) + leading_text(
            self.found(ChunkKind::PatchConstantSignature),
        ) + leading_text(self.found(ChunkKind::DebugName)) + leading_text(self.found(ChunkKind::FeatureInfo))
            + leading_text(self.found(ChunkKind::Shader)) + leading_text(self.found(ChunkKind::Stats)) + leading_text(
            self.found(ChunkKind::Dxil),
        ) + trailing_texts(self.data(), self.data().len() as int)
    }

    /// Write what the first chunk of a kind says.
    fn push_leading(&self, wanted: ChunkKind, out: &mut String)
        ensures
            final(out)@ == old(out)@ + leading_text(self.found(wanted)),
    {
        proof {
            reveal(leading_text);
        }
        let ghost before = out@;
        let found = self.find(wanted);
        let said = match found {
            Some(ChunkData::RootSignature(v)) => v.text(),
            Some(ChunkData::Rdef(v)) => {
                fmt_resource_def(out, v);
                return;
            },
            Some(ChunkData::InputSignature(v)) => {
                fmt_signature(out, "Input Signature", &v.elements);
                return;
            },
            Some(ChunkData::OutputSignature(v)) => {
                fmt_signature(out, "Output Signature", &v.elements);
                return;
            },
            Some(ChunkData::PatchConstantSignature(v)) => {
                fmt_signature(out, "Patch Constant Signature", &v.elements);
                return;
            },
            Some(ChunkData::DebugName(v)) => v.text(),
            Some(ChunkData::FeatureInfo(v)) => {
                let flags = v.text();
                cat2(flags.as_str(), "//\n")
            },
            Some(ChunkData::Shader(v)) => format_program(v),
            Some(ChunkData::Stats(v)) => v.text(),
            Some(ChunkData::Dxil(v)) => v.text(),
            _ => {
                proof {
                    assert(out@ =~= before + leading_text(self.found(wanted)));
                }
                return;
            },
        };
        out.push_str(said.as_str());
    }

    /// The disassembly of the shader.
    pub fn text(&self) -> (r: String)
        ensures
            r@ == self.listing(),
    {
        let mut out = String::new();
        proof {
            assert(out@ =~= Seq::<char>::empty());
        }
        self.push_leading(ChunkKind::RootSignature, &mut out);
        proof {
            assert(out@ =~= leading_text(self.found(ChunkKind::RootSignature)));
        }
        self.push_leading(ChunkKind::Rdef, &mut out);
        self.push_leading(ChunkKind::InputSignature, &mut out);
        self.push_leading(ChunkKind::OutputSignature, &mut out);
        self.push_leading(ChunkKind::PatchConstantSignature, &mut out);
        self.push_leading(ChunkKind::DebugName, &mut out);
        self.push_leading(ChunkKind::FeatureInfo, &mut out);
        self.push_leading(ChunkKind::Shader, &mut out);
        self.push_leading(ChunkKind::Stats, &mut out);
        self.push_leading(ChunkKind::Dxil, &mut out);
        push_trailing(self.chunks(), &mut out);
        proof {
            assert(out@ =~= self.listing());
        }
        out
    }
}

} // verus!
