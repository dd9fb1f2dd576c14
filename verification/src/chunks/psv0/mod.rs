//! PSV0 chunk: metadata that the runtime uses to validate pipeline state against the shader's requirements.
//!
//! The runtime info grows with the version: 24 bytes, 36 with signature data behind it, 48 with thread counts,
//! 52 with the entry function's name, 56 with the group shared memory.
use self::types::{PSVShaderKind, PipelineStateValidation, PsvModel, ShaderStageInfo};
use crate::text::{cat7, dec, decimal};
use vstd::prelude::*;

pub mod parse;
pub mod types;
pub mod write;

verus! {

/// The version that a runtime info of a size belongs to.
pub open spec fn version_text(info_size: u32) -> Seq<char> {
    if info_size == 24 {
        "v0"@
    } else if info_size == 36 {
        "v1"@
    } else if info_size == 48 {
        "v2"@
    } else if info_size == 52 {
        "v3"@
    } else if info_size == 56 {
        "v4"@
    } else {
        "v?"@
    }
}

/// The kind of shader in short: the one stated, or the one that its own fields are those of.
pub open spec fn kind_text(p: PsvModel) -> Seq<char> {
    match p.runtime_info_1 {
        Some(ri) => PSVShaderKind::of(ri.shader_stage).name_text(),
        None => match p.stage_info {
            ShaderStageInfo::Vertex { .. } => "VS"@,
            ShaderStageInfo::Pixel { .. } => "PS"@,
            ShaderStageInfo::Geometry { .. } => "GS"@,
            ShaderStageInfo::Hull { .. } => "HS"@,
            ShaderStageInfo::Domain { .. } => "DS"@,
            ShaderStageInfo::Compute => "CS"@,
            ShaderStageInfo::Mesh { .. } => "MS"@,
            ShaderStageInfo::Amplification { .. } => "AS"@,
            ShaderStageInfo::Other { .. } => "Unknown"@,
        },
    }
}

/// The chunk in words.
pub open spec fn psv_text(p: PsvModel) -> Seq<char> {
    "// Pipeline State Validation ("@ + version_text(p.info_size) + "): shader="@ + kind_text(p) + ", resources="@ + dec(
        p.resources.len(),
    ) + ", sigs=("@ + dec(p.sections.sig_input_elements.len()) + ","@ + dec(p.sections.sig_output_elements.len()) + ","@
        + dec(p.sections.sig_patch_const_or_prim_elements.len()) + ")\n"@ + (match p.runtime_info_1 {
        Some(ri) => if ri.uses_view_id != 0 {
            "//   uses ViewID\n"@
        } else {
            ""@
        },
        None => ""@,
    })
}

impl PipelineStateValidation {
    /// The tag the chunk goes under.
    pub fn fourcc(&self) -> (r: [u8; 4])
        ensures
            r == [0x50u8, 0x53, 0x56, 0x30],
    {
        [0x50u8, 0x53, 0x56, 0x30]
    }

    /// The payload.
    pub fn write_payload(&self) -> (r: Vec<u8>)
        ensures
            r@ == self::write::psv_bytes(self@),
    {
        self::write::write_psv0(self)
    }

    /// The chunk in words.
    pub fn text(&self) -> (r: String)
        ensures
            r@ == psv_text(self@),
    {
        let version = match self.info_size {
            24 => "v0",
            36 => "v1",
            48 => "v2",
            52 => "v3",
            56 => "v4",
            _ => "v?",
        };
        let kind = match &self.runtime_info_1 {
            Some(ri) => PSVShaderKind::from_u8(ri.shader_stage).name(),
            None => match &self.stage_info {
                ShaderStageInfo::Vertex { .. } => "VS",
                ShaderStageInfo::Pixel { .. } => "PS",
                ShaderStageInfo::Geometry { .. } => "GS",
                ShaderStageInfo::Hull { .. } => "HS",
                ShaderStageInfo::Domain { .. } => "DS",
                ShaderStageInfo::Compute => "CS",
                ShaderStageInfo::Mesh { .. } => "MS",
                ShaderStageInfo::Amplification { .. } => "AS",
                ShaderStageInfo::Other { .. } => "Unknown",
            },
        };
        let view = match &self.runtime_info_1 {
            Some(ri) => if ri.uses_view_id != 0 {
                "//   uses ViewID\n"
            } else {
                ""
            },
            None => "",
        };
        let resources = decimal(self.resources.len() as u64);
        let inputs = decimal(self.sig_input_elements.len() as u64);
        let outputs = decimal(self.sig_output_elements.len() as u64);
        let patch = decimal(self.sig_patch_const_or_prim_elements.len() as u64);
        let head = cat7(
            "// Pipeline State Validation (",
            version,
            "): shader=",
            kind,
            ", resources=",
            resources.as_str(),
            ", sigs=(",
        );
        let counts = cat7(head.as_str(), inputs.as_str(), ",", outputs.as_str(), ",", patch.as_str(), ")\n");
        crate::text::cat2(counts.as_str(), view)
    }
}

} // verus!
