//! The listing of a whole file: every shader in it under a heading of its own.
use crate::shader::Shader;
use crate::text::{dec, decimal, hex_upper, hexadecimal_upper};
use vstd::prelude::*;

verus! {

/// The line around a shader's heading.
pub open spec fn rule() -> Seq<char> {
    "// ============================================================\n"@
}

/// The heading of a file.
pub open spec fn file_heading(file: Seq<char>, count: nat) -> Seq<char> {
    "// File: "@ + file + "\n// Found "@ + dec(count) + " DXBC shader(s)\n\n"@
}

/// A shader under its heading.
pub open spec fn shader_report(at: nat, shader: Shader) -> Seq<char> {
    rule() + "// Shader #"@ + dec(at) + ": DXBC at 0x"@ + hex_upper(shader.held().offset_in_file as nat) + ", size="@
        + dec(shader.held().total_size as nat) + "\n"@ + rule() + shader.listing() + "\n"@
}

/// The first shaders, each under its heading.
pub open spec fn shader_reports(shaders: Seq<Shader>, n: int) -> Seq<char>
    decreases n,
{
    if n <= 0 {
        Seq::empty()
    } else {
        shader_reports(shaders, n - 1) + shader_report((n - 1) as nat, shaders[n - 1])
    }
}

fn push_report(at: usize, shader: &Shader, out: &mut String)
    ensures
        final(out)@ == old(out)@ + shader_report(at as nat, *shader),
{
    let ghost before = out@;
    let number = decimal(at as u64);
    let offset = hexadecimal_upper(shader.offset() as u64);
    let size = decimal(shader.size() as u64);
    let listing = shader.text();
    out.push_str("// ============================================================\n");
    out.push_str("// Shader #");
    out.push_str(number.as_str());
    out.push_str(": DXBC at 0x");
    out.push_str(offset.as_str());
    out.push_str(", size=");
    out.push_str(size.as_str());
    out.push_str("\n");
    out.push_str("// ============================================================\n");
    out.push_str(listing.as_str());
    out.push_str("\n");
    proof {
        assert(out@ =~= before + shader_report(at as nat, *shader));
    }
}

/// The listing of a file and the shaders found in it.
pub fn report(file: &str, shaders: &Vec<Shader>) -> (r: String)
    ensures
        r@ == file_heading(file@, shaders@.len()) + shader_reports(shaders@, shaders@.len() as int),
{
    let count = decimal(shaders.len() as u64);
    let mut out = String::new();
    out.push_str("// File: ");
    out.push_str(file);
    out.push_str("\n// Found ");
    out.push_str(count.as_str());
    out.push_str(" DXBC shader(s)\n\n");
    let ghost lead = file_heading(file@, shaders@.len());
    proof {
        assert(out@ =~= lead);
        assert(lead + shader_reports(shaders@, 0) =~= lead);
    }
    let mut i: usize = 0;
    while i < shaders.len()
        invariant
            i <= shaders@.len(),
            out@ == lead + shader_reports(shaders@, i as int),
        decreases shaders@.len() - i,
    {
        let ghost before = out@;
        push_report(i, &shaders[i], &mut out);
        proof {
            assert(out@ =~= lead + shader_reports(shaders@, i + 1));
        }
        i = i + 1;
    }
    out
}

} // verus!
