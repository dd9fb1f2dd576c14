//! A trial of the codec on real shaders: every program is decoded and encoded again, and the bytes are compared.
use crate::container::{kind, kind_of, ChunkKind, DxbcContainer, RawChunk};
use crate::shex::canonical::{law_canonical_program_comes_back, program_canonical};
use crate::shex::decode::{decode_with_fourcc, program_of};
use crate::shex::encode::{encode, program_bytes};
use crate::shex::ir::ProgramModel;
use crate::shex::roundtrip::{law_bytes_come_back, law_decoded_program_encodes, law_program_comes_back, program_fits};
use vstd::prelude::*;

verus! {

/// How a trial went.
#[derive(Debug, Clone, Copy, PartialEq, Eq, Structural)]
pub enum Trial {
    /// The bytes came back.
    Same,
    /// Other bytes came back: how many, and where they first differ.
    Differs { size: usize, first: usize },
    /// The chunk holds no program.
    Undecodable,
}

/// Where two runs of bytes first differ, from a place on: where the shorter ends, if nowhere before.
pub open spec fn first_difference(a: Seq<u8>, b: Seq<u8>, from: int) -> int
    decreases a.len() - from,
{
    if from >= a.len() || from >= b.len() || a[from] != b[from] {
        from
    } else {
        first_difference(a, b, from + 1)
    }
}

/// How the trial of a payload under a tag goes.
pub open spec fn trial_of(data: Seq<u8>, fourcc: [u8; 4]) -> Trial {
    let again = program_bytes(program_of(data, fourcc));
    if data.len() < 8 {
        Trial::Undecodable
    } else if again == data {
        Trial::Same
    } else {
        Trial::Differs { size: again.len() as usize, first: first_difference(again, data, 0) as usize }
    }
}

/// The trial of one chunk of one container.
#[derive(Debug, Clone, Copy, PartialEq, Eq, Structural)]
pub struct Outcome {
    pub container: usize,
    pub chunk: usize,
    pub trial: Trial,
}

/// The trials of the first chunks of a container, those that hold no program passed over.
pub open spec fn chunk_outcomes(at: usize, chunks: Seq<RawChunk>, n: int) -> Seq<Outcome>
    decreases n,
{
    if n <= 0 {
        Seq::empty()
    } else {
        let before = chunk_outcomes(at, chunks, n - 1);
        let chunk = chunks[n - 1];
        if kind_of(chunk.fourcc@) is Shader {
            before.push(
                Outcome { container: at, chunk: (n - 1) as usize, trial: trial_of(chunk.data@, chunk.fourcc) },
            )
        } else {
            before
        }
    }
}

/// The trials of the first containers.
pub open spec fn outcomes(containers: Seq<DxbcContainer>, n: int) -> Seq<Outcome>
    decreases n,
{
    if n <= 0 {
        Seq::empty()
    } else {
        let last = containers[n - 1].chunks@;
        outcomes(containers, n - 1) + chunk_outcomes((n - 1) as usize, last, last.len() as int)
    }
}

fn differ_at(a: &Vec<u8>, b: &Vec<u8>) -> (r: usize)
    ensures
        r == first_difference(a@, b@, 0),
        a@ == b@ <==> r == a@.len() && r == b@.len(),
{
    let mut i: usize = 0;
    while i < a.len() && i < b.len() && a[i] == b[i]
        invariant
            i <= a@.len(),
            i <= b@.len(),
            first_difference(a@, b@, 0) == first_difference(a@, b@, i as int),
            forall|k: int| 0 <= k < i ==> a@[k] == b@[k],
        decreases a@.len() - i,
    {
        i = i + 1;
    }
    proof {
        if i == a@.len() && i == b@.len() {
            assert(a@ =~= b@);
        }
    }
    i
}

/// Decode a chunk and encode it again.
pub fn try_chunk(chunk: &RawChunk) -> (r: Trial)
    ensures
        r == trial_of(chunk.data@, chunk.fourcc),
{
    match decode_with_fourcc(chunk.data.as_slice(), chunk.fourcc) {
        Ok(program) => {
            proof {
                law_decoded_program_encodes(chunk.data@, chunk.fourcc);
            }
            let again = encode(&program);
            let first: usize = differ_at(&again, &chunk.data);
            if first == again.len() && first == chunk.data.len() {
                Trial::Same
            } else {
                Trial::Differs { size: again.len(), first }
            }
        },
        Err(_) => Trial::Undecodable,
    }
}

fn push_outcomes(at: usize, chunks: &Vec<RawChunk>, out: &mut Vec<Outcome>)
    ensures
        final(out)@ == old(out)@ + chunk_outcomes(at, chunks@, chunks@.len() as int),
{
    let ghost lead = out@;
    proof {
        assert(lead + chunk_outcomes(at, chunks@, 0) =~= lead);
    }
    let mut i: usize = 0;
    while i < chunks.len()
        invariant
            i <= chunks@.len(),
            out@ == lead + chunk_outcomes(at, chunks@, i as int),
        decreases chunks@.len() - i,
    {
        if kind(chunks[i].fourcc) == ChunkKind::Shader {
            let trial = try_chunk(&chunks[i]);
            out.push(Outcome { container: at, chunk: i, trial });
        }
        proof {
            assert(out@ =~= lead + chunk_outcomes(at, chunks@, i + 1));
        }
        i = i + 1;
    }
}

/// Try every program of a file's containers.
pub fn try_all(containers: &Vec<DxbcContainer>) -> (r: Vec<Outcome>)
    ensures
        r@ == outcomes(containers@, containers@.len() as int),
{
    let mut out: Vec<Outcome> = Vec::new();
    let mut i: usize = 0;
    while i < containers.len()
        invariant
            i <= containers@.len(),
            out@ == outcomes(containers@, i as int),
        decreases containers@.len() - i,
    {
        push_outcomes(i, &containers[i].chunks, &mut out);
        i = i + 1;
    }
    out
}

/// The bytes of a program that its bytes can say all of come back from a trial.
pub proof fn law_encoded_bytes_pass(p: ProgramModel)
    requires
        program_fits(p),
    ensures
        trial_of(program_bytes(p), p.fourcc) is Same,
{
    law_program_comes_back(p);
    law_bytes_come_back(p);
}

/// The bytes of a chunk whose program stands whole come back.
pub proof fn law_canonical_chunk_comes_back(data: Seq<u8>, fourcc: [u8; 4])
    requires
        program_canonical(data),
    ensures
        trial_of(data, fourcc) is Same,
{
    law_canonical_program_comes_back(data, fourcc);
}

} // verus!
