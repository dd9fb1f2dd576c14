//! Which number stands for which opcode.
use crate::shex::opcodes::{law_code_tells_opcodes_apart, law_opcode_keeps_value, Opcode};
use vstd::prelude::*;

verus! {

proof fn lemma_numbered(v: u32, op: Opcode)
    requires
        op !is Unknown,
        !Opcode::unassigned(op.code()),
    ensures
        Opcode::of(v) == op <==> v == op.code(),
{
    law_opcode_keeps_value(v);
    if v == op.code() {
        law_code_tells_opcodes_apart(Opcode::of(v), op);
    }
}

/// What the numbers from 0 to 42 stand for, and no other number does.
#[verifier::spinoff_prover]
#[verifier::rlimit(60)]
pub proof fn law_opcode_numbers_from_0(v: u32)
    ensures
        Opcode::of(v) == Opcode::Add <==> v == 0,
        Opcode::of(v) == Opcode::And <==> v == 1,
        Opcode::of(v) == Opcode::Break <==> v == 2,
        Opcode::of(v) == Opcode::Breakc <==> v == 3,
        Opcode::of(v) == Opcode::Call <==> v == 4,
        Opcode::of(v) == Opcode::Callc <==> v == 5,
        Opcode::of(v) == Opcode::Case <==> v == 6,
        Opcode::of(v) == Opcode::Continue <==> v == 7,
        Opcode::of(v) == Opcode::Continuec <==> v == 8,
        Opcode::of(v) == Opcode::Cut <==> v == 9,
        Opcode::of(v) == Opcode::Default <==> v == 10,
        Opcode::of(v) == Opcode::Deriv_rtx <==> v == 11,
        Opcode::of(v) == Opcode::Deriv_rty <==> v == 12,
        Opcode::of(v) == Opcode::Discard <==> v == 13,
        Opcode::of(v) == Opcode::Div <==> v == 14,
        Opcode::of(v) == Opcode::Dp2 <==> v == 15,
        Opcode::of(v) == Opcode::Dp3 <==> v == 16,
        Opcode::of(v) == Opcode::Dp4 <==> v == 17,
        Opcode::of(v) == Opcode::Else <==> v == 18,
        Opcode::of(v) == Opcode::Emit <==> v == 19,
        Opcode::of(v) == Opcode::EmitThenCut <==> v == 20,
        Opcode::of(v) == Opcode::EndIf <==> v == 21,
        Opcode::of(v) == Opcode::EndLoop <==> v == 22,
        Opcode::of(v) == Opcode::EndSwitch <==> v == 23,
        Opcode::of(v) == Opcode::Eq <==> v == 24,
        Opcode::of(v) == Opcode::Exp <==> v == 25,
        Opcode::of(v) == Opcode::Frc <==> v == 26,
        Opcode::of(v) == Opcode::Ftoi <==> v == 27,
        Opcode::of(v) == Opcode::Ftou <==> v == 28,
        Opcode::of(v) == Opcode::Ge <==> v == 29,
        Opcode::of(v) == Opcode::Iadd <==> v == 30,
        Opcode::of(v) == Opcode::If <==> v == 31,
        Opcode::of(v) == Opcode::IEq <==> v == 32,
        Opcode::of(v) == Opcode::IGe <==> v == 33,
        Opcode::of(v) == Opcode::ILt <==> v == 34,
        Opcode::of(v) == Opcode::IMad <==> v == 35,
        Opcode::of(v) == Opcode::IMax <==> v == 36,
        Opcode::of(v) == Opcode::IMin <==> v == 37,
        Opcode::of(v) == Opcode::IMul <==> v == 38,
        Opcode::of(v) == Opcode::INe <==> v == 39,
        Opcode::of(v) == Opcode::INeg <==> v == 40,
        Opcode::of(v) == Opcode::Ishl <==> v == 41,
        Opcode::of(v) == Opcode::Ishr <==> v == 42,
{
    lemma_numbered(v, Opcode::Add);
    lemma_numbered(v, Opcode::And);
    lemma_numbered(v, Opcode::Break);
    lemma_numbered(v, Opcode::Breakc);
    lemma_numbered(v, Opcode::Call);
    lemma_numbered(v, Opcode::Callc);
    lemma_numbered(v, Opcode::Case);
    lemma_numbered(v, Opcode::Continue);
    lemma_numbered(v, Opcode::Continuec);
    lemma_numbered(v, Opcode::Cut);
    lemma_numbered(v, Opcode::Default);
    lemma_numbered(v, Opcode::Deriv_rtx);
    lemma_numbered(v, Opcode::Deriv_rty);
    lemma_numbered(v, Opcode::Discard);
    lemma_numbered(v, Opcode::Div);
    lemma_numbered(v, Opcode::Dp2);
    lemma_numbered(v, Opcode::Dp3);
    lemma_numbered(v, Opcode::Dp4);
    lemma_numbered(v, Opcode::Else);
    lemma_numbered(v, Opcode::Emit);
    lemma_numbered(v, Opcode::EmitThenCut);
    lemma_numbered(v, Opcode::EndIf);
    lemma_numbered(v, Opcode::EndLoop);
    lemma_numbered(v, Opcode::EndSwitch);
    lemma_numbered(v, Opcode::Eq);
    lemma_numbered(v, Opcode::Exp);
    lemma_numbered(v, Opcode::Frc);
    lemma_numbered(v, Opcode::Ftoi);
    lemma_numbered(v, Opcode::Ftou);
    lemma_numbered(v, Opcode::Ge);
    lemma_numbered(v, Opcode::Iadd);
    lemma_numbered(v, Opcode::If);
    lemma_numbered(v, Opcode::IEq);
    lemma_numbered(v, Opcode::IGe);
    lemma_numbered(v, Opcode::ILt);
    lemma_numbered(v, Opcode::IMad);
    lemma_numbered(v, Opcode::IMax);
    lemma_numbered(v, Opcode::IMin);
    lemma_numbered(v, Opcode::IMul);
    lemma_numbered(v, Opcode::INe);
    lemma_numbered(v, Opcode::INeg);
    lemma_numbered(v, Opcode::Ishl);
    lemma_numbered(v, Opcode::Ishr);
}

/// What the numbers from 43 to 85 stand for, and no other number does.
#[verifier::spinoff_prover]
#[verifier::rlimit(60)]
pub proof fn law_opcode_numbers_from_43(v: u32)
    ensures
        Opcode::of(v) == Opcode::Itof <==> v == 43,
        Opcode::of(v) == Opcode::Label <==> v == 44,
        Opcode::of(v) == Opcode::Ld <==> v == 45,
        Opcode::of(v) == Opcode::LdMs <==> v == 46,
        Opcode::of(v) == Opcode::Log <==> v == 47,
        Opcode::of(v) == Opcode::Loop <==> v == 48,
        Opcode::of(v) == Opcode::Lt <==> v == 49,
        Opcode::of(v) == Opcode::Mad <==> v == 50,
        Opcode::of(v) == Opcode::Min <==> v == 51,
        Opcode::of(v) == Opcode::Max <==> v == 52,
        Opcode::of(v) == Opcode::CustomData <==> v == 53,
        Opcode::of(v) == Opcode::Mov <==> v == 54,
        Opcode::of(v) == Opcode::Movc <==> v == 55,
        Opcode::of(v) == Opcode::Mul <==> v == 56,
        Opcode::of(v) == Opcode::Ne <==> v == 57,
        Opcode::of(v) == Opcode::Nop <==> v == 58,
        Opcode::of(v) == Opcode::Not <==> v == 59,
        Opcode::of(v) == Opcode::Or <==> v == 60,
        Opcode::of(v) == Opcode::Resinfo <==> v == 61,
        Opcode::of(v) == Opcode::Ret <==> v == 62,
        Opcode::of(v) == Opcode::Retc <==> v == 63,
        Opcode::of(v) == Opcode::Round_ne <==> v == 64,
        Opcode::of(v) == Opcode::Round_ni <==> v == 65,
        Opcode::of(v) == Opcode::Round_pi <==> v == 66,
        Opcode::of(v) == Opcode::Round_z <==> v == 67,
        Opcode::of(v) == Opcode::Rsq <==> v == 68,
        Opcode::of(v) == Opcode::Sample <==> v == 69,
        Opcode::of(v) == Opcode::SampleC <==> v == 70,
        Opcode::of(v) == Opcode::SampleCLz <==> v == 71,
        Opcode::of(v) == Opcode::SampleL <==> v == 72,
        Opcode::of(v) == Opcode::SampleD <==> v == 73,
        Opcode::of(v) == Opcode::SampleB <==> v == 74,
        Opcode::of(v) == Opcode::Sqrt <==> v == 75,
        Opcode::of(v) == Opcode::Switch <==> v == 76,
        Opcode::of(v) == Opcode::Sincos <==> v == 77,
        Opcode::of(v) == Opcode::UDiv <==> v == 78,
        Opcode::of(v) == Opcode::ULt <==> v == 79,
        Opcode::of(v) == Opcode::UGe <==> v == 80,
        Opcode::of(v) == Opcode::UMul <==> v == 81,
        Opcode::of(v) == Opcode::UMad <==> v == 82,
        Opcode::of(v) == Opcode::UMax <==> v == 83,
        Opcode::of(v) == Opcode::UMin <==> v == 84,
        Opcode::of(v) == Opcode::Ushr <==> v == 85,
{
    lemma_numbered(v, Opcode::Itof);
    lemma_numbered(v, Opcode::Label);
    lemma_numbered(v, Opcode::Ld);
    lemma_numbered(v, Opcode::LdMs);
    lemma_numbered(v, Opcode::Log);
    lemma_numbered(v, Opcode::Loop);
    lemma_numbered(v, Opcode::Lt);
    lemma_numbered(v, Opcode::Mad);
    lemma_numbered(v, Opcode::Min);
    lemma_numbered(v, Opcode::Max);
    lemma_numbered(v, Opcode::CustomData);
    lemma_numbered(v, Opcode::Mov);
    lemma_numbered(v, Opcode::Movc);
    lemma_numbered(v, Opcode::Mul);
    lemma_numbered(v, Opcode::Ne);
    lemma_numbered(v, Opcode::Nop);
    lemma_numbered(v, Opcode::Not);
    lemma_numbered(v, Opcode::Or);
    lemma_numbered(v, Opcode::Resinfo);
    lemma_numbered(v, Opcode::Ret);
    lemma_numbered(v, Opcode::Retc);
    lemma_numbered(v, Opcode::Round_ne);
    lemma_numbered(v, Opcode::Round_ni);
    lemma_numbered(v, Opcode::Round_pi);
    lemma_numbered(v, Opcode::Round_z);
    lemma_numbered(v, Opcode::Rsq);
    lemma_numbered(v, Opcode::Sample);
    lemma_numbered(v, Opcode::SampleC);
    lemma_numbered(v, Opcode::SampleCLz);
    lemma_numbered(v, Opcode::SampleL);
    lemma_numbered(v, Opcode::SampleD);
    lemma_numbered(v, Opcode::SampleB);
    lemma_numbered(v, Opcode::Sqrt);
    lemma_numbered(v, Opcode::Switch);
    lemma_numbered(v, Opcode::Sincos);
    lemma_numbered(v, Opcode::UDiv);
    lemma_numbered(v, Opcode::ULt);
    lemma_numbered(v, Opcode::UGe);
    lemma_numbered(v, Opcode::UMul);
    lemma_numbered(v, Opcode::UMad);
    lemma_numbered(v, Opcode::UMax);
    lemma_numbered(v, Opcode::UMin);
    lemma_numbered(v, Opcode::Ushr);
}

/// What the numbers from 86 to 131 stand for, and no other number does.
#[verifier::spinoff_prover]
#[verifier::rlimit(60)]
pub proof fn law_opcode_numbers_from_86(v: u32)
    ensures
        Opcode::of(v) == Opcode::Utof <==> v == 86,
        Opcode::of(v) == Opcode::Xor <==> v == 87,
        Opcode::of(v) == Opcode::DclResource <==> v == 88,
        Opcode::of(v) == Opcode::DclConstantBuffer <==> v == 89,
        Opcode::of(v) == Opcode::DclSampler <==> v == 90,
        Opcode::of(v) == Opcode::DclIndexRange <==> v == 91,
        Opcode::of(v) == Opcode::DclGsOutputPrimitiveTopology <==> v == 92,
        Opcode::of(v) == Opcode::DclGsInputPrimitive <==> v == 93,
        Opcode::of(v) == Opcode::DclMaxOutputVertexCount <==> v == 94,
        Opcode::of(v) == Opcode::DclInput <==> v == 95,
        Opcode::of(v) == Opcode::DclInputSgv <==> v == 96,
        Opcode::of(v) == Opcode::DclInputSiv <==> v == 97,
        Opcode::of(v) == Opcode::DclInputPs <==> v == 98,
        Opcode::of(v) == Opcode::DclInputPsSgv <==> v == 99,
        Opcode::of(v) == Opcode::DclInputPsSiv <==> v == 100,
        Opcode::of(v) == Opcode::DclOutput <==> v == 101,
        Opcode::of(v) == Opcode::DclOutputSgv <==> v == 102,
        Opcode::of(v) == Opcode::DclOutputSiv <==> v == 103,
        Opcode::of(v) == Opcode::DclTemps <==> v == 104,
        Opcode::of(v) == Opcode::DclIndexableTemp <==> v == 105,
        Opcode::of(v) == Opcode::DclGlobalFlags <==> v == 106,
        Opcode::of(v) == Opcode::Lod <==> v == 108,
        Opcode::of(v) == Opcode::Gather4 <==> v == 109,
        Opcode::of(v) == Opcode::SamplePos <==> v == 110,
        Opcode::of(v) == Opcode::SampleInfo <==> v == 111,
        Opcode::of(v) == Opcode::HsDecls <==> v == 113,
        Opcode::of(v) == Opcode::HsControlPointPhase <==> v == 114,
        Opcode::of(v) == Opcode::HsForkPhase <==> v == 115,
        Opcode::of(v) == Opcode::HsJoinPhase <==> v == 116,
        Opcode::of(v) == Opcode::EmitStream <==> v == 117,
        Opcode::of(v) == Opcode::CutStream <==> v == 118,
        Opcode::of(v) == Opcode::EmitThenCutStream <==> v == 119,
        Opcode::of(v) == Opcode::InterfaceCall <==> v == 120,
        Opcode::of(v) == Opcode::BufInfo <==> v == 121,
        Opcode::of(v) == Opcode::Deriv_rtx_coarse <==> v == 122,
        Opcode::of(v) == Opcode::Deriv_rtx_fine <==> v == 123,
        Opcode::of(v) == Opcode::Deriv_rty_coarse <==> v == 124,
        Opcode::of(v) == Opcode::Deriv_rty_fine <==> v == 125,
        Opcode::of(v) == Opcode::Gather4C <==> v == 126,
        Opcode::of(v) == Opcode::Gather4Po <==> v == 127,
        Opcode::of(v) == Opcode::Gather4PoC <==> v == 128,
        Opcode::of(v) == Opcode::Rcp <==> v == 129,
        Opcode::of(v) == Opcode::F32tof16 <==> v == 130,
        Opcode::of(v) == Opcode::F16tof32 <==> v == 131,
{
    lemma_numbered(v, Opcode::Utof);
    lemma_numbered(v, Opcode::Xor);
    lemma_numbered(v, Opcode::DclResource);
    lemma_numbered(v, Opcode::DclConstantBuffer);
    lemma_numbered(v, Opcode::DclSampler);
    lemma_numbered(v, Opcode::DclIndexRange);
    lemma_numbered(v, Opcode::DclGsOutputPrimitiveTopology);
    lemma_numbered(v, Opcode::DclGsInputPrimitive);
    lemma_numbered(v, Opcode::DclMaxOutputVertexCount);
    lemma_numbered(v, Opcode::DclInput);
    lemma_numbered(v, Opcode::DclInputSgv);
    lemma_numbered(v, Opcode::DclInputSiv);
    lemma_numbered(v, Opcode::DclInputPs);
    lemma_numbered(v, Opcode::DclInputPsSgv);
    lemma_numbered(v, Opcode::DclInputPsSiv);
    lemma_numbered(v, Opcode::DclOutput);
    lemma_numbered(v, Opcode::DclOutputSgv);
    lemma_numbered(v, Opcode::DclOutputSiv);
    lemma_numbered(v, Opcode::DclTemps);
    lemma_numbered(v, Opcode::DclIndexableTemp);
    lemma_numbered(v, Opcode::DclGlobalFlags);
    lemma_numbered(v, Opcode::Lod);
    lemma_numbered(v, Opcode::Gather4);
    lemma_numbered(v, Opcode::SamplePos);
    lemma_numbered(v, Opcode::SampleInfo);
    lemma_numbered(v, Opcode::HsDecls);
    lemma_numbered(v, Opcode::HsControlPointPhase);
    lemma_numbered(v, Opcode::HsForkPhase);
    lemma_numbered(v, Opcode::HsJoinPhase);
    lemma_numbered(v, Opcode::EmitStream);
    lemma_numbered(v, Opcode::CutStream);
    lemma_numbered(v, Opcode::EmitThenCutStream);
    lemma_numbered(v, Opcode::InterfaceCall);
    lemma_numbered(v, Opcode::BufInfo);
    lemma_numbered(v, Opcode::Deriv_rtx_coarse);
    lemma_numbered(v, Opcode::Deriv_rtx_fine);
    lemma_numbered(v, Opcode::Deriv_rty_coarse);
    lemma_numbered(v, Opcode::Deriv_rty_fine);
    lemma_numbered(v, Opcode::Gather4C);
    lemma_numbered(v, Opcode::Gather4Po);
    lemma_numbered(v, Opcode::Gather4PoC);
    lemma_numbered(v, Opcode::Rcp);
    lemma_numbered(v, Opcode::F32tof16);
    lemma_numbered(v, Opcode::F16tof32);
}

/// What the numbers from 132 to 174 stand for, and no other number does.
#[verifier::spinoff_prover]
#[verifier::rlimit(60)]
pub proof fn law_opcode_numbers_from_132(v: u32)
    ensures
        Opcode::of(v) == Opcode::Uaddc <==> v == 132,
        Opcode::of(v) == Opcode::Usubb <==> v == 133,
        Opcode::of(v) == Opcode::Countbits <==> v == 134,
        Opcode::of(v) == Opcode::FirstbitHi <==> v == 135,
        Opcode::of(v) == Opcode::FirstbitLo <==> v == 136,
        Opcode::of(v) == Opcode::FirstbitShi <==> v == 137,
        Opcode::of(v) == Opcode::Ubfe <==> v == 138,
        Opcode::of(v) == Opcode::Ibfe <==> v == 139,
        Opcode::of(v) == Opcode::Bfi <==> v == 140,
        Opcode::of(v) == Opcode::Bfrev <==> v == 141,
        Opcode::of(v) == Opcode::Swapc <==> v == 142,
        Opcode::of(v) == Opcode::DclStream <==> v == 143,
        Opcode::of(v) == Opcode::DclFunctionBody <==> v == 144,
        Opcode::of(v) == Opcode::DclFunctionTable <==> v == 145,
        Opcode::of(v) == Opcode::DclInterface <==> v == 146,
        Opcode::of(v) == Opcode::DclInputControlPointCount <==> v == 147,
        Opcode::of(v) == Opcode::DclOutputControlPointCount <==> v == 148,
        Opcode::of(v) == Opcode::DclTessDomain <==> v == 149,
        Opcode::of(v) == Opcode::DclTessPartitioning <==> v == 150,
        Opcode::of(v) == Opcode::DclTessOutputPrimitive <==> v == 151,
        Opcode::of(v) == Opcode::DclHsMaxTessFactor <==> v == 152,
        Opcode::of(v) == Opcode::DclHsForkPhaseInstanceCount <==> v == 153,
        Opcode::of(v) == Opcode::DclHsJoinPhaseInstanceCount <==> v == 154,
        Opcode::of(v) == Opcode::DclThreadGroup <==> v == 155,
        Opcode::of(v) == Opcode::DclUnorderedAccessViewTyped <==> v == 156,
        Opcode::of(v) == Opcode::DclUnorderedAccessViewRaw <==> v == 157,
        Opcode::of(v) == Opcode::DclUnorderedAccessViewStructured <==> v == 158,
        Opcode::of(v) == Opcode::DclThreadGroupSharedMemoryRaw <==> v == 159,
        Opcode::of(v) == Opcode::DclThreadGroupSharedMemoryStructured <==> v == 160,
        Opcode::of(v) == Opcode::DclResourceRaw <==> v == 161,
        Opcode::of(v) == Opcode::DclResourceStructured <==> v == 162,
        Opcode::of(v) == Opcode::LdUavTyped <==> v == 163,
        Opcode::of(v) == Opcode::StoreUavTyped <==> v == 164,
        Opcode::of(v) == Opcode::LdRaw <==> v == 165,
        Opcode::of(v) == Opcode::StoreRaw <==> v == 166,
        Opcode::of(v) == Opcode::LdStructured <==> v == 167,
        Opcode::of(v) == Opcode::StoreStructured <==> v == 168,
        Opcode::of(v) == Opcode::AtomicAnd <==> v == 169,
        Opcode::of(v) == Opcode::AtomicOr <==> v == 170,
        Opcode::of(v) == Opcode::AtomicXor <==> v == 171,
        Opcode::of(v) == Opcode::AtomicCmpStore <==> v == 172,
        Opcode::of(v) == Opcode::AtomicIAdd <==> v == 173,
        Opcode::of(v) == Opcode::AtomicIMax <==> v == 174,
{
    lemma_numbered(v, Opcode::Uaddc);
    lemma_numbered(v, Opcode::Usubb);
    lemma_numbered(v, Opcode::Countbits);
    lemma_numbered(v, Opcode::FirstbitHi);
    lemma_numbered(v, Opcode::FirstbitLo);
    lemma_numbered(v, Opcode::FirstbitShi);
    lemma_numbered(v, Opcode::Ubfe);
    lemma_numbered(v, Opcode::Ibfe);
    lemma_numbered(v, Opcode::Bfi);
    lemma_numbered(v, Opcode::Bfrev);
    lemma_numbered(v, Opcode::Swapc);
    lemma_numbered(v, Opcode::DclStream);
    lemma_numbered(v, Opcode::DclFunctionBody);
    lemma_numbered(v, Opcode::DclFunctionTable);
    lemma_numbered(v, Opcode::DclInterface);
    lemma_numbered(v, Opcode::DclInputControlPointCount);
    lemma_numbered(v, Opcode::DclOutputControlPointCount);
    lemma_numbered(v, Opcode::DclTessDomain);
    lemma_numbered(v, Opcode::DclTessPartitioning);
    lemma_numbered(v, Opcode::DclTessOutputPrimitive);
    lemma_numbered(v, Opcode::DclHsMaxTessFactor);
    lemma_numbered(v, Opcode::DclHsForkPhaseInstanceCount);
    lemma_numbered(v, Opcode::DclHsJoinPhaseInstanceCount);
    lemma_numbered(v, Opcode::DclThreadGroup);
    lemma_numbered(v, Opcode::DclUnorderedAccessViewTyped);
    lemma_numbered(v, Opcode::DclUnorderedAccessViewRaw);
    lemma_numbered(v, Opcode::DclUnorderedAccessViewStructured);
    lemma_numbered(v, Opcode::DclThreadGroupSharedMemoryRaw);
    lemma_numbered(v, Opcode::DclThreadGroupSharedMemoryStructured);
    lemma_numbered(v, Opcode::DclResourceRaw);
    lemma_numbered(v, Opcode::DclResourceStructured);
    lemma_numbered(v, Opcode::LdUavTyped);
    lemma_numbered(v, Opcode::StoreUavTyped);
    lemma_numbered(v, Opcode::LdRaw);
    lemma_numbered(v, Opcode::StoreRaw);
    lemma_numbered(v, Opcode::LdStructured);
    lemma_numbered(v, Opcode::StoreStructured);
    lemma_numbered(v, Opcode::AtomicAnd);
    lemma_numbered(v, Opcode::AtomicOr);
    lemma_numbered(v, Opcode::AtomicXor);
    lemma_numbered(v, Opcode::AtomicCmpStore);
    lemma_numbered(v, Opcode::AtomicIAdd);
    lemma_numbered(v, Opcode::AtomicIMax);
}

/// What the numbers from 175 to 217 stand for, and no other number does.
#[verifier::spinoff_prover]
#[verifier::rlimit(60)]
pub proof fn law_opcode_numbers_from_175(v: u32)
    ensures
        Opcode::of(v) == Opcode::AtomicIMin <==> v == 175,
        Opcode::of(v) == Opcode::AtomicUMax <==> v == 176,
        Opcode::of(v) == Opcode::AtomicUMin <==> v == 177,
        Opcode::of(v) == Opcode::ImmAtomicAlloc <==> v == 178,
        Opcode::of(v) == Opcode::ImmAtomicConsume <==> v == 179,
        Opcode::of(v) == Opcode::ImmAtomicIAdd <==> v == 180,
        Opcode::of(v) == Opcode::ImmAtomicAnd <==> v == 181,
        Opcode::of(v) == Opcode::ImmAtomicOr <==> v == 182,
        Opcode::of(v) == Opcode::ImmAtomicXor <==> v == 183,
        Opcode::of(v) == Opcode::ImmAtomicExch <==> v == 184,
        Opcode::of(v) == Opcode::ImmAtomicCmpExch <==> v == 185,
        Opcode::of(v) == Opcode::ImmAtomicIMax <==> v == 186,
        Opcode::of(v) == Opcode::ImmAtomicIMin <==> v == 187,
        Opcode::of(v) == Opcode::ImmAtomicUMax <==> v == 188,
        Opcode::of(v) == Opcode::ImmAtomicUMin <==> v == 189,
        Opcode::of(v) == Opcode::Sync <==> v == 190,
        Opcode::of(v) == Opcode::Dadd <==> v == 191,
        Opcode::of(v) == Opcode::Dmax <==> v == 192,
        Opcode::of(v) == Opcode::Dmin <==> v == 193,
        Opcode::of(v) == Opcode::Dmul <==> v == 194,
        Opcode::of(v) == Opcode::Deq <==> v == 195,
        Opcode::of(v) == Opcode::Dge <==> v == 196,
        Opcode::of(v) == Opcode::Dlt <==> v == 197,
        Opcode::of(v) == Opcode::Dne <==> v == 198,
        Opcode::of(v) == Opcode::Dmov <==> v == 199,
        Opcode::of(v) == Opcode::Dmovc <==> v == 200,
        Opcode::of(v) == Opcode::Dtof <==> v == 201,
        Opcode::of(v) == Opcode::Ftod <==> v == 202,
        Opcode::of(v) == Opcode::Eval_snapped <==> v == 203,
        Opcode::of(v) == Opcode::Eval_sampleIndex <==> v == 204,
        Opcode::of(v) == Opcode::Eval_centroid <==> v == 205,
        Opcode::of(v) == Opcode::DclGsInstanceCount <==> v == 206,
        Opcode::of(v) == Opcode::Abort <==> v == 207,
        Opcode::of(v) == Opcode::DebugBreak <==> v == 208,
        Opcode::of(v) == Opcode::Ddiv <==> v == 210,
        Opcode::of(v) == Opcode::Dfma <==> v == 211,
        Opcode::of(v) == Opcode::Drcp <==> v == 212,
        Opcode::of(v) == Opcode::Msad <==> v == 213,
        Opcode::of(v) == Opcode::Dtoi <==> v == 214,
        Opcode::of(v) == Opcode::Dtou <==> v == 215,
        Opcode::of(v) == Opcode::Itod <==> v == 216,
        Opcode::of(v) == Opcode::Utod <==> v == 217,
{
    lemma_numbered(v, Opcode::AtomicIMin);
    lemma_numbered(v, Opcode::AtomicUMax);
    lemma_numbered(v, Opcode::AtomicUMin);
    lemma_numbered(v, Opcode::ImmAtomicAlloc);
    lemma_numbered(v, Opcode::ImmAtomicConsume);
    lemma_numbered(v, Opcode::ImmAtomicIAdd);
    lemma_numbered(v, Opcode::ImmAtomicAnd);
    lemma_numbered(v, Opcode::ImmAtomicOr);
    lemma_numbered(v, Opcode::ImmAtomicXor);
    lemma_numbered(v, Opcode::ImmAtomicExch);
    lemma_numbered(v, Opcode::ImmAtomicCmpExch);
    lemma_numbered(v, Opcode::ImmAtomicIMax);
    lemma_numbered(v, Opcode::ImmAtomicIMin);
    lemma_numbered(v, Opcode::ImmAtomicUMax);
    lemma_numbered(v, Opcode::ImmAtomicUMin);
    lemma_numbered(v, Opcode::Sync);
    lemma_numbered(v, Opcode::Dadd);
    lemma_numbered(v, Opcode::Dmax);
    lemma_numbered(v, Opcode::Dmin);
    lemma_numbered(v, Opcode::Dmul);
    lemma_numbered(v, Opcode::Deq);
    lemma_numbered(v, Opcode::Dge);
    lemma_numbered(v, Opcode::Dlt);
    lemma_numbered(v, Opcode::Dne);
    lemma_numbered(v, Opcode::Dmov);
    lemma_numbered(v, Opcode::Dmovc);
    lemma_numbered(v, Opcode::Dtof);
    lemma_numbered(v, Opcode::Ftod);
    lemma_numbered(v, Opcode::Eval_snapped);
    lemma_numbered(v, Opcode::Eval_sampleIndex);
    lemma_numbered(v, Opcode::Eval_centroid);
    lemma_numbered(v, Opcode::DclGsInstanceCount);
    lemma_numbered(v, Opcode::Abort);
    lemma_numbered(v, Opcode::DebugBreak);
    lemma_numbered(v, Opcode::Ddiv);
    lemma_numbered(v, Opcode::Dfma);
    lemma_numbered(v, Opcode::Drcp);
    lemma_numbered(v, Opcode::Msad);
    lemma_numbered(v, Opcode::Dtoi);
    lemma_numbered(v, Opcode::Dtou);
    lemma_numbered(v, Opcode::Itod);
    lemma_numbered(v, Opcode::Utod);
}

} // verus!
