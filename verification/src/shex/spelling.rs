//! Which opcode a mnemonic belongs to.
use crate::shex::opcodes::{law_code_tells_opcodes_apart, Opcode};
use vstd::prelude::*;

verus! {

/// The value of the opcode that a mnemonic belongs to, told from the few characters that tell the mnemonics apart. None
/// for the mnemonic that all unknown opcodes share.
#[verifier::opaque]
pub open spec fn spelled(s: Seq<char>) -> Option<u32> {
    if s[s.len() - 1] == '2' {
        if s[0] == 'd' {
            Some(15)
        } else {
            Some(131)
        }
    } else if s[s.len() - 1] == '3' {
        Some(16)
    } else if s[s.len() - 1] == '4' {
        if s[0] == 'd' {
            Some(17)
        } else {
            Some(109)
        }
    } else if s[s.len() - 1] == '6' {
        Some(130)
    } else if s[s.len() - 1] == 'a' {
        if s[0] == 'c' {
            Some(53)
        } else {
            Some(211)
        }
    } else if s[s.len() - 1] == 'b' {
        if s[0] == 's' {
            Some(74)
        } else {
            Some(133)
        }
    } else if s[s.len() - 1] == 'c' {
        if s[s.len() - 2] == '_' {
            if s.len() == 8 {
                Some(70)
            } else if s.len() == 9 {
                Some(126)
            } else {
                Some(128)
            }
        } else if s[s.len() - 2] == 'd' {
            Some(132)
        } else if s[s.len() - 2] == 'e' {
            Some(8)
        } else if s[s.len() - 2] == 'k' {
            Some(3)
        } else if s[s.len() - 2] == 'l' {
            Some(5)
        } else if s[s.len() - 2] == 'n' {
            Some(190)
        } else if s[s.len() - 2] == 'o' {
            Some(178)
        } else if s[s.len() - 2] == 'p' {
            Some(142)
        } else if s[s.len() - 2] == 'r' {
            Some(26)
        } else if s[s.len() - 2] == 't' {
            Some(63)
        } else {
            if s[0] == 'd' {
                Some(200)
            } else {
                Some(55)
            }
        }
    } else if s[s.len() - 1] == 'd' {
        if s.len() == 2 {
            Some(45)
        } else if s.len() == 3 {
            if s[1] == 'a' {
                Some(50)
            } else if s[1] == 'd' {
                Some(0)
            } else if s[1] == 'n' {
                Some(1)
            } else {
                Some(108)
            }
        } else if s.len() == 4 {
            if s[0] == 'd' {
                Some(191)
            } else if s[0] == 'f' {
                Some(202)
            } else if s[0] == 'i' {
                if s[1] == 'a' {
                    Some(30)
                } else if s[1] == 'm' {
                    Some(35)
                } else {
                    Some(216)
                }
            } else if s[0] == 'm' {
                Some(213)
            } else {
                if s[1] == 'm' {
                    Some(82)
                } else {
                    Some(217)
                }
            }
        } else if s.len() == 7 {
            Some(13)
        } else if s.len() == 8 {
            Some(73)
        } else if s.len() == 10 {
            Some(169)
        } else if s.len() == 11 {
            Some(173)
        } else if s.len() == 12 {
            if s[0] == 'e' {
                Some(203)
            } else {
                Some(163)
            }
        } else if s.len() == 13 {
            if s[0] == 'd' {
                Some(156)
            } else if s[0] == 'e' {
                Some(205)
            } else {
                Some(167)
            }
        } else if s.len() == 14 {
            Some(181)
        } else if s.len() == 15 {
            if s[0] == 'i' {
                Some(180)
            } else {
                Some(164)
            }
        } else if s.len() == 16 {
            Some(168)
        } else if s.len() == 18 {
            Some(158)
        } else if s.len() == 19 {
            Some(160)
        } else {
            Some(162)
        }
    } else if s[s.len() - 1] == 'e' {
        if s.len() == 2 {
            if s[0] == 'g' {
                Some(29)
            } else {
                Some(57)
            }
        } else if s.len() == 3 {
            if s[0] == 'd' {
                if s[1] == 'g' {
                    Some(196)
                } else {
                    Some(198)
                }
            } else if s[0] == 'i' {
                if s[1] == 'g' {
                    Some(33)
                } else {
                    Some(39)
                }
            } else {
                Some(80)
            }
        } else if s.len() == 4 {
            if s[0] == 'c' {
                Some(6)
            } else if s[0] == 'e' {
                Some(18)
            } else if s[0] == 'i' {
                Some(139)
            } else {
                Some(138)
            }
        } else if s.len() == 6 {
            Some(69)
        } else if s.len() == 8 {
            if s[0] == 'c' {
                Some(7)
            } else {
                Some(64)
            }
        } else if s.len() == 12 {
            Some(88)
        } else if s.len() == 13 {
            if s[3] == '_' {
                Some(146)
            } else if s[3] == 'f' {
                Some(115)
            } else {
                Some(116)
            }
        } else if s.len() == 14 {
            if s[1] == 'c' {
                Some(91)
            } else {
                if s[8] == 'x' {
                    Some(123)
                } else {
                    Some(125)
                }
            }
        } else if s.len() == 16 {
            if s[8] == 'm' {
                Some(172)
            } else if s[8] == 'x' {
                Some(122)
            } else {
                Some(124)
            }
        } else if s.len() == 18 {
            if s[4] == 'a' {
                Some(179)
            } else if s[4] == 'f' {
                Some(145)
            } else {
                Some(93)
            }
        } else if s.len() == 22 {
            Some(114)
        } else {
            Some(151)
        }
    } else if s[s.len() - 1] == 'f' {
        if s[0] == 'd' {
            Some(201)
        } else if s[0] == 'e' {
            Some(21)
        } else if s[0] == 'i' {
            if s[1] == 'f' {
                Some(31)
            } else {
                Some(43)
            }
        } else {
            Some(86)
        }
    } else if s[s.len() - 1] == 'g' {
        if s[0] == 'd' {
            Some(150)
        } else if s[0] == 'i' {
            Some(40)
        } else {
            Some(47)
        }
    } else if s[s.len() - 1] == 'h' {
        if s.len() == 6 {
            Some(76)
        } else if s.len() == 9 {
            Some(23)
        } else if s.len() == 15 {
            Some(184)
        } else {
            Some(185)
        }
    } else if s[s.len() - 1] == 'i' {
        if s.len() == 3 {
            Some(140)
        } else if s.len() == 4 {
            if s[0] == 'd' {
                Some(214)
            } else {
                Some(27)
            }
        } else if s.len() == 8 {
            if s[6] == 'n' {
                Some(65)
            } else {
                Some(66)
            }
        } else if s.len() == 11 {
            Some(135)
        } else {
            Some(137)
        }
    } else if s[s.len() - 1] == 'k' {
        if s[0] == 'b' {
            Some(2)
        } else {
            Some(208)
        }
    } else if s[s.len() - 1] == 'l' {
        if s[0] == 'c' {
            Some(4)
        } else if s[0] == 'd' {
            Some(194)
        } else if s[0] == 'i' {
            if s[1] == 'm' {
                Some(38)
            } else if s[1] == 'n' {
                Some(120)
            } else {
                Some(41)
            }
        } else if s[0] == 'l' {
            Some(44)
        } else if s[0] == 'm' {
            Some(56)
        } else if s[0] == 's' {
            Some(72)
        } else {
            Some(81)
        }
    } else if s[s.len() - 1] == 'm' {
        if s[0] == 'c' {
            Some(118)
        } else if s[0] == 'd' {
            Some(143)
        } else {
            if s[5] == 's' {
                Some(117)
            } else {
                Some(119)
            }
        }
    } else if s[s.len() - 1] == 'n' {
        if s[0] == 'a' {
            if s[7] == 'i' {
                Some(175)
            } else {
                Some(177)
            }
        } else if s[0] == 'd' {
            if s[1] == 'c' {
                Some(149)
            } else {
                Some(193)
            }
        } else if s[0] == 'i' {
            if s[2] == 'i' {
                Some(37)
            } else {
                if s[11] == 'i' {
                    Some(187)
                } else {
                    Some(189)
                }
            }
        } else if s[0] == 'm' {
            Some(51)
        } else {
            Some(84)
        }
    } else if s[s.len() - 1] == 'o' {
        if s[0] == 'b' {
            Some(121)
        } else if s[0] == 'f' {
            Some(136)
        } else if s[0] == 'g' {
            Some(127)
        } else if s[0] == 'r' {
            Some(61)
        } else {
            Some(111)
        }
    } else if s[s.len() - 1] == 'p' {
        if s[0] == 'd' {
            if s.len() == 4 {
                Some(212)
            } else if s.len() == 16 {
                Some(155)
            } else {
                Some(105)
            }
        } else if s[0] == 'e' {
            if s[1] == 'n' {
                Some(22)
            } else {
                Some(25)
            }
        } else if s[0] == 'l' {
            Some(48)
        } else if s[0] == 'n' {
            Some(58)
        } else if s[0] == 'r' {
            Some(129)
        } else {
            None
        }
    } else if s[s.len() - 1] == 'q' {
        if s[0] == 'd' {
            Some(195)
        } else if s[0] == 'e' {
            Some(24)
        } else if s[0] == 'i' {
            Some(32)
        } else {
            Some(68)
        }
    } else if s[s.len() - 1] == 'r' {
        if s.len() == 2 {
            Some(60)
        } else if s.len() == 3 {
            Some(87)
        } else if s.len() == 4 {
            if s[0] == 'i' {
                Some(42)
            } else {
                Some(85)
            }
        } else if s.len() == 9 {
            Some(170)
        } else if s.len() == 10 {
            Some(171)
        } else if s.len() == 11 {
            Some(90)
        } else if s.len() == 13 {
            Some(182)
        } else if s.len() == 14 {
            Some(183)
        } else if s.len() == 18 {
            Some(89)
        } else {
            Some(152)
        }
    } else if s[s.len() - 1] == 's' {
        if s[4] == 'e' {
            Some(113)
        } else if s[4] == 'g' {
            Some(106)
        } else if s[4] == 'i' {
            Some(98)
        } else if s[4] == 'l' {
            Some(110)
        } else if s[4] == 'o' {
            Some(77)
        } else if s[4] == 's' {
            Some(46)
        } else {
            if s[0] == 'c' {
                Some(134)
            } else {
                Some(104)
            }
        }
    } else if s[s.len() - 1] == 't' {
        if s.len() == 2 {
            Some(49)
        } else if s.len() == 3 {
            if s[0] == 'c' {
                Some(9)
            } else if s[0] == 'd' {
                Some(197)
            } else if s[0] == 'i' {
                Some(34)
            } else if s[0] == 'n' {
                Some(59)
            } else if s[0] == 'r' {
                Some(62)
            } else {
                Some(79)
            }
        } else if s.len() == 4 {
            if s[0] == 'e' {
                Some(19)
            } else {
                Some(75)
            }
        } else if s.len() == 5 {
            Some(207)
        } else if s.len() == 7 {
            Some(10)
        } else if s.len() == 9 {
            Some(95)
        } else if s.len() == 10 {
            Some(101)
        } else if s.len() == 13 {
            Some(20)
        } else if s.len() == 19 {
            Some(206)
        } else if s.len() == 24 {
            Some(94)
        } else if s.len() == 26 {
            Some(147)
        } else if s.len() == 27 {
            Some(148)
        } else {
            if s[6] == 'F' {
                Some(153)
            } else {
                Some(154)
            }
        }
    } else if s[s.len() - 1] == 'u' {
        if s[0] == 'd' {
            Some(215)
        } else {
            Some(28)
        }
    } else if s[s.len() - 1] == 'v' {
        if s.len() == 3 {
            if s[0] == 'd' {
                Some(14)
            } else {
                Some(54)
            }
        } else if s.len() == 4 {
            if s[0] == 'd' {
                if s[1] == 'd' {
                    Some(210)
                } else {
                    Some(199)
                }
            } else {
                Some(78)
            }
        } else if s.len() == 5 {
            Some(141)
        } else if s.len() == 13 {
            if s[11] == 'g' {
                Some(96)
            } else {
                Some(97)
            }
        } else if s.len() == 14 {
            if s[12] == 'g' {
                Some(102)
            } else {
                Some(103)
            }
        } else {
            if s[14] == 'g' {
                Some(99)
            } else {
                Some(100)
            }
        }
    } else if s[s.len() - 1] == 'w' {
        if s[4] == 'a' {
            Some(165)
        } else if s[4] == 'e' {
            Some(166)
        } else if s[4] == 'r' {
            Some(161)
        } else if s[4] == 't' {
            Some(159)
        } else {
            Some(157)
        }
    } else if s[s.len() - 1] == 'x' {
        if s[0] == 'a' {
            if s[7] == 'i' {
                Some(174)
            } else {
                Some(176)
            }
        } else if s[0] == 'd' {
            if s[1] == 'e' {
                Some(11)
            } else {
                Some(192)
            }
        } else if s[0] == 'e' {
            Some(204)
        } else if s[0] == 'i' {
            if s[2] == 'a' {
                Some(36)
            } else {
                if s[11] == 'i' {
                    Some(186)
                } else {
                    Some(188)
                }
            }
        } else if s[0] == 'm' {
            Some(52)
        } else {
            Some(83)
        }
    } else if s[s.len() - 1] == 'y' {
        if s[4] == 'f' {
            Some(144)
        } else if s[4] == 'o' {
            Some(92)
        } else {
            Some(12)
        }
    } else {
        if s[0] == 'r' {
            Some(67)
        } else {
            Some(71)
        }
    }
}

/// A known opcode is fixed by its mnemonic, which is not empty and not the one that unknown opcodes share.
#[verifier::rlimit(60)]
#[verifier::spinoff_prover]
pub proof fn law_mnemonic_tells_opcode(op: Opcode)
    requires
        !(op is Unknown),
    ensures
        spelled(op.mnemonic()) == Some(op.code()),
        op.mnemonic().len() > 0,
        op.mnemonic() != "unknown_op"@,
{
    lemma_unknown_spelled();
    reveal(spelled);
    match op {
        Opcode::Add => reveal_strlit("add"),
        Opcode::And => reveal_strlit("and"),
        Opcode::Break => reveal_strlit("break"),
        Opcode::Breakc => reveal_strlit("breakc"),
        Opcode::Call => reveal_strlit("call"),
        Opcode::Callc => reveal_strlit("callc"),
        Opcode::Case => reveal_strlit("case"),
        Opcode::Continue => reveal_strlit("continue"),
        Opcode::Continuec => reveal_strlit("continuec"),
        Opcode::Cut => reveal_strlit("cut"),
        Opcode::Default => reveal_strlit("default"),
        Opcode::Deriv_rtx => reveal_strlit("deriv_rtx"),
        Opcode::Deriv_rty => reveal_strlit("deriv_rty"),
        Opcode::Discard => reveal_strlit("discard"),
        Opcode::Div => reveal_strlit("div"),
        Opcode::Dp2 => reveal_strlit("dp2"),
        Opcode::Dp3 => reveal_strlit("dp3"),
        Opcode::Dp4 => reveal_strlit("dp4"),
        Opcode::Else => reveal_strlit("else"),
        Opcode::Emit => reveal_strlit("emit"),
        Opcode::EmitThenCut => reveal_strlit("emit_then_cut"),
        Opcode::EmitStream => reveal_strlit("emit_stream"),
        Opcode::CutStream => reveal_strlit("cut_stream"),
        Opcode::EmitThenCutStream => reveal_strlit("emit_then_cut_stream"),
        Opcode::InterfaceCall => reveal_strlit("interface_call"),
        Opcode::EndIf => reveal_strlit("endif"),
        Opcode::EndLoop => reveal_strlit("endloop"),
        Opcode::EndSwitch => reveal_strlit("endswitch"),
        Opcode::Eq => reveal_strlit("eq"),
        Opcode::Exp => reveal_strlit("exp"),
        Opcode::Frc => reveal_strlit("frc"),
        Opcode::Ftoi => reveal_strlit("ftoi"),
        Opcode::Ftou => reveal_strlit("ftou"),
        Opcode::Ge => reveal_strlit("ge"),
        Opcode::Iadd => reveal_strlit("iadd"),
        Opcode::If => reveal_strlit("if"),
        Opcode::IEq => reveal_strlit("ieq"),
        Opcode::IGe => reveal_strlit("ige"),
        Opcode::ILt => reveal_strlit("ilt"),
        Opcode::IMad => reveal_strlit("imad"),
        Opcode::IMax => reveal_strlit("imax"),
        Opcode::IMin => reveal_strlit("imin"),
        Opcode::IMul => reveal_strlit("imul"),
        Opcode::INe => reveal_strlit("ine"),
        Opcode::INeg => reveal_strlit("ineg"),
        Opcode::Ishl => reveal_strlit("ishl"),
        Opcode::Ishr => reveal_strlit("ishr"),
        Opcode::Itof => reveal_strlit("itof"),
        Opcode::Label => reveal_strlit("label"),
        Opcode::Ld => reveal_strlit("ld"),
        Opcode::LdMs => reveal_strlit("ld_ms"),
        Opcode::Log => reveal_strlit("log"),
        Opcode::Loop => reveal_strlit("loop"),
        Opcode::Lt => reveal_strlit("lt"),
        Opcode::Mad => reveal_strlit("mad"),
        Opcode::Min => reveal_strlit("min"),
        Opcode::Max => reveal_strlit("max"),
        Opcode::CustomData => reveal_strlit("customdata"),
        Opcode::Mov => reveal_strlit("mov"),
        Opcode::Movc => reveal_strlit("movc"),
        Opcode::Mul => reveal_strlit("mul"),
        Opcode::Ne => reveal_strlit("ne"),
        Opcode::Nop => reveal_strlit("nop"),
        Opcode::Not => reveal_strlit("not"),
        Opcode::Or => reveal_strlit("or"),
        Opcode::Resinfo => reveal_strlit("resinfo"),
        Opcode::Ret => reveal_strlit("ret"),
        Opcode::Retc => reveal_strlit("retc"),
        Opcode::Round_ne => reveal_strlit("round_ne"),
        Opcode::Round_ni => reveal_strlit("round_ni"),
        Opcode::Round_pi => reveal_strlit("round_pi"),
        Opcode::Round_z => reveal_strlit("round_z"),
        Opcode::Rsq => reveal_strlit("rsq"),
        Opcode::Sample => reveal_strlit("sample"),
        Opcode::SampleC => reveal_strlit("sample_c"),
        Opcode::SampleCLz => reveal_strlit("sample_c_lz"),
        Opcode::SampleL => reveal_strlit("sample_l"),
        Opcode::SampleD => reveal_strlit("sample_d"),
        Opcode::SampleB => reveal_strlit("sample_b"),
        Opcode::Sqrt => reveal_strlit("sqrt"),
        Opcode::Switch => reveal_strlit("switch"),
        Opcode::Sincos => reveal_strlit("sincos"),
        Opcode::UDiv => reveal_strlit("udiv"),
        Opcode::ULt => reveal_strlit("ult"),
        Opcode::UGe => reveal_strlit("uge"),
        Opcode::UMul => reveal_strlit("umul"),
        Opcode::UMad => reveal_strlit("umad"),
        Opcode::UMax => reveal_strlit("umax"),
        Opcode::UMin => reveal_strlit("umin"),
        Opcode::Ushr => reveal_strlit("ushr"),
        Opcode::Utof => reveal_strlit("utof"),
        Opcode::Xor => reveal_strlit("xor"),
        Opcode::DclGlobalFlags => reveal_strlit("dcl_globalFlags"),
        Opcode::DclInput => reveal_strlit("dcl_input"),
        Opcode::DclInputSgv => reveal_strlit("dcl_input_sgv"),
        Opcode::DclInputSiv => reveal_strlit("dcl_input_siv"),
        Opcode::DclInputPs => reveal_strlit("dcl_input_ps"),
        Opcode::DclInputPsSgv => reveal_strlit("dcl_input_ps_sgv"),
        Opcode::DclInputPsSiv => reveal_strlit("dcl_input_ps_siv"),
        Opcode::DclOutput => reveal_strlit("dcl_output"),
        Opcode::DclOutputSgv => reveal_strlit("dcl_output_sgv"),
        Opcode::DclOutputSiv => reveal_strlit("dcl_output_siv"),
        Opcode::DclResource => reveal_strlit("dcl_resource"),
        Opcode::DclSampler => reveal_strlit("dcl_sampler"),
        Opcode::DclConstantBuffer => reveal_strlit("dcl_constantbuffer"),
        Opcode::DclTemps => reveal_strlit("dcl_temps"),
        Opcode::DclIndexableTemp => reveal_strlit("dcl_indexableTemp"),
        Opcode::DclIndexRange => reveal_strlit("dcl_indexRange"),
        Opcode::DclGsInputPrimitive => reveal_strlit("dcl_inputPrimitive"),
        Opcode::DclGsOutputPrimitiveTopology => reveal_strlit("dcl_outputTopology"),
        Opcode::DclMaxOutputVertexCount => reveal_strlit("dcl_maxOutputVertexCount"),
        Opcode::DclGsInstanceCount => reveal_strlit("dcl_gsInstanceCount"),
        Opcode::DclOutputControlPointCount => reveal_strlit("dcl_outputControlPointCount"),
        Opcode::DclInputControlPointCount => reveal_strlit("dcl_inputControlPointCount"),
        Opcode::DclTessDomain => reveal_strlit("dcl_tessDomain"),
        Opcode::DclTessPartitioning => reveal_strlit("dcl_tessPartitioning"),
        Opcode::DclTessOutputPrimitive => reveal_strlit("dcl_tessOutputPrimitive"),
        Opcode::DclHsMaxTessFactor => reveal_strlit("dcl_hsMaxTessFactor"),
        Opcode::DclHsForkPhaseInstanceCount => reveal_strlit("dcl_hsForkPhaseInstanceCount"),
        Opcode::DclHsJoinPhaseInstanceCount => reveal_strlit("dcl_hsJoinPhaseInstanceCount"),
        Opcode::HsDecls => reveal_strlit("hs_decls"),
        Opcode::HsControlPointPhase => reveal_strlit("hs_control_point_phase"),
        Opcode::HsForkPhase => reveal_strlit("hs_fork_phase"),
        Opcode::HsJoinPhase => reveal_strlit("hs_join_phase"),
        Opcode::DclStream => reveal_strlit("dcl_stream"),
        Opcode::DclResourceStructured => reveal_strlit("dcl_resource_structured"),
        Opcode::DclResourceRaw => reveal_strlit("dcl_resource_raw"),
        Opcode::DclUnorderedAccessViewTyped => reveal_strlit("dcl_uav_typed"),
        Opcode::DclUnorderedAccessViewRaw => reveal_strlit("dcl_uav_raw"),
        Opcode::DclUnorderedAccessViewStructured => reveal_strlit("dcl_uav_structured"),
        Opcode::DclThreadGroup => reveal_strlit("dcl_thread_group"),
        Opcode::DclThreadGroupSharedMemoryRaw => reveal_strlit("dcl_tgsm_raw"),
        Opcode::DclThreadGroupSharedMemoryStructured => reveal_strlit("dcl_tgsm_structured"),
        Opcode::Sync => reveal_strlit("sync"),
        Opcode::DclFunctionBody => reveal_strlit("dcl_function_body"),
        Opcode::DclFunctionTable => reveal_strlit("dcl_function_table"),
        Opcode::DclInterface => reveal_strlit("dcl_interface"),
        Opcode::BufInfo => reveal_strlit("bufinfo"),
        Opcode::LdStructured => reveal_strlit("ld_structured"),
        Opcode::StoreStructured => reveal_strlit("store_structured"),
        Opcode::LdRaw => reveal_strlit("ld_raw"),
        Opcode::StoreRaw => reveal_strlit("store_raw"),
        Opcode::LdUavTyped => reveal_strlit("ld_uav_typed"),
        Opcode::StoreUavTyped => reveal_strlit("store_uav_typed"),
        Opcode::AtomicAnd => reveal_strlit("atomic_and"),
        Opcode::AtomicOr => reveal_strlit("atomic_or"),
        Opcode::AtomicXor => reveal_strlit("atomic_xor"),
        Opcode::AtomicCmpStore => reveal_strlit("atomic_cmp_store"),
        Opcode::AtomicIAdd => reveal_strlit("atomic_iadd"),
        Opcode::AtomicIMax => reveal_strlit("atomic_imax"),
        Opcode::AtomicIMin => reveal_strlit("atomic_imin"),
        Opcode::AtomicUMax => reveal_strlit("atomic_umax"),
        Opcode::AtomicUMin => reveal_strlit("atomic_umin"),
        Opcode::ImmAtomicAlloc => reveal_strlit("imm_atomic_alloc"),
        Opcode::ImmAtomicConsume => reveal_strlit("imm_atomic_consume"),
        Opcode::ImmAtomicIAdd => reveal_strlit("imm_atomic_iadd"),
        Opcode::ImmAtomicAnd => reveal_strlit("imm_atomic_and"),
        Opcode::ImmAtomicOr => reveal_strlit("imm_atomic_or"),
        Opcode::ImmAtomicXor => reveal_strlit("imm_atomic_xor"),
        Opcode::ImmAtomicExch => reveal_strlit("imm_atomic_exch"),
        Opcode::ImmAtomicCmpExch => reveal_strlit("imm_atomic_cmp_exch"),
        Opcode::ImmAtomicIMax => reveal_strlit("imm_atomic_imax"),
        Opcode::ImmAtomicIMin => reveal_strlit("imm_atomic_imin"),
        Opcode::ImmAtomicUMax => reveal_strlit("imm_atomic_umax"),
        Opcode::ImmAtomicUMin => reveal_strlit("imm_atomic_umin"),
        Opcode::Eval_snapped => reveal_strlit("eval_snapped"),
        Opcode::Eval_sampleIndex => reveal_strlit("eval_sample_index"),
        Opcode::Eval_centroid => reveal_strlit("eval_centroid"),
        Opcode::Swapc => reveal_strlit("swapc"),
        Opcode::Uaddc => reveal_strlit("uaddc"),
        Opcode::Usubb => reveal_strlit("usubb"),
        Opcode::Countbits => reveal_strlit("countbits"),
        Opcode::FirstbitHi => reveal_strlit("firstbit_hi"),
        Opcode::FirstbitLo => reveal_strlit("firstbit_lo"),
        Opcode::FirstbitShi => reveal_strlit("firstbit_shi"),
        Opcode::Ubfe => reveal_strlit("ubfe"),
        Opcode::Ibfe => reveal_strlit("ibfe"),
        Opcode::Bfi => reveal_strlit("bfi"),
        Opcode::Bfrev => reveal_strlit("bfrev"),
        Opcode::F16tof32 => reveal_strlit("f16tof32"),
        Opcode::F32tof16 => reveal_strlit("f32tof16"),
        Opcode::Rcp => reveal_strlit("rcp"),
        Opcode::Deriv_rtx_coarse => reveal_strlit("deriv_rtx_coarse"),
        Opcode::Deriv_rtx_fine => reveal_strlit("deriv_rtx_fine"),
        Opcode::Deriv_rty_coarse => reveal_strlit("deriv_rty_coarse"),
        Opcode::Deriv_rty_fine => reveal_strlit("deriv_rty_fine"),
        Opcode::Gather4 => reveal_strlit("gather4"),
        Opcode::Gather4C => reveal_strlit("gather4_c"),
        Opcode::Gather4Po => reveal_strlit("gather4_po"),
        Opcode::Gather4PoC => reveal_strlit("gather4_po_c"),
        Opcode::Lod => reveal_strlit("lod"),
        Opcode::SamplePos => reveal_strlit("sample_pos"),
        Opcode::SampleInfo => reveal_strlit("sample_info"),
        Opcode::Dadd => reveal_strlit("dadd"),
        Opcode::Dmax => reveal_strlit("dmax"),
        Opcode::Dmin => reveal_strlit("dmin"),
        Opcode::Dmul => reveal_strlit("dmul"),
        Opcode::Deq => reveal_strlit("deq"),
        Opcode::Dge => reveal_strlit("dge"),
        Opcode::Dlt => reveal_strlit("dlt"),
        Opcode::Dne => reveal_strlit("dne"),
        Opcode::Dmov => reveal_strlit("dmov"),
        Opcode::Dmovc => reveal_strlit("dmovc"),
        Opcode::Dtof => reveal_strlit("dtof"),
        Opcode::Ftod => reveal_strlit("ftod"),
        Opcode::Ddiv => reveal_strlit("ddiv"),
        Opcode::Dfma => reveal_strlit("dfma"),
        Opcode::Drcp => reveal_strlit("drcp"),
        Opcode::Msad => reveal_strlit("msad"),
        Opcode::Dtoi => reveal_strlit("dtoi"),
        Opcode::Dtou => reveal_strlit("dtou"),
        Opcode::Itod => reveal_strlit("itod"),
        Opcode::Utod => reveal_strlit("utod"),
        Opcode::Abort => reveal_strlit("abort"),
        Opcode::DebugBreak => reveal_strlit("debug_break"),
        Opcode::Unknown(_) => {},
    }
}

proof fn lemma_unknown_spelled()
    ensures
        spelled("unknown_op"@) is None,
{
    reveal(spelled);
    reveal_strlit("unknown_op");
}

/// No two known opcodes share a mnemonic, no known opcode has that of the unknown ones, and they all share it.
pub proof fn law_names_differ(a: Opcode, b: Opcode)
    requires
        !(a is Unknown),
    ensures
        a.mnemonic().len() > 0,
        a.mnemonic() != "unknown_op"@,
        b is Unknown ==> b.mnemonic() == "unknown_op"@,
        a != b ==> a.mnemonic() != b.mnemonic(),
{
    law_mnemonic_tells_opcode(a);
    if !(b is Unknown) {
        law_mnemonic_tells_opcode(b);
        if a.code() == b.code() {
            law_code_tells_opcodes_apart(a, b);
        }
    }
}

} // verus!
