//! STAT chunk: shader statistics.
use crate::bytes::{flat, le32, lemma_flat_len, lemma_flat_reads, push_words, read_u32, resize, resized};
use crate::text::{cat3, dec, decimal};
use vstd::prelude::*;

verus! {

/// Shader statistics extracted from the STAT chunk.
///
/// Fields after `is_sample_frequency` are only present in chunks of at least 152 bytes; missing fields are
/// nought.
#[derive(Debug, Clone, Copy, Default)]
pub struct ShaderStats {
    /// Total number of instructions in the shader.
    pub instruction_count: u32,
    /// Number of temporary registers used.
    pub temp_register_count: u32,
    /// Number of `#define` constants (SM4 legacy, typically zero for SM5).
    pub define_count: u32,
    /// Number of declaration instructions.
    pub declaration_count: u32,
    /// Number of floating-point arithmetic instructions.
    pub float_instruction_count: u32,
    /// Number of signed-integer arithmetic instructions.
    pub int_instruction_count: u32,
    /// Number of unsigned-integer arithmetic instructions.
    pub uint_instruction_count: u32,
    /// Number of static flow-control instructions (`if`/`else`/`switch`).
    pub static_flow_control_count: u32,
    /// Number of dynamic flow-control instructions (`breakc`/`continuec`).
    pub dynamic_flow_control_count: u32,
    /// Macro instruction count (legacy, usually zero).
    pub macro_instruction_count: u32,
    /// Number of indexable temporary arrays.
    pub temp_array_count: u32,
    /// Number of array-indexed instructions.
    pub array_instruction_count: u32,
    /// Number of `cut` instructions (geometry shader).
    pub cut_instruction_count: u32,
    /// Number of `emit` instructions (geometry shader).
    pub emit_instruction_count: u32,
    /// Number of normal texture-sampling instructions.
    pub texture_normal_instructions: u32,
    /// Number of texture load instructions.
    pub texture_load_instructions: u32,
    /// Number of texture comparison instructions.
    pub texture_comp_instructions: u32,
    /// Number of texture bias instructions.
    pub texture_bias_instructions: u32,
    /// Number of texture gradient instructions.
    pub texture_gradient_instructions: u32,
    /// Number of `mov` instructions.
    pub mov_instruction_count: u32,
    /// Number of `movc` (conditional move) instructions.
    pub movc_instruction_count: u32,
    /// Number of type-conversion instructions.
    pub conversion_instruction_count: u32,
    /// Geometry shader input primitive type (raw enum value).
    pub gs_input_primitive: u32,
    /// Geometry shader output topology (raw enum value).
    pub gs_output_topology: u32,
    /// Maximum number of vertices a GS invocation may emit.
    pub gs_max_output_vertex_count: u32,
    /// Whether the pixel shader runs at sample frequency.
    pub is_sample_frequency: bool,

    // Fields that only chunks of at least 152 bytes carry.
    /// GS instance count, or HS/DS/CS control-point count depending on
    /// shader type.
    pub gs_instance_count: u32,
    /// Number of control points for hull shaders.
    pub hs_control_points: u32,
    /// HS output primitive topology (raw enum value).
    pub hs_output_primitive: u32,
    /// HS partitioning mode (raw enum value).
    pub hs_partitioning: u32,
    /// DS tessellator domain (raw enum value).
    pub ds_tessellator_domain: u32,
    /// Number of barrier instructions.
    pub barrier_instructions: u32,
    /// Number of interlocked (atomic) instructions.
    pub interlocked_instructions: u32,
    /// Number of texture store instructions.
    pub texture_store_instructions: u32,

    /// Size of the chunk in bytes, so that writing it emits as many as were read.
    pub raw_size: usize,
}

/// The statistics that the data holds.
pub open spec fn stats_of(data: Seq<u8>) -> ShaderStats {
    ShaderStats {
        instruction_count: le32(data, 0),
        temp_register_count: le32(data, 4),
        define_count: le32(data, 8),
        declaration_count: le32(data, 12),
        float_instruction_count: le32(data, 16),
        int_instruction_count: le32(data, 20),
        uint_instruction_count: le32(data, 24),
        static_flow_control_count: le32(data, 28),
        dynamic_flow_control_count: le32(data, 32),
        macro_instruction_count: le32(data, 36),
        temp_array_count: le32(data, 40),
        array_instruction_count: le32(data, 44),
        cut_instruction_count: le32(data, 48),
        emit_instruction_count: le32(data, 52),
        texture_normal_instructions: le32(data, 56),
        texture_load_instructions: le32(data, 60),
        texture_comp_instructions: le32(data, 64),
        texture_bias_instructions: le32(data, 68),
        texture_gradient_instructions: le32(data, 72),
        mov_instruction_count: le32(data, 76),
        movc_instruction_count: le32(data, 80),
        conversion_instruction_count: le32(data, 84),
        gs_input_primitive: le32(data, 96),
        gs_output_topology: le32(data, 100),
        gs_max_output_vertex_count: le32(data, 104),
        is_sample_frequency: data.len() >= 120 && le32(data, 116) != 0,
        gs_instance_count: extended(data, 120),
        hs_control_points: extended(data, 124),
        hs_output_primitive: extended(data, 128),
        hs_partitioning: extended(data, 132),
        ds_tessellator_domain: extended(data, 136),
        barrier_instructions: extended(data, 140),
        interlocked_instructions: extended(data, 144),
        texture_store_instructions: extended(data, 148),
        raw_size: data.len() as usize,
    }
}

/// A field that only the longer chunks carry.
pub open spec fn extended(data: Seq<u8>, at: int) -> u32 {
    if data.len() >= 152 {
        le32(data, at)
    } else {
        0
    }
}

fn word(data: &[u8], at: u64) -> (r: u32)
    requires
        at + 4 <= data@.len(),
    ensures
        r == le32(data@, at as int),
{
    match read_u32(data, at) {
        Some(v) => v,
        None => 0,
    }
}

fn extended_word(data: &[u8], at: u64) -> (r: u32)
    requires
        at + 4 <= 152,
    ensures
        r == extended(data@, at as int),
{
    if data.len() >= 152 {
        word(data, at)
    } else {
        0
    }
}

/// Parse a STAT chunk into [`ShaderStats`]. Data too short to hold a valid chunk gives none.
pub fn parse_stat(data: &[u8]) -> (r: Option<ShaderStats>)
    ensures
        match r {
            Some(s) => data@.len() >= 116 && s == stats_of(data@),
            None => data@.len() < 116,
        },
{
    if data.len() < 116 {
        return None;
    }
    let is_sample_frequency: bool = data.len() >= 120 && word(data, 116) != 0;
    Some(
        ShaderStats {
            instruction_count: word(data, 0),
            temp_register_count: word(data, 4),
            define_count: word(data, 8),
            declaration_count: word(data, 12),
            float_instruction_count: word(data, 16),
            int_instruction_count: word(data, 20),
            uint_instruction_count: word(data, 24),
            static_flow_control_count: word(data, 28),
            dynamic_flow_control_count: word(data, 32),
            macro_instruction_count: word(data, 36),
            temp_array_count: word(data, 40),
            array_instruction_count: word(data, 44),
            cut_instruction_count: word(data, 48),
            emit_instruction_count: word(data, 52),
            texture_normal_instructions: word(data, 56),
            texture_load_instructions: word(data, 60),
            texture_comp_instructions: word(data, 64),
            texture_bias_instructions: word(data, 68),
            texture_gradient_instructions: word(data, 72),
            mov_instruction_count: word(data, 76),
            movc_instruction_count: word(data, 80),
            conversion_instruction_count: word(data, 84),
            gs_input_primitive: word(data, 96),
            gs_output_topology: word(data, 100),
            gs_max_output_vertex_count: word(data, 104),
            is_sample_frequency,
            gs_instance_count: extended_word(data, 120),
            hs_control_points: extended_word(data, 124),
            hs_output_primitive: extended_word(data, 128),
            hs_partitioning: extended_word(data, 132),
            ds_tessellator_domain: extended_word(data, 136),
            barrier_instructions: extended_word(data, 140),
            interlocked_instructions: extended_word(data, 144),
            texture_store_instructions: extended_word(data, 148),
            raw_size: data.len(),
        },
    )
}

/// A line of a count, where there is anything to count.
pub open spec fn count_line(n: u32, label: Seq<char>) -> Seq<char> {
    if n > 0 {
        "//   "@ + dec(n as nat) + label
    } else {
        ""@
    }
}

fn format_count(n: u32, label: &str) -> (r: String)
    ensures
        r@ == count_line(n, label@),
{
    if n > 0 {
        let d = decimal(n as u64);
        cat3("//   ", d.as_str(), label)
    } else {
        "".to_owned()
    }
}

impl ShaderStats {
    /// The words of the shorter form, in order. Words of unknown meaning are nought.
    pub open spec fn words(self) -> Seq<u32> {
        seq![
            self.instruction_count,
            self.temp_register_count,
            self.define_count,
            self.declaration_count,
            self.float_instruction_count,
            self.int_instruction_count,
            self.uint_instruction_count,
            self.static_flow_control_count,
            self.dynamic_flow_control_count,
            self.macro_instruction_count,
            self.temp_array_count,
            self.array_instruction_count,
            self.cut_instruction_count,
            self.emit_instruction_count,
            self.texture_normal_instructions,
            self.texture_load_instructions,
            self.texture_comp_instructions,
            self.texture_bias_instructions,
            self.texture_gradient_instructions,
            self.mov_instruction_count,
            self.movc_instruction_count,
            self.conversion_instruction_count,
            0,
            0,
            self.gs_input_primitive,
            self.gs_output_topology,
            self.gs_max_output_vertex_count,
            0,
            0,
            (if self.is_sample_frequency { 1u32 } else { 0u32 }),
        ]
    }

    /// The words of the longer form.
    pub open spec fn all_words(self) -> Seq<u32> {
        self.words() + seq![
            self.gs_instance_count,
            self.hs_control_points,
            self.hs_output_primitive,
            self.hs_partitioning,
            self.ds_tessellator_domain,
            self.barrier_instructions,
            self.interlocked_instructions,
            self.texture_store_instructions,
        ]
    }

    /// How many bytes the chunk takes.
    pub open spec fn target_size(self) -> usize {
        if self.raw_size > 0 {
            self.raw_size
        } else {
            120
        }
    }

    /// The payload: the words of the form that the size calls for, cut or filled up with zeros to the size.
    pub open spec fn payload(self) -> Seq<u8> {
        resized(flat(if self.target_size() >= 152 { self.all_words() } else { self.words() }), self.target_size() as nat)
    }

    /// The tag the chunk goes under.
    pub fn fourcc(&self) -> (r: [u8; 4])
        ensures
            r == [0x53u8, 0x54, 0x41, 0x54],
    {
        [0x53u8, 0x54, 0x41, 0x54]
    }

    /// The payload, as long as the chunk that was read.
    pub fn write_payload(&self) -> (r: Vec<u8>)
        ensures
            r@ == self.payload(),
            r@.len() == self.target_size(),
    {
        let target: usize = if self.raw_size > 0 {
            self.raw_size
        } else {
            120
        };
        let sampled: u32 = if self.is_sample_frequency {
            1
        } else {
            0
        };
        let words: [u32; 30] = [
            self.instruction_count,
            self.temp_register_count,
            self.define_count,
            self.declaration_count,
            self.float_instruction_count,
            self.int_instruction_count,
            self.uint_instruction_count,
            self.static_flow_control_count,
            self.dynamic_flow_control_count,
            self.macro_instruction_count,
            self.temp_array_count,
            self.array_instruction_count,
            self.cut_instruction_count,
            self.emit_instruction_count,
            self.texture_normal_instructions,
            self.texture_load_instructions,
            self.texture_comp_instructions,
            self.texture_bias_instructions,
            self.texture_gradient_instructions,
            self.mov_instruction_count,
            self.movc_instruction_count,
            self.conversion_instruction_count,
            0,
            0,
            self.gs_input_primitive,
            self.gs_output_topology,
            self.gs_max_output_vertex_count,
            0,
            0,
            sampled,
        ];
        let mut out: Vec<u8> = Vec::new();
        push_words(&mut out, &words);
        proof {
            assert(words@ =~= self.words());
        }
        if target >= 152 {
            let more: [u32; 8] = [
                self.gs_instance_count,
                self.hs_control_points,
                self.hs_output_primitive,
                self.hs_partitioning,
                self.ds_tessellator_domain,
                self.barrier_instructions,
                self.interlocked_instructions,
                self.texture_store_instructions,
            ];
            push_words(&mut out, &more);
            proof {
                let tail = seq![
                    self.gs_instance_count,
                    self.hs_control_points,
                    self.hs_output_primitive,
                    self.hs_partitioning,
                    self.ds_tessellator_domain,
                    self.barrier_instructions,
                    self.interlocked_instructions,
                    self.texture_store_instructions,
                ];
                assert(more@ =~= tail);
                crate::bytes::lemma_flat_joined(self.words(), tail);
                assert(out@ =~= flat(self.all_words()));
            }
        } else {
            proof {
                assert(out@ =~= flat(self.words()));
            }
        }
        resize(out, target)
    }

    /// The chunk in words.
    pub open spec fn text_spec(self) -> Seq<char> {
        "// Statistics:\n"@ + ("//   "@ + dec(self.instruction_count as nat) + " instruction(s)\n"@) + ("//   "@ + dec(
            self.temp_register_count as nat,
        ) + " temp register(s)\n"@) + count_line(
            self.declaration_count,
            " declaration(s)\n"@,
        ) + count_line(
            self.float_instruction_count,
            " float instruction(s)\n"@,
        ) + count_line(
            self.int_instruction_count,
            " int instruction(s)\n"@,
        ) + count_line(
            self.uint_instruction_count,
            " uint instruction(s)\n"@,
        ) + count_line(
            self.texture_normal_instructions,
            " texture normal instruction(s)\n"@,
        ) + count_line(
            self.texture_load_instructions,
            " texture load instruction(s)\n"@,
        ) + count_line(
            self.static_flow_control_count,
            " static flow control(s)\n"@,
        ) + count_line(
            self.dynamic_flow_control_count,
            " dynamic flow control(s)\n"@,
        ) + count_line(
            self.cut_instruction_count,
            " cut instruction(s)\n"@,
        ) + count_line(
            self.emit_instruction_count,
            " emit instruction(s)\n"@,
        ) + (if self.is_sample_frequency {
            "//   sample-frequency execution\n"@
        } else {
            ""@
        })
    }

    /// The chunk in words: the counts that are not nought, a line each.
    pub fn text(&self) -> (r: String)
        ensures
            r@ == self.text_spec(),
    {
        let mut out = "// Statistics:\n".to_owned();
        let n = decimal(self.instruction_count as u64);
        let line = cat3("//   ", n.as_str(), " instruction(s)\n");
        out.push_str(line.as_str());
        let n = decimal(self.temp_register_count as u64);
        let line = cat3("//   ", n.as_str(), " temp register(s)\n");
        out.push_str(line.as_str());
        let line = format_count(self.declaration_count, " declaration(s)\n");
        out.push_str(line.as_str());
        let line = format_count(self.float_instruction_count, " float instruction(s)\n");
        out.push_str(line.as_str());
        let line = format_count(self.int_instruction_count, " int instruction(s)\n");
        out.push_str(line.as_str());
        let line = format_count(self.uint_instruction_count, " uint instruction(s)\n");
        out.push_str(line.as_str());
        let line = format_count(self.texture_normal_instructions, " texture normal instruction(s)\n");
        out.push_str(line.as_str());
        let line = format_count(self.texture_load_instructions, " texture load instruction(s)\n");
        out.push_str(line.as_str());
        let line = format_count(self.static_flow_control_count, " static flow control(s)\n");
        out.push_str(line.as_str());
        let line = format_count(self.dynamic_flow_control_count, " dynamic flow control(s)\n");
        out.push_str(line.as_str());
        let line = format_count(self.cut_instruction_count, " cut instruction(s)\n");
        out.push_str(line.as_str());
        let line = format_count(self.emit_instruction_count, " emit instruction(s)\n");
        out.push_str(line.as_str());
        let last = if self.is_sample_frequency {
            "//   sample-frequency execution\n"
        } else {
            ""
        };
        out.push_str(last);
        out
    }
}

/// Words are read back from bytes that were cut or filled up, as far as they reach.
pub proof fn lemma_resized_reads(words: Seq<u32>, len: nat)
    ensures
        forall|i: int|
            0 <= i < words.len() && 4 * i + 4 <= len ==> le32(resized(flat(words), len), 4 * i) == #[trigger] words[i],
{
    lemma_flat_len(words);
    lemma_flat_reads(Seq::empty(), words, Seq::empty());
    let whole = Seq::<u8>::empty() + flat(words) + Seq::<u8>::empty();
    assert(whole =~= flat(words));
    let data = resized(flat(words), len);
    assert forall|i: int| 0 <= i < words.len() && 4 * i + 4 <= len implies le32(data, 4 * i) == #[trigger] words[i] by {
        let at = 4 * i;
        assert(le32(flat(words), 0 + at) == words[i]);
        assert(data[at] == flat(words)[at]);
        assert(data[at + 1] == flat(words)[at + 1]);
        assert(data[at + 2] == flat(words)[at + 2]);
        assert(data[at + 3] == flat(words)[at + 3]);
    }
}

/// Parsing what was written gives the statistics back, where they carry the size of a valid chunk and
/// nothing that a chunk of that size has no room for.
#[verifier::rlimit(50)]
pub proof fn law_stats_come_back(s: ShaderStats)
    requires
        s.raw_size >= 116,
        s.raw_size < 120 ==> !s.is_sample_frequency,
        s.raw_size < 152 ==> s.gs_instance_count == 0 && s.hs_control_points == 0 && s.hs_output_primitive == 0 && s.hs_partitioning == 0 && s.ds_tessellator_domain == 0 && s.barrier_instructions == 0 && s.interlocked_instructions == 0 && s.texture_store_instructions == 0,
    ensures
        s.payload().len() >= 116,
        stats_of(s.payload()) == s,
{
    let words = if s.raw_size >= 152 { s.all_words() } else { s.words() };
    let data = s.payload();
    lemma_resized_reads(words, s.raw_size as nat);
    lemma_flat_len(words);
    assert(data.len() == s.raw_size);
    assert(le32(data, 4int * 0) == words[0]);
    assert(le32(data, 4int * 1) == words[1]);
    assert(le32(data, 4int * 2) == words[2]);
    assert(le32(data, 4int * 3) == words[3]);
    assert(le32(data, 4int * 4) == words[4]);
    assert(le32(data, 4int * 5) == words[5]);
    assert(le32(data, 4int * 6) == words[6]);
    assert(le32(data, 4int * 7) == words[7]);
    assert(le32(data, 4int * 8) == words[8]);
    assert(le32(data, 4int * 9) == words[9]);
    assert(le32(data, 4int * 10) == words[10]);
    assert(le32(data, 4int * 11) == words[11]);
    assert(le32(data, 4int * 12) == words[12]);
    assert(le32(data, 4int * 13) == words[13]);
    assert(le32(data, 4int * 14) == words[14]);
    assert(le32(data, 4int * 15) == words[15]);
    assert(le32(data, 4int * 16) == words[16]);
    assert(le32(data, 4int * 17) == words[17]);
    assert(le32(data, 4int * 18) == words[18]);
    assert(le32(data, 4int * 19) == words[19]);
    assert(le32(data, 4int * 20) == words[20]);
    assert(le32(data, 4int * 21) == words[21]);
    assert(le32(data, 4int * 24) == words[24]);
    assert(le32(data, 4int * 25) == words[25]);
    assert(le32(data, 4int * 26) == words[26]);
    if s.raw_size >= 120 {
        assert(le32(data, 4int * 29) == words[29]);
    }
    if s.raw_size >= 152 {
        assert(le32(data, 4int * 30) == words[30]);
        assert(le32(data, 4int * 31) == words[31]);
        assert(le32(data, 4int * 32) == words[32]);
        assert(le32(data, 4int * 33) == words[33]);
        assert(le32(data, 4int * 34) == words[34]);
        assert(le32(data, 4int * 35) == words[35]);
        assert(le32(data, 4int * 36) == words[36]);
        assert(le32(data, 4int * 37) == words[37]);
    }
}

} // verus!
