//! What the numbers in a shader stand for.
use crate::shex::decode::{
    dimension_text, domain_text, flag_list, interpolation_text, output_primitive_text, partitioning_text, sampler_text,
    stage_text,
};
use crate::shex::ir::{
    system_value_text, CustomDataType, GsOutputTopology, GsPrimitive, RegisterType, ReturnType,
};
use vstd::prelude::*;

verus! {

/// What the register types are stored as.
pub proof fn law_register_type_numbers(v: u32)
    ensures
        RegisterType::of(v) is Temp <==> v == 0,
        RegisterType::of(v) is Input <==> v == 1,
        RegisterType::of(v) is Output <==> v == 2,
        RegisterType::of(v) is IndexableTemp <==> v == 3,
        RegisterType::of(v) is Immediate32 <==> v == 4,
        RegisterType::of(v) is Immediate64 <==> v == 5,
        RegisterType::of(v) is Sampler <==> v == 6,
        RegisterType::of(v) is Resource <==> v == 7,
        RegisterType::of(v) is ConstantBuffer <==> v == 8,
        RegisterType::of(v) is ImmConstBuffer <==> v == 9,
        RegisterType::of(v) is Label <==> v == 10,
        RegisterType::of(v) is InputPrimitiveID <==> v == 11,
        RegisterType::of(v) is OutputDepth <==> v == 12,
        RegisterType::of(v) is Null <==> v == 13,
        RegisterType::of(v) is Rasterizer <==> v == 14,
        RegisterType::of(v) is OutputCoverageMask <==> v == 15,
        RegisterType::of(v) is Stream <==> v == 16,
        RegisterType::of(v) is FunctionBody <==> v == 17,
        RegisterType::of(v) is FunctionTable <==> v == 18,
        RegisterType::of(v) is Interface <==> v == 19,
        RegisterType::of(v) is FunctionInput <==> v == 20,
        RegisterType::of(v) is FunctionOutput <==> v == 21,
        RegisterType::of(v) is OutputControlPointID <==> v == 22,
        RegisterType::of(v) is ForkInstanceID <==> v == 23,
        RegisterType::of(v) is JoinInstanceID <==> v == 24,
        RegisterType::of(v) is InputControlPoint <==> v == 25,
        RegisterType::of(v) is OutputControlPoint <==> v == 26,
        RegisterType::of(v) is PatchConstant <==> v == 27,
        RegisterType::of(v) is DomainLocation <==> v == 28,
        RegisterType::of(v) is ThisPointer <==> v == 29,
        RegisterType::of(v) is Uav <==> v == 30,
        RegisterType::of(v) is ThreadGroupSharedMemory <==> v == 31,
        RegisterType::of(v) is ThreadID <==> v == 32,
        RegisterType::of(v) is ThreadGroupID <==> v == 33,
        RegisterType::of(v) is ThreadIDInGroup <==> v == 34,
        RegisterType::of(v) is Coverage <==> v == 35,
        RegisterType::of(v) is ThreadIDInGroupFlattened <==> v == 36,
        RegisterType::of(v) is GsInstanceID <==> v == 37,
        RegisterType::of(v) is OutputDepthGE <==> v == 38,
        RegisterType::of(v) is OutputDepthLE <==> v == 39,
        RegisterType::of(v) is CycleCounter <==> v == 40,
{
}

/// What the return types are stored as.
pub proof fn law_return_type_numbers(v: u32)
    ensures
        ReturnType::of(v) is Unorm <==> v == 1,
        ReturnType::of(v) is Snorm <==> v == 2,
        ReturnType::of(v) is Sint <==> v == 3,
        ReturnType::of(v) is Uint <==> v == 4,
        ReturnType::of(v) is Float <==> v == 5,
        ReturnType::of(v) is Mixed <==> v == 6,
        ReturnType::of(v) is Double <==> v == 7,
        ReturnType::of(v) is Continued <==> v == 8,
        ReturnType::of(v) is Unused <==> v == 9,
{
}

/// What the kinds of custom data are stored as.
pub proof fn law_custom_data_type_numbers(v: u32)
    ensures
        CustomDataType::of(v) is Comment <==> v == 0,
        CustomDataType::of(v) is DebugInfo <==> v == 1,
        CustomDataType::of(v) is Opaque <==> v == 2,
        CustomDataType::of(v) is ImmediateConstantBuffer <==> v == 3,
{
}

/// What the topologies of a geometry shader are stored as.
pub proof fn law_gs_output_topology_numbers(v: u32)
    ensures
        GsOutputTopology::of(v) is PointList <==> v == 1,
        GsOutputTopology::of(v) is LineList <==> v == 2,
        GsOutputTopology::of(v) is LineStrip <==> v == 3,
        GsOutputTopology::of(v) is TriangleList <==> v == 4,
        GsOutputTopology::of(v) is TriangleStrip <==> v == 5,
        GsOutputTopology::of(v) is LineListAdj <==> v == 10,
        GsOutputTopology::of(v) is LineStripAdj <==> v == 11,
        GsOutputTopology::of(v) is TriangleListAdj <==> v == 12,
        GsOutputTopology::of(v) is TriangleStripAdj <==> v == 13,
{
}

/// What the primitives of a geometry shader are stored as: a patch of control points by seven more than it has.
pub proof fn law_gs_primitive_numbers(v: u32)
    ensures
        GsPrimitive::of(v) is Point <==> v == 1,
        GsPrimitive::of(v) is Line <==> v == 2,
        GsPrimitive::of(v) is Triangle <==> v == 3,
        GsPrimitive::of(v) is LineAdj <==> v == 6,
        GsPrimitive::of(v) is TriangleAdj <==> v == 7,
        GsPrimitive::of(v) is ControlPointPatch <==> 8 <= v <= 39,
        GsPrimitive::of(v) is ControlPointPatch ==> GsPrimitive::of(v)->ControlPointPatch_0 + 7 == v,
{
}

/// How the interpolation modes are named.
pub proof fn law_interpolation_numbers(v: u32)
    ensures
        v == 0 ==> interpolation_text(v) == "undefined"@,
        v == 1 ==> interpolation_text(v) == "constant"@,
        v == 2 ==> interpolation_text(v) == "linear"@,
        v == 3 ==> interpolation_text(v) == "linearCentroid"@,
        v == 4 ==> interpolation_text(v) == "linearNoperspective"@,
        v == 5 ==> interpolation_text(v) == "linearNoperspectiveCentroid"@,
        v == 6 ==> interpolation_text(v) == "linearSample"@,
        v == 7 ==> interpolation_text(v) == "linearNoperspectiveSample"@,
{
}

/// How the resource dimensions are named.
pub proof fn law_dimension_numbers(v: u32)
    ensures
        v == 1 ==> dimension_text(v) == "buffer"@,
        v == 2 ==> dimension_text(v) == "texture1d"@,
        v == 3 ==> dimension_text(v) == "texture2d"@,
        v == 4 ==> dimension_text(v) == "texture2dms"@,
        v == 5 ==> dimension_text(v) == "texture3d"@,
        v == 6 ==> dimension_text(v) == "texturecube"@,
        v == 7 ==> dimension_text(v) == "texture1darray"@,
        v == 8 ==> dimension_text(v) == "texture2darray"@,
        v == 9 ==> dimension_text(v) == "texture2dmsarray"@,
        v == 10 ==> dimension_text(v) == "texturecubearray"@,
{
}

/// How the sampler modes are named.
pub proof fn law_sampler_numbers(v: u32)
    ensures
        v == 0 ==> sampler_text(v) == "default"@,
        v == 1 ==> sampler_text(v) == "comparison"@,
        v == 2 ==> sampler_text(v) == "mono"@,
{
}

/// How the tessellator domains are named.
pub proof fn law_domain_numbers(v: u32)
    ensures
        v == 0 ==> domain_text(v) == "undefined"@,
        v == 1 ==> domain_text(v) == "isoline"@,
        v == 2 ==> domain_text(v) == "tri"@,
        v == 3 ==> domain_text(v) == "quad"@,
{
}

/// How the tessellator partitionings are named.
pub proof fn law_partitioning_numbers(v: u32)
    ensures
        v == 0 ==> partitioning_text(v) == "undefined"@,
        v == 1 ==> partitioning_text(v) == "integer"@,
        v == 2 ==> partitioning_text(v) == "pow2"@,
        v == 3 ==> partitioning_text(v) == "fractional_odd"@,
        v == 4 ==> partitioning_text(v) == "fractional_even"@,
{
}

/// How the tessellator output primitives are named.
pub proof fn law_output_primitive_numbers(v: u32)
    ensures
        v == 0 ==> output_primitive_text(v) == "undefined"@,
        v == 1 ==> output_primitive_text(v) == "point"@,
        v == 2 ==> output_primitive_text(v) == "line"@,
        v == 3 ==> output_primitive_text(v) == "triangle_cw"@,
        v == 4 ==> output_primitive_text(v) == "triangle_ccw"@,
{
}

/// How the stages are named.
pub proof fn law_stage_numbers(v: u32)
    ensures
        v == 0 ==> stage_text(v) == "ps"@,
        v == 1 ==> stage_text(v) == "vs"@,
        v == 2 ==> stage_text(v) == "gs"@,
        v == 3 ==> stage_text(v) == "hs"@,
        v == 4 ==> stage_text(v) == "ds"@,
        v == 5 ==> stage_text(v) == "cs"@,
{
}

/// How the system values are named.
pub proof fn law_system_value_numbers(v: u32)
    ensures
        v == 0 ==> system_value_text(v) == "undefined"@,
        v == 1 ==> system_value_text(v) == "position"@,
        v == 2 ==> system_value_text(v) == "clip_distance"@,
        v == 3 ==> system_value_text(v) == "cull_distance"@,
        v == 4 ==> system_value_text(v) == "render_target_array_index"@,
        v == 5 ==> system_value_text(v) == "viewport_array_index"@,
        v == 6 ==> system_value_text(v) == "vertex_id"@,
        v == 7 ==> system_value_text(v) == "primitive_id"@,
        v == 8 ==> system_value_text(v) == "instance_id"@,
        v == 9 ==> system_value_text(v) == "is_front_face"@,
        v == 10 ==> system_value_text(v) == "sample_index"@,
        v == 11 ==> system_value_text(v) == "finalQuadUeq0EdgeTessFactor"@,
        v == 12 ==> system_value_text(v) == "finalQuadVeq0EdgeTessFactor"@,
        v == 13 ==> system_value_text(v) == "finalQuadUeq1EdgeTessFactor"@,
        v == 14 ==> system_value_text(v) == "finalQuadVeq1EdgeTessFactor"@,
        v == 15 ==> system_value_text(v) == "finalQuadUInsideTessFactor"@,
        v == 16 ==> system_value_text(v) == "finalQuadVInsideTessFactor"@,
        v == 17 ==> system_value_text(v) == "finalTriUeq0EdgeTessFactor"@,
        v == 18 ==> system_value_text(v) == "finalTriVeq0EdgeTessFactor"@,
        v == 19 ==> system_value_text(v) == "finalTriWeq0EdgeTessFactor"@,
        v == 20 ==> system_value_text(v) == "finalTriInsideTessFactor"@,
        v == 21 ==> system_value_text(v) == "finalLineDetailTessFactor"@,
        v == 22 ==> system_value_text(v) == "finalLineDensityTessFactor"@,
        v == 23 ==> system_value_text(v) == "target"@,
        v == 24 ==> system_value_text(v) == "depth"@,
        v == 25 ==> system_value_text(v) == "coverage"@,
        v == 26 ==> system_value_text(v) == "depth_greater_equal"@,
        v == 27 ==> system_value_text(v) == "depth_less_equal"@,
        v == 64 ==> system_value_text(v) == "stencil_ref"@,
        v == 65 ==> system_value_text(v) == "inner_coverage"@,
{
}

/// A global flag is named where its bit is set, and nowhere else: the names stand in the order of their bits.
pub proof fn law_flag_numbers(bits: u32)
    ensures
        bits == 0 ==> flag_list(bits) =~= Seq::<Seq<char>>::empty(),
        bits == 1 ==> flag_list(bits) =~= seq!["refactoringAllowed"@],
        bits == 2 ==> flag_list(bits) =~= seq!["enableDoublePrecisionFloatOps"@],
        bits == 4 ==> flag_list(bits) =~= seq!["forceEarlyDepthStencil"@],
        bits == 8 ==> flag_list(bits) =~= seq!["enableRawAndStructuredBuffers"@],
        bits == 16 ==> flag_list(bits) =~= seq!["skipOptimization"@],
        bits == 32 ==> flag_list(bits) =~= seq!["enableMinPrecision"@],
        bits == 64 ==> flag_list(bits) =~= seq!["enable11_1DoubleExtensions"@],
        bits == 128 ==> flag_list(bits) =~= seq!["enable11_1ShaderExtensions"@],
{
    assert forall|n: u32| #![trigger 1u32 << n] n < 8 implies (0u32 & (1u32 << n)) == 0 by {
        assert((0u32 & (1u32 << n)) == 0) by (bit_vector);
    }
    lemma_one_flag(bits);
}

proof fn lemma_one_flag(bits: u32)
    by (bit_vector)
    ensures
        bits == 1 ==> (bits & (1u32 << 0u32) != 0) == true,
        bits == 1 ==> (bits & (1u32 << 1u32) != 0) == false,
        bits == 1 ==> (bits & (1u32 << 2u32) != 0) == false,
        bits == 1 ==> (bits & (1u32 << 3u32) != 0) == false,
        bits == 1 ==> (bits & (1u32 << 4u32) != 0) == false,
        bits == 1 ==> (bits & (1u32 << 5u32) != 0) == false,
        bits == 1 ==> (bits & (1u32 << 6u32) != 0) == false,
        bits == 1 ==> (bits & (1u32 << 7u32) != 0) == false,
        bits == 2 ==> (bits & (1u32 << 0u32) != 0) == false,
        bits == 2 ==> (bits & (1u32 << 1u32) != 0) == true,
        bits == 2 ==> (bits & (1u32 << 2u32) != 0) == false,
        bits == 2 ==> (bits & (1u32 << 3u32) != 0) == false,
        bits == 2 ==> (bits & (1u32 << 4u32) != 0) == false,
        bits == 2 ==> (bits & (1u32 << 5u32) != 0) == false,
        bits == 2 ==> (bits & (1u32 << 6u32) != 0) == false,
        bits == 2 ==> (bits & (1u32 << 7u32) != 0) == false,
        bits == 4 ==> (bits & (1u32 << 0u32) != 0) == false,
        bits == 4 ==> (bits & (1u32 << 1u32) != 0) == false,
        bits == 4 ==> (bits & (1u32 << 2u32) != 0) == true,
        bits == 4 ==> (bits & (1u32 << 3u32) != 0) == false,
        bits == 4 ==> (bits & (1u32 << 4u32) != 0) == false,
        bits == 4 ==> (bits & (1u32 << 5u32) != 0) == false,
        bits == 4 ==> (bits & (1u32 << 6u32) != 0) == false,
        bits == 4 ==> (bits & (1u32 << 7u32) != 0) == false,
        bits == 8 ==> (bits & (1u32 << 0u32) != 0) == false,
        bits == 8 ==> (bits & (1u32 << 1u32) != 0) == false,
        bits == 8 ==> (bits & (1u32 << 2u32) != 0) == false,
        bits == 8 ==> (bits & (1u32 << 3u32) != 0) == true,
        bits == 8 ==> (bits & (1u32 << 4u32) != 0) == false,
        bits == 8 ==> (bits & (1u32 << 5u32) != 0) == false,
        bits == 8 ==> (bits & (1u32 << 6u32) != 0) == false,
        bits == 8 ==> (bits & (1u32 << 7u32) != 0) == false,
        bits == 16 ==> (bits & (1u32 << 0u32) != 0) == false,
        bits == 16 ==> (bits & (1u32 << 1u32) != 0) == false,
        bits == 16 ==> (bits & (1u32 << 2u32) != 0) == false,
        bits == 16 ==> (bits & (1u32 << 3u32) != 0) == false,
        bits == 16 ==> (bits & (1u32 << 4u32) != 0) == true,
        bits == 16 ==> (bits & (1u32 << 5u32) != 0) == false,
        bits == 16 ==> (bits & (1u32 << 6u32) != 0) == false,
        bits == 16 ==> (bits & (1u32 << 7u32) != 0) == false,
        bits == 32 ==> (bits & (1u32 << 0u32) != 0) == false,
        bits == 32 ==> (bits & (1u32 << 1u32) != 0) == false,
        bits == 32 ==> (bits & (1u32 << 2u32) != 0) == false,
        bits == 32 ==> (bits & (1u32 << 3u32) != 0) == false,
        bits == 32 ==> (bits & (1u32 << 4u32) != 0) == false,
        bits == 32 ==> (bits & (1u32 << 5u32) != 0) == true,
        bits == 32 ==> (bits & (1u32 << 6u32) != 0) == false,
        bits == 32 ==> (bits & (1u32 << 7u32) != 0) == false,
        bits == 64 ==> (bits & (1u32 << 0u32) != 0) == false,
        bits == 64 ==> (bits & (1u32 << 1u32) != 0) == false,
        bits == 64 ==> (bits & (1u32 << 2u32) != 0) == false,
        bits == 64 ==> (bits & (1u32 << 3u32) != 0) == false,
        bits == 64 ==> (bits & (1u32 << 4u32) != 0) == false,
        bits == 64 ==> (bits & (1u32 << 5u32) != 0) == false,
        bits == 64 ==> (bits & (1u32 << 6u32) != 0) == true,
        bits == 64 ==> (bits & (1u32 << 7u32) != 0) == false,
        bits == 128 ==> (bits & (1u32 << 0u32) != 0) == false,
        bits == 128 ==> (bits & (1u32 << 1u32) != 0) == false,
        bits == 128 ==> (bits & (1u32 << 2u32) != 0) == false,
        bits == 128 ==> (bits & (1u32 << 3u32) != 0) == false,
        bits == 128 ==> (bits & (1u32 << 4u32) != 0) == false,
        bits == 128 ==> (bits & (1u32 << 5u32) != 0) == false,
        bits == 128 ==> (bits & (1u32 << 6u32) != 0) == false,
        bits == 128 ==> (bits & (1u32 << 7u32) != 0) == true,
{
}

/// How the registers are called.
pub proof fn law_register_type_names(r: RegisterType)
    ensures
        r is Temp ==> r.prefix_text() == "r"@,
        r is Input ==> r.prefix_text() == "v"@,
        r is Output ==> r.prefix_text() == "o"@,
        r is IndexableTemp ==> r.prefix_text() == "x"@,
        r is Immediate32 ==> r.prefix_text() == "l"@,
        r is Immediate64 ==> r.prefix_text() == "d"@,
        r is Sampler ==> r.prefix_text() == "s"@,
        r is Resource ==> r.prefix_text() == "t"@,
        r is ConstantBuffer ==> r.prefix_text() == "cb"@,
        r is ImmConstBuffer ==> r.prefix_text() == "icb"@,
        r is Label ==> r.prefix_text() == "label"@,
        r is InputPrimitiveID ==> r.prefix_text() == "vPrim"@,
        r is OutputDepth ==> r.prefix_text() == "oDepth"@,
        r is Null ==> r.prefix_text() == "null"@,
        r is Rasterizer ==> r.prefix_text() == "rasterizer"@,
        r is OutputCoverageMask ==> r.prefix_text() == "oMask"@,
        r is Stream ==> r.prefix_text() == "stream"@,
        r is FunctionBody ==> r.prefix_text() == "function_body"@,
        r is FunctionTable ==> r.prefix_text() == "function_table"@,
        r is Interface ==> r.prefix_text() == "interface"@,
        r is FunctionInput ==> r.prefix_text() == "function_input"@,
        r is FunctionOutput ==> r.prefix_text() == "function_output"@,
        r is OutputControlPointID ==> r.prefix_text() == "vOutputControlPointID"@,
        r is ForkInstanceID ==> r.prefix_text() == "vForkInstanceID"@,
        r is JoinInstanceID ==> r.prefix_text() == "vJoinInstanceID"@,
        r is InputControlPoint ==> r.prefix_text() == "vicp"@,
        r is OutputControlPoint ==> r.prefix_text() == "vocp"@,
        r is PatchConstant ==> r.prefix_text() == "vpc"@,
        r is DomainLocation ==> r.prefix_text() == "vDomain"@,
        r is ThisPointer ==> r.prefix_text() == "thisPointer"@,
        r is Uav ==> r.prefix_text() == "u"@,
        r is ThreadGroupSharedMemory ==> r.prefix_text() == "g"@,
        r is ThreadID ==> r.prefix_text() == "vThreadID"@,
        r is ThreadGroupID ==> r.prefix_text() == "vThreadGroupID"@,
        r is ThreadIDInGroup ==> r.prefix_text() == "vThreadIDInGroup"@,
        r is Coverage ==> r.prefix_text() == "vCoverage"@,
        r is ThreadIDInGroupFlattened ==> r.prefix_text() == "vThreadIDInGroupFlattened"@,
        r is GsInstanceID ==> r.prefix_text() == "vGSInstanceID"@,
        r is OutputDepthGE ==> r.prefix_text() == "oDepthGE"@,
        r is OutputDepthLE ==> r.prefix_text() == "oDepthLE"@,
        r is CycleCounter ==> r.prefix_text() == "vCycleCounter"@,
        r is Unknown ==> r.prefix_text() == "?reg"@,
{
}

/// How the return types are called.
pub proof fn law_return_type_names(r: ReturnType)
    ensures
        r is Unorm ==> r.name_text() == "unorm"@,
        r is Snorm ==> r.name_text() == "snorm"@,
        r is Sint ==> r.name_text() == "sint"@,
        r is Uint ==> r.name_text() == "uint"@,
        r is Float ==> r.name_text() == "float"@,
        r is Mixed ==> r.name_text() == "mixed"@,
        r is Double ==> r.name_text() == "double"@,
        r is Continued ==> r.name_text() == "continued"@,
        r is Unused ==> r.name_text() == "unused"@,
        r is Unknown ==> r.name_text() == "?"@,
{
}

/// How the primitives of a geometry shader are called.
pub proof fn law_gs_primitive_names(p: GsPrimitive)
    ensures
        p is Undefined ==> p.name_text() == "undefined"@,
        p is Point ==> p.name_text() == "point"@,
        p is Line ==> p.name_text() == "line"@,
        p is Triangle ==> p.name_text() == "triangle"@,
        p is LineAdj ==> p.name_text() == "lineAdj"@,
        p is TriangleAdj ==> p.name_text() == "triangleAdj"@,
        p is ControlPointPatch ==> p.name_text() == "patchlist"@,
{
}

/// How the topologies of a geometry shader are called.
pub proof fn law_gs_output_topology_names(t: GsOutputTopology)
    ensures
        t is Undefined ==> t.name_text() == "undefined"@,
        t is PointList ==> t.name_text() == "pointlist"@,
        t is LineList ==> t.name_text() == "linelist"@,
        t is LineStrip ==> t.name_text() == "linestrip"@,
        t is TriangleList ==> t.name_text() == "trianglelist"@,
        t is TriangleStrip ==> t.name_text() == "trianglestrip"@,
        t is LineListAdj ==> t.name_text() == "linelistAdj"@,
        t is LineStripAdj ==> t.name_text() == "linestripAdj"@,
        t is TriangleListAdj ==> t.name_text() == "trianglelistAdj"@,
        t is TriangleStripAdj ==> t.name_text() == "trianglestripAdj"@,
{
}

} // verus!
