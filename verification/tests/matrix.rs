//! Transforms and runs of component writes.
use d3dasm::hlsl::expr::{call, Expr};
use d3dasm::hlsl::matrix::{coalesce, fold, transform, Emitted};
use d3dasm::hlsl::names::{Buffer, Field, Names};

fn dot(matrix: &str, index: &str, vector: &str) -> Expr {
    call(
        "dot",
        vec![
            Expr::Read {
                base: format!("{matrix}[{index}]"),
                swizzle: Vec::new(),
            },
            Expr::Read {
                base: vector.to_owned(),
                swizzle: Vec::new(),
            },
        ],
        1,
    )
}

fn assignment(base: &str, lane: u8, expr: Expr) -> Option<Emitted> {
    Some(Emitted {
        depth: 1,
        base: base.to_owned(),
        lanes: vec![lane],
        expr,
    })
}

fn folded(lines: Vec<Option<Emitted>>) -> Vec<String> {
    let mut out: Vec<String> = lines.iter().map(|_| "    original;".to_owned()).collect();
    fold(&Names::default(), &mut out, &lines);
    out
}

fn read(base: &str, swizzle: Vec<u8>) -> Expr {
    Expr::Read {
        base: base.to_owned(),
        swizzle,
    }
}

fn part(base: &str, lanes: Vec<u8>, expr: Expr) -> Option<Emitted> {
    Some(Emitted {
        depth: 1,
        base: base.to_owned(),
        lanes,
        expr,
    })
}

fn joined(lines: Vec<Option<Emitted>>) -> Vec<String> {
    let mut out: Vec<String> = (0..lines.len())
        .map(|at| format!("    line {at};"))
        .collect();
    coalesce(&mut out, &lines);
    out
}

#[test]
fn lanes_taken_from_one_value_become_one_write() {
    let out = joined(vec![
        part("r1", vec![0], read("v", vec![0])),
        part("r1", vec![1], read("v", vec![1])),
    ]);
    assert_eq!(out, ["    r1.xy = v.xy;"]);
}

/// The components the run did not write still hold whatever put them there, so only a run
/// covering the whole register may drop the mask and claim all four.
#[test]
fn a_partial_fill_leaves_the_rest_of_the_register_alone() {
    let out = joined(vec![
        part("r1", vec![0], read("v", vec![0])),
        part("r1", vec![1], read("v", vec![1])),
        part("r1", vec![2], read("v", vec![2])),
    ]);
    assert_eq!(out, ["    r1.xyz = v.xyz;"]);
}

/// A write mask names its components in order, whatever order they were written in, so the
/// source follows.
#[test]
fn a_run_written_out_of_order_still_pairs_up() {
    let out = joined(vec![
        part("r1", vec![1], read("v", vec![2])),
        part("r1", vec![0], read("v", vec![3])),
    ]);
    assert_eq!(out, ["    r1.xy = v.wz;"]);
}

#[test]
fn lanes_differing_in_one_operand_gather_into_a_constructor() {
    let times = |left: Expr, right: Expr| Expr::Binary {
        op: "*",
        left: Box::new(left),
        right: Box::new(right),
    };
    let out = joined(vec![
        part("r1", vec![0], times(read("a", vec![0]), read("c", vec![0]))),
        part("r1", vec![1], times(read("b", vec![0]), read("c", vec![0]))),
        part("r1", vec![2], times(read("d", vec![0]), read("c", vec![0]))),
    ]);
    assert_eq!(out, ["    r1.xyz = float3(a.x, b.x, d.x) * c.x;"]);
}

/// A lane reading the register the run is filling would see what an earlier lane put there, so
/// the run cannot become one assignment.
#[test]
fn a_lane_reading_what_the_run_writes_is_left_alone() {
    let out = joined(vec![
        part("r1", vec![0], read("v", vec![0])),
        part("r1", vec![1], read("r1", vec![0])),
    ]);
    assert_eq!(out, ["    line 0;", "    line 1;"]);
}

/// A constructor lays its arguments out in component order, which is not always the order the
/// components were written in.
#[test]
fn writes_filling_a_register_become_the_value_they_build() {
    let out = joined(vec![
        part("r1", vec![3], read("POSITION", vec![3])),
        part("r1", vec![0, 1, 2], read("POSITION", vec![0, 1, 2])),
    ]);
    assert_eq!(out, ["    r1 = float4(POSITION.xyz, POSITION.w);"]);
}

/// Anything in between ends up after the writes still waiting to join, so a line reading what
/// they have already put in the register would go on to see the whole of it.
#[test]
fn a_read_of_the_register_in_between_stops_it() {
    let out = joined(vec![
        part("r2", vec![0, 1], read("a", vec![0, 1])),
        part("r0", vec![3], read("r2", vec![1])),
        part("r2", vec![2, 3], read("b", vec![0, 1])),
    ]);
    assert_eq!(out, ["    line 0;", "    line 1;", "    line 2;"]);
}

/// What indexes a name is written into it, so a register read there is in the text and nowhere
/// else. Missing one of those is how a value gets moved past the write it was reading.
#[test]
fn a_read_hidden_in_an_index_stops_it_too() {
    let out = joined(vec![
        part("r2", vec![0, 1], read("a", vec![0, 1])),
        part("r0", vec![3], read("table[asint(r2.y)]", vec![1])),
        part("r2", vec![2, 3], read("b", vec![0, 1])),
    ]);
    assert_eq!(out, ["    line 0;", "    line 1;", "    line 2;"]);
}

/// A register whose name merely starts the same is a different register.
#[test]
fn a_longer_name_is_not_the_register_it_begins_with() {
    let out = joined(vec![
        part("r2", vec![0, 1], read("a", vec![0, 1])),
        part("r0", vec![3], read("r2_xy.x", Vec::new())),
        part("r2", vec![2, 3], read("b", vec![0, 1])),
    ]);
    assert_eq!(out, ["    line 1;", "    r2 = float4(a.xy, b.xy);"]);
}

/// One value written to several components is spread over them, which is not what a constructor
/// does with an argument.
#[test]
fn a_value_spread_over_its_components_is_left_alone() {
    let out = joined(vec![
        part(
            "r1",
            vec![0, 1, 2],
            call("dot", vec![read("a", vec![0, 1, 2])], 3),
        ),
        part("r1", vec![3], read("b", vec![0])),
    ]);
    assert_eq!(out, ["    line 0;", "    line 1;"]);
}

#[test]
fn a_row_at_a_time_becomes_one_multiply() {
    let out = folded(vec![
        assignment("o", 0, dot("M", "0", "r1")),
        assignment("o", 1, dot("M", "1", "r1")),
        assignment("o", 2, dot("M", "2", "r1")),
    ]);
    assert_eq!(out, ["    o.xyz = mul(float3x4(M[0], M[1], M[2]), r1);"]);
}

/// The compiler writes the components in whatever order suits it, and the destination simply
/// follows.
#[test]
fn the_rows_keep_the_components_they_landed_in() {
    let out = folded(vec![
        assignment("o", 0, dot("M", "0", "r1")),
        assignment("o", 2, dot("M", "1", "r1")),
        assignment("o", 1, dot("M", "2", "r1")),
    ]);
    assert_eq!(out[0], "    o.xzy = mul(float3x4(M[0], M[1], M[2]), r1);");
}

/// Where the matrix is placed at run time the rows still step by one, and the index rides along.
#[test]
fn a_matrix_found_at_run_time_folds_the_same_way() {
    let out = folded(vec![
        assignment("r2", 0, dot("g_Instancing", "asint(r0.x)", "r1")),
        assignment("r2", 1, dot("g_Instancing", "asint(r0.x) + 1", "r1")),
        assignment("r2", 2, dot("g_Instancing", "asint(r0.x) + 2", "r1")),
    ]);
    assert_eq!(
        out[0],
        "    r2.xyz = mul(float3x4(g_Instancing[asint(r0.x)], \
         g_Instancing[asint(r0.x) + 1], g_Instancing[asint(r0.x) + 2]), r1);"
    );
}

/// The whole point of the guard: each line would read what the one before it wrote, so folding
/// them would have every row see the original vector instead.
#[test]
fn a_vector_the_result_overwrites_is_left_alone() {
    let out = folded(vec![
        assignment("r2", 0, dot("M", "0", "r2")),
        assignment("r2", 1, dot("M", "1", "r2")),
        assignment("r2", 2, dot("M", "2", "r2")),
    ]);
    assert_eq!(out.len(), 3);
}

#[test]
fn rows_that_do_not_step_by_one_are_not_a_matrix() {
    let out = folded(vec![
        assignment("o", 0, dot("M", "0", "r1")),
        assignment("o", 1, dot("M", "2", "r1")),
        assignment("o", 2, dot("M", "4", "r1")),
    ]);
    assert_eq!(out.len(), 3);
}

#[test]
fn two_rows_are_left_as_they_are() {
    let out = folded(vec![
        assignment("o", 0, dot("M", "0", "r1")),
        assignment("o", 1, dot("M", "1", "r1")),
    ]);
    assert_eq!(out.len(), 2);
}

/// A row scaled by one component of a vector, summed over the rows, is a transform.
fn scaled(vector: &str, lane: u8, matrix: &str, index: &str, columns: Vec<u8>) -> Expr {
    Expr::Binary {
        op: "*",
        left: Box::new(read(vector, vec![lane; columns.len().max(1)])),
        right: Box::new(read(&format!("{matrix}[{index}]"), columns)),
    }
}

fn sum(parts: Vec<Expr>) -> Expr {
    parts
        .into_iter()
        .reduce(|left, right| Expr::Binary {
            op: "+",
            left: Box::new(left),
            right: Box::new(right),
        })
        .expect("a sum of something")
}

fn matrixed() -> Names {
    let mut names = Names::default();
    names.constants.insert(
        0,
        Buffer::new(
            "g_B".to_owned(),
            vec![Field {
                name: "m_M".to_owned(),
                kind: "float4x4".to_owned(),
                register: 0,
                registers: 4,
                mask: 0xF,
            }],
        ),
    );
    names
}

fn transformed(names: &Names, parts: Vec<Expr>) -> String {
    transform(names, sum(parts)).text()
}

/// The machine has no instruction for a transform, so it arrives as each row scaled by the
/// component that picks it out.
#[test]
fn rows_scaled_by_a_vector_are_the_multiply_they_make() {
    let out = transformed(
        &Names::default(),
        vec![
            scaled("v", 0, "M", "0", Vec::new()),
            scaled("v", 1, "M", "1", Vec::new()),
            scaled("v", 2, "M", "2", Vec::new()),
        ],
    );
    assert_eq!(out, "mul(v.xyz, float3x4(M[0], M[1], M[2]))");
}

/// The rows arrive in whatever order suited the compiler, and the multiply takes them in the
/// order the matrix has them.
#[test]
fn the_rows_go_in_the_order_the_matrix_has_them() {
    let out = transformed(
        &Names::default(),
        vec![
            scaled("v", 2, "M", "2", Vec::new()),
            scaled("v", 0, "M", "0", Vec::new()),
            scaled("v", 1, "M", "1", Vec::new()),
        ],
    );
    assert_eq!(out, "mul(v.xyz, float3x4(M[0], M[1], M[2]))");
}

/// A whole declared matrix can be named, which is what says the transform is that matrix rather
/// than four rows that happen to sit together. The row it starts at is the matrix's first, not
/// whichever one the compiler wrote first.
#[test]
fn a_whole_declared_matrix_is_named() {
    let out = transformed(
        &matrixed(),
        [3, 2, 0, 1]
            .map(|lane| scaled("v", lane, "g_B.m_M", &lane.to_string(), Vec::new()))
            .to_vec(),
    );
    assert_eq!(out, "mul(v, g_B.m_M)");
}

/// What the sum holds besides the rows is the translation of an affine transform, and it is
/// added to the multiply the same way it was added to the rows.
#[test]
fn what_is_not_a_row_is_added_back() {
    let out = transformed(
        &Names::default(),
        vec![
            scaled("v", 0, "M", "0", vec![0, 1, 2]),
            scaled("v", 1, "M", "1", vec![0, 1, 2]),
            scaled("v", 2, "M", "2", vec![0, 1, 2]),
            read("M[3]", vec![0, 1, 2]),
        ],
    );
    assert_eq!(
        out,
        "mul(v.xyz, float3x3(M[0].xyz, M[1].xyz, M[2].xyz)) + M[3].xyz"
    );
}

/// The components of the vector need not have stayed together, and gathering them is what says
/// they were one value.
#[test]
fn weights_kept_apart_are_gathered_into_the_vector() {
    let out = transformed(
        &Names::default(),
        vec![
            scaled("r1", 3, "M", "0", Vec::new()),
            scaled("r2", 3, "M", "1", Vec::new()),
            scaled("r0", 0, "M", "2", Vec::new()),
        ],
    );
    assert_eq!(
        out,
        "mul(float3(r1.w, r2.w, r0.x), float3x4(M[0], M[1], M[2]))"
    );
}

/// Rows of two different matrices are two multiplies standing side by side, and neither is
/// long enough to be one.
#[test]
fn rows_of_different_matrices_are_not_one_multiply() {
    let parts = vec![
        scaled("v", 0, "M", "0", Vec::new()),
        scaled("v", 1, "N", "1", Vec::new()),
        scaled("v", 2, "M", "2", Vec::new()),
    ];
    let text = sum(parts.clone()).text();
    assert_eq!(transformed(&Names::default(), parts), text);
}

/// A dot product against part of a row is a narrower matrix, not a different kind of thing: a
/// transform that leaves the translation alone comes back this way.
#[test]
fn rows_taken_in_part_are_a_narrower_matrix() {
    let narrow = |index: &str| {
        call(
            "dot",
            vec![
                Expr::Read {
                    base: format!("(M[{index}])"),
                    swizzle: vec![0, 1, 2],
                },
                read("r1", vec![1, 2, 3]),
            ],
            1,
        )
    };
    let out = folded(vec![
        assignment("r0", 0, narrow("0")),
        assignment("r0", 1, narrow("1")),
        assignment("r0", 2, narrow("2")),
    ]);
    assert_eq!(
        out,
        ["    r0.xyz = mul(float3x3((M[0]).xyz, (M[1]).xyz, (M[2]).xyz), r1.yzw);"]
    );
}

/// Rows taken different ways are not one matrix, whatever else they have in common.
#[test]
fn rows_taken_differently_are_not_one_matrix() {
    let taken = |index: &str, swizzle: Vec<u8>| {
        call(
            "dot",
            vec![
                Expr::Read {
                    base: format!("(M[{index}])"),
                    swizzle,
                },
                read("r1", vec![1, 2, 3]),
            ],
            1,
        )
    };
    let out = folded(vec![
        assignment("r0", 0, taken("0", vec![0, 1, 2])),
        assignment("r0", 1, taken("1", vec![0, 1])),
        assignment("r0", 2, taken("2", vec![0, 1, 2])),
    ]);
    assert_eq!(out.len(), 3);
}

/// A matrix made of rows taken from their second component on is made of just those components.
#[test]
fn rows_keep_the_components_they_were_taken_from() {
    let taken = |index: &str| {
        call(
            "dot",
            vec![
                Expr::Read {
                    base: format!("(M[{index}])"),
                    swizzle: vec![1, 2, 3],
                },
                read("r1", vec![0, 1, 2]),
            ],
            1,
        )
    };
    let out = folded(vec![
        assignment("r0", 0, taken("0")),
        assignment("r0", 1, taken("1")),
        assignment("r0", 2, taken("2")),
    ]);
    assert_eq!(
        out,
        ["    r0.xyz = mul(float3x3((M[0]).yzw, (M[1]).yzw, (M[2]).yzw), r1.xyz);"]
    );
}

/// The elements of an array of matrices are not the rows of one, while the rows of an element are.
#[test]
fn an_array_of_matrices_is_no_matrix() {
    let mut names = Names::default();
    names.constants.insert(
        0,
        Buffer::new(
            "g_B".to_owned(),
            vec![Field {
                name: "m_A".to_owned(),
                kind: "float4x4[4]".to_owned(),
                register: 0,
                registers: 16,
                mask: 0xF,
            }],
        ),
    );
    let of = |matrix: &str| {
        transformed(
            &names,
            [0, 1, 2, 3]
                .map(|lane| scaled("v", lane, matrix, &lane.to_string(), Vec::new()))
                .to_vec(),
        )
    };
    assert_eq!(
        of("g_B.m_A"),
        "mul(v, float4x4(g_B.m_A[0], g_B.m_A[1], g_B.m_A[2], g_B.m_A[3]))"
    );
    assert_eq!(of("g_B.m_A[1]"), "mul(v, g_B.m_A[1])");
}

/// Lines that nothing is known of stay behind those that something is.
#[test]
fn lines_without_a_record_are_left_alone() {
    let lines = vec![
        assignment("o", 0, dot("M", "0", "r1")),
        assignment("o", 1, dot("M", "1", "r1")),
        assignment("o", 2, dot("M", "2", "r1")),
    ];
    let mut out: Vec<String> = ["a", "b", "c", "d"].map(str::to_owned).to_vec();
    let records = fold(&Names::default(), &mut out, &lines);
    assert_eq!(out, ["    o.xyz = mul(float3x4(M[0], M[1], M[2]), r1);", "d"]);
    assert_eq!(records.len(), 1);
    let lines = vec![
        part("r1", vec![0], read("v", vec![0])),
        part("r1", vec![1], read("v", vec![1])),
    ];
    let mut out: Vec<String> = ["a", "b", "c"].map(str::to_owned).to_vec();
    coalesce(&mut out, &lines);
    assert_eq!(out, ["    r1.xy = v.xy;", "c"]);
}
