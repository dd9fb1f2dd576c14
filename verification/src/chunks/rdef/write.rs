//! Writing an RDEF chunk.
//!
//! Behind the header stand the resource bindings, the constant buffers, their variables, the types of the
//! variables with those of their members, the members, the default values and the strings.
use super::parse::{is_sm5, variable_stride};
use super::{
    binding_models, buffer_models, variable_models, BindingModel, BufferModel, CBufferDef, CBufferVariable, MemberModel,
    RdefModel, ResourceBinding, ResourceDef, TypeDesc, TypeModel, VariableModel, SLOT_UNUSED,
};
use crate::bytes::{flat, push_all, push_words};
use crate::util::{
    added_all, lemma_listed_place, place, StringTable,
    StringTableWriter,
};
use vstd::prelude::*;

verus! {

/// The variables of the first buffers, in order.
pub open spec fn all_variables(buffers: Seq<BufferModel>, n: int) -> Seq<VariableModel>
    decreases n,
{
    if n <= 0 {
        Seq::empty()
    } else {
        all_variables(buffers, n - 1) + buffers[n - 1].variables
    }
}

/// A type and, behind it, the types of its members with all that is below them.
pub open spec fn preorder(t: TypeModel) -> Seq<TypeModel>
    decreases t, 0int,
{
    seq![t] + preorder_members(t.members, t.members.len() as int)
}

/// The types of the first members with all that is below them.
pub open spec fn preorder_members(members: Seq<MemberModel>, n: int) -> Seq<TypeModel>
    decreases members, n,
{
    if n <= 0 || n > members.len() {
        Seq::empty()
    } else {
        preorder_members(members, n - 1) + preorder(members[n - 1].member_type)
    }
}

/// The types of the first variables with all that is below them.
pub open spec fn all_types(variables: Seq<VariableModel>, n: int) -> Seq<TypeModel>
    decreases n,
{
    if n <= 0 {
        Seq::empty()
    } else {
        all_types(variables, n - 1) + preorder(variables[n - 1].var_type)
    }
}

/// The default values of the first variables.
pub open spec fn all_defaults(variables: Seq<VariableModel>, n: int) -> Seq<u8>
    decreases n,
{
    if n <= 0 {
        Seq::empty()
    } else {
        all_defaults(variables, n - 1) + variables[n - 1].default_value
    }
}

/// How many members the first types have.
pub open spec fn members_before(types: Seq<TypeModel>, n: int) -> nat
    decreases n,
{
    if n <= 0 {
        0
    } else {
        members_before(types, n - 1) + types[n - 1].members.len()
    }
}

/// The names of the bindings.
pub open spec fn binding_names(bindings: Seq<BindingModel>) -> Seq<Seq<char>> {
    Seq::new(bindings.len(), |i: int| bindings[i].name)
}

/// The names of the first buffers, each with those of its variables behind it.
pub open spec fn buffer_names(buffers: Seq<BufferModel>, n: int) -> Seq<Seq<char>>
    decreases n,
{
    if n <= 0 {
        Seq::empty()
    } else {
        buffer_names(buffers, n - 1).push(buffers[n - 1].name) + variable_names(buffers[n - 1].variables)
    }
}

/// The names of the variables.
pub open spec fn variable_names(variables: Seq<VariableModel>) -> Seq<Seq<char>> {
    Seq::new(variables.len(), |i: int| variables[i].name)
}

/// The names of the members.
pub open spec fn member_names(members: Seq<MemberModel>) -> Seq<Seq<char>> {
    Seq::new(members.len(), |i: int| members[i].name)
}

/// The name of a type, where it has one.
pub open spec fn own_name(t: TypeModel) -> Seq<Seq<char>> {
    if t.name.len() == 0 {
        Seq::empty()
    } else {
        seq![t.name]
    }
}

/// The names of the first types, each with those of its members behind it.
pub open spec fn type_names(types: Seq<TypeModel>, n: int) -> Seq<Seq<char>>
    decreases n,
{
    if n <= 0 {
        Seq::empty()
    } else {
        type_names(types, n - 1) + own_name(types[n - 1]) + member_names(types[n - 1].members)
    }
}

/// How many bytes a type takes.
pub open spec fn type_stride(sm5: bool) -> nat {
    if sm5 {
        36
    } else {
        16
    }
}

/// Where the sections stand.
pub struct Plan {
    pub sm5: bool,
    pub bindings: nat,
    pub buffers: nat,
    pub variables: nat,
    pub types: nat,
    pub members: nat,
    pub defaults: nat,
    pub table: StringTable,
}

impl RdefModel {
    /// The variables of all buffers.
    pub open spec fn variables(self) -> Seq<VariableModel> {
        all_variables(self.constant_buffers, self.constant_buffers.len() as int)
    }

    /// The types of all variables with all that is below them.
    pub open spec fn types(self) -> Seq<TypeModel> {
        all_types(self.variables(), self.variables().len() as int)
    }

    /// The default values of all variables.
    pub open spec fn defaults(self) -> Seq<u8> {
        all_defaults(self.variables(), self.variables().len() as int)
    }

    /// The strings, in the order in which they are added to the table.
    pub open spec fn strings(self) -> Seq<Seq<char>> {
        seq![self.creator] + binding_names(self.bindings) + buffer_names(
            self.constant_buffers,
            self.constant_buffers.len() as int,
        ) + type_names(self.types(), self.types().len() as int)
    }

    /// Where the bindings stand.
    pub open spec fn bindings_at(self) -> nat {
        if self.rd11_extra is Some {
            60
        } else {
            28
        }
    }

    /// Where the sections stand.
    pub open spec fn plan(self) -> Plan {
        let sm5 = is_sm5(self.target_version);
        let bindings = self.bindings_at();
        let buffers = bindings + 32 * self.bindings.len();
        let variables = buffers + 24 * self.constant_buffers.len();
        let types = variables + variable_stride(sm5) * self.variables().len();
        let members = types + type_stride(sm5) * self.types().len();
        let defaults = members + 12 * members_before(self.types(), self.types().len() as int);
        let strings = defaults + self.defaults().len();
        Plan {
            sm5,
            bindings,
            buffers,
            variables,
            types,
            members,
            defaults,
            table: added_all(StringTable::empty(strings), self.strings()),
        }
    }

    /// Where the strings stand.
    pub open spec fn strings_at(self) -> nat {
        self.plan().defaults + self.defaults().len()
    }
}

/// The words of the header.
pub open spec fn header_words(r: RdefModel, p: Plan) -> Seq<u32> {
    seq![
        r.constant_buffers.len() as u32,
        p.buffers as u32,
        r.bindings.len() as u32,
        p.bindings as u32,
        r.target_version,
        r.compile_flags,
        p.table.offset_of(r.creator) as u32,
    ]
}

/// The words behind the header.
pub open spec fn rd11_words(extra: Option<[u32; 8]>) -> Seq<u32> {
    match extra {
        Some(words) => words@,
        None => Seq::empty(),
    }
}

/// The words of a binding.
pub open spec fn binding_words(b: BindingModel, table: StringTable) -> Seq<u32> {
    seq![
        table.offset_of(b.name) as u32,
        b.input_type,
        b.return_type,
        b.dimension,
        b.num_samples,
        b.bind_point,
        b.bind_count,
        b.flags,
    ]
}

/// The words of the first bindings.
pub open spec fn bindings_words(bindings: Seq<BindingModel>, n: int, table: StringTable) -> Seq<u32>
    decreases n,
{
    if n <= 0 {
        Seq::empty()
    } else {
        bindings_words(bindings, n - 1, table) + binding_words(bindings[n - 1], table)
    }
}

/// The words of a buffer whose variables stand at a place.
pub open spec fn buffer_words(b: BufferModel, at: nat, table: StringTable) -> Seq<u32> {
    seq![
        table.offset_of(b.name) as u32,
        b.variables.len() as u32,
        at as u32,
        b.size,
        b.flags,
        b.cb_type,
    ]
}

/// The words of the first buffers.
pub open spec fn buffers_words(buffers: Seq<BufferModel>, n: int, p: Plan) -> Seq<u32>
    decreases n,
{
    if n <= 0 {
        Seq::empty()
    } else {
        buffers_words(buffers, n - 1, p) + buffer_words(
            buffers[n - 1],
            p.variables + variable_stride(p.sm5) * all_variables(buffers, n - 1).len(),
            p.table,
        )
    }
}

/// A word that stands for one that may be missing.
pub open spec fn word_or(v: Option<u32>, other: u32) -> u32 {
    match v {
        Some(v) => v,
        None => other,
    }
}

/// The words of a variable whose type and default value stand at given places.
pub open spec fn variable_words(v: VariableModel, type_at: nat, default_at: nat, p: Plan) -> Seq<u32> {
    seq![
        p.table.offset_of(v.name) as u32,
        v.offset,
        v.size,
        v.flags,
        type_at as u32,
        if v.default_value.len() == 0 {
            0u32
        } else {
            default_at as u32
        },
    ] + (if p.sm5 {
        seq![
            word_or(v.texture_start, SLOT_UNUSED),
            word_or(v.texture_size, 0),
            word_or(v.sampler_start, SLOT_UNUSED),
            word_or(v.sampler_size, 0),
        ]
    } else {
        Seq::empty()
    })
}

/// The words of the first variables.
pub open spec fn variables_words(variables: Seq<VariableModel>, n: int, p: Plan) -> Seq<u32>
    decreases n,
{
    if n <= 0 {
        Seq::empty()
    } else {
        variables_words(variables, n - 1, p) + variable_words(
            variables[n - 1],
            p.types + type_stride(p.sm5) * all_types(variables, n - 1).len(),
            p.defaults + all_defaults(variables, n - 1).len(),
            p,
        )
    }
}

/// The words that shader model five states of a type.
pub open spec fn extra_words(t: TypeModel, table: StringTable) -> Seq<u32> {
    (match t.sm5_extra {
        Some(extra) => extra@,
        None => seq![0u32, 0, 0, 0],
    }).push(
        if t.name.len() == 0 {
            0
        } else {
            table.offset_of(t.name) as u32
        },
    )
}

/// The words of a type whose members stand at a place.
pub open spec fn type_words(t: TypeModel, at: nat, p: Plan) -> Seq<u32> {
    seq![
        (t.class + t.var_type * 65536) as u32,
        (t.rows + t.columns * 65536) as u32,
        (t.elements + (t.members.len() % 65536) * 65536) as u32,
        if t.members.len() == 0 {
            0u32
        } else {
            at as u32
        },
    ] + (if p.sm5 {
        extra_words(t, p.table)
    } else {
        Seq::empty()
    })
}

/// The words of the first types.
pub open spec fn types_words(types: Seq<TypeModel>, n: int, p: Plan) -> Seq<u32>
    decreases n,
{
    if n <= 0 {
        Seq::empty()
    } else {
        types_words(types, n - 1, p) + type_words(types[n - 1], p.members + 12 * members_before(types, n - 1), p)
    }
}

/// The words of the first members of the type with an index, whose own types stand behind it.
pub open spec fn member_words(members: Seq<MemberModel>, n: int, index: nat, p: Plan) -> Seq<u32>
    decreases n,
{
    if n <= 0 {
        Seq::empty()
    } else {
        member_words(members, n - 1, index, p) + seq![
            p.table.offset_of(members[n - 1].name) as u32,
            (p.types + type_stride(p.sm5) * (index + 1 + preorder_members(members, n - 1).len())) as u32,
            members[n - 1].offset,
        ]
    }
}

/// The words of the members of the first types.
pub open spec fn members_words(types: Seq<TypeModel>, n: int, p: Plan) -> Seq<u32>
    decreases n,
{
    if n <= 0 {
        Seq::empty()
    } else {
        members_words(types, n - 1, p) + member_words(
            types[n - 1].members,
            types[n - 1].members.len() as int,
            (n - 1) as nat,
            p,
        )
    }
}

/// The words of the payload.
pub open spec fn rdef_words(r: RdefModel) -> Seq<u32> {
    let p = r.plan();
    header_words(r, p) + rd11_words(r.rd11_extra) + bindings_words(r.bindings, r.bindings.len() as int, p.table)
        + buffers_words(r.constant_buffers, r.constant_buffers.len() as int, p) + variables_words(
        r.variables(),
        r.variables().len() as int,
        p,
    ) + types_words(r.types(), r.types().len() as int, p) + members_words(r.types(), r.types().len() as int, p)
}

/// The payload of the chunk.
pub open spec fn rdef_payload(r: RdefModel) -> Seq<u8> {
    flat(rdef_words(r)) + r.defaults() + r.plan().table.buf
}

/// The string is in the table.
pub open spec fn held(table: StringTable, s: Seq<char>) -> bool {
    place(table.entries, s) is Some
}

/// The name of a type and those of its members are in the table.
pub open spec fn type_held(table: StringTable, t: TypeModel) -> bool {
    &&& t.name.len() > 0 ==> held(table, t.name)
    &&& forall|k: int| 0 <= k < t.members.len() ==> held(table, (#[trigger] t.members[k]).name)
}

/// What each type of a list holds.
pub open spec fn type_models(types: Seq<&TypeDesc>) -> Seq<TypeModel> {
    Seq::new(types.len(), |i: int| types[i]@)
}

/// What each variable of a list of references holds.
pub open spec fn referred(variables: Seq<&CBufferVariable>) -> Seq<VariableModel> {
    Seq::new(variables.len(), |i: int| variables[i]@)
}

/// What each string of a list of references holds.
pub open spec fn str_views(list: Seq<&str>) -> Seq<Seq<char>> {
    Seq::new(list.len(), |i: int| list[i]@)
}

/// Add the strings of a list to a table.
fn table_of(base: usize, list: &Vec<&str>) -> (r: StringTableWriter)
    ensures
        r@ == added_all(StringTable::empty(base as nat), str_views(list@)),
        r@.wf(),
{
    let ghost all = str_views(list@);
    let ghost start = StringTable::empty(base as nat);
    let mut table = StringTableWriter::new(base);
    let mut i: usize = 0;
    proof {
        assert(all.take(0) =~= Seq::empty());
    }
    while i < list.len()
        invariant
            i <= list@.len(),
            all == str_views(list@),
            start == StringTable::empty(base as nat),
            table@ == added_all(start, all.take(i as int)),
            table@.wf(),
        decreases list@.len() - i,
    {
        proof {
            assert(all.take(i + 1).drop_last() =~= all.take(i as int));
        }
        table.add(list[i]);
        i = i + 1;
    }
    proof {
        assert(all.take(i as int) =~= all);
    }
    table
}

/// Append a type and all that is below it.
fn collect_type<'a>(t: &'a TypeDesc, out: &mut Vec<&'a TypeDesc>)
    ensures
        type_models(final(out)@) == type_models(old(out)@) + preorder(t@),
    decreases t,
{
    let ghost before = type_models(out@);
    out.push(t);
    proof {
        assert(type_models(out@) =~= before + seq![t@]);
    }
    collect_members(t, out);
    proof {
        assert(before + seq![t@] + preorder_members(t@.members, t@.members.len() as int) =~= before + preorder(t@));
    }
}

/// Append the types of a type's members and all that is below them.
fn collect_members<'a>(t: &'a TypeDesc, out: &mut Vec<&'a TypeDesc>)
    ensures
        type_models(final(out)@) == type_models(old(out)@) + preorder_members(t@.members, t@.members.len() as int),
    decreases t.members,
{
    let ghost before = type_models(out@);
    let mut k: usize = 0;
    proof {
        assert(type_models(out@) =~= before + preorder_members(t@.members, 0));
    }
    while k < t.members.len()
        invariant
            k <= t.members@.len(),
            type_models(out@) == before + preorder_members(t@.members, k as int),
        decreases t.members@.len() - k,
    {
        collect_type(&t.members[k].member_type, out);
        proof {
            assert(t@.members[k as int].member_type == t.members@[k as int].member_type@);
            assert(type_models(out@) =~= before + preorder_members(t@.members, k + 1));
        }
        k = k + 1;
    }
}

/// The variables of all buffers, and how many stand before each buffer's.
fn collect_variables<'a>(buffers: &'a Vec<CBufferDef>) -> (r: (Vec<&'a CBufferVariable>, Vec<usize>))
    ensures
        referred(r.0@) == all_variables(buffer_models(buffers@), buffers@.len() as int),
        r.1@.len() == buffers@.len(),
        forall|i: int|
            0 <= i < buffers@.len() ==> #[trigger] r.1@[i] == all_variables(buffer_models(buffers@), i).len(),
{
    let ghost models = buffer_models(buffers@);
    let mut out: Vec<&'a CBufferVariable> = Vec::new();
    let mut starts: Vec<usize> = Vec::new();
    let mut i: usize = 0;
    proof {
        assert(referred(out@) =~= all_variables(models, 0));
    }
    while i < buffers.len()
        invariant
            i <= buffers@.len(),
            models == buffer_models(buffers@),
            referred(out@) == all_variables(models, i as int),
            starts@.len() == i,
            forall|j: int| 0 <= j < i ==> #[trigger] starts@[j] == all_variables(models, j).len(),
        decreases buffers@.len() - i,
    {
        proof {
            assert(out@.len() == referred(out@).len());
        }
        starts.push(out.len());
        let buffer = &buffers[i];
        let ghost before = referred(out@);
        let ghost own = variable_models(buffer.variables@);
        let mut k: usize = 0;
        proof {
            assert(referred(out@) =~= before + own.take(0));
        }
        while k < buffer.variables.len()
            invariant
                k <= buffer.variables@.len(),
                own == variable_models(buffer.variables@),
                referred(out@) == before + own.take(k as int),
            decreases buffer.variables@.len() - k,
        {
            out.push(&buffer.variables[k]);
            proof {
                assert(referred(out@) =~= before + own.take(k + 1)) by {
                    assert(own.take(k + 1) =~= own.take(k as int).push(own[k as int]));
                    assert(referred(out@) =~= (before + own.take(k as int)).push(own[k as int]));
                }
            }
            k = k + 1;
        }
        proof {
            assert(own.take(k as int) =~= own);
            assert(models[i as int].variables == own);
        }
        i = i + 1;
    }
    (out, starts)
}

/// The types of all variables with all that is below them, and how many stand before each variable's.
fn collect_types<'a>(variables: &Vec<&'a CBufferVariable>) -> (r: (Vec<&'a TypeDesc>, Vec<usize>))
    ensures
        type_models(r.0@) == all_types(referred(variables@), variables@.len() as int),
        r.1@.len() == variables@.len(),
        forall|i: int|
            0 <= i < variables@.len() ==> #[trigger] r.1@[i] == all_types(referred(variables@), i).len(),
{
    let ghost models = referred(variables@);
    let mut out: Vec<&'a TypeDesc> = Vec::new();
    let mut starts: Vec<usize> = Vec::new();
    let mut i: usize = 0;
    proof {
        assert(type_models(out@) =~= all_types(models, 0));
    }
    while i < variables.len()
        invariant
            i <= variables@.len(),
            models == referred(variables@),
            type_models(out@) == all_types(models, i as int),
            starts@.len() == i,
            forall|j: int| 0 <= j < i ==> #[trigger] starts@[j] == all_types(models, j).len(),
        decreases variables@.len() - i,
    {
        proof {
            assert(out@.len() == type_models(out@).len());
        }
        starts.push(out.len());
        collect_type(&variables[i].var_type, &mut out);
        i = i + 1;
    }
    (out, starts)
}

/// The default values of all variables, and how many bytes stand before each variable's.
fn collect_defaults(variables: &Vec<&CBufferVariable>) -> (r: (Vec<u8>, Vec<usize>))
    ensures
        r.0@ == all_defaults(referred(variables@), variables@.len() as int),
        r.1@.len() == variables@.len(),
        forall|i: int|
            0 <= i < variables@.len() ==> #[trigger] r.1@[i] == all_defaults(referred(variables@), i).len(),
{
    let ghost models = referred(variables@);
    let mut out: Vec<u8> = Vec::new();
    let mut starts: Vec<usize> = Vec::new();
    let mut i: usize = 0;
    while i < variables.len()
        invariant
            i <= variables@.len(),
            models == referred(variables@),
            out@ == all_defaults(models, i as int),
            starts@.len() == i,
            forall|j: int| 0 <= j < i ==> #[trigger] starts@[j] == all_defaults(models, j).len(),
        decreases variables@.len() - i,
    {
        starts.push(out.len());
        push_all(&mut out, variables[i].default_value.as_slice());
        i = i + 1;
    }
    (out, starts)
}

/// How many members all types have, and how many of them stand before each type's.
fn count_members(types: &Vec<&TypeDesc>) -> (r: (usize, Vec<usize>))
    ensures
        r.0 == members_before(type_models(types@), types@.len() as int),
        r.1@.len() == types@.len(),
        forall|i: int| 0 <= i < types@.len() ==> #[trigger] r.1@[i] == members_before(type_models(types@), i),
{
    let ghost models = type_models(types@);
    let mut all: Vec<()> = Vec::new();
    let mut starts: Vec<usize> = Vec::new();
    let mut i: usize = 0;
    while i < types.len()
        invariant
            i <= types@.len(),
            models == type_models(types@),
            all@.len() == members_before(models, i as int),
            starts@.len() == i,
            forall|j: int| 0 <= j < i ==> #[trigger] starts@[j] == members_before(models, j),
        decreases types@.len() - i,
    {
        starts.push(all.len());
        let count: usize = types[i].members.len();
        proof {
            assert(models[i as int].members.len() == count);
        }
        let ghost before = all@.len();
        let mut k: usize = 0;
        while k < count
            invariant
                k <= count,
                all@.len() == before + k,
            decreases count - k,
        {
            all.push(());
            k = k + 1;
        }
        i = i + 1;
    }
    (all.len(), starts)
}

/// The strings of the chunk, in the order in which they are added to the table.
fn collect_strings<'a>(r: &'a ResourceDef, types: &Vec<&'a TypeDesc>) -> (list: Vec<&'a str>)
    requires
        type_models(types@) == r@.types(),
    ensures
        str_views(list@) == r@.strings(),
{
    let ghost models = type_models(types@);
    let ghost bindings = r@.bindings;
    let ghost buffers = r@.constant_buffers;
    let mut list: Vec<&'a str> = Vec::new();
    list.push(r.creator.as_str());
    let ghost first = seq![r@.creator];
    let mut i: usize = 0;
    proof {
        assert(str_views(list@) =~= first + binding_names(bindings).take(0));
    }
    while i < r.bindings.len()
        invariant
            i <= r.bindings@.len(),
            bindings == binding_models(r.bindings@),
            str_views(list@) == first + binding_names(bindings).take(i as int),
        decreases r.bindings@.len() - i,
    {
        list.push(r.bindings[i].name.as_str());
        proof {
            let names = binding_names(bindings);
            assert(names.take(i + 1) =~= names.take(i as int).push(names[i as int]));
            assert(str_views(list@) =~= (first + names.take(i as int)).push(names[i as int]));
            assert(str_views(list@) =~= first + names.take(i + 1));
        }
        i = i + 1;
    }
    let ghost second = first + binding_names(bindings);
    proof {
        assert(binding_names(bindings).take(i as int) =~= binding_names(bindings));
        assert(str_views(list@) =~= second + buffer_names(buffers, 0));
    }
    let mut i: usize = 0;
    while i < r.constant_buffers.len()
        invariant
            i <= r.constant_buffers@.len(),
            buffers == buffer_models(r.constant_buffers@),
            str_views(list@) == second + buffer_names(buffers, i as int),
        decreases r.constant_buffers@.len() - i,
    {
        let buffer = &r.constant_buffers[i];
        let ghost before = str_views(list@);
        list.push(buffer.name.as_str());
        let ghost third = second + buffer_names(buffers, i as int).push(buffer@.name);
        let ghost names = variable_names(buffer@.variables);
        proof {
            assert(str_views(list@) =~= before.push(buffer@.name));
            assert(third =~= before.push(buffer@.name));
            assert(names.take(0) =~= Seq::empty());
            assert(str_views(list@) =~= third + names.take(0));
        }
        let mut k: usize = 0;
        while k < buffer.variables.len()
            invariant
                k <= buffer.variables@.len(),
                names == variable_names(variable_models(buffer.variables@)),
                str_views(list@) == third + names.take(k as int),
            decreases buffer.variables@.len() - k,
        {
            list.push(buffer.variables[k].name.as_str());
            proof {
                assert(names.take(k + 1) =~= names.take(k as int).push(names[k as int]));
                assert(str_views(list@) =~= (third + names.take(k as int)).push(names[k as int]));
                assert(str_views(list@) =~= third + names.take(k + 1));
            }
            k = k + 1;
        }
        proof {
            assert(names.take(k as int) =~= names);
            assert(str_views(list@) =~= second + buffer_names(buffers, i + 1));
        }
        i = i + 1;
    }
    let ghost third = second + buffer_names(buffers, i as int);
    proof {
        assert(str_views(list@) =~= third + type_names(models, 0));
    }
    let mut i: usize = 0;
    while i < types.len()
        invariant
            i <= types@.len(),
            models == type_models(types@),
            str_views(list@) == third + type_names(models, i as int),
        decreases types@.len() - i,
    {
        let t = types[i];
        let ghost fourth = third + type_names(models, i as int) + own_name(t@);
        if t.name.as_str().unicode_len() != 0 {
            list.push(t.name.as_str());
        }
        let ghost names = member_names(t@.members);
        proof {
            assert(str_views(list@) =~= fourth + names.take(0));
        }
        let mut k: usize = 0;
        while k < t.members.len()
            invariant
                k <= t.members@.len(),
                names == member_names(t@.members),
                names.len() == t.members@.len(),
                str_views(list@) == fourth + names.take(k as int),
            decreases t.members@.len() - k,
        {
            list.push(t.members[k].name.as_str());
            proof {
                assert(names[k as int] == t.members@[k as int].name@);
                assert(names.take(k + 1) =~= names.take(k as int).push(names[k as int]));
                assert(str_views(list@) =~= (fourth + names.take(k as int)).push(names[k as int]));
                assert(str_views(list@) =~= fourth + names.take(k + 1));
            }
            k = k + 1;
        }
        proof {
            assert(names.take(k as int) =~= names);
            assert(models[i as int] == t@);
            assert(str_views(list@) =~= third + type_names(models, i + 1));
        }
        i = i + 1;
    }
    list
}

proof fn lemma_contains_joined(a: Seq<Seq<char>>, b: Seq<Seq<char>>, s: Seq<char>)
    requires
        a.contains(s) || b.contains(s),
    ensures
        (a + b).contains(s),
{
    if a.contains(s) {
        let i = choose|i: int| 0 <= i < a.len() && a[i] == s;
        assert((a + b)[i] == s);
    } else {
        let i = choose|i: int| 0 <= i < b.len() && b[i] == s;
        assert((a + b)[a.len() + i] == s);
    }
}

proof fn lemma_buffer_listed(buffers: Seq<BufferModel>, n: int, i: int)
    requires
        0 <= i < n <= buffers.len(),
    ensures
        buffer_names(buffers, n).contains(buffers[i].name),
    decreases n,
{
    let before = buffer_names(buffers, n - 1);
    let own = variable_names(buffers[n - 1].variables);
    if i < n - 1 {
        lemma_buffer_listed(buffers, n - 1, i);
        let j = choose|j: int| 0 <= j < before.len() && before[j] == buffers[i].name;
        assert(before.push(buffers[n - 1].name)[j] == buffers[i].name);
    } else {
        assert(before.push(buffers[n - 1].name)[before.len() as int] == buffers[i].name);
    }
    lemma_contains_joined(before.push(buffers[n - 1].name), own, buffers[i].name);
}

proof fn lemma_variable_listed(buffers: Seq<BufferModel>, n: int, j: int)
    requires
        0 <= n <= buffers.len(),
        0 <= j < all_variables(buffers, n).len(),
    ensures
        buffer_names(buffers, n).contains(all_variables(buffers, n)[j].name),
    decreases n,
{
    let before = buffer_names(buffers, n - 1);
    let own = variable_names(buffers[n - 1].variables);
    let count = all_variables(buffers, n - 1).len();
    let name = all_variables(buffers, n)[j].name;
    if j < count {
        lemma_variable_listed(buffers, n - 1, j);
        let k = choose|k: int| 0 <= k < before.len() && before[k] == name;
        assert(before.push(buffers[n - 1].name)[k] == name);
    } else {
        assert(own[j - count] == name);
    }
    lemma_contains_joined(before.push(buffers[n - 1].name), own, name);
}

proof fn lemma_type_listed(types: Seq<TypeModel>, n: int, i: int)
    requires
        0 <= i < n <= types.len(),
    ensures
        types[i].name.len() > 0 ==> type_names(types, n).contains(types[i].name),
        forall|k: int|
            0 <= k < types[i].members.len() ==> type_names(types, n).contains((#[trigger] types[i].members[k]).name),
    decreases n,
{
    let before = type_names(types, n - 1);
    let own = own_name(types[n - 1]);
    let names = member_names(types[n - 1].members);
    if i < n - 1 {
        lemma_type_listed(types, n - 1, i);
    }
    if types[i].name.len() > 0 {
        let name = types[i].name;
        if i == n - 1 {
            assert(own[0] == name);
        }
        lemma_contains_joined(before, own, name);
        lemma_contains_joined(before + own, names, name);
    }
    assert forall|k: int| 0 <= k < types[i].members.len() implies type_names(types, n).contains(
        (#[trigger] types[i].members[k]).name,
    ) by {
        let name = types[i].members[k].name;
        if i == n - 1 {
            assert(names[k] == name);
        } else {
            lemma_contains_joined(before, own, name);
        }
        lemma_contains_joined(before + own, names, name);
    }
}

/// Every name that the payload refers to is in the table.
pub proof fn lemma_all_held(r: RdefModel)
    ensures
        held(r.plan().table, r.creator),
        forall|i: int| 0 <= i < r.bindings.len() ==> held(r.plan().table, (#[trigger] r.bindings[i]).name),
        forall|i: int|
            0 <= i < r.constant_buffers.len() ==> held(r.plan().table, (#[trigger] r.constant_buffers[i]).name),
        forall|i: int| 0 <= i < r.variables().len() ==> held(r.plan().table, (#[trigger] r.variables()[i]).name),
        forall|i: int| 0 <= i < r.types().len() ==> type_held(r.plan().table, #[trigger] r.types()[i]),
{
    let start = StringTable::empty(r.plan().defaults + r.defaults().len());
    let first = seq![r.creator];
    let second = binding_names(r.bindings);
    let third = buffer_names(r.constant_buffers, r.constant_buffers.len() as int);
    let fourth = type_names(r.types(), r.types().len() as int);
    let all = r.strings();
    assert(all == first + second + third + fourth);
    assert(all[0] == r.creator);
    lemma_listed_place(start, all, r.creator);
    assert forall|i: int| 0 <= i < r.bindings.len() implies held(r.plan().table, (#[trigger] r.bindings[i]).name) by {
        let name = r.bindings[i].name;
        assert(second[i] == name);
        lemma_contains_joined(first, second, name);
        lemma_contains_joined(first + second, third, name);
        lemma_contains_joined(first + second + third, fourth, name);
        lemma_listed_place(start, all, name);
    }
    assert forall|i: int| 0 <= i < r.constant_buffers.len() implies held(
        r.plan().table,
        (#[trigger] r.constant_buffers[i]).name,
    ) by {
        let name = r.constant_buffers[i].name;
        lemma_buffer_listed(r.constant_buffers, r.constant_buffers.len() as int, i);
        lemma_contains_joined(first + second, third, name);
        lemma_contains_joined(first + second + third, fourth, name);
        lemma_listed_place(start, all, name);
    }
    assert forall|i: int| 0 <= i < r.variables().len() implies held(r.plan().table, (#[trigger] r.variables()[i]).name)
        by {
        let name = r.variables()[i].name;
        lemma_variable_listed(r.constant_buffers, r.constant_buffers.len() as int, i);
        lemma_contains_joined(first + second, third, name);
        lemma_contains_joined(first + second + third, fourth, name);
        lemma_listed_place(start, all, name);
    }
    assert forall|i: int| 0 <= i < r.types().len() implies type_held(r.plan().table, #[trigger] r.types()[i]) by {
        let t = r.types()[i];
        lemma_type_listed(r.types(), r.types().len() as int, i);
        if t.name.len() > 0 {
            lemma_contains_joined(first + second + third, fourth, t.name);
            lemma_listed_place(start, all, t.name);
        }
        assert forall|k: int| 0 <= k < t.members.len() implies held(r.plan().table, (#[trigger] t.members[k]).name) by {
            lemma_contains_joined(first + second + third, fourth, t.members[k].name);
            lemma_listed_place(start, all, t.members[k].name);
        }
    }
}

fn push_eight(out: &mut Vec<u32>, words: &[u32; 8])
    ensures
        final(out)@ == old(out)@ + words@,
{
    let mut i: usize = 0;
    while i < 8
        invariant
            i <= 8,
            out@ == old(out)@ + words@.take(i as int),
        decreases 8 - i,
    {
        out.push(words[i]);
        proof {
            assert(words@.take(i + 1) =~= words@.take(i as int).push(words@[i as int]));
        }
        i = i + 1;
    }
    proof {
        assert(words@.take(8) =~= words@);
    }
}

fn push_bindings(out: &mut Vec<u32>, bindings: &Vec<ResourceBinding>, table: &StringTableWriter)
    requires
        forall|i: int| 0 <= i < bindings@.len() ==> held(table@, (#[trigger] bindings@[i])@.name),
    ensures
        final(out)@ == old(out)@ + bindings_words(binding_models(bindings@), bindings@.len() as int, table@),
{
    let ghost models = binding_models(bindings@);
    let mut i: usize = 0;
    while i < bindings.len()
        invariant
            i <= bindings@.len(),
            forall|j: int| 0 <= j < bindings@.len() ==> held(table@, (#[trigger] bindings@[j])@.name),
            models == binding_models(bindings@),
            out@ == old(out)@ + bindings_words(models, i as int, table@),
        decreases bindings@.len() - i,
    {
        let b = &bindings[i];
        let ghost before = out@;
        out.push(table.offset(b.name.as_str()));
        out.push(b.input_type);
        out.push(b.return_type);
        out.push(b.dimension);
        out.push(b.num_samples);
        out.push(b.bind_point);
        out.push(b.bind_count);
        out.push(b.flags);
        proof {
            assert(out@ =~= before + binding_words(models[i as int], table@));
            assert(out@ =~= old(out)@ + bindings_words(models, i + 1, table@));
        }
        i = i + 1;
    }
}

/// The place of an item of a section.
fn item_at(base: usize, sm5: bool, with: u8, without: u8, index: u128) -> (r: u32)
    requires
        index <= 2 * usize::MAX + 1,
    ensures
        r == (base + (if sm5 {
            with
        } else {
            without
        }) * index) as u32,
{
    let stride: u128 = if sm5 {
        with as u128
    } else {
        without as u128
    };
    proof {
        let s = stride as int;
        let i = index as int;
        assert(0 <= s * i <= 255 * (2 * usize::MAX + 1)) by (nonlinear_arith)
            requires
                0 <= s <= 255,
                0 <= i <= 2 * usize::MAX + 1,
        ;
    }
    (base as u128 + stride * index) as u32
}

fn push_buffers(
    out: &mut Vec<u32>,
    buffers: &Vec<CBufferDef>,
    starts: &Vec<usize>,
    at: usize,
    sm5: bool,
    table: &StringTableWriter,
    Ghost(p): Ghost<Plan>,
)
    requires
        p.table == table@,
        p.sm5 == sm5,
        p.variables == at,
        starts@.len() == buffers@.len(),
        forall|i: int|
            0 <= i < buffers@.len() ==> #[trigger] starts@[i] == all_variables(buffer_models(buffers@), i).len(),
        forall|i: int| 0 <= i < buffers@.len() ==> held(table@, (#[trigger] buffers@[i])@.name),
    ensures
        final(out)@ == old(out)@ + buffers_words(buffer_models(buffers@), buffers@.len() as int, p),
{
    let ghost models = buffer_models(buffers@);
    let mut i: usize = 0;
    while i < buffers.len()
        invariant
            i <= buffers@.len(),
            p.table == table@,
            p.sm5 == sm5,
            p.variables == at,
            starts@.len() == buffers@.len(),
            models == buffer_models(buffers@),
            forall|j: int| 0 <= j < buffers@.len() ==> #[trigger] starts@[j] == all_variables(models, j).len(),
            forall|j: int| 0 <= j < buffers@.len() ==> held(table@, (#[trigger] buffers@[j])@.name),
            out@ == old(out)@ + buffers_words(models, i as int, p),
        decreases buffers@.len() - i,
    {
        let b = &buffers[i];
        let ghost before = out@;
        out.push(table.offset(b.name.as_str()));
        out.push(b.variables.len() as u32);
        out.push(item_at(at, sm5, 40, 24, starts[i] as u128));
        out.push(b.size);
        out.push(b.flags);
        out.push(b.cb_type);
        proof {
            assert(out@ =~= before + buffer_words(
                models[i as int],
                p.variables + variable_stride(p.sm5) * all_variables(models, i as int).len(),
                p.table,
            ));
            assert(out@ =~= old(out)@ + buffers_words(models, i + 1, p));
        }
        i = i + 1;
    }
}

fn or_else(v: Option<u32>, other: u32) -> (r: u32)
    ensures
        r == word_or(v, other),
{
    match v {
        Some(v) => v,
        None => other,
    }
}

fn push_variables(
    out: &mut Vec<u32>,
    variables: &Vec<&CBufferVariable>,
    type_starts: &Vec<usize>,
    default_starts: &Vec<usize>,
    types_at: usize,
    defaults_at: usize,
    sm5: bool,
    table: &StringTableWriter,
    Ghost(p): Ghost<Plan>,
)
    requires
        p.table == table@,
        p.sm5 == sm5,
        p.types == types_at,
        p.defaults == defaults_at,
        type_starts@.len() == variables@.len(),
        default_starts@.len() == variables@.len(),
        forall|i: int|
            0 <= i < variables@.len() ==> #[trigger] type_starts@[i] == all_types(referred(variables@), i).len(),
        forall|i: int|
            0 <= i < variables@.len() ==> #[trigger] default_starts@[i] == all_defaults(referred(variables@), i).len(),
        forall|i: int| 0 <= i < variables@.len() ==> held(table@, (#[trigger] variables@[i])@.name),
    ensures
        final(out)@ == old(out)@ + variables_words(referred(variables@), variables@.len() as int, p),
{
    let ghost models = referred(variables@);
    let mut i: usize = 0;
    while i < variables.len()
        invariant
            i <= variables@.len(),
            p.table == table@,
            p.sm5 == sm5,
            p.types == types_at,
            p.defaults == defaults_at,
            type_starts@.len() == variables@.len(),
            default_starts@.len() == variables@.len(),
            models == referred(variables@),
            forall|j: int| 0 <= j < variables@.len() ==> #[trigger] type_starts@[j] == all_types(models, j).len(),
            forall|j: int| 0 <= j < variables@.len() ==> #[trigger] default_starts@[j] == all_defaults(models, j).len(),
            forall|j: int| 0 <= j < variables@.len() ==> held(table@, (#[trigger] variables@[j])@.name),
            out@ == old(out)@ + variables_words(models, i as int, p),
        decreases variables@.len() - i,
    {
        let v = variables[i];
        let ghost before = out@;
        out.push(table.offset(v.name.as_str()));
        out.push(v.offset);
        out.push(v.size);
        out.push(v.flags);
        out.push(item_at(types_at, sm5, 36, 16, type_starts[i] as u128));
        if v.default_value.len() == 0 {
            out.push(0);
        } else {
            out.push((defaults_at as u128 + default_starts[i] as u128) as u32);
        }
        if sm5 {
            out.push(or_else(v.texture_start, SLOT_UNUSED));
            out.push(or_else(v.texture_size, 0));
            out.push(or_else(v.sampler_start, SLOT_UNUSED));
            out.push(or_else(v.sampler_size, 0));
        }
        proof {
            assert(out@ =~= before + variable_words(
                models[i as int],
                p.types + type_stride(p.sm5) * all_types(models, i as int).len(),
                p.defaults + all_defaults(models, i as int).len(),
                p,
            ));
            assert(out@ =~= old(out)@ + variables_words(models, i + 1, p));
        }
        i = i + 1;
    }
}

fn push_type(out: &mut Vec<u32>, t: &TypeDesc, at: u128, sm5: bool, table: &StringTableWriter, Ghost(p): Ghost<Plan>)
    requires
        p.table == table@,
        p.sm5 == sm5,
        type_held(table@, t@),
    ensures
        final(out)@ == old(out)@ + type_words(t@, at as nat, p),
{
    out.push(t.class as u32 + t.var_type as u32 * 65536);
    out.push(t.rows as u32 + t.columns as u32 * 65536);
    out.push(t.elements as u32 + (t.members.len() % 65536) as u32 * 65536);
    if t.members.len() == 0 {
        out.push(0);
    } else {
        out.push(at as u32);
    }
    if sm5 {
        if let Some(extra) = &t.sm5_extra {
            out.push(extra[0]);
            out.push(extra[1]);
            out.push(extra[2]);
            out.push(extra[3]);
        } else {
            out.push(0);
            out.push(0);
            out.push(0);
            out.push(0);
        }
        if t.name.as_str().unicode_len() == 0 {
            out.push(0);
        } else {
            out.push(table.offset(t.name.as_str()));
        }
    }
    proof {
        assert(t@.members.len() == t.members@.len());
        assert(t@.name == t.name@);
        assert(out@ =~= old(out)@ + type_words(t@, at as nat, p));
    }
}

fn push_types(
    out: &mut Vec<u32>,
    types: &Vec<&TypeDesc>,
    starts: &Vec<usize>,
    members_at: usize,
    sm5: bool,
    table: &StringTableWriter,
    Ghost(p): Ghost<Plan>,
)
    requires
        p.table == table@,
        p.sm5 == sm5,
        p.members == members_at,
        starts@.len() == types@.len(),
        forall|i: int| 0 <= i < types@.len() ==> #[trigger] starts@[i] == members_before(type_models(types@), i),
        forall|i: int| 0 <= i < types@.len() ==> type_held(table@, (#[trigger] types@[i])@),
    ensures
        final(out)@ == old(out)@ + types_words(type_models(types@), types@.len() as int, p),
{
    let ghost models = type_models(types@);
    let mut i: usize = 0;
    while i < types.len()
        invariant
            i <= types@.len(),
            p.table == table@,
            p.sm5 == sm5,
            p.members == members_at,
            starts@.len() == types@.len(),
            models == type_models(types@),
            forall|j: int| 0 <= j < types@.len() ==> #[trigger] starts@[j] == members_before(models, j),
            forall|j: int| 0 <= j < types@.len() ==> type_held(table@, (#[trigger] types@[j])@),
            out@ == old(out)@ + types_words(models, i as int, p),
        decreases types@.len() - i,
    {
        let ghost before = out@;
        push_type(out, types[i], members_at as u128 + 12 * starts[i] as u128, sm5, table, Ghost(p));
        proof {
            assert(out@ =~= before + type_words(models[i as int], p.members + 12 * members_before(models, i as int), p));
            assert(out@ =~= old(out)@ + types_words(models, i + 1, p));
        }
        i = i + 1;
    }
}

fn push_own_members(
    out: &mut Vec<u32>,
    t: &TypeDesc,
    index: usize,
    types_at: usize,
    sm5: bool,
    table: &StringTableWriter,
    Ghost(p): Ghost<Plan>,
)
    requires
        p.table == table@,
        p.sm5 == sm5,
        p.types == types_at,
        type_held(table@, t@),
    ensures
        final(out)@ == old(out)@ + member_words(t@.members, t@.members.len() as int, index as nat, p),
{
    let ghost members = t@.members;
    let mut below: Vec<&TypeDesc> = Vec::new();
    let mut k: usize = 0;
    proof {
        assert(type_models(below@) =~= preorder_members(members, 0));
    }
    while k < t.members.len()
        invariant
            k <= t.members@.len(),
            members == t@.members,
            members.len() == t.members@.len(),
            p.table == table@,
            p.sm5 == sm5,
            p.types == types_at,
            type_held(table@, t@),
            type_models(below@) == preorder_members(members, k as int),
            out@ == old(out)@ + member_words(members, k as int, index as nat, p),
        decreases t.members@.len() - k,
    {
        let m = &t.members[k];
        let ghost before = out@;
        proof {
            assert(members[k as int] == m@);
            assert(below@.len() == type_models(below@).len());
        }
        out.push(table.offset(m.name.as_str()));
        out.push(item_at(types_at, sm5, 36, 16, index as u128 + 1 + below.len() as u128));
        out.push(m.offset);
        collect_type(&m.member_type, &mut below);
        proof {
            assert(out@ =~= before + seq![
                p.table.offset_of(members[k as int].name) as u32,
                (p.types + type_stride(p.sm5) * (index + 1 + preorder_members(members, k as int).len())) as u32,
                members[k as int].offset,
            ]);
            assert(out@ =~= old(out)@ + member_words(members, k + 1, index as nat, p));
        }
        k = k + 1;
    }
}

fn push_members(
    out: &mut Vec<u32>,
    types: &Vec<&TypeDesc>,
    types_at: usize,
    sm5: bool,
    table: &StringTableWriter,
    Ghost(p): Ghost<Plan>,
)
    requires
        p.table == table@,
        p.sm5 == sm5,
        p.types == types_at,
        forall|i: int| 0 <= i < types@.len() ==> type_held(table@, (#[trigger] types@[i])@),
    ensures
        final(out)@ == old(out)@ + members_words(type_models(types@), types@.len() as int, p),
{
    let ghost models = type_models(types@);
    let mut i: usize = 0;
    while i < types.len()
        invariant
            i <= types@.len(),
            p.table == table@,
            p.sm5 == sm5,
            p.types == types_at,
            models == type_models(types@),
            forall|j: int| 0 <= j < types@.len() ==> type_held(table@, (#[trigger] types@[j])@),
            out@ == old(out)@ + members_words(models, i as int, p),
        decreases types@.len() - i,
    {
        push_own_members(out, types[i], i, types_at, sm5, table, Ghost(p));
        proof {
            assert(models[i as int] == types@[i as int]@);
            assert(out@ =~= old(out)@ + members_words(models, i + 1, p));
        }
        i = i + 1;
    }
}

impl ResourceDef {
    /// The four characters that name the chunk.
    pub fn fourcc(&self) -> (r: [u8; 4])
        ensures
            r@ == seq![82u8, 68, 69, 70],
    {
        [82, 68, 69, 70]
    }

    /// The bytes of the chunk.
    pub fn write_payload(&self) -> (r: Vec<u8>)
        requires
            self@.strings_at() <= usize::MAX,
        ensures
            r@ == rdef_payload(self@),
    {
        let ghost m = self@;
        let ghost p = m.plan();
        let sm5: bool = (self.target_version / 256) % 256 >= 5;
        let (variables, variable_starts) = collect_variables(&self.constant_buffers);
        let (types, type_starts) = collect_types(&variables);
        let (defaults, default_starts) = collect_defaults(&variables);
        let (member_count, member_starts) = count_members(&types);
        proof {
            assert(variables@.len() == referred(variables@).len());
            assert(types@.len() == type_models(types@).len());
            assert(referred(variables@) == m.variables());
            assert(type_models(types@) == m.types());
            assert(m.strings_at() <= usize::MAX);
        }
        let bindings_at: usize = if self.rd11_extra.is_some() {
            60
        } else {
            28
        };
        let buffers_at: usize = bindings_at + 32 * self.bindings.len();
        let variables_at: usize = buffers_at + 24 * self.constant_buffers.len();
        let types_at: usize = if sm5 {
            variables_at + 40 * variables.len()
        } else {
            variables_at + 24 * variables.len()
        };
        let members_at: usize = if sm5 {
            types_at + 36 * types.len()
        } else {
            types_at + 16 * types.len()
        };
        let defaults_at: usize = members_at + 12 * member_count;
        let list = collect_strings(self, &types);
        let table = table_of(defaults_at + defaults.len(), &list);
        proof {
            lemma_all_held(m);
            assert(table@ == p.table);
            assert forall|i: int| 0 <= i < self.bindings@.len() implies held(
                table@,
                (#[trigger] self.bindings@[i])@.name,
            ) by {
                assert(m.bindings[i] == self.bindings@[i]@);
            }
            assert forall|i: int| 0 <= i < self.constant_buffers@.len() implies held(
                table@,
                (#[trigger] self.constant_buffers@[i])@.name,
            ) by {
                assert(m.constant_buffers[i] == self.constant_buffers@[i]@);
            }
            assert forall|i: int| 0 <= i < variables@.len() implies held(table@, (#[trigger] variables@[i])@.name) by {
                assert(m.variables()[i] == variables@[i]@);
            }
            assert forall|i: int| 0 <= i < types@.len() implies type_held(table@, (#[trigger] types@[i])@) by {
                assert(m.types()[i] == types@[i]@);
            }
        }
        let mut words: Vec<u32> = Vec::new();
        words.push(self.constant_buffers.len() as u32);
        words.push(buffers_at as u32);
        words.push(self.bindings.len() as u32);
        words.push(bindings_at as u32);
        words.push(self.target_version);
        words.push(self.compile_flags);
        words.push(table.offset(self.creator.as_str()));
        proof {
            assert(words@ =~= header_words(m, p));
        }
        if let Some(extra) = &self.rd11_extra {
            push_eight(&mut words, extra);
        }
        proof {
            assert(words@ =~= header_words(m, p) + rd11_words(m.rd11_extra));
        }
        push_bindings(&mut words, &self.bindings, &table);
        push_buffers(
            &mut words,
            &self.constant_buffers,
            &variable_starts,
            variables_at,
            sm5,
            &table,
            Ghost(p),
        );
        push_variables(
            &mut words,
            &variables,
            &type_starts,
            &default_starts,
            types_at,
            defaults_at,
            sm5,
            &table,
            Ghost(p),
        );
        push_types(&mut words, &types, &member_starts, members_at, sm5, &table, Ghost(p));
        push_members(&mut words, &types, types_at, sm5, &table, Ghost(p));
        proof {
            assert(words@ == rdef_words(m));
        }
        let mut out: Vec<u8> = Vec::new();
        push_words(&mut out, words.as_slice());
        push_all(&mut out, defaults.as_slice());
        let strings = table.finish();
        push_all(&mut out, strings.as_slice());
        proof {
            assert(out@ =~= rdef_payload(m));
        }
        out
    }
}

} // verus!
