//! What is written is read back.
use super::parse::{
    binding_of, bindings_of, buffer_of, buffers_of, is_sm5, rd11_of, rdef_of, type_name_of, type_of, variable_of,
    variable_stride, variables_of,
};
use super::write::{
    all_defaults, all_types, all_variables, binding_words, bindings_words, buffer_words, buffers_words, extra_words,
    header_words, held, lemma_all_held, member_words, members_before, members_words, preorder, preorder_members,
    rd11_words, rdef_payload, rdef_words, type_held, type_stride, type_words, types_words, variable_words,
    variables_words, Plan,
};
use super::{BindingModel, BufferModel, MemberModel, RdefModel, TypeModel, VariableModel};
use crate::bytes::{flat, le32, lemma_flat_joined, lemma_flat_len, lemma_stands_split, lemma_stands_words, stands_at};
use crate::util::{
    cstring, lemma_added_all_base, lemma_added_all_wf, lemma_cstring_null_free, lemma_place_listed, lemma_place_stands, lemma_standing_text_reads, lemma_stands_behind,
    null_free, StringTable,
};
use vstd::prelude::*;

verus! {

/// A type whose parts have room in the payload.
pub open spec fn type_storable(t: TypeModel, sm5: bool) -> bool {
    &&& null_free(t.name)
    &&& t.members.len() < 65536
    &&& t.sm5_extra is Some == sm5
    &&& !sm5 ==> t.name.len() == 0
    &&& forall|k: int| 0 <= k < t.members.len() ==> null_free((#[trigger] t.members[k]).name)
}

/// A variable whose parts have room in the payload.
pub open spec fn variable_storable(v: VariableModel, sm5: bool) -> bool {
    &&& null_free(v.name)
    &&& v.default_value.len() == 0 || v.default_value.len() == v.size
    &&& v.texture_start is Some == sm5
    &&& v.texture_size is Some == sm5
    &&& v.sampler_start is Some == sm5
    &&& v.sampler_size is Some == sm5
}

/// The offsets reach every string. The strings stand behind all else, so they reach that too.
pub open spec fn strings_reached(r: RdefModel) -> bool {
    forall|i: int| 0 <= i < r.strings().len() ==> r.plan().table.offset_of(#[trigger] r.strings()[i]) <= u32::MAX
}

/// A chunk whose parts have room in the payload: the offsets reach every string, names hold no null character, a
/// default value has the size of its variable, and what only shader model five knows is there exactly in that model.
pub open spec fn rdef_storable(r: RdefModel) -> bool {
    let sm5 = is_sm5(r.target_version);
    &&& strings_reached(r)
    &&& r.rd11_extra is Some == sm5
    &&& null_free(r.creator)
    &&& forall|i: int| 0 <= i < r.bindings.len() ==> null_free((#[trigger] r.bindings[i]).name)
    &&& forall|i: int| 0 <= i < r.constant_buffers.len() ==> null_free((#[trigger] r.constant_buffers[i]).name)
    &&& forall|i: int| 0 <= i < r.variables().len() ==> variable_storable(#[trigger] r.variables()[i], sm5)
    &&& forall|i: int| 0 <= i < r.types().len() ==> type_storable(#[trigger] r.types()[i], sm5)
}

/// The bytes of words stand at a place.
spec fn words_at(data: Seq<u8>, at: int, words: Seq<u32>) -> bool {
    stands_at(data, at, flat(words))
}

proof fn lemma_words_split(data: Seq<u8>, at: int, a: Seq<u32>, b: Seq<u32>)
    requires
        words_at(data, at, a + b),
    ensures
        words_at(data, at, a),
        words_at(data, at + 4 * a.len(), b),
{
    lemma_flat_joined(a, b);
    lemma_flat_len(a);
    lemma_stands_split(data, at, flat(a), flat(b));
}

proof fn lemma_times(i: int, w: int, c: int)
    requires
        w == c,
    ensures
        i * w == c * i,
        w * i == c * i,
{
    assert(i * w == c * i && w * i == c * i) by (nonlinear_arith)
        requires
            w == c,
    ;
}

proof fn lemma_bindings_len(bindings: Seq<BindingModel>, n: int, table: StringTable)
    requires
        0 <= n,
    ensures
        bindings_words(bindings, n, table).len() == 8 * n,
    decreases n,
{
    if n > 0 {
        lemma_bindings_len(bindings, n - 1, table);
    }
}

proof fn lemma_binding_at(data: Seq<u8>, at: int, bindings: Seq<BindingModel>, n: int, table: StringTable, i: int)
    requires
        words_at(data, at, bindings_words(bindings, n, table)),
        0 <= i < n,
    ensures
        words_at(data, at + 32 * i, binding_words(bindings[i], table)),
    decreases n,
{
    let before = bindings_words(bindings, n - 1, table);
    lemma_words_split(data, at, before, binding_words(bindings[n - 1], table));
    lemma_bindings_len(bindings, n - 1, table);
    if i < n - 1 {
        lemma_binding_at(data, at, bindings, n - 1, table, i);
    }
}

proof fn lemma_buffers_len(buffers: Seq<BufferModel>, n: int, p: Plan)
    requires
        0 <= n,
    ensures
        buffers_words(buffers, n, p).len() == 6 * n,
    decreases n,
{
    if n > 0 {
        lemma_buffers_len(buffers, n - 1, p);
    }
}

proof fn lemma_buffer_at(data: Seq<u8>, at: int, buffers: Seq<BufferModel>, n: int, p: Plan, i: int)
    requires
        words_at(data, at, buffers_words(buffers, n, p)),
        0 <= i < n,
    ensures
        words_at(
            data,
            at + 24 * i,
            buffer_words(
                buffers[i],
                p.variables + variable_stride(p.sm5) * all_variables(buffers, i).len(),
                p.table,
            ),
        ),
    decreases n,
{
    let before = buffers_words(buffers, n - 1, p);
    lemma_words_split(
        data,
        at,
        before,
        buffer_words(
            buffers[n - 1],
            p.variables + variable_stride(p.sm5) * all_variables(buffers, n - 1).len(),
            p.table,
        ),
    );
    lemma_buffers_len(buffers, n - 1, p);
    if i < n - 1 {
        lemma_buffer_at(data, at, buffers, n - 1, p, i);
    }
}

proof fn lemma_variables_len(variables: Seq<VariableModel>, n: int, p: Plan)
    requires
        0 <= n,
    ensures
        variables_words(variables, n, p).len() == (if p.sm5 {
            10 * n
        } else {
            6 * n
        }),
    decreases n,
{
    if n > 0 {
        lemma_variables_len(variables, n - 1, p);
    }
}

proof fn lemma_variable_at(data: Seq<u8>, at: int, variables: Seq<VariableModel>, n: int, p: Plan, i: int)
    requires
        words_at(data, at, variables_words(variables, n, p)),
        0 <= i < n,
    ensures
        words_at(
            data,
            at + (if p.sm5 {
                40 * i
            } else {
                24 * i
            }),
            variable_words(
                variables[i],
                p.types + type_stride(p.sm5) * all_types(variables, i).len(),
                p.defaults + all_defaults(variables, i).len(),
                p,
            ),
        ),
    decreases n,
{
    let before = variables_words(variables, n - 1, p);
    lemma_words_split(
        data,
        at,
        before,
        variable_words(
            variables[n - 1],
            p.types + type_stride(p.sm5) * all_types(variables, n - 1).len(),
            p.defaults + all_defaults(variables, n - 1).len(),
            p,
        ),
    );
    lemma_variables_len(variables, n - 1, p);
    if i < n - 1 {
        lemma_variable_at(data, at, variables, n - 1, p, i);
    }
}

proof fn lemma_types_len(types: Seq<TypeModel>, n: int, p: Plan)
    requires
        0 <= n,
    ensures
        types_words(types, n, p).len() == (if p.sm5 {
            9 * n
        } else {
            4 * n
        }),
    decreases n,
{
    if n > 0 {
        lemma_types_len(types, n - 1, p);
        assert(extra_words(types[n - 1], p.table).len() == 5);
    }
}

proof fn lemma_type_at(data: Seq<u8>, at: int, types: Seq<TypeModel>, n: int, p: Plan, i: int)
    requires
        words_at(data, at, types_words(types, n, p)),
        0 <= i < n,
    ensures
        words_at(
            data,
            at + (if p.sm5 {
                36 * i
            } else {
                16 * i
            }),
            type_words(types[i], p.members + 12 * members_before(types, i), p),
        ),
    decreases n,
{
    let before = types_words(types, n - 1, p);
    lemma_words_split(
        data,
        at,
        before,
        type_words(types[n - 1], p.members + 12 * members_before(types, n - 1), p),
    );
    lemma_types_len(types, n - 1, p);
    if i < n - 1 {
        lemma_type_at(data, at, types, n - 1, p, i);
    }
}

proof fn lemma_own_members_len(members: Seq<MemberModel>, n: int, index: nat, p: Plan)
    requires
        0 <= n,
    ensures
        member_words(members, n, index, p).len() == 3 * n,
    decreases n,
{
    if n > 0 {
        lemma_own_members_len(members, n - 1, index, p);
    }
}

/// The words of one member.
spec fn one_member(members: Seq<MemberModel>, k: int, index: nat, p: Plan) -> Seq<u32> {
    seq![
        p.table.offset_of(members[k].name) as u32,
        (p.types + type_stride(p.sm5) * (index + 1 + preorder_members(members, k).len())) as u32,
        members[k].offset,
    ]
}

proof fn lemma_own_member_at(data: Seq<u8>, at: int, members: Seq<MemberModel>, n: int, index: nat, p: Plan, k: int)
    requires
        words_at(data, at, member_words(members, n, index, p)),
        0 <= k < n,
    ensures
        words_at(data, at + 12 * k, one_member(members, k, index, p)),
    decreases n,
{
    lemma_words_split(data, at, member_words(members, n - 1, index, p), one_member(members, n - 1, index, p));
    lemma_own_members_len(members, n - 1, index, p);
    if k < n - 1 {
        lemma_own_member_at(data, at, members, n - 1, index, p, k);
    }
}

proof fn lemma_members_len(types: Seq<TypeModel>, n: int, p: Plan)
    requires
        0 <= n,
    ensures
        members_words(types, n, p).len() == 3 * members_before(types, n),
    decreases n,
{
    if n > 0 {
        lemma_members_len(types, n - 1, p);
        lemma_own_members_len(types[n - 1].members, types[n - 1].members.len() as int, (n - 1) as nat, p);
    }
}

proof fn lemma_member_at(data: Seq<u8>, at: int, types: Seq<TypeModel>, n: int, p: Plan, i: int)
    requires
        words_at(data, at, members_words(types, n, p)),
        0 <= i < n,
    ensures
        words_at(
            data,
            at + 12 * members_before(types, i),
            member_words(types[i].members, types[i].members.len() as int, i as nat, p),
        ),
        members_before(types, i) + types[i].members.len() <= members_before(types, n),
    decreases n,
{
    lemma_words_split(
        data,
        at,
        members_words(types, n - 1, p),
        member_words(types[n - 1].members, types[n - 1].members.len() as int, (n - 1) as nat, p),
    );
    lemma_members_len(types, n - 1, p);
    if i < n - 1 {
        lemma_member_at(data, at, types, n - 1, p, i);
    }
}

proof fn lemma_default_at(data: Seq<u8>, at: int, variables: Seq<VariableModel>, n: int, i: int)
    requires
        stands_at(data, at, all_defaults(variables, n)),
        0 <= i < n,
    ensures
        stands_at(data, at + all_defaults(variables, i).len(), variables[i].default_value),
        all_defaults(variables, i).len() <= all_defaults(variables, n).len(),
    decreases n,
{
    lemma_stands_split(data, at, all_defaults(variables, n - 1), variables[n - 1].default_value);
    if i < n - 1 {
        lemma_default_at(data, at, variables, n - 1, i);
    }
}

proof fn lemma_variables_place(buffers: Seq<BufferModel>, n: int, i: int)
    requires
        0 <= i < n <= buffers.len(),
    ensures
        all_variables(buffers, i).len() + buffers[i].variables.len() <= all_variables(buffers, n).len(),
        forall|k: int|
            0 <= k < buffers[i].variables.len() ==> all_variables(buffers, n)[all_variables(buffers, i).len() + k]
                == #[trigger] buffers[i].variables[k],
    decreases n,
{
    if i < n - 1 {
        lemma_variables_place(buffers, n - 1, i);
    }
}

/// A type and all that is below it stand in a list from an index on.
spec fn rooted(types: Seq<TypeModel>, index: int, t: TypeModel) -> bool {
    0 <= index && index + preorder(t).len() <= types.len() && types.subrange(index, index + preorder(t).len())
        == preorder(t)
}

proof fn lemma_types_place(variables: Seq<VariableModel>, n: int, i: int)
    requires
        0 <= i < n <= variables.len(),
    ensures
        rooted(all_types(variables, n), all_types(variables, i).len() as int, variables[i].var_type),
    decreases n,
{
    let before = all_types(variables, n - 1);
    let all = all_types(variables, n);
    let t = variables[i].var_type;
    let at = all_types(variables, i).len() as int;
    if i < n - 1 {
        lemma_types_place(variables, n - 1, i);
        assert(all.subrange(at, at + preorder(t).len()) =~= before.subrange(at, at + preorder(t).len()));
    } else {
        assert(all.subrange(at, at + preorder(t).len()) =~= preorder(t));
    }
}

proof fn lemma_members_place(members: Seq<MemberModel>, n: int, k: int)
    requires
        0 <= k < n <= members.len(),
    ensures
        rooted(preorder_members(members, n), preorder_members(members, k).len() as int, members[k].member_type),
    decreases n,
{
    let before = preorder_members(members, n - 1);
    let all = preorder_members(members, n);
    let t = members[k].member_type;
    let at = preorder_members(members, k).len() as int;
    if k < n - 1 {
        lemma_members_place(members, n - 1, k);
        assert(all.subrange(at, at + preorder(t).len()) =~= before.subrange(at, at + preorder(t).len()));
    } else {
        assert(all.subrange(at, at + preorder(t).len()) =~= preorder(t));
    }
}

proof fn lemma_rooted_member(types: Seq<TypeModel>, index: int, t: TypeModel, k: int)
    requires
        rooted(types, index, t),
        0 <= k < t.members.len(),
    ensures
        types[index] == t,
        rooted(types, index + 1 + preorder_members(t.members, k).len(), t.members[k].member_type),
        preorder(t.members[k].member_type).len() < preorder(t).len(),
{
    let all = preorder(t);
    let below = preorder_members(t.members, t.members.len() as int);
    lemma_members_place(t.members, t.members.len() as int, k);
    let at = preorder_members(t.members, k).len() as int;
    let own = preorder(t.members[k].member_type);
    assert(types.subrange(index, index + all.len())[0] == types[index]);
    assert(types.subrange(index + 1 + at, index + 1 + at + own.len()) =~= all.subrange(1 + at, 1 + at + own.len()));
    assert(all.subrange(1 + at, 1 + at + own.len()) =~= below.subrange(at, at + own.len()));
}

/// The sections stand where the plan says.
spec fn sections(r: RdefModel, data: Seq<u8>) -> bool {
    let p = r.plan();
    &&& words_at(data, 0, header_words(r, p))
    &&& words_at(data, 28, rd11_words(r.rd11_extra))
    &&& words_at(data, p.bindings as int, bindings_words(r.bindings, r.bindings.len() as int, p.table))
    &&& words_at(data, p.buffers as int, buffers_words(r.constant_buffers, r.constant_buffers.len() as int, p))
    &&& words_at(data, p.variables as int, variables_words(r.variables(), r.variables().len() as int, p))
    &&& words_at(data, p.types as int, types_words(r.types(), r.types().len() as int, p))
    &&& words_at(data, p.members as int, members_words(r.types(), r.types().len() as int, p))
    &&& stands_at(data, p.defaults as int, r.defaults())
    &&& p.table.base <= u32::MAX
    &&& 28 <= p.bindings <= p.buffers <= p.variables <= p.types <= p.members <= p.defaults <= p.table.base
    &&& p.types + 16 * r.types().len() <= p.members
    &&& p.defaults + r.defaults().len() == p.table.base
    &&& p.table.base + p.table.buf.len() == data.len()
}

proof fn lemma_sections(r: RdefModel)
    requires
        rdef_storable(r),
    ensures
        sections(r, rdef_payload(r)),
{
    let p = r.plan();
    let data = rdef_payload(r);
    let words = rdef_words(r);
    let h = header_words(r, p);
    let x = rd11_words(r.rd11_extra);
    let b = bindings_words(r.bindings, r.bindings.len() as int, p.table);
    let c = buffers_words(r.constant_buffers, r.constant_buffers.len() as int, p);
    let v = variables_words(r.variables(), r.variables().len() as int, p);
    let t = types_words(r.types(), r.types().len() as int, p);
    let m = members_words(r.types(), r.types().len() as int, p);
    lemma_bindings_len(r.bindings, r.bindings.len() as int, p.table);
    lemma_buffers_len(r.constant_buffers, r.constant_buffers.len() as int, p);
    lemma_variables_len(r.variables(), r.variables().len() as int, p);
    lemma_types_len(r.types(), r.types().len() as int, p);
    lemma_members_len(r.types(), r.types().len() as int, p);
    lemma_flat_len(words);
    lemma_times(r.variables().len() as int, variable_stride(p.sm5) as int, if p.sm5 { 40 } else { 24 });
    lemma_times(r.types().len() as int, type_stride(p.sm5) as int, if p.sm5 { 36 } else { 16 });
    let start = StringTable::empty(p.defaults + r.defaults().len());
    lemma_added_all_base(start, r.strings());
    assert(r.strings()[0] == r.creator);
    assert(words == h + x + b + c + v + t + m);
    assert(4 * words.len() == p.defaults);
    assert(data.subrange(0, flat(words).len() as int) =~= flat(words));
    assert(words_at(data, 0, words));
    assert(data.subrange(p.defaults as int, p.defaults as int + r.defaults().len()) =~= r.defaults());
    lemma_words_split(data, 0, h + x + b + c + v + t, m);
    lemma_words_split(data, 0, h + x + b + c + v, t);
    lemma_words_split(data, 0, h + x + b + c, v);
    lemma_words_split(data, 0, h + x + b, c);
    lemma_words_split(data, 0, h + x, b);
    lemma_words_split(data, 0, h, x);
}

/// A name that is in the table is read back.
proof fn lemma_name_reads(r: RdefModel, s: Seq<char>)
    requires
        rdef_storable(r),
        held(r.plan().table, s),
        null_free(s),
    ensures
        cstring(rdef_payload(r), (r.plan().table.offset_of(s) as u32) as int) == s,
        0 < r.plan().table.offset_of(s) < rdef_payload(r).len(),
        r.plan().table.offset_of(s) <= u32::MAX,
{
    let p = r.plan();
    let start = StringTable::empty(p.defaults + r.defaults().len());
    let prefix = flat(rdef_words(r)) + r.defaults();
    lemma_sections(r);
    lemma_added_all_wf(start, r.strings());
    lemma_place_stands(p.table, s);
    let at = crate::util::place(p.table.entries, s)->0;
    lemma_stands_behind(prefix, s, at, p.table.buf);
    lemma_place_listed(start, r.strings(), s);
    let i = choose|i: int| 0 <= i < r.strings().len() && r.strings()[i] == s;
    assert(p.table.offset_of(r.strings()[i]) <= u32::MAX);
    assert(prefix.len() == p.table.base);
    assert(rdef_payload(r) == prefix + p.table.buf);
    lemma_standing_text_reads(s, p.table.offset_of(s), rdef_payload(r));
}

/// Every null-free name of the table is read from the data at its offset.
spec fn names_read(table: StringTable, data: Seq<u8>) -> bool {
    forall|s: Seq<char>| #[trigger]
        held(table, s) && null_free(s) ==> {
            &&& cstring(data, (table.offset_of(s) as u32) as int) == s
            &&& 0 < table.offset_of(s) < data.len()
            &&& table.offset_of(s) <= u32::MAX
        }
}

/// The types and their members stand in the data.
spec fn types_sound(types: Seq<TypeModel>, p: Plan, data: Seq<u8>) -> bool {
    &&& words_at(data, p.types as int, types_words(types, types.len() as int, p))
    &&& words_at(data, p.members as int, members_words(types, types.len() as int, p))
    &&& p.table.base <= u32::MAX
    &&& p.table.base <= data.len()
    &&& p.types + 36 * types.len() <= p.table.base || (!p.sm5 && p.types + 16 * types.len() <= p.table.base)
    &&& p.members + 12 * members_before(types, types.len() as int) <= p.table.base
    &&& names_read(p.table, data)
    &&& forall|i: int| 0 <= i < types.len() ==> type_storable(#[trigger] types[i], p.sm5)
    &&& forall|i: int| 0 <= i < types.len() ==> type_held(p.table, #[trigger] types[i])
}

/// The variables and their default values stand in the data.
spec fn variables_sound(variables: Seq<VariableModel>, p: Plan, data: Seq<u8>) -> bool {
    &&& types_sound(all_types(variables, variables.len() as int), p, data)
    &&& words_at(data, p.variables as int, variables_words(variables, variables.len() as int, p))
    &&& stands_at(data, p.defaults as int, all_defaults(variables, variables.len() as int))
    &&& 0 < p.defaults
    &&& p.defaults + all_defaults(variables, variables.len() as int).len() <= p.table.base
    &&& forall|i: int| 0 <= i < variables.len() ==> variable_storable(#[trigger] variables[i], p.sm5)
    &&& forall|i: int| 0 <= i < variables.len() ==> held(p.table, (#[trigger] variables[i]).name)
}

/// The buffers stand in the data.
spec fn buffers_sound(buffers: Seq<BufferModel>, p: Plan, data: Seq<u8>) -> bool {
    let variables = all_variables(buffers, buffers.len() as int);
    &&& variables_sound(variables, p, data)
    &&& words_at(data, p.buffers as int, buffers_words(buffers, buffers.len() as int, p))
    &&& p.variables + 40 * variables.len() <= p.table.base || (!p.sm5 && p.variables + 24 * variables.len()
        <= p.table.base)
    &&& forall|i: int| 0 <= i < buffers.len() ==> null_free((#[trigger] buffers[i]).name)
    &&& forall|i: int| 0 <= i < buffers.len() ==> held(p.table, (#[trigger] buffers[i]).name)
}

/// The place of a type.
spec fn type_place(p: Plan, index: int) -> int {
    p.types + (if p.sm5 {
        36 * index
    } else {
        16 * index
    })
}

proof fn lemma_halves(low: u16, high: int)
    requires
        0 <= high < 65536,
    ensures
        ((low + high * 65536) as u32) % 65536 == low,
        ((low + high * 65536) as u32) / 65536 == high,
{
}

/// What the words that shader model five states of a type read as.
proof fn lemma_extra_words_read(data: Seq<u8>, at: int, t: TypeModel, p: Plan)
    requires
        words_at(data, at + 16, extra_words(t, p.table)),
        t.sm5_extra is Some,
        null_free(t.name),
        t.name.len() > 0 ==> held(p.table, t.name),
        names_read(p.table, data),
    ensures
        at + 36 <= data.len(),
        le32(data, at + 16) == t.sm5_extra->0@[0],
        le32(data, at + 20) == t.sm5_extra->0@[1],
        le32(data, at + 24) == t.sm5_extra->0@[2],
        le32(data, at + 28) == t.sm5_extra->0@[3],
        type_name_of(data, at, true) == t.name,
{
    let extra = extra_words(t, p.table);
    assert(extra.len() == 5);
    lemma_stands_words(data, at + 16, extra);
    assert(le32(data, at + 16 + 4 * 0) == extra[0]);
    assert(le32(data, at + 16 + 4 * 1) == extra[1]);
    assert(le32(data, at + 16 + 4 * 2) == extra[2]);
    assert(le32(data, at + 16 + 4 * 3) == extra[3]);
    assert(le32(data, at + 16 + 4 * 4) == extra[4]);
    assert(type_name_of(data, at, true) =~= t.name);
}

/// What the words of a type read as.
proof fn lemma_type_words_read(data: Seq<u8>, at: int, t: TypeModel, place: nat, p: Plan)
    requires
        words_at(data, at, type_words(t, place, p)),
        type_storable(t, p.sm5),
        type_held(p.table, t),
        names_read(p.table, data),
        place <= u32::MAX,
    ensures
        at + 16 <= data.len(),
        le32(data, at) % 65536 == t.class,
        le32(data, at) / 65536 == t.var_type,
        le32(data, at + 4) % 65536 == t.rows,
        le32(data, at + 4) / 65536 == t.columns,
        le32(data, at + 8) % 65536 == t.elements,
        le32(data, at + 8) / 65536 == t.members.len(),
        t.members.len() > 0 ==> le32(data, at + 12) == place,
        t.members.len() == 0 ==> le32(data, at + 12) == 0,
        p.sm5 ==> {
            &&& at + 36 <= data.len()
            &&& le32(data, at + 16) == t.sm5_extra->0@[0]
            &&& le32(data, at + 20) == t.sm5_extra->0@[1]
            &&& le32(data, at + 24) == t.sm5_extra->0@[2]
            &&& le32(data, at + 28) == t.sm5_extra->0@[3]
        },
        type_name_of(data, at, p.sm5) == t.name,
{
    let count = t.members.len();
    let first = seq![
        (t.class + t.var_type * 65536) as u32,
        (t.rows + t.columns * 65536) as u32,
        (t.elements + (count % 65536) * 65536) as u32,
        if count == 0 {
            0u32
        } else {
            place as u32
        },
    ];
    let rest = if p.sm5 {
        extra_words(t, p.table)
    } else {
        Seq::empty()
    };
    assert(type_words(t, place, p) == first + rest);
    lemma_words_split(data, at, first, rest);
    lemma_stands_words(data, at, first);
    assert(le32(data, at + 4 * 0) == first[0]);
    assert(le32(data, at + 4 * 1) == first[1]);
    assert(le32(data, at + 4 * 2) == first[2]);
    assert(le32(data, at + 4 * 3) == first[3]);
    lemma_halves(t.class, t.var_type as int);
    lemma_halves(t.rows, t.columns as int);
    lemma_halves(t.elements, count as int);
    if p.sm5 {
        lemma_extra_words_read(data, at, t, p);
    } else {
        assert(type_name_of(data, at, p.sm5) =~= t.name);
    }
}

/// The words of a member are read back.
proof fn lemma_member_reads(types: Seq<TypeModel>, p: Plan, data: Seq<u8>, index: int, t: TypeModel, k: int)
    requires
        types_sound(types, p, data),
        rooted(types, index, t),
        0 <= k < t.members.len(),
    ensures
        ({
            let at = p.members + 12 * members_before(types, index) + 12 * k;
            let next = index + 1 + preorder_members(t.members, k).len();
            &&& at + 12 <= data.len()
            &&& cstring(data, le32(data, at) as int) == t.members[k].name
            &&& le32(data, at + 4) == type_place(p, next)
            &&& le32(data, at + 8) == t.members[k].offset
        }),
{
    lemma_rooted_member(types, index, t, k);
    assert(type_storable(types[index], p.sm5));
    assert(type_held(p.table, types[index]));
    let next = index + 1 + preorder_members(t.members, k).len();
    assert(preorder(t.members[k].member_type).len() >= 1);
    assert(next < types.len());
    lemma_member_at(data, p.members as int, types, types.len() as int, p, index);
    lemma_own_member_at(
        data,
        p.members as int + 12 * members_before(types, index),
        t.members,
        t.members.len() as int,
        index as nat,
        p,
        k,
    );
    let at = p.members + 12 * members_before(types, index) + 12 * k;
    let words = one_member(t.members, k, index as nat, p);
    lemma_stands_words(data, at, words);
    assert(held(p.table, t.members[k].name));
    lemma_times(next, type_stride(p.sm5) as int, if p.sm5 { 36 } else { 16 });
    assert(le32(data, at + 4 * 0) == words[0]);
    assert(le32(data, at + 4 * 1) == words[1]);
    assert(le32(data, at + 4 * 2) == words[2]);
}

/// A type that the payload holds is read back.
proof fn lemma_type_reads(types: Seq<TypeModel>, p: Plan, data: Seq<u8>, index: int, t: TypeModel, levels: nat)
    requires
        types_sound(types, p, data),
        rooted(types, index, t),
        levels >= preorder(t).len(),
    ensures
        type_of(data, type_place(p, index), p.sm5, levels) == t,
    decreases levels,
{
    let at = type_place(p, index);
    assert(preorder(t).len() >= 1);
    assert(types.subrange(index, index + preorder(t).len())[0] == types[index]);
    assert(types[index] == t);
    lemma_type_at(data, p.types as int, types, types.len() as int, p, index);
    lemma_member_at(data, p.members as int, types, types.len() as int, p, index);
    let place = p.members + 12 * members_before(types, index);
    lemma_type_words_read(data, at, t, place, p);
    let got = type_of(data, at, p.sm5, levels);
    let count = t.members.len();
    if p.sm5 {
        assert(got.sm5_extra->0@ =~= t.sm5_extra->0@);
        assert(got.sm5_extra->0 =~= t.sm5_extra->0);
    }
    assert(got.members.len() == count);
    assert forall|k: int| 0 <= k < count implies got.members[k] == #[trigger] t.members[k] by {
        lemma_member_reads(types, p, data, index, t, k);
        lemma_rooted_member(types, index, t, k);
        let next = index + 1 + preorder_members(t.members, k).len();
        lemma_type_reads(types, p, data, next, t.members[k].member_type, (levels - 1) as nat);
    }
    assert(got.members =~= t.members);
}

/// The place of a variable.
spec fn variable_place(p: Plan, index: int) -> int {
    p.variables + (if p.sm5 {
        40 * index
    } else {
        24 * index
    })
}

/// A variable is read back.
#[verifier::rlimit(60)]
#[verifier::spinoff_prover]
proof fn lemma_variable_reads(variables: Seq<VariableModel>, p: Plan, data: Seq<u8>, j: int)
    requires
        variables_sound(variables, p, data),
        0 <= j < variables.len(),
    ensures
        variable_of(data, variable_place(p, j), p.sm5) == variables[j],
{
    let v = variables[j];
    let n = variables.len() as int;
    let types = all_types(variables, n);
    let at = variable_place(p, j);
    lemma_variable_at(data, p.variables as int, variables, n, p, j);
    let index = all_types(variables, j).len() as int;
    let type_at = p.types + type_stride(p.sm5) * all_types(variables, j).len();
    let default_at = p.defaults + all_defaults(variables, j).len();
    let words = variable_words(v, type_at, default_at, p);
    lemma_stands_words(data, at, words);
    assert(held(p.table, v.name));
    assert(variable_storable(v, p.sm5));
    lemma_types_place(variables, n, j);
    assert(preorder(v.var_type).len() >= 1);
    lemma_times(index, type_stride(p.sm5) as int, if p.sm5 { 36 } else { 16 });
    lemma_type_reads(types, p, data, index, v.var_type, data.len());
    lemma_default_at(data, p.defaults as int, variables, n, j);
    assert(type_at <= u32::MAX && default_at <= u32::MAX);
    assert(le32(data, at + 4 * 0) == words[0]);
    assert(le32(data, at + 4 * 1) == words[1]);
    assert(le32(data, at + 4 * 2) == words[2]);
    assert(le32(data, at + 4 * 3) == words[3]);
    assert(le32(data, at + 4 * 4) == words[4]);
    assert(le32(data, at + 4 * 5) == words[5]);
    if p.sm5 {
        assert(le32(data, at + 4 * 6) == words[6]);
        assert(le32(data, at + 4 * 7) == words[7]);
        assert(le32(data, at + 4 * 8) == words[8]);
        assert(le32(data, at + 4 * 9) == words[9]);
    }
    assert(type_at == type_place(p, index));
    let got = variable_of(data, at, p.sm5);
    assert(got.var_type == v.var_type);
    assert(got.default_value =~= v.default_value);
}

/// A buffer is read back.
proof fn lemma_buffer_reads(buffers: Seq<BufferModel>, p: Plan, data: Seq<u8>, i: int)
    requires
        buffers_sound(buffers, p, data),
        0 <= i < buffers.len(),
    ensures
        buffer_of(data, p.buffers + 24 * i, p.sm5) == buffers[i],
{
    let b = buffers[i];
    let n = buffers.len() as int;
    let at = p.buffers + 24 * i;
    let variables = all_variables(buffers, n);
    lemma_buffer_at(data, p.buffers as int, buffers, n, p, i);
    let before = all_variables(buffers, i).len() as int;
    let count = b.variables.len() as int;
    let words = buffer_words(b, p.variables + variable_stride(p.sm5) * all_variables(buffers, i).len(), p.table);
    lemma_stands_words(data, at, words);
    assert(held(p.table, b.name));
    lemma_variables_place(buffers, n, i);
    let w = variable_stride(p.sm5) as int;
    let c: int = if p.sm5 { 40 } else { 24 };
    lemma_times(before, w, c);
    lemma_times(count, w, c);
    assert(le32(data, at + 4 * 0) == words[0]);
    assert(le32(data, at + 4 * 1) == words[1]);
    assert(le32(data, at + 4 * 2) == words[2]);
    assert(le32(data, at + 4 * 3) == words[3]);
    assert(le32(data, at + 4 * 4) == words[4]);
    assert(le32(data, at + 4 * 5) == words[5]);
    let offset = le32(data, at + 8);
    assert(offset == variable_place(p, before));
    assert(le32(data, at + 4) == count);
    let got = variables_of(data, offset, le32(data, at + 4), p.sm5);
    assert(got.len() == count);
    assert forall|k: int| 0 <= k < count implies got[k] == #[trigger] b.variables[k] by {
        lemma_times(k, w, c);
        lemma_variable_reads(variables, p, data, before + k);
        assert(offset + k * variable_stride(p.sm5) == variable_place(p, before + k));
    }
    assert(got =~= b.variables);
}

/// A binding is read back.
proof fn lemma_binding_reads(bindings: Seq<BindingModel>, p: Plan, data: Seq<u8>, i: int)
    requires
        words_at(data, p.bindings as int, bindings_words(bindings, bindings.len() as int, p.table)),
        0 <= i < bindings.len(),
        null_free(bindings[i].name),
        held(p.table, bindings[i].name),
        names_read(p.table, data),
    ensures
        binding_of(data, p.bindings + 32 * i) == bindings[i],
{
    let b = bindings[i];
    let at = p.bindings + 32 * i;
    lemma_binding_at(data, p.bindings as int, bindings, bindings.len() as int, p.table, i);
    let words = binding_words(b, p.table);
    lemma_stands_words(data, at, words);
    assert(le32(data, at + 4 * 0) == words[0]);
    assert(le32(data, at + 4 * 1) == words[1]);
    assert(le32(data, at + 4 * 2) == words[2]);
    assert(le32(data, at + 4 * 3) == words[3]);
    assert(le32(data, at + 4 * 4) == words[4]);
    assert(le32(data, at + 4 * 5) == words[5]);
    assert(le32(data, at + 4 * 6) == words[6]);
    assert(le32(data, at + 4 * 7) == words[7]);
}

/// What the words of the header read as.
proof fn lemma_header_reads(r: RdefModel, p: Plan, data: Seq<u8>)
    requires
        words_at(data, 0, header_words(r, p)),
        words_at(data, 28, rd11_words(r.rd11_extra)),
        r.rd11_extra is Some == is_sm5(r.target_version),
    ensures
        data.len() >= 28,
        le32(data, 0) == r.constant_buffers.len() as u32,
        le32(data, 4) == p.buffers as u32,
        le32(data, 8) == r.bindings.len() as u32,
        le32(data, 12) == p.bindings as u32,
        le32(data, 16) == r.target_version,
        le32(data, 20) == r.compile_flags,
        le32(data, 24) == p.table.offset_of(r.creator) as u32,
        rd11_of(data) == r.rd11_extra,
{
    let h = header_words(r, p);
    lemma_stands_words(data, 0, h);
    assert(le32(data, 0int + 4 * 0) == h[0]);
    assert(le32(data, 0int + 4 * 1) == h[1]);
    assert(le32(data, 0int + 4 * 2) == h[2]);
    assert(le32(data, 0int + 4 * 3) == h[3]);
    assert(le32(data, 0int + 4 * 4) == h[4]);
    assert(le32(data, 0int + 4 * 5) == h[5]);
    assert(le32(data, 0int + 4 * 6) == h[6]);
    if r.rd11_extra is Some {
        let x = rd11_words(r.rd11_extra);
        lemma_stands_words(data, 28, x);
        assert(le32(data, 28int + 4 * 0) == x[0]);
        assert(le32(data, 28int + 4 * 1) == x[1]);
        assert(le32(data, 28int + 4 * 2) == x[2]);
        assert(le32(data, 28int + 4 * 3) == x[3]);
        assert(le32(data, 28int + 4 * 4) == x[4]);
        assert(le32(data, 28int + 4 * 5) == x[5]);
        assert(le32(data, 28int + 4 * 6) == x[6]);
        assert(le32(data, 28int + 4 * 7) == x[7]);
        assert(rd11_of(data)->0@ =~= r.rd11_extra->0@);
        assert(rd11_of(data)->0 =~= r.rd11_extra->0);
    }
}

/// The payload is sound.
proof fn lemma_payload_sound(r: RdefModel)
    requires
        rdef_storable(r),
    ensures
        buffers_sound(r.constant_buffers, r.plan(), rdef_payload(r)),
        names_read(r.plan().table, rdef_payload(r)),
        held(r.plan().table, r.creator),
        forall|i: int| 0 <= i < r.bindings.len() ==> held(r.plan().table, (#[trigger] r.bindings[i]).name),
{
    let p = r.plan();
    let data = rdef_payload(r);
    lemma_sections(r);
    lemma_all_held(r);
    lemma_times(r.variables().len() as int, variable_stride(p.sm5) as int, if p.sm5 { 40 } else { 24 });
    lemma_times(r.types().len() as int, type_stride(p.sm5) as int, if p.sm5 { 36 } else { 16 });
    assert forall|s: Seq<char>| #[trigger] held(p.table, s) && null_free(s) implies {
        &&& cstring(data, (p.table.offset_of(s) as u32) as int) == s
        &&& 0 < p.table.offset_of(s) < data.len()
        &&& p.table.offset_of(s) <= u32::MAX
    } by {
        lemma_name_reads(r, s);
    }
    assert(types_sound(r.types(), p, data));
    assert(variables_sound(r.variables(), p, data));
}

/// A chunk whose parts have room in the payload can be written, and is read back as it was written.
pub proof fn law_resource_def_comes_back(r: RdefModel)
    requires
        rdef_storable(r),
    ensures
        r.strings_at() <= u32::MAX,
        rdef_payload(r).len() >= 28,
        rdef_of(rdef_payload(r)) == r,
{
    lemma_sections(r);
    lemma_payload_sound(r);
    lemma_sound_reads(r, r.plan(), rdef_payload(r));
}

proof fn lemma_sound_reads(r: RdefModel, p: Plan, data: Seq<u8>)
    requires
        words_at(data, 0, header_words(r, p)),
        words_at(data, 28, rd11_words(r.rd11_extra)),
        words_at(data, p.bindings as int, bindings_words(r.bindings, r.bindings.len() as int, p.table)),
        buffers_sound(r.constant_buffers, p, data),
        names_read(p.table, data),
        held(p.table, r.creator),
        null_free(r.creator),
        p.sm5 == is_sm5(r.target_version),
        r.rd11_extra is Some == p.sm5,
        p.table.base <= u32::MAX,
        p.table.base <= data.len(),
        p.bindings + 32 * r.bindings.len() <= p.table.base,
        p.buffers + 24 * r.constant_buffers.len() <= p.table.base,
        forall|i: int| 0 <= i < r.bindings.len() ==> held(p.table, (#[trigger] r.bindings[i]).name),
        forall|i: int| 0 <= i < r.bindings.len() ==> null_free((#[trigger] r.bindings[i]).name),
    ensures
        data.len() >= 28,
        rdef_of(data) == r,
{
    lemma_header_reads(r, p, data);
    let bindings = bindings_of(data, le32(data, 12), le32(data, 8));
    let buffers = buffers_of(data, le32(data, 4), le32(data, 0), p.sm5);
    assert(bindings.len() == r.bindings.len());
    assert forall|i: int| 0 <= i < r.bindings.len() implies bindings[i] == #[trigger] r.bindings[i] by {
        lemma_binding_reads(r.bindings, p, data, i);
    }
    assert(bindings =~= r.bindings);
    assert(buffers.len() == r.constant_buffers.len());
    assert forall|i: int| 0 <= i < r.constant_buffers.len() implies buffers[i] == #[trigger] r.constant_buffers[i] by {
        lemma_buffer_reads(r.constant_buffers, p, data, i);
    }
    assert(buffers =~= r.constant_buffers);
}

/// A type as it is read: all that it takes to have room in the payload but for what only shader model five knows.
spec fn type_readable(t: TypeModel, sm5: bool) -> bool {
    &&& null_free(t.name)
    &&& t.members.len() < 65536
    &&& !sm5 ==> t.name.len() == 0
    &&& forall|k: int| 0 <= k < t.members.len() ==> null_free((#[trigger] t.members[k]).name)
}

proof fn lemma_type_readable(data: Seq<u8>, at: int, sm5: bool, levels: nat)
    requires
        0 <= at,
    ensures
        forall|i: int|
            0 <= i < preorder(type_of(data, at, sm5, levels)).len() ==> type_readable(
                #[trigger] preorder(type_of(data, at, sm5, levels))[i],
                sm5,
            ),
    decreases levels, 1int, 0int,
{
    let t = type_of(data, at, sm5, levels);
    let below = preorder_members(t.members, t.members.len() as int);
    assert(preorder(t) == seq![t] + below);
    assert(type_readable(t, sm5)) by {
        lemma_cstring_null_free(data, le32(data, at + 32) as int);
        if levels > 0 && at + 16 <= data.len() {
            let place = le32(data, at + 12) as int;
            assert forall|k: int| 0 <= k < t.members.len() implies null_free((#[trigger] t.members[k]).name) by {
                lemma_cstring_null_free(data, le32(data, place + 12 * k) as int);
            }
        }
    }
    lemma_members_readable(data, at, sm5, levels, t.members.len() as int);
    assert forall|i: int| 0 <= i < preorder(t).len() implies type_readable(#[trigger] preorder(t)[i], sm5) by {
        if i > 0 {
            assert(preorder(t)[i] == below[i - 1]);
        }
    }
}

proof fn lemma_members_readable(data: Seq<u8>, at: int, sm5: bool, levels: nat, n: int)
    requires
        0 <= at,
        0 <= n <= type_of(data, at, sm5, levels).members.len(),
    ensures
        forall|i: int|
            0 <= i < preorder_members(type_of(data, at, sm5, levels).members, n).len() ==> type_readable(
                #[trigger] preorder_members(type_of(data, at, sm5, levels).members, n)[i],
                sm5,
            ),
    decreases levels, 0int, n,
{
    let members = type_of(data, at, sm5, levels).members;
    if n > 0 {
        lemma_members_readable(data, at, sm5, levels, n - 1);
        let place = le32(data, at + 12) as int;
        let below = le32(data, place + 12 * (n - 1) + 4) as int;
        lemma_type_readable(data, below, sm5, (levels - 1) as nat);
        let before = preorder_members(members, n - 1);
        let last = preorder(members[n - 1].member_type);
        let all = preorder_members(members, n);
        assert(members[n - 1].member_type == type_of(data, below, sm5, (levels - 1) as nat));
        assert(all == before + last);
        assert forall|i: int| 0 <= i < all.len() implies type_readable(#[trigger] all[i], sm5) by {
            if i < before.len() {
                assert(all[i] == before[i]);
            } else {
                assert(all[i] == last[i - before.len()]);
            }
        }
    }
}

/// A constant buffer as it is read at some place.
spec fn buffer_read(data: Seq<u8>, b: BufferModel, sm5: bool) -> bool {
    exists|at: int| 0 <= at && b == #[trigger] buffer_of(data, at, sm5)
}

/// A variable as it is read at some place.
spec fn variable_read(data: Seq<u8>, v: VariableModel, sm5: bool) -> bool {
    exists|at: int| 0 <= at && v == #[trigger] variable_of(data, at, sm5)
}

proof fn lemma_variables_read(data: Seq<u8>, buffers: Seq<BufferModel>, sm5: bool, n: int)
    requires
        0 <= n <= buffers.len(),
        forall|i: int| 0 <= i < buffers.len() ==> buffer_read(data, #[trigger] buffers[i], sm5),
    ensures
        forall|i: int|
            0 <= i < all_variables(buffers, n).len() ==> variable_read(data, #[trigger] all_variables(buffers, n)[i], sm5),
    decreases n,
{
    if n > 0 {
        lemma_variables_read(data, buffers, sm5, n - 1);
        let before = all_variables(buffers, n - 1);
        let last = buffers[n - 1].variables;
        let all = all_variables(buffers, n);
        assert(buffer_read(data, buffers[n - 1], sm5));
        let at = choose|at: int| 0 <= at && buffers[n - 1] == #[trigger] buffer_of(data, at, sm5);
        let offset = le32(data, at + 8);
        assert forall|i: int| 0 <= i < all.len() implies variable_read(data, #[trigger] all[i], sm5) by {
            if i < before.len() {
                assert(all[i] == before[i]);
            } else {
                let k = i - before.len();
                assert(all[i] == last[k]);
                assert(0 <= k * variable_stride(sm5)) by (nonlinear_arith)
                    requires
                        0 <= k,
                ;
                assert(last[k] == variable_of(data, offset + k * variable_stride(sm5), sm5));
            }
        }
    }
}

proof fn lemma_types_readable(data: Seq<u8>, variables: Seq<VariableModel>, sm5: bool, n: int)
    requires
        0 <= n <= variables.len(),
        forall|i: int| 0 <= i < variables.len() ==> variable_read(data, #[trigger] variables[i], sm5),
    ensures
        forall|i: int| 0 <= i < all_types(variables, n).len() ==> type_readable(#[trigger] all_types(variables, n)[i], sm5),
    decreases n,
{
    if n > 0 {
        lemma_types_readable(data, variables, sm5, n - 1);
        assert(variable_read(data, variables[n - 1], sm5));
        let at = choose|at: int| 0 <= at && variables[n - 1] == #[trigger] variable_of(data, at, sm5);
        lemma_type_readable(data, le32(data, at + 16) as int, sm5, data.len());
        let before = all_types(variables, n - 1);
        let last = preorder(variables[n - 1].var_type);
        let all = all_types(variables, n);
        assert forall|i: int| 0 <= i < all.len() implies type_readable(#[trigger] all[i], sm5) by {
            if i < before.len() {
                assert(all[i] == before[i]);
            } else {
                assert(all[i] == last[i - before.len()]);
            }
        }
    }
}

/// What only shader model five knows is there exactly in that model: the words behind the header, and those of every
/// type.
pub open spec fn extras_agree(r: RdefModel) -> bool {
    let sm5 = is_sm5(r.target_version);
    &&& r.rd11_extra is Some == sm5
    &&& forall|i: int| 0 <= i < r.types().len() ==> (#[trigger] r.types()[i]).sm5_extra is Some == sm5
}

/// Whatever is read from a chunk can be written, where its words for shader model five agree with its version and
/// the offsets reach every string; and reading what was written gives it back.
pub proof fn law_parsed_resource_def_comes_back(data: Seq<u8>)
    requires
        data.len() >= 28,
        extras_agree(rdef_of(data)),
        strings_reached(rdef_of(data)),
    ensures
        rdef_storable(rdef_of(data)),
        rdef_payload(rdef_of(data)).len() >= 28,
        rdef_of(rdef_payload(rdef_of(data))) == rdef_of(data),
{
    let r = rdef_of(data);
    let sm5 = is_sm5(r.target_version);
    lemma_cstring_null_free(data, le32(data, 24) as int);
    let bindings = le32(data, 12);
    assert forall|i: int| 0 <= i < r.bindings.len() implies null_free((#[trigger] r.bindings[i]).name) by {
        lemma_cstring_null_free(data, le32(data, bindings + i * 32) as int);
    }
    let buffers = le32(data, 4);
    assert forall|i: int| 0 <= i < r.constant_buffers.len() implies null_free((#[trigger] r.constant_buffers[i]).name) by {
        lemma_cstring_null_free(data, le32(data, buffers + i * 24) as int);
    }
    assert forall|i: int| 0 <= i < r.constant_buffers.len() implies buffer_read(
        data,
        #[trigger] r.constant_buffers[i],
        sm5,
    ) by {
        assert(r.constant_buffers[i] == buffer_of(data, buffers + i * 24, sm5));
    }
    lemma_variables_read(data, r.constant_buffers, sm5, r.constant_buffers.len() as int);
    lemma_types_readable(data, r.variables(), sm5, r.variables().len() as int);
    assert forall|i: int| 0 <= i < r.variables().len() implies variable_storable(#[trigger] r.variables()[i], sm5) by {
        assert(variable_read(data, r.variables()[i], sm5));
        let at = choose|at: int| 0 <= at && r.variables()[i] == #[trigger] variable_of(data, at, sm5);
        lemma_cstring_null_free(data, le32(data, at) as int);
    }
    assert forall|i: int| 0 <= i < r.types().len() implies type_storable(#[trigger] r.types()[i], sm5) by {
        assert(type_readable(r.types()[i], sm5));
    }
    law_resource_def_comes_back(r);
}

} // verus!
