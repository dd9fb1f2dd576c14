//! How the members of a buffer tile its registers.
use super::names::{
    by_key, covered, fields_span, free_run, gaps, keyed_fields, keyed_members, law_every_component_is_declared,
    law_every_field_is_declared, member_of, pad, pads_in, settled, span, tiled, unkeyed, Field, MemberModel,
};
use vstd::prelude::*;

verus! {

/// Two members share a component of a register.
pub open spec fn overlap(a: MemberModel, b: MemberModel) -> bool {
    exists|register: nat, comp: nat| comp < 4 && #[trigger] a.covers(register, comp) && b.covers(register, comp)
}

/// No two members of a list share a component.
pub open spec fn apart(list: Seq<MemberModel>) -> bool {
    forall|i: int, j: int| 0 <= i < list.len() && 0 <= j < list.len() && i != j ==> !overlap(list[i], list[j])
}

/// The members that fields make, in the order of the fields.
pub open spec fn members_of(fields: Seq<Field>) -> Seq<MemberModel> {
    Seq::new(fields.len(), |i: int| member_of(fields[i]))
}

/// Where a member stands: its register, and its first component within that.
pub open spec fn standing(m: MemberModel) -> nat {
    m.register * 4 + m.first
}

/// The keys go upwards.
spec fn ascending<T>(list: Seq<(nat, T)>) -> bool {
    forall|i: int, j: int| 0 <= i < j < list.len() ==> (#[trigger] list[i]).0 <= (#[trigger] list[j]).0
}

/// Where an item settles: behind the keys that are not greater.
proof fn lemma_settled_place<T>(list: Seq<(nat, T)>, key: nat, item: T, from: int) -> (at: int)
    requires
        0 <= from <= list.len(),
        ascending(list),
        forall|i: int| 0 <= i < from ==> (#[trigger] list[i]).0 <= key,
    ensures
        0 <= at <= list.len(),
        settled(list, key, item, from) == list.insert(at, (key, item)),
        ascending(settled(list, key, item, from)),
    decreases list.len() - from,
{
    if from < list.len() && list[from].0 <= key {
        lemma_settled_place(list, key, item, from + 1)
    } else {
        let after = list.insert(from, (key, item));
        assert forall|i: int, j: int| 0 <= i < j < after.len() implies (#[trigger] after[i]).0 <= (#[trigger] after[j]).0
            by {
            let a = if i < from { i } else { i - 1 };
            let b = if j < from { j } else { j - 1 };
            if i != from {
                assert(after[i] == list[a]);
            }
            if j != from {
                assert(after[j] == list[b]);
            }
            if i == from && j > from {
                assert(list[from].0 <= list[b].0);
            }
        }
        from
    }
}

/// Ordering keeps the items and their keys, and puts the keys in order.
proof fn lemma_by_key_orders<T>(items: Seq<(nat, T)>, n: int)
    requires
        0 <= n <= items.len(),
    ensures
        ascending(by_key(items, n)),
        by_key(items, n).len() == n,
        forall|j: int|
            0 <= j < n ==> exists|k: int| 0 <= k < n && #[trigger] items[k] == (#[trigger] by_key(items, n)[j]),
    decreases n,
{
    if n > 0 {
        lemma_by_key_orders(items, n - 1);
        let before = by_key(items, n - 1);
        let at = lemma_settled_place(before, items[n - 1].0, items[n - 1].1, 0);
        let after = by_key(items, n);
        assert forall|j: int| 0 <= j < n implies exists|k: int|
            0 <= k < n && #[trigger] items[k] == (#[trigger] after[j]) by {
            if j == at {
                assert(items[n - 1] == after[j]);
            } else {
                let a = if j < at { j } else { j - 1 };
                assert(after[j] == before[a]);
                let k = choose|k: int| 0 <= k < n - 1 && #[trigger] items[k] == before[a];
                assert(items[k] == after[j]);
            }
        }
    }
}

/// Ordering members that share no component gives members that share none.
proof fn lemma_by_key_apart(items: Seq<(nat, MemberModel)>, n: int)
    requires
        0 <= n <= items.len(),
        apart(unkeyed(items)),
    ensures
        apart(unkeyed(by_key(items, n))),
    decreases n,
{
    if n > 0 {
        lemma_by_key_apart(items, n - 1);
        lemma_by_key_orders(items, n - 1);
        let before = by_key(items, n - 1);
        let at = lemma_settled_place(before, items[n - 1].0, items[n - 1].1, 0);
        let after = by_key(items, n);
        let list = unkeyed(after);
        assert forall|i: int, j: int| 0 <= i < list.len() && 0 <= j < list.len() && i != j implies !overlap(
            list[i],
            list[j],
        ) by {
            let a = if i < at { i } else { i - 1 };
            let b = if j < at { j } else { j - 1 };
            if i != at {
                assert(after[i] == before[a]);
                assert(unkeyed(before)[a] == before[a].1);
            }
            if j != at {
                assert(after[j] == before[b]);
                assert(unkeyed(before)[b] == before[b].1);
            }
            if i == at {
                let k = choose|k: int| 0 <= k < n - 1 && #[trigger] items[k] == before[b];
                assert(unkeyed(items)[k] == list[j] && unkeyed(items)[n - 1] == list[i]);
            } else if j == at {
                let k = choose|k: int| 0 <= k < n - 1 && #[trigger] items[k] == before[a];
                assert(unkeyed(items)[k] == list[i] && unkeyed(items)[n - 1] == list[j]);
            } else {
                assert(!overlap(unkeyed(before)[a], unkeyed(before)[b]));
            }
        }
    }
}

/// A component of a run is covered by no member.
proof fn lemma_run_free(members: Seq<MemberModel>, register: nat, comp: nat, at: nat)
    requires
        comp <= at < comp + free_run(members, register, comp),
    ensures
        at < 4,
        !covered(members, register, at),
    decreases 4 - comp,
{
    if comp < at {
        lemma_run_free(members, register, comp + 1, at);
    }
}

/// A pad fills components of one register that no member covers.
spec fn fills(members: Seq<MemberModel>, p: MemberModel, register: nat, comp: nat) -> bool {
    &&& p.register == register
    &&& p.registers == 1
    &&& comp <= p.first
    &&& p.first + p.width <= 4
    &&& forall|c: nat| p.first <= c < p.first + p.width ==> !#[trigger] covered(members, register, c)
}

proof fn lemma_pads_fill(members: Seq<MemberModel>, register: nat, comp: nat)
    ensures
        forall|i: int|
            0 <= i < pads_in(members, register, comp).len() ==> fills(
                members,
                #[trigger] pads_in(members, register, comp)[i],
                register,
                comp,
            ),
        apart(pads_in(members, register, comp)),
    decreases 4 - comp,
{
    let run = free_run(members, register, comp);
    let all = pads_in(members, register, comp);
    if comp >= 4 {
    } else if run == 0 || comp + run > 4 {
        lemma_pads_fill(members, register, comp + 1);
    } else {
        let rest = pads_in(members, register, comp + run);
        let first = pad(register, comp, run);
        lemma_pads_fill(members, register, comp + run);
        assert(all == seq![first] + rest);
        assert forall|c: nat| comp <= c < comp + run implies !#[trigger] covered(members, register, c) by {
            lemma_run_free(members, register, comp, c);
        }
        assert(fills(members, first, register, comp));
        assert forall|i: int| 0 <= i < all.len() implies fills(members, #[trigger] all[i], register, comp) by {
            if i > 0 {
                assert(all[i] == rest[i - 1]);
            }
        }
        assert forall|i: int, j: int| 0 <= i < all.len() && 0 <= j < all.len() && i != j implies !overlap(
            all[i],
            all[j],
        ) by {
            if i > 0 {
                assert(all[i] == rest[i - 1]);
                assert(fills(members, rest[i - 1], register, comp + run));
            }
            if j > 0 {
                assert(all[j] == rest[j - 1]);
                assert(fills(members, rest[j - 1], register, comp + run));
            }
            if i > 0 && j > 0 {
                assert(!overlap(rest[i - 1], rest[j - 1]));
            }
        }
    }
}

/// The pads of the first registers share no component, neither with each other nor with a member.
proof fn lemma_gaps_fill(members: Seq<MemberModel>, n: nat)
    ensures
        forall|i: int|
            0 <= i < gaps(members, n).len() ==> (#[trigger] gaps(members, n)[i]).register < n && fills(
                members,
                gaps(members, n)[i],
                gaps(members, n)[i].register,
                0,
            ),
        apart(gaps(members, n)),
    decreases n,
{
    if n > 0 {
        let m = (n - 1) as nat;
        let before = gaps(members, m);
        let last = pads_in(members, m, 0);
        let all = gaps(members, n);
        lemma_gaps_fill(members, m);
        lemma_pads_fill(members, m, 0);
        assert(all == before + last);
        assert forall|i: int| 0 <= i < all.len() implies (#[trigger] all[i]).register < n && fills(
            members,
            all[i],
            all[i].register,
            0,
        ) by {
            if i < before.len() {
                assert(all[i] == before[i]);
            } else {
                assert(all[i] == last[i - before.len()]);
            }
        }
        assert forall|i: int, j: int| 0 <= i < all.len() && 0 <= j < all.len() && i != j implies !overlap(
            all[i],
            all[j],
        ) by {
            if i < before.len() {
                assert(all[i] == before[i]);
            } else {
                assert(all[i] == last[i - before.len()]);
            }
            if j < before.len() {
                assert(all[j] == before[j]);
            } else {
                assert(all[j] == last[j - before.len()]);
            }
        }
    }
}

/// The end of every member is below the span.
proof fn lemma_span_least(members: Seq<MemberModel>, n: int, i: int)
    requires
        0 <= i < n <= members.len(),
    ensures
        members[i].register + members[i].registers <= span(members, n),
    decreases n,
{
    if i < n - 1 {
        lemma_span_least(members, n - 1, i);
    }
}

/// Some member ends at the span, where it is not nought.
proof fn lemma_span_met(members: Seq<MemberModel>, n: int) -> (i: int)
    requires
        0 <= n <= members.len(),
        span(members, n) > 0,
    ensures
        0 <= i < n,
        members[i].register + members[i].registers == span(members, n),
    decreases n,
{
    if members[n - 1].register + members[n - 1].registers > span(members, n - 1) {
        n - 1
    } else {
        lemma_span_met(members, n - 1)
    }
}

/// The members that fields make and the pads between them.
spec fn untidy(fields: Seq<Field>) -> Seq<MemberModel> {
    let keyed = keyed_fields(fields);
    let members = unkeyed(by_key(keyed, keyed.len() as int));
    members + gaps(members, span(members, members.len() as int))
}

/// The members of a buffer stand in the order of their registers, and of their first components within one.
pub proof fn law_members_stand_in_order(fields: Seq<Field>, i: int, j: int)
    requires
        0 <= i < j < tiled(fields).len(),
    ensures
        standing(tiled(fields)[i]) <= standing(tiled(fields)[j]),
{
    let all = keyed_members(untidy(fields));
    let done = by_key(all, all.len() as int);
    lemma_by_key_orders(all, all.len() as int);
    assert(tiled(fields)[i] == done[i].1 && tiled(fields)[j] == done[j].1);
    let a = choose|k: int| 0 <= k < all.len() && #[trigger] all[k] == done[i];
    let b = choose|k: int| 0 <= k < all.len() && #[trigger] all[k] == done[j];
    assert(all[a].0 == standing(all[a].1) && all[b].0 == standing(all[b].1));
    assert(done[i].0 <= done[j].0);
}

/// The pads reach no further than the fields.
pub proof fn law_pads_reach_no_further(fields: Seq<Field>)
    ensures
        span(tiled(fields), tiled(fields).len() as int) == fields_span(fields),
{
    let keyed = keyed_fields(fields);
    let members = unkeyed(by_key(keyed, keyed.len() as int));
    let n = span(members, members.len() as int);
    let both = untidy(fields);
    let all = keyed_members(both);
    let done = by_key(all, all.len() as int);
    let list = tiled(fields);
    lemma_by_key_orders(all, all.len() as int);
    lemma_gaps_fill(members, n);
    let reached = span(list, list.len() as int);
    if reached > 0 {
        let i = lemma_span_met(list, list.len() as int);
        assert(list[i] == done[i].1);
        let k = choose|k: int| 0 <= k < all.len() && #[trigger] all[k] == done[i];
        assert(all[k].1 == both[k]);
        if k < members.len() {
            assert(both[k] == members[k]);
            lemma_span_least(members, members.len() as int, k);
        } else {
            assert(both[k] == gaps(members, n)[k - members.len()]);
        }
        assert(reached <= n);
    }
    if n > 0 {
        let m = lemma_span_met(members, members.len() as int);
        lemma_by_key_orders(keyed, keyed.len() as int);
        let sorted = by_key(keyed, keyed.len() as int);
        assert(members[m] == sorted[m].1);
        let f = choose|k: int| 0 <= k < keyed.len() && #[trigger] keyed[k] == sorted[m];
        assert(keyed[f].1 == member_of(fields[f]));
        law_every_field_is_declared(fields, f);
        let i = choose|i: int| 0 <= i < list.len() && #[trigger] list[i] == member_of(fields[f]);
        lemma_span_least(list, list.len() as int, i);
    }
}

/// Where no two fields share a component, no two members of the buffer do.
pub proof fn law_members_share_no_component(fields: Seq<Field>)
    requires
        apart(members_of(fields)),
    ensures
        apart(tiled(fields)),
{
    let keyed = keyed_fields(fields);
    assert(unkeyed(keyed) =~= members_of(fields));
    lemma_by_key_apart(keyed, keyed.len() as int);
    let members = unkeyed(by_key(keyed, keyed.len() as int));
    let n = span(members, members.len() as int);
    let pads = gaps(members, n);
    lemma_gaps_fill(members, n);
    let both = untidy(fields);
    assert forall|i: int, j: int| 0 <= i < both.len() && 0 <= j < both.len() && i != j implies !overlap(
        both[i],
        both[j],
    ) by {
        let c = members.len() as int;
        if i < c {
            assert(both[i] == members[i]);
        } else {
            assert(both[i] == pads[i - c]);
        }
        if j < c {
            assert(both[j] == members[j]);
        } else {
            assert(both[j] == pads[j - c]);
        }
        if i < c && j < c {
            assert(!overlap(members[i], members[j]));
        } else if i >= c && j >= c {
            assert(!overlap(pads[i - c], pads[j - c]));
        } else {
            let m = if i < c { members[i] } else { members[j] };
            let p = if i < c { pads[j - c] } else { pads[i - c] };
            assert forall|register: nat, comp: nat| comp < 4 && #[trigger] p.covers(register, comp) implies !m.covers(
                register,
                comp,
            ) by {
                assert(!covered(members, register, comp));
            }
        }
    }
    let all = keyed_members(both);
    assert(unkeyed(all) =~= both);
    lemma_by_key_apart(all, all.len() as int);
}

/// Where no two fields share a component, every component of every register the buffer reaches is that of exactly one
/// of its members.
pub proof fn law_one_member_per_component(fields: Seq<Field>, register: nat, comp: nat)
    requires
        apart(members_of(fields)),
        register < span(tiled(fields), tiled(fields).len() as int),
        comp < 4,
    ensures
        exists|i: int|
            0 <= i < tiled(fields).len() && (#[trigger] tiled(fields)[i]).covers(register, comp) && forall|j: int|
                0 <= j < tiled(fields).len() && (#[trigger] tiled(fields)[j]).covers(register, comp) ==> j == i,
{
    law_pads_reach_no_further(fields);
    law_every_component_is_declared(fields, register, comp);
    law_members_share_no_component(fields);
    let list = tiled(fields);
    let i = choose|i: int| 0 <= i < list.len() && (#[trigger] list[i]).covers(register, comp);
    assert forall|j: int| 0 <= j < list.len() && (#[trigger] list[j]).covers(register, comp) implies j == i by {
        if j != i {
            assert(overlap(list[i], list[j]));
        }
    }
}

} // verus!
