//! The names given to the registers a shader binds, and the constant buffers behind them.
use super::expr::{ends_with, finishes, lane, lane_letter, starts_with, begins, Domain};
use super::words::{digit_char, digit_value, find_char, first_of, is_digit, number_of, parse_number, value_of};
use crate::text::{
    align_left, cat2, cat3, cat4, cat5, cat6, cat7, chars_of, dec, decimal, from_span, left_aligned, same,
};
use vstd::prelude::*;

verus! {

/// Values by the slot they are bound to, in the order of the slots.
pub struct Slots<V> {
    entries: Vec<(u32, V)>,
}

/// How many entries, from an index on, stand before a slot's own place.
pub open spec fn rank<V>(entries: Seq<(u32, V)>, slot: u32, from: int) -> int
    decreases entries.len() - from,
{
    if from < 0 || from >= entries.len() || entries[from].0 >= slot {
        from
    } else {
        rank(entries, slot, from + 1)
    }
}

/// The entries after a value was bound to a slot.
pub open spec fn bound<V>(entries: Seq<(u32, V)>, slot: u32, value: V) -> Seq<(u32, V)> {
    let at = rank(entries, slot, 0);
    if at < entries.len() && entries[at].0 == slot {
        entries.update(at, (slot, value))
    } else {
        entries.insert(at, (slot, value))
    }
}

/// What is bound to a slot, from an index on.
pub open spec fn lookup<V>(entries: Seq<(u32, V)>, slot: u32, from: int) -> Option<V>
    decreases entries.len() - from,
{
    if from < 0 || from >= entries.len() {
        None
    } else if entries[from].0 == slot {
        Some(entries[from].1)
    } else {
        lookup(entries, slot, from + 1)
    }
}

/// The slots stand in order, each once.
pub open spec fn in_slot_order<V>(entries: Seq<(u32, V)>) -> bool {
    forall|i: int, j: int| 0 <= i < j < entries.len() ==> (#[trigger] entries[i]).0 < (#[trigger] entries[j]).0
}

proof fn lemma_rank<V>(entries: Seq<(u32, V)>, slot: u32, from: int)
    requires
        0 <= from <= entries.len(),
    ensures
        from <= rank(entries, slot, from) <= entries.len(),
        forall|i: int| from <= i < rank(entries, slot, from) ==> (#[trigger] entries[i]).0 < slot,
        rank(entries, slot, from) < entries.len() ==> entries[rank(entries, slot, from)].0 >= slot,
    decreases entries.len() - from,
{
    if from < entries.len() && entries[from].0 < slot {
        lemma_rank(entries, slot, from + 1);
    }
}

proof fn lemma_lookup_at<V>(entries: Seq<(u32, V)>, slot: u32, from: int, at: int)
    requires
        0 <= from <= at < entries.len(),
        entries[at].0 == slot,
        forall|i: int| from <= i < at ==> (#[trigger] entries[i]).0 != slot,
    ensures
        lookup(entries, slot, from) == Some(entries[at].1),
    decreases at - from,
{
    if from < at {
        lemma_lookup_at(entries, slot, from + 1, at);
    }
}

proof fn lemma_lookup_missing<V>(entries: Seq<(u32, V)>, slot: u32, from: int)
    requires
        0 <= from,
        forall|i: int| from <= i < entries.len() ==> (#[trigger] entries[i]).0 != slot,
    ensures
        lookup(entries, slot, from) is None,
    decreases entries.len() - from,
{
    if from < entries.len() {
        lemma_lookup_missing(entries, slot, from + 1);
    }
}

/// What is found in a slot is what one of the entries binds to it, and nothing is found where none does.
proof fn lemma_lookup<V>(entries: Seq<(u32, V)>, slot: u32, from: int)
    requires
        0 <= from,
    ensures
        match lookup(entries, slot, from) {
            Some(v) => exists|i: int|
                from <= i < entries.len() && (#[trigger] entries[i]).0 == slot && entries[i].1 == v,
            None => forall|i: int| from <= i < entries.len() ==> (#[trigger] entries[i]).0 != slot,
        },
    decreases entries.len() - from,
{
    if from < entries.len() && entries[from].0 != slot {
        lemma_lookup(entries, slot, from + 1);
    }
}

/// Binding a slot leaves what is bound to the others.
pub proof fn law_other_slots_stay<V>(entries: Seq<(u32, V)>, slot: u32, value: V, other: u32)
    requires
        in_slot_order(entries),
        other != slot,
    ensures
        lookup(bound(entries, slot, value), other, 0) == lookup(entries, other, 0),
{
    let at = rank(entries, slot, 0);
    let after = bound(entries, slot, value);
    lemma_rank(entries, slot, 0);
    law_bound_is_found(entries, slot, value);
    lemma_lookup(entries, other, 0);
    if lookup(entries, other, 0) is Some {
        let i = choose|i: int|
            0 <= i < entries.len() && (#[trigger] entries[i]).0 == other && entries[i].1 == lookup(entries, other, 0)->0;
        let place = if after.len() == entries.len() || i < at {
            i
        } else {
            i + 1
        };
        assert(after[place] == entries[i]);
        assert forall|k: int| 0 <= k < place implies (#[trigger] after[k]).0 != other by {
            assert(after[k].0 < after[place].0);
        }
        lemma_lookup_at(after, other, 0, place);
    } else {
        assert forall|k: int| 0 <= k < after.len() implies (#[trigger] after[k]).0 != other by {
            if after.len() == entries.len() || k < at {
                if k != at {
                    assert(after[k] == entries[k]);
                }
            } else if k > at {
                assert(after[k] == entries[k - 1]);
            }
        }
        lemma_lookup_missing(after, other, 0);
    }
}

/// Binding keeps the slots in order, and what was bound is what is found.
pub proof fn law_bound_is_found<V>(entries: Seq<(u32, V)>, slot: u32, value: V)
    requires
        in_slot_order(entries),
    ensures
        in_slot_order(bound(entries, slot, value)),
        lookup(bound(entries, slot, value), slot, 0) == Some(value),
{
    let at = rank(entries, slot, 0);
    lemma_rank(entries, slot, 0);
    let after = bound(entries, slot, value);
    assert(in_slot_order(after)) by {
        assert forall|i: int, j: int| 0 <= i < j < after.len() implies (#[trigger] after[i]).0 < (#[trigger] after[j]).0
            by {
            if after.len() == entries.len() + 1 {
                if i < at && j > at {
                    assert(entries[i].0 < slot);
                    assert(after[j] == entries[j - 1]);
                } else if i == at {
                    assert(after[j] == entries[j - 1]);
                    if j - 1 > at {
                        assert(entries[at].0 < entries[j - 1].0);
                    }
                } else if i > at {
                    assert(after[i] == entries[i - 1]);
                    assert(after[j] == entries[j - 1]);
                }
            } else if i == at {
                assert(entries[at].0 < entries[j].0);
            } else if j == at {
                assert(entries[i].0 < entries[at].0);
            } else {
                assert(entries[i].0 < entries[j].0);
            }
        }
    }
    assert forall|i: int| 0 <= i < at implies (#[trigger] after[i]).0 != slot by {
        assert(after[i] == entries[i]);
    }
    lemma_lookup_at(after, slot, 0, at);
}

impl<V> Slots<V> {
    /// The slots and what is bound to each.
    pub closed spec fn view(&self) -> Seq<(u32, V)> {
        self.entries@
    }

    #[verifier::type_invariant]
    spec fn ordered(self) -> bool {
        in_slot_order(self.entries@)
    }

    /// Nothing bound.
    pub fn new() -> (r: Self)
        ensures
            r@ == Seq::<(u32, V)>::empty(),
    {
        Slots { entries: Vec::new() }
    }

    /// Bind a value to a slot, in place of what was bound there. The others keep what they held.
    pub fn insert(&mut self, slot: u32, value: V)
        ensures
            final(self)@ == bound(old(self)@, slot, value),
            in_slot_order(final(self)@),
            lookup(final(self)@, slot, 0) == Some(value),
            forall|other: u32|
                other != slot ==> #[trigger] lookup(final(self)@, other, 0) == lookup(old(self)@, other, 0),
    {
        proof {
            use_type_invariant(&*self);
        }
        let ghost before = self.entries@;
        let mut at: usize = 0;
        while at < self.entries.len() && self.entries[at].0 < slot
            invariant
                at <= self.entries@.len(),
                before == self.entries@,
                rank(before, slot, 0) == rank(before, slot, at as int),
            decreases self.entries@.len() - at,
        {
            at = at + 1;
        }
        proof {
            law_bound_is_found(before, slot, value);
            assert forall|other: u32| other != slot implies #[trigger] lookup(bound(before, slot, value), other, 0)
                == lookup(before, other, 0) by {
                law_other_slots_stay(before, slot, value, other);
            }
        }
        let mut entries: Vec<(u32, V)> = Vec::new();
        std::mem::swap(&mut self.entries, &mut entries);
        if at < entries.len() && entries[at].0 == slot {
            entries.set(at, (slot, value));
        } else {
            entries.insert(at, (slot, value));
        }
        self.entries = entries;
    }

    /// What is bound to a slot.
    pub fn get(&self, slot: u32) -> (r: Option<&V>)
        ensures
            match r {
                Some(v) => lookup(self@, slot, 0) == Some(*v),
                None => lookup(self@, slot, 0) is None,
            },
    {
        let mut i: usize = 0;
        while i < self.entries.len()
            invariant
                i <= self.entries@.len(),
                lookup(self.entries@, slot, 0) == lookup(self.entries@, slot, i as int),
            decreases self.entries@.len() - i,
        {
            if self.entries[i].0 == slot {
                return Some(&self.entries[i].1);
            }
            i = i + 1;
        }
        None
    }

    /// How many slots have something bound. Each is bound once, and they stand in order.
    pub fn len(&self) -> (r: usize)
        ensures
            r == self@.len(),
            in_slot_order(self@),
    {
        proof {
            use_type_invariant(self);
        }
        self.entries.len()
    }

    /// Whether nothing is bound.
    pub fn is_empty(&self) -> (r: bool)
        ensures
            r == (self@.len() == 0),
    {
        self.entries.len() == 0
    }

    /// The slot of an entry.
    pub fn slot_at(&self, i: usize) -> (r: u32)
        requires
            i < self@.len(),
        ensures
            r == self@[i as int].0,
    {
        self.entries[i].0
    }

    /// What an entry holds.
    pub fn value_at(&self, i: usize) -> (r: &V)
        requires
            i < self@.len(),
        ensures
            *r == self@[i as int].1,
    {
        &self.entries[i].1
    }
}

/// The names to give the registers a shader binds. Slots are per shader, so this is built against the
/// shader being read rather than against whatever collection it came out of.
///
/// Everything is optional: a slot with no entry reads as the register itself.
pub struct Names {
    /// Constant buffers, by `b` slot.
    pub constants: Slots<Buffer>,
    /// Texture and buffer resources, by `t` slot.
    pub textures: Slots<String>,
    /// Samplers, by `s` slot.
    pub samplers: Slots<String>,
    /// The shader's own input signature, by register.
    pub inputs: Slots<Semantic>,
    /// The shader's own output signature, by register.
    pub outputs: Slots<Semantic>,
}

impl Default for Names {
    fn default() -> (r: Self)
        ensures
            r.constants@.len() == 0,
            r.textures@.len() == 0,
            r.samplers@.len() == 0,
            r.inputs@.len() == 0,
            r.outputs@.len() == 0,
    {
        Names {
            constants: Slots::new(),
            textures: Slots::new(),
            samplers: Slots::new(),
            inputs: Slots::new(),
            outputs: Slots::new(),
        }
    }
}

/// A constant buffer and what sits in it.
pub struct Buffer {
    /// Buffer name (e.g. `"g_CameraParameter"`).
    pub name: String,
    /// The fields and the pads covering what they leave between them, in declaration order. HLSL packs a
    /// member after the one before it, so a field only lands on the register the bytecode reads it from when
    /// everything ahead of it takes exactly the room it claims.
    members: Vec<Member>,
}

/// One line of a buffer declaration, and the room it takes.
struct Member {
    /// Member name, or the generated name of a pad.
    name: String,
    /// The type as declared, which is not always how the field was described.
    kind: String,
    /// Elements, where the field is declared as the registers it spans rather than as its own type.
    elements: u32,
    /// The register its first component sits in, counted from the start of the buffer.
    register: u64,
    /// The first component of `register` it sits in.
    first: u8,
    /// Registers it spans.
    registers: u64,
    /// Components of each register it fills, which a matrix narrower than four leaves short.
    width: u8,
}

/// What a line of a buffer declaration holds.
pub struct MemberModel {
    pub name: Seq<char>,
    pub kind: Seq<char>,
    pub elements: u32,
    pub register: nat,
    pub first: nat,
    pub registers: nat,
    pub width: nat,
}

/// What a buffer holds.
pub struct BufferModel {
    pub name: Seq<char>,
    pub members: Seq<MemberModel>,
}

/// A field of a constant buffer, as the caller wants it declared.
pub struct Field {
    /// Field name (e.g. `"m_TransformMatrix"`).
    pub name: String,
    /// How the field is declared, so the preamble reads as the HLSL that would bind it.
    pub kind: String,
    /// Its register, counted from the start of the buffer.
    pub register: u32,
    /// Registers it spans, which is what says whether indexing into it is meaningful.
    pub registers: u32,
    /// Which components of its first register it covers. Whole registers for a buffer the reflection
    /// described; a real mask where the caller knows several fields share one register.
    pub mask: u8,
}

/// One entry of a shader's input or output signature. The name is both what the body calls it and what the
/// pipeline binds it to, which HLSL is happy to have be the same word.
pub struct Semantic {
    /// Semantic name, with its index where the signature has more than one (e.g. `"TEXCOORD2"`).
    pub name: String,
    /// Its declared type, sized to the components the signature marks.
    pub kind: String,
}

/// The scalar type of a component type of a signature.
pub open spec fn component_base(component_type: u32) -> Seq<char> {
    if component_type == 1 {
        "uint"@
    } else if component_type == 2 {
        "int"@
    } else {
        "float"@
    }
}

/// How many bits a number takes.
pub open spec fn bit_length(n: nat) -> nat
    decreases n,
{
    if n == 0 {
        0
    } else {
        1 + bit_length(n / 2)
    }
}

/// A type of a number of lanes, which one lane does not spell out.
pub open spec fn lanes_text(base: Seq<char>, lanes: nat) -> Seq<char> {
    if lanes == 1 {
        base
    } else {
        base + dec(lanes)
    }
}

fn bits_of(n: u8) -> (r: u64)
    ensures
        r == bit_length(n as nat),
        r <= 8,
    decreases n,
{
    reveal_with_fuel(bit_length, 9);
    let mut left: u8 = n;
    let mut count: u64 = 0;
    while left > 0
        invariant
            count + bit_length(left as nat) == bit_length(n as nat),
            bit_length(n as nat) <= 8,
        decreases left,
    {
        left = left / 2;
        count = count + 1;
    }
    count
}

fn sized_kind(base: &str, lanes: u64) -> (r: String)
    ensures
        r@ == lanes_text(base@, lanes as nat),
{
    if lanes == 1 {
        base.to_owned()
    } else {
        let d = decimal(lanes);
        cat2(base, d.as_str())
    }
}

impl Semantic {
    /// A signature entry as the shader declared it. The index is only spelled out where there is more than
    /// one of the semantic, since a system value with a nought after it is not always accepted.
    pub fn new(name: &str, index: u32, component_type: u32, mask: u8) -> (r: Self)
        ensures
            r.name@ == if index == 0 {
                name@
            } else {
                name@ + dec(index as nat)
            },
            r.kind@ == lanes_text(
                component_base(component_type),
                bit_length(if mask == 0 {
                    1
                } else {
                    mask as nat
                }),
            ),
    {
        let base = match component_type {
            1 => "uint",
            2 => "int",
            _ => "float",
        };
        let held: u8 = if mask == 0 {
            1
        } else {
            mask
        };
        let lanes: u64 = bits_of(held);
        let spelled = if index == 0 {
            name.to_owned()
        } else {
            let d = decimal(index as u64);
            cat2(name, d.as_str())
        };
        Semantic { name: spelled, kind: sized_kind(base, lanes) }
    }
}

/// The number of noughts below the lowest bit that is set, eight where none is.
pub open spec fn low_bit(mask: nat) -> nat
    decreases mask,
{
    if mask == 0 {
        8
    } else if mask % 2 == 1 {
        0
    } else {
        1 + low_bit(mask / 2)
    }
}

fn lowest_bit(mask: u8) -> (r: u64)
    ensures
        r == low_bit(mask as nat),
        r <= 8,
{
    reveal_with_fuel(low_bit, 9);
    if mask == 0 {
        return 8;
    }
    let mut left: u8 = mask;
    let mut count: u64 = 0;
    while left % 2 == 0
        invariant
            left > 0,
            count + low_bit(left as nat) == low_bit(mask as nat),
            low_bit(mask as nat) <= 8,
        decreases left,
    {
        left = left / 2;
        count = count + 1;
    }
    count
}

/// How many closing brackets a text ends with, before a place.
pub open spec fn unclosed(s: Seq<char>, until: int) -> int
    decreases until,
{
    if until > 0 && s[until - 1] == ']' {
        unclosed(s, until - 1)
    } else {
        until
    }
}

/// A declared type split into its shape and how many of them: `float3x4[2]` is three rows of four, twice
/// over.
pub open spec fn shape(kind: Seq<char>) -> (Seq<char>, u32) {
    match first_of(kind, '[', 0) {
        None => (kind, 0),
        Some(at) => {
            let rest = kind.skip(at + 1);
            let inner = rest.take(unclosed(rest, rest.len() as int));
            (
                kind.take(at),
                match number_of(inner) {
                    Some(n) => n,
                    None => 0,
                },
            )
        },
    }
}

fn shape_of(kind: &str) -> (r: (String, u32))
    ensures
        (r.0@, r.1) == shape(kind@),
{
    let k = chars_of(kind);
    match find_char(k.as_slice(), '[', 0) {
        None => (kind.to_owned(), 0),
        Some(at) => {
            let ghost rest = kind@.skip(at + 1);
            let mut end: usize = k.len();
            while end > at + 1 && k[end - 1] == ']'
                invariant
                    at < k@.len(),
                    at + 1 <= end <= k@.len() <= usize::MAX,
                    k@ == kind@,
                    rest == kind@.skip(at + 1),
                    unclosed(rest, rest.len() as int) == unclosed(rest, end - (at + 1)),
                decreases end,
            {
                assert(rest[end - 1 - (at + 1)] == k@[end - 1]);
                end = end - 1;
            }
            let mut inner: Vec<char> = Vec::new();
            let mut i: usize = at + 1;
            while i < end
                invariant
                    at < k@.len(),
                    at + 1 <= i <= end <= k@.len(),
                    k@ == kind@,
                    rest == kind@.skip(at + 1),
                    inner@ == rest.take(i - (at + 1)),
                decreases end - i,
            {
                inner.push(k[i]);
                proof {
                    assert(inner@ =~= rest.take(i + 1 - (at + 1)));
                }
                i = i + 1;
            }
            proof {
                if end > at + 1 {
                    assert(rest[end - 1 - (at + 1)] == k@[end - 1]);
                }
                assert(k@.subrange(0, at as int) =~= kind@.take(at as int));
            }
            let count: u32 = match parse_number(inner.as_slice()) {
                Some(n) => n,
                None => 0,
            };
            (from_span(k.as_slice(), 0, at), count)
        },
    }
}

/// The digits among the first characters of a text.
pub open spec fn digits_in(s: Seq<char>, n: int) -> Seq<nat>
    decreases n,
{
    if n <= 0 {
        Seq::empty()
    } else if is_digit(s[n - 1]) {
        digits_in(s, n - 1).push(digit_value(s[n - 1]))
    } else {
        digits_in(s, n - 1)
    }
}

/// A number of lanes between one and four.
pub open spec fn clamped(n: nat) -> nat {
    if n < 1 {
        1
    } else if n > 4 {
        4
    } else {
        n
    }
}

/// How much of a buffer a declared type takes: registers, and components of each. An array spends a whole
/// register on every element, and a matrix one on every row, so an array of matrices spends one on each row
/// of each element.
pub open spec fn footprint(kind: Seq<char>, elements: u32) -> (nat, nat) {
    let digits = digits_in(kind, kind.len() as int);
    let times = if elements == 0 {
        1
    } else {
        elements as nat
    };
    if digits.len() == 2 {
        (digits[0] * times, clamped(digits[1]))
    } else if digits.len() == 1 {
        (times, clamped(digits[0]))
    } else {
        (times, 1)
    }
}

fn clamp_lanes(n: u32) -> (r: u8)
    ensures
        r == clamped(n as nat),
{
    if n < 1 {
        1
    } else if n > 4 {
        4
    } else {
        n as u8
    }
}

fn footprint_of(kind: &str, elements: u32) -> (r: (u64, u8))
    ensures
        (r.0 as nat, r.1 as nat) == footprint(kind@, elements),
        1 <= r.1 <= 4,
{
    let k = chars_of(kind);
    let mut digits: Vec<u32> = Vec::new();
    let mut i: usize = 0;
    while i < k.len()
        invariant
            i <= k@.len(),
            k@ == kind@,
            digits@.len() == digits_in(kind@, i as int).len(),
            forall|j: int| 0 <= j < digits@.len() ==> #[trigger] digits@[j] == digits_in(kind@, i as int)[j],
            forall|j: int| 0 <= j < digits@.len() ==> #[trigger] digits@[j] <= 9,
        decreases k@.len() - i,
    {
        if digit_char(k[i]) {
            digits.push(value_of(k[i]));
        }
        i = i + 1;
    }
    let times: u64 = if elements == 0 {
        1
    } else {
        elements as u64
    };
    if digits.len() == 2 {
        let rows: u64 = digits[0] as u64;
        proof {
            let a = rows as int;
            let b = times as int;
            assert(0 <= a * b <= 9 * 0xFFFF_FFFF) by (nonlinear_arith)
                requires
                    0 <= a <= 9,
                    0 <= b <= 0xFFFF_FFFF,
            ;
        }
        (rows * times, clamp_lanes(digits[1]))
    } else if digits.len() == 1 {
        (times, clamp_lanes(digits[0]))
    } else {
        (times, 1)
    }
}

/// The member that declares a field.
///
/// A matrix answers to being indexed by register, since a row is a register, and an array of them answers to
/// being indexed twice: by element, and then by row within it. An array of anything else counts elements
/// rather than registers, so it keeps the registers it is, which is what the bytecode addresses. Rows
/// narrower than a register leave a gap in every one of them, and there is nowhere to declare a pad in the
/// middle of a matrix.
pub open spec fn member_of(field: Field) -> MemberModel {
    let (base, count) = shape(field.kind@);
    let own = ends_with(base, "x4"@) || (count == 0 && field.registers == 1);
    let kind = if own {
        base
    } else {
        "float4"@
    };
    let elements = if own {
        count
    } else {
        field.registers
    };
    MemberModel {
        name: field.name@,
        kind,
        elements,
        register: field.register as nat,
        first: if low_bit(field.mask as nat) > 3 {
            3
        } else {
            low_bit(field.mask as nat)
        },
        registers: footprint(kind, elements).0,
        width: footprint(kind, elements).1,
    }
}

impl MemberModel {
    /// The member covers a component of a register.
    pub open spec fn covers(self, register: nat, comp: nat) -> bool {
        let first = if register == self.register {
            self.first
        } else {
            0
        };
        self.register <= register < self.register + self.registers && first <= comp < first + self.width
    }

    /// Rows in each element. One where the member is not a matrix, since a register is then the whole of an
    /// element.
    pub open spec fn rows(self) -> u32 {
        match first_of(self.kind, 'x', 0) {
            None => 1,
            Some(at) => match number_of(from_digit(self.kind.take(at))) {
                Some(n) => n,
                None => 1,
            },
        }
    }

    /// How many elements the member is declared with, where it is an array.
    pub open spec fn suffix(self) -> Seq<char> {
        if self.elements == 0 {
            ""@
        } else {
            "["@ + dec(self.elements as nat) + "]"@
        }
    }

    /// The line that declares the member. Only what is still declared a matrix has its order spelled, so that
    /// indexing one gives the register the body asked for rather than a column of it.
    pub open spec fn declaration(self) -> Seq<char> {
        "    "@ + (if first_of(self.kind, 'x', 0) is Some {
            "row_major "@
        } else {
            ""@
        }) + self.kind + " "@ + self.name + self.suffix() + ";"@
    }

    /// Where the member sits in one element of the buffer, for a buffer whose elements are picked at run time
    /// and so cannot be reached into by name.
    pub open spec fn placed(self) -> Seq<char> {
        let at = if self.registers > 1 {
            "["@ + dec(self.register) + ".."@ + dec((self.register + self.registers - 1) as nat) + "]"@
        } else {
            "["@ + dec(self.register) + "]."@ + Seq::new(self.width, |i: int| lane_letter(((self.first + i) % 4) as u8))
        };
        "//   "@ + left_aligned(at, 10) + " "@ + self.kind + " "@ + self.name + self.suffix()
    }
}

/// The text from its first digit on.
pub open spec fn from_digit(s: Seq<char>) -> Seq<char>
    decreases s.len(),
{
    if s.len() > 0 && !is_digit(s[0]) {
        from_digit(s.skip(1))
    } else {
        s
    }
}

impl Member {
    spec fn view(&self) -> MemberModel {
        MemberModel {
            name: self.name@,
            kind: self.kind@,
            elements: self.elements,
            register: self.register as nat,
            first: self.first as nat,
            registers: self.registers as nat,
            width: self.width as nat,
        }
    }

    /// The member's numbers are as small as its field's.
    #[verifier::type_invariant]
    spec fn small(&self) -> bool {
        self.register + self.registers <= 0x11_0000_0000 && self.first <= 3 && self.width <= 4
    }

    fn new(field: &Field) -> (r: Self)
        ensures
            r@ == member_of(*field),
            r.small(),
    {
        let (base, count) = shape_of(field.kind.as_str());
        let own: bool = finishes(base.as_str(), "x4") || (count == 0 && field.registers == 1);
        let kind = if own {
            base
        } else {
            "float4".to_owned()
        };
        let elements: u32 = if own {
            count
        } else {
            field.registers
        };
        let (registers, width) = footprint_of(kind.as_str(), elements);
        let low: u64 = lowest_bit(field.mask);
        let first: u8 = if low > 3 {
            3
        } else {
            low as u8
        };
        proof {
            lemma_footprint_small(kind@, elements);
        }
        Member {
            name: field.name.clone(),
            kind,
            elements,
            register: field.register as u64,
            first,
            registers,
            width,
        }
    }

    fn rows(&self) -> (r: u32)
        ensures
            r == self@.rows(),
    {
        let k = chars_of(self.kind.as_str());
        match find_char(k.as_slice(), 'x', 0) {
            None => 1,
            Some(at) => {
                let mut from: usize = 0;
                let ghost left = self.kind@.take(at as int);
                proof {
                    assert(left.skip(0) =~= left);
                }
                while from < at && !digit_char(k[from])
                    invariant
                        from <= at < k@.len(),
                        k@ == self.kind@,
                        left == self.kind@.take(at as int),
                        from_digit(left) == from_digit(left.skip(from as int)),
                    decreases at - from,
                {
                    proof {
                        assert(left.skip(from as int).skip(1) =~= left.skip(from + 1));
                    }
                    from = from + 1;
                }
                let mut inner: Vec<char> = Vec::new();
                let mut i: usize = from;
                proof {
                    assert(left.skip(from as int).take(0) =~= Seq::empty());
                }
                while i < at
                    invariant
                        from <= i <= at < k@.len(),
                        k@ == self.kind@,
                        left == self.kind@.take(at as int),
                        inner@ == left.skip(from as int).take(i - from),
                    decreases at - i,
                {
                    inner.push(k[i]);
                    proof {
                        assert(inner@ =~= left.skip(from as int).take(i + 1 - from));
                    }
                    i = i + 1;
                }
                proof {
                    assert(inner@ =~= left.skip(from as int));
                    assert(from_digit(left) == inner@);
                }
                match parse_number(inner.as_slice()) {
                    Some(n) => n,
                    None => 1,
                }
            },
        }
    }

    fn covers(&self, register: u64, comp: u8) -> (r: bool)
        ensures
            r == self@.covers(register as nat, comp as nat),
    {
        proof {
            use_type_invariant(self);
        }
        if register < self.register || register >= self.register + self.registers {
            return false;
        }
        let first: u8 = if register == self.register {
            self.first
        } else {
            0
        };
        comp >= first && comp < first + self.width
    }

    fn suffix(&self) -> (r: String)
        ensures
            r@ == self@.suffix(),
    {
        if self.elements == 0 {
            "".to_owned()
        } else {
            let d = decimal(self.elements as u64);
            cat3("[", d.as_str(), "]")
        }
    }

    fn declaration(&self) -> (r: String)
        ensures
            r@ == self@.declaration(),
    {
        let k = chars_of(self.kind.as_str());
        let order = if find_char(k.as_slice(), 'x', 0).is_some() {
            "row_major "
        } else {
            ""
        };
        let suffix = self.suffix();
        cat7("    ", order, self.kind.as_str(), " ", self.name.as_str(), suffix.as_str(), ";")
    }

    fn placed(&self) -> (r: String)
        ensures
            r@ == self@.placed(),
    {
        proof {
            use_type_invariant(self);
        }
        let start = decimal(self.register);
        let at = if self.registers > 1 {
            let end = decimal(self.register + self.registers - 1);
            cat5("[", start.as_str(), "..", end.as_str(), "]")
        } else {
            let mut lanes = String::new();
            let mut i: u8 = 0;
            let ghost want = Seq::new(self@.width, |i: int| lane_letter(((self@.first + i) % 4) as u8));
            while i < self.width
                invariant
                    i <= self.width,
                    self.small(),
                    want.len() == self.width,
                    forall|j: int| 0 <= j < want.len() ==> #[trigger] want[j] == lane_letter(((self@.first + j) % 4) as u8),
                    lanes@ == want.take(i as int),
                decreases self.width - i,
            {
                lanes.push(lane(self.first + i));
                proof {
                    assert(lane_letter((self.first + i) as u8) == want[i as int]);
                    assert(lanes@ =~= want.take(i + 1));
                }
                i = i + 1;
            }
            proof {
                assert(want.take(i as int) =~= want);
            }
            cat4("[", start.as_str(), "].", lanes.as_str())
        };
        let held = align_left(at.as_str(), 10);
        let suffix = self.suffix();
        cat7("//   ", held.as_str(), " ", self.kind.as_str(), " ", self.name.as_str(), suffix.as_str())
    }
}

proof fn lemma_digits_small(s: Seq<char>, n: int)
    ensures
        forall|j: int| 0 <= j < digits_in(s, n).len() ==> #[trigger] digits_in(s, n)[j] <= 9,
    decreases n,
{
    if n > 0 {
        lemma_digits_small(s, n - 1);
        let before = digits_in(s, n - 1);
        assert forall|j: int| 0 <= j < digits_in(s, n).len() implies #[trigger] digits_in(s, n)[j] <= 9 by {
            if j < before.len() {
                assert(digits_in(s, n)[j] == before[j]);
            } else {
                assert(is_digit(s[n - 1]));
            }
        }
    }
}

proof fn lemma_footprint_small(kind: Seq<char>, elements: u32)
    ensures
        footprint(kind, elements).0 <= 0x10_0000_0000,
        1 <= footprint(kind, elements).1 <= 4,
{
    let digits = digits_in(kind, kind.len() as int);
    lemma_digits_small(kind, kind.len() as int);
    if digits.len() == 2 {
        let a = digits[0] as int;
        let b = (if elements == 0 { 1 } else { elements as nat }) as int;
        assert(0 <= a * b <= 9 * 0xFFFF_FFFF) by (nonlinear_arith)
            requires
                0 <= a <= 9,
                0 <= b <= 0xFFFF_FFFF,
        ;
    }
}

/// A list with an item put behind the last one whose key is not greater.
pub open spec fn settled<T>(list: Seq<(nat, T)>, key: nat, item: T, from: int) -> Seq<(nat, T)>
    decreases list.len() - from,
{
    if from < 0 || from >= list.len() || list[from].0 > key {
        list.insert(from, (key, item))
    } else {
        settled(list, key, item, from + 1)
    }
}

/// The first items of a list by their keys, those of one key in the order they had.
pub open spec fn by_key<T>(items: Seq<(nat, T)>, n: int) -> Seq<(nat, T)>
    decreases n,
{
    if n <= 0 {
        Seq::empty()
    } else {
        settled(by_key(items, n - 1), items[n - 1].0, items[n - 1].1, 0)
    }
}

/// The items without their keys.
pub open spec fn unkeyed<T>(items: Seq<(nat, T)>) -> Seq<T> {
    Seq::new(items.len(), |i: int| items[i].1)
}

/// The fields with what they are ordered by.
pub open spec fn keyed_fields(fields: Seq<Field>) -> Seq<(nat, MemberModel)> {
    Seq::new(
        fields.len(),
        |i: int| (fields[i].register as nat * 16 + low_bit(fields[i].mask as nat), member_of(fields[i])),
    )
}

/// The members with what they are ordered by.
pub open spec fn keyed_members(members: Seq<MemberModel>) -> Seq<(nat, MemberModel)> {
    Seq::new(members.len(), |i: int| (members[i].register * 4 + members[i].first, members[i]))
}

/// The register past the last one that the first members reach.
pub open spec fn span(members: Seq<MemberModel>, n: int) -> nat
    decreases n,
{
    if n <= 0 {
        0
    } else {
        let end = members[n - 1].register + members[n - 1].registers;
        if end > span(members, n - 1) {
            end
        } else {
            span(members, n - 1)
        }
    }
}

/// Some member covers a component of a register.
pub open spec fn covered(members: Seq<MemberModel>, register: nat, comp: nat) -> bool {
    exists|i: int| 0 <= i < members.len() && (#[trigger] members[i]).covers(register, comp)
}

/// How many components of a register, from one on, no member covers.
pub open spec fn free_run(members: Seq<MemberModel>, register: nat, comp: nat) -> nat
    decreases 4 - comp,
{
    if comp >= 4 || covered(members, register, comp) {
        0
    } else {
        1 + free_run(members, register, comp + 1)
    }
}

/// The name a register with no field of its own is given, so that every register a shader reads has something
/// to read from.
pub open spec fn padding(register: nat) -> Seq<char> {
    "pad"@ + dec(register)
}

/// The pad that fills a run of components.
pub open spec fn pad(register: nat, comp: nat, width: nat) -> MemberModel {
    MemberModel {
        name: if width == 4 {
            padding(register)
        } else {
            padding(register) + "_"@ + dec(comp)
        },
        kind: lanes_text("float"@, width),
        elements: 0,
        register,
        first: comp,
        registers: 1,
        width,
    }
}

/// The pads of a register, from a component on.
pub open spec fn pads_in(members: Seq<MemberModel>, register: nat, comp: nat) -> Seq<MemberModel>
    decreases 4 - comp,
{
    if comp >= 4 {
        Seq::empty()
    } else if free_run(members, register, comp) == 0 || comp + free_run(members, register, comp) > 4 {
        pads_in(members, register, comp + 1)
    } else {
        seq![pad(register, comp, free_run(members, register, comp))] + pads_in(
            members,
            register,
            comp + free_run(members, register, comp),
        )
    }
}

/// The pads filling what the fields leave between them in the first registers, without which the member after
/// a gap slides down into it and takes every member after it along.
pub open spec fn gaps(members: Seq<MemberModel>, n: nat) -> Seq<MemberModel>
    decreases n,
{
    if n == 0 {
        Seq::empty()
    } else {
        gaps(members, (n - 1) as nat) + pads_in(members, (n - 1) as nat, 0)
    }
}

/// The members of a buffer: its fields and the pads between them, tiled so that implicit packing places each
/// field where the bytecode reads it.
pub open spec fn tiled(fields: Seq<Field>) -> Seq<MemberModel> {
    let keyed = keyed_fields(fields);
    let members = unkeyed(by_key(keyed, keyed.len() as int));
    let all = keyed_members(members + gaps(members, span(members, members.len() as int)));
    unkeyed(by_key(all, all.len() as int))
}

spec fn member_models(members: Seq<Member>) -> Seq<MemberModel> {
    Seq::new(members.len(), |i: int| members[i]@)
}

spec fn pair_models(pairs: Seq<(u64, Member)>) -> Seq<(nat, MemberModel)> {
    Seq::new(pairs.len(), |i: int| (pairs[i].0 as nat, pairs[i].1@))
}

spec fn all_small(members: Seq<Member>) -> bool {
    forall|i: int| 0 <= i < members.len() ==> (#[trigger] members[i]).small()
}

spec fn pairs_small(pairs: Seq<(u64, Member)>) -> bool {
    forall|i: int| 0 <= i < pairs.len() ==> (#[trigger] pairs[i]).1.small()
}

fn settle(list: &mut Vec<(u64, Member)>, key: u64, item: Member)
    requires
        pairs_small(old(list)@),
        item.small(),
    ensures
        pair_models(final(list)@) == settled(pair_models(old(list)@), key as nat, item@, 0),
        pairs_small(final(list)@),
{
    let ghost before = pair_models(list@);
    let ghost had = list@;
    let mut at: usize = 0;
    while at < list.len() && list[at].0 <= key
        invariant
            at <= list@.len(),
            list@ == had,
            before == pair_models(list@),
            settled(before, key as nat, item@, 0) == settled(before, key as nat, item@, at as int),
        decreases list@.len() - at,
    {
        at = at + 1;
    }
    let ghost m = item@;
    list.insert(at, (key, item));
    proof {
        assert(pair_models(list@) =~= before.insert(at as int, (key as nat, m)));
        assert(pairs_small(list@)) by {
            assert forall|i: int| 0 <= i < list@.len() implies (#[trigger] list@[i]).1.small() by {
                if i < at {
                    assert(list@[i] == had[i]);
                } else if i > at {
                    assert(list@[i] == had[i - 1]);
                }
            }
        }
    }
}

fn strip(pairs: Vec<(u64, Member)>) -> (r: Vec<Member>)
    requires
        pairs_small(pairs@),
    ensures
        member_models(r@) == unkeyed(pair_models(pairs@)),
        all_small(r@),
{
    let ghost all = pairs@;
    let mut pairs = pairs;
    let mut out: Vec<Member> = Vec::new();
    proof {
        assert(pairs@ == all.take(all.len() as int));
    }
    while pairs.len() > 0
        invariant
            pairs@.len() + out@.len() == all.len(),
            pairs@ == all.take(pairs@.len() as int),
            pairs_small(all),
            all_small(out@),
            forall|i: int| 0 <= i < out@.len() ==> (#[trigger] out@[i])@ == all[pairs@.len() + i].1@,
        decreases pairs@.len(),
    {
        let ghost before = pairs@;
        let ghost had = out@;
        match pairs.pop() {
            Some(last) => {
                proof {
                    assert(last == all[before.len() - 1]);
                    assert(last.1.small());
                }
                out.insert(0, last.1);
                proof {
                    assert(out@ == had.insert(0, last.1));
                    assert forall|i: int| 0 <= i < out@.len() implies (#[trigger] out@[i])@ == all[pairs@.len() + i].1@
                        by {
                        if i > 0 {
                            assert(out@[i] == had[i - 1]);
                        }
                    }
                    assert forall|i: int| 0 <= i < out@.len() implies (#[trigger] out@[i]).small() by {
                        if i > 0 {
                            assert(out@[i] == had[i - 1]);
                        }
                    }
                }
            },
            None => {},
        }
    }
    proof {
        assert(member_models(out@) =~= unkeyed(pair_models(all)));
    }
    out
}

proof fn lemma_span_bound(members: Seq<Member>, n: int)
    requires
        all_small(members),
        0 <= n <= members.len(),
    ensures
        span(member_models(members), n) <= 0x11_0000_0000,
    decreases n,
{
    if n > 0 {
        lemma_span_bound(members, n - 1);
        assert(member_models(members)[n - 1] == members[n - 1]@);
        assert(members[n - 1].small());
    }
}

fn span_of(members: &Vec<Member>) -> (r: u64)
    ensures
        r == span(member_models(members@), members@.len() as int),
{
    let ghost models = member_models(members@);
    let mut end: u64 = 0;
    let mut i: usize = 0;
    while i < members.len()
        invariant
            i <= members@.len(),
            models == member_models(members@),
            end == span(models, i as int),
        decreases members@.len() - i,
    {
        let member = &members[i];
        proof {
            use_type_invariant(member);
            assert(models[i as int] == member@);
        }
        let here: u64 = member.register + member.registers;
        if here > end {
            end = here;
        }
        i = i + 1;
    }
    end
}

fn is_covered(members: &Vec<Member>, register: u64, comp: u8) -> (r: bool)
    requires
        all_small(members@),
    ensures
        r == covered(member_models(members@), register as nat, comp as nat),
{
    let ghost models = member_models(members@);
    let mut i: usize = 0;
    while i < members.len()
        invariant
            i <= members@.len(),
            models == member_models(members@),
            all_small(members@),
            forall|j: int| 0 <= j < i ==> !(#[trigger] models[j]).covers(register as nat, comp as nat),
        decreases members@.len() - i,
    {
        assert(members@[i as int].small());
        assert(models[i as int] == members@[i as int]@);
        if members[i].covers(register, comp) {
            return true;
        }
        i = i + 1;
    }
    false
}

fn free_from(members: &Vec<Member>, register: u64, comp: u8) -> (r: u8)
    requires
        all_small(members@),
        comp <= 4,
    ensures
        r == free_run(member_models(members@), register as nat, comp as nat),
        comp + r <= 4,
    decreases 4 - comp,
{
    if comp >= 4 || is_covered(members, register, comp) {
        0
    } else {
        1 + free_from(members, register, comp + 1)
    }
}

/// The name of a pad.
fn padding_name(register: u64) -> (r: String)
    ensures
        r@ == padding(register as nat),
{
    let d = decimal(register);
    cat2("pad", d.as_str())
}

fn pad_of(register: u64, comp: u8, width: u8) -> (r: Member)
    requires
        register < 0x11_0000_0000,
        comp <= 3,
        width <= 4,
    ensures
        r@ == pad(register as nat, comp as nat, width as nat),
        r.small(),
{
    let base = padding_name(register);
    let name = if width == 4 {
        base
    } else {
        let d = decimal(comp as u64);
        cat3(base.as_str(), "_", d.as_str())
    };
    Member { name, kind: sized_kind("float", width as u64), elements: 0, register, first: comp, registers: 1, width }
}

fn push_pads(out: &mut Vec<Member>, members: &Vec<Member>, register: u64, comp: u8)
    requires
        all_small(old(out)@),
        all_small(members@),
        register < 0x11_0000_0000,
        comp <= 4,
    ensures
        member_models(final(out)@) == member_models(old(out)@) + pads_in(
            member_models(members@),
            register as nat,
            comp as nat,
        ),
        all_small(final(out)@),
    decreases 4 - comp,
{
    let ghost models = member_models(members@);
    let ghost before = member_models(out@);
    if comp >= 4 {
        proof {
            assert(before =~= before + pads_in(models, register as nat, comp as nat));
        }
        return;
    }
    let width: u8 = free_from(members, register, comp);
    if width == 0 {
        push_pads(out, members, register, comp + 1);
    } else {
        let one = pad_of(register, comp, width);
        let ghost m = one@;
        out.push(one);
        proof {
            assert(member_models(out@) =~= before + seq![m]);
        }
        push_pads(out, members, register, comp + width);
        proof {
            assert(member_models(out@) =~= before + pads_in(models, register as nat, comp as nat));
        }
    }
}

fn gaps_of(members: &Vec<Member>) -> (r: Vec<Member>)
    requires
        all_small(members@),
    ensures
        member_models(r@) == gaps(
            member_models(members@),
            span(member_models(members@), members@.len() as int),
        ),
        all_small(r@),
{
    let ghost models = member_models(members@);
    let end: u64 = span_of(members);
    proof {
        lemma_span_bound(members@, members@.len() as int);
    }
    let mut out: Vec<Member> = Vec::new();
    let mut register: u64 = 0;
    proof {
        assert(member_models(out@) =~= gaps(models, 0));
    }
    while register < end
        invariant
            register <= end <= 0x11_0000_0000,
            models == member_models(members@),
            all_small(members@),
            all_small(out@),
            member_models(out@) == gaps(models, register as nat),
        decreases end - register,
    {
        push_pads(&mut out, members, register, 0);
        register = register + 1;
    }
    out
}

impl Buffer {
    /// What the buffer holds.
    pub closed spec fn view(&self) -> BufferModel {
        BufferModel { name: self.name@, members: member_models(self.members@) }
    }

    /// What the buffer is called.
    pub(crate) fn title(&self) -> (r: &str)
        ensures
            r@ == self@.name,
    {
        self.name.as_str()
    }

    /// A buffer and its fields, tiled so that implicit packing places each field where the bytecode reads it.
    pub fn new(name: String, fields: Vec<Field>) -> (r: Self)
        ensures
            r@ == (BufferModel { name: name@, members: tiled(fields@) }),
    {
        let ghost keyed = keyed_fields(fields@);
        let mut pairs: Vec<(u64, Member)> = Vec::new();
        let mut i: usize = 0;
        proof {
            assert(pair_models(pairs@) =~= by_key(keyed, 0));
        }
        while i < fields.len()
            invariant
                i <= fields@.len(),
                keyed == keyed_fields(fields@),
                pairs_small(pairs@),
                pair_models(pairs@) == by_key(keyed, i as int),
            decreases fields@.len() - i,
        {
            let field = &fields[i];
            settle(&mut pairs, field.register as u64 * 16 + lowest_bit(field.mask), Member::new(field));
            i = i + 1;
        }
        let mut members = strip(pairs);
        let ghost first = member_models(members@);
        let mut pads = gaps_of(&members);
        let ghost between = member_models(pads@);
        let ghost both = members@ + pads@;
        members.append(&mut pads);
        let ghost all = keyed_members(member_models(members@));
        proof {
            assert(members@ =~= both);
            assert(member_models(members@) =~= first + between);
            assert(all_small(members@)) by {
                assert forall|k: int| 0 <= k < both.len() implies (#[trigger] both[k]).small() by {}
            }
        }
        let mut pairs: Vec<(u64, Member)> = Vec::new();
        let ghost held = members@;
        proof {
            assert(pair_models(pairs@) =~= by_key(all, 0));
            assert(held.skip(0) =~= held);
        }
        let mut left: usize = members.len();
        while left > 0
            invariant
                left == members@.len(),
                left <= held.len(),
                members@ == held.skip(held.len() - left),
                all == keyed_members(member_models(held)),
                all_small(held),
                pairs_small(pairs@),
                pair_models(pairs@) == by_key(all, held.len() - left),
            decreases left,
        {
            let ghost at = held.len() - left;
            let one = members.remove(0);
            proof {
                assert(one == held[at]);
                assert(one.small());
                assert(members@ =~= held.skip(at + 1));
                assert(all[at] == (one@.register * 4 + one@.first, one@));
            }
            settle(&mut pairs, one.register * 4 + one.first as u64, one);
            left = left - 1;
        }
        let done = strip(pairs);
        proof {
            assert(member_models(done@) == tiled(fields@));
        }
        Buffer { name, members: done }
    }
}

impl BufferModel {
    /// The buffer is one member named after itself, which a hand-written header declares straight into the
    /// `cbuffer` with no struct around it. Spelling the name twice to reach in says nothing, so it is left
    /// off, and a gap beside such a member takes the buffer's name so that two buffers cannot both declare a
    /// `pad3` at the outer scope.
    pub open spec fn alone(self) -> bool {
        self.members.len() == 1 && self.members[0].name == self.name
    }

    /// What a member of this buffer is written under.
    pub open spec fn inside(self) -> Seq<char> {
        if self.alone() {
            ""@
        } else {
            self.name + "."@
        }
    }

    /// What a register no member covers is written under.
    pub open spec fn gap(self, register: nat) -> Seq<char> {
        self.name + (if self.alone() {
            "_"@
        } else {
            "."@
        }) + padding(register)
    }

    /// The register past the last one any member reaches.
    pub open spec fn span(self) -> nat {
        span(self.members, self.members.len() as int)
    }

    /// The rows of a member declared as a matrix. The name of an array of matrices is not a matrix to multiply by,
    /// and this passes it over.
    pub open spec fn rows(self, member: Seq<char>) -> Option<u32> {
        match member_named(self.members, member, 0) {
            None => None,
            Some(m) => if m.elements > 0 {
                None
            } else {
                matrix_rows(m.kind)
            },
        }
    }

    /// The rows of one element of a member declared as matrices.
    pub open spec fn element_rows(self, member: Seq<char>) -> Option<u32> {
        match member_named(self.members, member, 0) {
            None => None,
            Some(m) => matrix_rows(m.kind),
        }
    }

    /// The member that covers a component of a register.
    pub open spec fn holder(self, register: nat, comp: nat) -> Option<MemberModel> {
        member_covering(self.members, register, comp, 0)
    }
}

/// The first member of a name, from an index on.
pub open spec fn member_named(members: Seq<MemberModel>, name: Seq<char>, from: int) -> Option<MemberModel>
    decreases members.len() - from,
{
    if from < 0 || from >= members.len() {
        None
    } else if members[from].name == name {
        Some(members[from])
    } else {
        member_named(members, name, from + 1)
    }
}

/// The first member that covers a component of a register, from an index on.
pub open spec fn member_covering(members: Seq<MemberModel>, register: nat, comp: nat, from: int) -> Option<MemberModel>
    decreases members.len() - from,
{
    if from < 0 || from >= members.len() {
        None
    } else if members[from].covers(register, comp) {
        Some(members[from])
    } else {
        member_covering(members, register, comp, from + 1)
    }
}

/// The rows that a type is declared with, where it is a matrix of floats.
pub open spec fn matrix_rows(kind: Seq<char>) -> Option<u32> {
    if !starts_with(kind, "float"@) {
        None
    } else {
        let rest = kind.skip("float"@.len() as int);
        match first_of(rest, 'x', 0) {
            None => None,
            Some(at) => number_of(rest.take(at)),
        }
    }
}

fn rows_of(kind: &str) -> (r: Option<u32>)
    ensures
        r == matrix_rows(kind@),
{
    if !begins(kind, "float") {
        return None;
    }
    let k = chars_of(kind);
    proof {
        reveal_strlit("float");
    }
    let mut rest: Vec<char> = Vec::new();
    let mut i: usize = 5;
    let ghost want = kind@.skip(5);
    proof {
        assert(rest@ =~= want.take(0));
    }
    while i < k.len()
        invariant
            5 <= i <= k@.len(),
            k@ == kind@,
            want == kind@.skip(5),
            rest@ == want.take(i - 5),
        decreases k@.len() - i,
    {
        rest.push(k[i]);
        proof {
            assert(rest@ =~= want.take(i + 1 - 5));
        }
        i = i + 1;
    }
    proof {
        assert(rest@ =~= want);
    }
    match find_char(rest.as_slice(), 'x', 0) {
        None => None,
        Some(at) => {
            let mut held: Vec<char> = Vec::new();
            let mut j: usize = 0;
            while j < at
                invariant
                    j <= at < rest@.len(),
                    held@ == rest@.take(j as int),
                decreases at - j,
            {
                held.push(rest[j]);
                proof {
                    assert(held@ =~= rest@.take(j + 1));
                }
                j = j + 1;
            }
            parse_number(held.as_slice())
        },
    }
}

impl Buffer {
    /// Whether the buffer is one member named after itself.
    pub(crate) fn alone(&self) -> (r: bool)
        ensures
            r == self@.alone(),
    {
        proof {
            assert(self@.members.len() == self.members@.len());
            if self.members@.len() == 1 {
                assert(self@.members[0] == self.members@[0]@);
            }
        }
        self.members.len() == 1 && same(self.members[0].name.as_str(), self.name.as_str())
    }

    /// Whether nothing names the inside of the buffer.
    pub(crate) fn bare(&self) -> (r: bool)
        ensures
            r == (self@.members.len() == 0),
    {
        self.members.len() == 0
    }

    /// What a member of this buffer is written under.
    fn inside(&self) -> (r: String)
        ensures
            r@ == self@.inside(),
    {
        if self.alone() {
            "".to_owned()
        } else {
            cat2(self.name.as_str(), ".")
        }
    }

    /// What a register no member covers is written under.
    pub(crate) fn gap(&self, register: u64) -> (r: String)
        ensures
            r@ == self@.gap(register as nat),
    {
        let held = padding_name(register);
        if self.alone() {
            cat3(self.name.as_str(), "_", held.as_str())
        } else {
            cat3(self.name.as_str(), ".", held.as_str())
        }
    }

    /// The rows of a member declared as a matrix. An array of matrices is declared as the registers it spans,
    /// so its name is not a matrix to multiply by and this passes it over.
    pub(crate) fn rows(&self, member: &str) -> (r: Option<u32>)
        ensures
            r == self@.rows(member@),
    {
        let ghost models = self@.members;
        let mut i: usize = 0;
        while i < self.members.len()
            invariant
                i <= self.members@.len(),
                models == member_models(self.members@),
                member_named(models, member@, 0) == member_named(models, member@, i as int),
            decreases self.members@.len() - i,
        {
            assert(models[i as int] == self.members@[i as int]@);
            if same(self.members[i].name.as_str(), member) {
                return if self.members[i].elements > 0 {
                    None
                } else {
                    rows_of(self.members[i].kind.as_str())
                };
            }
            i = i + 1;
        }
        None
    }

    /// The rows of one element of a member declared as matrices.
    pub(crate) fn element_rows(&self, member: &str) -> (r: Option<u32>)
        ensures
            r == self@.element_rows(member@),
    {
        let ghost models = self@.members;
        let mut i: usize = 0;
        while i < self.members.len()
            invariant
                i <= self.members@.len(),
                models == member_models(self.members@),
                member_named(models, member@, 0) == member_named(models, member@, i as int),
            decreases self.members@.len() - i,
        {
            assert(models[i as int] == self.members@[i as int]@);
            if same(self.members[i].name.as_str(), member) {
                return rows_of(self.members[i].kind.as_str());
            }
            i = i + 1;
        }
        None
    }

    /// The register past the last one any member reaches.
    pub(crate) fn span(&self) -> (r: u64)
        ensures
            r == self@.span(),
    {
        span_of(&self.members)
    }

    /// The declarations of the members, each with what it is ordered by.
    pub fn declarations(&self) -> (r: Vec<String>)
        ensures
            r@.len() == self@.members.len(),
            forall|i: int| 0 <= i < r@.len() ==> (#[trigger] r@[i])@ == self@.members[i].declaration(),
    {
        let mut out: Vec<String> = Vec::new();
        let mut i: usize = 0;
        while i < self.members.len()
            invariant
                i <= self.members@.len(),
                out@.len() == i,
                forall|j: int| 0 <= j < i ==> (#[trigger] out@[j])@ == self@.members[j].declaration(),
            decreases self.members@.len() - i,
        {
            assert(self@.members[i as int] == self.members@[i as int]@);
            out.push(self.members[i].declaration());
            i = i + 1;
        }
        out
    }

    /// Where each member sits in one element of the buffer.
    pub(crate) fn placements(&self) -> (r: Vec<String>)
        ensures
            r@.len() == self@.members.len(),
            forall|i: int| 0 <= i < r@.len() ==> (#[trigger] r@[i])@ == self@.members[i].placed(),
    {
        let mut out: Vec<String> = Vec::new();
        let mut i: usize = 0;
        while i < self.members.len()
            invariant
                i <= self.members@.len(),
                out@.len() == i,
                forall|j: int| 0 <= j < i ==> (#[trigger] out@[j])@ == self@.members[j].placed(),
            decreases self.members@.len() - i,
        {
            assert(self@.members[i as int] == self.members@[i as int]@);
            out.push(self.members[i].placed());
            i = i + 1;
        }
        out
    }

    /// The register and the first component of a member.
    pub(crate) fn seat(&self, i: usize) -> (r: (u64, u8))
        requires
            i < self@.members.len(),
        ensures
            r.0 == self@.members[i as int].register,
            r.1 == self@.members[i as int].first,
    {
        assert(self@.members[i as int] == self.members@[i as int]@);
        (self.members[i].register, self.members[i].first)
    }

    /// Where one component of a register sits: the name holding it, and which of that name's components it is.
    fn reach(&self, inside: &str, register: u64, comp: u8) -> (r: (String, u8))
        ensures
            (r.0@, r.1) == reached(self@, inside@, register as nat, comp),
    {
        let ghost models = self@.members;
        let mut i: usize = 0;
        while i < self.members.len()
            invariant
                i <= self.members@.len(),
                models == member_models(self.members@),
                self@.holder(register as nat, (comp % 4) as nat) == member_covering(
                    models,
                    register as nat,
                    (comp % 4) as nat,
                    i as int,
                ),
            decreases self.members@.len() - i,
        {
            assert(models[i as int] == self.members@[i as int]@);
            let member = &self.members[i];
            if member.covers(register, comp % 4) {
                let span: u64 = register - member.register;
                let rows: u32 = member.rows();
                let name = member.name.as_str();
                let base = if member.registers > 1 && member.elements == 0 {
                    let d = decimal(span);
                    cat6("(", inside, name, "[", d.as_str(), "])")
                } else if member.registers > 1 && rows > 1 {
                    let element = decimal(span / rows as u64);
                    let row = decimal(span % rows as u64);
                    let head = cat5("(", inside, name, "[", element.as_str());
                    cat4(head.as_str(), "][", row.as_str(), "])")
                } else if member.registers > 1 {
                    let d = decimal(span);
                    cat5(inside, name, "[", d.as_str(), "]")
                } else {
                    cat2(inside, name)
                };
                let first: u8 = if member.register == register {
                    member.first
                } else {
                    0
                };
                let held: u8 = if comp >= first {
                    comp - first
                } else {
                    0
                };
                return (base, held);
            }
            i = i + 1;
        }
        (self.gap(register), comp)
    }
}

/// What a register of a member is written as. A member spanning registers is indexed by which of them is being
/// read, the first one included; an array of matrices twice over, since a register is one row of one element.
/// A row of a matrix is bracketed, because taking components straight off one is not a subscript the language
/// allows.
pub open spec fn reached_base(m: MemberModel, inside: Seq<char>, register: nat) -> Seq<char> {
    let at = (register - m.register) as nat;
    if m.registers > 1 && m.elements == 0 {
        "("@ + inside + m.name + "["@ + dec(at) + "])"@
    } else if m.registers > 1 && m.rows() > 1 {
        "("@ + inside + m.name + "["@ + dec(at / m.rows() as nat) + "]["@ + dec(at % m.rows() as nat) + "])"@
    } else if m.registers > 1 {
        inside + m.name + "["@ + dec(at) + "]"@
    } else {
        inside + m.name
    }
}

/// Where one component of a register sits: the name holding it, and which of that name's components it is.
/// Within a member, the components are counted from where it starts.
pub open spec fn reached(b: BufferModel, inside: Seq<char>, register: nat, comp: u8) -> (Seq<char>, u8) {
    match b.holder(register, (comp % 4) as nat) {
        None => (b.gap(register), comp),
        Some(m) => {
            let first = if m.register == register {
                m.first
            } else {
                0
            };
            (
                reached_base(m, inside, register),
                if comp >= first {
                    (comp - first) as u8
                } else {
                    0
                },
            )
        },
    }
}

/// Where each component of a register of a buffer sits, with the element given where it is picked at run time.
/// Components are resolved one at a time because a read can straddle two fields packed into one register, and
/// there is no single name for that. Nothing where nothing names the inside of the buffer.
pub open spec fn reaching(
    names: Names,
    slot: u16,
    element: Option<Seq<char>>,
    register: u32,
    comps: Seq<u8>,
) -> Option<Seq<(Seq<char>, u8)>> {
    match lookup(names.constants@, slot as u32, 0) {
        None => None,
        Some(b) => if b@.members.len() == 0 {
            None
        } else {
            let inside = match element {
                None => b@.inside(),
                Some(held) => b@.name + "["@ + held + "]."@,
            };
            Some(Seq::new(comps.len(), |i: int| reached(b@, inside, register as nat, comps[i])))
        },
    }
}

/// What each pair of a list holds.
pub open spec fn part_views(parts: Seq<(String, u8)>) -> Seq<(Seq<char>, u8)> {
    Seq::new(parts.len(), |i: int| (parts[i].0@, parts[i].1))
}

/// An entry of a lower slot has the name.
pub open spec fn named_below(entries: Seq<(u32, String)>, slot: u32, name: Seq<char>) -> bool {
    exists|i: int| 0 <= i < entries.len() && (#[trigger] entries[i]).0 < slot && entries[i].1@ == name
}

/// An entry has the name.
pub open spec fn named_at_all(entries: Seq<(u32, String)>, name: Seq<char>) -> bool {
    exists|i: int| 0 <= i < entries.len() && (#[trigger] entries[i]).1@ == name
}

/// A texture's name, kept apart from any other bound at a different slot under the same one.
pub open spec fn texture_text(names: Names, slot: u16) -> Seq<char> {
    match lookup(names.textures@, slot as u32, 0) {
        None => "t"@ + dec(slot as nat),
        Some(name) => if named_below(names.textures@, slot as u32, name@) {
            name@ + "_t"@ + dec(slot as nat)
        } else {
            name@
        },
    }
}

/// A sampler's name. A caller may well give a sampler the same name as the texture it goes with, and two things
/// in one scope cannot share one, so the sampler gives way.
pub open spec fn sampler_text(names: Names, slot: u16) -> Seq<char> {
    match lookup(names.samplers@, slot as u32, 0) {
        None => "s"@ + dec(slot as nat),
        Some(name) => if named_at_all(names.textures@, name@) || named_below(names.samplers@, slot as u32, name@) {
            name@ + "_s"@ + dec(slot as nat)
        } else {
            name@
        },
    }
}

fn has_name_below(slots: &Slots<String>, slot: u32, name: &str) -> (r: bool)
    ensures
        r == named_below(slots@, slot, name@),
{
    let mut i: usize = 0;
    while i < slots.len()
        invariant
            i <= slots@.len(),
            forall|j: int| 0 <= j < i ==> !((#[trigger] slots@[j]).0 < slot && slots@[j].1@ == name@),
        decreases slots@.len() - i,
    {
        if slots.slot_at(i) < slot && same(slots.value_at(i).as_str(), name) {
            return true;
        }
        i = i + 1;
    }
    false
}

fn has_name(slots: &Slots<String>, name: &str) -> (r: bool)
    ensures
        r == named_at_all(slots@, name@),
{
    let mut i: usize = 0;
    while i < slots.len()
        invariant
            i <= slots@.len(),
            forall|j: int| 0 <= j < i ==> (#[trigger] slots@[j]).1@ != name@,
        decreases slots@.len() - i,
    {
        if same(slots.value_at(i).as_str(), name) {
            return true;
        }
        i = i + 1;
    }
    false
}

impl Names {
    /// Where each component of `cb{slot}[{register}]` sits: the name holding it, and which of that name's
    /// components it is.
    pub fn constant(&self, slot: u16, register: u32, comps: &[u8]) -> (r: Option<Vec<(String, u8)>>)
        ensures
            match r {
                Some(parts) => reaching(*self, slot, None, register, comps@) == Some(part_views(parts@)),
                None => reaching(*self, slot, None, register, comps@) is None,
            },
    {
        match self.constants.get(slot as u32) {
            None => None,
            Some(buffer) => {
                if buffer.bare() {
                    return None;
                }
                let inside = buffer.inside();
                Some(reach_all(buffer, inside.as_str(), register, comps))
            },
        }
    }

    /// A register of one element of a buffer whose element is picked at run time, where `element` is the text
    /// of the index. The fields describe a single element, so the register is the one within it and the
    /// subscript goes in front of them.
    pub fn element(&self, slot: u16, element: &str, register: u32, comps: &[u8]) -> (r: Option<Vec<(String, u8)>>)
        ensures
            match r {
                Some(parts) => reaching(*self, slot, Some(element@), register, comps@) == Some(part_views(parts@)),
                None => reaching(*self, slot, Some(element@), register, comps@) is None,
            },
    {
        match self.constants.get(slot as u32) {
            None => None,
            Some(buffer) => {
                if buffer.bare() {
                    return None;
                }
                let inside = cat4(buffer.name.as_str(), "[", element, "].");
                Some(reach_all(buffer, inside.as_str(), register, comps))
            },
        }
    }

    /// A texture's name, kept apart from any other bound at a different slot under the same one.
    pub fn texture(&self, slot: u16) -> (r: String)
        ensures
            r@ == texture_text(*self, slot),
    {
        let d = decimal(slot as u64);
        match self.textures.get(slot as u32) {
            None => cat2("t", d.as_str()),
            Some(name) => {
                if has_name_below(&self.textures, slot as u32, name.as_str()) {
                    cat3(name.as_str(), "_t", d.as_str())
                } else {
                    name.clone()
                }
            },
        }
    }

    /// A sampler's name, which gives way to the texture it shares one with.
    pub fn sampler(&self, slot: u16) -> (r: String)
        ensures
            r@ == sampler_text(*self, slot),
    {
        let d = decimal(slot as u64);
        match self.samplers.get(slot as u32) {
            None => cat2("s", d.as_str()),
            Some(name) => {
                if has_name(&self.textures, name.as_str()) || has_name_below(
                    &self.samplers,
                    slot as u32,
                    name.as_str(),
                ) {
                    cat3(name.as_str(), "_s", d.as_str())
                } else {
                    name.clone()
                }
            },
        }
    }
}

fn reach_all(buffer: &Buffer, inside: &str, register: u32, comps: &[u8]) -> (r: Vec<(String, u8)>)
    ensures
        part_views(r@) == Seq::new(comps@.len(), |i: int| reached(buffer@, inside@, register as nat, comps@[i])),
{
    let mut out: Vec<(String, u8)> = Vec::new();
    let mut i: usize = 0;
    while i < comps.len()
        invariant
            i <= comps@.len(),
            out@.len() == i,
            forall|j: int|
                0 <= j < i ==> ((#[trigger] out@[j]).0@, out@[j].1) == reached(
                    buffer@,
                    inside@,
                    register as nat,
                    comps@[j],
                ),
        decreases comps@.len() - i,
    {
        out.push(buffer.reach(inside, register as u64, comps[i]));
        i = i + 1;
    }
    proof {
        assert(part_views(out@) =~= Seq::new(
            comps@.len(),
            |i: int| reached(buffer@, inside@, register as nat, comps@[i]),
        ));
    }
    out
}

/// Two to a power below eight.
pub open spec fn power(n: nat) -> nat
    decreases n,
{
    if n == 0 {
        1
    } else {
        2 * power((n - 1) as nat)
    }
}

/// The components of its first register that a described field covers. Fields narrower than a register share
/// it with their neighbours, so each says which components are its own.
pub open spec fn described_mask(offset: u32, size: u32) -> nat {
    if size >= 16 {
        15
    } else {
        ((power(clamped((size / 4) as nat)) - 1) * power(((offset % 16) / 4) as nat)) as nat
    }
}

impl Field {
    /// A field the bytecode's reflection described, placed by where its bytes start.
    pub fn described(name: String, kind: String, offset: u32, size: u32) -> (r: Self)
        ensures
            r.name@ == name@,
            r.kind@ == kind@,
            r.register == offset / 16,
            r.registers == if size == 0 {
                1
            } else {
                (size + 15) / 16
            },
            r.mask == described_mask(offset, size),
    {
        let registers: u32 = if size == 0 {
            1
        } else {
            (size - 1) / 16 + 1
        };
        let mask: u8 = if size >= 16 {
            15
        } else {
            let first: u32 = (offset % 16) / 4;
            let lanes: u8 = clamp_lanes(size / 4);
            let low: u8 = match lanes {
                1 => 1,
                2 => 3,
                3 => 7,
                _ => 15,
            };
            proof {
                reveal_with_fuel(power, 6);
                assert(power(1) == 2 && power(2) == 4 && power(3) == 8 && power(4) == 16 && power(0) == 1);
            }
            match first {
                0 => low,
                1 => low * 2,
                2 => low * 4,
                _ => low * 8,
            }
        };
        Field { name, kind, register: offset / 16, registers, mask }
    }

    /// A material parameter, which shares its register with up to three others.
    pub fn packed(name: String, size: u16, register: u32, mask: u8) -> (r: Self)
        ensures
            r.name@ == name@,
            r.kind@ == lanes_text("float"@, (size / 4) as nat),
            r.register == register,
            r.registers == 1,
            r.mask == mask,
    {
        Field { name, kind: sized_kind("float", (size / 4) as u64), register, registers: 1, mask }
    }
}

/// How a declared type is read, so an integer input is not taken for a float.
pub open spec fn domain_of(kind: Seq<char>) -> Domain {
    if starts_with(kind, "uint"@) {
        Domain::Uint
    } else if starts_with(kind, "int"@) {
        Domain::Int
    } else {
        Domain::Float
    }
}

/// How a declared type is read, so an integer input is not taken for a float.
pub fn domain(kind: &str) -> (r: Domain)
    ensures
        r == domain_of(kind@),
{
    if begins(kind, "uint") {
        Domain::Uint
    } else if begins(kind, "int") {
        Domain::Int
    } else {
        Domain::Float
    }
}

/// A list holds an item under some key.
spec fn keeps<T>(list: Seq<(nat, T)>, item: T) -> bool {
    exists|i: int| 0 <= i < list.len() && (#[trigger] list[i]).1 == item
}

proof fn lemma_settled_keeps<T>(list: Seq<(nat, T)>, key: nat, item: T, from: int, other: T)
    requires
        0 <= from <= list.len(),
        keeps(list, other) || other == item,
    ensures
        keeps(settled(list, key, item, from), other),
    decreases list.len() - from,
{
    if from < list.len() && list[from].0 <= key {
        lemma_settled_keeps(list, key, item, from + 1, other);
    } else {
        let after = list.insert(from, (key, item));
        if keeps(list, other) {
            let i = choose|i: int| 0 <= i < list.len() && (#[trigger] list[i]).1 == other;
            if i < from {
                assert(after[i] == list[i]);
            } else {
                assert(after[i + 1] == list[i]);
            }
        } else {
            assert(after[from].1 == item);
        }
    }
}

proof fn lemma_by_key_keeps<T>(items: Seq<(nat, T)>, n: int, i: int)
    requires
        0 <= i < n <= items.len(),
    ensures
        keeps(by_key(items, n), items[i].1),
    decreases n,
{
    if i < n - 1 {
        lemma_by_key_keeps(items, n - 1, i);
    }
    lemma_settled_keeps(by_key(items, n - 1), items[n - 1].0, items[n - 1].1, 0, items[i].1);
}

proof fn lemma_run_bound(members: Seq<MemberModel>, register: nat, comp: nat)
    requires
        comp <= 4,
    ensures
        comp + free_run(members, register, comp) <= 4,
    decreases 4 - comp,
{
    if comp < 4 && !covered(members, register, comp) {
        lemma_run_bound(members, register, comp + 1);
    }
}

proof fn lemma_pads_cover(members: Seq<MemberModel>, register: nat, comp: nat, at: nat)
    requires
        comp <= at < 4,
        !covered(members, register, at),
    ensures
        covered(pads_in(members, register, comp), register, at),
    decreases 4 - comp,
{
    let run = free_run(members, register, comp);
    lemma_run_bound(members, register, comp);
    let all = pads_in(members, register, comp);
    if run == 0 {
        assert(covered(members, register, comp));
        lemma_pads_cover(members, register, comp + 1, at);
    } else if at < comp + run {
        assert(all[0] == pad(register, comp, run));
        assert(all[0].covers(register, at));
    } else {
        lemma_pads_cover(members, register, comp + run, at);
        let rest = pads_in(members, register, comp + run);
        let i = choose|i: int| 0 <= i < rest.len() && (#[trigger] rest[i]).covers(register, at);
        assert(all[i + 1] == rest[i]);
    }
}

proof fn lemma_gaps_cover(members: Seq<MemberModel>, n: nat, register: nat, at: nat)
    requires
        register < n,
        at < 4,
        !covered(members, register, at),
    ensures
        covered(gaps(members, n), register, at),
    decreases n,
{
    let before = gaps(members, (n - 1) as nat);
    let last = pads_in(members, (n - 1) as nat, 0);
    if register < n - 1 {
        lemma_gaps_cover(members, (n - 1) as nat, register, at);
        let i = choose|i: int| 0 <= i < before.len() && (#[trigger] before[i]).covers(register, at);
        assert(gaps(members, n)[i] == before[i]);
    } else {
        lemma_pads_cover(members, register, 0, at);
        let i = choose|i: int| 0 <= i < last.len() && (#[trigger] last[i]).covers(register, at);
        assert(gaps(members, n)[before.len() + i] == last[i]);
    }
}

/// The register past the last one that any field reaches.
pub open spec fn fields_span(fields: Seq<Field>) -> nat {
    let keyed = keyed_fields(fields);
    let members = unkeyed(by_key(keyed, keyed.len() as int));
    span(members, members.len() as int)
}

/// What the fields leave between them is declared too: below the end of the fields, every component of every
/// register is covered by a member of the buffer.
pub proof fn law_every_component_is_declared(fields: Seq<Field>, register: nat, comp: nat)
    requires
        register < fields_span(fields),
        comp < 4,
    ensures
        covered(tiled(fields), register, comp),
{
    let keyed = keyed_fields(fields);
    let members = unkeyed(by_key(keyed, keyed.len() as int));
    let n = span(members, members.len() as int);
    let pads = gaps(members, n);
    let both = members + pads;
    let all = keyed_members(both);
    if !covered(members, register, comp) {
        lemma_gaps_cover(members, n, register, comp);
        let i = choose|i: int| 0 <= i < pads.len() && (#[trigger] pads[i]).covers(register, comp);
        assert(both[members.len() + i] == pads[i]);
    } else {
        let i = choose|i: int| 0 <= i < members.len() && (#[trigger] members[i]).covers(register, comp);
        assert(both[i] == members[i]);
    }
    assert(covered(both, register, comp));
    let i = choose|i: int| 0 <= i < both.len() && (#[trigger] both[i]).covers(register, comp);
    lemma_by_key_keeps(all, all.len() as int, i);
    let done = by_key(all, all.len() as int);
    assert(all[i].1 == both[i]);
    let j = choose|j: int| 0 <= j < done.len() && (#[trigger] done[j]).1 == both[i];
    assert(tiled(fields)[j] == both[i]);
}

/// Each field is declared as the member it makes.
pub proof fn law_every_field_is_declared(fields: Seq<Field>, i: int)
    requires
        0 <= i < fields.len(),
    ensures
        tiled(fields).contains(member_of(fields[i])),
{
    let keyed = keyed_fields(fields);
    let first = by_key(keyed, keyed.len() as int);
    lemma_by_key_keeps(keyed, keyed.len() as int, i);
    assert(keyed[i].1 == member_of(fields[i]));
    let j = choose|j: int| 0 <= j < first.len() && (#[trigger] first[j]).1 == member_of(fields[i]);
    let members = unkeyed(first);
    assert(members[j] == member_of(fields[i]));
    let both = members + gaps(members, span(members, members.len() as int));
    assert(both[j] == members[j]);
    let all = keyed_members(both);
    assert(all[j].1 == both[j]);
    lemma_by_key_keeps(all, all.len() as int, j);
    let done = by_key(all, all.len() as int);
    let k = choose|k: int| 0 <= k < done.len() && (#[trigger] done[k]).1 == both[j];
    assert(tiled(fields)[k] == both[j]);
}

} // verus!
