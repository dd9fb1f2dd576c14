//! The values a walk over a shader meets, and what it decides about each of them.
use super::expr::{same_expr, Domain, Expr, ExprModel};
use super::idiom::lanes_are;
use crate::shex::ir::RegisterType;
use crate::text::same;
use vstd::prelude::*;

verus! {

/// One component of one register, by the raw register file.
pub type Slot = (u32, u32, u8);

/// A read of a register component, and how many values had been made when it happened.
pub type Touch = ((u32, u32), u8, usize);

/// A value an instruction produced.
pub struct Def {
    /// Where it went, spelled the way a reader of the output would write it.
    pub base: String,
    /// The register it landed in, which several values in a row may share.
    pub key: (u32, u32),
    /// The destination components it covers.
    pub lanes: Vec<u8>,
    pub expr: Expr,
    pub domain: Domain,
    /// Register components the expression reads, through anything folded into it. A write to one of these
    /// before the value is used means it can no longer be moved to the reader.
    pub reads: Vec<Slot>,
    /// The block it was produced in. Folding across one would move work into or out of a branch.
    pub block: usize,
    /// Set where the destination is one the output has to name: a shader output, or an array the walk does not
    /// follow.
    pub fixed: bool,
    /// Set where the value went to a name of its own rather than into a register, which is how a value that is
    /// not a float avoids being reinterpreted on the way in and out again.
    pub local: bool,
    /// Set where the value is produced inside a loop. The register is what carries a value from one turn to the
    /// next, so such a value cannot be given a name of its own.
    pub looped: bool,
}

/// What a value holds.
pub struct DefModel {
    pub base: Seq<char>,
    pub key: (u32, u32),
    pub lanes: Seq<u8>,
    pub expr: ExprModel,
    pub domain: Domain,
    pub reads: Seq<Slot>,
    pub block: usize,
    pub fixed: bool,
    pub local: bool,
    pub looped: bool,
}

impl Def {
    /// What the value holds.
    pub open spec fn view(&self) -> DefModel {
        DefModel {
            base: self.base@,
            key: self.key,
            lanes: self.lanes@,
            expr: self.expr@,
            domain: self.domain,
            reads: self.reads@,
            block: self.block,
            fixed: self.fixed,
            local: self.local,
            looped: self.looped,
        }
    }
}

/// What each value of a list holds.
pub open spec fn def_models(defs: Seq<Def>) -> Seq<DefModel> {
    Seq::new(defs.len(), |i: int| defs[i]@)
}

/// How a value gets used.
#[derive(Clone, Copy)]
pub struct Usage {
    pub reads: usize,
    /// A read that took this value together with another one, which neither can be folded into.
    pub mixed: bool,
    /// A read from a block other than the one that produced it.
    pub distant: bool,
    /// Something the expression depends on was overwritten before it was read.
    pub stale: bool,
    /// The last value to read this one, which is how far it has to last.
    pub last: usize,
    /// How many of the reads took this as a register index into a buffer of structs.
    pub indexed: usize,
    /// The size of an element, where every one of those reads agreed on it.
    pub stride: Option<u32>,
}

/// A value nothing has used.
pub open spec fn unused() -> Usage {
    Usage { reads: 0, mixed: false, distant: false, stale: false, last: 0, indexed: 0, stride: None }
}

impl Default for Usage {
    fn default() -> (r: Self)
        ensures
            r == unused(),
    {
        Usage { reads: 0, mixed: false, distant: false, stale: false, last: 0, indexed: 0, stride: None }
    }
}

/// A flag of a list, down past its end.
pub open spec fn flag(flags: Seq<bool>, at: int) -> bool {
    0 <= at < flags.len() && flags[at]
}

/// A flag of a list, down past its end.
pub fn flagged(flags: &Vec<bool>, at: usize) -> (r: bool)
    ensures
        r == flag(flags@, at as int),
{
    at < flags.len() && flags[at]
}

/// The components a write covers, which only ever has four to choose from.
#[derive(Clone, Copy)]
pub struct Cover {
    pub x: bool,
    pub y: bool,
    pub z: bool,
    pub w: bool,
}

impl Cover {
    /// The component is covered.
    pub open spec fn takes(self, lane: u8) -> bool {
        (lane == 0 && self.x) || (lane == 1 && self.y) || (lane == 2 && self.z) || (lane == 3 && self.w)
    }

    /// Every component is covered.
    pub open spec fn whole(self) -> bool {
        self.x && self.y && self.z && self.w
    }

    /// The cover with one component more, counted round the register.
    pub open spec fn with(self, lane: u8) -> Cover {
        if lane % 4 == 0 {
            Cover { x: true, ..self }
        } else if lane % 4 == 1 {
            Cover { y: true, ..self }
        } else if lane % 4 == 2 {
            Cover { z: true, ..self }
        } else {
            Cover { w: true, ..self }
        }
    }
}

/// A cover with the first `n` of a set of lanes.
pub open spec fn covering(cover: Cover, lanes: Seq<u8>, n: int) -> Cover
    decreases n,
{
    if n <= 0 {
        cover
    } else {
        covering(cover, lanes, n - 1).with(lanes[n - 1])
    }
}

/// Nothing covered.
pub open spec fn uncovered() -> Cover {
    Cover { x: false, y: false, z: false, w: false }
}

fn cover(start: Cover, lanes: &Vec<u8>) -> (r: Cover)
    ensures
        r == covering(start, lanes@, lanes@.len() as int),
{
    let mut held = start;
    let mut i: usize = 0;
    while i < lanes.len()
        invariant
            i <= lanes@.len(),
            held == covering(start, lanes@, i as int),
        decreases lanes@.len() - i,
    {
        let lane: u8 = lanes[i] % 4;
        if lane == 0 {
            held.x = true;
        } else if lane == 1 {
            held.y = true;
        } else if lane == 2 {
            held.z = true;
        } else {
            held.w = true;
        }
        i = i + 1;
    }
    held
}

/// A list of components has a component of a register.
pub open spec fn has_slot(slots: Seq<Slot>, slot: Slot) -> bool {
    exists|i: int| 0 <= i < slots.len() && #[trigger] slots[i] == slot
}

fn holds_slot(slots: &Vec<Slot>, slot: Slot) -> (r: bool)
    ensures
        r == has_slot(slots@, slot),
{
    let mut i: usize = 0;
    while i < slots.len()
        invariant
            i <= slots@.len(),
            forall|k: int| 0 <= k < i ==> #[trigger] slots@[k] != slot,
        decreases slots@.len() - i,
    {
        let held = slots[i];
        if held.0 == slot.0 && held.1 == slot.1 && held.2 == slot.2 {
            assert(slots@[i as int] == slot);
            return true;
        }
        i = i + 1;
    }
    false
}

/// A list with a component of a register, where it does not have it yet.
pub open spec fn with_slot(slots: Seq<Slot>, slot: Slot) -> Seq<Slot> {
    if has_slot(slots, slot) {
        slots
    } else {
        slots.push(slot)
    }
}

/// A list with the first `n` of another that it does not have yet.
pub open spec fn merged(slots: Seq<Slot>, more: Seq<Slot>, n: int) -> Seq<Slot>
    decreases n,
{
    if n <= 0 {
        slots
    } else {
        with_slot(merged(slots, more, n - 1), more[n - 1])
    }
}

/// Add to a list what of another it does not have yet.
pub fn merge(slots: &mut Vec<Slot>, more: &Vec<Slot>)
    ensures
        final(slots)@ == merged(old(slots)@, more@, more@.len() as int),
{
    let mut i: usize = 0;
    while i < more.len()
        invariant
            i <= more@.len(),
            slots@ == merged(old(slots)@, more@, i as int),
        decreases more@.len() - i,
    {
        if !holds_slot(slots, more[i]) {
            slots.push(more[i]);
        }
        i = i + 1;
    }
}

/// A later value's write ends one that reads what it lands on. Which element of an array a read took is not known,
/// so a write to any of it ends them all.
pub open spec fn ends(held: DefModel, def: DefModel) -> bool {
    if held.key.0 == RegisterType::IndexableTemp.raw() {
        exists|i: int| 0 <= i < def.reads.len() && (#[trigger] def.reads[i]).0 == RegisterType::IndexableTemp.raw()
    } else {
        exists|i: int|
            0 <= i < held.lanes.len() && has_slot(
                def.reads,
                (held.key.0, held.key.1, (#[trigger] held.lanes[i]) % 4),
            )
    }
}

/// Where the window of a value's reading ends: at its last reader, or right behind it where nothing read it.
pub open spec fn window(from: int, to: int, len: int) -> int {
    let over = if to > from + 1 {
        to
    } else {
        from + 1
    };
    if over < len {
        over
    } else {
        len
    }
}

/// Everything a value reads is still what it was by the time the last reader has had it.
///
/// A value with a single reader only has to last until that one, which the staleness sweep already watches. One
/// written out again at each of its readers has to last until the last of them, and a write anywhere in between
/// ends it.
pub open spec fn lasts(defs: Seq<DefModel>, def: DefModel, from: int, to: int) -> bool {
    forall|k: int| from < k < window(from, to, defs.len() as int) ==> !ends(#[trigger] defs[k], def)
}

fn is_ended(held: &Def, def: &Def) -> (r: bool)
    ensures
        r == ends(held@, def@),
{
    let arrays = RegisterType::IndexableTemp.to_u32();
    if held.key.0 == arrays {
        let mut i: usize = 0;
        while i < def.reads.len()
            invariant
                i <= def.reads@.len(),
                arrays == RegisterType::IndexableTemp.raw(),
                held.key.0 == arrays,
                forall|k: int| 0 <= k < i ==> (#[trigger] def@.reads[k]).0 != arrays,
            decreases def.reads@.len() - i,
        {
            if def.reads[i].0 == arrays {
                assert(def@.reads[i as int].0 == arrays);
                return true;
            }
            i = i + 1;
        }
        false
    } else {
        let mut i: usize = 0;
        while i < held.lanes.len()
            invariant
                i <= held.lanes@.len(),
                held.key.0 != RegisterType::IndexableTemp.raw(),
                forall|k: int|
                    0 <= k < i ==> !has_slot(def@.reads, (held.key.0, held.key.1, (#[trigger] held@.lanes[k]) % 4)),
            decreases held.lanes@.len() - i,
        {
            if holds_slot(&def.reads, (held.key.0, held.key.1, held.lanes[i] % 4)) {
                assert(has_slot(def@.reads, (held.key.0, held.key.1, held@.lanes[i as int] % 4)));
                return true;
            }
            i = i + 1;
        }
        false
    }
}

/// Whether everything a value reads is still what it was by the time the last reader has had it.
pub fn survives(defs: &[Def], def: &Def, from: usize, to: usize) -> (r: bool)
    requires
        from < defs@.len(),
    ensures
        r == lasts(def_models(defs@), def@, from as int, to as int),
{
    let ghost all = def_models(defs@);
    let count: usize = defs.len();
    let reach: usize = if to > from + 1 {
        to
    } else {
        from + 1
    };
    let over: usize = if reach < count {
        reach
    } else {
        count
    };
    let mut at: usize = from + 1;
    while at < over
        invariant
            from < at,
            at <= over || at == from + 1,
            over <= defs@.len(),
            over == window(from as int, to as int, all.len() as int),
            all == def_models(defs@),
            forall|k: int| from < k < at && k < over ==> !ends(#[trigger] all[k], def@),
        decreases over - at,
    {
        assert(all[at as int] == defs@[at as int]@);
        if is_ended(&defs[at], def) {
            return false;
        }
        at = at + 1;
    }
    true
}

/// The lanes of an expression are all a stride.
pub open spec fn is_stride(e: ExprModel, stride: u32) -> bool {
    e is Literal && lanes_are(e->bits, stride)
}

/// A product with the given constant factor taken off, which is what the value was before the machine turned an
/// element into the register it starts at.
pub open spec fn unstrided(e: ExprModel, stride: u32) -> ExprModel {
    match e {
        ExprModel::Binary { op, left, right } => if op != "*"@ {
            e
        } else if is_stride(*left, stride) && !is_stride(*right, stride) {
            *right
        } else if !is_stride(*left, stride) && is_stride(*right, stride) {
            *left
        } else {
            e
        },
        _ => e,
    }
}

fn strides(e: &Expr, stride: u32) -> (r: bool)
    ensures
        r == is_stride(e@, stride),
{
    match e {
        Expr::Literal { bits, .. } => {
            let mut i: usize = 0;
            while i < bits.len()
                invariant
                    i <= bits@.len(),
                    e@ is Literal,
                    e@->bits == bits@,
                    forall|k: int| 0 <= k < i ==> #[trigger] bits@[k] == stride,
                decreases bits@.len() - i,
            {
                if bits[i] != stride {
                    return false;
                }
                i = i + 1;
            }
            true
        },
        _ => false,
    }
}

/// A product with the given constant factor taken off.
pub fn without_stride(expr: Expr, stride: u32) -> (r: Expr)
    ensures
        r@ == unstrided(expr@, stride),
{
    match expr {
        Expr::Binary { op, left, right } => {
            if !same(op, "*") {
                return Expr::Binary { op, left, right };
            }
            let first = strides(&left, stride);
            let second = strides(&right, stride);
            if first && !second {
                *right
            } else if !first && second {
                *left
            } else {
                Expr::Binary { op, left, right }
            }
        },
        other => other,
    }
}

/// The values hold different things.
fn differs(a: &Expr, b: &Expr) -> (r: bool)
    ensures
        r == (a@ != b@),
{
    !same_expr(a, b)
}

/// The element size of a value that holds an element rather than the register it starts at, nought for every other
/// value. A value can be the element only where picking an element is all it was ever used for; otherwise it still
/// has to hold what the machine put in it.
pub open spec fn element_size(def: DefModel, usage: Usage) -> u32 {
    match usage.stride {
        None => 0,
        Some(step) => if usage.indexed == 0 || usage.indexed != usage.reads || unstrided(def.expr, step) == def.expr {
            0
        } else {
            step
        },
    }
}

/// The element size of each value.
pub open spec fn element_sizes(defs: Seq<DefModel>, usage: Seq<Usage>) -> Seq<u32> {
    Seq::new(defs.len(), |i: int| element_size(defs[i], usage[i]))
}

/// The element size of each value.
pub fn elements(defs: &Vec<Def>, usage: &Vec<Usage>) -> (r: Vec<u32>)
    requires
        defs@.len() == usage@.len(),
    ensures
        r@ == element_sizes(def_models(defs@), usage@),
{
    let mut out: Vec<u32> = Vec::new();
    let mut i: usize = 0;
    while i < defs.len()
        invariant
            i <= defs@.len(),
            defs@.len() == usage@.len(),
            out@.len() == i,
            forall|k: int| 0 <= k < i ==> #[trigger] out@[k] == element_size(defs@[k]@, usage@[k]),
        decreases defs@.len() - i,
    {
        let held = usage[i];
        let size: u32 = match held.stride {
            None => 0,
            Some(step) => {
                if held.indexed == 0 || held.indexed != held.reads {
                    0
                } else {
                    let bare = without_stride(defs[i].expr.duplicate(), step);
                    if differs(&bare, &defs[i].expr) {
                        step
                    } else {
                        0
                    }
                }
            },
        };
        out.push(size);
        i = i + 1;
    }
    proof {
        assert(out@ =~= element_sizes(def_models(defs@), usage@));
    }
    out
}

/// A value writes a component of a register.
pub open spec fn writes(def: DefModel, slot: Slot) -> bool {
    def.key.0 == slot.0 && def.key.1 == slot.1 && exists|i: int|
        0 <= i < def.lanes.len() && (#[trigger] def.lanes[i]) % 4 == slot.2
}

/// A register component the value writes is one that another block writes too. The branch not taken leaves it
/// behind, and only the register itself carries that; anything else names a value one of them never reached.
pub open spec fn shared(defs: Seq<DefModel>, def: DefModel) -> bool {
    exists|j: int, l: int|
        #![trigger defs[j], def.lanes[l]]
        0 <= j < defs.len() && 0 <= l < def.lanes.len() && defs[j].block != def.block && writes(
            defs[j],
            (def.key.0, def.key.1, def.lanes[l] % 4),
        )
}

fn is_written(def: &Def, slot: Slot) -> (r: bool)
    ensures
        r == writes(def@, slot),
{
    if def.key.0 != slot.0 || def.key.1 != slot.1 {
        return false;
    }
    let mut i: usize = 0;
    while i < def.lanes.len()
        invariant
            i <= def.lanes@.len(),
            def.key.0 == slot.0,
            def.key.1 == slot.1,
            forall|k: int| 0 <= k < i ==> (#[trigger] def@.lanes[k]) % 4 != slot.2,
        decreases def.lanes@.len() - i,
    {
        if def.lanes[i] % 4 == slot.2 {
            assert(def@.lanes[i as int] % 4 == slot.2);
            return true;
        }
        i = i + 1;
    }
    false
}

fn is_shared(defs: &Vec<Def>, def: &Def) -> (r: bool)
    ensures
        r == shared(def_models(defs@), def@),
{
    let ghost all = def_models(defs@);
    let mut j: usize = 0;
    while j < defs.len()
        invariant
            j <= defs@.len(),
            all == def_models(defs@),
            forall|k: int, l: int|
                #![trigger all[k], def@.lanes[l]]
                0 <= k < j && 0 <= l < def@.lanes.len() ==> !(all[k].block != def@.block && writes(
                    all[k],
                    (def.key.0, def.key.1, def@.lanes[l] % 4),
                )),
        decreases defs@.len() - j,
    {
        assert(all[j as int] == defs@[j as int]@);
        if defs[j].block != def.block {
            let mut l: usize = 0;
            while l < def.lanes.len()
                invariant
                    l <= def.lanes@.len(),
                    j < defs@.len(),
                    all == def_models(defs@),
                    all[j as int] == defs@[j as int]@,
                    defs@[j as int].block != def.block,
                    forall|m: int|
                        0 <= m < l ==> !writes(all[j as int], (def.key.0, def.key.1, (#[trigger] def@.lanes[m]) % 4)),
                decreases def.lanes@.len() - l,
            {
                if is_written(&defs[j], (def.key.0, def.key.1, def.lanes[l] % 4)) {
                    assert(all[j as int].block != def@.block && writes(
                        all[j as int],
                        (def.key.0, def.key.1, def@.lanes[l as int] % 4),
                    ));
                    return true;
                }
                l = l + 1;
            }
        }
        j = j + 1;
    }
    false
}

/// A choice between two constants. It is what the machine leaves where the shader asked for a conditional, and it
/// costs nothing to write out again at each reader.
pub open spec fn constant_choice(e: ExprModel) -> bool {
    match e {
        ExprModel::Select { yes, els, .. } => *yes is Literal && *els is Literal,
        _ => false,
    }
}

/// The value goes to its reader. Moving it takes it out of the register, so nothing else may still want it there:
/// not another block, and not a reader the walk could not pin to it. Nothing reading it does not mean nothing needs
/// it: a branch the walk did not follow may be what leaves the register holding this, so a value read nowhere still
/// has to be written down. A choice between two constants goes to all of its readers rather than one, which is why
/// it has to have survived to the last of them rather than merely to the first.
pub open spec fn moves(defs: Seq<DefModel>, usage: Seq<Usage>, id: int) -> bool {
    let def = defs[id];
    let held = usage[id];
    !def.fixed && !held.mixed && !held.distant && !held.stale && !shared(defs, def) && held.reads > 0 && (held.reads == 1
        || (constant_choice(def.expr) && lasts(defs, def, id, held.last as int)))
}

/// The value takes a name of its own. A value that is not a float costs a reinterpretation going into a register and
/// another coming out, which is noise rather than arithmetic. Only where every read takes it whole, and none from
/// another block: a name declared inside one is not in scope outside it.
pub open spec fn named_apart(defs: Seq<DefModel>, usage: Seq<Usage>, id: int) -> bool {
    let def = defs[id];
    let held = usage[id];
    !moves(defs, usage, id) && !def.fixed && !def.looped && def.domain != Domain::Float && !held.mixed && !held.distant
        && !shared(defs, def)
}

/// Which values can be folded into their reader.
pub open spec fn moving(defs: Seq<DefModel>, usage: Seq<Usage>) -> Seq<bool> {
    Seq::new(defs.len(), |i: int| moves(defs, usage, i))
}

/// Which values get a name of their own instead of a register.
pub open spec fn apart(defs: Seq<DefModel>, usage: Seq<Usage>) -> Seq<bool> {
    Seq::new(defs.len(), |i: int| named_apart(defs, usage, i))
}

fn is_constant(e: &Expr) -> (r: bool)
    ensures
        r == (e@ is Literal),
{
    match e {
        Expr::Literal { .. } => true,
        _ => false,
    }
}

fn is_constant_choice(e: &Expr) -> (r: bool)
    ensures
        r == constant_choice(e@),
{
    match e {
        Expr::Select { yes, els, .. } => is_constant(yes) && is_constant(els),
        _ => false,
    }
}

/// Which values can be folded into their reader, and which get a name of their own, after a walk.
pub fn decide(defs: &Vec<Def>, usage: &Vec<Usage>) -> (r: (Vec<bool>, Vec<bool>))
    requires
        defs@.len() == usage@.len(),
    ensures
        r.0@ == moving(def_models(defs@), usage@),
        r.1@ == apart(def_models(defs@), usage@),
{
    let ghost all = def_models(defs@);
    let mut folded: Vec<bool> = Vec::new();
    let mut localised: Vec<bool> = Vec::new();
    let mut i: usize = 0;
    while i < defs.len()
        invariant
            i <= defs@.len(),
            defs@.len() == usage@.len(),
            all == def_models(defs@),
            folded@.len() == i,
            localised@.len() == i,
            forall|k: int| 0 <= k < i ==> #[trigger] folded@[k] == moves(all, usage@, k),
            forall|k: int| 0 <= k < i ==> #[trigger] localised@[k] == named_apart(all, usage@, k),
        decreases defs@.len() - i,
    {
        let def = &defs[i];
        let held = usage[i];
        assert(all[i as int] == def@);
        let common = is_shared(defs, def);
        let moved = !def.fixed && !held.mixed && !held.distant && !held.stale && !common && held.reads > 0 && (held.reads
            == 1 || (is_constant_choice(&def.expr) && survives(defs.as_slice(), def, i, held.last)));
        let typed = match def.domain {
            Domain::Float => false,
            _ => true,
        };
        folded.push(moved);
        localised.push(!moved && !def.fixed && !def.looped && typed && !held.mixed && !held.distant && !common);
        i = i + 1;
    }
    proof {
        assert(folded@ =~= moving(all, usage@));
        assert(localised@ =~= apart(all, usage@));
    }
    (folded, localised)
}

/// The register has held something before a value.
pub open spec fn held_before(defs: Seq<DefModel>, id: int) -> bool {
    exists|j: int| 0 <= j < id && (#[trigger] defs[j]).key == defs[id].key
}

/// The register is read after one value and no later than another.
pub open spec fn read_between(touches: Seq<Touch>, key: (u32, u32), from: int, to: int) -> bool {
    exists|i: int| 0 <= i < touches.len() && (#[trigger] touches[i]).0 == key && from < touches[i].2 <= to
}

/// Every component of the register that is read after a value is covered.
pub open spec fn reads_covered(touches: Seq<Touch>, key: (u32, u32), from: int, held: Cover) -> bool {
    forall|i: int|
        0 <= i < touches.len() && (#[trigger] touches[i]).0 == key && touches[i].2 > from ==> held.takes(touches[i].1)
}

/// The writes of a register from a value on, in the same straight run of instructions, finish it between them before
/// anything reads the register: nothing reads a component afterwards that the run does not write.
pub open spec fn run_finishes(defs: Seq<DefModel>, touches: Seq<Touch>, id: int, over: int, held: Cover) -> bool
    decreases defs.len() - over,
{
    if over < 0 || over >= defs.len() {
        false
    } else if defs[over].key != defs[id].key || defs[over].block != 0 {
        run_finishes(defs, touches, id, over + 1, held)
    } else if over > id && read_between(touches, defs[id].key, id, over) {
        // A read taken between the value that starts the run and the end of it is a read of the value before, which
        // the new name no longer holds.
        false
    } else {
        let more = covering(held, defs[over].lanes, defs[over].lanes.len() as int);
        if reads_covered(touches, defs[id].key, over, more) {
            true
        } else if more.whole() {
            false
        } else {
            run_finishes(defs, touches, id, over + 1, more)
        }
    }
}

/// A register stops carrying one value and starts carrying the next at this one.
///
/// The compiler hands a register to one value after another, and reading it back gives no sign of that. A value can
/// take a name of its own where the one before it is finished with, which is where it is written over in the same
/// straight run of instructions, with nothing reading the register in between, and nothing reading a component
/// afterwards that the run does not write. Anywhere else a branch could arrive still holding the value before, and
/// the register's own name is what carries it. There is nothing to split away from until the register has held
/// something before, and nothing to name where the value never reaches the register in the first place.
pub open spec fn starts_over(
    defs: Seq<DefModel>,
    touches: Seq<Touch>,
    folded: Seq<bool>,
    localised: Seq<bool>,
    id: int,
) -> bool {
    held_before(defs, id) && defs[id].block == 0 && !defs[id].fixed && !folded[id] && !localised[id] && run_finishes(
        defs,
        touches,
        id,
        id,
        uncovered(),
    )
}

/// Where a register stops carrying one value and starts carrying the next.
pub open spec fn fresh_starts(
    defs: Seq<DefModel>,
    touches: Seq<Touch>,
    folded: Seq<bool>,
    localised: Seq<bool>,
) -> Seq<bool> {
    Seq::new(defs.len(), |i: int| starts_over(defs, touches, folded, localised, i))
}

fn same_key(a: (u32, u32), b: (u32, u32)) -> (r: bool)
    ensures
        r == (a == b),
{
    a.0 == b.0 && a.1 == b.1
}

fn was_held(defs: &[Def], id: usize) -> (r: bool)
    requires
        id < defs@.len(),
    ensures
        r == held_before(def_models(defs@), id as int),
{
    let ghost all = def_models(defs@);
    let mut j: usize = 0;
    while j < id
        invariant
            j <= id < defs@.len(),
            all == def_models(defs@),
            forall|k: int| 0 <= k < j ==> (#[trigger] all[k]).key != all[id as int].key,
        decreases id - j,
    {
        assert(all[j as int] == defs@[j as int]@);
        assert(all[id as int] == defs@[id as int]@);
        if same_key(defs[j].key, defs[id].key) {
            return true;
        }
        j = j + 1;
    }
    false
}

fn is_read_between(touches: &[Touch], key: (u32, u32), from: usize, to: usize) -> (r: bool)
    ensures
        r == read_between(touches@, key, from as int, to as int),
{
    let mut i: usize = 0;
    while i < touches.len()
        invariant
            i <= touches@.len(),
            forall|k: int| 0 <= k < i ==> !((#[trigger] touches@[k]).0 == key && from < touches@[k].2 <= to),
        decreases touches@.len() - i,
    {
        let held = touches[i];
        if same_key(held.0, key) && from < held.2 && held.2 <= to {
            assert(touches@[i as int].0 == key);
            return true;
        }
        i = i + 1;
    }
    false
}

fn are_covered(touches: &[Touch], key: (u32, u32), from: usize, held: Cover) -> (r: bool)
    ensures
        r == reads_covered(touches@, key, from as int, held),
{
    let mut i: usize = 0;
    while i < touches.len()
        invariant
            i <= touches@.len(),
            forall|k: int|
                0 <= k < i && (#[trigger] touches@[k]).0 == key && touches@[k].2 > from ==> held.takes(touches@[k].1),
        decreases touches@.len() - i,
    {
        let touch = touches[i];
        if same_key(touch.0, key) && touch.2 > from {
            let lane: u8 = touch.1;
            let reached = (lane == 0 && held.x) || (lane == 1 && held.y) || (lane == 2 && held.z) || (lane == 3 && held.w);
            if !reached {
                assert(touches@[i as int].0 == key);
                return false;
            }
        }
        i = i + 1;
    }
    true
}

fn finishes_run(defs: &[Def], touches: &[Touch], id: usize) -> (r: bool)
    requires
        id < defs@.len(),
    ensures
        r == run_finishes(def_models(defs@), touches@, id as int, id as int, uncovered()),
{
    let ghost all = def_models(defs@);
    let mut held = Cover { x: false, y: false, z: false, w: false };
    let mut over: usize = id;
    while over < defs.len()
        invariant
            id <= over <= defs@.len(),
            id < defs@.len(),
            all == def_models(defs@),
            run_finishes(all, touches@, id as int, id as int, uncovered()) == run_finishes(
                all,
                touches@,
                id as int,
                over as int,
                held,
            ),
        decreases defs@.len() - over,
    {
        assert(all[over as int] == defs@[over as int]@);
        assert(all[id as int] == defs@[id as int]@);
        if same_key(defs[over].key, defs[id].key) && defs[over].block == 0 {
            if over > id && is_read_between(touches, defs[id].key, id, over) {
                return false;
            }
            held = cover(held, &defs[over].lanes);
            if are_covered(touches, defs[id].key, over, held) {
                return true;
            }
            if held.x && held.y && held.z && held.w {
                return false;
            }
        }
        over = over + 1;
    }
    false
}

/// Where a register stops carrying one value and starts carrying the next.
pub fn splits(defs: &[Def], touches: &[Touch], folded: &[bool], localised: &[bool]) -> (r: Vec<bool>)
    requires
        folded@.len() == defs@.len(),
        localised@.len() == defs@.len(),
    ensures
        r@ == fresh_starts(def_models(defs@), touches@, folded@, localised@),
{
    let ghost all = def_models(defs@);
    let mut out: Vec<bool> = Vec::new();
    let mut i: usize = 0;
    while i < defs.len()
        invariant
            i <= defs@.len(),
            all == def_models(defs@),
            folded@.len() == defs@.len(),
            localised@.len() == defs@.len(),
            out@.len() == i,
            forall|k: int| 0 <= k < i ==> #[trigger] out@[k] == starts_over(all, touches@, folded@, localised@, k),
        decreases defs@.len() - i,
    {
        assert(all[i as int] == defs@[i as int]@);
        let starts = defs[i].block == 0 && !defs[i].fixed && !folded[i] && !localised[i] && was_held(defs, i)
            && finishes_run(defs, touches, i);
        out.push(starts);
        i = i + 1;
    }
    proof {
        assert(out@ =~= fresh_starts(all, touches@, folded@, localised@));
    }
    out
}

} // verus!
