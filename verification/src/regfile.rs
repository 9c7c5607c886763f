use vstd::prelude::*;

use crate::isa::Register;

verus! {

#[verifier::external_type_specification]
#[verifier::external_body]
#[verifier::reject_recursive_types(K)]
#[verifier::reject_recursive_types(V)]
#[verifier::reject_recursive_types(S)]
pub struct ExIndexMap<K, V, S>(indexmap::IndexMap<K, V, S>);

/// The concrete map type that backs a register file.
pub type Slots = indexmap::IndexMap<u64, i32>;

/// The key-value contents of an `indexmap::IndexMap` backing a register file.
pub uninterp spec fn slots_of(m: Slots) -> Map<u64, i32>;

/// The contents of a register file map with no slots filled yet.
pub open spec fn no_slots() -> Map<u64, i32> {
    Map::empty()
}

/// Relies on `indexmap::IndexMap::new`: it creates an empty map.
#[verifier::external_body]
fn slots_new() -> (r: Slots)
    ensures
        slots_of(r) == no_slots(),
{
    indexmap::IndexMap::new()
}

/// Relies on `indexmap::IndexMap::insert`: the value stored under an existing
/// key is replaced, a fresh key-value pair is added, and no other entry
/// changes.
#[verifier::external_body]
fn slots_insert(m: &mut Slots, k: u64, v: i32)
    ensures
        slots_of(*final(m)) == slots_of(*old(m)).insert(k, v),
{
    m.insert(k, v);
}

/// Relies on `indexmap::IndexMap::get`: it returns the value stored under the
/// key, if the key is present, and `None` otherwise.
#[verifier::external_body]
fn slots_get(m: &Slots, k: u64) -> (r: Option<i32>)
    ensures
        r == if slots_of(*m).contains_key(k) {
            Some(slots_of(*m)[k])
        } else {
            None
        },
{
    m.get(&k).copied()
}

/// The machine's register file: one signed 32-bit value per register, held in
/// an insertion-ordered map keyed by register number.
pub struct RegisterFile {
    slots: Slots,
}

impl View for RegisterFile {
    type V = Seq<i32>;

    /// The file viewed as the eight register values, in register order.
    closed spec fn view(&self) -> Seq<i32> {
        Seq::new(8, |i: int| slots_of(self.slots)[i as u64])
    }
}

impl RegisterFile {
    /// Every register has a slot.
    pub closed spec fn wf(&self) -> bool {
        forall|k: u64| k < 8 ==> slots_of(self.slots).contains_key(k)
    }

    /// A fresh register file, with every register holding zero.
    pub fn new() -> (rf: RegisterFile)
        ensures
            rf.wf(),
            rf@ == Seq::new(8, |i: int| 0i32),
    {
        let mut slots = slots_new();
        slots_insert(&mut slots, 0, 0);
        slots_insert(&mut slots, 1, 0);
        slots_insert(&mut slots, 2, 0);
        slots_insert(&mut slots, 3, 0);
        slots_insert(&mut slots, 4, 0);
        slots_insert(&mut slots, 5, 0);
        slots_insert(&mut slots, 6, 0);
        slots_insert(&mut slots, 7, 0);
        let rf = RegisterFile { slots };
        proof {
            assert(rf@ =~= Seq::new(8, |i: int| 0i32));
        }
        rf
    }

    /// The current value of register `r`.
    pub fn read(&self, r: Register) -> (v: i32)
        requires
            self.wf(),
        ensures
            v == self@[r.spec_num()],
    {
        let n = r.number();
        match slots_get(&self.slots, n) {
            Some(v) => v,
            None => 0,  // unreachable: every register has a slot
        }
    }

    /// Store `v` in register `r`; no other register changes.
    pub fn write(&mut self, r: Register, v: i32)
        requires
            old(self).wf(),
        ensures
            final(self).wf(),
            final(self)@ == old(self)@.update(r.spec_num(), v),
    {
        let n = r.number();
        slots_insert(&mut self.slots, n, v);
        proof {
            assert(self@ =~= old(self)@.update(r.spec_num(), v));
        }
    }
}

} // verus!
