use vstd::prelude::*;

use crate::finger_entry::FingerEntry;
use crate::ring::{address_pos, address_position, finger_target, finger_target_spec, is_between, on_arc, HashPos};

verus! {

/// The number of fingers of a table: one per bit of a ring position.
pub const FINGER_COUNT: usize = 128;

/// The ordered routing shortcuts of a node; finger `i` aims at `own + 2^i`.
#[derive(Clone, Debug)]
pub struct FingerTable {
    pub fingers: Vec<FingerEntry>,
}

/// Finger `f` may serve as a hop towards `target` from a node at `own`: it is
/// set, and its node lies strictly between `own` and `target`.
pub open spec fn precedes_target(f: FingerEntry, own: HashPos, target: HashPos) -> bool {
    f.address@.len() > 0 && on_arc(address_pos(f.address@), own, target, false, false)
}

/// The highest index below `n` whose finger precedes `target`, if any.
pub open spec fn highest_preceding(fingers: Seq<FingerEntry>, own: HashPos, target: HashPos, n: int) -> Option<int>
    decreases n,
{
    if n <= 0 {
        None
    } else if precedes_target(fingers[n - 1], own, target) {
        Some(n - 1)
    } else {
        highest_preceding(fingers, own, target, n - 1)
    }
}

/// What `closest_preceding_finger` returns: the highest preceding finger's node,
/// else the node itself.
pub open spec fn closest_preceding_spec(
    fingers: Seq<FingerEntry>,
    own: HashPos,
    own_address: Seq<char>,
    target: HashPos,
) -> (HashPos, Seq<char>) {
    match highest_preceding(fingers, own, target, fingers.len() as int) {
        Some(i) => (address_pos(fingers[i].address@), fingers[i].address@),
        None => (own, own_address),
    }
}

impl FingerTable {
    /// One finger per bit of a ring position.
    pub open spec fn wf(&self) -> bool {
        self.fingers@.len() == FINGER_COUNT
    }

    /// The table of a node at `key`, every finger pointing at `address`.
    pub fn new(key: &HashPos, address: &String) -> (r: FingerTable)
        ensures
            r.wf(),
            forall|i: int| 0 <= i < FINGER_COUNT ==> #[trigger] r.fingers@[i].key == finger_target_spec(*key, i as nat),
            forall|i: int| 0 <= i < FINGER_COUNT ==> #[trigger] r.fingers@[i].address@ == address@,
    {
        let mut fingers: Vec<FingerEntry> = Vec::new();
        let mut i: usize = 0;
        while i < FINGER_COUNT
            invariant
                i <= FINGER_COUNT,
                fingers@.len() == i,
                forall|j: int| 0 <= j < i ==> #[trigger] fingers@[j].key == finger_target_spec(*key, j as nat),
                forall|j: int| 0 <= j < i ==> #[trigger] fingers@[j].address@ == address@,
            decreases FINGER_COUNT - i,
        {
            let target = finger_target(*key, i);
            fingers.push(FingerEntry { key: target, address: address.clone() });
            i = i + 1;
        }
        FingerTable { fingers }
    }

    pub fn set_finger(&mut self, index: usize, address: String)
        requires
            index < old(self).fingers@.len(),
        ensures
            final(self).fingers@.len() == old(self).fingers@.len(),
            final(self).fingers@[index as int].key == old(self).fingers@[index as int].key,
            final(self).fingers@[index as int].address@ == address@,
            forall|j: int| 0 <= j < old(self).fingers@.len() && j != index ==> #[trigger] final(self).fingers@[j] == old(self).fingers@[j],
    {
        let key = self.fingers[index].key;
        self.fingers.set(index, FingerEntry { key, address });
    }

    pub fn set_all_fingers(&mut self, address: &String)
        ensures
            final(self).fingers@.len() == old(self).fingers@.len(),
            forall|j: int| 0 <= j < old(self).fingers@.len() ==> #[trigger] final(self).fingers@[j].key == old(self).fingers@[j].key,
            forall|j: int| 0 <= j < old(self).fingers@.len() ==> #[trigger] final(self).fingers@[j].address@ == address@,
    {
        let n = self.fingers.len();
        let mut i: usize = 0;
        while i < n
            invariant
                n == old(self).fingers@.len(),
                i <= n,
                self.fingers@.len() == n,
                forall|j: int| 0 <= j < n ==> #[trigger] self.fingers@[j].key == old(self).fingers@[j].key,
                forall|j: int| 0 <= j < i ==> #[trigger] self.fingers@[j].address@ == address@,
                forall|j: int| i <= j < n ==> #[trigger] self.fingers@[j] == old(self).fingers@[j],
            decreases n - i,
        {
            let key = self.fingers[i].key;
            self.fingers.set(i, FingerEntry { key, address: address.clone() });
            i = i + 1;
        }
    }

    /// The local routing step: scanning from the highest finger down, the first
    /// set finger whose node lies strictly between `own_pos` and `target`; the
    /// node itself where none does. The entry's key is the node's position.
    pub fn closest_preceding_finger(&self, own_pos: HashPos, own_address: &String, target: HashPos) -> (r: FingerEntry)
        ensures
            (r.key, r.address@) == closest_preceding_spec(self.fingers@, own_pos, own_address@, target),
    {
        let mut i: usize = self.fingers.len();
        while i > 0
            invariant
                i <= self.fingers@.len(),
                highest_preceding(self.fingers@, own_pos, target, self.fingers@.len() as int)
                    == highest_preceding(self.fingers@, own_pos, target, i as int),
            decreases i,
        {
            i = i - 1;
            let finger = &self.fingers[i];
            if !finger.address.as_str().is_empty() {
                let node_pos = address_position(&finger.address);
                if is_between(node_pos, own_pos, target, false, false) {
                    return FingerEntry { key: node_pos, address: finger.address.clone() };
                }
            }
        }
        FingerEntry { key: own_pos, address: own_address.clone() }
    }
}

} // verus!
