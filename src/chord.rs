use vstd::prelude::*;

use crate::finger_entry::FingerEntry;
use crate::finger_table::{closest_preceding_spec, FingerTable, FINGER_COUNT};
use crate::kv_store::{expired, keys_in_arc, key_position, GetStatus, Key, KvPair, KvStore};
use crate::pow::{meets_difficulty, token_expired, PowToken, POW_TOKEN_LIVE_TIME};
use crate::ring::{
    address_pos, address_position, finger_target, finger_target_spec, is_between, lemma_arcs_partition,
    lemma_ring_distance, on_arc, ring_hash, ring_of, HashPos,
};
use crate::successor_list::{addresses, SuccessorList, SUCCESSOR_COUNT};

verus! {

/// How many times a lookup polls the predecessor handle before it gives up.
pub const MAX_PREDECESSOR_RETRIES: u32 = 20;

/// Why a request to a node fails.
#[derive(Clone, Copy, Debug, PartialEq, Eq, Structural)]
pub enum ChordError {
    /// No node could be reached.
    Unavailable,
    /// The proof-of-work token has expired.
    TokenExpired,
    /// The proof-of-work token's digest has too few trailing zero bytes.
    TokenInvalid,
    /// The node has no predecessor, so it cannot tell which keys it owns.
    PredecessorUnset,
    /// The key lies outside the arc this node is responsible for.
    OutsideArc,
    /// A debugging request while the node is not in development mode.
    Unimplemented,
}

/// The next step of a lookup.
#[derive(Debug)]
pub enum RouteStep {
    /// The target lies on the arc of this node's successor: here is its address.
    Resolved(String),
    /// Ask this node, the closest finger preceding the target.
    Forward(FingerEntry),
}

/// What a lookup does after the forwarded hop could not be reached.
#[derive(Debug)]
pub enum FallbackStep {
    /// Ask the predecessor at this address.
    AskPredecessor(String),
    /// No predecessor yet: poll again.
    Retry,
    /// Give up: the lookup is unavailable.
    GiveUp,
}

/// What a node reports of itself for inspection.
#[derive(Debug)]
pub struct NodeSummary {
    pub url: String,
    pub pos: HashPos,
    pub predecessor: Option<FingerEntry>,
    pub finger_entries: Vec<FingerEntry>,
    pub successor_list: Vec<String>,
}

/// The state of one node of the ring.
#[derive(Debug)]
pub struct ChordService {
    /// Address of the node.
    pub address: String,
    /// Position of the node on the ring.
    pub pos: HashPos,
    /// Routing shortcuts.
    pub finger_table: FingerTable,
    /// The immediate predecessor, once known.
    pub predecessor_option: Option<FingerEntry>,
    /// The pairs this node stores.
    pub kv_store: KvStore,
    /// The finger that the last repair updated.
    pub fix_finger_index: usize,
    /// The next successors, nearest first.
    pub successor_list: SuccessorList,
    /// Trailing zero bytes a token's digest needs.
    pub pow_difficulty: usize,
    /// Whether the inspection requests are served.
    pub dev_mode: bool,
}

/// A node at `pos` whose predecessor is `pred` is responsible for `key`.
pub open spec fn responsible_for(pred: Option<FingerEntry>, pos: HashPos, key: Seq<u8>) -> bool {
    match pred {
        Some(p) => on_arc(ring_hash(key), p.key, pos, false, true),
        None => false,
    }
}

/// The error a key-value request gets from a node at `pos` with predecessor `pred`, if any.
pub open spec fn arc_error(pred: Option<FingerEntry>, pos: HashPos, key: Seq<u8>) -> Option<ChordError> {
    match pred {
        None => Some(ChordError::PredecessorUnset),
        Some(p) => if on_arc(ring_hash(key), p.key, pos, false, true) {
            None
        } else {
            Some(ChordError::OutsideArc)
        },
    }
}

/// A notifying node at `caller_pos` becomes the predecessor of a node at `pos`.
pub open spec fn adopts(pred: Option<FingerEntry>, pos: HashPos, caller_pos: HashPos) -> bool {
    match pred {
        None => true,
        Some(p) => on_arc(caller_pos, p.key, pos, false, true),
    }
}

/// The arc `(lower, upper]` that a node at `pos` hands to a new predecessor at `caller_pos`.
pub open spec fn handed_arc(pred: Option<FingerEntry>, pos: HashPos, caller_pos: HashPos) -> (HashPos, HashPos) {
    match pred {
        None => (pos, caller_pos),
        Some(p) => (p.key, caller_pos),
    }
}

/// A copy of an entry.
fn copy_entry(e: &FingerEntry) -> (r: FingerEntry)
    ensures
        r.key == e.key,
        r.address@ == e.address@,
{
    FingerEntry::new(&e.key, &e.address)
}

impl ChordService {
    /// The node's position is the hash of its address, its tables have their
    /// sizes, and a known predecessor's key is its position.
    pub open spec fn wf(&self) -> bool {
        &&& self.pos == address_pos(self.address@)
        &&& self.finger_table.wf()
        &&& self.successor_list.wf()
        &&& self.kv_store.wf()
        &&& self.fix_finger_index < FINGER_COUNT
        &&& match self.predecessor_option {
            Some(p) => p.key == address_pos(p.address@),
            None => true,
        }
    }

    /// Every stored key lies on the arc the node is responsible for.
    pub open spec fn stores_own_arc(&self) -> bool {
        forall|k: Seq<u8>| #[trigger] self.kv_store@.contains_key(k) ==> responsible_for(self.predecessor_option, self.pos, k)
    }

    /// A node that starts a new ring: every finger and successor is itself, and
    /// it has no predecessor yet.
    pub fn new(address: &String, pow_difficulty: usize, dev_mode: bool) -> (r: ChordService)
        ensures
            r.wf(),
            r.address@ == address@,
            r.predecessor_option is None,
            r.kv_store@ == Map::<Seq<u8>, (Seq<char>, u64)>::empty(),
            r.fix_finger_index == 0,
            r.successor_list@.len() == SUCCESSOR_COUNT,
            forall|j: int| 0 <= j < SUCCESSOR_COUNT ==> #[trigger] r.successor_list@[j] == address@,
            forall|i: int|
                0 <= i < FINGER_COUNT ==> #[trigger] r.finger_table.fingers@[i].key == finger_target_spec(
                    r.pos,
                    i as nat,
                ) && r.finger_table.fingers@[i].address@ == address@,
            r.pow_difficulty == pow_difficulty,
            r.dev_mode == dev_mode,
    {
        let pos = address_position(address);
        ChordService {
            address: address.clone(),
            pos,
            finger_table: FingerTable::new(&pos, address),
            predecessor_option: None,
            kv_store: KvStore::new(),
            fix_finger_index: 0,
            successor_list: SuccessorList::alone(address),
            pow_difficulty,
            dev_mode,
        }
    }

    /// A node that joins a ring through its successor `successor`, whose own
    /// successor list is `successors_of_successor`: the successor list is the
    /// successor followed by the first entries of its list, finger 0 points at
    /// the successor and every other finger at the node itself.
    pub fn join(
        address: &String,
        successor: &String,
        successors_of_successor: &Vec<String>,
        pow_difficulty: usize,
        dev_mode: bool,
    ) -> (r: ChordService)
        ensures
            r.wf(),
            r.address@ == address@,
            r.predecessor_option is None,
            r.kv_store@ == Map::<Seq<u8>, (Seq<char>, u64)>::empty(),
            r.fix_finger_index == 0,
            r.successor_list@ == seq![successor@] + addresses(successors_of_successor@).take(
                vstd::math::min(successors_of_successor@.len() as int, SUCCESSOR_COUNT - 1),
            ),
            r.finger_table.fingers@[0].address@ == successor@,
            forall|i: int|
                0 <= i < FINGER_COUNT ==> #[trigger] r.finger_table.fingers@[i].key == finger_target_spec(
                    r.pos,
                    i as nat,
                ),
            forall|i: int| 1 <= i < FINGER_COUNT ==> #[trigger] r.finger_table.fingers@[i].address@ == address@,
            r.pow_difficulty == pow_difficulty,
            r.dev_mode == dev_mode,
    {
        let mut node = ChordService::new(address, pow_difficulty, dev_mode);
        let ghost fresh = node.finger_table.fingers@;
        node.successor_list.refresh(successor, successors_of_successor);
        node.finger_table.set_finger(0, successor.clone());
        proof {
            assert forall|i: int| 1 <= i < FINGER_COUNT implies #[trigger] node.finger_table.fingers@[i].address@ == address@ by {
                assert(fresh[i].key == finger_target_spec(node.pos, i as nat));
            }
        }
        node
    }

    /// The immediate successor's address.
    pub fn get_successor_address(&self) -> (r: String)
        requires
            self.wf(),
        ensures
            r@ == self.successor_list@[0],
    {
        self.successor_list.first()
    }

    /// Makes `address` the immediate successor, in the successor list and in finger 0.
    pub fn set_successor(&mut self, address: &String)
        requires
            old(self).wf(),
        ensures
            final(self).wf(),
            final(self).successor_list@ == old(self).successor_list@.update(0, address@),
            final(self).finger_table.fingers@ == old(self).finger_table.fingers@.update(
                0,
                final(self).finger_table.fingers@[0],
            ),
            final(self).finger_table.fingers@[0].key == old(self).finger_table.fingers@[0].key,
            final(self).finger_table.fingers@[0].address@ == address@,
            final(self).address == old(self).address,
            final(self).pos == old(self).pos,
            final(self).predecessor_option == old(self).predecessor_option,
            final(self).kv_store == old(self).kv_store,
            final(self).fix_finger_index == old(self).fix_finger_index,
            final(self).pow_difficulty == old(self).pow_difficulty,
            final(self).dev_mode == old(self).dev_mode,
    {
        self.successor_list.set_first(address);
        self.finger_table.set_finger(0, address.clone());
        proof {
            assert(self.finger_table.fingers@ =~= old(self).finger_table.fingers@.update(
                0,
                self.finger_table.fingers@[0],
            ));
        }
    }

    /// Forgets the predecessor, which no longer answers.
    pub fn clear_predecessor(&mut self)
        requires
            old(self).wf(),
        ensures
            final(self).wf(),
            final(self).predecessor_option is None,
            final(self).pos == old(self).pos,
            final(self).address == old(self).address,
            final(self).finger_table == old(self).finger_table,
            final(self).successor_list == old(self).successor_list,
            final(self).kv_store == old(self).kv_store,
    {
        self.predecessor_option = None;
    }

    /// Fails over past the first `count` successors, which could not be
    /// reached: the next one becomes the immediate successor and finger 0.
    /// Where none is left the node cannot route, and nothing changes.
    pub fn skip_unreachable_successors(&mut self, count: usize) -> (r: Result<(), ChordError>)
        requires
            old(self).wf(),
        ensures
            final(self).wf(),
            count >= old(self).successor_list@.len() ==> r == Err::<(), ChordError>(ChordError::Unavailable)
                && *final(self) == *old(self),
            count < old(self).successor_list@.len() ==> {
                &&& r is Ok
                &&& final(self).successor_list@ == old(self).successor_list@.skip(count as int)
                &&& final(self).finger_table.fingers@ == old(self).finger_table.fingers@.update(
                    0,
                    final(self).finger_table.fingers@[0],
                )
                &&& final(self).finger_table.fingers@[0].key == old(self).finger_table.fingers@[0].key
                &&& final(self).finger_table.fingers@[0].address@ == old(self).successor_list@[count as int]
            },
            final(self).pos == old(self).pos,
            final(self).address == old(self).address,
            final(self).predecessor_option == old(self).predecessor_option,
            final(self).kv_store == old(self).kv_store,
    {
        if count >= self.successor_list.successors.len() {
            return Err(ChordError::Unavailable);
        }
        self.successor_list.skip(count);
        let first = self.successor_list.first();
        self.finger_table.set_finger(0, first);
        proof {
            assert(self.finger_table.fingers@ =~= old(self).finger_table.fingers@.update(
                0,
                self.finger_table.fingers@[0],
            ));
        }
        Ok(())
    }

    /// The predecessor's address, if one is known.
    pub fn get_predecessor(&self) -> (r: Option<String>)
        ensures
            match self.predecessor_option {
                Some(p) => r is Some && r->0@ == p.address@,
                None => r is None,
            },
    {
        match &self.predecessor_option {
            Some(p) => Some(p.address.clone()),
            None => None,
        }
    }

    /// A copy of the successor list.
    pub fn get_successor_list(&self) -> (r: Vec<String>)
        ensures
            addresses(r@) == self.successor_list@,
    {
        let mut out: Vec<String> = Vec::new();
        let mut i: usize = 0;
        while i < self.successor_list.successors.len()
            invariant
                i <= self.successor_list.successors@.len(),
                addresses(out@) == self.successor_list@.take(i as int),
            decreases self.successor_list.successors@.len() - i,
        {
            let ghost before = out@;
            let s = self.successor_list.successors[i].clone();
            out.push(s);
            proof {
                assert(addresses(out@) =~= addresses(before).push(s@));
                assert(self.successor_list@.take(i + 1) =~= self.successor_list@.take(i as int).push(s@));
            }
            i = i + 1;
        }
        proof {
            assert(self.successor_list@.take(i as int) =~= self.successor_list@);
        }
        out
    }

    /// The finger that most closely precedes `target`, else the node itself.
    pub fn closest_preceding_finger(&self, target: HashPos) -> (r: FingerEntry)
        ensures
            (r.key, r.address@) == closest_preceding_spec(self.finger_table.fingers@, self.pos, self.address@, target),
    {
        self.finger_table.closest_preceding_finger(self.pos, &self.address, target)
    }

    /// The first step of a lookup of `target`: resolved where `target` lies on
    /// `(own, successor]`, else forwarded to the closest preceding finger. Where
    /// no finger precedes `target` the node cannot get closer, and the lookup
    /// resolves to its successor.
    pub fn find_successor_step(&self, target: HashPos) -> (r: RouteStep)
        requires
            self.wf(),
        ensures
            on_arc(target, self.pos, address_pos(self.successor_list@[0]), false, true) ==> (r matches RouteStep::Resolved(a)
                && a@ == self.successor_list@[0]),
            !on_arc(target, self.pos, address_pos(self.successor_list@[0]), false, true) ==> {
                let hop = closest_preceding_spec(self.finger_table.fingers@, self.pos, self.address@, target);
                if hop.1 == self.address@ {
                    r matches RouteStep::Resolved(a) && a@ == self.successor_list@[0]
                } else {
                    r matches RouteStep::Forward(f) && (f.key, f.address@) == hop
                }
            },
    {
        let successor = self.get_successor_address();
        let successor_pos = address_position(&successor);
        if is_between(target, self.pos, successor_pos, false, true) {
            RouteStep::Resolved(successor)
        } else {
            let hop = self.closest_preceding_finger(target);
            if hop.address == self.address {
                RouteStep::Resolved(successor)
            } else {
                RouteStep::Forward(hop)
            }
        }
    }

    /// What a lookup does on its `attempt`-th poll after the forwarded hop failed:
    /// ask the predecessor once known, give up after `MAX_PREDECESSOR_RETRIES` polls.
    pub fn find_successor_fallback(&self, attempt: u32) -> (r: FallbackStep)
        ensures
            match self.predecessor_option {
                Some(p) => r matches FallbackStep::AskPredecessor(a) && a@ == p.address@,
                None => if attempt >= MAX_PREDECESSOR_RETRIES {
                    r is GiveUp
                } else {
                    r is Retry
                },
            },
    {
        match &self.predecessor_option {
            Some(p) => FallbackStep::AskPredecessor(p.address.clone()),
            None => if attempt >= MAX_PREDECESSOR_RETRIES {
                FallbackStep::GiveUp
            } else {
                FallbackStep::Retry
            },
        }
    }

    /// The finger the next repair tick updates, and the position it aims at.
    pub fn next_finger_to_fix(&self) -> (r: (usize, HashPos))
        requires
            self.wf(),
        ensures
            r.0 == (self.fix_finger_index + 1) % (FINGER_COUNT as int),
            r.1 == finger_target_spec(self.pos, r.0 as nat),
    {
        let index = (self.fix_finger_index + 1) % FINGER_COUNT;
        (index, finger_target(self.pos, index))
    }

    /// Records the outcome of a repair tick: finger `index` now points at
    /// `address`; at index 1 the immediate successor is refreshed as well.
    pub fn apply_fixed_finger(&mut self, index: usize, address: &String)
        requires
            old(self).wf(),
            index < FINGER_COUNT,
        ensures
            final(self).wf(),
            final(self).fix_finger_index == index,
            final(self).finger_table.fingers@ == old(self).finger_table.fingers@.update(
                index as int,
                final(self).finger_table.fingers@[index as int],
            ),
            final(self).finger_table.fingers@[index as int].key == old(self).finger_table.fingers@[index as int].key,
            final(self).finger_table.fingers@[index as int].address@ == address@,
            index == 1 ==> final(self).successor_list@ == old(self).successor_list@.update(0, address@),
            index != 1 ==> final(self).successor_list@ == old(self).successor_list@,
            final(self).address == old(self).address,
            final(self).pos == old(self).pos,
            final(self).predecessor_option == old(self).predecessor_option,
            final(self).kv_store == old(self).kv_store,
    {
        if index == 1 {
            self.successor_list.set_first(address);
        }
        self.fix_finger_index = index;
        self.finger_table.set_finger(index, address.clone());
        proof {
            assert(self.finger_table.fingers@ =~= old(self).finger_table.fingers@.update(
                index as int,
                self.finger_table.fingers@[index as int],
            ));
        }
    }

    /// The decision of a stabilization round: the successor `current_successor`
    /// reported `successors_predecessor` as its predecessor. Where that node is
    /// known and lies strictly between this node and the successor, it becomes
    /// the successor. Returns whether it did.
    pub fn stabilize_with(&mut self, current_successor: &String, successors_predecessor: &Option<String>) -> (r: bool)
        requires
            old(self).wf(),
        ensures
            final(self).wf(),
            r == (successors_predecessor is Some && successors_predecessor->0@.len() > 0 && on_arc(
                address_pos(successors_predecessor->0@),
                old(self).pos,
                address_pos(current_successor@),
                false,
                false,
            )),
            r ==> final(self).successor_list@ == old(self).successor_list@.update(0, successors_predecessor->0@)
                && final(self).finger_table.fingers@[0].address@ == successors_predecessor->0@,
            !r ==> *final(self) == *old(self),
            final(self).predecessor_option == old(self).predecessor_option,
            final(self).kv_store == old(self).kv_store,
    {
        match successors_predecessor {
            Some(x) => {
                if x.as_str().is_empty() {
                    return false;
                }
                let x_pos = address_position(x);
                let successor_pos = address_position(current_successor);
                if is_between(x_pos, self.pos, successor_pos, false, false) {
                    self.set_successor(x);
                    true
                } else {
                    false
                }
            },
            None => false,
        }
    }

    /// Takes the successor's own list into the failover slots.
    pub fn refresh_successor_list(&mut self, successors_of_successor: &Vec<String>)
        requires
            old(self).wf(),
        ensures
            final(self).wf(),
            final(self).successor_list@ == seq![old(self).successor_list@[0]] + addresses(successors_of_successor@).take(
                vstd::math::min(successors_of_successor@.len() as int, SUCCESSOR_COUNT - 1),
            ),
            final(self).finger_table == old(self).finger_table,
            final(self).predecessor_option == old(self).predecessor_option,
            final(self).kv_store == old(self).kv_store,
    {
        let first = self.successor_list.first();
        self.successor_list.refresh(&first, successors_of_successor);
    }

    /// Handles a notification from `caller`, which believes it is this node's
    /// predecessor, with `token` checked at second `now`. The caller is adopted
    /// where no predecessor is known or it lies on `(predecessor, own]`; the
    /// result is then the arc `(lower, upper]` whose pairs now belong to it.
    pub fn notify(&mut self, caller: &String, token: &PowToken, now: u64) -> (r: Result<Option<(HashPos, HashPos)>, ChordError>)
        requires
            old(self).wf(),
        ensures
            final(self).wf(),
            final(self).kv_store == old(self).kv_store,
            final(self).finger_table == old(self).finger_table,
            final(self).successor_list == old(self).successor_list,
            token_expired(token.issued_at, now, POW_TOKEN_LIVE_TIME) ==> r == Err::<Option<(HashPos, HashPos)>, ChordError>(
                ChordError::TokenExpired,
            ) && final(self).predecessor_option == old(self).predecessor_option,
            !token_expired(token.issued_at, now, POW_TOKEN_LIVE_TIME) && !meets_difficulty(
                token.nonce,
                token.issued_at,
                old(self).pow_difficulty as nat,
            ) ==> r == Err::<Option<(HashPos, HashPos)>, ChordError>(ChordError::TokenInvalid)
                && final(self).predecessor_option == old(self).predecessor_option,
            !token_expired(token.issued_at, now, POW_TOKEN_LIVE_TIME) && meets_difficulty(
                token.nonce,
                token.issued_at,
                old(self).pow_difficulty as nat,
            ) ==> {
                let caller_pos = address_pos(caller@);
                if adopts(old(self).predecessor_option, old(self).pos, caller_pos) {
                    &&& r == Ok::<Option<(HashPos, HashPos)>, ChordError>(
                        Some(handed_arc(old(self).predecessor_option, old(self).pos, caller_pos)),
                    )
                    &&& final(self).predecessor_option matches Some(p) && p.key == caller_pos && p.address@ == caller@
                } else {
                    &&& r == Ok::<Option<(HashPos, HashPos)>, ChordError>(None)
                    &&& final(self).predecessor_option == old(self).predecessor_option
                }
            },
    {
        let (has_expired, valid) = token.validate(now, POW_TOKEN_LIVE_TIME, self.pow_difficulty);
        if has_expired {
            return Err(ChordError::TokenExpired);
        }
        if !valid {
            return Err(ChordError::TokenInvalid);
        }
        let caller_pos = address_position(caller);
        let (adopt, lower) = match &self.predecessor_option {
            Some(p) => (is_between(caller_pos, p.key, self.pos, false, true), p.key),
            None => (true, self.pos),
        };
        if adopt {
            self.predecessor_option = Some(FingerEntry::new(&caller_pos, caller));
            Ok(Some((lower, caller_pos)))
        } else {
            Ok(None)
        }
    }

    /// Copies of the stored pairs whose key lies on `(lower, upper]`, to hand over.
    pub fn pairs_to_hand_off(&self, lower: HashPos, upper: HashPos) -> (r: Vec<KvPair>)
        requires
            self.wf(),
        ensures
            crate::kv_store::keys_unique(r@),
            crate::kv_store::store_view(r@) == self.kv_store@.restrict(keys_in_arc(lower, upper)),
    {
        self.kv_store.pairs_in_arc(lower, upper)
    }

    /// Drops a pair after it was handed over.
    pub fn forget_pair(&mut self, key: &Key)
        requires
            old(self).wf(),
        ensures
            final(self).wf(),
            final(self).kv_store@ == old(self).kv_store@.remove(key@),
            final(self).predecessor_option == old(self).predecessor_option,
            final(self).pos == old(self).pos,
    {
        let _ = self.kv_store.remove(key);
    }

    /// Stores a pair handed over by another node, as it came.
    pub fn receive_pair(&mut self, key: Key, value: String, expiration: u64)
        requires
            old(self).wf(),
        ensures
            final(self).wf(),
            final(self).kv_store@ == old(self).kv_store@.insert(key@, (value@, expiration)),
            final(self).predecessor_option == old(self).predecessor_option,
            final(self).pos == old(self).pos,
    {
        self.kv_store.insert(key, value, expiration);
    }

    /// Whether this node is responsible for `key`, as an error where it is not.
    fn check_arc(&self, key: &Key) -> (r: Option<ChordError>)
        ensures
            r == arc_error(self.predecessor_option, self.pos, key@),
    {
        match &self.predecessor_option {
            None => Some(ChordError::PredecessorUnset),
            Some(p) => if is_between(key_position(key), p.key, self.pos, false, true) {
                None
            } else {
                Some(ChordError::OutsideArc)
            },
        }
    }

    /// Reads `key` at second `now`, where it lies on this node's arc.
    pub fn get(&mut self, key: &Key, now: u64) -> (r: Result<(String, GetStatus), ChordError>)
        requires
            old(self).wf(),
        ensures
            final(self).wf(),
            final(self).predecessor_option == old(self).predecessor_option,
            final(self).pos == old(self).pos,
            final(self).finger_table == old(self).finger_table,
            final(self).successor_list == old(self).successor_list,
            old(self).stores_own_arc() ==> final(self).stores_own_arc(),
            arc_error(old(self).predecessor_option, old(self).pos, key@) matches Some(e) ==> r == Err::<
                (String, GetStatus),
                ChordError,
            >(e) && final(self).kv_store@ == old(self).kv_store@,
            arc_error(old(self).predecessor_option, old(self).pos, key@) is None ==> r is Ok && {
                let (value, status) = r->Ok_0;
                let m = old(self).kv_store@;
                &&& !m.contains_key(key@) ==> value@ == Seq::<char>::empty() && status == GetStatus::NotFound
                    && final(self).kv_store@ == m
                &&& m.contains_key(key@) && expired(m[key@].1, now) ==> value@ == m[key@].0 && status
                    == GetStatus::Expired && final(self).kv_store@ == m.remove(key@)
                &&& m.contains_key(key@) && !expired(m[key@].1, now) ==> value@ == m[key@].0 && status
                    == GetStatus::Found && final(self).kv_store@ == m
            },
    {
        match self.check_arc(key) {
            Some(e) => Err(e),
            None => Ok(self.kv_store.get(key, now)),
        }
    }

    /// Stores `value` under `key` for `ttl` seconds from `now`, where the key
    /// lies on this node's arc. The expiration saturates at the largest second.
    pub fn put(&mut self, key: Key, value: String, ttl: u64, now: u64) -> (r: Result<(), ChordError>)
        requires
            old(self).wf(),
        ensures
            final(self).wf(),
            final(self).predecessor_option == old(self).predecessor_option,
            final(self).pos == old(self).pos,
            final(self).finger_table == old(self).finger_table,
            final(self).successor_list == old(self).successor_list,
            old(self).stores_own_arc() ==> final(self).stores_own_arc(),
            arc_error(old(self).predecessor_option, old(self).pos, key@) matches Some(e) ==> r == Err::<(), ChordError>(e)
                && final(self).kv_store@ == old(self).kv_store@,
            arc_error(old(self).predecessor_option, old(self).pos, key@) is None ==> r is Ok
                && final(self).kv_store@ == old(self).kv_store@.insert(
                key@,
                (value@, if now as int + ttl as int > u64::MAX {
                    u64::MAX
                } else {
                    (now + ttl) as u64
                }),
            ),
    {
        match self.check_arc(&key) {
            Some(e) => Err(e),
            None => {
                let expiration = now.saturating_add(ttl);
                self.kv_store.insert(key, value, expiration);
                Ok(())
            },
        }
    }

    /// The number of stored pairs, in development mode.
    pub fn get_kv_store_size(&self) -> (r: Result<usize, ChordError>)
        requires
            self.wf(),
        ensures
            self.dev_mode ==> r == Ok::<usize, ChordError>(self.kv_store@.len() as usize),
            !self.dev_mode ==> r == Err::<usize, ChordError>(ChordError::Unimplemented),
    {
        if !self.dev_mode {
            return Err(ChordError::Unimplemented);
        }
        Ok(self.kv_store.len())
    }

    /// Copies of all stored pairs, in development mode.
    pub fn get_kv_store_data(&self) -> (r: Result<Vec<KvPair>, ChordError>)
        requires
            self.wf(),
        ensures
            self.dev_mode ==> r is Ok && crate::kv_store::store_view(r->Ok_0@) == self.kv_store@,
            !self.dev_mode ==> r is Err && r->Err_0 == ChordError::Unimplemented,
    {
        if !self.dev_mode {
            return Err(ChordError::Unimplemented);
        }
        let all = self.kv_store.pairs_in_arc(self.pos, self.pos);
        proof {
            assert forall|k: Seq<u8>| #[trigger] keys_in_arc(self.pos, self.pos).contains(k) by {
                assert(on_arc(ring_hash(k), self.pos, self.pos, false, true));
            }
            assert(self.kv_store@.restrict(keys_in_arc(self.pos, self.pos)) =~= self.kv_store@);
        }
        Ok(all)
    }

    /// What the node reports of itself, in development mode.
    pub fn get_node_summary(&self) -> (r: Result<NodeSummary, ChordError>)
        requires
            self.wf(),
        ensures
            !self.dev_mode ==> r is Err && r->Err_0 == ChordError::Unimplemented,
            self.dev_mode ==> r is Ok && {
                let s = r->Ok_0;
                &&& s.url@ == self.address@
                &&& s.pos == self.pos
                &&& addresses(s.successor_list@) == self.successor_list@
                &&& s.finger_entries@.len() == self.finger_table.fingers@.len()
                &&& forall|i: int| 0 <= i < s.finger_entries@.len() ==> #[trigger] s.finger_entries@[i].key
                    == self.finger_table.fingers@[i].key && s.finger_entries@[i].address@
                    == self.finger_table.fingers@[i].address@
                &&& match self.predecessor_option {
                    Some(p) => s.predecessor matches Some(q) && q.key == p.key && q.address@ == p.address@,
                    None => s.predecessor is None,
                }
            },
    {
        if !self.dev_mode {
            return Err(ChordError::Unimplemented);
        }
        let mut finger_entries: Vec<FingerEntry> = Vec::new();
        let mut i: usize = 0;
        while i < self.finger_table.fingers.len()
            invariant
                i <= self.finger_table.fingers@.len(),
                finger_entries@.len() == i,
                forall|j: int| 0 <= j < i ==> #[trigger] finger_entries@[j].key == self.finger_table.fingers@[j].key
                    && finger_entries@[j].address@ == self.finger_table.fingers@[j].address@,
            decreases self.finger_table.fingers@.len() - i,
        {
            finger_entries.push(copy_entry(&self.finger_table.fingers[i]));
            i = i + 1;
        }
        let predecessor = match &self.predecessor_option {
            Some(p) => Some(copy_entry(p)),
            None => None,
        };
        Ok(
            NodeSummary {
                url: self.address.clone(),
                pos: self.pos,
                predecessor,
                finger_entries,
                successor_list: self.get_successor_list(),
            },
        )
    }
}

/// The positions of some nodes.
pub open spec fn node_positions(nodes: Seq<ChordService>) -> Seq<HashPos> {
    nodes.map_values(|n: ChordService| n.pos)
}

/// The positions of some nodes' predecessors.
pub open spec fn predecessor_positions(nodes: Seq<ChordService>) -> Seq<HashPos> {
    nodes.map_values(|n: ChordService| n.predecessor_option->0.key)
}

/// A settled ring: every node knows its nearest predecessor and stores only
/// keys on its own arc.
pub open spec fn settled(nodes: Seq<ChordService>) -> bool {
    &&& ring_of(node_positions(nodes), predecessor_positions(nodes))
    &&& forall|i: int| 0 <= i < nodes.len() ==> (#[trigger] nodes[i]).predecessor_option is Some
    &&& forall|i: int| 0 <= i < nodes.len() ==> (#[trigger] nodes[i]).stores_own_arc()
}

/// On a settled ring, exactly one node accepts reads and writes of a key, and
/// no other node holds it.
pub proof fn lemma_single_holder(nodes: Seq<ChordService>, key: Seq<u8>)
    requires
        settled(nodes),
    ensures
        exists|i: int| 0 <= i < nodes.len() && arc_error((#[trigger] nodes[i]).predecessor_option, nodes[i].pos, key) is None,
        forall|i: int, j: int|
            0 <= i < nodes.len() && 0 <= j < nodes.len() && arc_error(
                (#[trigger] nodes[i]).predecessor_option,
                nodes[i].pos,
                key,
            ) is None && (arc_error((#[trigger] nodes[j]).predecessor_option, nodes[j].pos, key) is None
                || nodes[j].kv_store@.contains_key(key)) ==> i == j,
{
    let ids = node_positions(nodes);
    let preds = predecessor_positions(nodes);
    let x = ring_hash(key);
    lemma_arcs_partition(ids, preds, x);
    let i0 = choose|i: int| 0 <= i < ids.len() && on_arc(x, #[trigger] preds[i], ids[i], false, true);
    assert(nodes[i0].predecessor_option is Some);
    assert(arc_error(nodes[i0].predecessor_option, nodes[i0].pos, key) is None);
    assert forall|i: int, j: int|
        0 <= i < nodes.len() && 0 <= j < nodes.len() && arc_error((#[trigger] nodes[i]).predecessor_option, nodes[i].pos, key)
            is None && (arc_error((#[trigger] nodes[j]).predecessor_option, nodes[j].pos, key) is None
            || nodes[j].kv_store@.contains_key(key)) implies i == j by {
        assert(nodes[i].predecessor_option is Some);
        assert(nodes[j].predecessor_option is Some);
        assert(on_arc(x, preds[i], ids[i], false, true));
        if nodes[j].kv_store@.contains_key(key) {
            assert(nodes[j].stores_own_arc());
        }
        assert(on_arc(x, preds[j], ids[j], false, true));
    }
}

/// A node that stores only keys on its arc still does so once it has adopted
/// a notifying predecessor and handed it the pairs of the arc it gave up.
pub proof fn lemma_handoff_keeps_own_arc(node: ChordService, caller_pos: HashPos)
    requires
        node.stores_own_arc(),
        adopts(node.predecessor_option, node.pos, caller_pos),
    ensures
        ({
            let (lower, upper) = handed_arc(node.predecessor_option, node.pos, caller_pos);
            let kept = node.kv_store@.remove_keys(keys_in_arc(lower, upper));
            forall|k: Seq<u8>| #[trigger] kept.contains_key(k) ==> on_arc(ring_hash(k), caller_pos, node.pos, false, true)
        }),
{
    let (lower, upper) = handed_arc(node.predecessor_option, node.pos, caller_pos);
    let kept = node.kv_store@.remove_keys(keys_in_arc(lower, upper));
    assert forall|k: Seq<u8>| #[trigger] kept.contains_key(k) implies on_arc(ring_hash(k), caller_pos, node.pos, false, true) by {
        assert(node.kv_store@.contains_key(k));
        assert(!keys_in_arc(lower, upper).contains(k));
        let x = ring_hash(k);
        let p = node.predecessor_option->0.key;
        assert(responsible_for(node.predecessor_option, node.pos, k));
        lemma_ring_distance(p, x);
        lemma_ring_distance(p, caller_pos);
        lemma_ring_distance(p, node.pos);
        lemma_ring_distance(caller_pos, x);
        lemma_ring_distance(caller_pos, node.pos);
        lemma_ring_distance(x, node.pos);
    }
}

/// The expiration `put` gives a value stored at second `now` for `ttl` seconds.
pub open spec fn expiration_of(now: u64, ttl: u64) -> u64 {
    if now as int + ttl as int > u64::MAX {
        u64::MAX
    } else {
        (now + ttl) as u64
    }
}

/// A value stored with the longest time to live, at any second, is read back
/// unchanged at any later second by the node that accepted it.
pub proof fn lemma_put_then_get(node: ChordService, key: Seq<u8>, value: Seq<char>, put_at: u64, get_at: u64)
    requires
        arc_error(node.predecessor_option, node.pos, key) is None,
    ensures
        ({
            let m = node.kv_store@.insert(key, (value, expiration_of(put_at, u64::MAX)));
            &&& m.contains_key(key)
            &&& m[key].0 == value
            &&& !expired(m[key].1, get_at)
        }),
{
}

/// The state a repair tick touches: the finger addresses, the immediate
/// successor, and the index of the last repaired finger.
pub struct RepairState {
    pub fingers: Seq<Seq<char>>,
    pub successor: Seq<char>,
    pub index: nat,
}

/// One repair tick of a node at `pos` where lookups answer with `owner`: the
/// next finger is pointed at the owner of its target, and at index 1 the
/// immediate successor too.
pub open spec fn fix_tick(st: RepairState, pos: HashPos, owner: spec_fn(HashPos) -> Seq<char>) -> RepairState {
    let i = ((st.index + 1) % (FINGER_COUNT as nat)) as nat;
    let found = owner(finger_target_spec(pos, i));
    RepairState {
        fingers: st.fingers.update(i as int, found),
        successor: if i == 1 {
            found
        } else {
            st.successor
        },
        index: i,
    }
}

/// `n` repair ticks.
pub open spec fn fix_ticks(st: RepairState, pos: HashPos, owner: spec_fn(HashPos) -> Seq<char>, n: nat) -> RepairState
    decreases n,
{
    if n == 0 {
        st
    } else {
        fix_tick(fix_ticks(st, pos, owner, (n - 1) as nat), pos, owner)
    }
}

/// The finger addresses that a ring answering with `owner` settles on.
pub open spec fn settled_fingers(pos: HashPos, owner: spec_fn(HashPos) -> Seq<char>) -> Seq<Seq<char>> {
    Seq::new(FINGER_COUNT as nat, |i: int| owner(finger_target_spec(pos, i as nat)))
}

/// The number of ticks from index `index` until finger 1 is repaired.
pub open spec fn ticks_to_finger_one(index: nat) -> nat {
    if index < 1 {
        1
    } else {
        (FINGER_COUNT + 1 - index) as nat
    }
}

proof fn lemma_fix_ticks_progress(st: RepairState, pos: HashPos, owner: spec_fn(HashPos) -> Seq<char>, k: nat)
    requires
        st.fingers.len() == FINGER_COUNT,
        st.index < FINGER_COUNT,
    ensures
        fix_ticks(st, pos, owner, k).fingers.len() == FINGER_COUNT,
        fix_ticks(st, pos, owner, k).index == (st.index + k) % (FINGER_COUNT as nat),
        forall|t: nat|
            1 <= t <= k && t <= FINGER_COUNT ==> #[trigger] fix_ticks(st, pos, owner, k).fingers[((st.index + t)
                % (FINGER_COUNT as nat)) as int] == owner(finger_target_spec(pos, (st.index + t) % (FINGER_COUNT as nat))),
        k >= ticks_to_finger_one(st.index) ==> fix_ticks(st, pos, owner, k).successor == owner(finger_target_spec(pos, 1)),
    decreases k,
{
    if k > 0 {
        lemma_fix_ticks_progress(st, pos, owner, (k - 1) as nat);
        let prev = fix_ticks(st, pos, owner, (k - 1) as nat);
        vstd::arithmetic::div_mod::lemma_add_mod_noop((st.index + k - 1) as int, 1, FINGER_COUNT as int);
        vstd::arithmetic::div_mod::lemma_small_mod(1, FINGER_COUNT as nat);
        assert(prev.index == ((st.index + k - 1) as nat) % (FINGER_COUNT as nat));
        assert((prev.index + 1) % (FINGER_COUNT as nat) == (st.index + k) % (FINGER_COUNT as nat));
        if k == ticks_to_finger_one(st.index) {
            if st.index < 1 {
                vstd::arithmetic::div_mod::lemma_small_mod(1, FINGER_COUNT as nat);
            } else {
                vstd::arithmetic::div_mod::lemma_mod_add_multiples_vanish(1, FINGER_COUNT as int);
            }
            assert((st.index + k) % (FINGER_COUNT as nat) == 1);
        }
    }
}

/// Repair ticks on a ring whose lookups answer the same way settle the
/// finger addresses and the immediate successor within one full cycle; later
/// ticks change none of them.
pub proof fn lemma_fix_fingers_settle(st: RepairState, pos: HashPos, owner: spec_fn(HashPos) -> Seq<char>, n: nat)
    requires
        st.fingers.len() == FINGER_COUNT,
        st.index < FINGER_COUNT,
        n >= FINGER_COUNT,
    ensures
        fix_ticks(st, pos, owner, n).fingers == settled_fingers(pos, owner),
        fix_ticks(st, pos, owner, n).successor == owner(finger_target_spec(pos, 1)),
{
    lemma_fix_ticks_progress(st, pos, owner, n);
    let f = fix_ticks(st, pos, owner, n).fingers;
    let index = st.index;
    assert forall|i: int| 0 <= i < FINGER_COUNT implies f[i] == settled_fingers(pos, owner)[i] by {
        let t: nat = if i > index {
            (i - index) as nat
        } else {
            (i - index + FINGER_COUNT) as nat
        };
        if i > index {
            vstd::arithmetic::div_mod::lemma_small_mod(i as nat, FINGER_COUNT as nat);
        } else {
            vstd::arithmetic::div_mod::lemma_mod_add_multiples_vanish(i, FINGER_COUNT as int);
            vstd::arithmetic::div_mod::lemma_small_mod(i as nat, FINGER_COUNT as nat);
        }
        assert((index + t) % (FINGER_COUNT as nat) == i);
        assert(f[((index + t) % (FINGER_COUNT as nat)) as int] == owner(
            finger_target_spec(pos, (index + t) % (FINGER_COUNT as nat)),
        ));
    }
    assert(f =~= settled_fingers(pos, owner));
}

} // verus!
