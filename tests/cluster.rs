use std::collections::BTreeMap;

use chord::chord::{ChordError, ChordService, FallbackStep, RouteStep};
use chord::kv_store::{key_position, pad_key, GetStatus};
use chord::pow::PowToken;
use chord::ring::{address_position, is_between};
use chord::validate::validate_cluster;

const NOW: u64 = 1_000;
const DIFFICULTY: usize = 1;

struct Cluster {
    nodes: BTreeMap<String, ChordService>,
}

fn token() -> PowToken {
    PowToken::generate(DIFFICULTY, NOW, 1_000_000).unwrap()
}

impl Cluster {
    fn new() -> Cluster {
        Cluster { nodes: BTreeMap::new() }
    }

    fn seed(&mut self, address: &str) {
        let a = address.to_string();
        self.nodes.insert(a.clone(), ChordService::new(&a, DIFFICULTY, true));
    }

    fn join(&mut self, address: &str, peer: &str) {
        let a = address.to_string();
        let successor = self.find_successor(peer, address_position(&a)).unwrap();
        let theirs = self.nodes[&successor].get_successor_list();
        self.nodes.insert(a.clone(), ChordService::join(&a, &successor, &theirs, DIFFICULTY, true));
    }

    fn find_successor(&self, start: &str, target: u128) -> Option<String> {
        let mut current = start.to_string();
        for _ in 0..64 {
            let node = self.nodes.get(&current)?;
            match node.find_successor_step(target) {
                RouteStep::Resolved(a) => return Some(a),
                RouteStep::Forward(f) => {
                    if self.nodes.contains_key(&f.address) {
                        current = f.address;
                    } else {
                        let mut attempt = 0u32;
                        loop {
                            match node.find_successor_fallback(attempt) {
                                FallbackStep::AskPredecessor(p) => {
                                    if !self.nodes.contains_key(&p) {
                                        return None;
                                    }
                                    current = p;
                                    break;
                                }
                                FallbackStep::Retry => attempt += 1,
                                FallbackStep::GiveUp => return None,
                            }
                        }
                    }
                }
            }
        }
        None
    }

    fn stabilize(&mut self, address: &str) {
        let mut node = self.nodes.remove(address).unwrap();
        let list = node.get_successor_list();
        let failed = list.iter().take_while(|s| *s != address && !self.nodes.contains_key(*s)).count();
        if node.skip_unreachable_successors(failed).is_err() {
            self.nodes.insert(address.to_string(), node);
            return;
        }
        let successor = node.get_successor_address();
        let reported = if successor == address {
            node.get_predecessor()
        } else {
            self.nodes[&successor].get_predecessor()
        };
        node.stabilize_with(&successor, &reported);
        let successor = node.get_successor_address();
        let me = address.to_string();
        if successor == address {
            if let Ok(Some((lo, hi))) = node.notify(&me, &token(), NOW) {
                for p in node.pairs_to_hand_off(lo, hi) {
                    node.forget_pair(&p.key);
                    node.receive_pair(p.key, p.value, p.expiration);
                }
            }
            let theirs = node.get_successor_list();
            node.refresh_successor_list(&theirs);
        } else if let Some(next) = self.nodes.get_mut(&successor) {
            if let Ok(Some((lo, hi))) = next.notify(&me, &token(), NOW) {
                for p in next.pairs_to_hand_off(lo, hi) {
                    next.forget_pair(&p.key);
                    node.receive_pair(p.key, p.value, p.expiration);
                }
            }
            let theirs = next.get_successor_list();
            node.refresh_successor_list(&theirs);
        }
        self.nodes.insert(me, node);
    }

    fn fix_fingers(&mut self, address: &str) {
        let (index, target) = self.nodes[address].next_finger_to_fix();
        if let Some(found) = self.find_successor(address, target) {
            self.nodes.get_mut(address).unwrap().apply_fixed_finger(index, &found);
        }
    }

    fn check_predecessors(&mut self) {
        let alive: Vec<String> = self.nodes.keys().cloned().collect();
        for node in self.nodes.values_mut() {
            if let Some(p) = node.get_predecessor() {
                if !alive.contains(&p) {
                    node.clear_predecessor();
                }
            }
        }
    }

    fn rounds(&mut self, n: usize) {
        let addresses: Vec<String> = self.nodes.keys().cloned().collect();
        for _ in 0..n {
            self.check_predecessors();
            for a in &addresses {
                self.stabilize(a);
            }
            for a in &addresses {
                for _ in 0..128 {
                    self.fix_fingers(a);
                }
            }
        }
    }

    fn valid(&self) -> bool {
        let summaries: Vec<_> = self.nodes.values().map(|n| n.get_node_summary().unwrap()).collect();
        validate_cluster(&summaries).is_empty()
    }

    fn put(&mut self, via: &str, name: &str, value: &str, ttl: u64, now: u64) -> Result<(), ChordError> {
        let key = pad_key(name.as_bytes()).unwrap();
        let owner = self.find_successor(via, key_position(&key)).unwrap();
        self.nodes.get_mut(&owner).unwrap().put(key, value.to_string(), ttl, now)
    }

    fn get(&mut self, via: &str, name: &str, now: u64) -> Result<(String, GetStatus), ChordError> {
        let key = pad_key(name.as_bytes()).unwrap();
        let owner = self.find_successor(via, key_position(&key)).unwrap();
        self.nodes.get_mut(&owner).unwrap().get(&key, now)
    }

    fn holders(&self, name: &str) -> usize {
        let key = pad_key(name.as_bytes()).unwrap();
        self.nodes.values().filter(|n| n.kv_store.entries.iter().any(|p| p.key == key)).count()
    }
}

const A: &str = "127.0.0.1:6001";
const B: &str = "127.0.0.1:6002";
const C: &str = "127.0.0.1:6003";

#[test]
fn seed_then_join() {
    let mut c = Cluster::new();
    c.seed(A);
    c.join(B, A);
    c.rounds(3);
    assert_eq!(c.nodes[A].get_successor_address(), B);
    assert_eq!(c.nodes[B].get_successor_address(), A);
    assert_eq!(c.nodes[A].get_predecessor(), Some(B.to_string()));
    assert_eq!(c.nodes[B].get_predecessor(), Some(A.to_string()));
    assert!(c.valid());
}

#[test]
fn three_node_ring() {
    let mut c = Cluster::new();
    c.seed(A);
    c.join(B, A);
    c.rounds(2);
    c.join(C, A);
    c.rounds(4);
    let mut order: Vec<&str> = vec![A, B, C];
    order.sort_by_key(|a| address_position(&a.to_string()));
    for i in 0..3 {
        let prior = order[(i + 2) % 3];
        assert_eq!(c.nodes[order[i]].get_predecessor(), Some(prior.to_string()));
    }
    assert!(c.valid());
}

#[test]
fn put_get_across_nodes() {
    let mut c = Cluster::new();
    c.seed(A);
    c.join(B, A);
    c.join(C, A);
    c.rounds(4);
    c.put(B, "hello", "world", 3600, NOW).unwrap();
    for via in [A, B, C] {
        assert_eq!(c.get(via, "hello", NOW + 1).unwrap(), (String::from("world"), GetStatus::Found));
    }
    assert_eq!(c.holders("hello"), 1);
}

#[test]
fn ttl_expiry() {
    let mut c = Cluster::new();
    c.seed(A);
    c.rounds(1);
    c.put(A, "k", "v", 1, NOW).unwrap();
    assert_eq!(c.get(A, "k", NOW + 2).unwrap(), (String::from("v"), GetStatus::Expired));
    assert_eq!(c.get(A, "k", NOW + 2).unwrap(), (String::new(), GetStatus::NotFound));
}

#[test]
fn put_then_get_with_longest_ttl() {
    let mut c = Cluster::new();
    c.seed(A);
    c.rounds(1);
    c.put(A, "forever", "v", u64::MAX, NOW).unwrap();
    assert_eq!(c.get(A, "forever", u64::MAX).unwrap(), (String::from("v"), GetStatus::Found));
}

#[test]
fn join_triggers_handoff() {
    let mut c = Cluster::new();
    c.seed(A);
    c.rounds(1);
    let names: Vec<String> = (0..40).map(|i| format!("key-{}", i)).collect();
    for n in &names {
        c.put(A, n, "v", 3600, NOW).unwrap();
    }
    assert_eq!(c.nodes[A].get_kv_store_size().unwrap(), 40);
    c.join(B, A);
    c.rounds(2);
    let a_pos = address_position(&A.to_string());
    let b_pos = address_position(&B.to_string());
    let on_b = names
        .iter()
        .filter(|n| is_between(key_position(&pad_key(n.as_bytes()).unwrap()), a_pos, b_pos, false, true))
        .count();
    assert_eq!(c.nodes[B].get_kv_store_size().unwrap(), on_b);
    assert_eq!(c.nodes[A].get_kv_store_size().unwrap(), 40 - on_b);
    for n in &names {
        assert_eq!(c.holders(n), 1);
        assert_eq!(c.get(A, n, NOW).unwrap(), (String::from("v"), GetStatus::Found));
        assert_eq!(c.get(B, n, NOW).unwrap(), (String::from("v"), GetStatus::Found));
    }
}

#[test]
fn finger_failure_routing() {
    let mut c = Cluster::new();
    c.seed(A);
    c.join(B, A);
    c.join(C, A);
    c.rounds(6);
    assert!(c.valid());
    c.nodes.remove(B);
    for via in [A, C] {
        for k in 0..20u32 {
            let target = address_position(&format!("probe-{}", k));
            assert!(c.find_successor(via, target).is_some());
        }
    }
    c.rounds(6);
    assert!(c.valid());
    assert_eq!(c.nodes[A].get_successor_address(), C);
    assert_eq!(c.nodes[C].get_successor_address(), A);
}

#[test]
fn get_needs_a_predecessor_and_the_arc() {
    let a = A.to_string();
    let mut node = ChordService::new(&a, DIFFICULTY, false);
    let key = pad_key(b"x").unwrap();
    assert_eq!(node.get(&key, NOW), Err(ChordError::PredecessorUnset));
    assert_eq!(node.put(key, String::from("v"), 1, NOW), Err(ChordError::PredecessorUnset));
    // a predecessor just before this node leaves it a one-position arc
    let pos = address_position(&a);
    node.predecessor_option = Some(chord::finger_entry::FingerEntry { key: pos.wrapping_sub(1), address: String::from("p") });
    assert_eq!(node.get(&key, NOW), Err(ChordError::OutsideArc));
}

#[test]
fn notify_rejects_bad_tokens() {
    let a = A.to_string();
    let b = B.to_string();
    let mut node = ChordService::new(&a, 2, false);
    let good = PowToken::generate(2, NOW, 1_000_000).unwrap();
    assert_eq!(node.notify(&b, &good, NOW + 6), Err(ChordError::TokenExpired));
    let weak = PowToken { nonce: 0, issued_at: NOW };
    assert_eq!(node.notify(&b, &weak, NOW), Err(ChordError::TokenInvalid));
    assert_eq!(node.get_predecessor(), None);
    let pos = address_position(&a);
    let b_pos = address_position(&b);
    assert_eq!(node.notify(&b, &good, NOW), Ok(Some((pos, b_pos))));
    assert_eq!(node.get_predecessor(), Some(b.clone()));
}

#[test]
fn debug_requests_need_dev_mode() {
    let a = A.to_string();
    let node = ChordService::new(&a, DIFFICULTY, false);
    assert_eq!(node.get_kv_store_size(), Err(ChordError::Unimplemented));
    assert!(node.get_node_summary().is_err());
    assert!(node.get_kv_store_data().is_err());
    let node = ChordService::new(&a, DIFFICULTY, true);
    assert_eq!(node.get_kv_store_size(), Ok(0));
    assert_eq!(node.get_node_summary().unwrap().finger_entries.len(), 128);
}

#[test]
fn fix_fingers_index_wraps_round() {
    let a = A.to_string();
    let mut node = ChordService::new(&a, DIFFICULTY, true);
    let (i, target) = node.next_finger_to_fix();
    assert_eq!(i, 1);
    assert_eq!(target, address_position(&a).wrapping_add(2));
    node.apply_fixed_finger(1, &String::from("z"));
    assert_eq!(node.get_successor_address(), "z");
    assert_eq!(node.finger_table.fingers[1].address, "z");
    node.apply_fixed_finger(127, &String::from("y"));
    assert_eq!(node.next_finger_to_fix().0, 0);
    assert_eq!(node.get_successor_address(), "z");
}

#[test]
fn fix_fingers_settle_on_static_ring() {
    let mut c = Cluster::new();
    c.seed(A);
    c.join(B, A);
    c.join(C, A);
    c.rounds(6);
    let before: Vec<Vec<String>> =
        c.nodes.values().map(|n| n.finger_table.fingers.iter().map(|f| f.address.clone()).collect()).collect();
    for a in [A, B, C] {
        for _ in 0..300 {
            c.fix_fingers(a);
        }
    }
    let after: Vec<Vec<String>> =
        c.nodes.values().map(|n| n.finger_table.fingers.iter().map(|f| f.address.clone()).collect()).collect();
    assert_eq!(before, after);
    assert!(c.valid());
}

#[test]
fn lookup_falls_back_to_predecessor() {
    let a = A.to_string();
    let mut node = ChordService::new(&a, DIFFICULTY, true);
    assert!(matches!(node.find_successor_fallback(0), FallbackStep::Retry));
    assert!(matches!(node.find_successor_fallback(20), FallbackStep::GiveUp));
    let b = B.to_string();
    node.notify(&b, &token(), NOW).unwrap();
    match node.find_successor_fallback(25) {
        FallbackStep::AskPredecessor(p) => assert_eq!(p, b),
        other => panic!("unexpected {:?}", other),
    }
}

#[test]
fn lookup_step_resolves_on_successor_arc() {
    let a = A.to_string();
    let node = ChordService::new(&a, DIFFICULTY, true);
    // alone on the ring, every lookup ends at the node itself
    match node.find_successor_step(12345) {
        RouteStep::Resolved(s) => assert_eq!(s, a),
        other => panic!("unexpected {:?}", other),
    }
    let b = B.to_string();
    let node = ChordService::join(&a, &b, &vec![a.clone()], DIFFICULTY, true);
    let b_pos = address_position(&b);
    match node.find_successor_step(b_pos) {
        RouteStep::Resolved(s) => assert_eq!(s, b),
        other => panic!("unexpected {:?}", other),
    }
    // past the successor: forwarded to finger 0, the successor, which precedes the target
    match node.find_successor_step(b_pos.wrapping_add(1)) {
        RouteStep::Forward(f) => {
            assert_eq!(f.address, b);
            assert_eq!(f.key, b_pos);
        }
        other => panic!("unexpected {:?}", other),
    }
}

#[test]
fn fail_over_when_successors_are_unreachable() {
    let a = A.to_string();
    let b = B.to_string();
    let c = C.to_string();
    let mut node = ChordService::join(&a, &b, &vec![c.clone(), a.clone()], DIFFICULTY, true);
    assert_eq!(node.get_successor_list(), vec![b.clone(), c.clone(), a.clone()]);
    assert_eq!(node.skip_unreachable_successors(3), Err(ChordError::Unavailable));
    assert_eq!(node.get_successor_address(), b);
    assert_eq!(node.skip_unreachable_successors(1), Ok(()));
    assert_eq!(node.get_successor_list(), vec![c.clone(), a.clone()]);
    assert_eq!(node.finger_table.fingers[0].address, c);
}
