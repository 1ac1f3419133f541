use chord::finger_entry::FingerEntry;
use chord::finger_table::{FingerTable, FINGER_COUNT};
use chord::ring::{address_position, finger_target};
use chord::successor_list::{SuccessorList, SUCCESSOR_COUNT};

#[test]
fn finger_entry_accessors() {
    let mut e = FingerEntry::new(&42, &String::from("10.0.0.1:1"));
    assert_eq!(*e.get_key(), 42);
    assert_eq!(e.get_address(), "10.0.0.1:1");
    *e.get_address_mut() = String::from("10.0.0.2:2");
    assert_eq!(e.get_address(), "10.0.0.2:2");
    assert_eq!(*e.get_key(), 42);
}

#[test]
fn finger_table_new_targets_powers_of_two() {
    let own = String::from("n");
    let t = FingerTable::new(&100, &own);
    assert_eq!(t.fingers.len(), FINGER_COUNT);
    assert_eq!(FINGER_COUNT, 128);
    for (i, f) in t.fingers.iter().enumerate() {
        assert_eq!(f.key, finger_target(100, i));
        assert_eq!(f.address, "n");
    }
    assert_eq!(t.fingers[0].key, 101);
    assert_eq!(t.fingers[4].key, 116);
}

#[test]
fn finger_table_set_finger_and_all() {
    let mut t = FingerTable::new(&0, &String::from("a"));
    t.set_finger(5, String::from("b"));
    assert_eq!(t.fingers[5].address, "b");
    assert_eq!(t.fingers[5].key, 32);
    assert_eq!(t.fingers[4].address, "a");
    t.set_all_fingers(&String::from("c"));
    assert!(t.fingers.iter().all(|f| f.address == "c"));
    assert_eq!(t.fingers[5].key, 32);
}

#[test]
fn closest_preceding_finger_picks_highest_between() {
    let own = String::from("own");
    let own_pos = 0u128;
    let mut t = FingerTable::new(&own_pos, &String::new());
    let a = String::from("node-a");
    let b = String::from("node-b");
    let pa = address_position(&a);
    let pb = address_position(&b);
    let (near, far, near_pos, far_pos) = if pa < pb { (a, b, pa, pb) } else { (b, a, pb, pa) };
    t.set_finger(3, near.clone());
    t.set_finger(9, far.clone());
    // a target past both: the highest finger whose node precedes it
    let r = t.closest_preceding_finger(own_pos, &own, far_pos + 1);
    assert_eq!(r.address, far);
    assert_eq!(r.key, far_pos);
    // a target between them: only the nearer one precedes it
    let r = t.closest_preceding_finger(own_pos, &own, far_pos);
    assert_eq!(r.address, near);
    assert_eq!(r.key, near_pos);
    // a target before both: the node itself
    let r = t.closest_preceding_finger(own_pos, &own, near_pos);
    assert_eq!(r.address, "own");
    assert_eq!(r.key, own_pos);
}

#[test]
fn closest_preceding_finger_skips_unset_entries() {
    let own = String::from("own");
    let t = FingerTable::new(&5, &String::new());
    let r = t.closest_preceding_finger(5, &own, 4);
    assert_eq!(r.address, "own");
    assert_eq!(r.key, 5);
}

#[test]
fn successor_list_new_and_alone() {
    let l = SuccessorList::new(&String::from("me"), &String::from("next"));
    assert_eq!(l.successors, vec!["next", "me", "me", "me"]);
    let l = SuccessorList::alone(&String::from("me"));
    assert_eq!(l.successors.len(), SUCCESSOR_COUNT);
    assert!(l.successors.iter().all(|s| s == "me"));
    assert_eq!(l.first(), "me");
}

#[test]
fn successor_list_refresh_truncates() {
    let mut l = SuccessorList::alone(&String::from("me"));
    let theirs: Vec<String> = ["b", "c", "d", "e", "f"].iter().map(|s| s.to_string()).collect();
    l.refresh(&String::from("a"), &theirs);
    assert_eq!(l.successors, vec!["a", "b", "c", "d"]);
    l.refresh(&String::from("x"), &vec![String::from("y")]);
    assert_eq!(l.successors, vec!["x", "y"]);
    l.refresh(&String::from("z"), &Vec::new());
    assert_eq!(l.successors, vec!["z"]);
}

#[test]
fn successor_list_set_first_and_skip() {
    let mut l = SuccessorList::new(&String::from("me"), &String::from("next"));
    l.set_first(&String::from("other"));
    assert_eq!(l.successors, vec!["other", "me", "me", "me"]);
    let theirs: Vec<String> = ["b", "c", "d"].iter().map(|s| s.to_string()).collect();
    l.refresh(&String::from("a"), &theirs);
    l.skip(2);
    assert_eq!(l.successors, vec!["c", "d"]);
}
