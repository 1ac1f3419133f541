use vstd::prelude::*;

use crate::chord::NodeSummary;
use crate::ring::{address_pos, address_position, lemma_wrapping_add, ring_add, HashPos};

verus! {

/// A ring position as sent on the wire: sixteen bytes, most significant first.
#[derive(Clone, Debug)]
pub struct HashPosMsg {
    pub key: Vec<u8>,
}

/// The number that `bytes` spell, most significant first.
pub open spec fn be_value(bytes: Seq<u8>) -> nat
    decreases bytes.len(),
{
    if bytes.len() == 0 {
        0
    } else {
        be_value(bytes.drop_last()) * 256 + bytes.last() as nat
    }
}

/// Byte `j` of `x`, counting from the least significant.
pub open spec fn byte_at(x: nat, j: nat) -> u8 {
    ((x / pow256(j)) % 256) as u8
}

proof fn lemma_be_value_bound(bytes: Seq<u8>)
    ensures
        be_value(bytes) < pow256(bytes.len()),
    decreases bytes.len(),
{
    if bytes.len() > 0 {
        lemma_be_value_bound(bytes.drop_last());
        let a = be_value(bytes.drop_last());
        let p = pow256(bytes.drop_last().len());
        assert(a * 256 + 255 < p * 256) by (nonlinear_arith)
            requires
                a < p,
        ;
    }
}

/// `256^n`.
pub open spec fn pow256(n: nat) -> nat
    decreases n,
{
    if n == 0 {
        1
    } else {
        256 * pow256((n - 1) as nat)
    }
}

/// Decodes a ring position from its sixteen wire bytes.
pub fn foo(pos_msg: HashPosMsg) -> (r: HashPos)
    requires
        pos_msg.key@.len() == 16,
    ensures
        r as nat == be_value(pos_msg.key@),
{
    let bytes = &pos_msg.key;
    let mut v: u128 = 0;
    let mut i: usize = 0;
    proof {
        reveal_with_fuel(pow256, 17);
        assert(pow256(16) == u128::MAX as nat + 1);
    }
    while i < 16
        invariant
            i <= 16,
            bytes@.len() == 16,
            pow256(16) == u128::MAX as nat + 1,
            v as nat == be_value(bytes@.subrange(0, i as int)),
        decreases 16 - i,
    {
        let ghost prefix = bytes@.subrange(0, i + 1);
        proof {
            assert(prefix.drop_last() =~= bytes@.subrange(0, i as int));
            lemma_be_value_bound(prefix);
            lemma_pow256_monotone(prefix.len(), 16);
        }
        v = v * 256 + bytes[i] as u128;
        i = i + 1;
    }
    proof {
        assert(bytes@.subrange(0, 16) =~= bytes@);
    }
    v
}

proof fn lemma_pow256_monotone(a: nat, b: nat)
    requires
        a <= b,
    ensures
        pow256(a) <= pow256(b),
    decreases b,
{
    if a < b {
        lemma_pow256_monotone(a, (b - 1) as nat);
    }
}

/// Encodes a ring position as sixteen wire bytes.
pub fn pos_to_msg(pos: HashPos) -> (r: HashPosMsg)
    ensures
        r.key@ == Seq::new(16, |k: int| byte_at(pos as nat, (15 - k) as nat)),
{
    let mut rev: Vec<u8> = Vec::new();
    let mut v: u128 = pos;
    let mut i: usize = 0;
    proof {
        assert(pow256(0) == 1);
        assert(pos as nat / 1 == pos as nat);
    }
    while i < 16
        invariant
            i <= 16,
            rev@.len() == i,
            forall|j: int| 0 <= j < i ==> #[trigger] rev@[j] == byte_at(pos as nat, j as nat),
            v as nat == pos as nat / pow256(i as nat),
        decreases 16 - i,
    {
        proof {
            lemma_div_pow256(pos as nat, i as nat);
        }
        rev.push((v % 256) as u8);
        v = v / 256;
        i = i + 1;
    }
    let mut key: Vec<u8> = Vec::new();
    let mut k: usize = 0;
    while k < 16
        invariant
            k <= 16,
            rev@.len() == 16,
            forall|j: int| 0 <= j < 16 ==> #[trigger] rev@[j] == byte_at(pos as nat, j as nat),
            key@.len() == k,
            forall|j: int| 0 <= j < k ==> #[trigger] key@[j] == byte_at(pos as nat, (15 - j) as nat),
        decreases 16 - k,
    {
        key.push(rev[15 - k]);
        k = k + 1;
    }
    proof {
        assert(key@ =~= Seq::new(16, |k: int| byte_at(pos as nat, (15 - k) as nat)));
    }
    HashPosMsg { key }
}

proof fn lemma_div_pow256(x: nat, i: nat)
    ensures
        x / pow256(i + 1) == (x / pow256(i)) / 256,
{
    let p = pow256(i);
    assert(p > 0) by {
        lemma_pow256_monotone(0, i);
    }
    vstd::arithmetic::div_mod::lemma_div_denominator(x as int, p as int, 256);
    assert(pow256(i + 1) == 256 * p);
    assert(p * 256 == 256 * p) by (nonlinear_arith);
}

/// The least of the first `n` positions that are at least `key`, if any.
pub open spec fn least_at_least(key: HashPos, ids: Seq<HashPos>, n: int) -> Option<HashPos>
    decreases n,
{
    if n <= 0 {
        None
    } else {
        let rest = least_at_least(key, ids, n - 1);
        let x = ids[n - 1];
        if x < key {
            rest
        } else {
            match rest {
                Some(m) => if m <= x {
                    Some(m)
                } else {
                    Some(x)
                },
                None => Some(x),
            }
        }
    }
}

/// The least of the first `n` positions (`n > 0`).
pub open spec fn least(ids: Seq<HashPos>, n: int) -> HashPos
    decreases n,
{
    if n <= 1 {
        ids[0]
    } else {
        let m = least(ids, n - 1);
        if m <= ids[n - 1] {
            m
        } else {
            ids[n - 1]
        }
    }
}

/// The node responsible for `key` among the node positions `ids`: the first at
/// or after `key`, wrapping round to the lowest.
pub open spec fn responsible_node(key: HashPos, ids: Seq<HashPos>) -> HashPos {
    match least_at_least(key, ids, ids.len() as int) {
        Some(m) => m,
        None => least(ids, ids.len() as int),
    }
}

/// The node responsible for `key` among the node positions `other_nodes`.
pub fn get_responsible_node_for_key(key: HashPos, other_nodes: &Vec<HashPos>) -> (r: HashPos)
    requires
        other_nodes@.len() > 0,
    ensures
        r == responsible_node(key, other_nodes@),
{
    let mut best: Option<HashPos> = None;
    let mut lowest: HashPos = other_nodes[0];
    let mut i: usize = 0;
    while i < other_nodes.len()
        invariant
            0 < other_nodes@.len(),
            i <= other_nodes@.len(),
            best == least_at_least(key, other_nodes@, i as int),
            i > 0 ==> lowest == least(other_nodes@, i as int),
            i == 0 ==> lowest == other_nodes@[0],
        decreases other_nodes@.len() - i,
    {
        let x = other_nodes[i];
        if x >= key {
            best = match best {
                Some(m) => if m <= x {
                    Some(m)
                } else {
                    Some(x)
                },
                None => Some(x),
            };
        }
        if i > 0 && x < lowest {
            lowest = x;
        }
        i = i + 1;
    }
    match best {
        Some(m) => m,
        None => lowest,
    }
}

/// The index of the first summary at position `p`, from index `i` on; `-1` where none is.
pub open spec fn index_of_pos(s: Seq<NodeSummary>, p: HashPos, i: int) -> int
    decreases s.len() - i,
{
    if i < 0 || i >= s.len() {
        -1
    } else if s[i].pos == p {
        i
    } else {
        index_of_pos(s, p, i + 1)
    }
}

proof fn lemma_index_of_pos(s: Seq<NodeSummary>, p: HashPos, i: int)
    requires
        0 <= i <= s.len(),
    ensures
        -1 <= index_of_pos(s, p, i) < s.len(),
        index_of_pos(s, p, i) >= 0 ==> index_of_pos(s, p, i) >= i && s[index_of_pos(s, p, i)].pos == p,
        index_of_pos(s, p, i) == -1 <==> forall|j: int| i <= j < s.len() ==> #[trigger] s[j].pos != p,
    decreases s.len() - i,
{
    if i < s.len() && s[i].pos != p {
        lemma_index_of_pos(s, p, i + 1);
    }
}

/// The address of the node at position `key` among `node_summaries`.
pub fn get_node_address_for_key(key: &HashPos, node_summaries: &Vec<NodeSummary>) -> (r: String)
    requires
        exists|j: int| 0 <= j < node_summaries@.len() && #[trigger] node_summaries@[j].pos == *key,
    ensures
        r@ == node_summaries@[index_of_pos(node_summaries@, *key, 0)].url@,
{
    let mut i: usize = 0;
    proof {
        lemma_index_of_pos(node_summaries@, *key, 0);
    }
    while i < node_summaries.len()
        invariant
            i <= node_summaries@.len(),
            index_of_pos(node_summaries@, *key, 0) == index_of_pos(node_summaries@, *key, i as int),
            index_of_pos(node_summaries@, *key, 0) >= 0,
            forall|j: int| 0 <= j < i ==> #[trigger] node_summaries@[j].pos != *key,
        decreases node_summaries@.len() - i,
    {
        if node_summaries[i].pos == *key {
            return node_summaries[i].url.clone();
        }
        i = i + 1;
    }
    proof {
        lemma_index_of_pos(node_summaries@, *key, i as int);
    }
    node_summaries[0].url.clone()
}

proof fn lemma_least_at_least_in(key: HashPos, ids: Seq<HashPos>, n: int)
    requires
        0 <= n <= ids.len(),
    ensures
        least_at_least(key, ids, n) matches Some(m) ==> exists|j: int| 0 <= j < n && ids[j] == m,
    decreases n,
{
    if n > 0 {
        lemma_least_at_least_in(key, ids, n - 1);
    }
}

proof fn lemma_least_in(ids: Seq<HashPos>, n: int)
    requires
        1 <= n <= ids.len(),
    ensures
        exists|j: int| 0 <= j < n && ids[j] == least(ids, n),
    decreases n,
{
    if n > 1 {
        lemma_least_in(ids, n - 1);
    } else {
        assert(ids[0] == least(ids, n));
    }
}

/// The responsible node is one of the nodes.
pub proof fn lemma_responsible_is_node(key: HashPos, ids: Seq<HashPos>)
    requires
        ids.len() > 0,
    ensures
        exists|j: int| 0 <= j < ids.len() && ids[j] == responsible_node(key, ids),
{
    lemma_least_at_least_in(key, ids, ids.len() as int);
    lemma_least_in(ids, ids.len() as int);
}

/// The positions of the summarised nodes.
pub open spec fn summary_ids(s: Seq<NodeSummary>) -> Seq<HashPos> {
    s.map_values(|n: NodeSummary| n.pos)
}

/// The node that follows position `p` clockwise.
pub open spec fn next_node(p: HashPos, ids: Seq<HashPos>) -> HashPos {
    responsible_node(ring_add(p, 1), ids)
}

/// The node `k` steps clockwise from position `p`.
pub open spec fn nth_next(p: HashPos, ids: Seq<HashPos>, k: nat) -> HashPos
    decreases k,
{
    if k == 0 {
        p
    } else {
        next_node(nth_next(p, ids, (k - 1) as nat), ids)
    }
}

/// The address of the first summarised node at position `p`.
pub open spec fn url_of(s: Seq<NodeSummary>, p: HashPos) -> Seq<char> {
    s[index_of_pos(s, p, 0)].url@
}

/// The node after node `i` names node `i` as its predecessor.
pub open spec fn predecessor_ok(s: Seq<NodeSummary>, i: int) -> bool {
    let n = index_of_pos(s, next_node(s[i].pos, summary_ids(s)), 0);
    s[n].predecessor matches Some(q) && q.address@ == s[i].url@
}

/// Finger `j` of node `i` points at the node responsible for its key.
pub open spec fn finger_ok(s: Seq<NodeSummary>, i: int, j: int) -> bool {
    let f = s[i].finger_entries@[j];
    address_pos(f.address@) == responsible_node(f.key, summary_ids(s))
}

/// Slot `j` of node `i`'s successor list names the node `j + 1` steps clockwise.
pub open spec fn successor_ok(s: Seq<NodeSummary>, i: int, j: int) -> bool {
    s[i].successor_list@[j]@ == url_of(s, nth_next(s[i].pos, summary_ids(s), (j + 1) as nat))
}

/// Every check on node `i` passes.
pub open spec fn node_ok(s: Seq<NodeSummary>, i: int) -> bool {
    &&& predecessor_ok(s, i)
    &&& forall|j: int| 0 <= j < s[i].finger_entries@.len() ==> #[trigger] finger_ok(s, i, j)
    &&& forall|j: int| 0 <= j < s[i].successor_list@.len() ==> #[trigger] successor_ok(s, i, j)
}

/// The ring the summaries describe is consistent: predecessors, fingers and
/// successor lists all agree with the nodes' positions.
pub open spec fn cluster_valid(s: Seq<NodeSummary>) -> bool {
    forall|i: int| 0 <= i < s.len() ==> #[trigger] node_ok(s, i)
}

/// One failed check of a cluster.
#[derive(Clone, Copy, Debug, PartialEq, Eq, Structural)]
pub enum Finding {
    WrongPredecessor { node: usize },
    WrongFinger { node: usize, finger: usize },
    WrongSuccessor { node: usize, slot: usize },
}

/// `f` names a check that fails on `s`.
pub open spec fn finding_holds(s: Seq<NodeSummary>, f: Finding) -> bool {
    match f {
        Finding::WrongPredecessor { node } => node < s.len() && !predecessor_ok(s, node as int),
        Finding::WrongFinger { node, finger } => node < s.len() && finger < s[node as int].finger_entries@.len()
            && !finger_ok(s, node as int, finger as int),
        Finding::WrongSuccessor { node, slot } => node < s.len() && slot < s[node as int].successor_list@.len()
            && !successor_ok(s, node as int, slot as int),
    }
}

fn next_position(p: HashPos, ids: &Vec<HashPos>) -> (r: HashPos)
    requires
        ids@.len() > 0,
    ensures
        r == next_node(p, ids@),
{
    proof {
        lemma_wrapping_add(p, 1);
    }
    get_responsible_node_for_key(p.wrapping_add(1), ids)
}

fn node_index(s: &Vec<NodeSummary>, p: HashPos) -> (r: usize)
    requires
        exists|j: int| 0 <= j < s@.len() && s@[j].pos == p,
    ensures
        r as int == index_of_pos(s@, p, 0),
        r < s@.len(),
{
    proof {
        lemma_index_of_pos(s@, p, 0);
    }
    let mut i: usize = 0;
    while i < s.len()
        invariant
            i <= s@.len(),
            index_of_pos(s@, p, 0) == index_of_pos(s@, p, i as int),
            index_of_pos(s@, p, 0) >= 0,
        decreases s@.len() - i,
    {
        if s[i].pos == p {
            return i;
        }
        i = i + 1;
    }
    proof {
        lemma_index_of_pos(s@, p, i as int);
    }
    0
}

proof fn lemma_node_found(s: Seq<NodeSummary>, p: HashPos)
    requires
        s.len() > 0,
        exists|j: int| 0 <= j < summary_ids(s).len() && summary_ids(s)[j] == p,
    ensures
        exists|j: int| 0 <= j < s.len() && s[j].pos == p,
{
    let j = choose|j: int| 0 <= j < summary_ids(s).len() && summary_ids(s)[j] == p;
    assert(s[j].pos == p);
}

fn push_findings_for_node(s: &Vec<NodeSummary>, ids: &Vec<HashPos>, i: usize, out: &mut Vec<Finding>)
    requires
        i < s@.len(),
        ids@ == summary_ids(s@),
    ensures
        final(out)@.len() >= old(out)@.len(),
        final(out)@.subrange(0, old(out)@.len() as int) == old(out)@,
        final(out)@.len() == old(out)@.len() <==> node_ok(s@, i as int),
        forall|k: int| old(out)@.len() <= k < final(out)@.len() ==> finding_holds(s@, #[trigger] final(out)@[k]),
{
    let ghost start = old(out)@;
    let node = &s[i];
    let nxt = next_position(node.pos, ids);
    proof {
        lemma_responsible_is_node(ring_add(node.pos, 1), ids@);
        lemma_node_found(s@, nxt);
    }
    let n = node_index(s, nxt);
    let pred_ok = match &s[n].predecessor {
        Some(q) => q.address == node.url,
        None => false,
    };
    if !pred_ok {
        out.push(Finding::WrongPredecessor { node: i });
    }
    let mut j: usize = 0;
    while j < node.finger_entries.len()
        invariant
            i < s@.len(),
            *node == s@[i as int],
            ids@ == summary_ids(s@),
            j <= node.finger_entries@.len(),
            out@.len() >= start.len(),
            out@.subrange(0, start.len() as int) == start,
            out@.len() == start.len() <==> pred_ok && forall|jj: int| 0 <= jj < j ==> #[trigger] finger_ok(s@, i as int, jj),
            pred_ok == predecessor_ok(s@, i as int),
            forall|k: int| start.len() <= k < out@.len() ==> finding_holds(s@, #[trigger] out@[k]),
        decreases node.finger_entries@.len() - j,
    {
        let f = &node.finger_entries[j];
        let pointed = address_position(&f.address);
        let responsible = get_responsible_node_for_key(f.key, ids);
        assert((pointed == responsible) == finger_ok(s@, i as int, j as int));
        if pointed != responsible {
            let ghost before = out@;
            out.push(Finding::WrongFinger { node: i, finger: j });
            proof {
                assert(out@.subrange(0, start.len() as int) =~= before.subrange(0, start.len() as int));
            }
        }
        j = j + 1;
    }
    let mut slot: usize = 0;
    while slot < node.successor_list.len()
        invariant
            i < s@.len(),
            *node == s@[i as int],
            ids@ == summary_ids(s@),
            s@.len() > 0,
            slot <= node.successor_list@.len(),
            out@.len() >= start.len(),
            out@.subrange(0, start.len() as int) == start,
            out@.len() == start.len() <==> pred_ok && (forall|jj: int|
                0 <= jj < node.finger_entries@.len() ==> #[trigger] finger_ok(s@, i as int, jj)) && forall|jj: int|
                0 <= jj < slot ==> #[trigger] successor_ok(s@, i as int, jj),
            pred_ok == predecessor_ok(s@, i as int),
            forall|k: int| start.len() <= k < out@.len() ==> finding_holds(s@, #[trigger] out@[k]),
        decreases node.successor_list@.len() - slot,
    {
        let mut p = node.pos;
        let mut step: usize = 0;
        while step <= slot
            invariant
                ids@.len() > 0,
                slot < node.successor_list@.len(),
                step <= slot + 1,
                slot < usize::MAX,
                p == nth_next(node.pos, ids@, step as nat),
            decreases slot + 1 - step,
        {
            p = next_position(p, ids);
            step = step + 1;
        }
        proof {
            lemma_responsible_is_node(ring_add(nth_next(node.pos, ids@, slot as nat), 1), ids@);
            lemma_node_found(s@, p);
        }
        let target = node_index(s, p);
        let same = node.successor_list[slot] == s[target].url;
        assert(same == successor_ok(s@, i as int, slot as int));
        if !same {
            let ghost before = out@;
            out.push(Finding::WrongSuccessor { node: i, slot });
            proof {
                assert(out@.subrange(0, start.len() as int) =~= before.subrange(0, start.len() as int));
            }
        }
        slot = slot + 1;
    }
}

/// Checks a cluster from its nodes' summaries: that each node's successor
/// names it as predecessor, that each finger points at the node responsible
/// for its key, and that each successor list follows the ring. Returns the
/// failed checks: none exactly when the cluster is consistent.
pub fn validate_cluster(node_summaries: &Vec<NodeSummary>) -> (r: Vec<Finding>)
    requires
        node_summaries@.len() > 0,
    ensures
        r@.len() == 0 <==> cluster_valid(node_summaries@),
        forall|k: int| 0 <= k < r@.len() ==> finding_holds(node_summaries@, #[trigger] r@[k]),
{
    let mut ids: Vec<HashPos> = Vec::new();
    let mut i: usize = 0;
    while i < node_summaries.len()
        invariant
            i <= node_summaries@.len(),
            ids@ == summary_ids(node_summaries@).take(i as int),
        decreases node_summaries@.len() - i,
    {
        ids.push(node_summaries[i].pos);
        i = i + 1;
        proof {
            assert(ids@ =~= summary_ids(node_summaries@).take(i as int));
        }
    }
    proof {
        assert(ids@ =~= summary_ids(node_summaries@));
    }
    let mut findings: Vec<Finding> = Vec::new();
    let mut n: usize = 0;
    while n < node_summaries.len()
        invariant
            n <= node_summaries@.len(),
            ids@ == summary_ids(node_summaries@),
            findings@.len() == 0 <==> forall|m: int| 0 <= m < n ==> #[trigger] node_ok(node_summaries@, m),
            forall|k: int| 0 <= k < findings@.len() ==> finding_holds(node_summaries@, #[trigger] findings@[k]),
        decreases node_summaries@.len() - n,
    {
        let ghost before = findings@;
        push_findings_for_node(node_summaries, &ids, n, &mut findings);
        proof {
            assert forall|k: int| 0 <= k < findings@.len() implies finding_holds(node_summaries@, #[trigger] findings@[k]) by {
                if k < before.len() {
                    assert(findings@[k] == findings@.subrange(0, before.len() as int)[k]);
                }
            }
        }
        n = n + 1;
    }
    findings
}

} // verus!
