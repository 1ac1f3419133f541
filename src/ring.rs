use vstd::arithmetic::div_mod::{lemma_mod_add_multiples_vanish, lemma_small_mod};
use vstd::arithmetic::power2::{lemma2_to64, lemma_pow2_adds, lemma_pow2_strictly_increases, lemma_pow2_unfold, pow2};
use vstd::prelude::*;
use vstd::string::StringSliceAdditionalSpecFns;
use vstd::utf8::encode_utf8;

verus! {

/// A position on the identifier ring: an integer modulo `2^128`.
pub type HashPos = u128;

/// The number of positions on the ring.
pub open spec fn ring_size() -> int {
    u128::MAX as int + 1
}

/// Clockwise distance from `from` to `to`, in `[0, ring_size())`.
pub open spec fn ring_distance(from: HashPos, to: HashPos) -> int {
    (to as int - from as int) % ring_size()
}

/// The distance on the ring read as plain subtraction, with one turn added
/// where `to` comes before `from`.
pub proof fn lemma_ring_distance(from: HashPos, to: HashPos)
    ensures
        ring_distance(from, to) == if to >= from {
            to as int - from as int
        } else {
            to as int - from as int + ring_size()
        },
{
    let d = to as int - from as int;
    if to >= from {
        lemma_small_mod(d as nat, ring_size() as nat);
    } else {
        lemma_mod_add_multiples_vanish(d, ring_size());
        lemma_small_mod((d + ring_size()) as nat, ring_size() as nat);
    }
}

/// `x` lies strictly inside the clockwise arc from `lo` to `hi`.
/// When `lo == hi` the arc is the whole ring without its single boundary point.
pub open spec fn strictly_inside(x: HashPos, lo: HashPos, hi: HashPos) -> bool {
    if lo == hi {
        x != lo
    } else {
        0 < ring_distance(lo, x) < ring_distance(lo, hi)
    }
}

/// `x` lies on the clockwise arc from `lo` to `hi`, each endpoint included
/// only where its flag says so.
pub open spec fn on_arc(x: HashPos, lo: HashPos, hi: HashPos, lo_inclusive: bool, hi_inclusive: bool) -> bool {
    ||| (lo_inclusive && x == lo)
    ||| (hi_inclusive && x == hi)
    ||| strictly_inside(x, lo, hi)
}

/// Whether `x` lies on the clockwise arc from `lo` to `hi` with the given endpoint policy.
pub fn is_between(x: HashPos, lo: HashPos, hi: HashPos, lo_inclusive: bool, hi_inclusive: bool) -> (r: bool)
    ensures
        r == on_arc(x, lo, hi, lo_inclusive, hi_inclusive),
{
    proof {
        lemma_ring_distance(lo, x);
        lemma_ring_distance(lo, hi);
    }
    if lo_inclusive && x == lo {
        return true;
    }
    if hi_inclusive && x == hi {
        return true;
    }
    if lo < hi {
        lo < x && x < hi
    } else if lo > hi {
        lo < x || x < hi
    } else {
        x != lo
    }
}

/// Addition on the ring.
pub open spec fn ring_add(a: HashPos, b: int) -> HashPos {
    ((a as int + b) % ring_size()) as HashPos
}

/// Unsigned addition that wraps is addition on the ring.
pub proof fn lemma_wrapping_add(a: HashPos, b: HashPos)
    ensures
        vstd::wrapping::u128_specs::wrapping_add(a, b) == ring_add(a, b as int),
{
    let s = a as int + b as int;
    if s > u128::MAX {
        lemma_mod_add_multiples_vanish(s - ring_size(), ring_size());
        lemma_small_mod((s - ring_size()) as nat, ring_size() as nat);
    } else {
        lemma_small_mod(s as nat, ring_size() as nat);
    }
}

/// The position that finger `i` of a node at `own` aims at: `own + 2^i` on the ring.
pub open spec fn finger_target_spec(own: HashPos, i: nat) -> HashPos {
    ring_add(own, pow2(i) as int)
}

/// `2^128` is the size of the ring.
pub proof fn lemma_pow2_ring_size()
    ensures
        pow2(128) == ring_size(),
{
    lemma2_to64();
    lemma_pow2_adds(64, 64);
}

/// The position that finger `index` of a node at `own` aims at.
pub fn finger_target(own: HashPos, index: usize) -> (r: HashPos)
    requires
        index < 128,
    ensures
        r == finger_target_spec(own, index as nat),
{
    let mut step: u128 = 1;
    let mut k: usize = 0;
    proof {
        lemma2_to64();
        lemma_pow2_ring_size();
    }
    while k < index
        invariant
            k <= index < 128,
            step as nat == pow2(k as nat),
            pow2(128) == ring_size(),
        decreases index - k,
    {
        proof {
            lemma_pow2_unfold((k + 1) as nat);
            lemma_pow2_strictly_increases((k + 1) as nat, 128);
        }
        step = step * 2;
        k = k + 1;
    }
    proof {
        lemma_wrapping_add(own, step);
    }
    own.wrapping_add(step)
}

/// The offset basis of the 128-bit FNV-1a hash.
pub const FNV_OFFSET_BASIS: u128 = 0x6c62272e07bb014262b821756295c58d;

/// The prime of the 128-bit FNV-1a hash.
pub const FNV_PRIME: u128 = 0x0000000001000000000000000000013b;

/// One byte of the 128-bit FNV-1a hash: xor the byte in, then multiply on the ring.
pub open spec fn fnv_step(h: u128, b: u8) -> u128 {
    (((h ^ (b as u128)) as nat * FNV_PRIME as nat) % ring_size() as nat) as u128
}

/// The ring position of a byte string: its 128-bit FNV-1a hash.
pub open spec fn ring_hash(bytes: Seq<u8>) -> HashPos
    decreases bytes.len(),
{
    if bytes.len() == 0 {
        FNV_OFFSET_BASIS
    } else {
        fnv_step(ring_hash(bytes.drop_last()), bytes.last())
    }
}

/// The ring position of a node address: the hash of its UTF-8 bytes.
pub open spec fn address_pos(address: Seq<char>) -> HashPos {
    ring_hash(encode_utf8(address))
}

/// Hashes a byte string onto the ring.
pub fn hash(bytes: &[u8]) -> (r: HashPos)
    ensures
        r == ring_hash(bytes@),
{
    let mut h: u128 = FNV_OFFSET_BASIS;
    let mut i: usize = 0;
    while i < bytes.len()
        invariant
            i <= bytes@.len(),
            h == ring_hash(bytes@.subrange(0, i as int)),
        decreases bytes@.len() - i,
    {
        proof {
            assert(bytes@.subrange(0, i + 1).drop_last() =~= bytes@.subrange(0, i as int));
        }
        h = (h ^ (bytes[i] as u128)).wrapping_mul(FNV_PRIME);
        i = i + 1;
    }
    proof {
        assert(bytes@.subrange(0, bytes@.len() as int) =~= bytes@);
    }
    h
}

/// The ring position of a node address.
pub fn address_position(address: &String) -> (r: HashPos)
    ensures
        r == address_pos(address@),
{
    let s: &str = address.as_str();
    hash(s.as_bytes())
}

/// Where `lo` and `hi` differ, every position lies on exactly one of the two
/// half-open arcs `(lo, hi]` and `(hi, lo]`.
pub proof fn lemma_arcs_split_ring(x: HashPos, lo: HashPos, hi: HashPos)
    requires
        lo != hi,
    ensures
        on_arc(x, lo, hi, false, true) != on_arc(x, hi, lo, false, true),
{
    lemma_ring_distance(lo, x);
    lemma_ring_distance(lo, hi);
    lemma_ring_distance(hi, x);
    lemma_ring_distance(hi, lo);
}

/// The index of a node among the first `n` whose clockwise distance from `x` is least.
pub open spec fn closest_index(x: HashPos, ids: Seq<HashPos>, n: int) -> int
    decreases n,
{
    if n <= 1 {
        0
    } else {
        let k = closest_index(x, ids, n - 1);
        if ring_distance(x, ids[k]) <= ring_distance(x, ids[n - 1]) {
            k
        } else {
            n - 1
        }
    }
}

proof fn lemma_closest_index(x: HashPos, ids: Seq<HashPos>, n: int)
    requires
        1 <= n <= ids.len(),
    ensures
        0 <= closest_index(x, ids, n) < n,
        forall|j: int| 0 <= j < n ==> ring_distance(x, ids[closest_index(x, ids, n)]) <= ring_distance(x, #[trigger] ids[j]),
    decreases n,
{
    if n > 1 {
        lemma_closest_index(x, ids, n - 1);
    }
}

/// Each node's predecessor is one of the nodes, and no node lies strictly
/// between a node's predecessor and the node.
pub open spec fn ring_of(ids: Seq<HashPos>, preds: Seq<HashPos>) -> bool {
    &&& ids.len() > 0
    &&& preds.len() == ids.len()
    &&& forall|i: int, j: int| 0 <= i < ids.len() && 0 <= j < ids.len() && i != j ==> ids[i] != ids[j]
    &&& forall|i: int| 0 <= i < ids.len() ==> exists|j: int| 0 <= j < ids.len() && ids[j] == #[trigger] preds[i]
    &&& forall|i: int, j: int|
        0 <= i < ids.len() && 0 <= j < ids.len() ==> !strictly_inside(#[trigger] ids[j], #[trigger] preds[i], ids[i])
}

/// On a ring of distinct nodes, each knowing its nearest predecessor, every
/// position lies on the arc `(predecessor, node]` of exactly one node.
pub proof fn lemma_arcs_partition(ids: Seq<HashPos>, preds: Seq<HashPos>, x: HashPos)
    requires
        ring_of(ids, preds),
    ensures
        exists|i: int| 0 <= i < ids.len() && on_arc(x, #[trigger] preds[i], ids[i], false, true),
        forall|i: int, j: int|
            0 <= i < ids.len() && 0 <= j < ids.len() && on_arc(x, #[trigger] preds[i], ids[i], false, true) && on_arc(
                x,
                #[trigger] preds[j],
                ids[j],
                false,
                true,
            ) ==> i == j,
{
    let c = closest_index(x, ids, ids.len() as int);
    lemma_closest_index(x, ids, ids.len() as int);
    let n = ids[c];
    let p = preds[c];
    let pj = choose|j: int| 0 <= j < ids.len() && ids[j] == p;
    assert(ids[pj] == p);
    assert(!strictly_inside(ids[pj], preds[c], ids[c]));
    lemma_ring_distance(x, p);
    lemma_ring_distance(x, n);
    lemma_ring_distance(p, x);
    lemma_ring_distance(p, n);
    assert(ring_distance(x, n) <= ring_distance(x, ids[pj]));
    assert(on_arc(x, preds[c], ids[c], false, true));
    assert forall|i: int, j: int|
        0 <= i < ids.len() && 0 <= j < ids.len() && on_arc(x, #[trigger] preds[i], ids[i], false, true) && on_arc(
            x,
            #[trigger] preds[j],
            ids[j],
            false,
            true,
        ) implies i == j by {
        lemma_arc_unique(ids, preds, x, i, j);
    }
}

proof fn lemma_arc_unique(ids: Seq<HashPos>, preds: Seq<HashPos>, x: HashPos, i: int, j: int)
    requires
        ring_of(ids, preds),
        0 <= i < ids.len(),
        0 <= j < ids.len(),
        on_arc(x, preds[i], ids[i], false, true),
        on_arc(x, preds[j], ids[j], false, true),
    ensures
        i == j,
{
    if i != j {
        assert(ids[i] != ids[j]);
        assert(!strictly_inside(ids[j], preds[i], ids[i]));
        assert(!strictly_inside(ids[i], preds[j], ids[j]));
        lemma_ring_distance(x, ids[i]);
        lemma_ring_distance(x, ids[j]);
        lemma_ring_distance(preds[i], x);
        lemma_ring_distance(preds[j], x);
        lemma_ring_distance(preds[i], ids[i]);
        lemma_ring_distance(preds[j], ids[j]);
        lemma_ring_distance(preds[i], ids[j]);
        lemma_ring_distance(preds[j], ids[i]);
    }
}

} // verus!
