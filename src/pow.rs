use vstd::prelude::*;

use crate::ring::{hash, ring_hash, HashPos};

verus! {

/// How many seconds a token stays valid after it was issued.
pub const POW_TOKEN_LIVE_TIME: u64 = 5;

/// The number of trailing zero bytes a token's digest needs by default.
pub const POW_DIFFICULTY_DEFAULT: usize = 2;

/// The `n` low bytes of `x`, least significant first.
pub open spec fn le_bytes(x: nat, n: nat) -> Seq<u8>
    decreases n,
{
    if n == 0 {
        Seq::empty()
    } else {
        seq![(x % 256) as u8] + le_bytes(x / 256, (n - 1) as nat)
    }
}

/// The number of zero bytes at the low end of `h` (all sixteen for zero).
pub open spec fn trailing_zero_bytes(h: HashPos, n: nat) -> nat
    decreases n,
{
    if n == 0 || h % 256 != 0 {
        0
    } else {
        1 + trailing_zero_bytes(h / 256, (n - 1) as nat)
    }
}

/// The bytes of a token: its nonce, then its issue time, each as eight bytes
/// least significant first.
pub open spec fn token_bytes(nonce: u64, issued_at: u64) -> Seq<u8> {
    le_bytes(nonce as nat, 8) + le_bytes(issued_at as nat, 8)
}

/// The digest of a token.
pub open spec fn token_digest(nonce: u64, issued_at: u64) -> HashPos {
    ring_hash(token_bytes(nonce, issued_at))
}

/// The digest of a token has at least `difficulty` trailing zero bytes.
pub open spec fn meets_difficulty(nonce: u64, issued_at: u64, difficulty: nat) -> bool {
    trailing_zero_bytes(token_digest(nonce, issued_at), 16) >= difficulty
}

/// A token issued at `issued_at` has outlived `live_time` at second `now`.
pub open spec fn token_expired(issued_at: u64, now: u64, live_time: u64) -> bool {
    now > issued_at && now - issued_at > live_time
}

/// A proof-of-work token: a nonce and the second it was issued.
#[derive(Clone, Copy, Debug, PartialEq, Eq, Structural)]
pub struct PowToken {
    pub nonce: u64,
    pub issued_at: u64,
}

fn push_le_bytes(out: &mut Vec<u8>, x: u64)
    ensures
        final(out)@ == old(out)@ + le_bytes(x as nat, 8),
{
    let mut v: u64 = x;
    let mut i: usize = 0;
    while i < 8
        invariant
            i <= 8,
            out@ + le_bytes(v as nat, (8 - i) as nat) == old(out)@ + le_bytes(x as nat, 8),
        decreases 8 - i,
    {
        let ghost before = out@;
        out.push((v % 256) as u8);
        proof {
            assert(le_bytes(v as nat, (8 - i) as nat) == seq![(v % 256) as u8] + le_bytes(
                (v / 256) as nat,
                (8 - i - 1) as nat,
            ));
            assert(out@ + le_bytes((v / 256) as nat, (8 - i - 1) as nat) =~= before + le_bytes(v as nat, (8 - i) as nat));
        }
        v = v / 256;
        i = i + 1;
    }
    proof {
        assert(le_bytes(v as nat, 0) =~= Seq::<u8>::empty());
        assert(out@ =~= out@ + le_bytes(v as nat, 0));
    }
}

/// The number of trailing zero bytes of `h`.
pub fn count_trailing_zero_bytes(h: HashPos) -> (r: usize)
    ensures
        r == trailing_zero_bytes(h, 16),
{
    let mut v: u128 = h;
    let mut n: usize = 0;
    while n < 16 && v % 256 == 0
        invariant
            n <= 16,
            trailing_zero_bytes(h, 16) == n + trailing_zero_bytes(v, (16 - n) as nat),
        decreases 16 - n,
    {
        v = v / 256;
        n = n + 1;
    }
    n
}

impl PowToken {
    /// The digest of this token.
    pub fn digest(&self) -> (r: HashPos)
        ensures
            r == token_digest(self.nonce, self.issued_at),
    {
        let mut bytes: Vec<u8> = Vec::new();
        push_le_bytes(&mut bytes, self.nonce);
        push_le_bytes(&mut bytes, self.issued_at);
        proof {
            assert(bytes@ =~= token_bytes(self.nonce, self.issued_at));
        }
        hash(bytes.as_slice())
    }

    /// Checks the token at second `now`: whether it has expired, and whether its
    /// digest has at least `difficulty` trailing zero bytes.
    pub fn validate(&self, now: u64, live_time: u64, difficulty: usize) -> (r: (bool, bool))
        ensures
            r.0 == token_expired(self.issued_at, now, live_time),
            r.1 == meets_difficulty(self.nonce, self.issued_at, difficulty as nat),
    {
        let expired = now > self.issued_at && now - self.issued_at > live_time;
        let zeros = count_trailing_zero_bytes(self.digest());
        (expired, zeros >= difficulty)
    }

    /// Searches the nonces below `max_attempts` in increasing order for the first
    /// that meets `difficulty` with issue time `issued_at`.
    pub fn generate(difficulty: usize, issued_at: u64, max_attempts: u64) -> (r: Option<PowToken>)
        ensures
            match r {
                Some(t) => t.issued_at == issued_at && t.nonce < max_attempts && meets_difficulty(
                    t.nonce,
                    issued_at,
                    difficulty as nat,
                ) && forall|n: u64| n < t.nonce ==> !meets_difficulty(n, issued_at, difficulty as nat),
                None => forall|n: u64| n < max_attempts ==> !meets_difficulty(n, issued_at, difficulty as nat),
            },
    {
        let mut nonce: u64 = 0;
        while nonce < max_attempts
            invariant
                forall|n: u64| n < nonce ==> !meets_difficulty(n, issued_at, difficulty as nat),
            decreases max_attempts - nonce,
        {
            let t = PowToken { nonce, issued_at };
            if count_trailing_zero_bytes(t.digest()) >= difficulty {
                return Some(t);
            }
            nonce = nonce + 1;
        }
        None
    }
}

} // verus!
