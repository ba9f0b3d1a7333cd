//! API key pool with round-robin and pseudo-random balancing.

use vstd::prelude::*;

use crate::config::ApiKeyBalancing;
use crate::error::Error;

verus! {

/// One step of the linear congruential generator used for `Random`
/// balancing (parameters from Numerical Recipes, modulus implicit in the
/// wrapping arithmetic).
pub open spec fn lcg_spec(seed: usize) -> usize {
    seed.wrapping_mul(1664525).wrapping_add(1013904223)
}

/// Pseudo-random step used by `Random` balancing, kept dependency-free.
pub fn simple_lcg(seed: usize) -> (r: usize)
    ensures
        r == lcg_spec(seed),
{
    seed.wrapping_mul(1664525).wrapping_add(1013904223)
}

/// The display form of a credential: its first five characters followed by
/// an ellipsis, or the credential itself when it is no longer than five
/// characters.
pub open spec fn masked_of(s: Seq<char>) -> Seq<char> {
    if s.len() > 5 {
        s.subrange(0, 5) + "..."@
    } else {
        s
    }
}

/// The index selected by the `i`-th round-robin draw of a pool of `len`
/// keys whose cursor started at `start`.
pub open spec fn round_robin_index(start: usize, i: nat, len: nat) -> int
    recommends
        len > 0,
{
    (start + i) % (len as int)
}

/// Number of draws among the first `n` that select pool position `r`,
/// under round-robin selection starting from cursor `start`.
pub open spec fn rr_count(start: usize, n: nat, len: nat, r: int) -> nat
    decreases n,
{
    if n == 0 {
        0
    } else {
        rr_count(start, (n - 1) as nat, len, r) + if round_robin_index(
            start,
            (n - 1) as nat,
            len,
        ) == r {
            1nat
        } else {
            0nat
        }
    }
}

/// A draw hits position `r` exactly when its offset falls in `r`'s residue
/// class modulo the pool size.
proof fn lemma_rr_hit(start: usize, i: nat, len: nat, r: int)
    requires
        len > 0,
        0 <= r < len,
    ensures
        (round_robin_index(start, i, len) == r) <==> (i as int % len as int == (r - start) % (
        len as int)),
{
    let ls = len as int;
    broadcast use vstd::arithmetic::div_mod::lemma_mod_equivalence;
    broadcast use vstd::arithmetic::div_mod::lemma_mod_pos_bound;
    broadcast use vstd::arithmetic::div_mod::lemma_mod_bound;

    vstd::arithmetic::div_mod::lemma_small_mod(r as nat, len);
    assert((start + i) % ls == r <==> ((start + i) - r) % ls == 0);
    assert(i as int % ls == (r - start) % ls <==> (i - (r - start)) % ls == 0);
    assert((start + i) - r == -((i - (r - start)) * -1)) by (nonlinear_arith);
    assert(((start + i) - r) % ls == 0 <==> (i - (r - start)) % ls == 0);
}

/// The exact draw count of a position: the even share `n / len`, plus one
/// for the positions whose residue class is reached by the remainder.
proof fn lemma_rr_count_exact(start: usize, n: nat, len: nat, r: int)
    requires
        len > 0,
        0 <= r < len,
    ensures
        rr_count(start, n, len, r) == n as int / len as int + if (r - start) % (len as int)
            < n as int % len as int {
            1int
        } else {
            0int
        },
    decreases n,
{
    let ls = len as int;
    let a = (r - start) % ls;
    broadcast use vstd::arithmetic::div_mod::lemma_mod_pos_bound;
    broadcast use vstd::arithmetic::div_mod::lemma_fundamental_div_mod;

    assert(0 <= a < ls);
    if n == 0 {
        assert(0int / ls == 0 && 0int % ls == 0) by {
            vstd::arithmetic::div_mod::lemma_small_mod(0, len);
            vstd::arithmetic::div_mod::lemma_div_of0(ls);
        }
    } else {
        let m = (n - 1) as nat;
        lemma_rr_count_exact(start, m, len, r);
        lemma_rr_hit(start, m, len, r);
        let q = m as int / ls;
        let sr = m as int % ls;
        vstd::arithmetic::div_mod::lemma_fundamental_div_mod(m as int, ls);
        assert(m as int == q * ls + sr) by (nonlinear_arith)
            requires
                m as int == ls * (m as int / ls) + m as int % ls,
                q == m as int / ls,
                sr == m as int % ls,
        ;
        if sr < ls - 1 {
            assert(n as int == q * ls + (sr + 1));
            vstd::arithmetic::div_mod::lemma_fundamental_div_mod_converse(n as int, ls, q, sr + 1);
        } else {
            assert(n as int == (q + 1) * ls + 0) by (nonlinear_arith)
                requires
                    m as int == q * ls + sr,
                    sr == ls - 1,
                    n as int == m as int + 1,
            ;
            vstd::arithmetic::div_mod::lemma_fundamental_div_mod_converse(n as int, ls, q + 1, 0);
        }
    }
}

/// Fairness of round-robin selection: over any `n` consecutive draws from
/// a pool of `len` keys, every position is drawn either `n / len` or
/// `n / len + 1` times — never further from the even share than one draw,
/// and positions are visited in cyclic insertion order.
pub proof fn lemma_round_robin_fair(start: usize, n: nat, len: nat, r: int)
    requires
        len > 0,
        0 <= r < len,
    ensures
        n as int / len as int <= rr_count(start, n, len, r) <= n as int / len as int + 1,
{
    lemma_rr_count_exact(start, n, len, r);
}

/// Manages a pool of API keys with a configurable balancing strategy.
///
/// The pool is never empty after successful construction, and the rotation
/// cursor advances on every selection and is never reset.
#[derive(Debug)]
pub struct KeyPool {
    keys: Vec<String>,
    balancing: ApiKeyBalancing,
    /// Current cursor for key selection; advances by one per draw, wrapping.
    index: usize,
}

impl KeyPool {
    /// The credentials of the pool, as sequences of characters.
    pub closed spec fn spec_keys(self) -> Seq<Seq<char>> {
        self.keys.deep_view()
    }

    /// The balancing strategy of the pool.
    pub closed spec fn spec_balancing(self) -> ApiKeyBalancing {
        self.balancing
    }

    /// The current rotation cursor.
    pub closed spec fn spec_index(self) -> usize {
        self.index
    }

    /// A well-formed pool holds at least one credential.
    pub open spec fn wf(self) -> bool {
        self.spec_keys().len() > 0
    }

    /// The key a draw returns when the cursor holds `cursor`: the cyclic
    /// round-robin pick, or the LCG pick under `Random` balancing.
    pub open spec fn selected_key(self, cursor: usize) -> Seq<char>
        recommends
            self.wf(),
    {
        match self.spec_balancing() {
            ApiKeyBalancing::RoundRobin => self.spec_keys()[cursor as int % self.spec_keys().len() as int],
            ApiKeyBalancing::Random => self.spec_keys()[lcg_spec(cursor) as int % self.spec_keys().len() as int],
        }
    }

    /// Create a new key pool from a list of API keys.
    ///
    /// Fails with `NoKeys` if and only if the list is empty.
    pub fn new(keys: Vec<String>, balancing: ApiKeyBalancing) -> (r: Result<Self, Error>)
        ensures
            keys@.len() == 0 <==> r is Err,
            r is Err ==> r->Err_0 is NoKeys,
            r is Ok ==> {
                let p = r->Ok_0;
                &&& p.wf()
                &&& p.spec_keys() == keys.deep_view()
                &&& p.spec_balancing() == balancing
                &&& p.spec_index() == 0
            },
    {
        if keys.is_empty() {
            return Err(Error::NoKeys);
        }
        Ok(KeyPool { keys, balancing, index: 0 })
    }

    /// Draw the next API key according to the balancing strategy.
    ///
    /// For `RoundRobin`, keys are returned in cyclic insertion order. For
    /// `Random`, a key is selected by a linear congruential generator.
    /// Either way the cursor advances by exactly one.
    pub fn next_key(&mut self) -> (k: String)
        requires
            old(self).wf(),
        ensures
            final(self).wf(),
            final(self).spec_keys() == old(self).spec_keys(),
            final(self).spec_balancing() == old(self).spec_balancing(),
            final(self).spec_index() == old(self).spec_index().wrapping_add(1),
            k@ == old(self).selected_key(old(self).spec_index()),
            old(self).spec_balancing() is RoundRobin ==> k@ == old(self).spec_keys()[
                round_robin_index(old(self).spec_index(), 0, old(self).spec_keys().len())
            ],
    {
        let cursor = self.index;
        self.index = self.index.wrapping_add(1);
        let idx = match self.balancing {
            ApiKeyBalancing::RoundRobin => cursor % self.keys.len(),
            ApiKeyBalancing::Random => simple_lcg(cursor) % self.keys.len(),
        };
        self.keys[idx].clone()
    }

    /// Get the API key at a specific position, or `None` past the end.
    pub fn get_key(&self, index: usize) -> (r: Option<&str>)
        ensures
            index < self.spec_keys().len() ==> (r matches Some(k) && k@ == self.spec_keys()[index as int]),
            index >= self.spec_keys().len() ==> r is None,
    {
        if index < self.keys.len() {
            Some(self.keys[index].as_str())
        } else {
            None
        }
    }

    /// Number of keys in the pool.
    pub fn len(&self) -> (n: usize)
        ensures
            n == self.spec_keys().len(),
    {
        self.keys.len()
    }

    /// All keys of the pool in their display form (first five characters
    /// followed by an ellipsis).
    pub fn keys_masked(&self) -> (r: Vec<String>)
        ensures
            r.deep_view().len() == self.spec_keys().len(),
            forall|i: int| 0 <= i < r.deep_view().len() ==> r.deep_view()[i] == masked_of(
                self.spec_keys()[i],
            ),
    {
        let mut out: Vec<String> = Vec::new();
        let mut i: usize = 0;
        while i < self.keys.len()
            invariant
                i <= self.keys.len(),
                out.deep_view().len() == i,
                forall|j: int| 0 <= j < i ==> out.deep_view()[j] == masked_of(self.spec_keys()[j]),
            decreases self.keys.len() - i,
        {
            let ghost pre = out.deep_view();
            let masked = mask_key(&self.keys[i]);
            let ghost m = masked@;
            out.push(masked);
            proof {
                assert(out.deep_view() =~= pre.push(m));
            }
            i += 1;
        }
        out
    }

    /// All keys of the pool, in insertion order.
    pub fn iter_keys(&self) -> (r: Vec<String>)
        ensures
            r.deep_view() == self.spec_keys(),
    {
        let mut out: Vec<String> = Vec::new();
        let mut i: usize = 0;
        while i < self.keys.len()
            invariant
                i <= self.keys.len(),
                out.deep_view() =~= self.spec_keys().take(i as int),
            decreases self.keys.len() - i,
        {
            let ghost pre = out.deep_view();
            let k = self.keys[i].clone();
            let ghost kv = k@;
            out.push(k);
            proof {
                assert(out.deep_view() =~= pre.push(kv));
                assert(out.deep_view() =~= self.spec_keys().take(i + 1));
            }
            i += 1;
        }
        proof {
            assert(out.deep_view() =~= self.spec_keys());
        }
        out
    }
}

/// Mask one credential for display: first five characters plus an ellipsis.
pub fn mask_key(key: &String) -> (r: String)
    ensures
        r@ == masked_of(key@),
{
    let n = key.as_str().unicode_len();
    if n > 5 {
        let mut r = String::from_str(key.as_str().substring_char(0, 5));
        r.append("...");
        r
    } else {
        key.clone()
    }
}

} // verus!
