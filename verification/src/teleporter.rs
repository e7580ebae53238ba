//! The confirmation routine that the challenge program runs at address
//! 6049: a doubly recursive function of two registers and a constant held in
//! the eighth register, far too slow to run on the machine itself. Here it
//! is computed natively, with a cache of the values already known.

use vstd::prelude::*;
use vstd::std_specs::hash::group_hash_axioms;
use std::collections::HashMap;

verus! {

broadcast use group_hash_axioms;

/// The value that the routine leaves in the first register when it is
/// entered with `r0` and `r1` in the first two registers and `r7` in the
/// eighth: `r1 + 1` for `r0 == 0`, the value at `(r0 - 1, r7)` for
/// `r1 == 0`, and otherwise the value at `r0 - 1` and the value at
/// `(r0, r1 - 1)`; all arithmetic modulo 32768.
pub open spec fn confirmation(r0: nat, r1: nat, r7: nat) -> nat
    decreases r0, r1,
{
    if r0 == 0 {
        (r1 + 1) % 32768
    } else if r1 == 0 {
        confirmation((r0 - 1) as nat, r7, r7)
    } else {
        confirmation((r0 - 1) as nat, confirmation(r0, (r1 - 1) as nat, r7), r7)
    }
}

/// Every value of the routine is a 15-bit word.
pub proof fn lemma_confirmation_is_word(r0: nat, r1: nat, r7: nat)
    ensures
        confirmation(r0, r1, r7) < 32768,
    decreases r0, r1,
{
    if r0 == 0 {
    } else if r1 == 0 {
        lemma_confirmation_is_word((r0 - 1) as nat, r7, r7);
    } else {
        lemma_confirmation_is_word(
            (r0 - 1) as nat,
            confirmation(r0, (r1 - 1) as nat, r7),
            r7,
        );
    }
}

/// The key under which the value at `(r0, r1)` is kept.
pub open spec fn key_of(r0: u16, r1: u16) -> u32 {
    (r0 * 65536 + r1) as u32
}

/// Values of the routine that are already known, by register pair. A
/// cache serves one value of the eighth register.
pub struct Cache {
    entries: HashMap<u32, u16>,
}

impl View for Cache {
    type V = Map<(u16, u16), u16>;

    closed spec fn view(&self) -> Map<(u16, u16), u16> {
        Map::new(
            |pair: (u16, u16)| self.entries@.contains_key(key_of(pair.0, pair.1)),
            |pair: (u16, u16)| self.entries@[key_of(pair.0, pair.1)],
        )
    }
}

impl Cache {
    /// Whether every value that the cache holds is the value of the routine
    /// for the constant `r7`.
    pub open spec fn valid_for(&self, r7: u16) -> bool {
        forall|r0: u16, r1: u16| #[trigger]
            self@.contains_key((r0, r1)) ==> self@[(r0, r1)] == confirmation(
                r0 as nat,
                r1 as nat,
                r7 as nat,
            )
    }

    /// An empty cache, valid for every constant.
    pub fn new() -> (cache: Cache)
        ensures
            cache@ == Map::<(u16, u16), u16>::empty(),
            forall|r7: u16| cache.valid_for(r7),
    {
        let cache = Cache { entries: HashMap::new() };
        assert(cache@ =~= Map::<(u16, u16), u16>::empty());
        cache
    }

    /// The value kept for a register pair, if any.
    pub fn get(&self, r0: u16, r1: u16) -> (value: Option<u16>)
        ensures
            value == (if self@.contains_key((r0, r1)) {
                Some(self@[(r0, r1)])
            } else {
                None
            }),
    {
        let key: u32 = r0 as u32 * 65536 + r1 as u32;
        match self.entries.get(&key) {
            Some(v) => Some(*v),
            None => None,
        }
    }

    /// Keeps a value for a register pair.
    pub fn insert(&mut self, r0: u16, r1: u16, value: u16)
        ensures
            final(self)@ == old(self)@.insert((r0, r1), value),
    {
        let key: u32 = r0 as u32 * 65536 + r1 as u32;
        self.entries.insert(key, value);
        assert(self@ =~= old(self)@.insert((r0, r1), value));
    }
}

/// The value of the routine at `(r0, r1)`, by way of the cache.
fn cached(r0: u16, r1: u16, r7: u16, cache: &mut Cache) -> (v: u16)
    requires
        r0 < 32768,
        r1 < 32768,
        r7 < 32768,
        old(cache).valid_for(r7),
    ensures
        v == confirmation(r0 as nat, r1 as nat, r7 as nat),
        v < 32768,
        final(cache).valid_for(r7),
        old(cache)@.submap_of(final(cache)@),
    decreases r0, r1, 1nat,
{
    proof {
        lemma_confirmation_is_word(r0 as nat, r1 as nat, r7 as nat);
    }
    if let Some(v) = cache.get(r0, r1) {
        v
    } else {
        let v = fn6049(r0, r1, r7, cache);
        cache.insert(r0, r1, v);
        v
    }
}

/// Computes the value of the confirmation routine at `(r0, r1)` for the
/// constant `r7`, looking up and keeping intermediate values in `cache`.
pub fn fn6049(r0: u16, r1: u16, r7: u16, cache: &mut Cache) -> (v: u16)
    requires
        r0 < 32768,
        r1 < 32768,
        r7 < 32768,
        old(cache).valid_for(r7),
    ensures
        v == confirmation(r0 as nat, r1 as nat, r7 as nat),
        v < 32768,
        final(cache).valid_for(r7),
        old(cache)@.submap_of(final(cache)@),
    decreases r0, r1, 0nat,
{
    if r0 == 0 {
        return (r1 + 1) % 32768;
    }
    if r1 == 0 {
        // dec by 1
        return cached((r0 + 32767) % 32768, r7, r7, cache);
    }
    // decrement by 1
    let inner = cached(r0, (r1 + 32767) % 32768, r7, cache);
    let ghost between = cache@;
    let v = cached((r0 + 32767) % 32768, inner, r7, cache);
    proof {
        assert forall|pair: (u16, u16)| old(cache)@.contains_key(pair) implies cache@.contains_key(
            pair,
        ) && cache@[pair] == old(cache)@[pair] by {
            assert(between.contains_key(pair));
        }
    }
    v
}

} // verus!
