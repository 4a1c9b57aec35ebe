use vstd::prelude::*;

use vstd::arithmetic::div_mod::{lemma_add_mod_noop, lemma_mod_self_0, lemma_small_mod};

verus! {

/// The identifier that follows `v`: one more, wrapping from `usize::MAX` back to zero.
pub open spec fn next_id(v: usize) -> usize {
    if v == usize::MAX {
        0
    } else {
        (v + 1) as usize
    }
}

/// The number of distinct identifiers.
pub open spec fn id_space() -> int {
    usize::MAX + 1
}

/// The identifier handed out after `n` earlier ones by a cursor that starts at 1.
pub open spec fn id_of_serial(n: nat) -> int {
    (1 + n as int) % id_space()
}

/// The identifier after the one that `n` hand-outs lead to is the one that
/// `n + 1` hand-outs lead to.
pub proof fn lemma_next_id_of_serial(n: nat)
    ensures
        0 <= id_of_serial(n) <= usize::MAX,
        next_id(id_of_serial(n) as usize) as int == id_of_serial(n + 1),
{
    let m = id_space();
    let c = id_of_serial(n);
    lemma_add_mod_noop(1 + n as int, 1, m);
    lemma_small_mod(1, m as nat);
    if c == usize::MAX {
        lemma_small_mod(0, m as nat);
        lemma_mod_self_0(m);
    } else {
        lemma_small_mod((c + 1) as nat, m as nat);
    }
}

/// Hands out toast identifiers: a cursor that starts at 1 and advances by one,
/// wrapping around instead of overflowing.
#[derive(Debug, Clone)]
pub struct ID(usize);

impl View for ID {
    type V = usize;

    closed spec fn view(&self) -> usize {
        self.0
    }
}

impl ID {
    pub fn new() -> (r: Self)
        ensures
            r@ == 1,
    {
        ID(1)
    }

    /// Returns the current identifier and advances the cursor.
    pub fn add(&mut self) -> (r: usize)
        ensures
            r == old(self)@,
            final(self)@ == next_id(old(self)@),
    {
        let current = self.0;
        self.0 = self.0.wrapping_add(1);
        current
    }

    /// The identifier that the next call of `add` returns.
    pub fn get(&self) -> (r: usize)
        ensures
            r == self@,
    {
        self.0
    }
}

} // verus!
