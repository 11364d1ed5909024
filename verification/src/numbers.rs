//! The numbers that messages are told apart by.
use vstd::prelude::*;

verus! {

/// Hands out numbers in turn, each once until all 2^64 were handed out.
#[derive(Debug)]
pub struct Numbers {
    next: u64,
}

impl View for Numbers {
    type V = u64;

    /// The number that is handed out next.
    closed spec fn view(&self) -> u64 {
        self.next
    }
}

/// The number that is handed out after `n`.
pub open spec fn successor(n: u64) -> u64 {
    if n == u64::MAX {
        0
    } else {
        (n + 1) as u64
    }
}

/// The number handed out `i` turns after `first`.
pub open spec fn nth(first: u64, i: nat) -> u64
    decreases i,
{
    if i == 0 {
        first
    } else {
        successor(nth(first, (i - 1) as nat))
    }
}

impl Numbers {
    /// The numbers from one on.
    #[must_use]
    pub fn new() -> (numbers: Self)
        ensures
            numbers@ == 1,
    {
        Numbers { next: 1 }
    }

    /// The next number.
    pub fn next(&mut self) -> (n: u64)
        ensures
            n == old(self)@,
            final(self)@ == successor(n),
    {
        let n: u64 = self.next;
        self.next = if n == u64::MAX {
            0
        } else {
            n + 1
        };
        n
    }
}

/// Where the count of turns leads.
proof fn lemma_nth(first: u64, i: nat)
    ensures
        nth(first, i) == (first + i) % 0x1_0000_0000_0000_0000,
    decreases i,
{
    if i > 0 {
        lemma_nth(first, (i - 1) as nat);
    }
}

/// Numbers handed out in different turns are different, until all of them
/// were handed out.
pub proof fn law_numbers_in_turn_differ(first: u64, i: nat, j: nat)
    requires
        i < j,
        j - i < 0x1_0000_0000_0000_0000,
    ensures
        nth(first, i) != nth(first, j),
{
    lemma_nth(first, i);
    lemma_nth(first, j);
}

} // verus!
