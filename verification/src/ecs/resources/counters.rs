use vstd::prelude::*;

verus! {

/// A source of numbers 1, 2, 3, ...: each call of `next` gives the number after the last one.
pub struct Counter {
    pub counter: u32,
}

/// Whether drawing from `before` gave `n` and left `after`: `n` is the number after the last
/// one given, and is now the last one given.
pub open spec fn issued(before: Counter, after: Counter, n: u32) -> bool {
    &&& n == before.counter + 1
    &&& after.counter == n
}

impl Counter {
    pub fn new() -> (c: Self)
        ensures
            c.counter == 0,
    {
        Self { counter: 0 }
    }

    pub fn next(&mut self) -> (n: u32)
        requires
            old(self).counter < u32::MAX,
        ensures
            issued(*old(self), *final(self), n),
    {
        self.counter += 1;
        self.counter
    }
}

impl Default for Counter {
    fn default() -> (c: Self)
        ensures
            c.counter == 0,
    {
        Self::new()
    }
}

/// A counter that hands out identifiers.
pub struct IdCounter(pub Counter);

impl Default for IdCounter {
    fn default() -> (c: Self)
        ensures
            c.0.counter == 0,
    {
        IdCounter(Counter::default())
    }
}

/// The counter of player numbers.
pub struct PlayerIdCounter(pub IdCounter);

impl Default for PlayerIdCounter {
    fn default() -> (c: Self)
        ensures
            c.0.0.counter == 0,
    {
        PlayerIdCounter(IdCounter::default())
    }
}

/// The counter of network identifiers.
pub struct NetworkIdCounter(pub IdCounter);

impl Default for NetworkIdCounter {
    fn default() -> (c: Self)
        ensures
            c.0.0.counter == 0,
    {
        NetworkIdCounter(IdCounter::default())
    }
}

/// Numbers drawn one after another from a counter never repeat: each one is greater than
/// the one before it.
pub proof fn lemma_successive_numbers_increase(
    c0: Counter,
    c1: Counter,
    c2: Counter,
    first: u32,
    second: u32,
)
    requires
        issued(c0, c1, first),
        issued(c1, c2, second),
    ensures
        first < second,
        second == first + 1,
{
}

} // verus!
