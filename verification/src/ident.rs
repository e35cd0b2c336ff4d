//! Identifiers, and the source that hands them out.

use vstd::prelude::*;

verus! {

/// The identifier of an entity or of a player. A value of it comes from an
/// `IdSource` and from nowhere else.
#[derive(Clone, Copy, Debug, PartialEq, Eq, PartialOrd, Ord, Hash, Structural)]
pub struct ID(u32);

/// How many identifiers there are: one for each 32-bit number.
pub const ID_COUNT: u64 = 0x1_0000_0000;

/// A source of identifiers: it hands out the numbers from zero upwards, each
/// once, until it has handed out all `ID_COUNT` of them.
#[derive(Clone, Debug, PartialEq, Eq)]
pub struct IdSource {
    next: u64,
}

impl ID {
    /// The identifier's number.
    pub closed spec fn number(self) -> u32 {
        self.0
    }

    /// The next identifier of `source`, or nothing when the source has
    /// handed out all that it has.
    pub fn new(source: &mut IdSource) -> (r: Option<ID>)
        ensures
            old(source).exhausted() ==> r.is_none() && *final(source) == *old(source),
            !old(source).exhausted() ==> r.is_some() && r.unwrap().number() == old(source).issued()
                && final(source).issued() == old(source).issued() + 1,
    {
        if source.next >= ID_COUNT {
            None
        } else {
            let id: ID = ID(source.next as u32);
            source.next = source.next + 1;
            Some(id)
        }
    }

    /// The identifier's number.
    pub fn to_number(&self) -> (r: u32)
        ensures
            r == self.number(),
    {
        self.0
    }
}

/// Two identifiers with the same number are the same identifier.
pub proof fn lemma_number_decides(a: ID, b: ID)
    ensures
        a.number() == b.number() <==> a == b,
{
}

impl IdSource {
    /// How many identifiers the source has handed out: the number of the
    /// next one.
    pub closed spec fn issued(self) -> nat {
        if self.next >= ID_COUNT {
            ID_COUNT as nat
        } else {
            self.next as nat
        }
    }

    /// A source never hands out more identifiers than there are.
    pub proof fn lemma_issued_bounded(self)
        ensures
            self.issued() <= ID_COUNT,
    {
    }

    /// Whether the source has nothing left to hand out.
    pub open spec fn exhausted(self) -> bool {
        self.issued() == ID_COUNT
    }

    /// Whether `id` has come out of this source.
    pub open spec fn has_issued(self, id: ID) -> bool {
        id.number() < self.issued()
    }

    /// A source that has handed out nothing yet.
    pub fn new() -> (r: IdSource)
        ensures
            r.issued() == 0,
    {
        IdSource { next: 0 }
    }

    /// A source that starts at the number `first`, as if it had handed out
    /// the identifiers below it; an exhausted one where `first` is no
    /// identifier's number.
    pub fn starting_at(first: u64) -> (r: IdSource)
        ensures
            first <= ID_COUNT ==> r.issued() == first,
            first > ID_COUNT ==> r.issued() == ID_COUNT,
    {
        if first > ID_COUNT {
            IdSource { next: ID_COUNT }
        } else {
            IdSource { next: first }
        }
    }

    /// How many identifiers the source can still hand out.
    pub fn remaining(&self) -> (r: u64)
        ensures
            r == ID_COUNT - self.issued(),
    {
        if self.next >= ID_COUNT {
            0
        } else {
            ID_COUNT - self.next
        }
    }
}

} // verus!
