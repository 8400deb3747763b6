//! The roster: the ordered collection of credential slots representing
//! current and formerly-present group members by stable positional index.
//!
//! A removed member's slot is blanked rather than deleted, so that every
//! remaining member keeps its index. Trailing blanks accumulate when the
//! highest-indexed members leave; [`Roster::truncate_to_last_nonblank`]
//! reclaims that trailing space without disturbing any other slot. The
//! caller decides when to compact; no slot mutation triggers it.

use vstd::prelude::*;

use crate::credential::Credential;

verus! {

/// A roster, as it appears in a group state: a list of optional
/// credentials, one per member slot.
#[derive(Clone, Debug, PartialEq, Eq)]
pub struct Roster(pub Vec<Option<Credential>>);

impl View for Roster {
    type V = Seq<Option<Credential>>;

    open spec fn view(&self) -> Seq<Option<Credential>> {
        self.0@
    }
}

/// The compaction of a slot sequence: the prefix that ends at the last
/// occupied slot, or the empty sequence when every slot is blank.
pub open spec fn compacted(s: Seq<Option<Credential>>) -> Seq<Option<Credential>>
    decreases s.len(),
{
    if s.len() == 0 {
        s
    } else if s.last() is Some {
        s
    } else {
        compacted(s.drop_last())
    }
}

/// Whether a slot sequence carries no trailing blank slot, i.e. is fixed
/// by compaction.
pub open spec fn has_no_trailing_blank(s: Seq<Option<Credential>>) -> bool {
    s.len() == 0 || s.last() is Some
}

impl Roster {
    /// A roster with no slots at all.
    pub fn new() -> (r: Roster)
        ensures
            r@ == Seq::<Option<Credential>>::empty(),
    {
        Roster(Vec::new())
    }

    /// The number of slots currently retained, blanks included.
    pub fn len(&self) -> (r: usize)
        ensures
            r == self@.len(),
    {
        self.0.len()
    }

    /// Appends one slot at the next index; the group-state owner allocates
    /// indices this way when a member joins past the current end.
    pub fn push_slot(&mut self, slot: Option<Credential>)
        ensures
            final(self)@ == old(self)@.push(slot),
    {
        self.0.push(slot);
    }

    /// Assigns a credential to an existing slot (a member joins into a
    /// vacant index, or a credential is replaced in place).
    pub fn assign_slot(&mut self, index: usize, credential: Credential)
        requires
            index < old(self)@.len(),
        ensures
            final(self)@ == old(self)@.update(index as int, Some(credential)),
    {
        self.0.set(index, Some(credential));
    }

    /// Blanks an existing slot (a member is removed); every other slot
    /// keeps its index.
    pub fn blank_slot(&mut self, index: usize)
        requires
            index < old(self)@.len(),
        ensures
            final(self)@ == old(self)@.update(index as int, None),
    {
        self.0.set(index, None);
    }

    /// The slot at `index`: occupied or blank.
    pub fn get_slot(&self, index: usize) -> (r: &Option<Credential>)
        requires
            index < self@.len(),
        ensures
            r == &self@[index as int],
    {
        &self.0[index]
    }

    /// Truncates the roster so it ends at the last occupied slot. If every
    /// slot is blank, this clears the roster. No occupied slot is moved or
    /// changed: only a trailing suffix of blank slots is removed.
    pub fn truncate_to_last_nonblank(&mut self)
        ensures
            final(self)@ == compacted(old(self)@),
    {
        let ghost initial: Seq<Option<Credential>> = self@;
        let mut keep: usize = self.0.len();
        proof {
            assert(initial.take(keep as int) =~= initial);
        }
        while keep > 0 && self.0[keep - 1].is_none()
            invariant
                keep <= self@.len(),
                self@ == initial,
                compacted(initial) == compacted(initial.take(keep as int)),
            decreases keep,
        {
            proof {
                assert(initial.take(keep as int).drop_last() =~= initial.take(keep - 1));
            }
            keep = keep - 1;
        }
        proof {
            assert(initial.take(keep as int) =~= compacted(initial)) by {
                if keep > 0 {
                    assert(initial.take(keep as int).last() == initial[keep - 1]);
                }
            }
        }
        self.0.truncate(keep);
    }
}

/// Compaction removes a suffix and nothing more: its result is a prefix of
/// the input, so no occupied slot's index changes, and every slot the input
/// had beyond that prefix is blank.
pub proof fn lemma_compacted_is_prefix(s: Seq<Option<Credential>>)
    ensures
        compacted(s).len() <= s.len(),
        compacted(s) == s.take(compacted(s).len() as int),
        forall|i: int| compacted(s).len() <= i < s.len() ==> s[i] is None,
    decreases s.len(),
{
    if s.len() == 0 || s.last() is Some {
        assert(compacted(s) =~= s.take(s.len() as int));
    } else {
        lemma_compacted_is_prefix(s.drop_last());
        assert(s.drop_last() == s.take(s.len() - 1));
        assert(compacted(s) =~= s.take(compacted(s).len() as int));
        assert forall|i: int| compacted(s).len() <= i < s.len() implies s[i] is None by {
            if i < s.len() - 1 {
                assert(s.drop_last()[i] == s[i]);
            } else {
                assert(s[i] == s.last());
            }
        }
    }
}

/// A compacted sequence never ends in a blank slot.
pub proof fn lemma_compacted_has_no_trailing_blank(s: Seq<Option<Credential>>)
    ensures
        has_no_trailing_blank(compacted(s)),
    decreases s.len(),
{
    if s.len() == 0 || s.last() is Some {
    } else {
        lemma_compacted_has_no_trailing_blank(s.drop_last());
    }
}

/// A sequence with no trailing blank slot is exactly its own compaction:
/// compacting a roster that already ends at an occupied slot changes
/// neither its length nor its contents.
pub proof fn lemma_compacted_fixes_no_trailing_blank(s: Seq<Option<Credential>>)
    requires
        has_no_trailing_blank(s),
    ensures
        compacted(s) == s,
{
}

/// Compaction is idempotent: compacting twice yields what compacting once
/// yields.
pub proof fn lemma_compacted_idempotent(s: Seq<Option<Credential>>)
    ensures
        compacted(compacted(s)) == compacted(s),
{
    lemma_compacted_has_no_trailing_blank(s);
    lemma_compacted_fixes_no_trailing_blank(compacted(s));
}

/// Compacting a roster of blank slots only, of any length, yields the
/// empty roster.
pub proof fn lemma_compacted_all_blank(s: Seq<Option<Credential>>)
    requires
        forall|i: int| 0 <= i < s.len() ==> s[i] is None,
    ensures
        compacted(s) == Seq::<Option<Credential>>::empty(),
    decreases s.len(),
{
    if s.len() == 0 {
        assert(compacted(s) =~= Seq::<Option<Credential>>::empty());
    } else {
        lemma_compacted_all_blank(s.drop_last());
    }
}

} // verus!
