//! At most one operation at a time under each name.
use crate::names::NameMap;
use vstd::prelude::*;

verus! {

/// The names under which an operation runs.
#[derive(Debug)]
pub struct Latch {
    held: NameMap<()>,
}

impl View for Latch {
    type V = Set<Seq<char>>;

    closed spec fn view(&self) -> Set<Seq<char>> {
        self.held@.dom()
    }
}

impl Latch {
    /// Nothing runs.
    pub fn new() -> (l: Latch)
        ensures
            l@ == Set::<Seq<char>>::empty(),
    {
        let l: Latch = Latch { held: NameMap::new() };
        proof {
            assert(l@ =~= Set::empty());
        }
        l
    }

    /// Claim a name. `false` where it is held already.
    pub fn try_claim(&mut self, name: &str) -> (claimed: bool)
        ensures
            claimed == !old(self)@.contains(name@),
            final(self)@ == old(self)@.insert(name@),
    {
        let claimed: bool = self.held.insert(name, ()).is_none();
        proof {
            assert(self@ =~= old(self)@.insert(name@));
        }
        claimed
    }

    /// Release a name.
    pub fn release(&mut self, name: &str)
        ensures
            final(self)@ == old(self)@.remove(name@),
    {
        self.held.remove(name);
        proof {
            assert(self@ =~= old(self)@.remove(name@));
        }
    }

    /// Whether a name is held.
    pub fn contains(&self, name: &str) -> (r: bool)
        ensures
            r == self@.contains(name@),
    {
        self.held.contains(name)
    }
}

/// A name that is held cannot be claimed; once released it can. Other names are
/// not touched by either.
pub proof fn law_latch_is_exclusive(held: Set<Seq<char>>, name: Seq<char>, other: Seq<char>)
    ensures
        held.insert(name).contains(name),
        !held.remove(name).contains(name),
        other != name ==> held.insert(name).contains(other) == held.contains(other),
        other != name ==> held.remove(name).contains(other) == held.contains(other),
{
}

} // verus!
