use vstd::prelude::*;

verus! {

/// The number of successors a node keeps.
pub const SUCCESSOR_COUNT: usize = 4;

/// The addresses in a list of strings.
pub open spec fn addresses(v: Seq<String>) -> Seq<Seq<char>> {
    v.map_values(|s: String| s@)
}

/// The next live successors of a node, nearest first. The first is the
/// immediate successor; the others are failover candidates.
#[derive(Clone, Debug)]
pub struct SuccessorList {
    pub successors: Vec<String>,
}

impl View for SuccessorList {
    type V = Seq<Seq<char>>;

    open spec fn view(&self) -> Seq<Seq<char>> {
        addresses(self.successors@)
    }
}

impl SuccessorList {
    /// Between one and `SUCCESSOR_COUNT` entries.
    pub open spec fn wf(&self) -> bool {
        1 <= self.successors@.len() <= SUCCESSOR_COUNT
    }

    /// The list of a node at `own` whose successor is `successor`: the successor
    /// first, then the node itself in every other slot.
    pub fn new(own: &String, successor: &String) -> (r: SuccessorList)
        ensures
            r.wf(),
            r@.len() == SUCCESSOR_COUNT,
            r@[0] == successor@,
            forall|j: int| 1 <= j < SUCCESSOR_COUNT ==> #[trigger] r@[j] == own@,
    {
        let mut successors: Vec<String> = Vec::new();
        successors.push(successor.clone());
        while successors.len() < SUCCESSOR_COUNT
            invariant
                1 <= successors@.len() <= SUCCESSOR_COUNT,
                successors@[0]@ == successor@,
                forall|j: int| 1 <= j < successors@.len() ==> #[trigger] successors@[j]@ == own@,
            decreases SUCCESSOR_COUNT - successors@.len(),
        {
            successors.push(own.clone());
        }
        SuccessorList { successors }
    }

    /// The list of a node that knows no other node: itself in every slot.
    pub fn alone(own: &String) -> (r: SuccessorList)
        ensures
            r.wf(),
            r@.len() == SUCCESSOR_COUNT,
            forall|j: int| 0 <= j < SUCCESSOR_COUNT ==> #[trigger] r@[j] == own@,
    {
        SuccessorList::new(own, own)
    }

    /// The immediate successor.
    pub fn first(&self) -> (r: String)
        requires
            self.wf(),
        ensures
            r@ == self@[0],
    {
        self.successors[0].clone()
    }

    /// Replaces the immediate successor, keeping the failover candidates.
    pub fn set_first(&mut self, address: &String)
        requires
            old(self).wf(),
        ensures
            final(self).wf(),
            final(self)@ == old(self)@.update(0, address@),
    {
        self.successors.set(0, address.clone());
        proof {
            assert(self@ =~= old(self)@.update(0, address@));
        }
    }

    /// Adopts `successor` as the immediate successor and the first entries of
    /// its own list as the failover candidates.
    pub fn refresh(&mut self, successor: &String, successors_of_successor: &Vec<String>)
        ensures
            final(self).wf(),
            final(self)@ == seq![successor@] + addresses(successors_of_successor@).take(
                vstd::math::min(successors_of_successor@.len() as int, SUCCESSOR_COUNT - 1),
            ),
    {
        let mut successors: Vec<String> = Vec::new();
        successors.push(successor.clone());
        let mut i: usize = 0;
        while i < successors_of_successor.len() && i + 1 < SUCCESSOR_COUNT
            invariant
                i <= successors_of_successor@.len(),
                i + 1 <= SUCCESSOR_COUNT,
                addresses(successors@) == seq![successor@] + addresses(successors_of_successor@).take(i as int),
            decreases SUCCESSOR_COUNT - i,
        {
            let ghost before = successors@;
            let next = successors_of_successor[i].clone();
            successors.push(next);
            proof {
                assert(addresses(successors@) =~= addresses(before).push(next@));
                assert(addresses(successors_of_successor@).take(i + 1) =~= addresses(successors_of_successor@).take(
                    i as int,
                ).push(next@));
            }
            i = i + 1;
        }
        self.successors = successors;
    }

    /// Drops the first `count` entries, which could not be reached.
    pub fn skip(&mut self, count: usize)
        requires
            old(self).wf(),
            count < old(self)@.len(),
        ensures
            final(self).wf(),
            final(self)@ == old(self)@.skip(count as int),
    {
        let mut rest: Vec<String> = Vec::new();
        let mut i: usize = count;
        while i < self.successors.len()
            invariant
                count <= i <= self.successors@.len(),
                addresses(rest@) == self@.subrange(count as int, i as int),
            decreases self.successors@.len() - i,
        {
            let ghost before = rest@;
            let next = self.successors[i].clone();
            rest.push(next);
            proof {
                assert(addresses(rest@) =~= addresses(before).push(next@));
                assert(self@.subrange(count as int, i + 1) =~= self@.subrange(count as int, i as int).push(next@));
            }
            i = i + 1;
        }
        proof {
            assert(self@.subrange(count as int, i as int) =~= self@.skip(count as int));
        }
        self.successors = rest;
    }
}

} // verus!
