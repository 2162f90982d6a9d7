//! Small sets of kernel object ids that remember the order in which ids came.

use vstd::prelude::*;

verus! {

/// The ids with `id` added at the end, unless it is there.
pub open spec fn with_id(ids: Seq<u32>, id: u32) -> Seq<u32> {
    if ids.contains(id) {
        ids
    } else {
        ids.push(id)
    }
}

/// The ids that are not among the others.
pub open spec fn minus(ids: Seq<u32>, others: Seq<u32>) -> Seq<u32>
    decreases ids.len(),
{
    if ids.len() == 0 {
        seq![]
    } else if others.contains(ids.last()) {
        minus(ids.drop_last(), others)
    } else {
        minus(ids.drop_last(), others).push(ids.last())
    }
}

/// The different ids of a list in the order in which they first come.
pub open spec fn distinct(ids: Seq<u32>) -> Seq<u32>
    decreases ids.len(),
{
    if ids.len() == 0 {
        seq![]
    } else {
        with_id(distinct(ids.drop_last()), ids.last())
    }
}

/// Whether two lists hold the same ids.
pub open spec fn same_ids(a: Seq<u32>, b: Seq<u32>) -> bool {
    &&& forall|id: u32| a.contains(id) ==> b.contains(id)
    &&& forall|id: u32| b.contains(id) ==> a.contains(id)
}

/// What is left holds exactly the ids that are not among the others.
pub proof fn law_minus_contains(ids: Seq<u32>, others: Seq<u32>, id: u32)
    ensures
        minus(ids, others).contains(id) <==> ids.contains(id) && !others.contains(id),
        ids.no_duplicates() ==> minus(ids, others).no_duplicates(),
    decreases ids.len(),
{
    if ids.len() > 0 {
        let front = ids.drop_last();
        let last = ids.last();
        law_minus_contains(front, others, id);
        assert(ids =~= front.push(last));
        assert(ids.contains(id) <==> front.contains(id) || id == last) by {
            if front.contains(id) {
                let i = choose|i: int| 0 <= i < front.len() && front[i] == id;
                assert(ids[i] == id);
            }
            if id == last {
                assert(ids[ids.len() - 1] == id);
            }
        }
        let rest = minus(front, others);
        if !others.contains(last) {
            assert(rest.push(last).contains(id) <==> rest.contains(id) || id == last) by {
                if rest.contains(id) {
                    let i = choose|i: int| 0 <= i < rest.len() && rest[i] == id;
                    assert(rest.push(last)[i] == id);
                }
                assert(rest.push(last)[rest.len() as int] == last);
            }
            if ids.no_duplicates() {
                law_minus_contains(front, others, last);
                assert(!front.contains(last));
                assert(rest.push(last).no_duplicates());
            }
        }
    }
}

/// The distinct ids are those of the list, each once.
pub proof fn law_distinct_contains(ids: Seq<u32>, id: u32)
    ensures
        distinct(ids).contains(id) <==> ids.contains(id),
        distinct(ids).no_duplicates(),
    decreases ids.len(),
{
    if ids.len() > 0 {
        let front = ids.drop_last();
        let last = ids.last();
        law_distinct_contains(front, id);
        let d = distinct(front);
        assert(ids =~= front.push(last));
        assert(ids.contains(id) <==> front.contains(id) || id == last) by {
            if front.contains(id) {
                let i = choose|i: int| 0 <= i < front.len() && front[i] == id;
                assert(ids[i] == id);
            }
            if id == last {
                assert(ids[ids.len() - 1] == id);
            }
        }
        assert(d.push(last).contains(id) <==> d.contains(id) || id == last) by {
            if d.contains(id) {
                let i = choose|i: int| 0 <= i < d.len() && d[i] == id;
                assert(d.push(last)[i] == id);
            }
            assert(d.push(last)[d.len() as int] == last);
        }
    }
}

/// A set of ids.
#[derive(Debug)]
pub struct IdSet {
    pub ids: Vec<u32>,
}

impl View for IdSet {
    type V = Seq<u32>;

    open spec fn view(&self) -> Seq<u32> {
        self.ids@
    }
}

impl IdSet {
    /// Every id is there at most once.
    pub open spec fn wf(&self) -> bool {
        self@.no_duplicates()
    }

    /// The empty set.
    pub fn new() -> (s: IdSet)
        ensures
            s.wf(),
            s@ == Seq::<u32>::empty(),
    {
        IdSet { ids: Vec::new() }
    }

    /// Whether the set holds an id.
    pub fn contains(&self, id: u32) -> (found: bool)
        ensures
            found == self@.contains(id),
    {
        let mut i: usize = 0;
        while i < self.ids.len()
            invariant
                i <= self.ids.len(),
                forall|j: int| 0 <= j < i ==> self.ids@[j] != id,
            decreases self.ids.len() - i,
        {
            if self.ids[i] == id {
                assert(self@[i as int] == id);
                return true;
            }
            i = i + 1;
        }
        false
    }

    /// Adds an id.
    pub fn insert(&mut self, id: u32)
        requires
            old(self).wf(),
        ensures
            final(self).wf(),
            final(self)@ == with_id(old(self)@, id),
    {
        if !self.contains(id) {
            self.ids.push(id);
        }
    }

    /// Takes an id out.
    pub fn remove(&mut self, id: u32)
        requires
            old(self).wf(),
        ensures
            final(self).wf(),
            final(self)@ == minus(old(self)@, seq![id]),
    {
        let only = IdSet { ids: vec![id] };
        let left: IdSet = self.difference(&only);
        assert(only@ =~= seq![id]);
        self.ids = left.ids;
    }

    /// The ids that are not in the other set.
    pub fn difference(&self, other: &IdSet) -> (s: IdSet)
        requires
            self.wf(),
        ensures
            s.wf(),
            s@ == minus(self@, other@),
    {
        let mut ids: Vec<u32> = Vec::new();
        let mut i: usize = 0;
        assert(self@.take(0) =~= seq![]);
        while i < self.ids.len()
            invariant
                i <= self.ids.len(),
                ids@ == minus(self@.take(i as int), other@),
            decreases self.ids.len() - i,
        {
            let id: u32 = self.ids[i];
            proof {
                assert(self@.take(i + 1).last() == id);
                assert(self@.take(i + 1).drop_last() =~= self@.take(i as int));
            }
            if !other.contains(id) {
                ids.push(id);
            }
            i = i + 1;
        }
        proof {
            assert(self@.take(i as int) =~= self@);
            law_minus_contains(self@, other@, 0);
        }
        IdSet { ids }
    }

    /// The set of the ids of a list.
    pub fn from_list(list: &Vec<u32>) -> (s: IdSet)
        ensures
            s.wf(),
            s@ == distinct(list@),
    {
        let mut s: IdSet = IdSet::new();
        let mut i: usize = 0;
        assert(list@.take(0) =~= seq![]);
        while i < list.len()
            invariant
                i <= list.len(),
                s.wf(),
                s@ == distinct(list@.take(i as int)),
            decreases list.len() - i,
        {
            proof {
                assert(list@.take(i + 1).last() == list@[i as int]);
                assert(list@.take(i + 1).drop_last() =~= list@.take(i as int));
            }
            s.insert(list[i]);
            i = i + 1;
        }
        assert(list@.take(i as int) =~= list@);
        s
    }

    /// A copy.
    pub fn duplicate(&self) -> (s: IdSet)
        ensures
            s@ == self@,
    {
        let mut ids: Vec<u32> = Vec::new();
        let mut i: usize = 0;
        while i < self.ids.len()
            invariant
                i <= self.ids.len(),
                ids@ == self@.take(i as int),
            decreases self.ids.len() - i,
        {
            ids.push(self.ids[i]);
            i = i + 1;
            assert(ids@ =~= self@.take(i as int));
        }
        assert(ids@ =~= self@);
        IdSet { ids }
    }

    /// Whether every id is in the other set.
    pub fn is_subset(&self, other: &IdSet) -> (r: bool)
        ensures
            r == (forall|id: u32| self@.contains(id) ==> other@.contains(id)),
    {
        let mut i: usize = 0;
        while i < self.ids.len()
            invariant
                i <= self.ids.len(),
                forall|j: int| 0 <= j < i ==> other@.contains(#[trigger] self.ids@[j]),
            decreases self.ids.len() - i,
        {
            if !other.contains(self.ids[i]) {
                assert(self@.contains(self.ids@[i as int]));
                return false;
            }
            i = i + 1;
        }
        true
    }

    /// Whether both sets hold the same ids.
    pub fn same(&self, other: &IdSet) -> (r: bool)
        ensures
            r == same_ids(self@, other@),
    {
        self.is_subset(other) && other.is_subset(self)
    }
}

} // verus!
