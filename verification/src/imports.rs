//! What has been imported into the graphics device, found again by what it was imported from.
//!
//! A client's timeline becomes a semaphore and a shared buffer an image. Both are imported once and
//! kept as long as the timeline or the buffer is there.

use vstd::prelude::*;

verus! {

/// The handles by what they were imported from.
pub open spec fn table(entries: Seq<(u64, u64)>) -> Map<u64, u64>
    decreases entries.len(),
{
    if entries.len() == 0 {
        Map::empty()
    } else {
        table(entries.drop_last()).insert(entries.last().0, entries.last().1)
    }
}

/// Nothing is listed twice.
pub open spec fn distinct_ids(entries: Seq<(u64, u64)>) -> bool {
    forall|i: int, j: int|
        0 <= i < j < entries.len() ==> (#[trigger] entries[i]).0 != (#[trigger] entries[j]).0
}

spec fn lists(entries: Seq<(u64, u64)>, id: u64) -> bool {
    exists|i: int| 0 <= i < entries.len() && (#[trigger] entries[i]).0 == id
}

proof fn lemma_table(entries: Seq<(u64, u64)>)
    requires
        distinct_ids(entries),
    ensures
        forall|i: int|
            0 <= i < entries.len() ==> table(entries).dom().contains(
                (#[trigger] entries[i]).0,
            ) && table(entries)[entries[i].0] == entries[i].1,
        forall|id: u64| #[trigger] table(entries).dom().contains(id) ==> lists(entries, id),
    decreases entries.len(),
{
    if entries.len() > 0 {
        let before = entries.drop_last();
        lemma_table(before);
        assert forall|i: int| 0 <= i < entries.len() implies table(entries).dom().contains(
            (#[trigger] entries[i]).0,
        ) && table(entries)[entries[i].0] == entries[i].1 by {
            if i < before.len() {
                assert(before[i] == entries[i]);
            }
        }
        assert forall|id: u64| #[trigger] table(entries).dom().contains(id) implies lists(
            entries,
            id,
        ) by {
            if id == entries.last().0 {
                assert(entries[entries.len() - 1].0 == id);
            } else {
                assert(table(before).dom().contains(id));
                let i = choose|i: int| 0 <= i < before.len() && (#[trigger] before[i]).0 == id;
                assert(entries[i].0 == id);
            }
        }
    }
}

/// Handles by what they were imported from.
#[derive(Debug)]
pub struct ImportTable {
    entries: Vec<(u64, u64)>,
}

impl View for ImportTable {
    type V = Map<u64, u64>;

    closed spec fn view(&self) -> Map<u64, u64> {
        table(self.entries@)
    }
}

impl ImportTable {
    pub closed spec fn wf(&self) -> bool {
        distinct_ids(self.entries@)
    }

    /// Nothing has been imported.
    pub fn new() -> (r: ImportTable)
        ensures
            r.wf(),
            r@ == Map::<u64, u64>::empty(),
    {
        ImportTable { entries: Vec::new() }
    }

    fn find(&self, id: u64) -> (at: Option<usize>)
        requires
            self.wf(),
        ensures
            match at {
                Some(at) => at < self.entries@.len() && self.entries@[at as int].0 == id,
                None => !lists(self.entries@, id),
            },
    {
        let mut i: usize = 0;
        while i < self.entries.len()
            invariant
                i <= self.entries@.len(),
                forall|j: int| 0 <= j < i ==> (#[trigger] self.entries@[j]).0 != id,
            decreases self.entries@.len() - i,
        {
            if self.entries[i].0 == id {
                return Some(i);
            }
            i = i + 1;
        }
        None
    }

    /// The handle of an earlier import.
    pub fn get(&self, id: u64) -> (handle: Option<u64>)
        requires
            self.wf(),
        ensures
            handle == if self@.dom().contains(id) {
                Some(self@[id])
            } else {
                None
            },
    {
        proof {
            lemma_table(self.entries@);
        }
        match self.find(id) {
            Some(i) => Some(self.entries[i].1),
            None => None,
        }
    }

    /// Keeps an import, and gives the handle of the one that it replaces.
    pub fn insert(&mut self, id: u64, handle: u64) -> (replaced: Option<u64>)
        requires
            old(self).wf(),
        ensures
            final(self).wf(),
            final(self)@ == old(self)@.insert(id, handle),
            replaced == if old(self)@.dom().contains(id) {
                Some(old(self)@[id])
            } else {
                None
            },
    {
        let ghost before = self.entries@;
        proof {
            lemma_table(before);
        }
        match self.find(id) {
            Some(i) => {
                let replaced: u64 = self.entries[i].1;
                self.entries.set(i, (id, handle));
                proof {
                    let after = self.entries@;
                    lemma_table(after);
                    assert forall|k: u64| #[trigger]
                        table(after).dom().contains(k) <==> table(before).insert(
                            id,
                            handle,
                        ).dom().contains(k) by {
                        if table(before).dom().contains(k) && k != id {
                            let j = choose|j: int|
                                0 <= j < before.len() && (#[trigger] before[j]).0 == k;
                            assert(after[j] == before[j]);
                        }
                        if table(after).dom().contains(k) && k != id {
                            let j = choose|j: int|
                                0 <= j < after.len() && (#[trigger] after[j]).0 == k;
                            assert(after[j] == before[j]);
                        }
                        assert(after[i as int].0 == id);
                    }
                    assert forall|k: u64| #[trigger]
                        table(after).dom().contains(k) implies table(after)[k] == table(
                        before,
                    ).insert(id, handle)[k] by {
                        let j = choose|j: int| 0 <= j < after.len() && (#[trigger] after[j]).0 == k;
                        if j != i {
                            assert(after[j] == before[j]);
                        }
                    }
                    assert(table(after) =~= table(before).insert(id, handle));
                }
                Some(replaced)
            },
            None => {
                self.entries.push((id, handle));
                assert(self.entries@.drop_last() =~= before);
                None
            },
        }
    }

    /// Drops the imports whose origins are gone, and gives them with their handles.
    pub fn retain(&mut self, gone: &Vec<u64>) -> (dropped: Vec<(u64, u64)>)
        requires
            old(self).wf(),
        ensures
            final(self).wf(),
            final(self)@ == old(self)@.remove_keys(gone@.to_set()),
            distinct_ids(dropped@),
            table(dropped@) == old(self)@.restrict(gone@.to_set()),
    {
        let ghost before = self.entries@;
        let mut kept: Vec<(u64, u64)> = Vec::new();
        let mut dropped: Vec<(u64, u64)> = Vec::new();
        let mut i: usize = 0;
        while i < self.entries.len()
            invariant
                i <= before.len(),
                self.entries@ == before,
                distinct_ids(before),
                split(before.take(i as int), gone@, kept@, dropped@),
            decreases before.len() - i,
        {
            let entry: (u64, u64) = self.entries[i];
            let ghost part = before.take(i as int);
            let ghost next = before.take(i + 1);
            assert(next =~= part.push(entry));
            let ghost kept_before = kept@;
            let ghost dropped_before = dropped@;
            if listed(gone, entry.0) {
                dropped.push(entry);
            } else {
                kept.push(entry);
            }
            proof {
                assert forall|j: int| 0 <= j < part.len() implies (#[trigger] part[j]).0
                    != entry.0 by {
                    assert(before[j].0 != before[i as int].0);
                }
                lemma_split_next(
                    part,
                    gone@,
                    kept_before,
                    dropped_before,
                    entry,
                );
            }
            i = i + 1;
        }
        assert(before.take(i as int) =~= before);
        proof {
            lemma_split_tables(before, gone@, kept@, dropped@);
        }
        self.entries = kept;
        dropped
    }

    /// Drops all imports, and gives them with their handles.
    pub fn drain(&mut self) -> (dropped: Vec<(u64, u64)>)
        requires
            old(self).wf(),
        ensures
            final(self).wf(),
            final(self)@ == Map::<u64, u64>::empty(),
            distinct_ids(dropped@),
            table(dropped@) == old(self)@,
    {
        let mut dropped: Vec<(u64, u64)> = Vec::new();
        std::mem::swap(&mut dropped, &mut self.entries);
        dropped
    }
}

fn listed(ids: &Vec<u64>, id: u64) -> (r: bool)
    ensures
        r == ids@.contains(id),
{
    let mut i: usize = 0;
    while i < ids.len()
        invariant
            i <= ids@.len(),
            forall|j: int| 0 <= j < i ==> ids@[j] != id,
        decreases ids@.len() - i,
    {
        if ids[i] == id {
            return true;
        }
        i = i + 1;
    }
    false
}

/// Entries are divided by whether their origins are gone.
spec fn split(
    entries: Seq<(u64, u64)>,
    gone: Seq<u64>,
    kept: Seq<(u64, u64)>,
    dropped: Seq<(u64, u64)>,
) -> bool {
    &&& distinct_ids(kept)
    &&& distinct_ids(dropped)
    &&& forall|e: (u64, u64)| #[trigger]
        kept.contains(e) <==> entries.contains(e) && !gone.contains(e.0)
    &&& forall|e: (u64, u64)| #[trigger]
        dropped.contains(e) <==> entries.contains(e) && gone.contains(e.0)
}

proof fn lemma_push_contains(s: Seq<(u64, u64)>, x: (u64, u64))
    ensures
        forall|e: (u64, u64)| #[trigger] s.push(x).contains(e) <==> s.contains(e) || e == x,
{
    assert forall|e: (u64, u64)| #[trigger] s.push(x).contains(e) <==> s.contains(e) || e == x by {
        if s.contains(e) {
            let i = choose|i: int| 0 <= i < s.len() && s[i] == e;
            assert(s.push(x)[i] == e);
        }
        assert(s.push(x)[s.len() as int] == x);
    }
}

proof fn lemma_split_next(
    entries: Seq<(u64, u64)>,
    gone: Seq<u64>,
    kept: Seq<(u64, u64)>,
    dropped: Seq<(u64, u64)>,
    entry: (u64, u64),
)
    requires
        split(entries, gone, kept, dropped),
        forall|j: int| 0 <= j < entries.len() ==> (#[trigger] entries[j]).0 != entry.0,
    ensures
        gone.contains(entry.0) ==> split(entries.push(entry), gone, kept, dropped.push(entry)),
        !gone.contains(entry.0) ==> split(entries.push(entry), gone, kept.push(entry), dropped),
{
    lemma_push_contains(entries, entry);
    lemma_push_contains(kept, entry);
    lemma_push_contains(dropped, entry);
    assert forall|j: int| 0 <= j < kept.len() implies (#[trigger] kept[j]).0 != entry.0 by {
        assert(kept.contains(kept[j]));
        assert(entries.contains(kept[j]));
    }
    assert forall|j: int| 0 <= j < dropped.len() implies (#[trigger] dropped[j]).0
        != entry.0 by {
        assert(dropped.contains(dropped[j]));
        assert(entries.contains(dropped[j]));
    }
}

proof fn lemma_table_pairs(entries: Seq<(u64, u64)>)
    requires
        distinct_ids(entries),
    ensures
        forall|e: (u64, u64)| #[trigger]
            entries.contains(e) <==> table(entries).dom().contains(e.0) && table(entries)[e.0]
                == e.1,
{
    lemma_table(entries);
    assert forall|e: (u64, u64)|
        table(entries).dom().contains(e.0) && table(entries)[e.0] == e.1 implies #[trigger]
    entries.contains(e) by {
        let i = choose|i: int| 0 <= i < entries.len() && (#[trigger] entries[i]).0 == e.0;
        assert(entries[i] == e);
    }
}

proof fn lemma_split_tables(
    entries: Seq<(u64, u64)>,
    gone: Seq<u64>,
    kept: Seq<(u64, u64)>,
    dropped: Seq<(u64, u64)>,
)
    requires
        distinct_ids(entries),
        split(entries, gone, kept, dropped),
    ensures
        table(kept) == table(entries).remove_keys(gone.to_set()),
        table(dropped) == table(entries).restrict(gone.to_set()),
{
    lemma_table_pairs(entries);
    lemma_table_pairs(kept);
    lemma_table_pairs(dropped);
    assert forall|id: u64|
        {
            &&& #[trigger] table(kept).dom().contains(id) <==> table(entries).dom().contains(id)
                && !gone.contains(id)
            &&& table(kept).dom().contains(id) ==> table(kept)[id] == table(entries)[id]
        } by {
        let k = (id, table(kept)[id]);
        let e = (id, table(entries)[id]);
        assert(kept.contains(k) <==> entries.contains(k) && !gone.contains(id));
        assert(kept.contains(e) <==> entries.contains(e) && !gone.contains(id));
    }
    assert forall|id: u64|
        {
            &&& #[trigger] table(dropped).dom().contains(id) <==> table(entries).dom().contains(id)
                && gone.contains(id)
            &&& table(dropped).dom().contains(id) ==> table(dropped)[id] == table(entries)[id]
        } by {
        let d = (id, table(dropped)[id]);
        let e = (id, table(entries)[id]);
        assert(dropped.contains(d) <==> entries.contains(d) && gone.contains(id));
        assert(dropped.contains(e) <==> entries.contains(e) && gone.contains(id));
    }
    assert(table(kept) =~= table(entries).remove_keys(gone.to_set()));
    assert(table(dropped) =~= table(entries).restrict(gone.to_set()));
}

/// An import is kept with its handle as long as its origin is there, and given up once when the
/// origin is gone.
pub proof fn law_imports_last_as_long_as_their_origins(
    imports: Map<u64, u64>,
    gone: Seq<u64>,
    id: u64,
)
    requires
        imports.dom().contains(id),
    ensures
        !gone.contains(id) ==> imports.remove_keys(gone.to_set()).dom().contains(id)
            && imports.remove_keys(gone.to_set())[id] == imports[id] && !imports.restrict(
            gone.to_set(),
        ).dom().contains(id),
        gone.contains(id) ==> !imports.remove_keys(gone.to_set()).dom().contains(id)
            && imports.restrict(gone.to_set()).dom().contains(id) && imports.restrict(
            gone.to_set(),
        )[id] == imports[id],
{
}

} // verus!
