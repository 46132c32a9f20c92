use crate::bytes::copy_bytes;
use crate::store::{
    add_all, answers, clear_set, entries_view, Entry, Index, Key, put_all, Reply, Request, Store,
    Table, Write,
};
use vstd::prelude::*;

verus! {

struct Slot {
    table: Table,
    key: Key,
    value: Vec<u8>,
}

/// A record store that keeps its records in memory.
pub struct RecordStore {
    slots: Vec<Slot>,
}

impl View for RecordStore {
    type V = Map<(Table, Key), Seq<u8>>;

    closed spec fn view(&self) -> Map<(Table, Key), Seq<u8>> {
        Map::new(
            |at: (Table, Key)| self.slot_of(at) < self.slots.len(),
            |at: (Table, Key)| self.slots[self.slot_of(at)].value@,
        )
    }
}

impl RecordStore {
    /// No two slots hold the same key of the same table.
    pub closed spec fn wf(&self) -> bool {
        forall|i: int, j: int|
            0 <= i < j < self.slots.len() ==> !(#[trigger] self.slots[i].table
                == #[trigger] self.slots[j].table && self.slots[i].key == self.slots[j].key)
    }

    /// The first slot that holds `at`, or the number of slots where none does.
    closed spec fn slot_of(&self, at: (Table, Key)) -> int {
        Self::first_slot(self.slots@, at)
    }

    closed spec fn first_slot(slots: Seq<Slot>, at: (Table, Key)) -> int
        decreases slots.len(),
    {
        if slots.len() == 0 {
            0
        } else if slots[0].table == at.0 && slots[0].key == at.1 {
            0
        } else {
            1 + Self::first_slot(slots.drop_first(), at)
        }
    }

    proof fn lemma_first_slot(slots: Seq<Slot>, at: (Table, Key))
        ensures
            0 <= Self::first_slot(slots, at) <= slots.len(),
            Self::first_slot(slots, at) < slots.len() ==> slots[Self::first_slot(slots, at)].table
                == at.0 && slots[Self::first_slot(slots, at)].key == at.1,
            forall|i: int|
                0 <= i < Self::first_slot(slots, at) ==> !(#[trigger] slots[i].table == at.0
                    && slots[i].key == at.1),
        decreases slots.len(),
    {
        if slots.len() == 0 {
        } else if slots[0].table == at.0 && slots[0].key == at.1 {
        } else {
            let rest = slots.drop_first();
            Self::lemma_first_slot(rest, at);
            assert forall|i: int| 0 <= i < Self::first_slot(slots, at) implies !(
            #[trigger] slots[i].table == at.0 && slots[i].key == at.1) by {
                if i > 0 {
                    assert(slots[i] == rest[i - 1]);
                }
            }
        }
    }

    /// Where the store is well formed, slot `i` is the one that the view reads for its key.
    proof fn lemma_slot(&self, i: int)
        requires
            self.wf(),
            0 <= i < self.slots.len(),
        ensures
            self.slot_of((self.slots[i].table, self.slots[i].key)) == i,
            self@.dom().contains((self.slots[i].table, self.slots[i].key)),
            self@[(self.slots[i].table, self.slots[i].key)] == self.slots[i].value@,
    {
        let at = (self.slots[i].table, self.slots[i].key);
        Self::lemma_first_slot(self.slots@, at);
        let f = self.slot_of(at);
        if f < i {
            assert(self.slots[f].table == self.slots[i].table);
        }
    }

    /// A key that no slot holds is not in the view.
    proof fn lemma_absent(&self, at: (Table, Key))
        requires
            forall|i: int|
                0 <= i < self.slots.len() ==> !(#[trigger] self.slots[i].table == at.0
                    && self.slots[i].key == at.1),
        ensures
            !self@.dom().contains(at),
    {
        Self::lemma_first_slot(self.slots@, at);
    }

    /// A key of the view is held by a slot.
    proof fn lemma_present(&self, at: (Table, Key))
        requires
            self@.dom().contains(at),
        ensures
            0 <= self.slot_of(at) < self.slots.len(),
            self.slots[self.slot_of(at)].table == at.0,
            self.slots[self.slot_of(at)].key == at.1,
            self@[at] == self.slots[self.slot_of(at)].value@,
    {
        Self::lemma_first_slot(self.slots@, at);
    }

    /// A store without records.
    pub fn new() -> (r: Self)
        ensures
            r.wf(),
            r@ == Map::<(Table, Key), Seq<u8>>::empty(),
    {
        let r = RecordStore { slots: Vec::new() };
        proof {
            assert forall|at: (Table, Key)| !r@.dom().contains(at) by {
                r.lemma_absent(at);
            }
            assert(r@ =~= Map::<(Table, Key), Seq<u8>>::empty());
        }
        r
    }

    fn find(&self, table: Table, key: Key) -> (r: Option<usize>)
        requires
            self.wf(),
        ensures
            match r {
                Some(i) => i < self.slots.len() && self.slots[i as int].table == table
                    && self.slots[i as int].key == key && self@.dom().contains((table, key))
                    && self@[(table, key)] == self.slots[i as int].value@,
                None => !self@.dom().contains((table, key)),
            },
    {
        let mut i: usize = 0;
        while i < self.slots.len()
            invariant
                i <= self.slots.len(),
                self.wf(),
                forall|j: int|
                    0 <= j < i ==> !(#[trigger] self.slots[j].table == table && self.slots[j].key
                        == key),
            decreases self.slots.len() - i,
        {
            if self.slots[i].table == table && self.slots[i].key == key {
                proof {
                    self.lemma_slot(i as int);
                }
                return Some(i);
            }
            i = i + 1;
        }
        proof {
            self.lemma_absent((table, key));
        }
        None
    }

    /// Sets the record under `key` in `table`, whether or not there was one.
    pub fn put(&mut self, table: Table, key: Key, value: Vec<u8>)
        requires
            old(self).wf(),
        ensures
            final(self).wf(),
            final(self)@ == old(self)@.insert((table, key), value@),
    {
        let found = self.find(table, key);
        let ghost before = *self;
        match found {
            Some(i) => {
                self.slots.set(i, Slot { table, key, value });
                proof {
                    let ghost target = before@.insert((table, key), value@);
                    assert forall|at: (Table, Key)|
                        (#[trigger] self@.dom().contains(at)) == target.dom().contains(at) && (
                        self@.dom().contains(at) ==> self@[at] == target[at]) by {
                        if self@.dom().contains(at) {
                            self.lemma_present(at);
                            let s = self.slot_of(at);
                            if s != i {
                                before.lemma_slot(s);
                            }
                        }
                        if before@.insert((table, key), value@).dom().contains(at) {
                            if at == (table, key) {
                                self.lemma_slot(i as int);
                            } else {
                                before.lemma_present(at);
                                let s = before.slot_of(at);
                                assert(self.slots[s] == before.slots[s]);
                                self.lemma_slot(s);
                            }
                        }
                    }
                    assert(self@ =~= target);
                }
            },
            None => {
                self.slots.push(Slot { table, key, value });
                proof {
                    let n = before.slots.len() as int;
                    assert forall|i: int, j: int| 0 <= i < j < self.slots.len() implies !(
                    #[trigger] self.slots[i].table == #[trigger] self.slots[j].table
                        && self.slots[i].key == self.slots[j].key) by {
                        if j == n {
                            assert(self.slots[i] == before.slots[i]);
                            if self.slots[i].table == table && self.slots[i].key == key {
                                before.lemma_slot(i);
                            }
                        } else {
                            assert(self.slots[i] == before.slots[i]);
                            assert(self.slots[j] == before.slots[j]);
                        }
                    }
                    let ghost target = before@.insert((table, key), value@);
                    assert forall|at: (Table, Key)|
                        (#[trigger] self@.dom().contains(at)) == target.dom().contains(at) && (
                        self@.dom().contains(at) ==> self@[at] == target[at]) by {
                        if self@.dom().contains(at) {
                            self.lemma_present(at);
                            let s = self.slot_of(at);
                            if s != n {
                                assert(self.slots[s] == before.slots[s]);
                                before.lemma_slot(s);
                            }
                        }
                        if before@.insert((table, key), value@).dom().contains(at) {
                            if at == (table, key) {
                                self.lemma_slot(n);
                            } else {
                                before.lemma_present(at);
                                let s = before.slot_of(at);
                                assert(self.slots[s] == before.slots[s]);
                                self.lemma_slot(s);
                            }
                        }
                    }
                    assert(self@ =~= target);
                }
            },
        }
    }

    /// Sets each record of a batch, in order.
    pub fn put_many(&mut self, table: Table, entries: &Vec<Entry>)
        requires
            old(self).wf(),
        ensures
            final(self).wf(),
            final(self)@ == put_all(old(self)@, table, entries_view(entries@)),
    {
        let mut i: usize = 0;
        let ghost all = entries_view(entries@);
        while i < entries.len()
            invariant
                i <= entries.len(),
                self.wf(),
                all == entries_view(entries@),
                self@ == put_all(old(self)@, table, all.subrange(0, i as int)),
            decreases entries.len() - i,
        {
            let value = copy_bytes(entries[i].value.as_slice());
            self.put(table, entries[i].key, value);
            proof {
                let upto = all.subrange(0, i + 1);
                assert(upto.drop_last() =~= all.subrange(0, i as int));
                assert(upto.last() == entries[i as int]@);
            }
            i = i + 1;
        }
        assert(all.subrange(0, i as int) =~= all);
    }

    /// The record under `key` in `table`, or `None` where there is none.
    pub fn get(&self, table: Table, key: Key) -> (r: Option<Vec<u8>>)
        requires
            self.wf(),
        ensures
            match r {
                Some(bytes) => self@.dom().contains((table, key)) && bytes@ == self@[(table, key)],
                None => !self@.dom().contains((table, key)),
            },
    {
        match self.find(table, key) {
            Some(i) => Some(copy_bytes(self.slots[i].value.as_slice())),
            None => None,
        }
    }

    /// Whether there is a record under `key` in `table`.
    pub fn includes(&self, table: Table, key: Key) -> (r: bool)
        requires
            self.wf(),
        ensures
            r == self@.dom().contains((table, key)),
    {
        self.find(table, key).is_some()
    }

    /// Removes the record under `key` in `table` and says whether there was one.
    pub fn delete(&mut self, table: Table, key: Key) -> (r: bool)
        requires
            old(self).wf(),
        ensures
            final(self).wf(),
            final(self)@ == old(self)@.remove((table, key)),
            r == old(self)@.dom().contains((table, key)),
    {
        let found = self.find(table, key);
        let ghost before = *self;
        match found {
            Some(i) => {
                self.slots.remove(i);
                proof {
                    assert forall|a: int, b: int| 0 <= a < b < self.slots.len() implies !(
                    #[trigger] self.slots[a].table == #[trigger] self.slots[b].table
                        && self.slots[a].key == self.slots[b].key) by {
                        let a0 = if a < i { a } else { a + 1 };
                        let b0 = if b < i { b } else { b + 1 };
                        assert(self.slots[a] == before.slots[a0]);
                        assert(self.slots[b] == before.slots[b0]);
                    }
                    let ghost target = before@.remove((table, key));
                    assert forall|at: (Table, Key)|
                        (#[trigger] self@.dom().contains(at)) == target.dom().contains(at) && (
                        self@.dom().contains(at) ==> self@[at] == target[at]) by {
                        if self@.dom().contains(at) {
                            self.lemma_present(at);
                            let s = self.slot_of(at);
                            let s0 = if s < i { s } else { s + 1 };
                            assert(self.slots[s] == before.slots[s0]);
                            before.lemma_slot(s0);
                            before.lemma_slot(i as int);
                        }
                        if before@.remove((table, key)).dom().contains(at) {
                            before.lemma_present(at);
                            let s0 = before.slot_of(at);
                            let s = if s0 < i { s0 } else { s0 - 1 };
                            assert(self.slots[s] == before.slots[s0]);
                            self.lemma_slot(s);
                        }
                    }
                    assert(self@ =~= target);
                }
                true
            },
            None => {
                assert(self@ =~= before@.remove((table, key)));
                false
            },
        }
    }

    /// The keys of `table` that hold a record, each once.
    pub fn keys(&self, table: Table) -> (r: Vec<Key>)
        requires
            self.wf(),
        ensures
            r@.no_duplicates(),
            forall|key: Key| r@.contains(key) == self@.dom().contains((table, key)),
    {
        let mut out: Vec<Key> = Vec::new();
        let ghost mut from: Seq<int> = Seq::empty();
        let mut i: usize = 0;
        while i < self.slots.len()
            invariant
                i <= self.slots.len(),
                self.wf(),
                from.len() == out.len(),
                forall|n: int|
                    0 <= n < out.len() ==> 0 <= #[trigger] from[n] < i && self.slots[from[n]].table
                        == table && self.slots[from[n]].key == out[n],
                forall|j: int|
                    0 <= j < i && self.slots[j].table == table ==> out@.contains(
                        #[trigger] self.slots[j].key,
                    ),
                out@.no_duplicates(),
            decreases self.slots.len() - i,
        {
            if self.slots[i].table == table {
                let ghost prior = out@;
                proof {
                    if prior.contains(self.slots[i as int].key) {
                        let n = choose|n: int|
                            0 <= n < prior.len() && prior[n] == self.slots[i as int].key;
                        assert(self.slots[from[n]].table == self.slots[i as int].table);
                    }
                }
                out.push(self.slots[i].key);
                proof {
                    from = from.push(i as int);
                    assert forall|j: int|
                        0 <= j < i + 1 && self.slots[j].table == table implies out@.contains(
                        #[trigger] self.slots[j].key,
                    ) by {
                        if j < i {
                            let n = choose|n: int|
                                0 <= n < prior.len() && prior[n] == self.slots[j].key;
                            assert(out@[n] == self.slots[j].key);
                        } else {
                            assert(out@[prior.len() as int] == self.slots[j].key);
                        }
                    }
                }
            }
            i = i + 1;
        }
        proof {
            assert forall|key: Key| out@.contains(key) == self@.dom().contains((table, key)) by {
                if out@.contains(key) {
                    let n = choose|n: int| 0 <= n < out.len() && out[n] == key;
                    self.lemma_slot(from[n]);
                }
                if self@.dom().contains((table, key)) {
                    self.lemma_present((table, key));
                }
            }
        }
        out
    }

    /// How many records `table` holds.
    pub fn count(&self, table: Table) -> (r: usize)
        requires
            self.wf(),
        ensures
            r == Set::new(|key: Key| self@.dom().contains((table, key))).len(),
    {
        let keys = self.keys(table);
        proof {
            keys@.unique_seq_to_set();
            assert(keys@.to_set() =~= Set::new(|key: Key| self@.dom().contains((table, key))));
        }
        keys.len()
    }
}

struct Link {
    index: Index,
    owner: u64,
    member: Key,
}

/// An index store that keeps its sets in memory.
pub struct IndexStore {
    links: Vec<Link>,
}

impl View for IndexStore {
    type V = Set<(Index, u64, Key)>;

    closed spec fn view(&self) -> Set<(Index, u64, Key)> {
        Set::new(
            |link: (Index, u64, Key)|
                exists|i: int|
                    0 <= i < self.links.len() && Self::names(#[trigger] self.links[i], link),
        )
    }
}

impl IndexStore {
    closed spec fn names(held: Link, link: (Index, u64, Key)) -> bool {
        held.index == link.0 && held.owner == link.1 && held.member == link.2
    }

    /// No link is held twice.
    pub closed spec fn wf(&self) -> bool {
        forall|i: int, j: int|
            0 <= i < j < self.links.len() ==> !Self::names(
                #[trigger] self.links[i],
                (
                    (#[trigger] self.links[j]).index,
                    self.links[j].owner,
                    self.links[j].member,
                ),
            )
    }

    /// A store without sets.
    pub fn new() -> (r: Self)
        ensures
            r.wf(),
            r@ == Set::<(Index, u64, Key)>::empty(),
    {
        let r = IndexStore { links: Vec::new() };
        assert(r@ =~= Set::<(Index, u64, Key)>::empty());
        r
    }

    fn find(&self, index: Index, owner: u64, member: Key) -> (r: Option<usize>)
        ensures
            match r {
                Some(i) => i < self.links.len() && Self::names(
                    self.links[i as int],
                    (index, owner, member),
                ) && self@.contains((index, owner, member)),
                None => !self@.contains((index, owner, member)),
            },
    {
        let mut i: usize = 0;
        while i < self.links.len()
            invariant
                i <= self.links.len(),
                forall|j: int|
                    0 <= j < i ==> !Self::names(#[trigger] self.links[j], (index, owner, member)),
            decreases self.links.len() - i,
        {
            if self.links[i].index == index && self.links[i].owner == owner && self.links[i].member
                == member {
                return Some(i);
            }
            i = i + 1;
        }
        None
    }

    /// Whether `member` is in the set of `owner` in the family `index`.
    pub fn contains(&self, index: Index, owner: u64, member: Key) -> (r: bool)
        ensures
            r == self@.contains((index, owner, member)),
    {
        self.find(index, owner, member).is_some()
    }

    /// Puts `member` into a set; a member that is there already stays once.
    pub fn add(&mut self, index: Index, owner: u64, member: Key)
        requires
            old(self).wf(),
        ensures
            final(self).wf(),
            final(self)@ == old(self)@.insert((index, owner, member)),
    {
        let ghost before = *self;
        match self.find(index, owner, member) {
            Some(_) => {
                assert(self@ =~= before@.insert((index, owner, member)));
            },
            None => {
                self.links.push(Link { index, owner, member });
                proof {
                    let n = before.links.len() as int;
                    assert forall|i: int, j: int| 0 <= i < j < self.links.len() implies !Self::names(
                        #[trigger] self.links[i],
                        (
                            (#[trigger] self.links[j]).index,
                            self.links[j].owner,
                            self.links[j].member,
                        ),
                    ) by {
                        assert(self.links[i] == before.links[i]);
                        if j < n {
                            assert(self.links[j] == before.links[j]);
                        }
                    }
                    let target = before@.insert((index, owner, member));
                    assert forall|link: (Index, u64, Key)| self@.contains(link) == target.contains(
                        link,
                    ) by {
                        if self@.contains(link) {
                            let i = choose|i: int|
                                0 <= i < self.links.len() && Self::names(
                                    #[trigger] self.links[i],
                                    link,
                                );
                            if i < n {
                                assert(self.links[i] == before.links[i]);
                            }
                        }
                        if target.contains(link) {
                            if link == (index, owner, member) {
                                assert(Self::names(self.links[n], link));
                            } else {
                                let i = choose|i: int|
                                    0 <= i < before.links.len() && Self::names(
                                        #[trigger] before.links[i],
                                        link,
                                    );
                                assert(self.links[i] == before.links[i]);
                            }
                        }
                    }
                    assert(self@ =~= target);
                }
            },
        }
    }

    /// Puts each member of a batch into one set.
    pub fn add_many(&mut self, index: Index, owner: u64, members: &Vec<Key>)
        requires
            old(self).wf(),
        ensures
            final(self).wf(),
            final(self)@ == add_all(old(self)@, index, owner, members@),
    {
        let mut i: usize = 0;
        while i < members.len()
            invariant
                i <= members.len(),
                self.wf(),
                self@ == add_all(old(self)@, index, owner, members@.subrange(0, i as int)),
            decreases members.len() - i,
        {
            let ghost prior = self@;
            self.add(index, owner, members[i]);
            proof {
                let upto = members@.subrange(0, i + 1);
                let less = members@.subrange(0, i as int);
                assert forall|link: (Index, u64, Key)| self@.contains(link) == add_all(
                    old(self)@,
                    index,
                    owner,
                    upto,
                ).contains(link) by {
                    if less.contains(link.2) {
                        let n = choose|n: int| 0 <= n < less.len() && less[n] == link.2;
                        assert(upto[n] == link.2);
                    }
                    if upto.contains(link.2) {
                        let n = choose|n: int| 0 <= n < upto.len() && upto[n] == link.2;
                        if n < i {
                            assert(less[n] == link.2);
                        }
                    }
                    assert(upto[i as int] == members[i as int]);
                }
                assert(self@ =~= add_all(old(self)@, index, owner, upto));
            }
            i = i + 1;
        }
        assert(members@.subrange(0, i as int) =~= members@);
    }

    /// Takes `member` out of a set and says whether it was there.
    pub fn remove(&mut self, index: Index, owner: u64, member: Key) -> (r: bool)
        requires
            old(self).wf(),
        ensures
            final(self).wf(),
            final(self)@ == old(self)@.remove((index, owner, member)),
            r == old(self)@.contains((index, owner, member)),
    {
        let ghost before = *self;
        match self.find(index, owner, member) {
            Some(at) => {
                self.links.remove(at);
                proof {
                    assert forall|i: int, j: int| 0 <= i < j < self.links.len() implies !Self::names(
                        #[trigger] self.links[i],
                        (
                            (#[trigger] self.links[j]).index,
                            self.links[j].owner,
                            self.links[j].member,
                        ),
                    ) by {
                        let i0 = if i < at { i } else { i + 1 };
                        let j0 = if j < at { j } else { j + 1 };
                        assert(self.links[i] == before.links[i0]);
                        assert(self.links[j] == before.links[j0]);
                    }
                    let target = before@.remove((index, owner, member));
                    assert forall|link: (Index, u64, Key)| self@.contains(link) == target.contains(
                        link,
                    ) by {
                        if self@.contains(link) {
                            let i = choose|i: int|
                                0 <= i < self.links.len() && Self::names(
                                    #[trigger] self.links[i],
                                    link,
                                );
                            let i0 = if i < at { i } else { i + 1 };
                            assert(self.links[i] == before.links[i0]);
                            assert(Self::names(before.links[i0], link));
                            if link == (index, owner, member) {
                                if i0 < at {
                                    assert(!Self::names(
                                        before.links[i0],
                                        (
                                            before.links[at as int].index,
                                            before.links[at as int].owner,
                                            before.links[at as int].member,
                                        ),
                                    ));
                                } else {
                                    assert(!Self::names(
                                        before.links[at as int],
                                        (
                                            before.links[i0].index,
                                            before.links[i0].owner,
                                            before.links[i0].member,
                                        ),
                                    ));
                                }
                            }
                        }
                        if target.contains(link) {
                            let i0 = choose|i: int|
                                0 <= i < before.links.len() && Self::names(
                                    #[trigger] before.links[i],
                                    link,
                                );
                            let i = if i0 < at { i0 } else { i0 - 1 };
                            assert(self.links[i] == before.links[i0]);
                        }
                    }
                    assert(self@ =~= target);
                }
                true
            },
            None => {
                assert(self@ =~= before@.remove((index, owner, member)));
                false
            },
        }
    }

    /// The members of the set of `owner` in the family `index`, each once.
    pub fn members(&self, index: Index, owner: u64) -> (r: Vec<Key>)
        requires
            self.wf(),
        ensures
            r@.no_duplicates(),
            forall|member: Key| r@.contains(member) == self@.contains((index, owner, member)),
    {
        let mut out: Vec<Key> = Vec::new();
        let ghost mut from: Seq<int> = Seq::empty();
        let mut i: usize = 0;
        while i < self.links.len()
            invariant
                i <= self.links.len(),
                self.wf(),
                from.len() == out.len(),
                forall|n: int|
                    0 <= n < out.len() ==> 0 <= #[trigger] from[n] < i && Self::names(
                        self.links[from[n]],
                        (index, owner, out[n]),
                    ),
                forall|j: int|
                    0 <= j < i && (#[trigger] self.links[j]).index == index && self.links[j].owner
                        == owner ==> out@.contains(self.links[j].member),
                out@.no_duplicates(),
            decreases self.links.len() - i,
        {
            if self.links[i].index == index && self.links[i].owner == owner {
                let ghost prior = out@;
                proof {
                    if prior.contains(self.links[i as int].member) {
                        let n = choose|n: int|
                            0 <= n < prior.len() && prior[n] == self.links[i as int].member;
                        assert(Self::names(
                            self.links[from[n]],
                            (
                                self.links[i as int].index,
                                self.links[i as int].owner,
                                self.links[i as int].member,
                            ),
                        ));
                    }
                }
                out.push(self.links[i].member);
                proof {
                    from = from.push(i as int);
                    assert forall|j: int|
                        0 <= j < i + 1 && (#[trigger] self.links[j]).index == index
                            && self.links[j].owner == owner implies out@.contains(
                        self.links[j].member,
                    ) by {
                        if j < i {
                            let n = choose|n: int|
                                0 <= n < prior.len() && prior[n] == self.links[j].member;
                            assert(out@[n] == self.links[j].member);
                        } else {
                            assert(out@[prior.len() as int] == self.links[j].member);
                        }
                    }
                }
            }
            i = i + 1;
        }
        proof {
            assert forall|member: Key| out@.contains(member) == self@.contains(
                (index, owner, member),
            ) by {
                if out@.contains(member) {
                    let n = choose|n: int| 0 <= n < out.len() && out[n] == member;
                    assert(Self::names(self.links[from[n]], (index, owner, member)));
                }
                if self@.contains((index, owner, member)) {
                    let j = choose|j: int|
                        0 <= j < self.links.len() && Self::names(
                            #[trigger] self.links[j],
                            (index, owner, member),
                        );
                }
            }
        }
        out
    }

    /// How many members the set of `owner` in the family `index` has.
    pub fn size(&self, index: Index, owner: u64) -> (r: usize)
        requires
            self.wf(),
        ensures
            r == Set::new(|member: Key| self@.contains((index, owner, member))).len(),
    {
        let members = self.members(index, owner);
        proof {
            members@.unique_seq_to_set();
            assert(members@.to_set() =~= Set::new(
                |member: Key| self@.contains((index, owner, member)),
            ));
        }
        members.len()
    }

    /// Removes the whole set of `owner` in the family `index` and says whether it had a member.
    pub fn delete(&mut self, index: Index, owner: u64) -> (r: bool)
        requires
            old(self).wf(),
        ensures
            final(self).wf(),
            final(self)@ == clear_set(old(self)@, index, owner),
            r == (exists|member: Key| old(self)@.contains((index, owner, member))),
    {
        let members = self.members(index, owner);
        let mut i: usize = 0;
        while i < members.len()
            invariant
                i <= members.len(),
                self.wf(),
                forall|link: (Index, u64, Key)|
                    self@.contains(link) == (old(self)@.contains(link) && !(link.0 == index
                        && link.1 == owner && members@.subrange(0, i as int).contains(link.2))),
            decreases members.len() - i,
        {
            let ghost prior = self@;
            let ghost less = members@.subrange(0, i as int);
            self.remove(index, owner, members[i]);
            proof {
                let upto = members@.subrange(0, i + 1);
                assert(upto[i as int] == members[i as int]);
                assert forall|link: (Index, u64, Key)|
                    self@.contains(link) == (old(self)@.contains(link) && !(link.0 == index
                        && link.1 == owner && upto.contains(link.2))) by {
                    if less.contains(link.2) {
                        let n = choose|n: int| 0 <= n < less.len() && less[n] == link.2;
                        assert(upto[n] == link.2);
                    }
                    if upto.contains(link.2) {
                        let n = choose|n: int| 0 <= n < upto.len() && upto[n] == link.2;
                        if n < i {
                            assert(less[n] == link.2);
                        }
                    }
                }
            }
            i = i + 1;
        }
        proof {
            assert(members@.subrange(0, i as int) =~= members@);
            assert(self@ =~= clear_set(old(self)@, index, owner));
            if members.len() > 0 {
                assert(members@.contains(members@[0]));
            }
            if exists|member: Key| old(self)@.contains((index, owner, member)) {
                let member = choose|member: Key| old(self)@.contains((index, owner, member));
                assert(members@.contains(member));
            }
        }
        members.len() > 0
    }
}

/// A record store and an index store in memory, with a count of the changes made to them.
pub struct MemoryStore {
    records: RecordStore,
    index: IndexStore,
    writes: usize,
}

impl View for MemoryStore {
    type V = Store;

    closed spec fn view(&self) -> Store {
        Store { records: self.records@, links: self.index@ }
    }
}

impl MemoryStore {
    /// Whether the store is well formed: it holds nothing twice.
    pub closed spec fn wf(&self) -> bool {
        self.records.wf() && self.index.wf()
    }

    /// How many changes were carried out, up to the largest number a `usize` holds.
    pub closed spec fn spec_writes(&self) -> nat {
        self.writes as nat
    }

    /// The count of changes is a machine number.
    pub proof fn lemma_writes_bound(&self)
        ensures
            self.spec_writes() <= usize::MAX,
    {
    }

    /// A store that holds nothing.
    pub fn new() -> (r: Self)
        ensures
            r.wf(),
            r@ == Store::empty(),
            r.spec_writes() == 0,
    {
        MemoryStore { records: RecordStore::new(), index: IndexStore::new(), writes: 0 }
    }

    /// The number of changes carried out so far.
    pub fn writes(&self) -> (r: usize)
        ensures
            r == self.spec_writes(),
    {
        self.writes
    }

    /// The record under `key` in `table`.
    pub fn get_record(&self, table: Table, key: Key) -> (r: Option<Vec<u8>>)
        requires
            self.wf(),
        ensures
            match r {
                Some(bytes) => self@.record(table, key) == Some(bytes@),
                None => self@.record(table, key).is_none(),
            },
    {
        self.records.get(table, key)
    }

    /// The members of the set of `owner` in the family `index`, each once.
    pub fn get_index(&self, index: Index, owner: u64) -> (r: Vec<Key>)
        requires
            self.wf(),
        ensures
            r@.no_duplicates(),
            r@.to_set() == self@.members(index, owner),
    {
        let r = self.index.members(index, owner);
        assert(r@.to_set() =~= self@.members(index, owner));
        r
    }

    /// How many records `table` holds.
    pub fn count(&self, table: Table) -> (r: usize)
        requires
            self.wf(),
        ensures
            r == self@.keys(table).len(),
    {
        let r = self.records.count(table);
        assert(self@.keys(table) =~= Set::new(
            |key: Key| self.records@.dom().contains((table, key)),
        ));
        r
    }

    /// Carries out one change and says what the store reports of it.
    pub fn write(&mut self, write: &Write) -> (r: bool)
        requires
            old(self).wf(),
        ensures
            final(self).wf(),
            final(self)@ == write@.apply(old(self)@),
            r == write@.found(old(self)@),
            final(self).spec_writes() == if old(self).spec_writes() < usize::MAX {
                old(self).spec_writes() + 1
            } else {
                old(self).spec_writes()
            },
    {
        if self.writes < usize::MAX {
            self.writes = self.writes + 1;
        }
        match write {
            Write::Put { table, key, value } => {
                self.records.put(*table, *key, copy_bytes(value.as_slice()));
                true
            },
            Write::PutMany { table, entries } => {
                self.records.put_many(*table, entries);
                true
            },
            Write::Delete { table, key } => self.records.delete(*table, *key),
            Write::Add { index, owner, member } => {
                self.index.add(*index, *owner, *member);
                true
            },
            Write::AddMany { index, owner, members } => {
                self.index.add_many(*index, *owner, members);
                true
            },
            Write::Remove { index, owner, member } => self.index.remove(*index, *owner, *member),
            Write::Clear { index, owner } => {
                let ghost before = self.index@;
                let found = self.index.delete(*index, *owner);
                proof {
                    if found {
                        let member = choose|member: Key| before.contains((*index, *owner, member));
                        assert(old(self)@.links.contains((*index, *owner, member)));
                    }
                }
                found
            },
        }
    }

    /// Carries out one request as the store contract says. It never fails.
    pub fn perform(&mut self, request: &Request) -> (r: Reply)
        requires
            old(self).wf(),
        ensures
            final(self).wf(),
            answers(old(self)@, request@, r@, final(self)@),
            final(self).spec_writes() == if request is Write && old(self).spec_writes()
                < usize::MAX {
                old(self).spec_writes() + 1
            } else {
                old(self).spec_writes()
            },
    {
        match request {
            Request::Write(write) => Reply::Done(self.write(write)),
            Request::Get { table, key } => Reply::Record(self.get_record(*table, *key)),
            Request::Members { index, owner } => Reply::Members(self.get_index(*index, *owner)),
        }
    }
}

} // verus!
