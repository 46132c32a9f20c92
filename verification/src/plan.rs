use crate::codec::{data_wire, Datum, Field, parse_data};
use crate::store::{child_key, clear_set, Index, Key, RequestView, Store, Table, Write, WriteView};
use vstd::prelude::*;

verus! {

/// A new value for one field of a record: the field's position and what it becomes.
#[derive(Clone, Debug, PartialEq, Eq)]
pub struct Change {
    pub at: usize,
    pub to: Field,
}

impl View for Change {
    type V = (int, Datum);

    open spec fn view(&self) -> (int, Datum) {
        (self.at as int, self.to@)
    }
}

/// The views of a list of changes, in order.
pub open spec fn changes_view(changes: Seq<Change>) -> Seq<(int, Datum)> {
    changes.map_values(|c: Change| c@)
}

/// The views of a list of store changes, in order.
pub open spec fn writes_view(writes: Seq<Write>) -> Seq<WriteView> {
    writes.map_values(|w: Write| w@)
}

/// Where a revision looks for a record, what it expects there and what it changes: the record
/// is a list of `arity` fields; the changes are made where it has the values of `given`.
#[derive(Clone, Debug, PartialEq, Eq)]
pub struct Target {
    pub table: Table,
    pub arity: usize,
    pub given: Vec<Change>,
    pub changes: Vec<Change>,
}

/// What a target says, as values.
pub struct TargetView {
    pub table: Table,
    pub arity: nat,
    pub given: Seq<(int, Datum)>,
    pub changes: Seq<(int, Datum)>,
}

impl View for Target {
    type V = TargetView;

    open spec fn view(&self) -> TargetView {
        TargetView {
            table: self.table,
            arity: self.arity as nat,
            given: changes_view(self.given@),
            changes: changes_view(self.changes@),
        }
    }
}

/// The views of a list of targets, in order.
pub open spec fn targets_view(targets: Seq<Target>) -> Seq<TargetView> {
    targets.map_values(|t: Target| t@)
}

/// The fields after each change was made, in order. A change to a position that the record
/// does not have changes nothing.
pub open spec fn changed(data: Seq<Datum>, changes: Seq<(int, Datum)>) -> Seq<Datum>
    decreases changes.len(),
{
    if changes.len() == 0 {
        data
    } else {
        let before = changed(data, changes.drop_last());
        if 0 <= changes.last().0 < before.len() {
            before.update(changes.last().0, changes.last().1)
        } else {
            before
        }
    }
}

/// Whether the record has each of the given values at its position.
pub open spec fn holds(data: Seq<Datum>, given: Seq<(int, Datum)>) -> bool {
    forall|i: int|
        0 <= i < given.len() ==> 0 <= (#[trigger] given[i]).0 < data.len() && data[given[i].0]
            == given[i].1
}

/// The fields of a stored record, where there is one and it is a list of `arity` fields.
pub open spec fn readable(record: Option<Seq<u8>>, arity: nat) -> Option<Seq<Datum>> {
    match record {
        Some(bytes) => match parse_data(bytes) {
            Some(data) => if data.len() == arity {
                Some(data)
            } else {
                None
            },
            None => None,
        },
        None => None,
    }
}

/// One step of a handler's plan. A step makes one request; what the store answers decides
/// which changes follow.
#[derive(Clone, Debug, PartialEq, Eq)]
pub enum Step {
    /// One change, whatever the store holds.
    Write(Write),
    /// Delete a record and, where there was one, take `member` out of a set.
    Retire { table: Table, key: Key, index: Index, owner: u64, member: Key },
    /// Read the members of a set, delete the record of each, then remove the set.
    Sweep { index: Index, owner: u64, table: Table, composite: bool },
    /// Read a record and write it back with some fields changed. The record is looked for
    /// under `key` at `target`, then at each of `fallbacks`; the first table that holds a list
    /// of as many fields as its target expects is taken. Where no table holds such a record,
    /// `otherwise` is written to the last one that was tried. Nothing is written where the bytes
    /// would stay the same; where the record is written, `then` follows.
    Revise {
        target: Target,
        fallbacks: Vec<Target>,
        key: Key,
        otherwise: Option<Vec<u8>>,
        then: Vec<Write>,
    },
    /// Read a record and, where it is `value` byte for byte, leave out the next `span` steps.
    Guard { table: Table, key: Key, value: Vec<u8>, span: usize },
    /// Take `member` out of a set; where no other member is left, delete the record under `key`
    /// and remove the set.
    Unlink { index: Index, owner: u64, member: Key, table: Table, key: Key },
}

/// What a step says, as values.
pub enum StepView {
    Write(WriteView),
    Retire { table: Table, key: Key, index: Index, owner: u64, member: Key },
    Sweep { index: Index, owner: u64, table: Table, composite: bool },
    Revise {
        target: TargetView,
        fallbacks: Seq<TargetView>,
        key: Key,
        otherwise: Option<Seq<u8>>,
        then: Seq<WriteView>,
    },
    Guard { table: Table, key: Key, value: Seq<u8>, span: nat },
    Unlink { index: Index, owner: u64, member: Key, table: Table, key: Key },
}

impl View for Step {
    type V = StepView;

    open spec fn view(&self) -> StepView {
        match *self {
            Step::Write(write) => StepView::Write(write@),
            Step::Retire { table, key, index, owner, member } => StepView::Retire {
                table,
                key,
                index,
                owner,
                member,
            },
            Step::Sweep { index, owner, table, composite } => StepView::Sweep {
                index,
                owner,
                table,
                composite,
            },
            Step::Revise { target, fallbacks, key, otherwise, then } => {
                StepView::Revise {
                    target: target@,
                    fallbacks: targets_view(fallbacks@),
                    key,
                    otherwise: match otherwise {
                        Some(bytes) => Some(bytes@),
                        None => None,
                    },
                    then: writes_view(then@),
                }
            },
            Step::Guard { table, key, value, span } => StepView::Guard {
                table,
                key,
                value: value@,
                span: span as nat,
            },
            Step::Unlink { index, owner, member, table, key } => StepView::Unlink {
                index,
                owner,
                member,
                table,
                key,
            },
        }
    }
}

/// The views of the steps of a plan, in order.
pub open spec fn steps_view(steps: Seq<Step>) -> Seq<StepView> {
    steps.map_values(|s: Step| s@)
}

/// What a revision writes, and to which table: nothing where the bytes stay the same or where
/// there is neither a record to change nor bytes to write in its place.
pub open spec fn revision(
    store: Store,
    target: TargetView,
    fallbacks: Seq<TargetView>,
    key: Key,
    otherwise: Option<Seq<u8>>,
) -> Option<(Table, Seq<u8>)>
    decreases fallbacks.len(),
{
    match readable(store.record(target.table, key), target.arity) {
        Some(data) => {
            let old = store.records[(target.table, key)];
            let new = if holds(data, target.given) {
                data_wire(changed(data, target.changes))
            } else {
                old
            };
            if new == old {
                None
            } else {
                Some((target.table, new))
            }
        },
        None => if fallbacks.len() > 0 {
            revision(store, fallbacks.first(), fallbacks.drop_first(), key, otherwise)
        } else {
            match otherwise {
                Some(bytes) => Some((target.table, bytes)),
                None => None,
            }
        },
    }
}

/// The records that a sweep deletes: under each member of the set, the record of that member.
pub open spec fn swept(store: Store, index: Index, owner: u64, table: Table, composite: bool) -> Set<
    (Table, Key),
> {
    Set::new(
        |at: (Table, Key)|
            at.0 == table && exists|member: Key|
                store.links.contains((index, owner, member)) && at.1 == child_key(
                    owner,
                    member,
                    composite,
                ),
    )
}

/// Whether the set has no member but `member`.
pub open spec fn lone(store: Store, index: Index, owner: u64, member: Key) -> bool {
    forall|other: Key| store.links.contains((index, owner, other)) ==> other == member
}

impl StepView {
    /// The request that the step makes first.
    pub open spec fn request(self) -> RequestView {
        match self {
            StepView::Write(write) => RequestView::Write(write),
            StepView::Retire { table, key, .. } => RequestView::Write(
                WriteView::Delete { table, key },
            ),
            StepView::Sweep { index, owner, .. } => RequestView::Members { index, owner },
            StepView::Revise { target, key, .. } => RequestView::Get { table: target.table, key },
            StepView::Guard { table, key, .. } => RequestView::Get { table, key },
            StepView::Unlink { index, owner, .. } => RequestView::Members { index, owner },
        }
    }

    /// The store after the step.
    pub open spec fn after(self, store: Store) -> Store {
        match self {
            StepView::Write(write) => write.apply(store),
            StepView::Retire { table, key, index, owner, member } => {
                let deleted = WriteView::Delete { table, key }.apply(store);
                if store.records.dom().contains((table, key)) {
                    WriteView::Remove { index, owner, member }.apply(deleted)
                } else {
                    deleted
                }
            },
            StepView::Sweep { index, owner, table, composite } => Store {
                records: store.records.remove_keys(swept(store, index, owner, table, composite)),
                links: clear_set(store.links, index, owner),
            },
            StepView::Revise { target, fallbacks, key, otherwise, then } => {
                match revision(store, target, fallbacks, key, otherwise) {
                    Some((to, bytes)) => crate::store::apply_all(
                        then,
                        WriteView::Put { table: to, key, value: bytes }.apply(store),
                    ),
                    None => store,
                }
            },
            StepView::Guard { .. } => store,
            StepView::Unlink { index, owner, member, table, key } => {
                if lone(store, index, owner, member) {
                    Store {
                        records: store.records.remove((table, key)),
                        links: clear_set(store.links, index, owner),
                    }
                } else {
                    WriteView::Remove { index, owner, member }.apply(store)
                }
            },
        }
    }

    /// How many changes the step makes.
    pub open spec fn tally(self, store: Store) -> nat {
        match self {
            StepView::Write(_) => 1,
            StepView::Retire { table, key, .. } => if store.records.dom().contains((table, key)) {
                2
            } else {
                1
            },
            StepView::Sweep { index, owner, .. } => store.members(index, owner).len() + 1,
            StepView::Revise { target, fallbacks, key, otherwise, then } => {
                match revision(store, target, fallbacks, key, otherwise) {
                    Some(_) => 1 + then.len(),
                    None => 0,
                }
            },
            StepView::Guard { .. } => 0,
            StepView::Unlink { index, owner, member, .. } => if lone(store, index, owner, member) {
                2
            } else {
                1
            },
        }
    }

    /// How many of the steps that follow are left out.
    pub open spec fn skips(self, store: Store) -> nat {
        match self {
            StepView::Guard { table, key, value, span } => if store.record(table, key) == Some(
                value,
            ) {
                span
            } else {
                0
            },
            _ => 0,
        }
    }

    /// How many reads the step may take.
    pub open spec fn effort(self) -> nat {
        match self {
            StepView::Write(_) => 0,
            StepView::Revise { fallbacks, .. } => 1 + fallbacks.len(),
            _ => 1,
        }
    }
}

/// The steps that are left after the first one, which leaves out `skip` of them.
pub open spec fn remaining(steps: Seq<StepView>, skip: nat) -> Seq<StepView> {
    if 1 + skip <= steps.len() {
        steps.subrange(1 + skip as int, steps.len() as int)
    } else {
        Seq::empty()
    }
}

/// The store after a plan was carried out on `store`.
pub open spec fn run(steps: Seq<StepView>, store: Store) -> Store
    decreases steps.len(),
{
    if steps.len() == 0 {
        store
    } else {
        run(remaining(steps, steps.first().skips(store)), steps.first().after(store))
    }
}

/// How many changes a plan makes when it is carried out on `store`.
pub open spec fn count(steps: Seq<StepView>, store: Store) -> nat
    decreases steps.len(),
{
    if steps.len() == 0 {
        0
    } else {
        steps.first().tally(store) + count(
            remaining(steps, steps.first().skips(store)),
            steps.first().after(store),
        )
    }
}

/// How many reads a plan may take.
pub open spec fn effort(steps: Seq<StepView>) -> nat
    decreases steps.len(),
{
    if steps.len() == 0 {
        0
    } else {
        steps.first().effort() + effort(steps.drop_first())
    }
}

} // verus!
