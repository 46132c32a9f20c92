use crate::cache::InRedisCache;
use crate::codec::{data_wire, Datum, Field};
use crate::model::User;
use crate::plan::{changes_view, steps_view, Change, Step, StepView, Target, TargetView};
use crate::record::{encode_scoped, scoped_wire, Identified, Record};
use crate::store::{Entry, Index, Key, Table, Write, WriteView, UNSCOPED};
use vstd::prelude::*;

pub mod channel;
pub mod emoji;
pub mod guild;
pub mod integration;
pub mod member;
pub mod message;
pub mod presence;
pub mod role;
pub mod stage_instance;
pub mod thread;

verus! {

/// The key of a child of `owner`: the pair of both where the table is keyed by parent and
/// child, else the child alone.
pub open spec fn key_under(owner: u64, id: u64, composite: bool) -> Key {
    if composite {
        Key::Pair(owner, id)
    } else {
        Key::Id(id)
    }
}

/// The bytes of a child of `owner`: with the owner in front where the record is stored so.
pub open spec fn wire_under<T: Record>(owner: u64, item: T, scoped: bool) -> Seq<u8> {
    if scoped {
        scoped_wire(owner, item.data())
    } else {
        data_wire(item.data())
    }
}

/// The records of a batch of children of `owner`, each under its key.
pub open spec fn batch_entries<T: Identified>(
    owner: u64,
    items: Seq<T>,
    scoped: bool,
    composite: bool,
) -> Seq<(Key, Seq<u8>)> {
    items.map_values(
        |item: T| (key_under(owner, item.ident(), composite), wire_under(owner, item, scoped)),
    )
}

/// The identifiers of a batch, as members of a set.
pub open spec fn batch_members<T: Identified>(items: Seq<T>) -> Seq<Key> {
    items.map_values(|item: T| Key::Id(item.ident()))
}

/// The plan that stores a batch of children of `owner`: one change that sets all their records
/// and one that puts them all into the owner's set. An empty batch takes no step.
pub open spec fn batch_plan<T: Identified>(
    table: Table,
    index: Index,
    owner: u64,
    items: Seq<T>,
    scoped: bool,
    composite: bool,
) -> Seq<StepView> {
    if items.len() == 0 {
        Seq::empty()
    } else {
        seq![
            StepView::Write(
                WriteView::PutMany { table, entries: batch_entries(owner, items, scoped, composite) },
            ),
            StepView::Write(WriteView::AddMany { index, owner, members: batch_members(items) }),
        ]
    }
}

/// The plan that stores one child of `owner`: its record, then its place in the owner's set.
pub open spec fn upsert_plan<T: Identified>(
    table: Table,
    index: Index,
    owner: u64,
    item: T,
    scoped: bool,
    composite: bool,
) -> Seq<StepView> {
    seq![
        StepView::Write(
            WriteView::Put {
                table,
                key: key_under(owner, item.ident(), composite),
                value: wire_under(owner, item, scoped),
            },
        ),
        StepView::Write(WriteView::Add { index, owner, member: Key::Id(item.ident()) }),
    ]
}

/// The plan that removes one child of `owner`: its record and, where there was one, its place
/// in the owner's set.
pub open spec fn retire_plan(table: Table, index: Index, owner: u64, id: u64, composite: bool) -> Seq<
    StepView,
> {
    seq![
        StepView::Retire {
            table,
            key: key_under(owner, id, composite),
            index,
            owner,
            member: Key::Id(id),
        },
    ]
}

fn key_for(owner: u64, id: u64, composite: bool) -> (r: Key)
    ensures
        r == key_under(owner, id, composite),
{
    if composite {
        Key::Pair(owner, id)
    } else {
        Key::Id(id)
    }
}

fn wire_for<T: Record>(owner: u64, item: &T, scoped: bool) -> (r: Vec<u8>)
    ensures
        r@ == wire_under(owner, *item, scoped),
{
    if scoped {
        encode_scoped(owner, item)
    } else {
        crate::record::encode(item)
    }
}

pub(crate) fn batch<T: Identified>(
    table: Table,
    index: Index,
    owner: u64,
    items: &Vec<T>,
    scoped: bool,
    composite: bool,
) -> (r: Vec<Step>)
    ensures
        steps_view(r@) == batch_plan(table, index, owner, items@, scoped, composite),
{
    let mut plan: Vec<Step> = Vec::new();
    if items.len() == 0 {
        assert(steps_view(plan@) =~= batch_plan(table, index, owner, items@, scoped, composite));
        return plan;
    }
    let mut entries: Vec<Entry> = Vec::new();
    let mut members: Vec<Key> = Vec::new();
    let ghost all_entries = batch_entries(owner, items@, scoped, composite);
    let ghost all_members = batch_members(items@);
    let mut i: usize = 0;
    while i < items.len()
        invariant
            i <= items.len(),
            all_entries == batch_entries(owner, items@, scoped, composite),
            all_members == batch_members(items@),
            crate::store::entries_view(entries@) == all_entries.subrange(0, i as int),
            members@ == all_members.subrange(0, i as int),
        decreases items.len() - i,
    {
        let id = items[i].id();
        let entry = Entry { key: key_for(owner, id, composite), value: wire_for(owner, &items[i], scoped) };
        let ghost prior = crate::store::entries_view(entries@);
        let ghost added = entry@;
        assert(added == all_entries[i as int]);
        entries.push(entry);
        assert(crate::store::entries_view(entries@) =~= prior.push(added));
        members.push(Key::Id(id));
        i = i + 1;
        assert(crate::store::entries_view(entries@) =~= all_entries.subrange(0, i as int));
        assert(members@ =~= all_members.subrange(0, i as int));
    }
    assert(all_entries.subrange(0, i as int) =~= all_entries);
    assert(all_members.subrange(0, i as int) =~= all_members);
    plan.push(Step::Write(Write::PutMany { table, entries }));
    plan.push(Step::Write(Write::AddMany { index, owner, members }));
    assert(steps_view(plan@) =~= batch_plan(table, index, owner, items@, scoped, composite));
    plan
}

pub(crate) fn upsert<T: Identified>(
    table: Table,
    index: Index,
    owner: u64,
    item: &T,
    scoped: bool,
    composite: bool,
) -> (r: Vec<Step>)
    ensures
        steps_view(r@) == upsert_plan(table, index, owner, *item, scoped, composite),
{
    let mut plan: Vec<Step> = Vec::new();
    let id = item.id();
    plan.push(
        Step::Write(
            Write::Put {
                table,
                key: key_for(owner, id, composite),
                value: wire_for(owner, item, scoped),
            },
        ),
    );
    plan.push(Step::Write(Write::Add { index, owner, member: Key::Id(id) }));
    assert(steps_view(plan@) =~= upsert_plan(table, index, owner, *item, scoped, composite));
    plan
}

pub(crate) fn retire(table: Table, index: Index, owner: u64, id: u64, composite: bool) -> (r: Vec<Step>)
    ensures
        steps_view(r@) == retire_plan(table, index, owner, id, composite),
{
    let mut plan: Vec<Step> = Vec::new();
    plan.push(
        Step::Retire {
            table,
            key: key_for(owner, id, composite),
            index,
            owner,
            member: Key::Id(id),
        },
    );
    assert(steps_view(plan@) =~= retire_plan(table, index, owner, id, composite));
    plan
}

/// The plan that stores a user seen through `guild_id`: the user's record, unless the store
/// holds the same bytes already, and the guild in the set of guilds that the user is seen
/// through.
pub open spec fn user_plan(user: User, guild_id: Option<u64>) -> Seq<StepView> {
    let value = data_wire(user.data());
    let record = seq![
        StepView::Guard { table: Table::Users, key: Key::Id(user.id), value, span: 1 },
        StepView::Write(WriteView::Put { table: Table::Users, key: Key::Id(user.id), value }),
    ];
    match guild_id {
        Some(guild_id) => record.push(
            StepView::Write(
                WriteView::Add {
                    index: Index::UserGuilds,
                    owner: user.id,
                    member: Key::Id(guild_id),
                },
            ),
        ),
        None => record,
    }
}

/// The plan that marks a guild as unavailable: its identifier goes into the set of unavailable
/// guilds and its record is removed.
pub open spec fn unavailable_plan(guild_id: u64) -> Seq<StepView> {
    seq![
        StepView::Write(
            WriteView::Add {
                index: Index::UnavailableGuilds,
                owner: UNSCOPED,
                member: Key::Id(guild_id),
            },
        ),
        StepView::Write(WriteView::Delete { table: Table::Guilds, key: Key::Id(guild_id) }),
    ]
}

impl InRedisCache {
    /// The plan that stores a user seen through `guild_id`, unless the store holds the same user
    /// already.
    pub fn cache_user(&self, user: &User, guild_id: Option<u64>) -> (r: Vec<Step>)
        ensures
            steps_view(r@) == user_plan(*user, guild_id),
    {
        let mut plan: Vec<Step> = Vec::new();
        plan.push(
            Step::Guard { table: Table::Users, key: Key::Id(user.id), value: crate::record::encode(user), span: 1 },
        );
        plan.push(
            Step::Write(
                Write::Put { table: Table::Users, key: Key::Id(user.id), value: crate::record::encode(user) },
            ),
        );
        match guild_id {
            Some(guild_id) => {
                plan.push(
                    Step::Write(
                        Write::Add {
                            index: Index::UserGuilds,
                            owner: user.id,
                            member: Key::Id(guild_id),
                        },
                    ),
                );
            },
            None => {},
        }
        assert(steps_view(plan@) =~= user_plan(*user, guild_id));
        plan
    }

    /// The plan that marks a guild as unavailable.
    pub fn unavailable_guild(&self, guild_id: u64) -> (r: Vec<Step>)
        ensures
            steps_view(r@) == unavailable_plan(guild_id),
    {
        let mut plan: Vec<Step> = Vec::new();
        plan.push(
            Step::Write(
                Write::Add {
                    index: Index::UnavailableGuilds,
                    owner: UNSCOPED,
                    member: Key::Id(guild_id),
                },
            ),
        );
        plan.push(Step::Write(Write::Delete { table: Table::Guilds, key: Key::Id(guild_id) }));
        assert(steps_view(plan@) =~= unavailable_plan(guild_id));
        plan
    }
}

/// What an optional new value comes to: one change, or none.
pub open spec fn maybe(at: int, to: Option<Datum>) -> Seq<(int, Datum)> {
    match to {
        Some(to) => seq![(at, to)],
        None => Seq::empty(),
    }
}

/// What an optional field holds.
pub open spec fn datum_of(field: Option<Field>) -> Option<Datum> {
    match field {
        Some(field) => Some(field@),
        None => None,
    }
}

/// Notes that the field at `at` becomes `to`.
pub(crate) fn change(changes: &mut Vec<Change>, at: usize, to: Field)
    ensures
        changes_view(final(changes)@) == changes_view(old(changes)@).push((at as int, to@)),
{
    changes.push(Change { at, to });
    assert(changes_view(changes@) =~= changes_view(old(changes)@).push((at as int, to@)));
}

/// Notes that the field at `at` becomes `to`, where there is a new value.
pub(crate) fn change_if(changes: &mut Vec<Change>, at: usize, to: Option<Field>)
    ensures
        changes_view(final(changes)@) == changes_view(old(changes)@) + maybe(
            at as int,
            datum_of(to),
        ),
{
    match to {
        Some(to) => {
            changes.push(Change { at, to });
            assert(changes_view(changes@) =~= changes_view(old(changes)@) + maybe(
                at as int,
                datum_of(Some(to)),
            ));
        },
        None => {
            assert(changes_view(changes@) =~= changes_view(old(changes)@) + maybe(
                at as int,
                datum_of(None),
            ));
        },
    }
}

/// The plan that changes fields of the record under `key` in `table`, where the store holds
/// a record of `arity` fields there, and does nothing where it holds none.
pub open spec fn patch_plan(table: Table, arity: nat, key: Key, changes: Seq<(int, Datum)>) -> Seq<
    StepView,
> {
    seq![
        StepView::Revise {
            target: TargetView { table, arity, given: Seq::empty(), changes },
            fallbacks: Seq::empty(),
            key,
            otherwise: None,
            then: Seq::empty(),
        },
    ]
}

pub(crate) fn patch(table: Table, arity: usize, key: Key, changes: Vec<Change>) -> (r: Vec<Step>)
    ensures
        steps_view(r@) == patch_plan(table, arity as nat, key, changes_view(changes@)),
{
    let mut plan: Vec<Step> = Vec::new();
    let target = Target { table, arity, given: Vec::new(), changes };
    assert(target@.given =~= Seq::empty());
    let step = Step::Revise {
        target,
        fallbacks: Vec::new(),
        key,
        otherwise: None,
        then: Vec::new(),
    };
    assert(step@ == patch_plan(table, arity as nat, key, changes_view(changes@))[0]) by {
        assert(step@->Revise_fallbacks =~= Seq::empty());
        assert(step@->Revise_then =~= Seq::empty());
    }
    plan.push(step);
    assert(steps_view(plan@) =~= patch_plan(table, arity as nat, key, changes_view(changes@)));
    plan
}

/// The field that an optional number sets, where there is one.
pub open spec fn num_datum(value: Option<u64>) -> Option<Datum> {
    match value {
        Some(v) => Some(Datum::Num(v)),
        None => None,
    }
}

/// The field that an optional text sets, where there is one.
pub open spec fn text_datum(value: Option<String>) -> Option<Datum> {
    match value {
        Some(t) => Some(Datum::Text(t@)),
        None => None,
    }
}

/// The field that optional bytes set, where there are any.
pub open spec fn blob_datum(value: Option<Vec<u8>>) -> Option<Datum> {
    match value {
        Some(b) => Some(Datum::Blob(b@)),
        None => None,
    }
}

/// The field that an optional list of identifiers sets, where there is one.
pub open spec fn ids_datum(value: Option<Vec<u64>>) -> Option<Datum> {
    match value {
        Some(ids) => Some(Datum::Ids(ids@)),
        None => None,
    }
}

pub(crate) fn num_field(value: Option<u64>) -> (r: Option<Field>)
    ensures
        datum_of(r) == num_datum(value),
{
    match value {
        Some(v) => Some(Field::Num(v)),
        None => None,
    }
}

pub(crate) fn text_field(value: &Option<String>) -> (r: Option<Field>)
    ensures
        datum_of(r) == text_datum(*value),
{
    match value {
        Some(t) => Some(Field::Text(t.clone())),
        None => None,
    }
}

pub(crate) fn blob_field(value: &Option<Vec<u8>>) -> (r: Option<Field>)
    ensures
        datum_of(r) == blob_datum(*value),
{
    match value {
        Some(b) => Some(crate::record::field_blob(b)),
        None => None,
    }
}

pub(crate) fn ids_field(value: &Option<Vec<u64>>) -> (r: Option<Field>)
    ensures
        datum_of(r) == ids_datum(*value),
{
    match value {
        Some(ids) => Some(crate::record::field_ids(ids)),
        None => None,
    }
}

/// The fields of a child of `owner` as it is stored: with the owner in front where the
/// record is stored so.
pub open spec fn data_under<T: Record>(owner: u64, item: T, scoped: bool) -> Seq<Datum> {
    if scoped {
        seq![Datum::Num(owner)] + item.data()
    } else {
        item.data()
    }
}

/// Every field of a record as a change at its own position.
pub open spec fn all_changes(data: Seq<Datum>) -> Seq<(int, Datum)> {
    Seq::new(data.len(), |i: int| (i, data[i]))
}

/// The plan for a child of `owner` that has changed: where the store holds a record of the
/// child, every field of it is set to what the event carries; where it holds none, nothing
/// is written. No set is touched.
pub open spec fn replace_plan<T: Identified>(
    table: Table,
    owner: u64,
    item: T,
    scoped: bool,
    composite: bool,
) -> Seq<StepView> {
    patch_plan(
        table,
        data_under(owner, item, scoped).len(),
        key_under(owner, item.ident(), composite),
        all_changes(data_under(owner, item, scoped)),
    )
}

/// The fields of a list, each as a change at its own position.
fn changes_of(fields: Vec<Field>) -> (r: Vec<Change>)
    ensures
        changes_view(r@) == all_changes(crate::codec::data_of(fields@)),
{
    let mut fields = fields;
    let ghost data = crate::codec::data_of(fields@);
    let ghost wanted = all_changes(data);
    let mut changes: Vec<Change> = Vec::new();
    let mut at: usize = 0;
    assert(data.len() == fields.len());
    assert(changes_view(changes@) =~= wanted.subrange(0, 0));
    assert(crate::codec::data_of(fields@) =~= data.subrange(0, data.len() as int));
    while fields.len() > 0
        invariant
            wanted == all_changes(data),
            data.len() <= usize::MAX,
            at + fields.len() == data.len(),
            crate::codec::data_of(fields@) == data.subrange(at as int, data.len() as int),
            changes_view(changes@) == wanted.subrange(0, at as int),
        decreases fields.len(),
    {
        let ghost held = fields@;
        let ghost left = crate::codec::data_of(fields@);
        let ghost done = changes_view(changes@);
        let field = fields.remove(0);
        assert(field@ == left[0]);
        assert(fields@ =~= held.subrange(1, held.len() as int));
        assert forall|j: int| 0 <= j < fields.len() implies crate::codec::data_of(fields@)[j]
            == data[at + 1 + j] by {
            assert(fields@[j] == held[j + 1]);
            assert(left[j + 1] == data[at + 1 + j]);
        }
        assert(crate::codec::data_of(fields@) =~= data.subrange(at + 1, data.len() as int));
        let ghost added = (at as int, field@);
        changes.push(Change { at, to: field });
        assert(changes_view(changes@) =~= done.push(added));
        at = at + 1;
        assert(changes_view(changes@) =~= wanted.subrange(0, at as int));
    }
    assert(wanted.subrange(0, at as int) =~= wanted);
    changes
}

pub(crate) fn replace<T: Identified>(
    table: Table,
    owner: u64,
    item: &T,
    scoped: bool,
    composite: bool,
) -> (r: Vec<Step>)
    ensures
        steps_view(r@) == replace_plan(table, owner, *item, scoped, composite),
{
    let mut fields: Vec<Field> = Vec::new();
    if scoped {
        fields.push(Field::Num(owner));
    }
    let mut rest = item.fields();
    let ghost tail = rest@;
    fields.append(&mut rest);
    assert(crate::codec::data_of(fields@) =~= data_under(owner, *item, scoped));
    let arity = fields.len();
    patch(table, arity, key_for(owner, item.id(), composite), changes_of(fields))
}

} // verus!
