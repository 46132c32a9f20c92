use crate::cache::UpdateCache;
use crate::codec::{data_wire, Datum, datum_fits, lemma_round_trip, parse_data};
use crate::config::ResourceKind;
use crate::dispatch::Event;
use crate::effects::lemma_run_first;
use crate::event::{
    all_changes, data_under, batch_entries, batch_members, batch_plan, key_under, patch_plan, retire_plan, upsert_plan,
    user_plan, wire_under,
};
use crate::event::channel::{Channel, guild_channels_plan, pins_plan, stamped};
use crate::event::guild::{cascade_kinds, cascade_of, guild_delete_plan, sweep_for, sweeps};
use crate::event::member::member_remove_plan;
use crate::model::{
    GuildChannel, CHANNEL_FIELDS, GROUP_FIELDS, GUILD_FIELDS, MEMBER_FIELDS, MESSAGE_FIELDS, PRIVATE_FIELDS, User,
};
use crate::plan::{
    changed, count, holds, lone, readable, remaining, revision, run, StepView, swept, TargetView,
};
use crate::record::{all_fit, Identified, Record};
use crate::store::{
    add_all, child_key, Index, Key, put_all, Store, Table, UNSCOPED, WriteView,
};
use vstd::prelude::*;

verus! {

/// Whether no step of a plan leaves out steps that follow it.
pub open spec fn plain(plan: Seq<StepView>) -> bool {
    forall|i: int| 0 <= i < plan.len() ==> !(#[trigger] plan[i] is Guard)
}

/// A plan without tests, followed by another, does what the two do one after the other.
pub proof fn lemma_run_concat(a: Seq<StepView>, b: Seq<StepView>, store: Store)
    requires
        plain(a),
    ensures
        run(a + b, store) == run(b, run(a, store)),
        count(a + b, store) == count(a, store) + count(b, run(a, store)),
    decreases a.len(),
{
    if a.len() == 0 {
        assert(a + b =~= b);
    } else {
        let first = a.first();
        assert(!(a[0] is Guard));
        assert((a + b).first() == first);
        assert(remaining(a + b, 0) =~= a.drop_first() + b);
        assert(remaining(a, 0) =~= a.drop_first());
        assert forall|i: int| 0 <= i < a.drop_first().len() implies !(
        #[trigger] a.drop_first()[i] is Guard) by {
            assert(a.drop_first()[i] == a[i + 1]);
        }
        lemma_run_concat(a.drop_first(), b, first.after(store));
    }
}

/// A plan of one step that leaves nothing out.
pub proof fn lemma_run_one(step: StepView, store: Store)
    requires
        step.skips(store) == 0,
    ensures
        run(seq![step], store) == step.after(store),
        count(seq![step], store) == step.tally(store),
{
    lemma_run_first(step, Seq::empty(), store);
    assert(seq![step] + Seq::<StepView>::empty() =~= seq![step]);
}

/// The positions that a list of changes names.
pub open spec fn positions(changes: Seq<(int, Datum)>) -> Set<int> {
    Set::new(|at: int| exists|i: int| 0 <= i < changes.len() && (#[trigger] changes[i]).0 == at)
}

/// Changes keep the number of fields, and every field at a position that they do not name.
pub proof fn lemma_changed(data: Seq<Datum>, changes: Seq<(int, Datum)>)
    ensures
        changed(data, changes).len() == data.len(),
        forall|at: int|
            0 <= at < data.len() && !positions(changes).contains(at) ==> changed(data, changes)[at]
                == data[at],
        all_fit(data) && (forall|i: int|
            0 <= i < changes.len() ==> datum_fits((#[trigger] changes[i]).1)) ==> all_fit(
            changed(data, changes),
        ),
    decreases changes.len(),
{
    if changes.len() > 0 {
        let less = changes.drop_last();
        lemma_changed(data, less);
        assert forall|at: int|
            0 <= at < data.len() && !positions(changes).contains(at) implies changed(
            data,
            changes,
        )[at] == data[at] by {
            assert(changes.last() == changes[changes.len() - 1]);
            if positions(less).contains(at) {
                let i = choose|i: int| 0 <= i < less.len() && (#[trigger] less[i]).0 == at;
                assert(changes[i] == less[i]);
            }
        }
        if all_fit(data) && (forall|i: int|
            0 <= i < changes.len() ==> datum_fits((#[trigger] changes[i]).1)) {
            assert forall|i: int| 0 <= i < less.len() implies datum_fits(
                (#[trigger] less[i]).1,
            ) by {
                assert(less[i] == changes[i]);
            }
            assert(datum_fits(changes[changes.len() - 1].1));
        }
    }
}

/// Absent-update no-op: an update of a record that the store does not hold, or holds in
/// another shape, changes nothing and writes nothing.
pub proof fn law_absent_update(
    table: Table,
    arity: nat,
    key: Key,
    changes: Seq<(int, Datum)>,
    store: Store,
)
    requires
        readable(store.record(table, key), arity) is None,
    ensures
        run(patch_plan(table, arity, key, changes), store) == store,
        count(patch_plan(table, arity, key, changes), store) == 0,
{
    let step = patch_plan(table, arity, key, changes)[0];
    lemma_run_one(step, store);
    assert(patch_plan(table, arity, key, changes) =~= seq![step]);
}

/// Patch preservation: an update of a record that the store holds leaves the record with the
/// fields that the update sets changed and every other field as it was; no other record and
/// no set changes.
pub proof fn law_patch_preserves(
    table: Table,
    arity: nat,
    key: Key,
    changes: Seq<(int, Datum)>,
    store: Store,
)
    requires
        readable(store.record(table, key), arity) is Some,
        forall|i: int| 0 <= i < changes.len() ==> datum_fits((#[trigger] changes[i]).1),
    ensures
        ({
            let before = readable(store.record(table, key), arity).unwrap();
            let after = run(patch_plan(table, arity, key, changes), store);
            let now = readable(after.record(table, key), arity);
            &&& now == Some(changed(before, changes))
            &&& now.unwrap().len() == before.len()
            &&& forall|at: int|
                0 <= at < before.len() && !positions(changes).contains(at) ==> now.unwrap()[at]
                    == before[at]
            &&& after.links == store.links
            &&& forall|other: (Table, Key)|
                other != (table, key) ==> after.record(other.0, other.1) == store.record(
                    other.0,
                    other.1,
                )
        }),
{
    let plan = patch_plan(table, arity, key, changes);
    let step = plan[0];
    lemma_run_one(step, store);
    assert(plan =~= seq![step]);
    let before = readable(store.record(table, key), arity).unwrap();
    let bytes = store.records[(table, key)];
    assert(holds(before, Seq::empty()));
    crate::codec::lemma_parse_exact(bytes);
    lemma_changed(before, changes);
    lemma_round_trip(changed(before, changes));
    let after = run(plan, store);
    let target = TargetView { table, arity, given: Seq::empty(), changes };
    match revision(store, target, Seq::empty(), key, None) {
        Some((to, new)) => {
            assert(crate::store::apply_all(
                Seq::empty(),
                (WriteView::Put { table: to, key, value: new }).apply(store),
            ) == (WriteView::Put { table: to, key, value: new }).apply(store));
            assert(after.records =~= store.records.insert((table, key), new));
        },
        None => {},
    }
}

/// Global-resource pruning: when a user leaves a guild, the guild leaves the set of guilds
/// that the user is seen through; the user's record is deleted, and the set removed, where
/// that set has no other guild, and the record stays as it is where it has.
pub proof fn law_pruning(guild_id: u64, user_id: u64, store: Store)
    ensures
        ({
            let after = run(member_remove_plan(guild_id, user_id), store);
            let seen = store.members(Index::UserGuilds, user_id);
            if seen.subset_of(set![Key::Id(guild_id)]) {
                &&& after.record(Table::Users, Key::Id(user_id)) is None
                &&& after.members(Index::UserGuilds, user_id) == Set::<Key>::empty()
            } else {
                &&& after.record(Table::Users, Key::Id(user_id)) == store.record(
                    Table::Users,
                    Key::Id(user_id),
                )
                &&& after.members(Index::UserGuilds, user_id) == seen.remove(Key::Id(guild_id))
            }
        }),
{
    let plan = member_remove_plan(guild_id, user_id);
    let retire = plan[0];
    let unlink = plan[1];
    assert(plan =~= seq![retire] + seq![unlink]);
    assert(plain(seq![retire]));
    lemma_run_concat(seq![retire], seq![unlink], store);
    lemma_run_one(retire, store);
    let mid = run(seq![retire], store);
    lemma_run_one(unlink, mid);
    let after = run(plan, store);
    let seen = store.members(Index::UserGuilds, user_id);
    assert(mid.members(Index::UserGuilds, user_id) =~= seen);
    assert(mid.record(Table::Users, Key::Id(user_id)) == store.record(
        Table::Users,
        Key::Id(user_id),
    ));
    if seen.subset_of(set![Key::Id(guild_id)]) {
        assert forall|other: Key|
            mid.links.contains((Index::UserGuilds, user_id, other)) implies other == Key::Id(
            guild_id,
        ) by {
            assert(seen.contains(other));
        }
        assert(lone(mid, Index::UserGuilds, user_id, Key::Id(guild_id)));
        assert(after.members(Index::UserGuilds, user_id) =~= Set::<Key>::empty());
    } else {
        let other = choose|other: Key|
            seen.contains(other) && !set![Key::Id(guild_id)].contains(other);
        assert(mid.links.contains((Index::UserGuilds, user_id, other)));
        assert(!lone(mid, Index::UserGuilds, user_id, Key::Id(guild_id)));
        assert(after.members(Index::UserGuilds, user_id) =~= seen.remove(Key::Id(guild_id)));
    }
}

/// Whether `after` holds nothing that `before` does not hold.
pub open spec fn shrinks(before: Store, after: Store) -> bool {
    &&& forall|at: (Table, Key)| #[trigger]
        after.records.dom().contains(at) ==> before.records.dom().contains(at)
    &&& forall|link: (Index, u64, Key)| #[trigger]
        after.links.contains(link) ==> before.links.contains(link)
}

/// Whether one set of a guild and the records of its members are gone.
pub open spec fn cleared(
    before: Store,
    after: Store,
    guild_id: u64,
    index: Index,
    table: Table,
    composite: bool,
) -> bool {
    &&& forall|member: Key| !(#[trigger] after.links.contains((index, guild_id, member)))
    &&& forall|member: Key| #[trigger]
        before.links.contains((index, guild_id, member)) ==> !after.records.dom().contains(
            (table, child_key(guild_id, member, composite)),
        )
}

/// Whether the set of a guild's children of `kind` and the records of its members are gone.
pub open spec fn gone(before: Store, after: Store, guild_id: u64, kind: ResourceKind) -> bool {
    match cascade_of(kind) {
        Some((index, table, composite)) => cleared(
            before,
            after,
            guild_id,
            index,
            table,
            composite,
        ),
        None => true,
    }
}

proof fn lemma_gone(before: Store, after: Store, guild_id: u64, kind: ResourceKind, member: Key)
    requires
        gone(before, after, guild_id, kind),
        cascade_of(kind) is Some,
    ensures
        !after.links.contains((cascade_of(kind).unwrap().0, guild_id, member)),
        before.links.contains((cascade_of(kind).unwrap().0, guild_id, member))
            ==> !after.records.dom().contains(
            (
                cascade_of(kind).unwrap().1,
                child_key(guild_id, member, cascade_of(kind).unwrap().2),
            ),
        ),
{
    let (index, table, composite) = cascade_of(kind).unwrap();
    assert(!after.links.contains((index, guild_id, member)));
}

/// Whether the sets of the family `index` are as they were.
pub open spec fn untouched(before: Store, after: Store, index: Index) -> bool {
    forall|owner: u64, member: Key| #[trigger]
        after.links.contains((index, owner, member)) == before.links.contains(
            (index, owner, member),
        )
}

/// What one optional sweep does: it removes the set and the records of its members, touches
/// no other family of sets, and adds nothing.
proof fn lemma_sweep_step(
    wanted: Set<ResourceKind>,
    kind: ResourceKind,
    guild_id: u64,
    store: Store,
)
    ensures
        plain(sweep_for(wanted, guild_id, kind)),
        shrinks(store, run(sweep_for(wanted, guild_id, kind), store)),
        forall|index: Index|
            (cascade_of(kind) is None || cascade_of(kind).unwrap().0 != index) ==> untouched(
                store,
                run(sweep_for(wanted, guild_id, kind), store),
                index,
            ),
        wanted.contains(kind) ==> gone(
            store,
            run(sweep_for(wanted, guild_id, kind), store),
            guild_id,
            kind,
        ),
{
    let plan = sweep_for(wanted, guild_id, kind);
    if cascade_of(kind) is Some && wanted.contains(kind) {
        let (index, table, composite) = cascade_of(kind).unwrap();
        let step = plan[0];
        assert(plan =~= seq![step]);
        lemma_run_one(step, store);
        let after = run(plan, store);
        assert forall|member: Key|
            store.links.contains((index, guild_id, member)) implies !after.records.dom().contains(
            (table, child_key(guild_id, member, composite)),
        ) by {
            assert(swept(store, index, guild_id, table, composite).contains(
                (table, child_key(guild_id, member, composite)),
            ));
        }
    }
}

/// The kinds of children have each their own family of sets.
proof fn lemma_own_index(a: ResourceKind, b: ResourceKind)
    requires
        cascade_of(a) is Some,
        cascade_of(b) is Some,
        a != b,
    ensures
        cascade_of(a).unwrap().0 != cascade_of(b).unwrap().0,
{
}

/// What the sweeps of several kinds do, one after the other.
proof fn lemma_sweeps(
    wanted: Set<ResourceKind>,
    guild_id: u64,
    kinds: Seq<ResourceKind>,
    store: Store,
)
    requires
        kinds.no_duplicates(),
        forall|i: int| 0 <= i < kinds.len() ==> cascade_of(#[trigger] kinds[i]) is Some,
    ensures
        plain(sweeps(wanted, guild_id, kinds)),
        shrinks(store, run(sweeps(wanted, guild_id, kinds), store)),
        forall|kind: ResourceKind|
            cascade_of(kind) is Some && !kinds.contains(kind) ==> untouched(
                store,
                run(sweeps(wanted, guild_id, kinds), store),
                #[trigger] cascade_of(kind).unwrap().0,
            ),
        forall|i: int|
            0 <= i < kinds.len() && wanted.contains(kinds[i]) ==> gone(
                store,
                run(sweeps(wanted, guild_id, kinds), store),
                guild_id,
                #[trigger] kinds[i],
            ),
    decreases kinds.len(),
{
    if kinds.len() > 0 {
        let less = kinds.drop_last();
        let kind = kinds.last();
        let head = sweeps(wanted, guild_id, less);
        let tail = sweep_for(wanted, guild_id, kind);
        assert forall|i: int| 0 <= i < less.len() implies cascade_of(
            #[trigger] less[i],
        ) is Some by {
            assert(less[i] == kinds[i]);
        }
        assert(less.no_duplicates()) by {
            assert forall|i: int, j: int| 0 <= i < less.len() && 0 <= j < less.len() && i
                != j implies less[i] != less[j] by {
                assert(less[i] == kinds[i] && less[j] == kinds[j]);
            }
        }
        lemma_sweeps(wanted, guild_id, less, store);
        let mid = run(head, store);
        lemma_sweep_step(wanted, kind, guild_id, mid);
        lemma_run_concat(head, tail, store);
        let after = run(head + tail, store);
        assert(after == run(tail, mid));
        assert(!less.contains(kind)) by {
            if less.contains(kind) {
                let i = choose|i: int| 0 <= i < less.len() && less[i] == kind;
                assert(kinds[i] == kinds[kinds.len() - 1]);
            }
        }
        assert(cascade_of(kind) is Some) by {
            assert(kinds[kinds.len() - 1] == kind);
        }
        let own = cascade_of(kind).unwrap().0;
        assert(untouched(store, mid, own));
        assert forall|other: ResourceKind|
            cascade_of(other) is Some && !kinds.contains(other) implies untouched(
            store,
            after,
            #[trigger] cascade_of(other).unwrap().0,
        ) by {
            assert(other != kind) by {
                assert(kinds[kinds.len() - 1] == kind);
            }
            assert(!less.contains(other)) by {
                if less.contains(other) {
                    let i = choose|i: int| 0 <= i < less.len() && less[i] == other;
                    assert(kinds[i] == other);
                }
            }
            lemma_own_index(kind, other);
            let index = cascade_of(other).unwrap().0;
            assert(untouched(store, mid, index));
            assert(untouched(mid, after, index));
        }
        assert forall|i: int| 0 <= i < kinds.len() && wanted.contains(kinds[i]) implies gone(
            store,
            after,
            guild_id,
            #[trigger] kinds[i],
        ) by {
            assert(cascade_of(kinds[i]) is Some);
            let (index, table, composite) = cascade_of(kinds[i]).unwrap();
            assert(cascade_of(kinds[i]) == Some((index, table, composite)));
            if i < less.len() {
                assert(less[i] == kinds[i]);
                assert(gone(store, mid, guild_id, less[i]));
                assert forall|member: Key|
                    !(#[trigger] after.links.contains((index, guild_id, member))) && (
                    store.links.contains((index, guild_id, member))
                        ==> !after.records.dom().contains(
                        (table, child_key(guild_id, member, composite)),
                    )) by {
                    lemma_gone(store, mid, guild_id, less[i], member);
                    assert(!mid.links.contains((index, guild_id, member)));
                    if store.links.contains((index, guild_id, member)) {
                        assert(!mid.records.dom().contains(
                            (table, child_key(guild_id, member, composite)),
                        ));
                    }
                }
                assert(cleared(store, after, guild_id, index, table, composite));
            } else {
                assert(kinds[i] == kind);
                assert(gone(mid, after, guild_id, kind));
                assert forall|member: Key|
                    !(#[trigger] after.links.contains((index, guild_id, member))) by {
                    lemma_gone(mid, after, guild_id, kind, member);
                }
                assert forall|member: Key| #[trigger]
                    store.links.contains(
                        (index, guild_id, member),
                    ) implies !after.records.dom().contains(
                    (table, child_key(guild_id, member, composite)),
                ) by {
                    lemma_gone(mid, after, guild_id, kind, member);
                    assert(mid.links.contains((index, guild_id, member)) == store.links.contains(
                        (index, guild_id, member),
                    ));
                }
                assert(cleared(store, after, guild_id, index, table, composite));
            }
        }
        assert(plain(head + tail));
    }
}

/// Cascade completeness: after a guild is gone, the guild's record is gone and, for each kind
/// of child that the cache tracks, the guild's set of children is gone and so is the record of
/// every child that was in it. For a table keyed by guild and child: where the store held a
/// record under the guild only for members of that set, no record under the guild is left.
pub proof fn law_cascade(wanted: Set<ResourceKind>, guild_id: u64, store: Store, kind: ResourceKind)
    requires
        wanted.contains(kind),
        cascade_of(kind) is Some,
    ensures
        ({
            let (index, table, composite) = cascade_of(kind).unwrap();
            let after = run(guild_delete_plan(wanted, guild_id), store);
            &&& after.record(Table::Guilds, Key::Id(guild_id)) is None
            &&& after.members(index, guild_id) == Set::<Key>::empty()
            &&& forall|member: Key|
                store.links.contains((index, guild_id, member)) ==> after.record(
                    table,
                    child_key(guild_id, member, composite),
                ) is None
            &&& composite && (forall|child: u64|
                store.records.dom().contains((table, Key::Pair(guild_id, child)))
                    ==> store.links.contains((index, guild_id, Key::Id(child)))) ==> forall|
                child: u64,
            |
                after.record(table, Key::Pair(guild_id, child)) is None
        }),
{
    let (index, table, composite) = cascade_of(kind).unwrap();
    let kinds = cascade_kinds();
    let head = sweeps(wanted, guild_id, kinds);
    let last = StepView::Write(WriteView::Delete { table: Table::Guilds, key: Key::Id(guild_id) });
    lemma_sweeps(wanted, guild_id, kinds, store);
    let mid = run(head, store);
    lemma_run_concat(head, seq![last], store);
    lemma_run_one(last, mid);
    assert(guild_delete_plan(wanted, guild_id) =~= head + seq![last]);
    let after = run(guild_delete_plan(wanted, guild_id), store);
    let i = choose|i: int| 0 <= i < kinds.len() && kinds[i] == kind;
    assert(kinds.contains(kind)) by {
        assert(kinds[0] == ResourceKind::Channel);
        assert(kinds[1] == ResourceKind::Emoji);
        assert(kinds[2] == ResourceKind::Integration);
        assert(kinds[3] == ResourceKind::Member);
        assert(kinds[4] == ResourceKind::Presence);
        assert(kinds[5] == ResourceKind::Role);
        assert(kinds[6] == ResourceKind::StageInstance);
        assert(kinds[7] == ResourceKind::Sticker);
        assert(kinds[8] == ResourceKind::VoiceState);
    }
    assert(gone(store, mid, guild_id, kinds[i]));
    assert forall|member: Key| !after.links.contains((index, guild_id, member)) by {
        lemma_gone(store, mid, guild_id, kind, member);
    }
    assert(after.members(index, guild_id) =~= Set::<Key>::empty());
    assert forall|member: Key| store.links.contains((index, guild_id, member)) implies after.record(
        table,
        child_key(guild_id, member, composite),
    ) is None by {
        lemma_gone(store, mid, guild_id, kind, member);
    }
    if composite && (forall|child: u64|
        store.records.dom().contains((table, Key::Pair(guild_id, child)))
            ==> store.links.contains((index, guild_id, Key::Id(child)))) {
        assert forall|child: u64| after.record(table, Key::Pair(guild_id, child)) is None by {
            let at = (table, Key::Pair(guild_id, child));
            if store.records.dom().contains(at) {
                assert(store.links.contains((index, guild_id, Key::Id(child))));
                lemma_gone(store, mid, guild_id, kind, Key::Id(child));
                assert(child_key(guild_id, Key::Id(child), composite) == Key::Pair(
                    guild_id,
                    child,
                ));
            } else {
                assert(!mid.records.dom().contains(at));
            }
        }
    }
}

/// Record and set in step: after a child was stored, the store holds its record and its
/// owner's set holds it; no other record and no other link has changed.
pub proof fn law_upsert_effect<T: Identified>(
    table: Table,
    index: Index,
    owner: u64,
    item: T,
    scoped: bool,
    composite: bool,
    store: Store,
)
    ensures
        ({
            let key = key_under(owner, item.ident(), composite);
            let after = run(upsert_plan(table, index, owner, item, scoped, composite), store);
            &&& after.record(table, key) == Some(wire_under(owner, item, scoped))
            &&& after.links.contains((index, owner, Key::Id(item.ident())))
            &&& after.records == store.records.insert((table, key), wire_under(owner, item, scoped))
            &&& after.links == store.links.insert((index, owner, Key::Id(item.ident())))
        }),
{
    let plan = upsert_plan(table, index, owner, item, scoped, composite);
    assert(plan =~= seq![plan[0]] + seq![plan[1]]);
    assert(plain(seq![plan[0]]));
    lemma_run_concat(seq![plan[0]], seq![plan[1]], store);
    lemma_run_one(plan[0], store);
    lemma_run_one(plan[1], run(seq![plan[0]], store));
}

/// Record and set in step: after a child was removed, the store holds no record of it; where
/// it held one, the owner's set does not hold the child any more; where it held none, no set
/// has changed.
pub proof fn law_retire_effect(
    table: Table,
    index: Index,
    owner: u64,
    id: u64,
    composite: bool,
    store: Store,
)
    ensures
        ({
            let key = key_under(owner, id, composite);
            let after = run(retire_plan(table, index, owner, id, composite), store);
            &&& after.record(table, key) is None
            &&& after.records == store.records.remove((table, key))
            &&& after.links == if store.record(table, key) is Some {
                store.links.remove((index, owner, Key::Id(id)))
            } else {
                store.links
            }
        }),
{
    let plan = retire_plan(table, index, owner, id, composite);
    assert(plan =~= seq![plan[0]]);
    lemma_run_one(plan[0], store);
}

proof fn lemma_user_record(user: User, store: Store)
    ensures
        count(user_plan(user, None), store) == if store.record(Table::Users, Key::Id(user.id))
            == Some(crate::codec::data_wire(user.data())) {
            0nat
        } else {
            1nat
        },
        run(user_plan(user, None), store).record(Table::Users, Key::Id(user.id)) == Some(
            crate::codec::data_wire(user.data()),
        ),
{
    let plan = user_plan(user, None);
    let value = crate::codec::data_wire(user.data());
    let put = StepView::Write(
        WriteView::Put { table: Table::Users, key: Key::Id(user.id), value },
    );
    assert(plan[0] is Guard);
    assert(plan[1] == put);
    assert(plan.len() == 2);
    let guard = plan.first();
    assert(guard == plan[0]);
    assert(guard.after(store) == store);
    assert(guard.tally(store) == 0);
    if store.record(Table::Users, Key::Id(user.id)) == Some(value) {
        assert(guard.skips(store) == 1);
        assert(remaining(plan, 1) =~= Seq::<StepView>::empty());
        assert(run(plan, store) == run(Seq::<StepView>::empty(), store));
        assert(count(plan, store) == count(Seq::<StepView>::empty(), store));
    } else {
        assert(guard.skips(store) == 0);
        assert(remaining(plan, 0) =~= seq![put]);
        assert(run(plan, store) == run(seq![put], store));
        assert(count(plan, store) == count(seq![put], store));
        lemma_run_one(put, store);
    }
}

/// Equal snapshots: storing a user writes the record once where the store held another or
/// none, and not at all where it held the same bytes; a second time it writes nothing.
pub proof fn law_snapshot_once(user: User, store: Store)
    ensures
        ({
            let plan = user_plan(user, None);
            let value = crate::codec::data_wire(user.data());
            &&& count(plan, store) == if store.record(Table::Users, Key::Id(user.id)) == Some(
                value,
            ) {
                0nat
            } else {
                1nat
            }
            &&& run(plan, store).record(Table::Users, Key::Id(user.id)) == Some(value)
            &&& count(plan, run(plan, store)) == 0
        }),
{
    lemma_user_record(user, store);
    lemma_user_record(user, run(user_plan(user, None), store));
}

/// The target at which a revision finds its record: the first, in order, whose table holds
/// under `key` a list of as many fields as the target expects.
pub open spec fn picked(
    store: Store,
    target: TargetView,
    fallbacks: Seq<TargetView>,
    key: Key,
) -> Option<TargetView>
    decreases fallbacks.len(),
{
    if readable(store.record(target.table, key), target.arity) is Some {
        Some(target)
    } else if fallbacks.len() > 0 {
        picked(store, fallbacks.first(), fallbacks.drop_first(), key)
    } else {
        None
    }
}

/// Whether every new value of every target fits the bytes it is written in.
pub open spec fn targets_fit(target: TargetView, fallbacks: Seq<TargetView>) -> bool {
    &&& forall|i: int|
        0 <= i < target.changes.len() ==> datum_fits((#[trigger] target.changes[i]).1)
    &&& forall|j: int, i: int|
        0 <= j < fallbacks.len() && 0 <= i < fallbacks[j].changes.len() ==> datum_fits(
            (#[trigger] fallbacks[j].changes[i]).1,
        )
}

/// The fields of a record after a revision at `target`.
pub open spec fn revised(data: Seq<Datum>, target: TargetView) -> Seq<Datum> {
    if holds(data, target.given) {
        changed(data, target.changes)
    } else {
        data
    }
}

/// What a revision writes, in terms of the target that it picks.
proof fn lemma_revision(target: TargetView, fallbacks: Seq<TargetView>, key: Key, store: Store)
    requires
        targets_fit(target, fallbacks),
    ensures
        match picked(store, target, fallbacks, key) {
            Some(at) => {
                let old = store.records[(at.table, key)];
                let data = readable(store.record(at.table, key), at.arity).unwrap();
                let new = data_wire(revised(data, at));
                &&& store.records.dom().contains((at.table, key))
                &&& readable(store.record(at.table, key), at.arity) is Some
                &&& parse_data(new) == Some(revised(data, at))
                &&& revised(data, at).len() == data.len()
                &&& revision(store, target, fallbacks, key, None) == if new == old {
                    None::<(Table, Seq<u8>)>
                } else {
                    Some((at.table, new))
                }
            },
            None => revision(store, target, fallbacks, key, None) is None,
        },
    decreases fallbacks.len(),
{
    match readable(store.record(target.table, key), target.arity) {
        Some(data) => {
            let old = store.records[(target.table, key)];
            crate::codec::lemma_parse_exact(old);
            lemma_changed(data, target.changes);
            lemma_round_trip(revised(data, target));
        },
        None => {
            if fallbacks.len() > 0 {
                let rest = fallbacks.drop_first();
                assert forall|j: int, i: int|
                    0 <= j < rest.len() && 0 <= i < rest[j].changes.len() implies datum_fits(
                    (#[trigger] rest[j].changes[i]).1,
                ) by {
                    assert(rest[j] == fallbacks[j + 1]);
                }
                assert(fallbacks.first() == fallbacks[0]);
                lemma_revision(fallbacks.first(), rest, key, store);
            }
        },
    }
}

/// Patch preservation and absent-update no-op, for a record that is looked for in several
/// tables. Where no table holds the record, nothing changes and nothing is written. Where one
/// does, the record in the first such table has afterwards the fields that its target sets
/// changed and every other field as it was; no other record and no set changes.
pub proof fn law_revision(target: TargetView, fallbacks: Seq<TargetView>, key: Key, store: Store)
    requires
        targets_fit(target, fallbacks),
    ensures
        ({
            let step = StepView::Revise { target, fallbacks, key, otherwise: None, then: Seq::empty() };
            let after = run(seq![step], store);
            match picked(store, target, fallbacks, key) {
                None => after == store && count(seq![step], store) == 0,
                Some(at) => {
                    let before = readable(store.record(at.table, key), at.arity).unwrap();
                    let now = readable(after.record(at.table, key), at.arity);
                    &&& now == Some(revised(before, at))
                    &&& now.unwrap().len() == before.len()
                    &&& forall|i: int|
                        0 <= i < before.len() && !positions(at.changes).contains(i)
                            ==> now.unwrap()[i] == before[i]
                    &&& after.links == store.links
                    &&& forall|other: (Table, Key)|
                        other != (at.table, key) ==> after.record(other.0, other.1)
                            == store.record(other.0, other.1)
                },
            }
        }),
{
    let step = StepView::Revise { target, fallbacks, key, otherwise: None, then: Seq::empty() };
    lemma_run_one(step, store);
    lemma_revision(target, fallbacks, key, store);
    let after = run(seq![step], store);
    match picked(store, target, fallbacks, key) {
        None => {},
        Some(at) => {
            let before = readable(store.record(at.table, key), at.arity).unwrap();
            lemma_changed(before, at.changes);
            let old = store.records[(at.table, key)];
            let new = data_wire(revised(before, at));
            if new != old {
                let put = WriteView::Put { table: at.table, key, value: new };
                assert(crate::store::apply_all(Seq::empty(), put.apply(store)) == put.apply(store));
                assert(after.records =~= store.records.insert((at.table, key), new));
            } else {
                assert(after == store);
                assert(parse_data(old) == Some(before));
            }
        },
    }
}

/// Where a child of `owner` is stored: the table, the key and the number of fields.
pub open spec fn spot<T: Identified>(
    table: Table,
    owner: u64,
    item: T,
    scoped: bool,
    composite: bool,
) -> (Table, Key, nat) {
    (table, key_under(owner, item.ident(), composite), data_under(owner, item, scoped).len())
}

impl Event {
    /// The record that an update changes: its table, its key and the number of its fields.
    /// `None` for an event that is no update of one record in one table, and for an update
    /// that names no guild where it needs one.
    pub open spec fn updates(self) -> Option<(Table, Key, nat)> {
        match self {
            Event::GuildUpdate(v) => Some((Table::Guilds, Key::Id(v.0.id), GUILD_FIELDS as nat)),
            Event::MemberUpdate(v) => Some(
                (Table::Members, Key::Pair(v.guild_id, v.user.id), MEMBER_FIELDS as nat),
            ),
            Event::MessageUpdate(v) => Some((Table::Messages, Key::Id(v.id), MESSAGE_FIELDS as nat)),
            Event::RoleUpdate(v) => Some(spot(Table::Roles, v.guild_id, v.role, true, false)),
            Event::StageInstanceUpdate(v) => Some(
                spot(Table::StageInstances, v.guild_id, v.stage_instance, false, false),
            ),
            Event::IntegrationUpdate(v) => match v.guild_id {
                Some(guild_id) => Some(
                    spot(Table::Integrations, guild_id, v.integration, true, true),
                ),
                None => None,
            },
            Event::ChannelUpdate(v) => match v.0 {
                Channel::Group(c) => Some(spot(Table::Groups, UNSCOPED, c, false, false)),
                Channel::Guild(c) => match c.guild_id {
                    Some(guild_id) => Some(
                        spot(Table::ChannelsGuild, guild_id, stamped(guild_id, c), true, false),
                    ),
                    None => None,
                },
                Channel::Private(c) => Some(
                    spot(Table::ChannelsPrivate, UNSCOPED, c, false, false),
                ),
            },
            Event::ThreadUpdate(v) => match v.0 {
                Channel::Guild(c) => match c.guild_id {
                    Some(guild_id) => Some(
                        spot(Table::ChannelsGuild, guild_id, stamped(guild_id, c), true, false),
                    ),
                    None => None,
                },
                _ => None,
            },
            _ => None,
        }
    }

    /// The whole record that an update carries, where it carries one: the fields of the
    /// resource as it is stored. `None` for an update that carries some fields only.
    pub open spec fn snapshot(self) -> Option<Seq<Datum>> {
        match self {
            Event::RoleUpdate(v) => Some(data_under(v.guild_id, v.role, true)),
            Event::StageInstanceUpdate(v) => Some(data_under(v.guild_id, v.stage_instance, false)),
            Event::IntegrationUpdate(v) => match v.guild_id {
                Some(guild_id) => Some(data_under(guild_id, v.integration, true)),
                None => None,
            },
            Event::ChannelUpdate(v) => match v.0 {
                Channel::Group(c) => Some(data_under(UNSCOPED, c, false)),
                Channel::Guild(c) => match c.guild_id {
                    Some(guild_id) => Some(data_under(guild_id, stamped(guild_id, c), true)),
                    None => None,
                },
                Channel::Private(c) => Some(data_under(UNSCOPED, c, false)),
            },
            Event::ThreadUpdate(v) => match v.0 {
                Channel::Guild(c) => match c.guild_id {
                    Some(guild_id) => Some(data_under(guild_id, stamped(guild_id, c), true)),
                    None => None,
                },
                _ => None,
            },
            _ => None,
        }
    }

    /// The fields that an update sets, each with its position in the record.
    pub open spec fn changes(self) -> Seq<(int, Datum)> {
        match self {
            Event::GuildUpdate(v) => crate::event::guild::guild_update_changes(v.0),
            Event::MemberUpdate(v) => crate::event::member::member_update_changes(v),
            Event::MessageUpdate(v) => crate::event::message::message_update_changes(v),
            _ => match self.snapshot() {
                Some(data) => all_changes(data),
                None => Seq::empty(),
            },
        }
    }
}

/// The plan of an update is one revision of the record that it names, where the cache tracks
/// the kind, and nothing where it does not.
pub proof fn lemma_update_plan(event: Event, wanted: Set<ResourceKind>)
    requires
        event.updates() is Some,
    ensures
        event.plan(wanted) == if wanted.disjoint(event.kinds()) {
            Seq::<StepView>::empty()
        } else {
            patch_plan(
                event.updates().unwrap().0,
                event.updates().unwrap().2,
                event.updates().unwrap().1,
                event.changes(),
            )
        },
{
    let kind = match event {
        Event::GuildUpdate(_) => ResourceKind::Guild,
        Event::MemberUpdate(_) => ResourceKind::Member,
        Event::MessageUpdate(_) => ResourceKind::Message,
        Event::RoleUpdate(_) => ResourceKind::Role,
        Event::StageInstanceUpdate(_) => ResourceKind::StageInstance,
        Event::IntegrationUpdate(_) => ResourceKind::Integration,
        _ => ResourceKind::Channel,
    };
    assert(event.kinds().contains(kind));
    assert(forall|k: ResourceKind| event.kinds().contains(k) ==> k == kind);
    if !wanted.disjoint(event.kinds()) {
        let k = choose|k: ResourceKind| wanted.contains(k) && event.kinds().contains(k);
        assert(wanted.contains(kind));
    } else {
        assert(!wanted.contains(kind));
    }
}

/// Setting every field of a record gives the record that the fields are taken from.
pub proof fn lemma_all_changes(before: Seq<Datum>, data: Seq<Datum>)
    requires
        before.len() == data.len(),
    ensures
        changed(before, all_changes(data)) == data,
{
    lemma_some_changes(before, data, data.len() as int);
    assert(all_changes(data).subrange(0, data.len() as int) =~= all_changes(data));
    assert(data.subrange(0, data.len() as int) + before.subrange(
        data.len() as int,
        before.len() as int,
    ) =~= data);
}

proof fn lemma_some_changes(before: Seq<Datum>, data: Seq<Datum>, upto: int)
    requires
        before.len() == data.len(),
        0 <= upto <= data.len(),
    ensures
        changed(before, all_changes(data).subrange(0, upto)) == data.subrange(0, upto)
            + before.subrange(upto, before.len() as int),
    decreases upto,
{
    let some = all_changes(data).subrange(0, upto);
    if upto == 0 {
        assert(data.subrange(0, 0) + before.subrange(0, before.len() as int) =~= before);
    } else {
        lemma_some_changes(before, data, upto - 1);
        assert(some.drop_last() =~= all_changes(data).subrange(0, upto - 1));
        assert(some.last() == (upto - 1, data[upto - 1]));
        assert(changed(before, some) =~= data.subrange(0, upto) + before.subrange(
            upto,
            before.len() as int,
        ));
    }
}

/// Patch preservation: after an update of a record that the store holds, the record has the
/// fields that the update carries set to what it carries, and every field that the update
/// does not carry as it was; no other record and no set has changed.
pub proof fn law_update_keeps(event: Event, wanted: Set<ResourceKind>, store: Store)
    requires
        event.updates() matches Some((table, key, arity)) && readable(
            store.record(table, key),
            arity,
        ) is Some,
        !wanted.disjoint(event.kinds()),
        forall|i: int|
            0 <= i < event.changes().len() ==> datum_fits((#[trigger] event.changes()[i]).1),
    ensures
        ({
            let (table, key, arity) = event.updates().unwrap();
            let before = readable(store.record(table, key), arity).unwrap();
            let after = run(event.plan(wanted), store);
            let now = readable(after.record(table, key), arity);
            &&& now == Some(changed(before, event.changes()))
            &&& forall|at: int|
                0 <= at < before.len() && !positions(event.changes()).contains(at)
                    ==> now.unwrap()[at] == before[at]
            &&& event.snapshot() matches Some(data) ==> now == Some(data)
            &&& after.links == store.links
            &&& forall|other: (Table, Key)|
                other != (table, key) ==> after.record(other.0, other.1) == store.record(
                    other.0,
                    other.1,
                )
        }),
{
    let (table, key, arity) = event.updates().unwrap();
    lemma_update_plan(event, wanted);
    law_patch_preserves(table, arity, key, event.changes(), store);
    match event.snapshot() {
        Some(data) => {
            lemma_all_changes(readable(store.record(table, key), arity).unwrap(), data);
        },
        None => {},
    }
}

/// Absent-update no-op: an update of a record that the store does not hold, or holds in
/// another shape, takes its one read, changes nothing and writes nothing. A stored record is
/// the only thing that an update changes: it does not bring a record back.
pub proof fn law_update_of_absent(event: Event, wanted: Set<ResourceKind>, store: Store)
    requires
        event.updates() matches Some((table, key, arity)) && readable(
            store.record(table, key),
            arity,
        ) is None,
    ensures
        run(event.plan(wanted), store) == store,
        count(event.plan(wanted), store) == 0,
{
    let (table, key, arity) = event.updates().unwrap();
    lemma_update_plan(event, wanted);
    law_absent_update(table, arity, key, event.changes(), store);
}

/// Stale update after delete: after a child of `owner` was removed, an update of that child
/// leaves the store as the removal left it: the record stays absent, and the child stays out
/// of the owner's set where the removal took it out.
pub proof fn law_stale_update(
    event: Event,
    wanted: Set<ResourceKind>,
    index: Index,
    owner: u64,
    id: u64,
    composite: bool,
    store: Store,
)
    requires
        event.updates() matches Some((table, key, arity)) && key == key_under(owner, id, composite),
    ensures
        ({
            let (table, key, arity) = event.updates().unwrap();
            let removed = run(retire_plan(table, index, owner, id, composite), store);
            let after = run(event.plan(wanted), removed);
            &&& after == removed
            &&& after.record(table, key) is None
            &&& store.record(table, key) is Some ==> !after.links.contains(
                (index, owner, Key::Id(id)),
            )
        }),
{
    let (table, key, arity) = event.updates().unwrap();
    law_retire_effect(table, index, owner, id, composite, store);
    law_update_of_absent(event, wanted, run(retire_plan(table, index, owner, id, composite), store));
}

/// Absent-update no-op: a new time of a channel's last pin, for a channel that the store
/// holds in none of its three tables, changes nothing and writes nothing.
pub proof fn law_pin_of_absent(event: crate::event::channel::ChannelPinsUpdate, store: Store)
    requires
        readable(
            store.record(Table::ChannelsGuild, Key::Id(event.channel_id)),
            1 + CHANNEL_FIELDS as nat,
        ) is None,
        readable(
            store.record(Table::ChannelsPrivate, Key::Id(event.channel_id)),
            PRIVATE_FIELDS as nat,
        ) is None,
        readable(
            store.record(Table::Groups, Key::Id(event.channel_id)),
            GROUP_FIELDS as nat,
        ) is None,
    ensures
        run(pins_plan(event), store) == store,
        count(pins_plan(event), store) == 0,
{
    let plan = pins_plan(event);
    let step = plan[0];
    assert(plan =~= seq![step]);
    let fallbacks = step->Revise_fallbacks;
    reveal_with_fuel(picked, 3);
    assert(fallbacks.len() >= 1);
    if fallbacks.len() > 1 {
        assert(fallbacks.drop_first().first() == fallbacks[1]);
    }
    assert(picked(store, step->Revise_target, fallbacks, Key::Id(event.channel_id)) is None);
    law_revision(step->Revise_target, fallbacks, Key::Id(event.channel_id), store);
}

/// What a batch of records comes to: the record of the last entry under each key.
proof fn lemma_put_all_last(
    records: Map<(Table, Key), Seq<u8>>,
    table: Table,
    entries: Seq<(Key, Seq<u8>)>,
    i: int,
)
    requires
        0 <= i < entries.len(),
        forall|j: int| i < j < entries.len() ==> (#[trigger] entries[j]).0 != entries[i].0,
    ensures
        put_all(records, table, entries).dom().contains((table, entries[i].0)),
        put_all(records, table, entries)[(table, entries[i].0)] == entries[i].1,
    decreases entries.len(),
{
    let less = entries.drop_last();
    if i < entries.len() - 1 {
        assert(less[i] == entries[i]);
        assert forall|j: int| i < j < less.len() implies (#[trigger] less[j]).0 != less[i].0 by {
            assert(less[j] == entries[j]);
        }
        lemma_put_all_last(records, table, less, i);
        assert(entries[entries.len() - 1].0 != entries[i].0);
    }
}

/// Bulk sync: after the children of an owner were stored in one batch, the owner's set holds
/// every child, and the store holds, under the key of each child, the bytes of the last item
/// of the batch that has that child's identifier.
pub proof fn law_batch_effect<T: Identified>(
    table: Table,
    index: Index,
    owner: u64,
    items: Seq<T>,
    scoped: bool,
    composite: bool,
    store: Store,
    i: int,
)
    requires
        0 <= i < items.len(),
        forall|j: int| i < j < items.len() ==> (#[trigger] items[j]).ident() != items[i].ident(),
    ensures
        ({
            let after = run(batch_plan(table, index, owner, items, scoped, composite), store);
            &&& after.record(table, key_under(owner, items[i].ident(), composite)) == Some(
                wire_under(owner, items[i], scoped),
            )
            &&& after.links.contains((index, owner, Key::Id(items[i].ident())))
            &&& after.records == put_all(
                store.records,
                table,
                batch_entries(owner, items, scoped, composite),
            )
            &&& after.links == add_all(store.links, index, owner, batch_members(items))
        }),
{
    let plan = batch_plan(table, index, owner, items, scoped, composite);
    let entries = batch_entries(owner, items, scoped, composite);
    assert(plan =~= seq![plan[0]] + seq![plan[1]]);
    assert(plain(seq![plan[0]]));
    lemma_run_concat(seq![plan[0]], seq![plan[1]], store);
    lemma_run_one(plan[0], store);
    lemma_run_one(plan[1], run(seq![plan[0]], store));
    assert forall|j: int| i < j < entries.len() implies (#[trigger] entries[j]).0
        != entries[i].0 by {
        assert(items[j].ident() != items[i].ident());
    }
    lemma_put_all_last(store.records, table, entries, i);
    assert(batch_members(items)[i] == Key::Id(items[i].ident()));
}

/// Stale update after delete: a record that was removed is not brought back by an update
/// that comes after.
pub proof fn law_update_after_delete(
    table: Table,
    index: Index,
    owner: u64,
    id: u64,
    composite: bool,
    arity: nat,
    changes: Seq<(int, Datum)>,
    store: Store,
)
    ensures
        run(
            patch_plan(table, arity, key_under(owner, id, composite), changes),
            run(retire_plan(table, index, owner, id, composite), store),
        ).record(table, key_under(owner, id, composite)) is None,
{
    law_retire_effect(table, index, owner, id, composite, store);
    let mid = run(retire_plan(table, index, owner, id, composite), store);
    law_absent_update(table, arity, key_under(owner, id, composite), changes, mid);
}

/// Bulk sync of channels: after the channels of a guild were stored in one batch, the guild's
/// set of channels holds each of them, and each is stored with the guild filled in, whether
/// or not the channel named a guild when it came.
pub proof fn law_bulk_sync(guild_id: u64, channels: Seq<GuildChannel>, store: Store, i: int)
    requires
        0 <= i < channels.len(),
        forall|j: int| i < j < channels.len() ==> (#[trigger] channels[j]).id != channels[i].id,
    ensures
        ({
            let after = run(guild_channels_plan(guild_id, channels), store);
            let filed = stamped(guild_id, channels[i]);
            &&& after.members(Index::GuildChannels, guild_id).contains(Key::Id(channels[i].id))
            &&& after.record(Table::ChannelsGuild, Key::Id(channels[i].id)) == Some(
                crate::record::scoped_wire(guild_id, filed.data()),
            )
            &&& filed.guild_id == Some(guild_id)
            &&& filed.id == channels[i].id
            &&& filed.kind == channels[i].kind
            &&& filed.last_pin_timestamp == channels[i].last_pin_timestamp
            &&& filed.body == channels[i].body
        }),
{
    let items = channels.map_values(|c: GuildChannel| stamped(guild_id, c));
    assert forall|j: int| i < j < items.len() implies (#[trigger] items[j]).ident()
        != items[i].ident() by {
        assert(channels[j].id != channels[i].id);
    }
    law_batch_effect(
        Table::ChannelsGuild,
        Index::GuildChannels,
        guild_id,
        items,
        true,
        false,
        store,
        i,
    );
}

} // verus!
