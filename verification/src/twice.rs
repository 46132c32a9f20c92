use crate::cache::UpdateCache;
use crate::codec::data_wire;
use crate::config::ResourceKind;
use crate::dispatch::Event;
use crate::effects::{as_steps, lemma_run_first, lemma_run_only_writes};
use crate::event::{batch_plan, upsert_plan, user_plan};
use crate::event::channel::{Channel, guild_channels_plan};
use crate::event::emoji::emojis_plan;
use crate::event::guild::{Guild, guild_plan, guild_record_plan, where_wanted};
use crate::event::member::{Member, member_plan, members_plan, partial_member_plan, snapshot_plan};
use crate::event::message::{echo_plan, message_create_plan, message_plan, MessageCreate};
use crate::event::presence::presences_plan;
use crate::event::role::roles_plan;
use crate::event::stage_instance::stage_instances_plan;
use crate::model::User;
use crate::plan::{remaining, run, StepView};
use crate::record::{Identified, Record};
use crate::repeat::{
    agree_off, agree_on, all_writes, closed, disjoint, join, law_changes_twice, lemma_run_closed,
    lemma_settles_both, lemma_settles_more, lemma_settles_writes, peek, Places, places_of, settles,
    writes_of,
};
use crate::store::{apply_all, Index, Key, Store, Table, WriteView};
use vstd::prelude::*;

verus! {

/// The places in the given tables and in the sets of the given families.
pub open spec fn places_in(tables: Set<Table>, indices: Set<Index>) -> Places {
    Places {
        records: Set::new(|at: (Table, Key)| tables.contains(at.0)),
        links: Set::new(|link: (Index, u64, Key)| indices.contains(link.0)),
    }
}

/// A plan that does, on every store, what a plan that settles places does, settles them too.
pub proof fn lemma_settles_same(plan: Seq<StepView>, other: Seq<StepView>, places: Places)
    requires
        closed(plan),
        settles(other, places),
        forall|s: Store| #[trigger] run(plan, s) == run(other, s),
    ensures
        settles(plan, places),
{
    assert forall|s: Store| #[trigger] agree_off(run(plan, s), s, places) by {
        assert(agree_off(run(other, s), s, places));
    }
    assert forall|s: Store, t: Store| #[trigger] agree_on(s, t, places) implies agree_on(
        run(plan, s),
        run(plan, t),
        places,
    ) by {
        assert(agree_on(run(other, s), run(other, t), places));
    }
    assert forall|s: Store| #[trigger] run(plan, run(plan, s)) == run(plan, s) by {
        assert(run(plan, s) == run(other, s));
        assert(run(plan, run(other, s)) == run(other, run(other, s)));
        assert(run(other, run(other, s)) == run(other, s));
    }
}

/// The changes that storing a user comes to, whatever the store holds.
pub open spec fn user_writes(user: User, guild_id: Option<u64>) -> Seq<WriteView> {
    let put = seq![
        WriteView::Put {
            table: Table::Users,
            key: Key::Id(user.id),
            value: data_wire(user.data()),
        },
    ];
    match guild_id {
        Some(guild_id) => put.push(
            WriteView::Add { index: Index::UserGuilds, owner: user.id, member: Key::Id(guild_id) },
        ),
        None => put,
    }
}

/// The places that storing a user touches.
pub open spec fn user_places(user_id: u64, guild_id: Option<u64>) -> Places {
    Places {
        records: set![(Table::Users, Key::Id(user_id))],
        links: match guild_id {
            Some(guild_id) => set![(Index::UserGuilds, user_id, Key::Id(guild_id))],
            None => Set::empty(),
        },
    }
}

/// Storing a user leaves the store as the user's changes alone would: the test only saves a
/// write that would change nothing.
pub proof fn lemma_user_run(user: User, guild_id: Option<u64>, store: Store)
    ensures
        run(user_plan(user, guild_id), store) == apply_all(user_writes(user, guild_id), store),
        closed(user_plan(user, guild_id)),
{
    let plan = user_plan(user, guild_id);
    let writes = user_writes(user, guild_id);
    let value = data_wire(user.data());
    let at = (Table::Users, Key::Id(user.id));
    let put = WriteView::Put { table: Table::Users, key: Key::Id(user.id), value };
    let hit = store.record(Table::Users, Key::Id(user.id)) == Some(value);
    assert(plan[0] is Guard);
    assert(plan[1] == StepView::Write(put));
    let tail = plan.subrange(2, plan.len() as int);
    let later = writes.subrange(1, writes.len() as int);
    assert(tail =~= as_steps(later));
    lemma_run_only_writes(later, put.apply(store));
    lemma_run_only_writes(later, store);
    assert(writes.first() == put);
    assert(writes.drop_first() =~= later);
    let guard = plan.first();
    assert(guard == plan[0]);
    assert(guard.after(store) == store);
    assert(apply_all(writes, store) == apply_all(later, put.apply(store)));
    if hit {
        assert(guard.skips(store) == 1);
        assert(remaining(plan, 1) =~= tail);
        assert(run(plan, store) == run(tail, store));
        assert(put.apply(store).records =~= store.records);
        assert(put.apply(store) == store);
    } else {
        let rest = plan.subrange(1, plan.len() as int);
        assert(guard.skips(store) == 0);
        assert(remaining(plan, 0) =~= rest);
        assert(run(plan, store) == run(rest, store));
        assert(rest.first() == StepView::Write(put));
        assert(rest.first().skips(store) == 0);
        assert(remaining(rest, 0) =~= tail);
        assert(run(rest, store) == run(tail, put.apply(store)));
    }
}

/// Storing a user settles the user's record and the link to the guild.
pub proof fn lemma_user_settles(user: User, guild_id: Option<u64>)
    ensures
        settles(user_plan(user, guild_id), user_places(user.id, guild_id)),
{
    let writes = user_writes(user, guild_id);
    lemma_settles_writes(writes);
    let places = places_of(writes);
    let wanted = user_places(user.id, guild_id);
    assert forall|at: (Table, Key)| places.records.contains(at) implies wanted.records.contains(
        at,
    ) by {
        let i = choose|i: int| 0 <= i < writes.len() && (#[trigger] writes[i]).sets_record(at);
    }
    assert forall|link: (Index, u64, Key)| places.links.contains(link) implies wanted.links.contains(
        link,
    ) by {
        let i = choose|i: int| 0 <= i < writes.len() && (#[trigger] writes[i]).sets_link(link);
    }
    lemma_settles_more(as_steps(writes), places, wanted);
    assert forall|s: Store| #[trigger]
        run(user_plan(user, guild_id), s) == run(as_steps(writes), s) by {
        lemma_user_run(user, guild_id, s);
        lemma_run_only_writes(writes, s);
    }
    lemma_user_run(user, guild_id, Store::empty());
    lemma_settles_same(user_plan(user, guild_id), as_steps(writes), wanted);
}

/// What a snapshot comes to: nothing where the store holds the value already; else what
/// stands between, then the record and the link.
pub proof fn lemma_snapshot_run(
    table: Table,
    key: Key,
    value: Seq<u8>,
    index: Index,
    owner: u64,
    member: Key,
    between: Seq<StepView>,
    store: Store,
)
    requires
        closed(between),
    ensures
        closed(snapshot_plan(table, key, value, index, owner, member, between)),
        run(snapshot_plan(table, key, value, index, owner, member, between), store) == if peek(
            store,
            (table, key),
        ) == Some(value) {
            store
        } else {
            (WriteView::Add { index, owner, member }).apply(
                (WriteView::Put { table, key, value }).apply(run(between, store)),
            )
        },
{
    let plan = snapshot_plan(table, key, value, index, owner, member, between);
    let put = WriteView::Put { table, key, value };
    let add = WriteView::Add { index, owner, member };
    let tail = seq![StepView::Write(put), StepView::Write(add)];
    assert(plan[0] is Guard);
    assert forall|i: int| 0 <= i < plan.len() && (#[trigger] plan[i]) is Guard implies i + 1
        + plan[i]->Guard_span <= plan.len() by {
        if 1 <= i && i <= between.len() {
            assert(plan[i] == between[i - 1]);
        }
    }
    let guard = plan.first();
    assert(guard == plan[0]);
    assert(guard.after(store) == store);
    if peek(store, (table, key)) == Some(value) {
        assert(guard.skips(store) == (between.len() + 2) as nat);
        assert(remaining(plan, (between.len() + 2) as nat) =~= Seq::<StepView>::empty());
        assert(run(plan, store) == run(Seq::<StepView>::empty(), store));
    } else {
        assert(guard.skips(store) == 0);
        assert(remaining(plan, 0) =~= between + tail);
        assert(run(plan, store) == run(between + tail, store));
        lemma_run_closed(between, tail, store);
        let mid = run(between, store);
        lemma_run_first(StepView::Write(put), seq![StepView::Write(add)], mid);
        assert(seq![StepView::Write(put)] + seq![StepView::Write(add)] =~= tail);
        lemma_run_first(StepView::Write(add), Seq::empty(), put.apply(mid));
        assert(seq![StepView::Write(add)] + Seq::<StepView>::empty() =~= seq![
            StepView::Write(add),
        ]);
    }
}

/// A snapshot settles its record, its link and the places of what stands between.
pub proof fn lemma_snapshot_settles(
    table: Table,
    key: Key,
    value: Seq<u8>,
    index: Index,
    owner: u64,
    member: Key,
    between: Seq<StepView>,
    inner: Places,
)
    requires
        settles(between, inner),
    ensures
        settles(
            snapshot_plan(table, key, value, index, owner, member, between),
            join(Places { records: set![(table, key)], links: set![(index, owner, member)] }, inner),
        ),
{
    let plan = snapshot_plan(table, key, value, index, owner, member, between);
    let own = Places { records: set![(table, key)], links: set![(index, owner, member)] };
    let places = join(own, inner);
    let put = WriteView::Put { table, key, value };
    let add = WriteView::Add { index, owner, member };
    lemma_snapshot_run(table, key, value, index, owner, member, between, Store::empty());
    assert forall|s: Store| #[trigger] agree_off(run(plan, s), s, places) by {
        lemma_snapshot_run(table, key, value, index, owner, member, between, s);
        assert(agree_off(run(between, s), s, inner));
        let mid = run(between, s);
        let end = add.apply(put.apply(mid));
        assert forall|at: (Table, Key)| !places.records.contains(at) implies #[trigger] peek(
            end,
            at,
        ) == peek(s, at) by {
            assert(peek(mid, at) == peek(s, at));
        }
        assert forall|link: (Index, u64, Key)|
            !places.links.contains(link) implies #[trigger] end.links.contains(link)
            == s.links.contains(link) by {
            assert(mid.links.contains(link) == s.links.contains(link));
        }
    }
    assert forall|s: Store, t: Store| #[trigger] agree_on(s, t, places) implies agree_on(
        run(plan, s),
        run(plan, t),
        places,
    ) by {
        lemma_snapshot_run(table, key, value, index, owner, member, between, s);
        lemma_snapshot_run(table, key, value, index, owner, member, between, t);
        assert(places.records.contains((table, key)));
        assert(peek(s, (table, key)) == peek(t, (table, key)));
        assert(agree_on(s, t, inner));
        assert(agree_on(run(between, s), run(between, t), inner));
        assert(agree_off(run(between, s), s, inner));
        assert(agree_off(run(between, t), t, inner));
        let ms = run(between, s);
        let mt = run(between, t);
        let es = run(plan, s);
        let et = run(plan, t);
        assert forall|at: (Table, Key)| places.records.contains(at) implies #[trigger] peek(es, at)
            == peek(et, at) by {
            assert(peek(s, at) == peek(t, at));
            if inner.records.contains(at) {
                assert(peek(ms, at) == peek(mt, at));
            } else {
                assert(peek(ms, at) == peek(s, at));
                assert(peek(mt, at) == peek(t, at));
            }
        }
        assert forall|link: (Index, u64, Key)|
            places.links.contains(link) implies #[trigger] es.links.contains(link)
            == et.links.contains(link) by {
            assert(s.links.contains(link) == t.links.contains(link));
            if inner.links.contains(link) {
                assert(ms.links.contains(link) == mt.links.contains(link));
            } else {
                assert(ms.links.contains(link) == s.links.contains(link));
                assert(mt.links.contains(link) == t.links.contains(link));
            }
        }
    }
    assert forall|s: Store| #[trigger] run(plan, run(plan, s)) == run(plan, s) by {
        lemma_snapshot_run(table, key, value, index, owner, member, between, s);
        lemma_snapshot_run(table, key, value, index, owner, member, between, run(plan, s));
    }
}

/// Whether a change is to one of the given tables or to a set of one of the given families.
pub open spec fn write_within(write: WriteView, tables: Set<Table>, indices: Set<Index>) -> bool {
    match write {
        WriteView::Put { table, .. } => tables.contains(table),
        WriteView::PutMany { table, .. } => tables.contains(table),
        WriteView::Delete { table, .. } => tables.contains(table),
        WriteView::Add { index, .. } => indices.contains(index),
        WriteView::AddMany { index, .. } => indices.contains(index),
        WriteView::Remove { index, .. } => indices.contains(index),
        WriteView::Clear { index, .. } => indices.contains(index),
    }
}

/// Whether a plan is made of changes to the given tables and families alone.
pub open spec fn within(plan: Seq<StepView>, tables: Set<Table>, indices: Set<Index>) -> bool {
    forall|i: int|
        0 <= i < plan.len() ==> (#[trigger] plan[i]) is Write && write_within(
            plan[i]->Write_0,
            tables,
            indices,
        )
}

/// Two plans of changes to some tables and families make one such plan.
pub proof fn lemma_within_both(
    a: Seq<StepView>,
    b: Seq<StepView>,
    tables: Set<Table>,
    indices: Set<Index>,
)
    requires
        within(a, tables, indices),
        within(b, tables, indices),
    ensures
        within(a + b, tables, indices),
{
    assert forall|i: int| 0 <= i < (a + b).len() implies (#[trigger] (a + b)[i]) is Write
        && write_within((a + b)[i]->Write_0, tables, indices) by {
        if i < a.len() {
            assert((a + b)[i] == a[i]);
        } else {
            assert((a + b)[i] == b[i - a.len()]);
        }
    }
}

/// A plan of changes to some tables and families settles the places in them.
pub proof fn lemma_within_settles(plan: Seq<StepView>, tables: Set<Table>, indices: Set<Index>)
    requires
        within(plan, tables, indices),
    ensures
        settles(plan, places_in(tables, indices)),
        all_writes(plan),
{
    let writes = writes_of(plan);
    assert(as_steps(writes) =~= plan) by {
        assert forall|i: int| 0 <= i < plan.len() implies as_steps(writes)[i] == plan[i] by {
            assert(plan[i] is Write);
        }
    }
    lemma_settles_writes(writes);
    let places = places_of(writes);
    let more = places_in(tables, indices);
    assert forall|at: (Table, Key)| places.records.contains(at) implies more.records.contains(at) by {
        let i = choose|i: int| 0 <= i < writes.len() && (#[trigger] writes[i]).sets_record(at);
        assert(plan[i] is Write);
    }
    assert forall|link: (Index, u64, Key)| places.links.contains(link) implies more.links.contains(
        link,
    ) by {
        let i = choose|i: int| 0 <= i < writes.len() && (#[trigger] writes[i]).sets_link(link);
        assert(plan[i] is Write);
    }
    lemma_settles_more(plan, places, more);
}

/// A plan that settles places in some tables and families, followed by one that settles places
/// in others, settles the places in all of them.
pub proof fn lemma_settles_next(
    a: Seq<StepView>,
    tables: Set<Table>,
    indices: Set<Index>,
    b: Seq<StepView>,
    more_tables: Set<Table>,
    more_indices: Set<Index>,
)
    requires
        settles(a, places_in(tables, indices)),
        settles(b, places_in(more_tables, more_indices)),
        tables.disjoint(more_tables),
        indices.disjoint(more_indices),
    ensures
        settles(a + b, places_in(tables + more_tables, indices + more_indices)),
{
    let x = places_in(tables, indices);
    let y = places_in(more_tables, more_indices);
    assert(disjoint(x, y));
    lemma_settles_both(a, x, b, y);
    let all = places_in(tables + more_tables, indices + more_indices);
    assert(join(x, y).records =~= all.records);
    assert(join(x, y).links =~= all.links);
}

/// A batch changes its table and its family of sets alone.
pub proof fn lemma_batch_within<T: Identified>(
    table: Table,
    index: Index,
    owner: u64,
    items: Seq<T>,
    scoped: bool,
    composite: bool,
)
    ensures
        within(batch_plan(table, index, owner, items, scoped, composite), set![table], set![index]),
{
}

/// Storing one child changes its table and its family of sets alone.
pub proof fn lemma_upsert_within<T: Identified>(
    table: Table,
    index: Index,
    owner: u64,
    item: T,
    scoped: bool,
    composite: bool,
)
    ensures
        within(upsert_plan(table, index, owner, item, scoped, composite), set![table], set![index]),
{
}

/// Storing a guild, members apart, is made of changes alone; storing its members settles the
/// places of members and users.
proof fn lemma_guild_settles(wanted: Set<ResourceKind>, guild: Guild)
    ensures
        settles(
            guild_plan(wanted, guild),
            places_in(
                set![
                    Table::ChannelsGuild,
                    Table::Emojis,
                    Table::Members,
                    Table::Users,
                    Table::Presences,
                    Table::Roles,
                    Table::StageInstances,
                    Table::Guilds,
                ],
                set![
                    Index::GuildChannels,
                    Index::GuildEmojis,
                    Index::GuildMembers,
                    Index::UserGuilds,
                    Index::GuildPresences,
                    Index::GuildRoles,
                    Index::GuildStageInstances,
                    Index::UnavailableGuilds,
                ],
            ),
        ),
{
    let id = guild.attributes.id;
    let none = Seq::<StepView>::empty();
    // channels and threads
    let t1 = set![Table::ChannelsGuild];
    let i1 = set![Index::GuildChannels];
    let c = guild_channels_plan(id, guild.channels@);
    let t = guild_channels_plan(id, guild.threads@);
    let x1 = where_wanted(wanted, ResourceKind::Channel, c + t);
    lemma_batch_within(
        Table::ChannelsGuild,
        Index::GuildChannels,
        id,
        guild.channels@.map_values(|c: crate::model::GuildChannel| crate::event::channel::stamped(id, c)),
        true,
        false,
    );
    lemma_batch_within(
        Table::ChannelsGuild,
        Index::GuildChannels,
        id,
        guild.threads@.map_values(|c: crate::model::GuildChannel| crate::event::channel::stamped(id, c)),
        true,
        false,
    );
    lemma_within_both(c, t, t1, i1);
    assert(within(none, t1, i1));
    lemma_within_settles(x1, t1, i1);
    // emojis
    let t2 = set![Table::Emojis];
    let i2 = set![Index::GuildEmojis];
    let x2 = where_wanted(wanted, ResourceKind::Emoji, emojis_plan(id, guild.emojis@));
    lemma_batch_within(Table::Emojis, Index::GuildEmojis, id, guild.emojis@, true, false);
    assert(within(none, t2, i2));
    lemma_within_settles(x2, t2, i2);
    lemma_settles_next(x1, t1, i1, x2, t2, i2);
    // members
    let t3 = set![Table::Members, Table::Users];
    let i3 = set![Index::GuildMembers, Index::UserGuilds];
    let x3 = where_wanted(wanted, ResourceKind::Member, members_plan(id, guild.members@));
    crate::second::lemma_members_settle(id, guild.members@);
    assert(within(none, t3, i3));
    lemma_within_settles(none, t3, i3);
    lemma_settles_next(x1 + x2, t1 + t2, i1 + i2, x3, t3, i3);
    // presences
    let t4 = set![Table::Presences];
    let i4 = set![Index::GuildPresences];
    let x4 = where_wanted(wanted, ResourceKind::Presence, presences_plan(id, guild.presences@));
    lemma_batch_within(Table::Presences, Index::GuildPresences, id, guild.presences@, false, true);
    assert(within(none, t4, i4));
    lemma_within_settles(x4, t4, i4);
    lemma_settles_next(x1 + x2 + x3, t1 + t2 + t3, i1 + i2 + i3, x4, t4, i4);
    // roles
    let t5 = set![Table::Roles];
    let i5 = set![Index::GuildRoles];
    let x5 = where_wanted(wanted, ResourceKind::Role, roles_plan(id, guild.roles@));
    lemma_batch_within(Table::Roles, Index::GuildRoles, id, guild.roles@, true, false);
    assert(within(none, t5, i5));
    lemma_within_settles(x5, t5, i5);
    lemma_settles_next(x1 + x2 + x3 + x4, t1 + t2 + t3 + t4, i1 + i2 + i3 + i4, x5, t5, i5);
    // stages
    let t6 = set![Table::StageInstances];
    let i6 = set![Index::GuildStageInstances];
    let x6 = where_wanted(
        wanted,
        ResourceKind::StageInstance,
        stage_instances_plan(id, guild.stage_instances@),
    );
    lemma_batch_within(
        Table::StageInstances,
        Index::GuildStageInstances,
        id,
        guild.stage_instances@,
        false,
        false,
    );
    assert(within(none, t6, i6));
    lemma_within_settles(x6, t6, i6);
    lemma_settles_next(
        x1 + x2 + x3 + x4 + x5,
        t1 + t2 + t3 + t4 + t5,
        i1 + i2 + i3 + i4 + i5,
        x6,
        t6,
        i6,
    );
    // the guild itself
    let t7 = set![Table::Guilds];
    let i7 = set![Index::UnavailableGuilds];
    let x7 = guild_record_plan(guild.attributes);
    assert(within(x7, t7, i7));
    lemma_within_settles(x7, t7, i7);
    lemma_settles_next(
        x1 + x2 + x3 + x4 + x5 + x6,
        t1 + t2 + t3 + t4 + t5 + t6,
        i1 + i2 + i3 + i4 + i5 + i6,
        x7,
        t7,
        i7,
    );
    let tables = t1 + t2 + t3 + t4 + t5 + t6 + t7;
    let indices = i1 + i2 + i3 + i4 + i5 + i6 + i7;
    assert(tables =~= set![
        Table::ChannelsGuild,
        Table::Emojis,
        Table::Members,
        Table::Users,
        Table::Presences,
        Table::Roles,
        Table::StageInstances,
        Table::Guilds,
    ]);
    assert(indices =~= set![
        Index::GuildChannels,
        Index::GuildEmojis,
        Index::GuildMembers,
        Index::UserGuilds,
        Index::GuildPresences,
        Index::GuildRoles,
        Index::GuildStageInstances,
        Index::UnavailableGuilds,
    ]);
}

/// A new message's plan settles the places of users, members and messages.
proof fn lemma_message_settles(wanted: Set<ResourceKind>, event: MessageCreate)
    ensures
        settles(
            message_create_plan(wanted, event),
            places_in(
                set![Table::Users, Table::Members, Table::Messages],
                set![Index::UserGuilds, Index::GuildMembers, Index::ChannelMessages],
            ),
        ),
{
    let none = Seq::<StepView>::empty();
    let t1 = set![Table::Users];
    let i1 = set![Index::UserGuilds];
    let x1 = if wanted.contains(ResourceKind::User) {
        user_plan(event.author, event.message.guild_id)
    } else {
        none
    };
    lemma_user_settles(event.author, event.message.guild_id);
    let exact = user_places(event.author.id, event.message.guild_id);
    assert(exact.records.subset_of(places_in(t1, i1).records));
    assert(exact.links.subset_of(places_in(t1, i1).links));
    lemma_settles_more(user_plan(event.author, event.message.guild_id), exact, places_in(t1, i1));
    assert(within(none, t1, i1));
    lemma_within_settles(none, t1, i1);
    let t2 = set![Table::Members];
    let i2 = set![Index::GuildMembers];
    let x2 = if wanted.contains(ResourceKind::Member) {
        echo_plan(event)
    } else {
        none
    };
    assert(within(none, t2, i2));
    lemma_within_settles(none, t2, i2);
    match (event.member, event.message.guild_id) {
        (Some(member), Some(guild_id)) => {
            lemma_settles_writes(Seq::empty());
            assert(as_steps(Seq::empty()) =~= none);
            let own = Places {
                records: set![(Table::Members, Key::Pair(guild_id, event.author.id))],
                links: set![(Index::GuildMembers, guild_id, Key::Id(event.author.id))],
            };
            lemma_snapshot_settles(
                Table::Members,
                Key::Pair(guild_id, event.author.id),
                data_wire(
                    crate::event::member::cached_partial(guild_id, member, event.author.id).data(),
                ),
                Index::GuildMembers,
                guild_id,
                Key::Id(event.author.id),
                none,
                places_of(Seq::empty()),
            );
            let got = join(own, places_of(Seq::empty()));
            assert(got.records.subset_of(places_in(t2, i2).records));
            assert(got.links.subset_of(places_in(t2, i2).links));
            lemma_settles_more(
                partial_member_plan(guild_id, member, event.author.id),
                got,
                places_in(t2, i2),
            );
        },
        _ => {},
    }
    lemma_settles_next(x1, t1, i1, x2, t2, i2);
    let t3 = set![Table::Messages];
    let i3 = set![Index::ChannelMessages];
    let x3 = if wanted.contains(ResourceKind::Message) {
        message_plan(event.message)
    } else {
        none
    };
    lemma_upsert_within(
        Table::Messages,
        Index::ChannelMessages,
        event.message.channel_id,
        event.message,
        false,
        false,
    );
    assert(within(none, t3, i3));
    lemma_within_settles(x3, t3, i3);
    lemma_settles_next(x1 + x2, t1 + t2, i1 + i2, x3, t3, i3);
    assert(t1 + t2 + t3 =~= set![Table::Users, Table::Members, Table::Messages]);
    assert(i1 + i2 + i3 =~= set![
        Index::UserGuilds,
        Index::GuildMembers,
        Index::ChannelMessages,
    ]);
}

/// A user that joins: the member's plan and the link that follows it, carried out a second
/// time, change nothing.
proof fn lemma_member_add_twice(guild_id: u64, member: Member, store: Store)
    ensures
        ({
            let plan = member_plan(guild_id, member).push(
                StepView::Write(
                    WriteView::Add {
                        index: Index::GuildMembers,
                        owner: guild_id,
                        member: Key::Id(member.user.id),
                    },
                ),
            );
            run(plan, run(plan, store)) == run(plan, store)
        }),
{
    let inner = member_plan(guild_id, member);
    let add = WriteView::Add {
        index: Index::GuildMembers,
        owner: guild_id,
        member: Key::Id(member.user.id),
    };
    let last = seq![StepView::Write(add)];
    let plan = inner.push(StepView::Write(add));
    assert(plan =~= inner + last);
    let key = Key::Pair(guild_id, member.user.id);
    let value = data_wire(crate::event::member::cached_member(guild_id, member).data());
    let between = user_plan(member.user, Some(guild_id));
    lemma_user_run(member.user, Some(guild_id), store);
    lemma_snapshot_run(
        Table::Members,
        key,
        value,
        Index::GuildMembers,
        guild_id,
        Key::Id(member.user.id),
        between,
        store,
    );
    lemma_run_closed(inner, last, store);
    let s1 = run(inner, store);
    lemma_run_first(StepView::Write(add), Seq::empty(), s1);
    assert(last + Seq::<StepView>::empty() =~= last);
    let s2 = add.apply(s1);
    assert(run(plan, store) == s2);
    assert(peek(s1, (Table::Members, key)) == Some(value));
    assert(peek(s2, (Table::Members, key)) == Some(value));
    lemma_snapshot_run(
        Table::Members,
        key,
        value,
        Index::GuildMembers,
        guild_id,
        Key::Id(member.user.id),
        between,
        s2,
    );
    lemma_run_closed(inner, last, s2);
    lemma_run_first(StepView::Write(add), Seq::empty(), s2);
    assert(add.apply(s2).links =~= s2.links);
}

/// The bytes that a member of a guild is stored as.
pub open spec fn member_value(guild_id: u64, member: Member) -> Seq<u8> {
    data_wire(crate::event::member::cached_member(guild_id, member).data())
}

/// A part of a guild's members: the members' plan and the links that follow it, carried out
/// a second time, change nothing.
proof fn lemma_member_chunk_twice(guild_id: u64, members: Seq<Member>, store: Store)
    ensures
        ({
            let plan = members_plan(guild_id, members).push(
                StepView::Write(
                    WriteView::AddMany {
                        index: Index::GuildMembers,
                        owner: guild_id,
                        members: crate::event::member::member_keys(members),
                    },
                ),
            );
            run(plan, run(plan, store)) == run(plan, store)
        }),
{
    let inner = members_plan(guild_id, members);
    let add = WriteView::AddMany {
        index: Index::GuildMembers,
        owner: guild_id,
        members: crate::event::member::member_keys(members),
    };
    let last = seq![StepView::Write(add)];
    let plan = inner.push(StepView::Write(add));
    assert(plan =~= inner + last);
    crate::second::lemma_members_closed(guild_id, members);
    lemma_run_closed(inner, last, store);
    let s1 = run(inner, store);
    lemma_run_first(StepView::Write(add), Seq::empty(), s1);
    assert(last + Seq::<StepView>::empty() =~= last);
    let s2 = add.apply(s1);
    assert(run(plan, store) == s2);
    assert forall|link: (Index, u64, Key)| #[trigger]
        s2.links.contains(link) && !s1.links.contains(link) implies link.0 == Index::GuildMembers
        && link.1 == guild_id && link.2 is Id by {
        let keys = crate::event::member::member_keys(members);
        let i = choose|i: int| 0 <= i < keys.len() && keys[i] == link.2;
    }
    crate::second::lemma_members_again(guild_id, members, store, s2);
    lemma_run_closed(inner, last, s2);
    lemma_run_first(StepView::Write(add), Seq::empty(), s2);
    assert(add.apply(s2).links =~= s2.links);
}

impl Event {
    /// Whether an event carries a resource whole, to be stored as it is.
    pub open spec fn stores(self) -> bool {
        match self {
            Event::ChannelCreate(_)
            | Event::GuildCreate(_)
            | Event::IntegrationCreate(_)
            | Event::MemberAdd(_)
            | Event::MemberChunk(_)
            | Event::MessageCreate(_)
            | Event::PresenceUpdate(_)
            | Event::RoleCreate(_)
            | Event::StageInstanceCreate(_)
            | Event::ThreadCreate(_)
            | Event::ThreadListSync(_)
            | Event::UnavailableGuild(_) => true,
            _ => false,
        }
    }
}

/// Upsert idempotence: carrying out the plan of an event that stores a resource a second
/// time leaves every record and every set as the first time left them.
pub proof fn law_create_twice(event: Event, wanted: Set<ResourceKind>, store: Store)
    requires
        event.stores(),
    ensures
        run(event.plan(wanted), run(event.plan(wanted), store)) == run(event.plan(wanted), store),
{
    let plan = event.plan(wanted);
    match event {
        Event::GuildCreate(v) => {
            if wanted.contains(ResourceKind::Guild) {
                lemma_guild_settles(wanted, v.0);
            } else {
                law_changes_twice(plan, store);
            }
        },
        Event::MessageCreate(v) => {
            lemma_message_settles(wanted, v);
        },
        Event::MemberAdd(v) => {
            if wanted.contains(ResourceKind::Member) {
                lemma_member_add_twice(v.guild_id, v.member, store);
            } else {
                law_changes_twice(plan, store);
            }
        },
        Event::MemberChunk(v) => {
            if wanted.contains(ResourceKind::Member) && v.members@.len() > 0 {
                lemma_member_chunk_twice(v.guild_id, v.members@, store);
            } else {
                law_changes_twice(plan, store);
            }
        },
        Event::ThreadListSync(v) => {
            if wanted.contains(ResourceKind::Channel) {
                lemma_batch_within(
                    Table::ChannelsGuild,
                    Index::GuildChannels,
                    v.guild_id,
                    crate::event::thread::guild_threads(v.threads@).map_values(
                        |c: crate::model::GuildChannel|
                            crate::event::channel::stamped(v.guild_id, c),
                    ),
                    true,
                    false,
                );
                lemma_within_settles(
                    plan,
                    set![Table::ChannelsGuild],
                    set![Index::GuildChannels],
                );
            }
            law_changes_twice(plan, store);
        },
        _ => {
            assert(all_writes(plan));
            law_changes_twice(plan, store);
        },
    }
}

} // verus!
