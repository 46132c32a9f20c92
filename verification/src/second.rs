use crate::codec::data_wire;
use crate::event::member::{member_plan, Member, members_plan};
use crate::event::user_plan;
use crate::plan::run;
use crate::record::Record;
use crate::repeat::{
    agree_off, agree_on, closed, lemma_run_closed, lemma_same_store, peek, Places, settles,
};
use crate::store::{apply_all, Index, Key, Store, Table};
use crate::twice::{lemma_snapshot_run, lemma_user_run, member_value, places_in, user_writes};
use vstd::prelude::*;

verus! {

/// The user whose member or user record stands under a key, among the members of one guild.
pub open spec fn record_owner(guild_id: u64, at: (Table, Key)) -> Option<u64> {
    match at {
        (Table::Members, Key::Pair(guild, user)) => if guild == guild_id {
            Some(user)
        } else {
            None
        },
        (Table::Users, Key::Id(user)) => Some(user),
        _ => None,
    }
}

/// The user that a link of a guild's members, or of a user's guilds, is about.
pub open spec fn link_owner(guild_id: u64, link: (Index, u64, Key)) -> Option<u64> {
    match link {
        (Index::GuildMembers, guild, Key::Id(user)) => if guild == guild_id {
            Some(user)
        } else {
            None
        },
        (Index::UserGuilds, user, Key::Id(guild)) => if guild == guild_id {
            Some(user)
        } else {
            None
        },
        _ => None,
    }
}

/// Whether two stores hold the same at every place of one user as a member of one guild.
pub open spec fn same_for(a: Store, b: Store, guild_id: u64, user_id: u64) -> bool {
    &&& forall|at: (Table, Key)|
        record_owner(guild_id, at) == Some(user_id) ==> #[trigger] peek(a, at) == peek(b, at)
    &&& forall|link: (Index, u64, Key)|
        link_owner(guild_id, link) == Some(user_id) ==> #[trigger] a.links.contains(link)
            == b.links.contains(link)
}

/// Whether two stores hold the same at every place of every user but one.
pub open spec fn same_but_for(a: Store, b: Store, guild_id: u64, user_id: u64) -> bool {
    &&& forall|at: (Table, Key)|
        record_owner(guild_id, at) != Some(user_id) ==> #[trigger] peek(a, at) == peek(b, at)
    &&& forall|link: (Index, u64, Key)|
        link_owner(guild_id, link) != Some(user_id) ==> #[trigger] a.links.contains(link)
            == b.links.contains(link)
}

/// The key of a member's record.
pub open spec fn member_key(guild_id: u64, user_id: u64) -> (Table, Key) {
    (Table::Members, Key::Pair(guild_id, user_id))
}

/// The link that puts a user among the members of a guild.
pub open spec fn member_link(guild_id: u64, user_id: u64) -> (Index, u64, Key) {
    (Index::GuildMembers, guild_id, Key::Id(user_id))
}

/// What storing one member comes to: nothing where the store holds the member already; else
/// the member's record, the user's record and both links, whatever stood there before. The
/// places of other users stay as they are.
pub proof fn lemma_block(guild_id: u64, member: Member, store: Store)
    ensures
        closed(member_plan(guild_id, member)),
        peek(store, member_key(guild_id, member.user.id)) == Some(member_value(guild_id, member))
            ==> run(member_plan(guild_id, member), store) == store,
        same_but_for(run(member_plan(guild_id, member), store), store, guild_id, member.user.id),
        peek(
            run(member_plan(guild_id, member), store),
            member_key(guild_id, member.user.id),
        ) == Some(member_value(guild_id, member)),
        forall|other: Store|
            peek(store, member_key(guild_id, member.user.id)) != Some(
                member_value(guild_id, member),
            ) && peek(other, member_key(guild_id, member.user.id)) != Some(
                member_value(guild_id, member),
            ) ==> #[trigger] same_for(
                run(member_plan(guild_id, member), store),
                run(member_plan(guild_id, member), other),
                guild_id,
                member.user.id,
            ),
        peek(store, member_key(guild_id, member.user.id)) != Some(member_value(guild_id, member))
            ==> run(member_plan(guild_id, member), store).links.contains(
            member_link(guild_id, member.user.id),
        ),
{
    let user = member.user.id;
    lemma_made(guild_id, member, store);
    assert forall|other: Store|
        peek(store, member_key(guild_id, user)) != Some(member_value(guild_id, member)) && peek(
            other,
            member_key(guild_id, user),
        ) != Some(member_value(guild_id, member)) implies #[trigger] same_for(
        run(member_plan(guild_id, member), store),
        run(member_plan(guild_id, member), other),
        guild_id,
        user,
    ) by {
        lemma_made(guild_id, member, other);
    }
}

/// The store after a member was written over whatever stood at the member's places.
pub open spec fn made(guild_id: u64, member: Member, store: Store) -> Store {
    let user = member.user.id;
    Store {
        records: store.records.insert(
            (Table::Users, Key::Id(user)),
            data_wire(member.user.data()),
        ).insert(member_key(guild_id, user), member_value(guild_id, member)),
        links: store.links.insert((Index::UserGuilds, user, Key::Id(guild_id))).insert(
            member_link(guild_id, user),
        ),
    }
}

proof fn lemma_made(guild_id: u64, member: Member, store: Store)
    ensures
        closed(member_plan(guild_id, member)),
        run(member_plan(guild_id, member), store) == if peek(
            store,
            member_key(guild_id, member.user.id),
        ) == Some(member_value(guild_id, member)) {
            store
        } else {
            made(guild_id, member, store)
        },
        same_but_for(run(member_plan(guild_id, member), store), store, guild_id, member.user.id),
        peek(
            run(member_plan(guild_id, member), store),
            member_key(guild_id, member.user.id),
        ) == Some(member_value(guild_id, member)),
{
    let user = member.user.id;
    lemma_user_run(member.user, Some(guild_id), store);
    lemma_snapshot_run(
        Table::Members,
        Key::Pair(guild_id, user),
        member_value(guild_id, member),
        Index::GuildMembers,
        guild_id,
        Key::Id(user),
        user_plan(member.user, Some(guild_id)),
        store,
    );
    let writes = user_writes(member.user, Some(guild_id));
    reveal_with_fuel(apply_all, 3);
    assert(writes.drop_first().drop_first() =~= Seq::empty());
    assert(writes.drop_first().first() == writes[1]);
    let after = run(member_plan(guild_id, member), store);
    if peek(store, member_key(guild_id, user)) != Some(member_value(guild_id, member)) {
        assert(after.records =~= made(guild_id, member, store).records);
        assert(after.links =~= made(guild_id, member, store).links);
    }
}

/// The plan that stores several members is closed.
pub proof fn lemma_members_closed(guild_id: u64, members: Seq<Member>)
    ensures
        closed(members_plan(guild_id, members)),
    decreases members.len(),
{
    if members.len() > 0 {
        let head = members_plan(guild_id, members.drop_last());
        let tail = member_plan(guild_id, members.last());
        lemma_members_closed(guild_id, members.drop_last());
        lemma_made(guild_id, members.last(), Store::empty());
        let both = head + tail;
        assert forall|i: int| 0 <= i < both.len() && (#[trigger] both[i]) is Guard implies i + 1
            + both[i]->Guard_span <= both.len() by {
            if i < head.len() {
                assert(both[i] == head[i]);
            } else {
                assert(both[i] == tail[i - head.len()]);
            }
        }
    }
}

/// The store after the first `i` of several members were stored.
pub open spec fn upto(guild_id: u64, members: Seq<Member>, i: int, store: Store) -> Store {
    run(members_plan(guild_id, members.subrange(0, i)), store)
}

/// The members are stored one after the other.
pub proof fn lemma_upto(guild_id: u64, members: Seq<Member>, i: int, store: Store)
    requires
        0 < i <= members.len(),
    ensures
        upto(guild_id, members, i, store) == run(
            member_plan(guild_id, members[i - 1]),
            upto(guild_id, members, i - 1, store),
        ),
{
    let some = members.subrange(0, i);
    assert(some.drop_last() =~= members.subrange(0, i - 1));
    assert(some.last() == members[i - 1]);
    lemma_members_closed(guild_id, some.drop_last());
    lemma_run_closed(
        members_plan(guild_id, some.drop_last()),
        member_plan(guild_id, some.last()),
        store,
    );
}

/// Storing members changes nothing but at the places of members of the guild.
pub proof fn lemma_members_off(guild_id: u64, members: Seq<Member>, i: int, store: Store)
    requires
        0 <= i <= members.len(),
    ensures
        forall|at: (Table, Key)|
            record_owner(guild_id, at) is None ==> #[trigger] peek(
                upto(guild_id, members, i, store),
                at,
            ) == peek(store, at),
        forall|link: (Index, u64, Key)|
            link_owner(guild_id, link) is None ==> #[trigger] upto(
                guild_id,
                members,
                i,
                store,
            ).links.contains(link) == store.links.contains(link),
    decreases i,
{
    if i == 0 {
        assert(members.subrange(0, 0) =~= Seq::<Member>::empty());
    } else {
        lemma_members_off(guild_id, members, i - 1, store);
        lemma_upto(guild_id, members, i, store);
        let before = upto(guild_id, members, i - 1, store);
        lemma_made(guild_id, members[i - 1], before);
        let after = upto(guild_id, members, i, store);
        assert forall|at: (Table, Key)| record_owner(guild_id, at) is None implies #[trigger] peek(
            after,
            at,
        ) == peek(store, at) by {
            assert(peek(after, at) == peek(before, at));
        }
        assert forall|link: (Index, u64, Key)|
            link_owner(guild_id, link) is None implies #[trigger] after.links.contains(link)
            == store.links.contains(link) by {
            assert(after.links.contains(link) == before.links.contains(link));
        }
    }
}

/// Whether a store is what storing the members left, but for links of members of the guild
/// that it holds besides.
pub open spec fn with_links(end: Store, again: Store, guild_id: u64) -> bool {
    &&& again.records == end.records
    &&& forall|link: (Index, u64, Key)| #[trigger]
        end.links.contains(link) ==> again.links.contains(link)
    &&& forall|link: (Index, u64, Key)| #[trigger]
        again.links.contains(link) && !end.links.contains(link) ==> link.0 == Index::GuildMembers
            && link.1 == guild_id && link.2 is Id
}

/// How a second pass stands to the first, at the places of one user, after as many members.
/// Either the second pass has left the places as it found them; or both passes have written
/// the same there; or the two agree on the member's record, which the first pass will still
/// change.
pub open spec fn in_step(
    guild_id: u64,
    user_id: u64,
    first: Store,
    second: Store,
    end: Store,
    again: Store,
) -> bool {
    ||| same_for(second, again, guild_id, user_id)
    ||| (same_for(second, first, guild_id, user_id) && first.links.contains(
        member_link(guild_id, user_id),
    ))
    ||| (peek(second, member_key(guild_id, user_id)) == peek(first, member_key(guild_id, user_id))
        && peek(first, member_key(guild_id, user_id)) != peek(end, member_key(guild_id, user_id)))
}

/// One member more, at the places of one user.
proof fn lemma_step(
    guild_id: u64,
    user_id: u64,
    member: Member,
    first: Store,
    second: Store,
    end: Store,
    again: Store,
)
    requires
        in_step(guild_id, user_id, first, second, end, again),
        with_links(end, again, guild_id),
    ensures
        in_step(
            guild_id,
            user_id,
            run(member_plan(guild_id, member), first),
            run(member_plan(guild_id, member), second),
            end,
            again,
        ),
{
    let plan = member_plan(guild_id, member);
    let f = run(plan, first);
    let s = run(plan, second);
    let key = member_key(guild_id, user_id);
    let value = Some(member_value(guild_id, member));
    lemma_block(guild_id, member, first);
    lemma_block(guild_id, member, second);
    assert(record_owner(guild_id, key) == Some(user_id));
    assert(link_owner(guild_id, member_link(guild_id, user_id)) == Some(user_id));
    if member.user.id != user_id {
        // the member is another user: the places of this one stay as they are
        assert(peek(f, key) == peek(first, key));
        assert(peek(s, key) == peek(second, key));
        assert(f.links.contains(member_link(guild_id, user_id)) == first.links.contains(
            member_link(guild_id, user_id),
        ));
        if same_for(second, again, guild_id, user_id) {
            assert(same_for(s, again, guild_id, user_id)) by {
                assert forall|at: (Table, Key)|
                    record_owner(guild_id, at) == Some(user_id) implies #[trigger] peek(s, at)
                    == peek(again, at) by {
                    assert(peek(s, at) == peek(second, at));
                }
                assert forall|link: (Index, u64, Key)|
                    link_owner(guild_id, link) == Some(user_id) implies #[trigger] s.links.contains(
                    link,
                ) == again.links.contains(link) by {
                    assert(s.links.contains(link) == second.links.contains(link));
                }
            }
        } else if same_for(second, first, guild_id, user_id) && first.links.contains(
            member_link(guild_id, user_id),
        ) {
            assert(same_for(s, f, guild_id, user_id)) by {
                assert forall|at: (Table, Key)|
                    record_owner(guild_id, at) == Some(user_id) implies #[trigger] peek(s, at)
                    == peek(f, at) by {
                    assert(peek(s, at) == peek(second, at));
                    assert(peek(f, at) == peek(first, at));
                }
                assert forall|link: (Index, u64, Key)|
                    link_owner(guild_id, link) == Some(user_id) implies #[trigger] s.links.contains(
                    link,
                ) == f.links.contains(link) by {
                    assert(s.links.contains(link) == second.links.contains(link));
                    assert(f.links.contains(link) == first.links.contains(link));
                }
            }
        }
    } else {
        let hit_first = peek(first, key) == value;
        let hit_second = peek(second, key) == value;
        if same_for(second, again, guild_id, user_id) {
            assert(peek(second, key) == peek(again, key));
            assert(peek(again, key) == peek(end, key));
            if hit_second {
            } else if hit_first {
                // the first pass passed the member over, the second writes it: the first
                // pass changes the record later
                assert(peek(s, key) == value);
                assert(peek(f, key) == value);
                assert(peek(f, key) != peek(end, key));
            } else {
                assert(same_for(s, f, guild_id, user_id));
            }
        } else if same_for(second, first, guild_id, user_id) && first.links.contains(
            member_link(guild_id, user_id),
        ) {
            assert(peek(second, key) == peek(first, key));
            if hit_first {
            } else {
                assert(same_for(s, f, guild_id, user_id));
            }
        } else {
            assert(peek(second, key) == peek(first, key));
            if hit_first {
            } else {
                assert(same_for(s, f, guild_id, user_id));
            }
        }
    }
}

/// The two passes, after the first `i` members, at the places of one user.
proof fn lemma_passes(
    guild_id: u64,
    user_id: u64,
    members: Seq<Member>,
    i: int,
    store: Store,
    again: Store,
)
    requires
        0 <= i <= members.len(),
        with_links(upto(guild_id, members, members.len() as int, store), again, guild_id),
    ensures
        in_step(
            guild_id,
            user_id,
            upto(guild_id, members, i, store),
            upto(guild_id, members, i, again),
            upto(guild_id, members, members.len() as int, store),
            again,
        ),
    decreases i,
{
    let end = upto(guild_id, members, members.len() as int, store);
    if i == 0 {
        assert(members.subrange(0, 0) =~= Seq::<Member>::empty());
        assert(upto(guild_id, members, 0, again) == again);
    } else {
        lemma_passes(guild_id, user_id, members, i - 1, store, again);
        lemma_upto(guild_id, members, i, store);
        lemma_upto(guild_id, members, i, again);
        lemma_step(
            guild_id,
            user_id,
            members[i - 1],
            upto(guild_id, members, i - 1, store),
            upto(guild_id, members, i - 1, again),
            end,
            again,
        );
    }
}

/// Storing members a second time changes nothing, whether or not a user comes twice among
/// them, and whether or not links of members of the guild were added in between.
pub proof fn lemma_members_again(guild_id: u64, members: Seq<Member>, store: Store, again: Store)
    requires
        with_links(run(members_plan(guild_id, members), store), again, guild_id),
    ensures
        run(members_plan(guild_id, members), again) == again,
{
    let n = members.len() as int;
    assert(members.subrange(0, n) =~= members);
    let end = upto(guild_id, members, n, store);
    let last = upto(guild_id, members, n, again);
    lemma_members_off(guild_id, members, n, again);
    assert forall|at: (Table, Key)| #[trigger] peek(last, at) == peek(again, at) by {
        match record_owner(guild_id, at) {
            Some(user) => {
                lemma_passes(guild_id, user, members, n, store, again);
                assert(peek(end, at) == peek(again, at));
            },
            None => {},
        }
    }
    assert forall|link: (Index, u64, Key)| #[trigger]
        last.links.contains(link) == again.links.contains(link) by {
        match link_owner(guild_id, link) {
            Some(user) => {
                lemma_passes(guild_id, user, members, n, store, again);
                if !same_for(last, again, guild_id, user) {
                    assert(same_for(last, end, guild_id, user));
                    assert(last.links.contains(link) == end.links.contains(link));
                    assert(end.links.contains(member_link(guild_id, user)));
                    assert(again.links.contains(member_link(guild_id, user)));
                }
            },
            None => {},
        }
    }
    lemma_same_store(last, again);
}

/// The places of members and users, and of the links between guilds and users.
pub open spec fn places_of_members() -> Places {
    places_in(
        set![Table::Members, Table::Users],
        set![Index::GuildMembers, Index::UserGuilds],
    )
}

/// What storing members leaves at the places of members and users depends on nothing but
/// what stood there.
proof fn lemma_members_depend(
    guild_id: u64,
    members: Seq<Member>,
    i: int,
    store: Store,
    other: Store,
)
    requires
        0 <= i <= members.len(),
        agree_on(store, other, places_of_members()),
    ensures
        agree_on(
            upto(guild_id, members, i, store),
            upto(guild_id, members, i, other),
            places_of_members(),
        ),
    decreases i,
{
    let places = places_of_members();
    if i == 0 {
        assert(members.subrange(0, 0) =~= Seq::<Member>::empty());
    } else {
        lemma_members_depend(guild_id, members, i - 1, store, other);
        lemma_upto(guild_id, members, i, store);
        lemma_upto(guild_id, members, i, other);
        let member = members[i - 1];
        let a = upto(guild_id, members, i - 1, store);
        let b = upto(guild_id, members, i - 1, other);
        lemma_made(guild_id, member, a);
        lemma_made(guild_id, member, b);
        let key = member_key(guild_id, member.user.id);
        assert(places.records.contains(key));
        assert(peek(a, key) == peek(b, key));
        let x = upto(guild_id, members, i, store);
        let y = upto(guild_id, members, i, other);
        assert forall|at: (Table, Key)| places.records.contains(at) implies #[trigger] peek(x, at)
            == peek(y, at) by {
            assert(peek(a, at) == peek(b, at));
        }
        assert forall|link: (Index, u64, Key)|
            places.links.contains(link) implies #[trigger] x.links.contains(link)
            == y.links.contains(link) by {
            assert(a.links.contains(link) == b.links.contains(link));
        }
    }
}

/// Storing several members settles the places of members and users, whether or not a user
/// comes twice among them.
pub proof fn lemma_members_settle(guild_id: u64, members: Seq<Member>)
    ensures
        settles(members_plan(guild_id, members), places_of_members()),
{
    let plan = members_plan(guild_id, members);
    let places = places_of_members();
    let n = members.len() as int;
    assert(members.subrange(0, n) =~= members);
    lemma_members_closed(guild_id, members);
    assert forall|s: Store| #[trigger] agree_off(run(plan, s), s, places) by {
        lemma_members_off(guild_id, members, n, s);
    }
    assert forall|s: Store, t: Store| #[trigger] agree_on(s, t, places) implies agree_on(
        run(plan, s),
        run(plan, t),
        places,
    ) by {
        lemma_members_depend(guild_id, members, n, s, t);
    }
    assert forall|s: Store| #[trigger] run(plan, run(plan, s)) == run(plan, s) by {
        lemma_members_again(guild_id, members, s, run(plan, s));
    }
}

} // verus!
