use cache::event::guild::GuildDelete;
use cache::event::member::MemberRemove;
use cache::event::role::{RoleCreate, RoleDelete};
use cache::key::{decode_members, decode_members_counted};
use cache::model::{Role, User};
use cache::plan::Step;
use cache::record;
use cache::run::{request_of, Run};
use cache::store::{Index, Key, Reply, Request, Table, Write};
use cache::{CacheError, Config, Event, InRedisCache, ResourceKind, ResourceType};

fn only(kinds: &[ResourceKind]) -> InRedisCache {
    let mut types = ResourceType::empty();
    for kind in kinds {
        types = types.with(*kind);
    }
    InRedisCache::with_config(Config::tracking(types))
}

#[test]
fn a_plan_of_changes_is_sent_in_order() {
    let cache = InRedisCache::new();
    let role = Role { id: 2, body: vec![3] };
    let mut run = Run::new(
        cache.update(&Event::RoleCreate(RoleCreate { guild_id: 1, role: role.clone() })),
    );
    assert_eq!(
        run.request(),
        Some(Request::Write(Write::Put {
            table: Table::Roles,
            key: Key::Id(2),
            value: record::encode_scoped(1, &role),
        }))
    );
    // asking again changes nothing
    assert!(matches!(run.request(), Some(Request::Write(Write::Put { .. }))));
    run.feed(Reply::Done(true));
    assert_eq!(
        run.request(),
        Some(Request::Write(Write::Add { index: Index::GuildRoles, owner: 1, member: Key::Id(2) }))
    );
    run.feed(Reply::Done(true));
    assert_eq!(run.request(), None);
    assert_eq!(run.failure(), None);
}

#[test]
fn a_delete_removes_the_link_only_where_the_record_was_there() {
    let cache = InRedisCache::new();
    let event = Event::RoleDelete(RoleDelete { guild_id: 1, role_id: 2 });
    let mut run = Run::new(cache.update(&event));
    assert_eq!(
        run.request(),
        Some(Request::Write(Write::Delete { table: Table::Roles, key: Key::Id(2) }))
    );
    run.feed(Reply::Done(true));
    assert_eq!(
        run.request(),
        Some(Request::Write(Write::Remove {
            index: Index::GuildRoles,
            owner: 1,
            member: Key::Id(2)
        }))
    );
    run.feed(Reply::Done(true));
    assert_eq!(run.request(), None);

    let mut run = Run::new(cache.update(&event));
    run.feed(Reply::Done(false));
    assert_eq!(run.request(), None);
    assert_eq!(run.failure(), None);
}

#[test]
fn a_sweep_deletes_the_children_before_the_set_and_the_parent_last() {
    let cache = only(&[ResourceKind::Guild, ResourceKind::Member, ResourceKind::Role]);
    let mut run = Run::new(cache.update(&Event::GuildDelete(GuildDelete { id: 1 })));
    assert_eq!(run.request(), Some(Request::Members { index: Index::GuildMembers, owner: 1 }));
    run.feed(Reply::Members(vec![Key::Id(7), Key::Id(8)]));
    let mut sent = vec![];
    while let Some(request) = run.request() {
        let reply = match &request {
            Request::Members { index: Index::GuildRoles, owner: 1 } => {
                Reply::Members(vec![Key::Id(40)])
            }
            Request::Write(_) => Reply::Done(true),
            other => panic!("{:?}", other),
        };
        sent.push(request);
        run.feed(reply);
    }
    assert_eq!(
        sent,
        vec![
            Request::Write(Write::Delete { table: Table::Members, key: Key::Pair(1, 7) }),
            Request::Write(Write::Delete { table: Table::Members, key: Key::Pair(1, 8) }),
            Request::Write(Write::Clear { index: Index::GuildMembers, owner: 1 }),
            Request::Members { index: Index::GuildRoles, owner: 1 },
            Request::Write(Write::Delete { table: Table::Roles, key: Key::Id(40) }),
            Request::Write(Write::Clear { index: Index::GuildRoles, owner: 1 }),
            Request::Write(Write::Delete { table: Table::Guilds, key: Key::Id(1) }),
        ]
    );
    assert_eq!(run.failure(), None);
}

#[test]
fn a_failure_ends_the_plan() {
    let cache = InRedisCache::new();
    let mut run = Run::new(cache.update(&Event::GuildDelete(GuildDelete { id: 1 })));
    assert!(run.request().is_some());
    run.feed(Reply::Failed(CacheError::StoreUnavailable));
    assert_eq!(run.request(), None);
    assert_eq!(run.failure(), Some(CacheError::StoreUnavailable));

    let mut run = Run::new(cache.update(&Event::RoleCreate(RoleCreate {
        guild_id: 1,
        role: Role { id: 2, body: vec![] },
    })));
    run.feed(Reply::Done(true));
    run.feed(Reply::Failed(CacheError::StoreOperationFailed));
    assert_eq!(run.request(), None);
    assert_eq!(run.failure(), Some(CacheError::StoreOperationFailed));
}

#[test]
fn an_answer_of_the_wrong_sort_ends_the_plan() {
    let cache = InRedisCache::new();
    let mut run = Run::new(cache.update(&Event::GuildDelete(GuildDelete { id: 1 })));
    // the members of a set were asked for
    run.feed(Reply::Done(true));
    assert_eq!(run.request(), None);
    assert_eq!(run.failure(), Some(CacheError::StoreOperationFailed));

    let mut run = Run::new(cache.update(&Event::RoleDelete(RoleDelete { guild_id: 1, role_id: 2 })));
    run.feed(Reply::Record(None));
    assert_eq!(run.request(), None);
    assert_eq!(run.failure(), Some(CacheError::StoreOperationFailed));
}

#[test]
fn a_user_is_pruned_with_the_last_guild() {
    let cache = only(&[ResourceKind::Member]);
    let event = Event::MemberRemove(MemberRemove { guild_id: 1, user: User { id: 7, body: vec![] } });
    let start = |run: &mut Run| {
        assert_eq!(
            run.request(),
            Some(Request::Write(Write::Delete { table: Table::Members, key: Key::Pair(1, 7) }))
        );
        run.feed(Reply::Done(false));
        assert_eq!(run.request(), Some(Request::Members { index: Index::UserGuilds, owner: 7 }));
    };
    // seen through another guild too: only the link goes
    let mut run = Run::new(cache.update(&event));
    start(&mut run);
    run.feed(Reply::Members(vec![Key::Id(2), Key::Id(1)]));
    assert_eq!(
        run.request(),
        Some(Request::Write(Write::Remove {
            index: Index::UserGuilds,
            owner: 7,
            member: Key::Id(1)
        }))
    );
    run.feed(Reply::Done(true));
    assert_eq!(run.request(), None);
    // seen through this guild alone: the user and the set go
    for members in [vec![Key::Id(1)], vec![]] {
        let mut run = Run::new(cache.update(&event));
        start(&mut run);
        run.feed(Reply::Members(members));
        assert_eq!(
            run.request(),
            Some(Request::Write(Write::Delete { table: Table::Users, key: Key::Id(7) }))
        );
        run.feed(Reply::Done(true));
        assert_eq!(
            run.request(),
            Some(Request::Write(Write::Clear { index: Index::UserGuilds, owner: 7 }))
        );
        run.feed(Reply::Done(true));
        assert_eq!(run.request(), None);
    }
}

#[test]
fn an_empty_plan_asks_for_nothing() {
    let run = Run::new(vec![]);
    assert_eq!(run.request(), None);
    assert_eq!(run.failure(), None);
}

#[test]
fn the_first_request_of_each_step() {
    assert_eq!(
        request_of(&Step::Guard { table: Table::Users, key: Key::Id(1), value: vec![], span: 1 }),
        Request::Get { table: Table::Users, key: Key::Id(1) }
    );
    assert_eq!(
        request_of(&Step::Sweep {
            index: Index::GuildRoles,
            owner: 1,
            table: Table::Roles,
            composite: false
        }),
        Request::Members { index: Index::GuildRoles, owner: 1 }
    );
    assert_eq!(
        request_of(&Step::Retire {
            table: Table::Roles,
            key: Key::Id(2),
            index: Index::GuildRoles,
            owner: 1,
            member: Key::Id(2)
        }),
        Request::Write(Write::Delete { table: Table::Roles, key: Key::Id(2) })
    );
}

#[test]
fn members_that_are_no_keys_are_left_out() {
    let raw = vec![
        Key::Id(5).encode().unwrap(),
        vec![0xc0],
        Key::Pair(1, 300).encode().unwrap(),
        vec![],
        Key::Id(70000).encode().unwrap(),
    ];
    assert_eq!(decode_members(&raw), vec![Key::Id(5), Key::Pair(1, 300), Key::Id(70000)]);
    assert_eq!(decode_members(&vec![]), vec![]);
    // the host is told how many were left out
    assert_eq!(
        decode_members_counted(&raw),
        (vec![Key::Id(5), Key::Pair(1, 300), Key::Id(70000)], 2)
    );
    assert_eq!(decode_members_counted(&vec![]), (vec![], 0));
    assert_eq!(decode_members_counted(&vec![vec![0xcc, 0x05]]), (vec![], 1));
}

#[test]
fn a_run_that_ends_well_records_no_failure() {
    let cache = InRedisCache::new();
    // the last step is done after a good reply
    let mut run = Run::new(cache.update(&Event::RoleDelete(RoleDelete { guild_id: 1, role_id: 2 })));
    run.feed(Reply::Done(false));
    assert_eq!(run.request(), None);
    assert_eq!(run.failure(), None);
    // nothing is left: a further answer changes nothing
    run.feed(Reply::Failed(CacheError::StoreUnavailable));
    assert_eq!(run.request(), None);
    assert_eq!(run.failure(), None);
    // a failure that comes with the last step is recorded as it is
    let mut run = Run::new(cache.update(&Event::RoleDelete(RoleDelete { guild_id: 1, role_id: 2 })));
    run.feed(Reply::Failed(CacheError::EncodeError));
    assert_eq!(run.failure(), Some(CacheError::EncodeError));
}
