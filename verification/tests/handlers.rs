use cache::event::channel::{
    Channel, ChannelCreate, ChannelDelete, ChannelPinsUpdate, ChannelUpdate,
};
use cache::event::integration::{IntegrationCreate, IntegrationDelete, IntegrationUpdate};
use cache::event::member::{
    InteractionMember, Member, MemberAdd, MemberChunk, MemberUpdate, PartialMember,
};
use cache::event::message::{MessageCreate, MessageDeleteBulk};
use cache::event::presence::{presence_user_id, PresenceUpdate, UserOrId};
use cache::event::stage_instance::{StageInstanceCreate, StageInstanceDelete, StageInstanceUpdate};
use cache::event::thread::{ThreadCreate, ThreadDelete, ThreadListSync, ThreadUpdate};
use cache::memory::MemoryStore;
use cache::event::role::{RoleCreate, RoleUpdate};
use cache::model::{
    CachedEmoji, CachedMember, CachedMessage, CachedPresence, ChannelKind, Group, GuildChannel,
    GuildIntegration, PrivateChannel, Role, StageInstance, User,
};
use cache::plan::Step;
use cache::record;
use cache::record::decode;
use cache::run::{execute, Run};
use cache::store::{Index, Key, Reply, Request, Table, Write};
use cache::{Event, GuildResource, InRedisCache};

fn apply(cache: &InRedisCache, store: &mut MemoryStore, event: &Event) {
    execute(cache.update(event), store);
}

fn ids(mut keys: Vec<Key>) -> Vec<u64> {
    let mut out: Vec<u64> = keys
        .drain(..)
        .map(|k| match k {
            Key::Id(id) => id,
            Key::Pair(_, id) => id,
        })
        .collect();
    out.sort();
    out
}

fn guild_channel(id: u64, guild_id: Option<u64>, kind: ChannelKind) -> GuildChannel {
    GuildChannel { id, guild_id, kind, last_pin_timestamp: None, body: vec![7] }
}

fn stored_channel(store: &MemoryStore, id: u64) -> GuildResource<GuildChannel> {
    decode::<GuildResource<GuildChannel>>(
        &store.get_record(Table::ChannelsGuild, Key::Id(id)).unwrap(),
    )
    .unwrap()
}

fn user(id: u64) -> User {
    User { id, body: b"test".to_vec() }
}

fn member(id: u64, guild_id: u64) -> Member {
    Member {
        deaf: true,
        guild_id,
        joined_at: Some(5),
        mute: false,
        nick: Some("nick".to_string()),
        pending: true,
        premium_since: Some(6),
        roles: vec![1, 2],
        user: user(id),
    }
}

fn stored_member(store: &MemoryStore, guild_id: u64, user_id: u64) -> CachedMember {
    decode::<CachedMember>(
        &store.get_record(Table::Members, Key::Pair(guild_id, user_id)).unwrap(),
    )
    .unwrap()
}

#[test]
fn replace_channels_guild_id_names_the_guild() {
    let cache = InRedisCache::new();
    for kind in [
        ChannelKind::Category,
        ChannelKind::NewsThread,
        ChannelKind::PrivateThread,
        ChannelKind::PublicThread,
        ChannelKind::Text,
        ChannelKind::Voice,
        ChannelKind::Stage,
    ] {
        assert_eq!(
            cache.replace_channels_guild_id(9, guild_channel(1, None, kind)),
            guild_channel(1, Some(9), kind)
        );
        assert_eq!(
            cache.replace_channels_guild_id(9, guild_channel(1, Some(8), kind)),
            guild_channel(1, Some(9), kind)
        );
    }
}

#[test]
fn channel_update_guild() {
    let cache = InRedisCache::new();
    let mut store = MemoryStore::new();
    let channel = guild_channel(2, Some(1), ChannelKind::Text);
    // a channel that is not stored is not brought in by an update
    apply(&cache, &mut store, &Event::ChannelUpdate(ChannelUpdate(Channel::Guild(channel.clone()))));
    assert_eq!(store.count(Table::ChannelsGuild), 0);
    assert_eq!(store.get_index(Index::GuildChannels, 1), vec![]);
    assert_eq!(store.writes(), 0);
    // a stored channel is replaced
    apply(&cache, &mut store, &Event::ChannelCreate(ChannelCreate(Channel::Guild(channel.clone()))));
    let mut renamed = channel.clone();
    renamed.body = vec![8, 9];
    renamed.last_pin_timestamp = Some(4);
    renamed.guild_id = None;
    let writes = store.writes();
    apply(&cache, &mut store, &Event::ChannelUpdate(ChannelUpdate(Channel::Guild(renamed.clone()))));
    // it names no guild: it is passed over
    assert_eq!(store.writes(), writes);
    renamed.guild_id = Some(1);
    apply(&cache, &mut store, &Event::ChannelUpdate(ChannelUpdate(Channel::Guild(renamed.clone()))));
    assert_eq!(store.writes(), writes + 1);
    assert_eq!(store.count(Table::ChannelsGuild), 1);
    assert_eq!(ids(store.get_index(Index::GuildChannels, 1)), vec![2]);
    assert_eq!(stored_channel(&store, 2), GuildResource { guild_id: 1, value: renamed.clone() });
    // the same once more writes nothing
    apply(&cache, &mut store, &Event::ChannelUpdate(ChannelUpdate(Channel::Guild(renamed))));
    assert_eq!(store.writes(), writes + 1);
}

#[test]
fn an_update_of_a_private_channel_or_a_group_replaces_what_is_stored() {
    let cache = InRedisCache::new();
    let mut store = MemoryStore::new();
    let private = PrivateChannel { id: 3, last_pin_timestamp: None, body: vec![1] };
    let group = Group { id: 4, last_pin_timestamp: None, body: vec![2] };
    apply(&cache, &mut store, &Event::ChannelUpdate(ChannelUpdate(Channel::Private(private.clone()))));
    apply(&cache, &mut store, &Event::ChannelUpdate(ChannelUpdate(Channel::Group(group.clone()))));
    assert_eq!(store.writes(), 0);
    apply(&cache, &mut store, &Event::ChannelCreate(ChannelCreate(Channel::Private(private))));
    apply(&cache, &mut store, &Event::ChannelCreate(ChannelCreate(Channel::Group(group))));
    let private = PrivateChannel { id: 3, last_pin_timestamp: Some(7), body: vec![] };
    let group = Group { id: 4, last_pin_timestamp: Some(8), body: vec![5, 5] };
    apply(&cache, &mut store, &Event::ChannelUpdate(ChannelUpdate(Channel::Private(private.clone()))));
    apply(&cache, &mut store, &Event::ChannelUpdate(ChannelUpdate(Channel::Group(group.clone()))));
    assert_eq!(
        decode::<PrivateChannel>(&store.get_record(Table::ChannelsPrivate, Key::Id(3)).unwrap()),
        Ok(private)
    );
    assert_eq!(decode::<Group>(&store.get_record(Table::Groups, Key::Id(4)).unwrap()), Ok(group));
}

#[test]
fn an_update_of_a_role_that_is_not_stored_writes_nothing() {
    let cache = InRedisCache::new();
    let mut store = MemoryStore::new();
    let update = Event::RoleUpdate(RoleUpdate { guild_id: 1, role: Role { id: 2, body: vec![3] } });
    apply(&cache, &mut store, &update);
    assert_eq!(store.writes(), 0);
    assert_eq!(store.get_record(Table::Roles, Key::Id(2)), None);
    assert_eq!(store.get_index(Index::GuildRoles, 1), vec![]);
    // the one request is the read
    let mut run = Run::new(cache.update(&update));
    assert_eq!(run.request(), Some(Request::Get { table: Table::Roles, key: Key::Id(2) }));
    run.feed(Reply::Record(None));
    assert_eq!(run.request(), None);
    assert_eq!(run.failure(), None);
}

#[test]
fn an_update_of_a_stored_role_replaces_it() {
    let cache = InRedisCache::new();
    let mut store = MemoryStore::new();
    apply(
        &cache,
        &mut store,
        &Event::RoleCreate(RoleCreate { guild_id: 1, role: Role { id: 2, body: vec![3] } }),
    );
    let writes = store.writes();
    apply(
        &cache,
        &mut store,
        &Event::RoleUpdate(RoleUpdate { guild_id: 1, role: Role { id: 2, body: vec![4, 5] } }),
    );
    assert_eq!(store.writes(), writes + 1);
    assert_eq!(
        decode::<GuildResource<Role>>(&store.get_record(Table::Roles, Key::Id(2)).unwrap()),
        Ok(GuildResource { guild_id: 1, value: Role { id: 2, body: vec![4, 5] } })
    );
    assert_eq!(ids(store.get_index(Index::GuildRoles, 1)), vec![2]);
    assert_eq!(store.count(Table::Roles), 1);
}

#[test]
fn a_stale_update_does_not_bring_a_stage_back() {
    let cache = InRedisCache::new();
    let mut store = MemoryStore::new();
    let stage = StageInstance { id: 5, guild_id: 1, channel_id: 9, body: vec![1] };
    apply(
        &cache,
        &mut store,
        &Event::StageInstanceCreate(StageInstanceCreate { guild_id: 1, stage_instance: stage.clone() }),
    );
    apply(&cache, &mut store, &Event::StageInstanceDelete(StageInstanceDelete { guild_id: 1, id: 5 }));
    let writes = store.writes();
    apply(
        &cache,
        &mut store,
        &Event::StageInstanceUpdate(StageInstanceUpdate { guild_id: 1, stage_instance: stage }),
    );
    assert_eq!(store.get_record(Table::StageInstances, Key::Id(5)), None);
    assert_eq!(store.get_index(Index::GuildStageInstances, 1), vec![]);
    assert_eq!(store.writes(), writes);
}

#[test]
fn stale_updates_of_integrations_and_threads_bring_nothing_back() {
    let cache = InRedisCache::new();
    let mut store = MemoryStore::new();
    let integration = GuildIntegration { id: 2, body: vec![1] };
    let thread = guild_channel(5, Some(1), ChannelKind::PublicThread);
    apply(
        &cache,
        &mut store,
        &Event::IntegrationCreate(IntegrationCreate {
            guild_id: Some(1),
            integration: integration.clone(),
        }),
    );
    apply(&cache, &mut store, &Event::ThreadCreate(ThreadCreate(Channel::Guild(thread.clone()))));
    apply(&cache, &mut store, &Event::IntegrationDelete(IntegrationDelete { guild_id: 1, id: 2 }));
    apply(&cache, &mut store, &Event::ThreadDelete(ThreadDelete(Channel::Guild(thread.clone()))));
    let writes = store.writes();
    apply(
        &cache,
        &mut store,
        &Event::IntegrationUpdate(IntegrationUpdate { guild_id: Some(1), integration }),
    );
    apply(&cache, &mut store, &Event::ThreadUpdate(ThreadUpdate(Channel::Guild(thread))));
    assert_eq!(store.writes(), writes);
    assert_eq!(store.count(Table::Integrations), 0);
    assert_eq!(store.count(Table::ChannelsGuild), 0);
    assert_eq!(store.get_index(Index::GuildIntegrations, 1), vec![]);
    assert_eq!(store.get_index(Index::GuildChannels, 1), vec![]);
}

#[test]
fn channel_delete_guild() {
    let cache = InRedisCache::new();
    let mut store = MemoryStore::new();
    let channel = guild_channel(2, Some(1), ChannelKind::Text);
    execute(cache.cache_guild_channel(1, &channel), &mut store);
    assert_eq!(store.count(Table::ChannelsGuild), 1);
    assert_eq!(ids(store.get_index(Index::GuildChannels, 1)), vec![2]);
    apply(&cache, &mut store, &Event::ChannelDelete(ChannelDelete(Channel::Guild(channel))));
    assert_eq!(store.count(Table::ChannelsGuild), 0);
    assert_eq!(store.get_index(Index::GuildChannels, 1), vec![]);
}

#[test]
fn a_guild_channel_without_a_guild_is_not_stored() {
    let cache = InRedisCache::new();
    let channel = Channel::Guild(guild_channel(2, None, ChannelKind::Voice));
    assert!(cache.update(&Event::ChannelCreate(ChannelCreate(channel.clone()))).is_empty());
    assert!(cache.update(&Event::ThreadCreate(ThreadCreate(channel.clone()))).is_empty());
    assert!(cache.update(&Event::ThreadDelete(ThreadDelete(channel.clone()))).is_empty());
    // of a deleted one the record alone is removed
    assert_eq!(
        cache.update(&Event::ChannelDelete(ChannelDelete(channel))),
        vec![Step::Write(Write::Delete { table: Table::ChannelsGuild, key: Key::Id(2) })]
    );
}

#[test]
fn private_channels_and_groups_are_stored_under_their_id() {
    let cache = InRedisCache::new();
    let mut store = MemoryStore::new();
    let private = PrivateChannel { id: 3, last_pin_timestamp: None, body: vec![1] };
    let group = Group { id: 4, last_pin_timestamp: None, body: vec![2] };
    apply(
        &cache,
        &mut store,
        &Event::ChannelCreate(ChannelCreate(Channel::Private(private.clone()))),
    );
    apply(&cache, &mut store, &Event::ChannelCreate(ChannelCreate(Channel::Group(group.clone()))));
    assert_eq!(
        decode::<PrivateChannel>(&store.get_record(Table::ChannelsPrivate, Key::Id(3)).unwrap()),
        Ok(private.clone())
    );
    assert_eq!(
        decode::<Group>(&store.get_record(Table::Groups, Key::Id(4)).unwrap()),
        Ok(group.clone())
    );
    apply(&cache, &mut store, &Event::ChannelDelete(ChannelDelete(Channel::Private(private))));
    apply(&cache, &mut store, &Event::ChannelDelete(ChannelDelete(Channel::Group(group))));
    assert_eq!(store.count(Table::ChannelsPrivate), 0);
    assert_eq!(store.count(Table::Groups), 0);
    assert_eq!(
        cache.delete_group(4),
        vec![Step::Write(Write::Delete { table: Table::Groups, key: Key::Id(4) })]
    );
}

#[test]
fn a_pin_changes_a_text_channel_of_a_guild() {
    let cache = InRedisCache::new();
    let mut store = MemoryStore::new();
    execute(cache.cache_guild_channel(1, &guild_channel(2, None, ChannelKind::Text)), &mut store);
    apply(
        &cache,
        &mut store,
        &Event::ChannelPinsUpdate(ChannelPinsUpdate {
            channel_id: 2,
            guild_id: Some(1),
            last_pin_timestamp: Some(99),
        }),
    );
    let mut expected = guild_channel(2, Some(1), ChannelKind::Text);
    expected.last_pin_timestamp = Some(99);
    assert_eq!(stored_channel(&store, 2), GuildResource { guild_id: 1, value: expected });
    // and takes the time away again
    apply(
        &cache,
        &mut store,
        &Event::ChannelPinsUpdate(ChannelPinsUpdate {
            channel_id: 2,
            guild_id: Some(1),
            last_pin_timestamp: None,
        }),
    );
    assert_eq!(stored_channel(&store, 2).resource().last_pin_timestamp, None);
}

#[test]
fn a_pin_leaves_other_channels_of_a_guild_alone() {
    let cache = InRedisCache::new();
    let mut store = MemoryStore::new();
    execute(cache.cache_guild_channel(1, &guild_channel(2, None, ChannelKind::Voice)), &mut store);
    // a private channel with the same id, which must not be touched either
    execute(
        cache.cache_private_channel(&PrivateChannel { id: 2, last_pin_timestamp: None, body: vec![] }),
        &mut store,
    );
    let writes = store.writes();
    apply(
        &cache,
        &mut store,
        &Event::ChannelPinsUpdate(ChannelPinsUpdate {
            channel_id: 2,
            guild_id: Some(1),
            last_pin_timestamp: Some(99),
        }),
    );
    assert_eq!(store.writes(), writes);
    assert_eq!(stored_channel(&store, 2).resource().last_pin_timestamp, None);
}

#[test]
fn a_pin_falls_back_to_private_channels_and_groups() {
    let cache = InRedisCache::new();
    let mut store = MemoryStore::new();
    execute(
        cache.cache_private_channel(&PrivateChannel { id: 3, last_pin_timestamp: None, body: vec![1] }),
        &mut store,
    );
    execute(cache.cache_group(&Group { id: 4, last_pin_timestamp: None, body: vec![2] }), &mut store);
    for (channel_id, guild_id) in [(3u64, Some(1u64)), (4, None)] {
        apply(
            &cache,
            &mut store,
            &Event::ChannelPinsUpdate(ChannelPinsUpdate {
                channel_id,
                guild_id,
                last_pin_timestamp: Some(50),
            }),
        );
    }
    assert_eq!(
        decode::<PrivateChannel>(&store.get_record(Table::ChannelsPrivate, Key::Id(3)).unwrap()),
        Ok(PrivateChannel { id: 3, last_pin_timestamp: Some(50), body: vec![1] })
    );
    assert_eq!(
        decode::<Group>(&store.get_record(Table::Groups, Key::Id(4)).unwrap()),
        Ok(Group { id: 4, last_pin_timestamp: Some(50), body: vec![2] })
    );
    // a channel that nobody knows
    let writes = store.writes();
    apply(
        &cache,
        &mut store,
        &Event::ChannelPinsUpdate(ChannelPinsUpdate {
            channel_id: 5,
            guild_id: Some(1),
            last_pin_timestamp: Some(50),
        }),
    );
    assert_eq!(store.writes(), writes);
}

#[test]
fn threads_are_guild_channels() {
    let cache = InRedisCache::new();
    let mut store = MemoryStore::new();
    let thread = guild_channel(5, Some(1), ChannelKind::PublicThread);
    apply(&cache, &mut store, &Event::ThreadCreate(ThreadCreate(Channel::Guild(thread.clone()))));
    assert_eq!(stored_channel(&store, 5).resource(), &thread);
    let mut renamed = thread.clone();
    renamed.body = vec![8, 8];
    apply(&cache, &mut store, &Event::ThreadUpdate(ThreadUpdate(Channel::Guild(renamed.clone()))));
    assert_eq!(stored_channel(&store, 5).resource(), &renamed);
    assert_eq!(ids(store.get_index(Index::GuildChannels, 1)), vec![5]);
    // a private channel is no thread
    let private = Channel::Private(PrivateChannel { id: 6, last_pin_timestamp: None, body: vec![] });
    assert!(cache.update(&Event::ThreadCreate(ThreadCreate(private.clone()))).is_empty());
    assert!(cache.update(&Event::ThreadDelete(ThreadDelete(private))).is_empty());
    apply(&cache, &mut store, &Event::ThreadDelete(ThreadDelete(Channel::Guild(renamed))));
    assert_eq!(store.count(Table::ChannelsGuild), 0);
    assert_eq!(store.get_index(Index::GuildChannels, 1), vec![]);
}

#[test]
fn a_thread_list_stores_the_guild_channels_among_it() {
    let cache = InRedisCache::new();
    let mut store = MemoryStore::new();
    let sync = ThreadListSync {
        guild_id: 1,
        threads: vec![
            Channel::Guild(guild_channel(5, None, ChannelKind::PublicThread)),
            Channel::Private(PrivateChannel { id: 6, last_pin_timestamp: None, body: vec![] }),
            Channel::Guild(guild_channel(7, Some(9), ChannelKind::PrivateThread)),
            Channel::Group(Group { id: 8, last_pin_timestamp: None, body: vec![] }),
        ],
    };
    apply(&cache, &mut store, &Event::ThreadListSync(sync));
    assert_eq!(ids(store.get_index(Index::GuildChannels, 1)), vec![5, 7]);
    assert_eq!(store.count(Table::ChannelsGuild), 2);
    assert_eq!(stored_channel(&store, 7).resource().guild_id, Some(1));
    assert_eq!(store.writes(), 2);
    // an empty list takes no step
    assert!(cache
        .update(&Event::ThreadListSync(ThreadListSync { guild_id: 1, threads: vec![] }))
        .is_empty());
}

#[test]
fn integrations_are_keyed_by_guild_and_id() {
    let cache = InRedisCache::new();
    let mut store = MemoryStore::new();
    let integration = GuildIntegration { id: 2, body: vec![1] };
    apply(
        &cache,
        &mut store,
        &Event::IntegrationCreate(IntegrationCreate {
            guild_id: Some(1),
            integration: integration.clone(),
        }),
    );
    assert_eq!(
        decode::<GuildResource<GuildIntegration>>(
            &store.get_record(Table::Integrations, Key::Pair(1, 2)).unwrap()
        ),
        Ok(GuildResource { guild_id: 1, value: integration })
    );
    assert_eq!(store.get_record(Table::Integrations, Key::Id(2)), None);
    assert_eq!(ids(store.get_index(Index::GuildIntegrations, 1)), vec![2]);
    let changed = GuildIntegration { id: 2, body: vec![2] };
    apply(
        &cache,
        &mut store,
        &Event::IntegrationUpdate(IntegrationUpdate { guild_id: Some(1), integration: changed.clone() }),
    );
    assert_eq!(
        decode::<GuildResource<GuildIntegration>>(
            &store.get_record(Table::Integrations, Key::Pair(1, 2)).unwrap()
        ),
        Ok(GuildResource { guild_id: 1, value: changed.clone() })
    );
    // without a guild nothing is stored
    assert!(cache
        .update(&Event::IntegrationUpdate(IntegrationUpdate { guild_id: None, integration: changed }))
        .is_empty());
    apply(&cache, &mut store, &Event::IntegrationDelete(IntegrationDelete { guild_id: 1, id: 2 }));
    assert_eq!(store.count(Table::Integrations), 0);
    assert_eq!(store.get_index(Index::GuildIntegrations, 1), vec![]);
}

#[test]
fn stage_instances_come_and_go() {
    let cache = InRedisCache::new();
    let mut store = MemoryStore::new();
    let stage = StageInstance { id: 9, guild_id: 1, channel_id: 5, body: vec![] };
    apply(
        &cache,
        &mut store,
        &Event::StageInstanceCreate(StageInstanceCreate { guild_id: 1, stage_instance: stage.clone() }),
    );
    assert_eq!(
        decode::<StageInstance>(&store.get_record(Table::StageInstances, Key::Id(9)).unwrap()),
        Ok(stage.clone())
    );
    assert_eq!(ids(store.get_index(Index::GuildStageInstances, 1)), vec![9]);
    let moved = StageInstance { id: 9, guild_id: 1, channel_id: 6, body: vec![1] };
    apply(
        &cache,
        &mut store,
        &Event::StageInstanceUpdate(StageInstanceUpdate { guild_id: 1, stage_instance: moved.clone() }),
    );
    assert_eq!(
        decode::<StageInstance>(&store.get_record(Table::StageInstances, Key::Id(9)).unwrap()),
        Ok(moved)
    );
    apply(
        &cache,
        &mut store,
        &Event::StageInstanceDelete(StageInstanceDelete { guild_id: 1, id: 9 }),
    );
    assert_eq!(store.count(Table::StageInstances), 0);
    assert_eq!(store.get_index(Index::GuildStageInstances, 1), vec![]);
    execute(cache.cache_stage_instances(1, &vec![stage.clone()]), &mut store);
    assert_eq!(ids(store.get_index(Index::GuildStageInstances, 1)), vec![9]);
}

#[test]
fn a_presence_is_keyed_by_guild_and_user() {
    let cache = InRedisCache::new();
    let mut store = MemoryStore::new();
    assert_eq!(presence_user_id(&UserOrId::User(user(7))), 7);
    assert_eq!(presence_user_id(&UserOrId::UserId { id: 8 }), 8);
    apply(
        &cache,
        &mut store,
        &Event::PresenceUpdate(PresenceUpdate {
            activities: vec![1],
            client_status: vec![2],
            guild_id: 1,
            status: 3,
            user: UserOrId::User(user(7)),
        }),
    );
    assert_eq!(
        decode::<CachedPresence>(&store.get_record(Table::Presences, Key::Pair(1, 7)).unwrap()),
        Ok(CachedPresence {
            activities: vec![1],
            client_status: vec![2],
            guild_id: 1,
            status: 3,
            user_id: 7
        })
    );
    assert_eq!(ids(store.get_index(Index::GuildPresences, 1)), vec![7]);
    // the user of a presence is not stored
    assert_eq!(store.count(Table::Users), 0);
    execute(
        cache.cache_presences(
            1,
            &vec![CachedPresence {
                activities: vec![],
                client_status: vec![],
                guild_id: 1,
                status: 0,
                user_id: 8,
            }],
        ),
        &mut store,
    );
    assert_eq!(ids(store.get_index(Index::GuildPresences, 1)), vec![7, 8]);
    assert_eq!(store.count(Table::Presences), 2);
}

#[test]
fn emojis_are_stored_with_their_guild() {
    let cache = InRedisCache::new();
    let mut store = MemoryStore::new();
    let emojis = vec![CachedEmoji { id: 1, body: vec![1] }, CachedEmoji { id: 2, body: vec![2] }];
    execute(cache.cache_emojis(5, &emojis), &mut store);
    assert_eq!(ids(store.get_index(Index::GuildEmojis, 5)), vec![1, 2]);
    assert_eq!(
        decode::<GuildResource<CachedEmoji>>(&store.get_record(Table::Emojis, Key::Id(2)).unwrap()),
        Ok(GuildResource { guild_id: 5, value: CachedEmoji { id: 2, body: vec![2] } })
    );
    assert!(cache.cache_emojis(5, &vec![]).is_empty());
}

#[test]
fn cache_guild_member() {
    let cache = InRedisCache::new();
    let mut store = MemoryStore::new();
    // one by one
    for id in 1..=10u64 {
        execute(cache.cache_member(1, &member(id, 1)), &mut store);
    }
    assert_eq!(ids(store.get_index(Index::GuildMembers, 1)), (1..=10).collect::<Vec<u64>>());
    for id in 1..=10u64 {
        assert!(store.get_record(Table::Members, Key::Pair(1, id)).is_some());
        assert!(store.get_record(Table::Users, Key::Id(id)).is_some());
    }
    // all at once
    let members: Vec<Member> = (1..=10u64).map(|id| member(id, 2)).collect();
    execute(cache.cache_members(2, &members), &mut store);
    assert_eq!(ids(store.get_index(Index::GuildMembers, 2)), (1..=10).collect::<Vec<u64>>());
    for id in 1..=10u64 {
        assert!(store.get_record(Table::Members, Key::Pair(2, id)).is_some());
        assert_eq!(ids(store.get_index(Index::UserGuilds, id)), vec![1, 2]);
    }
    assert_eq!(store.count(Table::Members), 20);
    assert_eq!(store.count(Table::Users), 10);
    assert_eq!(
        stored_member(&store, 2, 3),
        CachedMember {
            deaf: Some(true),
            guild_id: 2,
            joined_at: Some(5),
            mute: Some(false),
            nick: Some("nick".to_string()),
            pending: true,
            premium_since: Some(6),
            roles: vec![1, 2],
            user_id: 3,
        }
    );
}

#[test]
fn a_chunk_of_members_is_stored_and_linked() {
    let cache = InRedisCache::new();
    let mut store = MemoryStore::new();
    apply(
        &cache,
        &mut store,
        &Event::MemberChunk(MemberChunk { guild_id: 1, members: vec![member(7, 1), member(8, 1)] }),
    );
    assert_eq!(ids(store.get_index(Index::GuildMembers, 1)), vec![7, 8]);
    assert_eq!(store.count(Table::Members), 2);
    assert!(cache
        .update(&Event::MemberChunk(MemberChunk { guild_id: 1, members: vec![] }))
        .is_empty());
}

#[test]
fn a_member_update_keeps_what_it_leaves_out() {
    let cache = InRedisCache::new();
    let mut store = MemoryStore::new();
    apply(&cache, &mut store, &Event::MemberAdd(MemberAdd { guild_id: 1, member: member(7, 1) }));
    apply(
        &cache,
        &mut store,
        &Event::MemberUpdate(MemberUpdate {
            guild_id: 1,
            user: user(7),
            deaf: None,
            mute: Some(true),
            nick: None,
            roles: vec![3],
            joined_at: 9,
            pending: false,
        }),
    );
    assert_eq!(
        stored_member(&store, 1, 7),
        CachedMember {
            // not in the update: as before
            deaf: Some(true),
            guild_id: 1,
            joined_at: Some(9),
            mute: Some(true),
            nick: None,
            pending: false,
            // never in an update: as before
            premium_since: Some(6),
            roles: vec![3],
            user_id: 7,
        }
    );
}

#[test]
fn the_author_of_a_message_is_stored_as_a_member() {
    let cache = InRedisCache::new();
    let mut store = MemoryStore::new();
    let partial = PartialMember {
        deaf: false,
        joined_at: None,
        mute: false,
        nick: Some("member nick".to_string()),
        roles: vec![],
    };
    execute(cache.cache_borrowed_partial_member(1, &partial, 3), &mut store);
    assert_eq!(
        stored_member(&store, 1, 3),
        CachedMember {
            deaf: Some(false),
            guild_id: 1,
            joined_at: None,
            mute: Some(false),
            nick: Some("member nick".to_string()),
            pending: false,
            premium_since: None,
            roles: vec![],
            user_id: 3,
        }
    );
    assert_eq!(ids(store.get_index(Index::GuildMembers, 1)), vec![3]);
    assert_eq!(store.writes(), 2);
    // the same once more: nothing is written
    execute(cache.cache_borrowed_partial_member(1, &partial, 3), &mut store);
    assert_eq!(store.writes(), 2);
}

#[test]
fn message_create() {
    let cache = InRedisCache::new();
    let mut store = MemoryStore::new();
    let message = CachedMessage {
        id: 4,
        channel_id: 2,
        guild_id: Some(1),
        author: 3,
        content: "ping".to_string(),
        attachments: vec![],
        embeds: vec![],
        edited_timestamp: None,
        mention_everyone: false,
        mention_roles: vec![],
        mentions: vec![],
        pinned: false,
        timestamp: 1_632_072_645,
        tts: false,
        body: vec![],
    };
    let event = Event::MessageCreate(MessageCreate {
        message: message.clone(),
        author: user(3),
        member: Some(PartialMember {
            deaf: false,
            joined_at: None,
            mute: false,
            nick: Some("member nick".to_string()),
            roles: vec![],
        }),
    });
    apply(&cache, &mut store, &event);
    assert_eq!(store.get_index(Index::UserGuilds, 3).len(), 1);
    assert_eq!(stored_member(&store, 1, 3).user_id, 3);
    assert_eq!(store.get_index(Index::ChannelMessages, 2).len(), 1);
    assert_eq!(
        decode::<CachedMessage>(&store.get_record(Table::Messages, Key::Id(4)).unwrap()),
        Ok(message)
    );
    assert_eq!(
        decode::<User>(&store.get_record(Table::Users, Key::Id(3)).unwrap()),
        Ok(user(3))
    );
    // the same message again: the author and the member are not written again
    let writes = store.writes();
    apply(&cache, &mut store, &event);
    // the user's guild, the message and its link
    assert_eq!(store.writes(), writes + 3);
}

#[test]
fn several_messages_are_deleted_at_once() {
    let cache = InRedisCache::new();
    let mut store = MemoryStore::new();
    for id in [4u64, 5, 6] {
        let message = CachedMessage {
            id,
            channel_id: 2,
            guild_id: None,
            author: 3,
            content: String::new(),
            attachments: vec![],
            embeds: vec![],
            edited_timestamp: None,
            mention_everyone: false,
            mention_roles: vec![],
            mentions: vec![],
            pinned: false,
            timestamp: 0,
            tts: false,
            body: vec![],
        };
        apply(
            &cache,
            &mut store,
            &Event::MessageCreate(MessageCreate { message, author: user(3), member: None }),
        );
    }
    assert_eq!(ids(store.get_index(Index::ChannelMessages, 2)), vec![4, 5, 6]);
    // a message outside a guild does not tie its author to one
    assert_eq!(store.get_index(Index::UserGuilds, 3), vec![]);
    apply(
        &cache,
        &mut store,
        &Event::MessageDeleteBulk(MessageDeleteBulk { channel_id: 2, ids: vec![4, 6, 7] }),
    );
    assert_eq!(ids(store.get_index(Index::ChannelMessages, 2)), vec![5]);
    assert_eq!(store.count(Table::Messages), 1);
    assert!(cache
        .update(&Event::MessageDeleteBulk(MessageDeleteBulk { channel_id: 2, ids: vec![] }))
        .is_empty());
}

#[test]
fn an_interaction_keeps_whether_the_member_is_deaf_or_mute() {
    let cache = InRedisCache::new();
    let mut store = MemoryStore::new();
    let seen = InteractionMember {
        id: 7,
        joined_at: Some(11),
        nick: None,
        premium_since: None,
        roles: vec![9],
    };
    // nothing stored yet: the member is made, deaf and mute unknown
    execute(cache.cache_borrowed_interaction_member(1, &seen), &mut store);
    assert_eq!(
        stored_member(&store, 1, 7),
        CachedMember {
            deaf: None,
            guild_id: 1,
            joined_at: Some(11),
            mute: None,
            nick: None,
            pending: false,
            premium_since: None,
            roles: vec![9],
            user_id: 7,
        }
    );
    assert_eq!(ids(store.get_index(Index::GuildMembers, 1)), vec![7]);
    // the same again writes nothing
    let writes = store.writes();
    execute(cache.cache_borrowed_interaction_member(1, &seen), &mut store);
    assert_eq!(store.writes(), writes);
    // a stored member keeps deaf and mute
    execute(cache.cache_member(1, &member(8, 1)), &mut store);
    let seen = InteractionMember {
        id: 8,
        joined_at: Some(12),
        nick: Some("other".to_string()),
        premium_since: None,
        roles: vec![],
    };
    execute(cache.cache_borrowed_interaction_member(1, &seen), &mut store);
    assert_eq!(
        stored_member(&store, 1, 8),
        CachedMember {
            deaf: Some(true),
            guild_id: 1,
            joined_at: Some(12),
            mute: Some(false),
            nick: Some("other".to_string()),
            pending: false,
            premium_since: None,
            roles: vec![],
            user_id: 8,
        }
    );
}

#[test]
fn a_corrupt_record_is_as_good_as_absent() {
    let cache = InRedisCache::new();
    let mut store = MemoryStore::new();
    // bytes that are no member
    let garbage = record::encode(&user(1));
    execute(
        vec![Step::Write(Write::Put {
            table: Table::Members,
            key: Key::Pair(1, 7),
            value: garbage.clone(),
        })],
        &mut store,
    );
    let writes = store.writes();
    apply(
        &cache,
        &mut store,
        &Event::MemberUpdate(MemberUpdate {
            guild_id: 1,
            user: user(7),
            deaf: None,
            mute: None,
            nick: None,
            roles: vec![],
            joined_at: 1,
            pending: false,
        }),
    );
    assert_eq!(store.writes(), writes);
    assert_eq!(store.get_record(Table::Members, Key::Pair(1, 7)), Some(garbage));
    assert_eq!(
        decode::<CachedMember>(&store.get_record(Table::Members, Key::Pair(1, 7)).unwrap()),
        Err(cache::CacheError::CorruptRecord)
    );
    // a snapshot replaces it
    execute(cache.cache_member(1, &member(7, 1)), &mut store);
    assert_eq!(stored_member(&store, 1, 7).user_id, 7);
}
