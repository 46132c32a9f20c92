use cache::dispatch::UnavailableGuild;
use cache::event::channel::{Channel, ChannelCreate};
use cache::event::guild::{Guild, GuildCreate, GuildDelete, GuildUpdate, PartialGuild};
use cache::event::integration::IntegrationCreate;
use cache::event::member::{Member, MemberAdd, MemberRemove, MemberUpdate};
use cache::event::message::{MessageCreate, MessageDelete, MessageUpdate};
use cache::event::role::{RoleCreate, RoleDelete};
use cache::memory::MemoryStore;
use cache::model::{
    CachedEmoji, CachedGuild, CachedMember, CachedMessage, CachedPresence, ChannelKind,
    GuildChannel, GuildIntegration, Role, StageInstance, User,
};
use cache::record::decode;
use cache::run::execute;
use cache::store::{Index, Key, Table, UNSCOPED};
use cache::{Config, Event, GuildResource, InRedisCache, ResourceKind, ResourceType};

fn apply(cache: &InRedisCache, store: &mut MemoryStore, event: &Event) {
    execute(cache.update(event), store);
}

fn ids(mut keys: Vec<Key>) -> Vec<u64> {
    let mut out: Vec<u64> = keys
        .drain(..)
        .map(|k| match k {
            Key::Id(id) => id,
            Key::Pair(_, id) => id,
        })
        .collect();
    out.sort();
    out
}

fn text_channel(id: u64, guild_id: Option<u64>) -> GuildChannel {
    GuildChannel {
        id,
        guild_id,
        kind: ChannelKind::Text,
        last_pin_timestamp: None,
        body: b"guild channel with no guild id".to_vec(),
    }
}

fn user(id: u64) -> User {
    User { id, body: b"test".to_vec() }
}

fn member(id: u64, guild_id: u64) -> Member {
    Member {
        deaf: false,
        guild_id,
        joined_at: None,
        mute: false,
        nick: None,
        pending: false,
        premium_since: None,
        roles: vec![],
        user: user(id),
    }
}

fn attributes(id: u64) -> CachedGuild {
    CachedGuild {
        id,
        afk_channel_id: None,
        afk_timeout: 300,
        application_id: None,
        banner: None,
        default_message_notifications: 1,
        description: None,
        discovery_splash: Some("splash".to_string()),
        explicit_content_filter: 2,
        features: vec![],
        icon: None,
        joined_at: Some(1_632_072_645),
        large: false,
        max_members: Some(50),
        max_presences: Some(100),
        member_count: Some(25),
        mfa_level: 1,
        name: "test".to_string(),
        nsfw_level: 3,
        owner: Some(false),
        owner_id: 1,
        permissions: Some(2048),
        preferred_locale: "en_us".to_string(),
        premium_subscription_count: Some(0),
        premium_tier: 0,
        rules_channel_id: Some(77),
        splash: None,
        system_channel_id: None,
        system_channel_flags: 1,
        unavailable: false,
        verification_level: 4,
        vanity_url_code: None,
        widget_channel_id: None,
        widget_enabled: None,
    }
}

fn guild(id: u64) -> Guild {
    Guild {
        attributes: attributes(id),
        channels: vec![],
        threads: vec![],
        emojis: vec![],
        members: vec![],
        presences: vec![],
        roles: vec![],
        stage_instances: vec![],
    }
}

fn message(id: u64, channel_id: u64) -> CachedMessage {
    CachedMessage {
        id,
        channel_id,
        guild_id: Some(1),
        author: 3,
        content: "ping".to_string(),
        attachments: vec![1],
        embeds: vec![2],
        edited_timestamp: None,
        mention_everyone: false,
        mention_roles: vec![10],
        mentions: vec![11],
        pinned: false,
        timestamp: 1_632_072_645,
        tts: false,
        body: vec![3],
    }
}

fn message_create(id: u64, channel_id: u64) -> Event {
    Event::MessageCreate(MessageCreate {
        message: message(id, channel_id),
        author: user(3),
        member: None,
    })
}

fn no_update(id: u64) -> MessageUpdate {
    MessageUpdate {
        id,
        channel_id: 2,
        attachments: None,
        content: None,
        edited_timestamp: None,
        embeds: None,
        mention_everyone: None,
        mention_roles: None,
        mentions: None,
        pinned: None,
        timestamp: None,
        tts: None,
    }
}

#[test]
fn bulk_sync_files_children_under_their_parent() {
    let cache = InRedisCache::new();
    let mut store = MemoryStore::new();
    let mut parent = guild(100);
    parent.channels = vec![text_channel(1, None), text_channel(2, None), text_channel(3, None)];
    apply(&cache, &mut store, &Event::GuildCreate(GuildCreate(parent)));
    assert_eq!(ids(store.get_index(Index::GuildChannels, 100)), vec![1, 2, 3]);
    for id in [1u64, 2, 3] {
        let bytes = store.get_record(Table::ChannelsGuild, Key::Id(id)).unwrap();
        let stored = decode::<GuildResource<GuildChannel>>(&bytes).unwrap();
        assert_eq!(stored.guild_id(), 100);
        assert_eq!(stored.resource().guild_id, Some(100));
        assert_eq!(stored.resource(), &text_channel(id, Some(100)));
    }
    assert_eq!(store.count(Table::ChannelsGuild), 3);
    let own = store.get_record(Table::Guilds, Key::Id(100)).unwrap();
    assert_eq!(decode::<CachedGuild>(&own), Ok(attributes(100)));
    // one batch for the records, one for the set, the marker, the guild
    assert_eq!(store.writes(), 4);
}

#[test]
fn guild_create_channels_have_guild_ids() {
    let cache = InRedisCache::new();
    let mut store = MemoryStore::new();
    let mut parent = guild(123);
    parent.channels = vec![text_channel(111, None)];
    parent.threads = vec![GuildChannel {
        id: 222,
        guild_id: None,
        kind: ChannelKind::PublicThread,
        last_pin_timestamp: None,
        body: b"guild thread with no guild id".to_vec(),
    }];
    apply(&cache, &mut store, &Event::GuildCreate(GuildCreate(parent)));
    let channel = decode::<GuildResource<GuildChannel>>(
        &store.get_record(Table::ChannelsGuild, Key::Id(111)).unwrap(),
    )
    .unwrap();
    assert_eq!(channel.resource().kind, ChannelKind::Text);
    assert_eq!(channel.resource().guild_id, Some(123));
    let thread = decode::<GuildResource<GuildChannel>>(
        &store.get_record(Table::ChannelsGuild, Key::Id(222)).unwrap(),
    )
    .unwrap();
    assert_eq!(thread.resource().kind, ChannelKind::PublicThread);
    assert_eq!(thread.resource().guild_id, Some(123));
    assert_eq!(ids(store.get_index(Index::GuildChannels, 123)), vec![111, 222]);
}

#[test]
fn a_stale_update_after_a_delete_leaves_the_record_absent() {
    let cache = InRedisCache::new();
    let mut store = MemoryStore::new();
    apply(&cache, &mut store, &message_create(5, 2));
    assert!(store.get_record(Table::Messages, Key::Id(5)).is_some());
    apply(&cache, &mut store, &Event::MessageDelete(MessageDelete { id: 5, channel_id: 2 }));
    let mut update = no_update(5);
    update.content = Some("X".to_string());
    apply(&cache, &mut store, &Event::MessageUpdate(update));
    assert_eq!(store.get_record(Table::Messages, Key::Id(5)), None);
    assert_eq!(store.get_index(Index::ChannelMessages, 2), vec![]);
}

#[test]
fn the_second_of_two_equal_snapshots_is_not_written() {
    let cache = InRedisCache::new();
    let mut store = MemoryStore::new();
    execute(cache.cache_user(&user(9), None), &mut store);
    assert_eq!(store.writes(), 1);
    execute(cache.cache_user(&user(9), None), &mut store);
    assert_eq!(store.writes(), 1);
    // another payload for the same user is written
    execute(cache.cache_user(&User { id: 9, body: b"renamed".to_vec() }, None), &mut store);
    assert_eq!(store.writes(), 2);
    assert_eq!(
        decode::<User>(&store.get_record(Table::Users, Key::Id(9)).unwrap()),
        Ok(User { id: 9, body: b"renamed".to_vec() })
    );
}

#[test]
fn the_second_of_two_equal_members_is_not_written() {
    let cache = InRedisCache::new();
    let mut store = MemoryStore::new();
    execute(cache.cache_member(1, &member(7, 1)), &mut store);
    // the user, the user's guild, the member, the guild's member
    assert_eq!(store.writes(), 4);
    execute(cache.cache_member(1, &member(7, 1)), &mut store);
    assert_eq!(store.writes(), 4);
    let mut changed = member(7, 1);
    changed.nick = Some("nick".to_string());
    execute(cache.cache_member(1, &changed), &mut store);
    // the user is the same: the member and the two links are written
    assert_eq!(store.writes(), 7);
}

#[test]
fn a_create_event_twice_is_as_once() {
    let cache = InRedisCache::new();
    let events = vec![
        Event::RoleCreate(RoleCreate { guild_id: 1, role: Role { id: 2, body: vec![3] } }),
        Event::ChannelCreate(ChannelCreate(Channel::Guild(text_channel(4, Some(1))))),
        Event::IntegrationCreate(IntegrationCreate {
            guild_id: Some(1),
            integration: GuildIntegration { id: 5, body: vec![] },
        }),
        Event::MemberAdd(MemberAdd { guild_id: 1, member: member(7, 1) }),
        message_create(8, 2),
        Event::GuildCreate(GuildCreate({
            let mut g = guild(1);
            g.channels = vec![text_channel(4, None)];
            g.members = vec![member(7, 1), member(9, 1)];
            g.roles = vec![Role { id: 2, body: vec![] }];
            g.emojis = vec![CachedEmoji { id: 6, body: vec![] }];
            g.presences = vec![CachedPresence {
                activities: vec![],
                client_status: vec![],
                guild_id: 1,
                status: 1,
                user_id: 7,
            }];
            g.stage_instances = vec![StageInstance { id: 3, guild_id: 1, channel_id: 4, body: vec![] }];
            g
        })),
    ];
    for event in events {
        let mut once = MemoryStore::new();
        apply(&cache, &mut once, &event);
        let mut twice = MemoryStore::new();
        apply(&cache, &mut twice, &event);
        apply(&cache, &mut twice, &event);
        for table in [
            Table::ChannelsGuild,
            Table::Emojis,
            Table::Guilds,
            Table::Integrations,
            Table::Members,
            Table::Messages,
            Table::Presences,
            Table::Roles,
            Table::StageInstances,
            Table::Users,
        ] {
            assert_eq!(once.count(table), twice.count(table), "{:?}", table);
            for key in [
                Key::Id(1),
                Key::Id(2),
                Key::Id(3),
                Key::Id(4),
                Key::Id(6),
                Key::Id(7),
                Key::Id(8),
                Key::Id(9),
                Key::Pair(1, 5),
                Key::Pair(1, 7),
                Key::Pair(1, 9),
            ] {
                assert_eq!(once.get_record(table, key), twice.get_record(table, key));
            }
        }
        for index in [
            Index::ChannelMessages,
            Index::GuildChannels,
            Index::GuildEmojis,
            Index::GuildIntegrations,
            Index::GuildMembers,
            Index::GuildPresences,
            Index::GuildRoles,
            Index::GuildStageInstances,
            Index::UserGuilds,
        ] {
            for owner in [1u64, 2, 3, 7, 9] {
                assert_eq!(
                    ids(once.get_index(index, owner)),
                    ids(twice.get_index(index, owner)),
                    "{:?} {}",
                    index,
                    owner
                );
            }
        }
    }
}

fn full_guild() -> Guild {
    let mut g = guild(1);
    g.channels = vec![text_channel(10, None), text_channel(11, None)];
    g.threads = vec![text_channel(12, None)];
    g.emojis = vec![CachedEmoji { id: 20, body: vec![] }];
    g.members = vec![member(30, 1), member(31, 1)];
    g.presences = vec![CachedPresence {
        activities: vec![],
        client_status: vec![],
        guild_id: 1,
        status: 1,
        user_id: 30,
    }];
    g.roles = vec![Role { id: 40, body: vec![] }, Role { id: 41, body: vec![] }];
    g.stage_instances = vec![StageInstance { id: 50, guild_id: 1, channel_id: 10, body: vec![] }];
    g
}

#[test]
fn a_deleted_guild_takes_its_children_with_it() {
    let cache = InRedisCache::new();
    let mut store = MemoryStore::new();
    apply(&cache, &mut store, &Event::GuildCreate(GuildCreate(full_guild())));
    apply(
        &cache,
        &mut store,
        &Event::IntegrationCreate(IntegrationCreate {
            guild_id: Some(1),
            integration: GuildIntegration { id: 60, body: vec![] },
        }),
    );
    // another guild, which stays
    let mut other = guild(2);
    other.roles = vec![Role { id: 42, body: vec![] }];
    other.members = vec![member(30, 2)];
    apply(&cache, &mut store, &Event::GuildCreate(GuildCreate(other)));
    assert_eq!(store.count(Table::ChannelsGuild), 3);
    assert_eq!(store.count(Table::Members), 3);
    assert_eq!(store.count(Table::Roles), 3);
    assert_eq!(store.count(Table::Integrations), 1);

    apply(&cache, &mut store, &Event::GuildDelete(GuildDelete { id: 1 }));

    assert_eq!(store.get_record(Table::Guilds, Key::Id(1)), None);
    assert_eq!(store.count(Table::ChannelsGuild), 0);
    assert_eq!(store.count(Table::Emojis), 0);
    assert_eq!(store.count(Table::Integrations), 0);
    assert_eq!(store.count(Table::Presences), 0);
    assert_eq!(store.count(Table::StageInstances), 0);
    for index in [
        Index::GuildChannels,
        Index::GuildEmojis,
        Index::GuildIntegrations,
        Index::GuildMembers,
        Index::GuildPresences,
        Index::GuildRoles,
        Index::GuildStageInstances,
    ] {
        assert_eq!(store.get_index(index, 1), vec![], "{:?}", index);
    }
    // what belongs to the other guild is still there
    assert!(store.get_record(Table::Guilds, Key::Id(2)).is_some());
    assert_eq!(store.count(Table::Roles), 1);
    assert!(store.get_record(Table::Roles, Key::Id(42)).is_some());
    assert_eq!(store.count(Table::Members), 1);
    assert!(store.get_record(Table::Members, Key::Pair(2, 30)).is_some());
    assert_eq!(ids(store.get_index(Index::GuildMembers, 2)), vec![30]);
    assert_eq!(ids(store.get_index(Index::GuildRoles, 2)), vec![42]);
}

#[test]
fn a_deleted_guild_keeps_children_of_kinds_that_are_not_tracked() {
    let all = InRedisCache::new();
    let mut store = MemoryStore::new();
    apply(&all, &mut store, &Event::GuildCreate(GuildCreate(full_guild())));
    let some = InRedisCache::with_config(Config::tracking(
        ResourceType::all().without(ResourceKind::Role),
    ));
    apply(&some, &mut store, &Event::GuildDelete(GuildDelete { id: 1 }));
    assert_eq!(store.get_record(Table::Guilds, Key::Id(1)), None);
    assert_eq!(store.count(Table::ChannelsGuild), 0);
    assert_eq!(store.count(Table::Members), 0);
    assert_eq!(store.count(Table::Roles), 2);
    assert_eq!(ids(store.get_index(Index::GuildRoles, 1)), vec![40, 41]);
}

#[test]
fn the_guild_record_is_deleted_last() {
    let cache = InRedisCache::new();
    let plan = cache.update(&Event::GuildDelete(GuildDelete { id: 1 }));
    assert_eq!(plan.len(), 10);
    assert_eq!(
        plan.last(),
        Some(&cache::plan::Step::Write(cache::store::Write::Delete {
            table: Table::Guilds,
            key: Key::Id(1)
        }))
    );
}

#[test]
fn an_update_changes_the_fields_it_holds_and_no_others() {
    let cache = InRedisCache::new();
    let mut store = MemoryStore::new();
    apply(&cache, &mut store, &message_create(4, 2));
    let mut update = no_update(4);
    update.content = Some("pong".to_string());
    update.pinned = Some(true);
    apply(&cache, &mut store, &Event::MessageUpdate(update));
    let stored =
        decode::<CachedMessage>(&store.get_record(Table::Messages, Key::Id(4)).unwrap()).unwrap();
    let mut expected = message(4, 2);
    expected.content = "pong".to_string();
    expected.pinned = true;
    assert_eq!(stored, expected);
    // every field at once
    let all = MessageUpdate {
        id: 4,
        channel_id: 2,
        attachments: Some(vec![9]),
        content: Some("c".to_string()),
        edited_timestamp: Some(6),
        embeds: Some(vec![8]),
        mention_everyone: Some(true),
        mention_roles: Some(vec![]),
        mentions: Some(vec![1, 2]),
        pinned: Some(false),
        timestamp: Some(7),
        tts: Some(true),
    };
    apply(&cache, &mut store, &Event::MessageUpdate(all));
    let stored =
        decode::<CachedMessage>(&store.get_record(Table::Messages, Key::Id(4)).unwrap()).unwrap();
    assert_eq!(
        stored,
        CachedMessage {
            id: 4,
            channel_id: 2,
            guild_id: Some(1),
            author: 3,
            content: "c".to_string(),
            attachments: vec![9],
            embeds: vec![8],
            edited_timestamp: Some(6),
            mention_everyone: true,
            mention_roles: vec![],
            mentions: vec![1, 2],
            pinned: false,
            timestamp: 7,
            tts: true,
            body: vec![3],
        }
    );
}

#[test]
fn guild_update() {
    let cache = InRedisCache::new();
    let mut store = MemoryStore::new();
    apply(&cache, &mut store, &Event::GuildCreate(GuildCreate(guild(1))));
    let before = attributes(1);
    let mutation = PartialGuild {
        id: 1,
        afk_channel_id: before.afk_channel_id,
        afk_timeout: before.afk_timeout,
        banner: before.banner.clone(),
        default_message_notifications: before.default_message_notifications,
        description: before.description.clone(),
        features: before.features.clone(),
        icon: before.icon.clone(),
        max_members: before.max_members,
        max_presences: None,
        mfa_level: before.mfa_level,
        name: "test2222".to_string(),
        nsfw_level: before.nsfw_level,
        owner_id: 2,
        owner: before.owner,
        permissions: before.permissions,
        preferred_locale: before.preferred_locale.clone(),
        premium_subscription_count: None,
        premium_tier: before.premium_tier,
        splash: before.splash.clone(),
        system_channel_id: before.system_channel_id,
        verification_level: before.verification_level,
        vanity_url_code: before.vanity_url_code.clone(),
        widget_channel_id: before.widget_channel_id,
        widget_enabled: before.widget_enabled,
    };
    apply(&cache, &mut store, &Event::GuildUpdate(GuildUpdate(mutation)));
    let stored =
        decode::<CachedGuild>(&store.get_record(Table::Guilds, Key::Id(1)).unwrap()).unwrap();
    assert_eq!(stored.name, "test2222");
    assert_eq!(stored.owner_id, 2);
    assert_eq!(stored.id, 1);
    // what the update leaves out falls back to its default
    assert_eq!(stored.max_presences, Some(25000));
    assert_eq!(stored.premium_subscription_count, Some(0));
    // what the update does not carry stays
    let mut expected = before;
    expected.name = "test2222".to_string();
    expected.owner_id = 2;
    expected.max_presences = Some(25000);
    expected.premium_subscription_count = Some(0);
    assert_eq!(stored, expected);
    assert_eq!(stored.member_count, Some(25));
    assert_eq!(stored.discovery_splash, Some("splash".to_string()));
    assert_eq!(stored.rules_channel_id, Some(77));
}

#[test]
fn an_update_of_an_absent_record_writes_nothing() {
    let cache = InRedisCache::new();
    let mut store = MemoryStore::new();
    apply(&cache, &mut store, &message_create(4, 2));
    let writes = store.writes();
    let mut update = no_update(5);
    update.content = Some("X".to_string());
    apply(&cache, &mut store, &Event::MessageUpdate(update));
    apply(
        &cache,
        &mut store,
        &Event::MemberUpdate(MemberUpdate {
            guild_id: 1,
            user: user(7),
            deaf: Some(true),
            mute: None,
            nick: Some("n".to_string()),
            roles: vec![1],
            joined_at: 1,
            pending: false,
        }),
    );
    let mut partial = PartialGuild {
        id: 9,
        afk_channel_id: None,
        afk_timeout: 0,
        banner: None,
        default_message_notifications: 0,
        description: None,
        features: vec![],
        icon: None,
        max_members: None,
        max_presences: None,
        mfa_level: 0,
        name: "n".to_string(),
        nsfw_level: 0,
        owner: None,
        owner_id: 1,
        permissions: None,
        preferred_locale: "l".to_string(),
        premium_tier: 0,
        premium_subscription_count: None,
        splash: None,
        system_channel_id: None,
        verification_level: 0,
        vanity_url_code: None,
        widget_channel_id: None,
        widget_enabled: None,
    };
    partial.name = "other".to_string();
    apply(&cache, &mut store, &Event::GuildUpdate(GuildUpdate(partial)));
    assert_eq!(store.writes(), writes);
    assert_eq!(store.get_record(Table::Messages, Key::Id(5)), None);
    assert_eq!(store.get_record(Table::Members, Key::Pair(1, 7)), None);
    assert_eq!(store.get_record(Table::Guilds, Key::Id(9)), None);
    assert_eq!(store.count(Table::Messages), 1);
}

#[test]
fn cache_user_guild_state() {
    let cache = InRedisCache::new();
    let mut store = MemoryStore::new();
    execute(cache.cache_user(&user(2), Some(1)), &mut store);
    // the guild's id is the only one in the user's set of guilds
    assert_eq!(ids(store.get_index(Index::UserGuilds, 2)), vec![1]);
    // a second guild makes two
    execute(cache.cache_user(&user(2), Some(3)), &mut store);
    assert_eq!(ids(store.get_index(Index::UserGuilds, 2)), vec![1, 3]);
    // leaving one guild leaves the other, and the user
    apply(&cache, &mut store, &Event::MemberRemove(MemberRemove { guild_id: 3, user: user(2) }));
    assert_eq!(ids(store.get_index(Index::UserGuilds, 2)), vec![1]);
    assert!(store.get_record(Table::Users, Key::Id(2)).is_some());
    // leaving the last guild removes the user
    apply(&cache, &mut store, &Event::MemberRemove(MemberRemove { guild_id: 1, user: user(2) }));
    assert_eq!(store.get_record(Table::Users, Key::Id(2)), None);
    assert_eq!(store.get_index(Index::UserGuilds, 2), vec![]);
}

#[test]
fn a_member_that_leaves_is_removed_with_its_link() {
    let cache = InRedisCache::new();
    let mut store = MemoryStore::new();
    apply(&cache, &mut store, &Event::MemberAdd(MemberAdd { guild_id: 1, member: member(7, 1) }));
    apply(&cache, &mut store, &Event::MemberAdd(MemberAdd { guild_id: 1, member: member(8, 1) }));
    apply(&cache, &mut store, &Event::MemberAdd(MemberAdd { guild_id: 2, member: member(7, 2) }));
    assert_eq!(ids(store.get_index(Index::GuildMembers, 1)), vec![7, 8]);
    assert_eq!(
        decode::<CachedMember>(&store.get_record(Table::Members, Key::Pair(1, 7)).unwrap()),
        Ok(CachedMember {
            deaf: Some(false),
            guild_id: 1,
            joined_at: None,
            mute: Some(false),
            nick: None,
            pending: false,
            premium_since: None,
            roles: vec![],
            user_id: 7,
        })
    );
    apply(&cache, &mut store, &Event::MemberRemove(MemberRemove { guild_id: 1, user: user(7) }));
    assert_eq!(store.get_record(Table::Members, Key::Pair(1, 7)), None);
    assert_eq!(ids(store.get_index(Index::GuildMembers, 1)), vec![8]);
    assert!(store.get_record(Table::Members, Key::Pair(2, 7)).is_some());
    // the user is still seen through the other guild
    assert!(store.get_record(Table::Users, Key::Id(7)).is_some());
    assert_eq!(ids(store.get_index(Index::UserGuilds, 7)), vec![2]);
}

#[test]
fn an_unavailable_guild_is_marked_until_it_comes_back() {
    let cache = InRedisCache::new();
    let mut store = MemoryStore::new();
    apply(&cache, &mut store, &Event::GuildCreate(GuildCreate(guild(1))));
    apply(&cache, &mut store, &Event::UnavailableGuild(UnavailableGuild { id: 1 }));
    assert_eq!(ids(store.get_index(Index::UnavailableGuilds, UNSCOPED)), vec![1]);
    assert_eq!(store.get_record(Table::Guilds, Key::Id(1)), None);
    apply(&cache, &mut store, &Event::GuildCreate(GuildCreate(guild(1))));
    assert_eq!(store.get_index(Index::UnavailableGuilds, UNSCOPED), vec![]);
    assert!(store.get_record(Table::Guilds, Key::Id(1)).is_some());
}

#[test]
fn a_role_that_is_deleted_leaves_its_guild() {
    let cache = InRedisCache::new();
    let mut store = MemoryStore::new();
    apply(
        &cache,
        &mut store,
        &Event::RoleCreate(RoleCreate { guild_id: 1, role: Role { id: 2, body: vec![3] } }),
    );
    assert_eq!(
        decode::<GuildResource<Role>>(&store.get_record(Table::Roles, Key::Id(2)).unwrap()),
        Ok(GuildResource { guild_id: 1, value: Role { id: 2, body: vec![3] } })
    );
    assert_eq!(ids(store.get_index(Index::GuildRoles, 1)), vec![2]);
    apply(&cache, &mut store, &Event::RoleDelete(RoleDelete { guild_id: 1, role_id: 2 }));
    assert_eq!(store.get_record(Table::Roles, Key::Id(2)), None);
    assert_eq!(store.get_index(Index::GuildRoles, 1), vec![]);
}

#[test]
fn deleting_what_was_not_stored_leaves_the_set_alone() {
    let cache = InRedisCache::new();
    let mut store = MemoryStore::new();
    // a link without a record, as a failure between two writes leaves it
    execute(
        vec![cache::plan::Step::Write(cache::store::Write::Add {
            index: Index::GuildRoles,
            owner: 1,
            member: Key::Id(2),
        })],
        &mut store,
    );
    let writes = store.writes();
    apply(&cache, &mut store, &Event::RoleDelete(RoleDelete { guild_id: 1, role_id: 2 }));
    assert_eq!(ids(store.get_index(Index::GuildRoles, 1)), vec![2]);
    // the delete was asked for, the removal was not
    assert_eq!(store.writes(), writes + 1);
}

/// A small generator of numbers, the same on every run.
struct Numbers(u64);

impl Numbers {
    fn next(&mut self, below: u64) -> u64 {
        self.0 = self.0.wrapping_mul(6364136223846793005).wrapping_add(1442695040888963407);
        (self.0 >> 33) % below
    }
}

#[test]
fn records_and_links_stay_in_step() {
    let cache = InRedisCache::new();
    let mut store = MemoryStore::new();
    let mut numbers = Numbers(11);
    for _ in 0..400 {
        let guild_id = 1 + numbers.next(3);
        let id = 1 + numbers.next(6);
        let event = match numbers.next(7) {
            0 => Event::RoleCreate(RoleCreate {
                guild_id,
                // a role belongs to one guild: its id says which
                role: Role { id: guild_id * 100 + id, body: vec![numbers.next(256) as u8] },
            }),
            1 => Event::RoleDelete(RoleDelete { guild_id, role_id: guild_id * 100 + id }),
            2 => Event::MemberAdd(MemberAdd { guild_id, member: member(id, guild_id) }),
            3 => Event::MemberRemove(MemberRemove { guild_id, user: user(id) }),
            4 => Event::IntegrationCreate(IntegrationCreate {
                guild_id: Some(guild_id),
                integration: GuildIntegration { id, body: vec![] },
            }),
            5 => Event::GuildDelete(GuildDelete { id: guild_id }),
            _ => Event::MemberUpdate(MemberUpdate {
                guild_id,
                user: user(id),
                deaf: None,
                mute: Some(true),
                nick: None,
                roles: vec![id],
                joined_at: 1,
                pending: false,
            }),
        };
        apply(&cache, &mut store, &event);
        for guild_id in 1..=3u64 {
            for id in 1..=6u64 {
                assert_eq!(
                    store.get_record(Table::Roles, Key::Id(guild_id * 100 + id)).is_some(),
                    store.get_index(Index::GuildRoles, guild_id).contains(&Key::Id(guild_id * 100 + id))
                );
                assert_eq!(
                    store.get_record(Table::Members, Key::Pair(guild_id, id)).is_some(),
                    store.get_index(Index::GuildMembers, guild_id).contains(&Key::Id(id))
                );
                assert_eq!(
                    store.get_record(Table::Integrations, Key::Pair(guild_id, id)).is_some(),
                    store.get_index(Index::GuildIntegrations, guild_id).contains(&Key::Id(id))
                );
            }
        }
        // a user is stored as long as it is seen through a guild
        for id in 1..=6u64 {
            assert_eq!(
                store.get_record(Table::Users, Key::Id(id)).is_some(),
                !store.get_index(Index::UserGuilds, id).is_empty()
            );
        }
    }
}

#[test]
fn a_user_that_comes_twice_in_a_list_is_no_hindrance() {
    let cache = InRedisCache::new();
    let mut first = member(7, 1);
    first.nick = Some("first".to_string());
    let mut second = member(7, 1);
    second.nick = Some("second".to_string());
    second.user = User { id: 7, body: b"renamed".to_vec() };
    let mut third = member(7, 1);
    third.nick = Some("first".to_string());
    let lists = vec![
        vec![first.clone(), second.clone()],
        vec![first.clone(), second.clone(), third.clone()],
        vec![second.clone(), second.clone(), member(8, 1), first.clone()],
        vec![first.clone(), first.clone()],
    ];
    for members in lists {
        let mut guild = guild(1);
        guild.members = members.clone();
        for event in [
            Event::GuildCreate(GuildCreate(guild)),
            Event::MemberChunk(cache::event::member::MemberChunk { guild_id: 1, members }),
        ] {
            let mut once = MemoryStore::new();
            apply(&cache, &mut once, &event);
            let mut twice = MemoryStore::new();
            apply(&cache, &mut twice, &event);
            apply(&cache, &mut twice, &event);
            for key in [Key::Id(7), Key::Id(8), Key::Pair(1, 7), Key::Pair(1, 8)] {
                for table in [Table::Members, Table::Users] {
                    assert_eq!(once.get_record(table, key), twice.get_record(table, key));
                }
            }
            for (index, owner) in
                [(Index::GuildMembers, 1u64), (Index::UserGuilds, 7), (Index::UserGuilds, 8)]
            {
                assert_eq!(ids(once.get_index(index, owner)), ids(twice.get_index(index, owner)));
            }
            assert_eq!(once.count(Table::Members), twice.count(Table::Members));
            assert_eq!(once.count(Table::Users), twice.count(Table::Users));
        }
    }
}

