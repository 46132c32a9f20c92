use cache::event::channel::{Channel, ChannelCreate, ChannelDelete, ChannelPinsUpdate, ChannelUpdate};
use cache::event::guild::{Guild, GuildCreate, GuildDelete, GuildUpdate, PartialGuild};
use cache::event::integration::{IntegrationCreate, IntegrationDelete, IntegrationUpdate};
use cache::event::member::{Member, MemberAdd, MemberChunk, MemberRemove, MemberUpdate, PartialMember};
use cache::event::message::{MessageCreate, MessageDelete, MessageDeleteBulk, MessageUpdate};
use cache::event::presence::{PresenceUpdate, UserOrId};
use cache::event::role::{RoleCreate, RoleDelete, RoleUpdate};
use cache::event::stage_instance::{StageInstanceCreate, StageInstanceDelete, StageInstanceUpdate};
use cache::event::thread::{ThreadCreate, ThreadDelete, ThreadListSync, ThreadUpdate};
use cache::dispatch::UnavailableGuild;
use cache::memory::MemoryStore;
use cache::model::{
    CachedGuild, CachedMessage, ChannelKind, GuildChannel, GuildIntegration, Role, StageInstance,
    User,
};
use cache::run::{execute, Run};
use cache::{Config, Event, InRedisCache, ResourceKind, ResourceType};

const KINDS: [ResourceKind; 14] = [
    ResourceKind::Channel,
    ResourceKind::Emoji,
    ResourceKind::Guild,
    ResourceKind::Member,
    ResourceKind::Message,
    ResourceKind::Presence,
    ResourceKind::Reaction,
    ResourceKind::Role,
    ResourceKind::UserCurrent,
    ResourceKind::User,
    ResourceKind::VoiceState,
    ResourceKind::StageInstance,
    ResourceKind::Integration,
    ResourceKind::Sticker,
];

fn channel(id: u64) -> Channel {
    Channel::Guild(GuildChannel {
        id,
        guild_id: Some(1),
        kind: ChannelKind::Text,
        last_pin_timestamp: None,
        body: vec![],
    })
}

fn user(id: u64) -> User {
    User { id, body: vec![1] }
}

fn member(id: u64) -> Member {
    Member {
        deaf: false,
        guild_id: 1,
        joined_at: None,
        mute: false,
        nick: None,
        pending: false,
        premium_since: None,
        roles: vec![],
        user: user(id),
    }
}

fn attributes(id: u64) -> CachedGuild {
    CachedGuild {
        id,
        afk_channel_id: None,
        afk_timeout: 0,
        application_id: None,
        banner: None,
        default_message_notifications: 0,
        description: None,
        discovery_splash: None,
        explicit_content_filter: 0,
        features: vec![],
        icon: None,
        joined_at: None,
        large: false,
        max_members: None,
        max_presences: None,
        member_count: None,
        mfa_level: 0,
        name: "test".to_string(),
        nsfw_level: 0,
        owner: None,
        owner_id: 1,
        permissions: None,
        preferred_locale: "en_us".to_string(),
        premium_subscription_count: None,
        premium_tier: 0,
        rules_channel_id: None,
        splash: None,
        system_channel_id: None,
        system_channel_flags: 0,
        unavailable: false,
        verification_level: 0,
        vanity_url_code: None,
        widget_channel_id: None,
        widget_enabled: None,
    }
}

fn partial_guild(id: u64) -> PartialGuild {
    PartialGuild {
        id,
        afk_channel_id: None,
        afk_timeout: 0,
        banner: None,
        default_message_notifications: 0,
        description: None,
        features: vec![],
        icon: None,
        max_members: None,
        max_presences: None,
        mfa_level: 0,
        name: "n".to_string(),
        nsfw_level: 0,
        owner: None,
        owner_id: 1,
        permissions: None,
        preferred_locale: "l".to_string(),
        premium_tier: 0,
        premium_subscription_count: None,
        splash: None,
        system_channel_id: None,
        verification_level: 0,
        vanity_url_code: None,
        widget_channel_id: None,
        widget_enabled: None,
    }
}

fn message(id: u64) -> CachedMessage {
    CachedMessage {
        id,
        channel_id: 2,
        guild_id: Some(1),
        author: 3,
        content: "ping".to_string(),
        attachments: vec![],
        embeds: vec![],
        edited_timestamp: None,
        mention_everyone: false,
        mention_roles: vec![],
        mentions: vec![],
        pinned: false,
        timestamp: 5,
        tts: false,
        body: vec![],
    }
}

/// One event of every variant that has a plan, with the kind that gates it.
fn events() -> Vec<(ResourceKind, Event)> {
    let guild = Guild {
        attributes: attributes(1),
        channels: vec![match channel(5) {
            Channel::Guild(c) => c,
            _ => unreachable!(),
        }],
        threads: vec![],
        emojis: vec![],
        members: vec![member(7)],
        presences: vec![],
        roles: vec![Role { id: 8, body: vec![] }],
        stage_instances: vec![],
    };
    vec![
        (ResourceKind::Channel, Event::ChannelCreate(ChannelCreate(channel(5)))),
        (ResourceKind::Channel, Event::ChannelDelete(ChannelDelete(channel(5)))),
        (
            ResourceKind::Channel,
            Event::ChannelPinsUpdate(ChannelPinsUpdate {
                channel_id: 5,
                guild_id: Some(1),
                last_pin_timestamp: Some(1),
            }),
        ),
        (ResourceKind::Channel, Event::ChannelUpdate(ChannelUpdate(channel(5)))),
        (ResourceKind::Channel, Event::ThreadCreate(ThreadCreate(channel(5)))),
        (ResourceKind::Channel, Event::ThreadDelete(ThreadDelete(channel(5)))),
        (
            ResourceKind::Channel,
            Event::ThreadListSync(ThreadListSync { guild_id: 1, threads: vec![channel(5)] }),
        ),
        (ResourceKind::Channel, Event::ThreadUpdate(ThreadUpdate(channel(5)))),
        (ResourceKind::Guild, Event::GuildCreate(GuildCreate(guild))),
        (ResourceKind::Guild, Event::GuildDelete(GuildDelete { id: 1 })),
        (ResourceKind::Guild, Event::GuildUpdate(GuildUpdate(partial_guild(1)))),
        (ResourceKind::Guild, Event::UnavailableGuild(UnavailableGuild { id: 1 })),
        (
            ResourceKind::Integration,
            Event::IntegrationCreate(IntegrationCreate {
                guild_id: Some(1),
                integration: GuildIntegration { id: 2, body: vec![] },
            }),
        ),
        (
            ResourceKind::Integration,
            Event::IntegrationDelete(IntegrationDelete { guild_id: 1, id: 2 }),
        ),
        (
            ResourceKind::Integration,
            Event::IntegrationUpdate(IntegrationUpdate {
                guild_id: Some(1),
                integration: GuildIntegration { id: 2, body: vec![] },
            }),
        ),
        (ResourceKind::Member, Event::MemberAdd(MemberAdd { guild_id: 1, member: member(7) })),
        (
            ResourceKind::Member,
            Event::MemberChunk(MemberChunk { guild_id: 1, members: vec![member(7)] }),
        ),
        (ResourceKind::Member, Event::MemberRemove(MemberRemove { guild_id: 1, user: user(7) })),
        (
            ResourceKind::Member,
            Event::MemberUpdate(MemberUpdate {
                guild_id: 1,
                user: user(7),
                deaf: None,
                mute: None,
                nick: None,
                roles: vec![],
                joined_at: 1,
                pending: false,
            }),
        ),
        (ResourceKind::Message, Event::MessageDelete(MessageDelete { id: 4, channel_id: 2 })),
        (
            ResourceKind::Message,
            Event::MessageDeleteBulk(MessageDeleteBulk { channel_id: 2, ids: vec![4, 5] }),
        ),
        (
            ResourceKind::Message,
            Event::MessageUpdate(MessageUpdate {
                id: 4,
                channel_id: 2,
                attachments: None,
                content: Some("x".to_string()),
                edited_timestamp: None,
                embeds: None,
                mention_everyone: None,
                mention_roles: None,
                mentions: None,
                pinned: None,
                timestamp: None,
                tts: None,
            }),
        ),
        (
            ResourceKind::Presence,
            Event::PresenceUpdate(PresenceUpdate {
                activities: vec![],
                client_status: vec![],
                guild_id: 1,
                status: 0,
                user: UserOrId::UserId { id: 7 },
            }),
        ),
        (
            ResourceKind::Role,
            Event::RoleCreate(RoleCreate { guild_id: 1, role: Role { id: 8, body: vec![] } }),
        ),
        (ResourceKind::Role, Event::RoleDelete(RoleDelete { guild_id: 1, role_id: 8 })),
        (
            ResourceKind::Role,
            Event::RoleUpdate(RoleUpdate { guild_id: 1, role: Role { id: 8, body: vec![] } }),
        ),
        (
            ResourceKind::StageInstance,
            Event::StageInstanceCreate(StageInstanceCreate {
                guild_id: 1,
                stage_instance: StageInstance { id: 9, guild_id: 1, channel_id: 5, body: vec![] },
            }),
        ),
        (
            ResourceKind::StageInstance,
            Event::StageInstanceDelete(StageInstanceDelete { guild_id: 1, id: 9 }),
        ),
        (
            ResourceKind::StageInstance,
            Event::StageInstanceUpdate(StageInstanceUpdate {
                guild_id: 1,
                stage_instance: StageInstance { id: 9, guild_id: 1, channel_id: 5, body: vec![] },
            }),
        ),
    ]
}

#[test]
fn the_full_mask_holds_every_kind() {
    let all = ResourceType::all();
    let none = ResourceType::empty();
    for kind in KINDS {
        assert!(all.contains(kind));
        assert!(!none.contains(kind));
    }
}

#[test]
fn with_and_without_change_one_kind() {
    for kind in KINDS {
        let only = ResourceType::empty().with(kind);
        let rest = ResourceType::all().without(kind);
        for other in KINDS {
            assert_eq!(only.contains(other), other == kind);
            assert_eq!(rest.contains(other), other != kind);
        }
        assert_eq!(only.with(kind), only);
        assert_eq!(rest.without(kind), rest);
        assert_eq!(rest.with(kind), ResourceType::all());
        assert_eq!(only.without(kind), ResourceType::empty());
    }
}

#[test]
fn a_new_cache_wants_everything() {
    let cache = InRedisCache::new();
    for kind in KINDS {
        assert!(cache.wants(kind));
    }
    assert_eq!(Config::new().resource_types(), ResourceType::all());
}

#[test]
fn a_cache_wants_what_its_configuration_says() {
    let types = ResourceType::empty().with(ResourceKind::Role).with(ResourceKind::Guild);
    let cache = InRedisCache::with_config(Config::tracking(types));
    assert!(cache.wants(ResourceKind::Role));
    assert!(cache.wants(ResourceKind::Guild));
    assert!(!cache.wants(ResourceKind::Member));
    assert_eq!(cache.config().resource_types(), types);
    assert!(Config::tracking(types).wants(ResourceKind::Role));
    assert!(!Config::tracking(types).wants(ResourceKind::Channel));
}

#[test]
fn an_event_of_a_kind_that_is_not_wanted_takes_no_step() {
    for (kind, event) in events() {
        let cache = InRedisCache::with_config(Config::tracking(ResourceType::all().without(kind)));
        let plan = cache.update(&event);
        assert!(plan.is_empty(), "{:?}", event);
        // no request is made, and a store stays as it was
        assert_eq!(Run::new(cache.update(&event)).request(), None);
        let mut store = MemoryStore::new();
        execute(plan, &mut store);
        assert_eq!(store.writes(), 0);
    }
}

#[test]
fn an_event_of_a_kind_that_is_wanted_takes_steps() {
    for (kind, event) in events() {
        let cache = InRedisCache::with_config(Config::tracking(ResourceType::empty().with(kind)));
        assert!(!cache.update(&event).is_empty(), "{:?}", event);
        assert!(!InRedisCache::new().update(&event).is_empty(), "{:?}", event);
    }
}

#[test]
fn a_new_message_is_gated_by_three_kinds() {
    let event = Event::MessageCreate(MessageCreate {
        message: message(4),
        author: user(3),
        member: Some(PartialMember {
            deaf: false,
            joined_at: None,
            mute: false,
            nick: None,
            roles: vec![],
        }),
    });
    let none = ResourceType::all()
        .without(ResourceKind::User)
        .without(ResourceKind::Member)
        .without(ResourceKind::Message);
    assert!(InRedisCache::with_config(Config::tracking(none)).update(&event).is_empty());
    // the user alone: a test, the record, the guild
    let users = InRedisCache::with_config(Config::tracking(none.with(ResourceKind::User)));
    assert_eq!(users.update(&event).len(), 3);
    // the member alone: a test, the record, the set
    let members = InRedisCache::with_config(Config::tracking(none.with(ResourceKind::Member)));
    assert_eq!(members.update(&event).len(), 3);
    // the message alone: the record, the set
    let messages = InRedisCache::with_config(Config::tracking(none.with(ResourceKind::Message)));
    assert_eq!(messages.update(&event).len(), 2);
    assert_eq!(InRedisCache::new().update(&event).len(), 8);
}

#[test]
fn other_events_take_no_step() {
    assert!(InRedisCache::new().update(&Event::Other).is_empty());
}
