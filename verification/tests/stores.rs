use cache::memory::{IndexStore, MemoryStore, RecordStore};
use cache::store::{Entry, Index, Key, Reply, Request, Table, Write};

#[test]
fn put_overwrites() {
    let mut store = RecordStore::new();
    store.put(Table::Roles, Key::Id(1), vec![1]);
    store.put(Table::Roles, Key::Id(1), vec![2]);
    assert_eq!(store.get(Table::Roles, Key::Id(1)), Some(vec![2]));
    assert_eq!(store.count(Table::Roles), 1);
}

#[test]
fn get_of_a_missing_key_is_absent() {
    let mut store = RecordStore::new();
    assert_eq!(store.get(Table::Roles, Key::Id(1)), None);
    store.put(Table::Roles, Key::Id(1), vec![1]);
    // the same key in another table, and another key in the same table
    assert_eq!(store.get(Table::Users, Key::Id(1)), None);
    assert_eq!(store.get(Table::Roles, Key::Id(2)), None);
    assert_eq!(store.get(Table::Roles, Key::Pair(1, 1)), None);
    assert!(store.includes(Table::Roles, Key::Id(1)));
    assert!(!store.includes(Table::Users, Key::Id(1)));
}

#[test]
fn delete_says_whether_the_key_was_there() {
    let mut store = RecordStore::new();
    store.put(Table::Roles, Key::Id(1), vec![1]);
    store.put(Table::Roles, Key::Id(2), vec![2]);
    store.put(Table::Roles, Key::Id(3), vec![3]);
    assert!(store.delete(Table::Roles, Key::Id(2)));
    assert!(!store.delete(Table::Roles, Key::Id(2)));
    assert_eq!(store.get(Table::Roles, Key::Id(1)), Some(vec![1]));
    assert_eq!(store.get(Table::Roles, Key::Id(2)), None);
    assert_eq!(store.get(Table::Roles, Key::Id(3)), Some(vec![3]));
    assert_eq!(store.count(Table::Roles), 2);
}

#[test]
fn put_many_keeps_the_later_of_two() {
    let mut store = RecordStore::new();
    store.put(Table::Users, Key::Id(1), vec![0]);
    store.put_many(
        Table::Users,
        &vec![
            Entry { key: Key::Id(1), value: vec![1] },
            Entry { key: Key::Id(2), value: vec![2] },
            Entry { key: Key::Id(1), value: vec![3] },
        ],
    );
    assert_eq!(store.get(Table::Users, Key::Id(1)), Some(vec![3]));
    assert_eq!(store.get(Table::Users, Key::Id(2)), Some(vec![2]));
    assert_eq!(store.count(Table::Users), 2);
    let mut keys = store.keys(Table::Users);
    keys.sort_by_key(|k| match k {
        Key::Id(id) => *id,
        Key::Pair(_, id) => *id,
    });
    assert_eq!(keys, vec![Key::Id(1), Key::Id(2)]);
}

#[test]
fn count_is_per_table() {
    let mut store = RecordStore::new();
    assert_eq!(store.count(Table::Guilds), 0);
    store.put(Table::Guilds, Key::Id(1), vec![]);
    store.put(Table::Members, Key::Pair(1, 1), vec![]);
    store.put(Table::Members, Key::Pair(1, 2), vec![]);
    assert_eq!(store.count(Table::Guilds), 1);
    assert_eq!(store.count(Table::Members), 2);
    assert_eq!(store.count(Table::Users), 0);
}

#[test]
fn a_set_holds_each_member_once() {
    let mut store = IndexStore::new();
    store.add(Index::GuildRoles, 1, Key::Id(5));
    store.add(Index::GuildRoles, 1, Key::Id(5));
    store.add(Index::GuildRoles, 1, Key::Id(6));
    assert_eq!(store.size(Index::GuildRoles, 1), 2);
    assert!(store.contains(Index::GuildRoles, 1, Key::Id(5)));
    assert!(!store.contains(Index::GuildRoles, 2, Key::Id(5)));
    assert!(!store.contains(Index::GuildEmojis, 1, Key::Id(5)));
    let mut members = store.members(Index::GuildRoles, 1);
    members.sort_by_key(|k| match k {
        Key::Id(id) => *id,
        Key::Pair(_, id) => *id,
    });
    assert_eq!(members, vec![Key::Id(5), Key::Id(6)]);
    assert_eq!(store.members(Index::GuildRoles, 2), vec![]);
}

#[test]
fn add_many_and_compound_members() {
    let mut store = IndexStore::new();
    store.add_many(
        Index::VoiceStateChannels,
        9,
        &vec![Key::Pair(1, 2), Key::Pair(1, 3), Key::Pair(1, 2)],
    );
    assert_eq!(store.size(Index::VoiceStateChannels, 9), 2);
    assert!(store.contains(Index::VoiceStateChannels, 9, Key::Pair(1, 3)));
    store.add_many(Index::VoiceStateChannels, 9, &vec![]);
    assert_eq!(store.size(Index::VoiceStateChannels, 9), 2);
}

#[test]
fn remove_says_whether_the_member_was_there() {
    let mut store = IndexStore::new();
    store.add(Index::GuildRoles, 1, Key::Id(5));
    store.add(Index::GuildRoles, 1, Key::Id(6));
    assert!(store.remove(Index::GuildRoles, 1, Key::Id(5)));
    assert!(!store.remove(Index::GuildRoles, 1, Key::Id(5)));
    assert!(!store.remove(Index::GuildRoles, 2, Key::Id(6)));
    assert_eq!(store.members(Index::GuildRoles, 1), vec![Key::Id(6)]);
}

#[test]
fn delete_removes_the_whole_set() {
    let mut store = IndexStore::new();
    store.add(Index::GuildRoles, 1, Key::Id(5));
    store.add(Index::GuildRoles, 1, Key::Id(6));
    store.add(Index::GuildRoles, 2, Key::Id(7));
    store.add(Index::GuildEmojis, 1, Key::Id(8));
    assert!(store.delete(Index::GuildRoles, 1));
    assert!(!store.delete(Index::GuildRoles, 1));
    assert_eq!(store.size(Index::GuildRoles, 1), 0);
    assert_eq!(store.size(Index::GuildRoles, 2), 1);
    assert_eq!(store.size(Index::GuildEmojis, 1), 1);
}

#[test]
fn requests_are_answered_as_the_contract_says() {
    let mut store = MemoryStore::new();
    assert_eq!(store.writes(), 0);
    assert_eq!(
        store.perform(&Request::Get { table: Table::Roles, key: Key::Id(1) }),
        Reply::Record(None)
    );
    assert_eq!(
        store.perform(&Request::Write(Write::Put {
            table: Table::Roles,
            key: Key::Id(1),
            value: vec![7]
        })),
        Reply::Done(true)
    );
    assert_eq!(
        store.perform(&Request::Get { table: Table::Roles, key: Key::Id(1) }),
        Reply::Record(Some(vec![7]))
    );
    assert_eq!(
        store.perform(&Request::Write(Write::Delete { table: Table::Roles, key: Key::Id(2) })),
        Reply::Done(false)
    );
    assert_eq!(
        store.perform(&Request::Write(Write::Delete { table: Table::Roles, key: Key::Id(1) })),
        Reply::Done(true)
    );
    assert_eq!(
        store.perform(&Request::Write(Write::Add {
            index: Index::GuildRoles,
            owner: 1,
            member: Key::Id(1)
        })),
        Reply::Done(true)
    );
    assert_eq!(
        store.perform(&Request::Members { index: Index::GuildRoles, owner: 1 }),
        Reply::Members(vec![Key::Id(1)])
    );
    assert_eq!(
        store.perform(&Request::Write(Write::Remove {
            index: Index::GuildRoles,
            owner: 1,
            member: Key::Id(2)
        })),
        Reply::Done(false)
    );
    assert_eq!(
        store.perform(&Request::Write(Write::Clear { index: Index::GuildRoles, owner: 1 })),
        Reply::Done(true)
    );
    assert_eq!(
        store.perform(&Request::Write(Write::Clear { index: Index::GuildRoles, owner: 1 })),
        Reply::Done(false)
    );
    // seven changes were asked for; reads are not counted
    assert_eq!(store.writes(), 7);
    assert_eq!(store.count(Table::Roles), 0);
    assert_eq!(store.get_index(Index::GuildRoles, 1), vec![]);
    assert_eq!(store.get_record(Table::Roles, Key::Id(1)), None);
}

#[test]
fn tables_and_families_have_their_names() {
    assert_eq!(Table::ChannelsGuild.name(), "channels_guild");
    assert_eq!(Table::ChannelsPrivate.name(), "channels_private");
    assert_eq!(Table::Emojis.name(), "emojis");
    assert_eq!(Table::Groups.name(), "groups");
    assert_eq!(Table::Guilds.name(), "guilds");
    assert_eq!(Table::Integrations.name(), "integrations");
    assert_eq!(Table::Members.name(), "members");
    assert_eq!(Table::Messages.name(), "messages");
    assert_eq!(Table::Presences.name(), "presences");
    assert_eq!(Table::Roles.name(), "roles");
    assert_eq!(Table::StageInstances.name(), "stage_instances");
    assert_eq!(Table::Stickers.name(), "stickers");
    assert_eq!(Table::Users.name(), "users");
    assert_eq!(Table::VoiceStates.name(), "voice_states");
    assert_eq!(Index::ChannelMessages.prefix(), "channel_messages");
    assert_eq!(Index::GuildChannels.prefix(), "guild_channels");
    assert_eq!(Index::GuildEmojis.prefix(), "guild_emojis");
    assert_eq!(Index::GuildIntegrations.prefix(), "guild_integrations");
    assert_eq!(Index::GuildMembers.prefix(), "guild_members");
    assert_eq!(Index::GuildPresences.prefix(), "guild_presences");
    assert_eq!(Index::GuildRoles.prefix(), "guild_roles");
    assert_eq!(Index::GuildStageInstances.prefix(), "guild_stage_instances");
    assert_eq!(Index::GuildStickers.prefix(), "guild_stickers");
    assert_eq!(Index::UnavailableGuilds.prefix(), "unavailable_guilds");
    assert_eq!(Index::UserGuilds.prefix(), "user_guilds");
    assert_eq!(Index::VoiceStateChannels.prefix(), "voice_state_channels");
    assert_eq!(Index::VoiceStateGuilds.prefix(), "voice_state_guilds");
}

#[test]
fn sets_are_named_by_prefix_and_owner() {
    assert_eq!(Index::GuildChannels.set_name(123), "guild_channels-123");
    assert_eq!(Index::GuildMembers.set_name(0), "guild_members-0");
    assert_eq!(Index::UserGuilds.set_name(9), "user_guilds-9");
    assert_eq!(Index::UserGuilds.set_name(10), "user_guilds-10");
    assert_eq!(Index::ChannelMessages.set_name(615542460151496705), "channel_messages-615542460151496705");
    assert_eq!(Index::VoiceStateChannels.set_name(u64::MAX), "voice_state_channels-18446744073709551615");
    // the one set of unavailable guilds
    assert_eq!(Index::UnavailableGuilds.set_name(0), "unavailable_guilds-unavailable_guilds");
    assert_eq!(Index::UnavailableGuilds.set_name(77), "unavailable_guilds-unavailable_guilds");
    for owner in [1u64, 99, 100, 1000, 123456789, u64::MAX - 1] {
        assert_eq!(Index::GuildRoles.set_name(owner), format!("guild_roles-{}", owner));
    }
}

