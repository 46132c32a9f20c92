use cache::codec::{decode_fields, encode_fields, Field};
use cache::model::{
    CachedEmoji, CachedGuild, CachedMember, CachedMessage, CachedPresence, ChannelKind, Group,
    GuildChannel, GuildIntegration, PrivateChannel, Role, StageInstance, User,
};
use cache::record;
use cache::record::{decode, encode_scoped};
use cache::{CacheError, GuildResource};

fn guild() -> CachedGuild {
    CachedGuild {
        id: 100,
        afk_channel_id: Some(5),
        afk_timeout: 300,
        application_id: None,
        banner: Some("banner".to_string()),
        default_message_notifications: 1,
        description: None,
        discovery_splash: None,
        explicit_content_filter: 2,
        features: vec![9, 9],
        icon: Some("a_icon".to_string()),
        joined_at: Some(1_632_072_645_000_000),
        large: false,
        max_members: Some(50),
        max_presences: Some(100),
        member_count: Some(25),
        mfa_level: 1,
        name: "this is a guild".to_string(),
        nsfw_level: 3,
        owner: Some(false),
        owner_id: 456,
        permissions: Some(2048),
        preferred_locale: "en-GB".to_string(),
        premium_subscription_count: Some(0),
        premium_tier: 0,
        rules_channel_id: None,
        splash: None,
        system_channel_id: None,
        system_channel_flags: 1,
        unavailable: false,
        verification_level: 4,
        vanity_url_code: None,
        widget_channel_id: None,
        widget_enabled: None,
    }
}

fn member() -> CachedMember {
    CachedMember {
        deaf: Some(false),
        guild_id: 1,
        joined_at: Some(77),
        mute: None,
        nick: Some("nick".to_string()),
        pending: true,
        premium_since: None,
        roles: vec![10, 20, u64::MAX],
        user_id: 3,
    }
}

fn message() -> CachedMessage {
    CachedMessage {
        id: 4,
        channel_id: 2,
        guild_id: Some(1),
        author: 3,
        content: "ping \u{1F3D3} \u{e9}".to_string(),
        attachments: vec![],
        embeds: vec![1, 2, 3],
        edited_timestamp: None,
        mention_everyone: false,
        mention_roles: vec![],
        mentions: vec![8, 9],
        pinned: false,
        timestamp: 1_632_072_645,
        tts: true,
        body: vec![0xff, 0x00],
    }
}

#[test]
fn bytes_of_a_small_record() {
    let role = Role { id: 7, body: vec![1, 2] };
    assert_eq!(
        record::encode(&role),
        vec![1u8, 0, 0, 0, 0, 0, 0, 0, 7, 4, 0, 0, 0, 0, 0, 0, 0, 2, 1, 2]
    );
}

#[test]
fn bytes_of_a_record_with_its_guild() {
    let role = Role { id: 7, body: vec![] };
    assert_eq!(
        encode_scoped(0x0102, &role),
        vec![1u8, 0, 0, 0, 0, 0, 0, 1, 2, 1, 0, 0, 0, 0, 0, 0, 0, 7, 4, 0, 0, 0, 0, 0, 0, 0, 0]
    );
    assert_eq!(
        encode_scoped(0x0102, &role),
        record::encode(&GuildResource { guild_id: 0x0102, value: role.clone() })
    );
}

#[test]
fn bytes_of_each_kind_of_field() {
    let fields = vec![
        Field::Nil,
        Field::Num(0x0102030405060708),
        Field::Flag(true),
        Field::Flag(false),
        Field::Text("h\u{e9}".to_string()),
        Field::Blob(vec![0xaa]),
        Field::Ids(vec![1, 256]),
    ];
    let mut expected: Vec<u8> = vec![0];
    expected.extend([1, 1, 2, 3, 4, 5, 6, 7, 8]);
    expected.extend([2, 1]);
    expected.extend([2, 0]);
    expected.extend([3, 0, 0, 0, 0, 0, 0, 0, 3, b'h', 0xc3, 0xa9]);
    expected.extend([4, 0, 0, 0, 0, 0, 0, 0, 1, 0xaa]);
    expected.extend([5, 0, 0, 0, 0, 0, 0, 0, 2]);
    expected.extend([0, 0, 0, 0, 0, 0, 0, 1, 0, 0, 0, 0, 0, 0, 1, 0]);
    assert_eq!(encode_fields(&fields), expected);
    assert_eq!(decode_fields(&expected), Some(fields));
}

#[test]
fn no_fields_are_no_bytes() {
    assert_eq!(encode_fields(&vec![]), Vec::<u8>::new());
    assert_eq!(decode_fields(&[]), Some(vec![]));
}

#[test]
fn member_round_trips() {
    let m = member();
    assert_eq!(decode::<CachedMember>(&record::encode(&m)), Ok(m));
}

#[test]
fn guild_round_trips() {
    let g = guild();
    assert_eq!(decode::<CachedGuild>(&record::encode(&g)), Ok(g));
}

#[test]
fn message_round_trips() {
    let m = message();
    assert_eq!(decode::<CachedMessage>(&record::encode(&m)), Ok(m));
}

#[test]
fn every_record_type_round_trips() {
    let channel = GuildChannel {
        id: 111,
        guild_id: None,
        kind: ChannelKind::PublicThread,
        last_pin_timestamp: Some(9),
        body: vec![1],
    };
    assert_eq!(decode::<GuildChannel>(&record::encode(&channel)), Ok(channel.clone()));
    let scoped = GuildResource { guild_id: 123, value: channel };
    assert_eq!(decode::<GuildResource<GuildChannel>>(&record::encode(&scoped)), Ok(scoped));
    let private = PrivateChannel { id: 1, last_pin_timestamp: None, body: vec![] };
    assert_eq!(decode::<PrivateChannel>(&record::encode(&private)), Ok(private));
    let group = Group { id: 2, last_pin_timestamp: Some(0), body: vec![7; 300] };
    assert_eq!(decode::<Group>(&record::encode(&group)), Ok(group));
    let integration = GuildIntegration { id: 3, body: vec![3] };
    assert_eq!(decode::<GuildIntegration>(&record::encode(&integration)), Ok(integration));
    let presence = CachedPresence {
        activities: vec![1, 2],
        client_status: vec![],
        guild_id: 5,
        status: 2,
        user_id: 6,
    };
    assert_eq!(decode::<CachedPresence>(&record::encode(&presence)), Ok(presence));
    let role = Role { id: u64::MAX, body: vec![] };
    assert_eq!(decode::<Role>(&record::encode(&role)), Ok(role));
    let stage = StageInstance { id: 1, guild_id: 2, channel_id: 3, body: vec![4] };
    assert_eq!(decode::<StageInstance>(&record::encode(&stage)), Ok(stage));
    let emoji = CachedEmoji { id: 0, body: vec![0] };
    assert_eq!(decode::<CachedEmoji>(&record::encode(&emoji)), Ok(emoji));
    let user = User { id: 9, body: b"name".to_vec() };
    assert_eq!(decode::<User>(&record::encode(&user)), Ok(user));
}

#[test]
fn every_channel_kind_round_trips() {
    for kind in [
        ChannelKind::Category,
        ChannelKind::NewsThread,
        ChannelKind::PrivateThread,
        ChannelKind::PublicThread,
        ChannelKind::Text,
        ChannelKind::Voice,
        ChannelKind::Stage,
    ] {
        assert_eq!(ChannelKind::from_code(kind.code()), Some(kind));
        let channel =
            GuildChannel { id: 1, guild_id: Some(2), kind, last_pin_timestamp: None, body: vec![] };
        assert_eq!(decode::<GuildChannel>(&record::encode(&channel)), Ok(channel));
    }
    assert_eq!(ChannelKind::Text.code(), 4);
    assert_eq!(ChannelKind::from_code(7), None);
}

#[test]
fn empty_bytes_are_no_record() {
    assert_eq!(decode::<Role>(&[]), Err(CacheError::CorruptRecord));
}

#[test]
fn truncated_bytes_are_corrupt() {
    let bytes = record::encode(&member());
    for cut in 1..bytes.len() {
        assert_eq!(
            decode::<CachedMember>(&bytes[..cut]),
            Err(CacheError::CorruptRecord),
            "cut at {}",
            cut
        );
    }
}

#[test]
fn bytes_after_the_record_are_corrupt() {
    let mut bytes = record::encode(&Role { id: 1, body: vec![] });
    bytes.push(0);
    assert_eq!(decode::<Role>(&bytes), Err(CacheError::CorruptRecord));
}

#[test]
fn an_unknown_tag_is_corrupt() {
    assert_eq!(decode_fields(&[9]), None);
    assert_eq!(decode::<Role>(&[9]), Err(CacheError::CorruptRecord));
}

#[test]
fn a_flag_that_is_neither_is_corrupt() {
    assert_eq!(decode_fields(&[2, 1]), Some(vec![Field::Flag(true)]));
    assert_eq!(decode_fields(&[2, 2]), None);
}

#[test]
fn text_that_is_not_utf8_is_corrupt() {
    assert_eq!(
        decode_fields(&[3, 0, 0, 0, 0, 0, 0, 0, 1, b'a']),
        Some(vec![Field::Text("a".to_string())])
    );
    assert_eq!(decode_fields(&[3, 0, 0, 0, 0, 0, 0, 0, 1, 0xff]), None);
    // a count that promises more than there is
    assert_eq!(decode_fields(&[3, 0xff, 0xff, 0xff, 0xff, 0xff, 0xff, 0xff, 0xff, b'a']), None);
    assert_eq!(decode_fields(&[5, 0x20, 0, 0, 0, 0, 0, 0, 1, 0, 0, 0, 0, 0, 0, 0, 1]), None);
}

#[test]
fn another_shape_is_corrupt() {
    let role = record::encode(&Role { id: 1, body: vec![] });
    assert_eq!(decode::<CachedMember>(&role), Err(CacheError::CorruptRecord));
    assert_eq!(decode::<StageInstance>(&role), Err(CacheError::CorruptRecord));
    // a channel whose sort is no sort
    let mut channel = record::encode(&GuildChannel {
        id: 1,
        guild_id: None,
        kind: ChannelKind::Stage,
        last_pin_timestamp: None,
        body: vec![],
    });
    assert_eq!(channel[9 + 1 + 8], 6);
    channel[9 + 1 + 8] = 7;
    assert_eq!(decode::<GuildChannel>(&channel), Err(CacheError::CorruptRecord));
    // a record with its guild needs the guild in front
    assert_eq!(decode::<GuildResource<Role>>(&role), Err(CacheError::CorruptRecord));
}

#[test]
fn guild_resource_gives_its_parts() {
    let resource = GuildResource { guild_id: 5, value: Role { id: 1, body: vec![2] } };
    assert_eq!(resource.guild_id(), 5);
    assert_eq!(resource.resource(), &Role { id: 1, body: vec![2] });
}

#[test]
fn error_messages() {
    assert_eq!(CacheError::StoreUnavailable.message(), "was not able to get a store connection");
    assert_eq!(CacheError::StoreOperationFailed.message(), "store command error");
    assert_eq!(CacheError::CorruptRecord.message(), "decode error");
    assert_eq!(CacheError::EncodeError.message(), "encode error");
}

/// A small generator of numbers, the same on every run.
struct Numbers(u64);

impl Numbers {
    fn next(&mut self) -> u64 {
        self.0 = self.0.wrapping_mul(6364136223846793005).wrapping_add(1442695040888963407);
        self.0 >> 11
    }
}

fn some_field(numbers: &mut Numbers) -> Field {
    match numbers.next() % 6 {
        0 => Field::Nil,
        1 => Field::Num(numbers.next().wrapping_mul(numbers.next())),
        2 => Field::Flag(numbers.next() % 2 == 0),
        3 => {
            let len = numbers.next() % 20;
            let text: String = (0..len)
                .map(|_| char::from_u32((numbers.next() % 0x2000) as u32).unwrap_or('\u{fffd}'))
                .collect();
            Field::Text(text)
        }
        4 => {
            let len = numbers.next() % 300;
            Field::Blob((0..len).map(|_| numbers.next() as u8).collect())
        }
        _ => {
            let len = numbers.next() % 10;
            Field::Ids((0..len).map(|_| numbers.next()).collect())
        }
    }
}

#[test]
fn lists_of_fields_round_trip() {
    let mut numbers = Numbers(7);
    for _ in 0..200 {
        let len = numbers.next() % 12;
        let fields: Vec<Field> = (0..len).map(|_| some_field(&mut numbers)).collect();
        let bytes = encode_fields(&fields);
        assert_eq!(decode_fields(&bytes), Some(fields));
    }
}
