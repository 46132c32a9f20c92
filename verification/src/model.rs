use crate::codec::{data_of, Datum, Field};
use crate::record::{
    as_flag, as_num, as_opt_flag, as_opt_num, field_blob, field_ids, field_opt_flag,
    field_opt_num, field_opt_text, field_text, is_blob, is_ids, is_opt_text, is_text, opt_flag,
    opt_num, opt_text, take_blob, take_flag, take_ids, take_num, take_opt_flag, take_opt_num,
    take_opt_text, take_text, Identified, Record,
};
use vstd::prelude::*;

verus! {

/// What sort of channel a guild channel is.
#[derive(Clone, Copy, Debug, PartialEq, Eq, Structural)]
pub enum ChannelKind {
    Category,
    NewsThread,
    PrivateThread,
    PublicThread,
    Text,
    Voice,
    Stage,
}

/// The number under which a sort of channel is written.
pub open spec fn kind_code(kind: ChannelKind) -> u64 {
    match kind {
        ChannelKind::Category => 0,
        ChannelKind::NewsThread => 1,
        ChannelKind::PrivateThread => 2,
        ChannelKind::PublicThread => 3,
        ChannelKind::Text => 4,
        ChannelKind::Voice => 5,
        ChannelKind::Stage => 6,
    }
}

impl ChannelKind {
    /// The number under which this sort of channel is written.
    pub fn code(self) -> (r: u64)
        ensures
            r == kind_code(self),
            r < 7,
    {
        match self {
            ChannelKind::Category => 0,
            ChannelKind::NewsThread => 1,
            ChannelKind::PrivateThread => 2,
            ChannelKind::PublicThread => 3,
            ChannelKind::Text => 4,
            ChannelKind::Voice => 5,
            ChannelKind::Stage => 6,
        }
    }

    /// The sort of channel that is written under `code`, if there is one.
    pub fn from_code(code: u64) -> (r: Option<ChannelKind>)
        ensures
            r is Some <==> code < 7,
            r matches Some(kind) ==> kind_code(kind) == code,
    {
        if code == 0 {
            Some(ChannelKind::Category)
        } else if code == 1 {
            Some(ChannelKind::NewsThread)
        } else if code == 2 {
            Some(ChannelKind::PrivateThread)
        } else if code == 3 {
            Some(ChannelKind::PublicThread)
        } else if code == 4 {
            Some(ChannelKind::Text)
        } else if code == 5 {
            Some(ChannelKind::Voice)
        } else if code == 6 {
            Some(ChannelKind::Stage)
        } else {
            None
        }
    }
}

fn take_kind(fields: &mut Vec<Field>) -> (r: Option<ChannelKind>)
    requires
        old(fields).len() > 0,
    ensures
        final(fields)@ == old(fields)@.drop_last(),
        r is Some <==> as_num(old(fields)@.last()@) is Some && as_num(
            old(fields)@.last()@,
        ).unwrap() < 7,
        r matches Some(kind) ==> Datum::Num(kind_code(kind)) == old(fields)@.last()@,
{
    match take_num(fields) {
        Some(code) => ChannelKind::from_code(code),
        None => None,
    }
}

/// A channel of a guild. `guild_id` may be missing in what an event carries; the cache
/// fills it in before it stores the channel. `body` holds what the cache does not read.
#[derive(Clone, Debug, PartialEq, Eq)]
pub struct GuildChannel {
    pub id: u64,
    pub guild_id: Option<u64>,
    pub kind: ChannelKind,
    pub last_pin_timestamp: Option<u64>,
    pub body: Vec<u8>,
}

/// The position of `kind` among the fields of a `GuildChannel`.
pub const CHANNEL_KIND: usize = 2;

/// The position of `last_pin_timestamp` among the fields of a `GuildChannel`.
pub const CHANNEL_LAST_PIN_TIMESTAMP: usize = 3;

/// The number of fields of a `GuildChannel`.
pub const CHANNEL_FIELDS: usize = 5;

impl Record for GuildChannel {
    open spec fn data(&self) -> Seq<Datum> {
        seq![
            Datum::Num(self.id),
            opt_num(self.guild_id),
            Datum::Num(kind_code(self.kind)),
            opt_num(self.last_pin_timestamp),
            Datum::Blob(self.body@),
        ]
    }

    open spec fn shaped(data: Seq<Datum>) -> bool {
        &&& data.len() == 5
        &&& as_num(data[0]) is Some
        &&& as_opt_num(data[1]) is Some
        &&& as_num(data[2]) is Some && as_num(data[2]).unwrap() < 7
        &&& as_opt_num(data[3]) is Some
        &&& is_blob(data[4])
    }

    proof fn lemma_shaped(&self) {
    }

    fn fields(&self) -> (r: Vec<Field>) {
        let mut out: Vec<Field> = Vec::new();
        out.push(Field::Num(self.id));
        out.push(field_opt_num(self.guild_id));
        out.push(Field::Num(self.kind.code()));
        out.push(field_opt_num(self.last_pin_timestamp));
        out.push(field_blob(&self.body));
        assert(data_of(out@) =~= self.data());
        out
    }

    fn from_fields(fields: Vec<Field>) -> (r: Option<Self>) {
        let mut fields = fields;
        if fields.len() != 5 {
            return None;
        }
        let ghost data = data_of(fields@);
        let body = take_blob(&mut fields)?;
        let last_pin_timestamp = take_opt_num(&mut fields)?;
        let kind = take_kind(&mut fields)?;
        let guild_id = take_opt_num(&mut fields)?;
        let id = take_num(&mut fields)?;
        let record = GuildChannel {
            id,
            guild_id,
            kind,
            last_pin_timestamp,
            body,
        };
        assert(record.data() =~= data);
        Some(record)
    }
}

impl Identified for GuildChannel {
    open spec fn ident(&self) -> u64 {
        self.id
    }

    fn id(&self) -> (r: u64) {
        self.id
    }
}

/// A channel between the current user and one other.
#[derive(Clone, Debug, PartialEq, Eq)]
pub struct PrivateChannel {
    pub id: u64,
    pub last_pin_timestamp: Option<u64>,
    pub body: Vec<u8>,
}

/// The position of `last_pin_timestamp` among the fields of a `PrivateChannel`.
pub const PRIVATE_LAST_PIN_TIMESTAMP: usize = 1;

/// The number of fields of a `PrivateChannel`.
pub const PRIVATE_FIELDS: usize = 3;

impl Record for PrivateChannel {
    open spec fn data(&self) -> Seq<Datum> {
        seq![
            Datum::Num(self.id),
            opt_num(self.last_pin_timestamp),
            Datum::Blob(self.body@),
        ]
    }

    open spec fn shaped(data: Seq<Datum>) -> bool {
        &&& data.len() == 3
        &&& as_num(data[0]) is Some
        &&& as_opt_num(data[1]) is Some
        &&& is_blob(data[2])
    }

    proof fn lemma_shaped(&self) {
    }

    fn fields(&self) -> (r: Vec<Field>) {
        let mut out: Vec<Field> = Vec::new();
        out.push(Field::Num(self.id));
        out.push(field_opt_num(self.last_pin_timestamp));
        out.push(field_blob(&self.body));
        assert(data_of(out@) =~= self.data());
        out
    }

    fn from_fields(fields: Vec<Field>) -> (r: Option<Self>) {
        let mut fields = fields;
        if fields.len() != 3 {
            return None;
        }
        let ghost data = data_of(fields@);
        let body = take_blob(&mut fields)?;
        let last_pin_timestamp = take_opt_num(&mut fields)?;
        let id = take_num(&mut fields)?;
        let record = PrivateChannel {
            id,
            last_pin_timestamp,
            body,
        };
        assert(record.data() =~= data);
        Some(record)
    }
}

impl Identified for PrivateChannel {
    open spec fn ident(&self) -> u64 {
        self.id
    }

    fn id(&self) -> (r: u64) {
        self.id
    }
}

/// A channel between several users outside any guild.
#[derive(Clone, Debug, PartialEq, Eq)]
pub struct Group {
    pub id: u64,
    pub last_pin_timestamp: Option<u64>,
    pub body: Vec<u8>,
}

/// The position of `last_pin_timestamp` among the fields of a `Group`.
pub const GROUP_LAST_PIN_TIMESTAMP: usize = 1;

/// The number of fields of a `Group`.
pub const GROUP_FIELDS: usize = 3;

impl Record for Group {
    open spec fn data(&self) -> Seq<Datum> {
        seq![
            Datum::Num(self.id),
            opt_num(self.last_pin_timestamp),
            Datum::Blob(self.body@),
        ]
    }

    open spec fn shaped(data: Seq<Datum>) -> bool {
        &&& data.len() == 3
        &&& as_num(data[0]) is Some
        &&& as_opt_num(data[1]) is Some
        &&& is_blob(data[2])
    }

    proof fn lemma_shaped(&self) {
    }

    fn fields(&self) -> (r: Vec<Field>) {
        let mut out: Vec<Field> = Vec::new();
        out.push(Field::Num(self.id));
        out.push(field_opt_num(self.last_pin_timestamp));
        out.push(field_blob(&self.body));
        assert(data_of(out@) =~= self.data());
        out
    }

    fn from_fields(fields: Vec<Field>) -> (r: Option<Self>) {
        let mut fields = fields;
        if fields.len() != 3 {
            return None;
        }
        let ghost data = data_of(fields@);
        let body = take_blob(&mut fields)?;
        let last_pin_timestamp = take_opt_num(&mut fields)?;
        let id = take_num(&mut fields)?;
        let record = Group {
            id,
            last_pin_timestamp,
            body,
        };
        assert(record.data() =~= data);
        Some(record)
    }
}

impl Identified for Group {
    open spec fn ident(&self) -> u64 {
        self.id
    }

    fn id(&self) -> (r: u64) {
        self.id
    }
}

/// A guild, as the cache stores it: what the guild says of itself, without its children.
/// Levels, tiers and flag sets are held as their numbers; `features` is held as bytes.
#[derive(Clone, Debug, PartialEq, Eq)]
pub struct CachedGuild {
    pub id: u64,
    pub afk_channel_id: Option<u64>,
    pub afk_timeout: u64,
    pub application_id: Option<u64>,
    pub banner: Option<String>,
    pub default_message_notifications: u64,
    pub description: Option<String>,
    pub discovery_splash: Option<String>,
    pub explicit_content_filter: u64,
    pub features: Vec<u8>,
    pub icon: Option<String>,
    pub joined_at: Option<u64>,
    pub large: bool,
    pub max_members: Option<u64>,
    pub max_presences: Option<u64>,
    pub member_count: Option<u64>,
    pub mfa_level: u64,
    pub name: String,
    pub nsfw_level: u64,
    pub owner: Option<bool>,
    pub owner_id: u64,
    pub permissions: Option<u64>,
    pub preferred_locale: String,
    pub premium_subscription_count: Option<u64>,
    pub premium_tier: u64,
    pub rules_channel_id: Option<u64>,
    pub splash: Option<String>,
    pub system_channel_id: Option<u64>,
    pub system_channel_flags: u64,
    pub unavailable: bool,
    pub verification_level: u64,
    pub vanity_url_code: Option<String>,
    pub widget_channel_id: Option<u64>,
    pub widget_enabled: Option<bool>,
}

/// The position of `afk_channel_id` among the fields of a `CachedGuild`.
pub const GUILD_AFK_CHANNEL_ID: usize = 1;

/// The position of `afk_timeout` among the fields of a `CachedGuild`.
pub const GUILD_AFK_TIMEOUT: usize = 2;

/// The position of `banner` among the fields of a `CachedGuild`.
pub const GUILD_BANNER: usize = 4;

/// The position of `default_message_notifications` among the fields of a `CachedGuild`.
pub const GUILD_DEFAULT_MESSAGE_NOTIFICATIONS: usize = 5;

/// The position of `description` among the fields of a `CachedGuild`.
pub const GUILD_DESCRIPTION: usize = 6;

/// The position of `features` among the fields of a `CachedGuild`.
pub const GUILD_FEATURES: usize = 9;

/// The position of `icon` among the fields of a `CachedGuild`.
pub const GUILD_ICON: usize = 10;

/// The position of `max_members` among the fields of a `CachedGuild`.
pub const GUILD_MAX_MEMBERS: usize = 13;

/// The position of `max_presences` among the fields of a `CachedGuild`.
pub const GUILD_MAX_PRESENCES: usize = 14;

/// The position of `mfa_level` among the fields of a `CachedGuild`.
pub const GUILD_MFA_LEVEL: usize = 16;

/// The position of `name` among the fields of a `CachedGuild`.
pub const GUILD_NAME: usize = 17;

/// The position of `nsfw_level` among the fields of a `CachedGuild`.
pub const GUILD_NSFW_LEVEL: usize = 18;

/// The position of `owner` among the fields of a `CachedGuild`.
pub const GUILD_OWNER: usize = 19;

/// The position of `owner_id` among the fields of a `CachedGuild`.
pub const GUILD_OWNER_ID: usize = 20;

/// The position of `permissions` among the fields of a `CachedGuild`.
pub const GUILD_PERMISSIONS: usize = 21;

/// The position of `preferred_locale` among the fields of a `CachedGuild`.
pub const GUILD_PREFERRED_LOCALE: usize = 22;

/// The position of `premium_subscription_count` among the fields of a `CachedGuild`.
pub const GUILD_PREMIUM_SUBSCRIPTION_COUNT: usize = 23;

/// The position of `premium_tier` among the fields of a `CachedGuild`.
pub const GUILD_PREMIUM_TIER: usize = 24;

/// The position of `splash` among the fields of a `CachedGuild`.
pub const GUILD_SPLASH: usize = 26;

/// The position of `system_channel_id` among the fields of a `CachedGuild`.
pub const GUILD_SYSTEM_CHANNEL_ID: usize = 27;

/// The position of `verification_level` among the fields of a `CachedGuild`.
pub const GUILD_VERIFICATION_LEVEL: usize = 30;

/// The position of `vanity_url_code` among the fields of a `CachedGuild`.
pub const GUILD_VANITY_URL_CODE: usize = 31;

/// The position of `widget_channel_id` among the fields of a `CachedGuild`.
pub const GUILD_WIDGET_CHANNEL_ID: usize = 32;

/// The position of `widget_enabled` among the fields of a `CachedGuild`.
pub const GUILD_WIDGET_ENABLED: usize = 33;

/// The number of fields of a `CachedGuild`.
pub const GUILD_FIELDS: usize = 34;

impl Record for CachedGuild {
    open spec fn data(&self) -> Seq<Datum> {
        seq![
            Datum::Num(self.id),
            opt_num(self.afk_channel_id),
            Datum::Num(self.afk_timeout),
            opt_num(self.application_id),
            opt_text(self.banner),
            Datum::Num(self.default_message_notifications),
            opt_text(self.description),
            opt_text(self.discovery_splash),
            Datum::Num(self.explicit_content_filter),
            Datum::Blob(self.features@),
            opt_text(self.icon),
            opt_num(self.joined_at),
            Datum::Flag(self.large),
            opt_num(self.max_members),
            opt_num(self.max_presences),
            opt_num(self.member_count),
            Datum::Num(self.mfa_level),
            Datum::Text(self.name@),
            Datum::Num(self.nsfw_level),
            opt_flag(self.owner),
            Datum::Num(self.owner_id),
            opt_num(self.permissions),
            Datum::Text(self.preferred_locale@),
            opt_num(self.premium_subscription_count),
            Datum::Num(self.premium_tier),
            opt_num(self.rules_channel_id),
            opt_text(self.splash),
            opt_num(self.system_channel_id),
            Datum::Num(self.system_channel_flags),
            Datum::Flag(self.unavailable),
            Datum::Num(self.verification_level),
            opt_text(self.vanity_url_code),
            opt_num(self.widget_channel_id),
            opt_flag(self.widget_enabled),
        ]
    }

    open spec fn shaped(data: Seq<Datum>) -> bool {
        &&& data.len() == 34
        &&& as_num(data[0]) is Some
        &&& as_opt_num(data[1]) is Some
        &&& as_num(data[2]) is Some
        &&& as_opt_num(data[3]) is Some
        &&& is_opt_text(data[4])
        &&& as_num(data[5]) is Some
        &&& is_opt_text(data[6])
        &&& is_opt_text(data[7])
        &&& as_num(data[8]) is Some
        &&& is_blob(data[9])
        &&& is_opt_text(data[10])
        &&& as_opt_num(data[11]) is Some
        &&& as_flag(data[12]) is Some
        &&& as_opt_num(data[13]) is Some
        &&& as_opt_num(data[14]) is Some
        &&& as_opt_num(data[15]) is Some
        &&& as_num(data[16]) is Some
        &&& is_text(data[17])
        &&& as_num(data[18]) is Some
        &&& as_opt_flag(data[19]) is Some
        &&& as_num(data[20]) is Some
        &&& as_opt_num(data[21]) is Some
        &&& is_text(data[22])
        &&& as_opt_num(data[23]) is Some
        &&& as_num(data[24]) is Some
        &&& as_opt_num(data[25]) is Some
        &&& is_opt_text(data[26])
        &&& as_opt_num(data[27]) is Some
        &&& as_num(data[28]) is Some
        &&& as_flag(data[29]) is Some
        &&& as_num(data[30]) is Some
        &&& is_opt_text(data[31])
        &&& as_opt_num(data[32]) is Some
        &&& as_opt_flag(data[33]) is Some
    }

    proof fn lemma_shaped(&self) {
    }

    fn fields(&self) -> (r: Vec<Field>) {
        let mut out: Vec<Field> = Vec::new();
        out.push(Field::Num(self.id));
        out.push(field_opt_num(self.afk_channel_id));
        out.push(Field::Num(self.afk_timeout));
        out.push(field_opt_num(self.application_id));
        out.push(field_opt_text(&self.banner));
        out.push(Field::Num(self.default_message_notifications));
        out.push(field_opt_text(&self.description));
        out.push(field_opt_text(&self.discovery_splash));
        out.push(Field::Num(self.explicit_content_filter));
        out.push(field_blob(&self.features));
        out.push(field_opt_text(&self.icon));
        out.push(field_opt_num(self.joined_at));
        out.push(Field::Flag(self.large));
        out.push(field_opt_num(self.max_members));
        out.push(field_opt_num(self.max_presences));
        out.push(field_opt_num(self.member_count));
        out.push(Field::Num(self.mfa_level));
        out.push(field_text(&self.name));
        out.push(Field::Num(self.nsfw_level));
        out.push(field_opt_flag(self.owner));
        out.push(Field::Num(self.owner_id));
        out.push(field_opt_num(self.permissions));
        out.push(field_text(&self.preferred_locale));
        out.push(field_opt_num(self.premium_subscription_count));
        out.push(Field::Num(self.premium_tier));
        out.push(field_opt_num(self.rules_channel_id));
        out.push(field_opt_text(&self.splash));
        out.push(field_opt_num(self.system_channel_id));
        out.push(Field::Num(self.system_channel_flags));
        out.push(Field::Flag(self.unavailable));
        out.push(Field::Num(self.verification_level));
        out.push(field_opt_text(&self.vanity_url_code));
        out.push(field_opt_num(self.widget_channel_id));
        out.push(field_opt_flag(self.widget_enabled));
        assert(data_of(out@) =~= self.data());
        out
    }

    fn from_fields(fields: Vec<Field>) -> (r: Option<Self>) {
        let mut fields = fields;
        if fields.len() != 34 {
            return None;
        }
        let ghost data = data_of(fields@);
        let widget_enabled = take_opt_flag(&mut fields)?;
        let widget_channel_id = take_opt_num(&mut fields)?;
        let vanity_url_code = take_opt_text(&mut fields)?;
        let verification_level = take_num(&mut fields)?;
        let unavailable = take_flag(&mut fields)?;
        let system_channel_flags = take_num(&mut fields)?;
        let system_channel_id = take_opt_num(&mut fields)?;
        let splash = take_opt_text(&mut fields)?;
        let rules_channel_id = take_opt_num(&mut fields)?;
        let premium_tier = take_num(&mut fields)?;
        let premium_subscription_count = take_opt_num(&mut fields)?;
        let preferred_locale = take_text(&mut fields)?;
        let permissions = take_opt_num(&mut fields)?;
        let owner_id = take_num(&mut fields)?;
        let owner = take_opt_flag(&mut fields)?;
        let nsfw_level = take_num(&mut fields)?;
        let name = take_text(&mut fields)?;
        let mfa_level = take_num(&mut fields)?;
        let member_count = take_opt_num(&mut fields)?;
        let max_presences = take_opt_num(&mut fields)?;
        let max_members = take_opt_num(&mut fields)?;
        let large = take_flag(&mut fields)?;
        let joined_at = take_opt_num(&mut fields)?;
        let icon = take_opt_text(&mut fields)?;
        let features = take_blob(&mut fields)?;
        let explicit_content_filter = take_num(&mut fields)?;
        let discovery_splash = take_opt_text(&mut fields)?;
        let description = take_opt_text(&mut fields)?;
        let default_message_notifications = take_num(&mut fields)?;
        let banner = take_opt_text(&mut fields)?;
        let application_id = take_opt_num(&mut fields)?;
        let afk_timeout = take_num(&mut fields)?;
        let afk_channel_id = take_opt_num(&mut fields)?;
        let id = take_num(&mut fields)?;
        let record = CachedGuild {
            id,
            afk_channel_id,
            afk_timeout,
            application_id,
            banner,
            default_message_notifications,
            description,
            discovery_splash,
            explicit_content_filter,
            features,
            icon,
            joined_at,
            large,
            max_members,
            max_presences,
            member_count,
            mfa_level,
            name,
            nsfw_level,
            owner,
            owner_id,
            permissions,
            preferred_locale,
            premium_subscription_count,
            premium_tier,
            rules_channel_id,
            splash,
            system_channel_id,
            system_channel_flags,
            unavailable,
            verification_level,
            vanity_url_code,
            widget_channel_id,
            widget_enabled,
        };
        assert(record.data() =~= data);
        Some(record)
    }
}

impl Identified for CachedGuild {
    open spec fn ident(&self) -> u64 {
        self.id
    }

    fn id(&self) -> (r: u64) {
        self.id
    }
}

/// An integration of a guild.
#[derive(Clone, Debug, PartialEq, Eq)]
pub struct GuildIntegration {
    pub id: u64,
    pub body: Vec<u8>,
}

impl Record for GuildIntegration {
    open spec fn data(&self) -> Seq<Datum> {
        seq![
            Datum::Num(self.id),
            Datum::Blob(self.body@),
        ]
    }

    open spec fn shaped(data: Seq<Datum>) -> bool {
        &&& data.len() == 2
        &&& as_num(data[0]) is Some
        &&& is_blob(data[1])
    }

    proof fn lemma_shaped(&self) {
    }

    fn fields(&self) -> (r: Vec<Field>) {
        let mut out: Vec<Field> = Vec::new();
        out.push(Field::Num(self.id));
        out.push(field_blob(&self.body));
        assert(data_of(out@) =~= self.data());
        out
    }

    fn from_fields(fields: Vec<Field>) -> (r: Option<Self>) {
        let mut fields = fields;
        if fields.len() != 2 {
            return None;
        }
        let ghost data = data_of(fields@);
        let body = take_blob(&mut fields)?;
        let id = take_num(&mut fields)?;
        let record = GuildIntegration {
            id,
            body,
        };
        assert(record.data() =~= data);
        Some(record)
    }
}

impl Identified for GuildIntegration {
    open spec fn ident(&self) -> u64 {
        self.id
    }

    fn id(&self) -> (r: u64) {
        self.id
    }
}

/// A member of a guild, as the cache stores it. Times are microseconds since the epoch.
#[derive(Clone, Debug, PartialEq, Eq)]
pub struct CachedMember {
    pub deaf: Option<bool>,
    pub guild_id: u64,
    pub joined_at: Option<u64>,
    pub mute: Option<bool>,
    pub nick: Option<String>,
    pub pending: bool,
    pub premium_since: Option<u64>,
    pub roles: Vec<u64>,
    pub user_id: u64,
}

/// The position of `deaf` among the fields of a `CachedMember`.
pub const MEMBER_DEAF: usize = 0;

/// The position of `guild_id` among the fields of a `CachedMember`.
pub const MEMBER_GUILD_ID: usize = 1;

/// The position of `joined_at` among the fields of a `CachedMember`.
pub const MEMBER_JOINED_AT: usize = 2;

/// The position of `mute` among the fields of a `CachedMember`.
pub const MEMBER_MUTE: usize = 3;

/// The position of `nick` among the fields of a `CachedMember`.
pub const MEMBER_NICK: usize = 4;

/// The position of `pending` among the fields of a `CachedMember`.
pub const MEMBER_PENDING: usize = 5;

/// The position of `premium_since` among the fields of a `CachedMember`.
pub const MEMBER_PREMIUM_SINCE: usize = 6;

/// The position of `roles` among the fields of a `CachedMember`.
pub const MEMBER_ROLES: usize = 7;

/// The position of `user_id` among the fields of a `CachedMember`.
pub const MEMBER_USER_ID: usize = 8;

/// The number of fields of a `CachedMember`.
pub const MEMBER_FIELDS: usize = 9;

impl Record for CachedMember {
    open spec fn data(&self) -> Seq<Datum> {
        seq![
            opt_flag(self.deaf),
            Datum::Num(self.guild_id),
            opt_num(self.joined_at),
            opt_flag(self.mute),
            opt_text(self.nick),
            Datum::Flag(self.pending),
            opt_num(self.premium_since),
            Datum::Ids(self.roles@),
            Datum::Num(self.user_id),
        ]
    }

    open spec fn shaped(data: Seq<Datum>) -> bool {
        &&& data.len() == 9
        &&& as_opt_flag(data[0]) is Some
        &&& as_num(data[1]) is Some
        &&& as_opt_num(data[2]) is Some
        &&& as_opt_flag(data[3]) is Some
        &&& is_opt_text(data[4])
        &&& as_flag(data[5]) is Some
        &&& as_opt_num(data[6]) is Some
        &&& is_ids(data[7])
        &&& as_num(data[8]) is Some
    }

    proof fn lemma_shaped(&self) {
    }

    fn fields(&self) -> (r: Vec<Field>) {
        let mut out: Vec<Field> = Vec::new();
        out.push(field_opt_flag(self.deaf));
        out.push(Field::Num(self.guild_id));
        out.push(field_opt_num(self.joined_at));
        out.push(field_opt_flag(self.mute));
        out.push(field_opt_text(&self.nick));
        out.push(Field::Flag(self.pending));
        out.push(field_opt_num(self.premium_since));
        out.push(field_ids(&self.roles));
        out.push(Field::Num(self.user_id));
        assert(data_of(out@) =~= self.data());
        out
    }

    fn from_fields(fields: Vec<Field>) -> (r: Option<Self>) {
        let mut fields = fields;
        if fields.len() != 9 {
            return None;
        }
        let ghost data = data_of(fields@);
        let user_id = take_num(&mut fields)?;
        let roles = take_ids(&mut fields)?;
        let premium_since = take_opt_num(&mut fields)?;
        let pending = take_flag(&mut fields)?;
        let nick = take_opt_text(&mut fields)?;
        let mute = take_opt_flag(&mut fields)?;
        let joined_at = take_opt_num(&mut fields)?;
        let guild_id = take_num(&mut fields)?;
        let deaf = take_opt_flag(&mut fields)?;
        let record = CachedMember {
            deaf,
            guild_id,
            joined_at,
            mute,
            nick,
            pending,
            premium_since,
            roles,
            user_id,
        };
        assert(record.data() =~= data);
        Some(record)
    }
}

impl Identified for CachedMember {
    open spec fn ident(&self) -> u64 {
        self.user_id
    }

    fn id(&self) -> (r: u64) {
        self.user_id
    }
}

/// A message, as the cache stores it. `attachments` and `embeds` are held as bytes.
#[derive(Clone, Debug, PartialEq, Eq)]
pub struct CachedMessage {
    pub id: u64,
    pub channel_id: u64,
    pub guild_id: Option<u64>,
    pub author: u64,
    pub content: String,
    pub attachments: Vec<u8>,
    pub embeds: Vec<u8>,
    pub edited_timestamp: Option<u64>,
    pub mention_everyone: bool,
    pub mention_roles: Vec<u64>,
    pub mentions: Vec<u64>,
    pub pinned: bool,
    pub timestamp: u64,
    pub tts: bool,
    pub body: Vec<u8>,
}

/// The position of `content` among the fields of a `CachedMessage`.
pub const MESSAGE_CONTENT: usize = 4;

/// The position of `attachments` among the fields of a `CachedMessage`.
pub const MESSAGE_ATTACHMENTS: usize = 5;

/// The position of `embeds` among the fields of a `CachedMessage`.
pub const MESSAGE_EMBEDS: usize = 6;

/// The position of `edited_timestamp` among the fields of a `CachedMessage`.
pub const MESSAGE_EDITED_TIMESTAMP: usize = 7;

/// The position of `mention_everyone` among the fields of a `CachedMessage`.
pub const MESSAGE_MENTION_EVERYONE: usize = 8;

/// The position of `mention_roles` among the fields of a `CachedMessage`.
pub const MESSAGE_MENTION_ROLES: usize = 9;

/// The position of `mentions` among the fields of a `CachedMessage`.
pub const MESSAGE_MENTIONS: usize = 10;

/// The position of `pinned` among the fields of a `CachedMessage`.
pub const MESSAGE_PINNED: usize = 11;

/// The position of `timestamp` among the fields of a `CachedMessage`.
pub const MESSAGE_TIMESTAMP: usize = 12;

/// The position of `tts` among the fields of a `CachedMessage`.
pub const MESSAGE_TTS: usize = 13;

/// The number of fields of a `CachedMessage`.
pub const MESSAGE_FIELDS: usize = 15;

impl Record for CachedMessage {
    open spec fn data(&self) -> Seq<Datum> {
        seq![
            Datum::Num(self.id),
            Datum::Num(self.channel_id),
            opt_num(self.guild_id),
            Datum::Num(self.author),
            Datum::Text(self.content@),
            Datum::Blob(self.attachments@),
            Datum::Blob(self.embeds@),
            opt_num(self.edited_timestamp),
            Datum::Flag(self.mention_everyone),
            Datum::Ids(self.mention_roles@),
            Datum::Ids(self.mentions@),
            Datum::Flag(self.pinned),
            Datum::Num(self.timestamp),
            Datum::Flag(self.tts),
            Datum::Blob(self.body@),
        ]
    }

    open spec fn shaped(data: Seq<Datum>) -> bool {
        &&& data.len() == 15
        &&& as_num(data[0]) is Some
        &&& as_num(data[1]) is Some
        &&& as_opt_num(data[2]) is Some
        &&& as_num(data[3]) is Some
        &&& is_text(data[4])
        &&& is_blob(data[5])
        &&& is_blob(data[6])
        &&& as_opt_num(data[7]) is Some
        &&& as_flag(data[8]) is Some
        &&& is_ids(data[9])
        &&& is_ids(data[10])
        &&& as_flag(data[11]) is Some
        &&& as_num(data[12]) is Some
        &&& as_flag(data[13]) is Some
        &&& is_blob(data[14])
    }

    proof fn lemma_shaped(&self) {
    }

    fn fields(&self) -> (r: Vec<Field>) {
        let mut out: Vec<Field> = Vec::new();
        out.push(Field::Num(self.id));
        out.push(Field::Num(self.channel_id));
        out.push(field_opt_num(self.guild_id));
        out.push(Field::Num(self.author));
        out.push(field_text(&self.content));
        out.push(field_blob(&self.attachments));
        out.push(field_blob(&self.embeds));
        out.push(field_opt_num(self.edited_timestamp));
        out.push(Field::Flag(self.mention_everyone));
        out.push(field_ids(&self.mention_roles));
        out.push(field_ids(&self.mentions));
        out.push(Field::Flag(self.pinned));
        out.push(Field::Num(self.timestamp));
        out.push(Field::Flag(self.tts));
        out.push(field_blob(&self.body));
        assert(data_of(out@) =~= self.data());
        out
    }

    fn from_fields(fields: Vec<Field>) -> (r: Option<Self>) {
        let mut fields = fields;
        if fields.len() != 15 {
            return None;
        }
        let ghost data = data_of(fields@);
        let body = take_blob(&mut fields)?;
        let tts = take_flag(&mut fields)?;
        let timestamp = take_num(&mut fields)?;
        let pinned = take_flag(&mut fields)?;
        let mentions = take_ids(&mut fields)?;
        let mention_roles = take_ids(&mut fields)?;
        let mention_everyone = take_flag(&mut fields)?;
        let edited_timestamp = take_opt_num(&mut fields)?;
        let embeds = take_blob(&mut fields)?;
        let attachments = take_blob(&mut fields)?;
        let content = take_text(&mut fields)?;
        let author = take_num(&mut fields)?;
        let guild_id = take_opt_num(&mut fields)?;
        let channel_id = take_num(&mut fields)?;
        let id = take_num(&mut fields)?;
        let record = CachedMessage {
            id,
            channel_id,
            guild_id,
            author,
            content,
            attachments,
            embeds,
            edited_timestamp,
            mention_everyone,
            mention_roles,
            mentions,
            pinned,
            timestamp,
            tts,
            body,
        };
        assert(record.data() =~= data);
        Some(record)
    }
}

impl Identified for CachedMessage {
    open spec fn ident(&self) -> u64 {
        self.id
    }

    fn id(&self) -> (r: u64) {
        self.id
    }
}

/// What a user is doing in a guild, as the cache stores it.
#[derive(Clone, Debug, PartialEq, Eq)]
pub struct CachedPresence {
    pub activities: Vec<u8>,
    pub client_status: Vec<u8>,
    pub guild_id: u64,
    pub status: u64,
    pub user_id: u64,
}

impl Record for CachedPresence {
    open spec fn data(&self) -> Seq<Datum> {
        seq![
            Datum::Blob(self.activities@),
            Datum::Blob(self.client_status@),
            Datum::Num(self.guild_id),
            Datum::Num(self.status),
            Datum::Num(self.user_id),
        ]
    }

    open spec fn shaped(data: Seq<Datum>) -> bool {
        &&& data.len() == 5
        &&& is_blob(data[0])
        &&& is_blob(data[1])
        &&& as_num(data[2]) is Some
        &&& as_num(data[3]) is Some
        &&& as_num(data[4]) is Some
    }

    proof fn lemma_shaped(&self) {
    }

    fn fields(&self) -> (r: Vec<Field>) {
        let mut out: Vec<Field> = Vec::new();
        out.push(field_blob(&self.activities));
        out.push(field_blob(&self.client_status));
        out.push(Field::Num(self.guild_id));
        out.push(Field::Num(self.status));
        out.push(Field::Num(self.user_id));
        assert(data_of(out@) =~= self.data());
        out
    }

    fn from_fields(fields: Vec<Field>) -> (r: Option<Self>) {
        let mut fields = fields;
        if fields.len() != 5 {
            return None;
        }
        let ghost data = data_of(fields@);
        let user_id = take_num(&mut fields)?;
        let status = take_num(&mut fields)?;
        let guild_id = take_num(&mut fields)?;
        let client_status = take_blob(&mut fields)?;
        let activities = take_blob(&mut fields)?;
        let record = CachedPresence {
            activities,
            client_status,
            guild_id,
            status,
            user_id,
        };
        assert(record.data() =~= data);
        Some(record)
    }
}

impl Identified for CachedPresence {
    open spec fn ident(&self) -> u64 {
        self.user_id
    }

    fn id(&self) -> (r: u64) {
        self.user_id
    }
}

/// A role of a guild.
#[derive(Clone, Debug, PartialEq, Eq)]
pub struct Role {
    pub id: u64,
    pub body: Vec<u8>,
}

impl Record for Role {
    open spec fn data(&self) -> Seq<Datum> {
        seq![
            Datum::Num(self.id),
            Datum::Blob(self.body@),
        ]
    }

    open spec fn shaped(data: Seq<Datum>) -> bool {
        &&& data.len() == 2
        &&& as_num(data[0]) is Some
        &&& is_blob(data[1])
    }

    proof fn lemma_shaped(&self) {
    }

    fn fields(&self) -> (r: Vec<Field>) {
        let mut out: Vec<Field> = Vec::new();
        out.push(Field::Num(self.id));
        out.push(field_blob(&self.body));
        assert(data_of(out@) =~= self.data());
        out
    }

    fn from_fields(fields: Vec<Field>) -> (r: Option<Self>) {
        let mut fields = fields;
        if fields.len() != 2 {
            return None;
        }
        let ghost data = data_of(fields@);
        let body = take_blob(&mut fields)?;
        let id = take_num(&mut fields)?;
        let record = Role {
            id,
            body,
        };
        assert(record.data() =~= data);
        Some(record)
    }
}

impl Identified for Role {
    open spec fn ident(&self) -> u64 {
        self.id
    }

    fn id(&self) -> (r: u64) {
        self.id
    }
}

/// A live stage of a guild.
#[derive(Clone, Debug, PartialEq, Eq)]
pub struct StageInstance {
    pub id: u64,
    pub guild_id: u64,
    pub channel_id: u64,
    pub body: Vec<u8>,
}

impl Record for StageInstance {
    open spec fn data(&self) -> Seq<Datum> {
        seq![
            Datum::Num(self.id),
            Datum::Num(self.guild_id),
            Datum::Num(self.channel_id),
            Datum::Blob(self.body@),
        ]
    }

    open spec fn shaped(data: Seq<Datum>) -> bool {
        &&& data.len() == 4
        &&& as_num(data[0]) is Some
        &&& as_num(data[1]) is Some
        &&& as_num(data[2]) is Some
        &&& is_blob(data[3])
    }

    proof fn lemma_shaped(&self) {
    }

    fn fields(&self) -> (r: Vec<Field>) {
        let mut out: Vec<Field> = Vec::new();
        out.push(Field::Num(self.id));
        out.push(Field::Num(self.guild_id));
        out.push(Field::Num(self.channel_id));
        out.push(field_blob(&self.body));
        assert(data_of(out@) =~= self.data());
        out
    }

    fn from_fields(fields: Vec<Field>) -> (r: Option<Self>) {
        let mut fields = fields;
        if fields.len() != 4 {
            return None;
        }
        let ghost data = data_of(fields@);
        let body = take_blob(&mut fields)?;
        let channel_id = take_num(&mut fields)?;
        let guild_id = take_num(&mut fields)?;
        let id = take_num(&mut fields)?;
        let record = StageInstance {
            id,
            guild_id,
            channel_id,
            body,
        };
        assert(record.data() =~= data);
        Some(record)
    }
}

impl Identified for StageInstance {
    open spec fn ident(&self) -> u64 {
        self.id
    }

    fn id(&self) -> (r: u64) {
        self.id
    }
}

/// An emoji of a guild.
#[derive(Clone, Debug, PartialEq, Eq)]
pub struct CachedEmoji {
    pub id: u64,
    pub body: Vec<u8>,
}

impl Record for CachedEmoji {
    open spec fn data(&self) -> Seq<Datum> {
        seq![
            Datum::Num(self.id),
            Datum::Blob(self.body@),
        ]
    }

    open spec fn shaped(data: Seq<Datum>) -> bool {
        &&& data.len() == 2
        &&& as_num(data[0]) is Some
        &&& is_blob(data[1])
    }

    proof fn lemma_shaped(&self) {
    }

    fn fields(&self) -> (r: Vec<Field>) {
        let mut out: Vec<Field> = Vec::new();
        out.push(Field::Num(self.id));
        out.push(field_blob(&self.body));
        assert(data_of(out@) =~= self.data());
        out
    }

    fn from_fields(fields: Vec<Field>) -> (r: Option<Self>) {
        let mut fields = fields;
        if fields.len() != 2 {
            return None;
        }
        let ghost data = data_of(fields@);
        let body = take_blob(&mut fields)?;
        let id = take_num(&mut fields)?;
        let record = CachedEmoji {
            id,
            body,
        };
        assert(record.data() =~= data);
        Some(record)
    }
}

impl Identified for CachedEmoji {
    open spec fn ident(&self) -> u64 {
        self.id
    }

    fn id(&self) -> (r: u64) {
        self.id
    }
}

/// A user. A user belongs to no guild and may be seen through several.
#[derive(Clone, Debug, PartialEq, Eq)]
pub struct User {
    pub id: u64,
    pub body: Vec<u8>,
}

impl Record for User {
    open spec fn data(&self) -> Seq<Datum> {
        seq![
            Datum::Num(self.id),
            Datum::Blob(self.body@),
        ]
    }

    open spec fn shaped(data: Seq<Datum>) -> bool {
        &&& data.len() == 2
        &&& as_num(data[0]) is Some
        &&& is_blob(data[1])
    }

    proof fn lemma_shaped(&self) {
    }

    fn fields(&self) -> (r: Vec<Field>) {
        let mut out: Vec<Field> = Vec::new();
        out.push(Field::Num(self.id));
        out.push(field_blob(&self.body));
        assert(data_of(out@) =~= self.data());
        out
    }

    fn from_fields(fields: Vec<Field>) -> (r: Option<Self>) {
        let mut fields = fields;
        if fields.len() != 2 {
            return None;
        }
        let ghost data = data_of(fields@);
        let body = take_blob(&mut fields)?;
        let id = take_num(&mut fields)?;
        let record = User {
            id,
            body,
        };
        assert(record.data() =~= data);
        Some(record)
    }
}

impl Identified for User {
    open spec fn ident(&self) -> u64 {
        self.id
    }

    fn id(&self) -> (r: u64) {
        self.id
    }
}

/// A resource together with the guild that it belongs to.
#[derive(Clone, Debug, PartialEq, Eq)]
pub struct GuildResource<T> {
    pub guild_id: u64,
    pub value: T,
}

impl<T> GuildResource<T> {
    /// The guild that the resource belongs to.
    pub fn guild_id(&self) -> (r: u64)
        ensures
            r == self.guild_id,
    {
        self.guild_id
    }

    /// The resource itself.
    pub fn resource(&self) -> (r: &T)
        ensures
            *r == self.value,
    {
        &self.value
    }
}

impl<T: Record> Record for GuildResource<T> {
    open spec fn data(&self) -> Seq<Datum> {
        seq![Datum::Num(self.guild_id)] + self.value.data()
    }

    open spec fn shaped(data: Seq<Datum>) -> bool {
        &&& data.len() >= 1
        &&& as_num(data[0]) is Some
        &&& T::shaped(data.drop_first())
    }

    proof fn lemma_shaped(&self) {
        self.value.lemma_shaped();
        assert(self.data().drop_first() =~= self.value.data());
    }

    fn fields(&self) -> (r: Vec<Field>) {
        let mut out: Vec<Field> = Vec::new();
        out.push(Field::Num(self.guild_id));
        let mut rest = self.value.fields();
        let ghost tail = rest@;
        out.append(&mut rest);
        assert(data_of(out@) =~= seq![Datum::Num(self.guild_id)] + data_of(tail));
        out
    }

    fn from_fields(fields: Vec<Field>) -> (r: Option<Self>) {
        let mut fields = fields;
        if fields.len() == 0 {
            return None;
        }
        let ghost data = data_of(fields@);
        let first = fields.remove(0);
        assert(data_of(fields@) =~= data.drop_first());
        let guild_id = match first {
            Field::Num(v) => v,
            _ => {
                return None;
            },
        };
        let value = T::from_fields(fields)?;
        let record = GuildResource { guild_id, value };
        assert(record.data() =~= data);
        Some(record)
    }
}

} // verus!
