use crate::cache::{InRedisCache, join, UpdateCache};
use crate::codec::{data_wire, Datum, Field};
use crate::config::ResourceKind;
use crate::event::{change, patch, patch_plan};
use crate::event::channel::guild_channels_plan;
use crate::event::emoji::emojis_plan;
use crate::event::member::{Member, members_plan};
use crate::event::presence::presences_plan;
use crate::event::role::roles_plan;
use crate::event::stage_instance::stage_instances_plan;
use crate::model::{
    CachedEmoji, CachedGuild, CachedPresence, GUILD_AFK_CHANNEL_ID, GUILD_AFK_TIMEOUT, GUILD_BANNER,
    GUILD_DEFAULT_MESSAGE_NOTIFICATIONS, GUILD_DESCRIPTION, GUILD_FEATURES, GUILD_FIELDS,
    GUILD_ICON, GUILD_MAX_MEMBERS, GUILD_MAX_PRESENCES, GUILD_MFA_LEVEL, GUILD_NAME,
    GUILD_NSFW_LEVEL, GUILD_OWNER, GUILD_OWNER_ID, GUILD_PERMISSIONS, GUILD_PREFERRED_LOCALE,
    GUILD_PREMIUM_SUBSCRIPTION_COUNT, GUILD_PREMIUM_TIER, GUILD_SPLASH, GUILD_SYSTEM_CHANNEL_ID,
    GUILD_VANITY_URL_CODE, GUILD_VERIFICATION_LEVEL, GUILD_WIDGET_CHANNEL_ID, GUILD_WIDGET_ENABLED,
    GuildChannel, Role, StageInstance,
};
use crate::plan::{Change, changes_view, Step, steps_view, StepView};
use crate::record::{
    field_blob, field_opt_flag, field_opt_num, field_opt_text, field_text, opt_flag, opt_num,
    opt_text, Record,
};
use crate::store::{Index, Key, Table, UNSCOPED, Write, WriteView};
use vstd::prelude::*;

verus! {

/// A guild as the gateway sends it when the guild becomes known: what the guild says of
/// itself, and its children. The children may come without the guild's identifier.
#[derive(Clone, Debug, PartialEq, Eq)]
pub struct Guild {
    pub attributes: CachedGuild,
    pub channels: Vec<GuildChannel>,
    pub threads: Vec<GuildChannel>,
    pub emojis: Vec<CachedEmoji>,
    pub members: Vec<Member>,
    pub presences: Vec<CachedPresence>,
    pub roles: Vec<Role>,
    pub stage_instances: Vec<StageInstance>,
}

/// What a guild says of itself after a change. Levels and tiers are held as their numbers,
/// `features` as bytes.
#[derive(Clone, Debug, PartialEq, Eq)]
pub struct PartialGuild {
    pub id: u64,
    pub afk_channel_id: Option<u64>,
    pub afk_timeout: u64,
    pub banner: Option<String>,
    pub default_message_notifications: u64,
    pub description: Option<String>,
    pub features: Vec<u8>,
    pub icon: Option<String>,
    pub max_members: Option<u64>,
    pub max_presences: Option<u64>,
    pub mfa_level: u64,
    pub name: String,
    pub nsfw_level: u64,
    pub owner: Option<bool>,
    pub owner_id: u64,
    pub permissions: Option<u64>,
    pub preferred_locale: String,
    pub premium_tier: u64,
    pub premium_subscription_count: Option<u64>,
    pub splash: Option<String>,
    pub system_channel_id: Option<u64>,
    pub verification_level: u64,
    pub vanity_url_code: Option<String>,
    pub widget_channel_id: Option<u64>,
    pub widget_enabled: Option<bool>,
}

/// A guild has become known.
#[derive(Clone, Debug, PartialEq, Eq)]
pub struct GuildCreate(pub Guild);

/// A guild is gone.
#[derive(Clone, Debug, PartialEq, Eq)]
pub struct GuildDelete {
    pub id: u64,
}

/// A guild has changed.
#[derive(Clone, Debug, PartialEq, Eq)]
pub struct GuildUpdate(pub PartialGuild);

/// The number of presences that a guild allows where it does not say.
pub const DEFAULT_MAX_PRESENCES: u64 = 25000;

/// `plan` where the cache tracks `kind`, else nothing.
pub open spec fn where_wanted(wanted: Set<ResourceKind>, kind: ResourceKind, plan: Seq<StepView>) -> Seq<
    StepView,
> {
    if wanted.contains(kind) {
        plan
    } else {
        Seq::empty()
    }
}

/// The plan that stores a guild's own record and takes the guild out of the set of
/// unavailable guilds.
pub open spec fn guild_record_plan(attributes: CachedGuild) -> Seq<StepView> {
    seq![
        StepView::Write(
            WriteView::Remove {
                index: Index::UnavailableGuilds,
                owner: UNSCOPED,
                member: Key::Id(attributes.id),
            },
        ),
        StepView::Write(
            WriteView::Put {
                table: Table::Guilds,
                key: Key::Id(attributes.id),
                value: data_wire(attributes.data()),
            },
        ),
    ]
}

/// The plan that stores a guild: the children of each kind that the cache tracks, each kind
/// in one batch and with the guild's identifier filled in, then the guild itself.
pub open spec fn guild_plan(wanted: Set<ResourceKind>, guild: Guild) -> Seq<StepView> {
    let id = guild.attributes.id;
    where_wanted(
        wanted,
        ResourceKind::Channel,
        guild_channels_plan(id, guild.channels@) + guild_channels_plan(id, guild.threads@),
    ) + where_wanted(wanted, ResourceKind::Emoji, emojis_plan(id, guild.emojis@)) + where_wanted(
        wanted,
        ResourceKind::Member,
        members_plan(id, guild.members@),
    ) + where_wanted(wanted, ResourceKind::Presence, presences_plan(id, guild.presences@))
        + where_wanted(wanted, ResourceKind::Role, roles_plan(id, guild.roles@)) + where_wanted(
        wanted,
        ResourceKind::StageInstance,
        stage_instances_plan(id, guild.stage_instances@),
    ) + guild_record_plan(guild.attributes)
}

/// The sweep of one kind of child of a guild.
pub open spec fn sweep_plan(index: Index, guild_id: u64, table: Table, composite: bool) -> Seq<
    StepView,
> {
    seq![StepView::Sweep { index, owner: guild_id, table, composite }]
}

/// The set of a guild's children of one kind, the table of their records, and whether that
/// table is keyed by guild and child; `None` for a kind that has no children of guilds.
pub open spec fn cascade_of(kind: ResourceKind) -> Option<(Index, Table, bool)> {
    match kind {
        ResourceKind::Channel => Some((Index::GuildChannels, Table::ChannelsGuild, false)),
        ResourceKind::Emoji => Some((Index::GuildEmojis, Table::Emojis, false)),
        ResourceKind::Integration => Some((Index::GuildIntegrations, Table::Integrations, true)),
        ResourceKind::Member => Some((Index::GuildMembers, Table::Members, true)),
        ResourceKind::Presence => Some((Index::GuildPresences, Table::Presences, true)),
        ResourceKind::Role => Some((Index::GuildRoles, Table::Roles, false)),
        ResourceKind::StageInstance => Some(
            (Index::GuildStageInstances, Table::StageInstances, false),
        ),
        ResourceKind::Sticker => Some((Index::GuildStickers, Table::Stickers, false)),
        ResourceKind::VoiceState => Some((Index::VoiceStateGuilds, Table::VoiceStates, true)),
        _ => None,
    }
}

/// The kinds of child that go with their guild, in the order in which they are swept.
pub open spec fn cascade_kinds() -> Seq<ResourceKind> {
    seq![
        ResourceKind::Channel,
        ResourceKind::Emoji,
        ResourceKind::Integration,
        ResourceKind::Member,
        ResourceKind::Presence,
        ResourceKind::Role,
        ResourceKind::StageInstance,
        ResourceKind::Sticker,
        ResourceKind::VoiceState,
    ]
}

/// The sweep of a guild's children of one kind, where the cache tracks that kind.
pub open spec fn sweep_for(wanted: Set<ResourceKind>, guild_id: u64, kind: ResourceKind) -> Seq<
    StepView,
> {
    match cascade_of(kind) {
        Some((index, table, composite)) => where_wanted(
            wanted,
            kind,
            sweep_plan(index, guild_id, table, composite),
        ),
        None => Seq::empty(),
    }
}

/// The sweeps of a guild's children of several kinds, one kind after the other.
pub open spec fn sweeps(wanted: Set<ResourceKind>, guild_id: u64, kinds: Seq<ResourceKind>) -> Seq<
    StepView,
>
    decreases kinds.len(),
{
    if kinds.len() == 0 {
        Seq::empty()
    } else {
        sweeps(wanted, guild_id, kinds.drop_last()) + sweep_for(wanted, guild_id, kinds.last())
    }
}

/// The plan for a guild that is gone: for each kind of child that the cache tracks, the
/// records of the guild's children are deleted and the guild's set of them is removed; the
/// guild's own record goes last.
pub open spec fn guild_delete_plan(wanted: Set<ResourceKind>, id: u64) -> Seq<StepView> {
    sweeps(wanted, id, cascade_kinds()).push(
        StepView::Write(WriteView::Delete { table: Table::Guilds, key: Key::Id(id) }),
    )
}

/// The number that an update sets where it may leave the number out.
pub open spec fn or_default(value: Option<u64>, default: u64) -> u64 {
    match value {
        Some(v) => v,
        None => default,
    }
}

/// The fields that an update of a guild sets. The other fields of the stored guild stay.
pub open spec fn guild_update_changes(guild: PartialGuild) -> Seq<(int, Datum)> {
    seq![
        (GUILD_AFK_CHANNEL_ID as int, opt_num(guild.afk_channel_id)),
        (GUILD_AFK_TIMEOUT as int, Datum::Num(guild.afk_timeout)),
        (GUILD_BANNER as int, opt_text(guild.banner)),
        (
            GUILD_DEFAULT_MESSAGE_NOTIFICATIONS as int,
            Datum::Num(guild.default_message_notifications),
        ),
        (GUILD_DESCRIPTION as int, opt_text(guild.description)),
        (GUILD_FEATURES as int, Datum::Blob(guild.features@)),
        (GUILD_ICON as int, opt_text(guild.icon)),
        (GUILD_MAX_MEMBERS as int, opt_num(guild.max_members)),
        (
            GUILD_MAX_PRESENCES as int,
            Datum::Num(or_default(guild.max_presences, DEFAULT_MAX_PRESENCES)),
        ),
        (GUILD_MFA_LEVEL as int, Datum::Num(guild.mfa_level)),
        (GUILD_NAME as int, Datum::Text(guild.name@)),
        (GUILD_NSFW_LEVEL as int, Datum::Num(guild.nsfw_level)),
        (GUILD_OWNER as int, opt_flag(guild.owner)),
        (GUILD_OWNER_ID as int, Datum::Num(guild.owner_id)),
        (GUILD_PERMISSIONS as int, opt_num(guild.permissions)),
        (GUILD_PREFERRED_LOCALE as int, Datum::Text(guild.preferred_locale@)),
        (GUILD_PREMIUM_TIER as int, Datum::Num(guild.premium_tier)),
        (
            GUILD_PREMIUM_SUBSCRIPTION_COUNT as int,
            Datum::Num(or_default(guild.premium_subscription_count, 0)),
        ),
        (GUILD_SPLASH as int, opt_text(guild.splash)),
        (GUILD_SYSTEM_CHANNEL_ID as int, opt_num(guild.system_channel_id)),
        (GUILD_VERIFICATION_LEVEL as int, Datum::Num(guild.verification_level)),
        (GUILD_VANITY_URL_CODE as int, opt_text(guild.vanity_url_code)),
        (GUILD_WIDGET_CHANNEL_ID as int, opt_num(guild.widget_channel_id)),
        (GUILD_WIDGET_ENABLED as int, opt_flag(guild.widget_enabled)),
    ]
}

fn number_or(value: Option<u64>, default: u64) -> (r: u64)
    ensures
        r == or_default(value, default),
{
    match value {
        Some(v) => v,
        None => default,
    }
}

fn sweep(
    plan: &mut Vec<Step>,
    cache: &InRedisCache,
    done: Ghost<Seq<ResourceKind>>,
    kind: ResourceKind,
    index: Index,
    guild_id: u64,
    table: Table,
    composite: bool,
)
    requires
        cascade_of(kind) == Some((index, table, composite)),
        steps_view(old(plan)@) == sweeps(cache@, guild_id, done@),
    ensures
        steps_view(final(plan)@) == sweeps(cache@, guild_id, done@.push(kind)),
{
    assert(done@.push(kind).drop_last() =~= done@);
    if cache.wants(kind) {
        plan.push(Step::Sweep { index, owner: guild_id, table, composite });
        assert(steps_view(plan@) =~= steps_view(old(plan)@) + sweep_plan(
            index,
            guild_id,
            table,
            composite,
        ));
    } else {
        assert(steps_view(plan@) =~= steps_view(old(plan)@) + Seq::<StepView>::empty());
    }
}

impl InRedisCache {
    /// The plan that stores a guild and, of each kind that the cache tracks, its children.
    pub fn cache_guild(&self, guild: &Guild) -> (r: Vec<Step>)
        ensures
            steps_view(r@) == guild_plan(self@, *guild),
    {
        let id = guild.attributes.id;
        let ghost wanted = self@;
        let mut plan: Vec<Step> = Vec::new();
        assert(steps_view(plan@) =~= Seq::<StepView>::empty());
        if self.wants(ResourceKind::Channel) {
            join(&mut plan, self.cache_guild_channels(id, &guild.channels));
            join(&mut plan, self.cache_guild_channels(id, &guild.threads));
        }
        let ghost channels = steps_view(plan@);
        assert(channels =~= where_wanted(
            wanted,
            ResourceKind::Channel,
            guild_channels_plan(id, guild.channels@) + guild_channels_plan(id, guild.threads@),
        ));
        if self.wants(ResourceKind::Emoji) {
            join(&mut plan, self.cache_emojis(id, &guild.emojis));
        }
        let ghost emojis = steps_view(plan@);
        assert(emojis =~= channels + where_wanted(
            wanted,
            ResourceKind::Emoji,
            emojis_plan(id, guild.emojis@),
        ));
        if self.wants(ResourceKind::Member) {
            join(&mut plan, self.cache_members(id, &guild.members));
        }
        let ghost members = steps_view(plan@);
        assert(members =~= emojis + where_wanted(
            wanted,
            ResourceKind::Member,
            members_plan(id, guild.members@),
        ));
        if self.wants(ResourceKind::Presence) {
            join(&mut plan, self.cache_presences(id, &guild.presences));
        }
        let ghost presences = steps_view(plan@);
        assert(presences =~= members + where_wanted(
            wanted,
            ResourceKind::Presence,
            presences_plan(id, guild.presences@),
        ));
        if self.wants(ResourceKind::Role) {
            join(&mut plan, self.cache_roles(id, &guild.roles));
        }
        let ghost roles = steps_view(plan@);
        assert(roles =~= presences + where_wanted(
            wanted,
            ResourceKind::Role,
            roles_plan(id, guild.roles@),
        ));
        if self.wants(ResourceKind::StageInstance) {
            join(&mut plan, self.cache_stage_instances(id, &guild.stage_instances));
        }
        let ghost stages = steps_view(plan@);
        assert(stages =~= roles + where_wanted(
            wanted,
            ResourceKind::StageInstance,
            stage_instances_plan(id, guild.stage_instances@),
        ));
        let mut own: Vec<Step> = Vec::new();
        own.push(
            Step::Write(
                Write::Remove { index: Index::UnavailableGuilds, owner: UNSCOPED, member: Key::Id(id) },
            ),
        );
        own.push(
            Step::Write(
                Write::Put {
                    table: Table::Guilds,
                    key: Key::Id(id),
                    value: crate::record::encode(&guild.attributes),
                },
            ),
        );
        assert(steps_view(own@) =~= guild_record_plan(guild.attributes));
        join(&mut plan, own);
        plan
    }
}

impl UpdateCache for GuildCreate {
    open spec fn plan(&self, wanted: Set<ResourceKind>) -> Seq<StepView> {
        if wanted.contains(ResourceKind::Guild) {
            guild_plan(wanted, self.0)
        } else {
            Seq::empty()
        }
    }

    fn update(&self, cache: &InRedisCache) -> (r: Vec<Step>) {
        if !cache.wants(ResourceKind::Guild) {
            return Vec::new();
        }
        cache.cache_guild(&self.0)
    }
}

impl UpdateCache for GuildDelete {
    open spec fn plan(&self, wanted: Set<ResourceKind>) -> Seq<StepView> {
        if wanted.contains(ResourceKind::Guild) {
            guild_delete_plan(wanted, self.id)
        } else {
            Seq::empty()
        }
    }

    fn update(&self, cache: &InRedisCache) -> (r: Vec<Step>) {
        if !cache.wants(ResourceKind::Guild) {
            return Vec::new();
        }
        let id = self.id;
        let mut plan: Vec<Step> = Vec::new();
        let ghost mut done: Seq<ResourceKind> = Seq::empty();
        assert(steps_view(plan@) =~= sweeps(cache@, id, done));
        sweep(
            &mut plan,
            cache,
            Ghost(done),
            ResourceKind::Channel,
            Index::GuildChannels,
            id,
            Table::ChannelsGuild,
            false,
        );
        proof {
            done = done.push(ResourceKind::Channel);
        }
        sweep(
            &mut plan,
            cache,
            Ghost(done),
            ResourceKind::Emoji,
            Index::GuildEmojis,
            id,
            Table::Emojis,
            false,
        );
        proof {
            done = done.push(ResourceKind::Emoji);
        }
        sweep(
            &mut plan,
            cache,
            Ghost(done),
            ResourceKind::Integration,
            Index::GuildIntegrations,
            id,
            Table::Integrations,
            true,
        );
        proof {
            done = done.push(ResourceKind::Integration);
        }
        sweep(
            &mut plan,
            cache,
            Ghost(done),
            ResourceKind::Member,
            Index::GuildMembers,
            id,
            Table::Members,
            true,
        );
        proof {
            done = done.push(ResourceKind::Member);
        }
        sweep(
            &mut plan,
            cache,
            Ghost(done),
            ResourceKind::Presence,
            Index::GuildPresences,
            id,
            Table::Presences,
            true,
        );
        proof {
            done = done.push(ResourceKind::Presence);
        }
        sweep(
            &mut plan,
            cache,
            Ghost(done),
            ResourceKind::Role,
            Index::GuildRoles,
            id,
            Table::Roles,
            false,
        );
        proof {
            done = done.push(ResourceKind::Role);
        }
        sweep(
            &mut plan,
            cache,
            Ghost(done),
            ResourceKind::StageInstance,
            Index::GuildStageInstances,
            id,
            Table::StageInstances,
            false,
        );
        proof {
            done = done.push(ResourceKind::StageInstance);
        }
        sweep(
            &mut plan,
            cache,
            Ghost(done),
            ResourceKind::Sticker,
            Index::GuildStickers,
            id,
            Table::Stickers,
            false,
        );
        proof {
            done = done.push(ResourceKind::Sticker);
        }
        sweep(
            &mut plan,
            cache,
            Ghost(done),
            ResourceKind::VoiceState,
            Index::VoiceStateGuilds,
            id,
            Table::VoiceStates,
            true,
        );
        proof {
            done = done.push(ResourceKind::VoiceState);
            assert(done =~= cascade_kinds());
        }
        let ghost swept = steps_view(plan@);
        let last = Step::Write(Write::Delete { table: Table::Guilds, key: Key::Id(id) });
        let ghost last_view = last@;
        plan.push(last);
        assert(steps_view(plan@) =~= swept.push(last_view));
        plan
    }
}

impl UpdateCache for GuildUpdate {
    open spec fn plan(&self, wanted: Set<ResourceKind>) -> Seq<StepView> {
        if wanted.contains(ResourceKind::Guild) {
            patch_plan(
                Table::Guilds,
                GUILD_FIELDS as nat,
                Key::Id(self.0.id),
                guild_update_changes(self.0),
            )
        } else {
            Seq::empty()
        }
    }

    fn update(&self, cache: &InRedisCache) -> (r: Vec<Step>) {
        if !cache.wants(ResourceKind::Guild) {
            return Vec::new();
        }
        let guild = &self.0;
        let mut changes: Vec<Change> = Vec::new();
        assert(changes_view(changes@) =~= Seq::<(int, Datum)>::empty());
        change(&mut changes, GUILD_AFK_CHANNEL_ID, field_opt_num(guild.afk_channel_id));
        change(&mut changes, GUILD_AFK_TIMEOUT, Field::Num(guild.afk_timeout));
        change(&mut changes, GUILD_BANNER, field_opt_text(&guild.banner));
        change(
            &mut changes,
            GUILD_DEFAULT_MESSAGE_NOTIFICATIONS,
            Field::Num(guild.default_message_notifications),
        );
        change(&mut changes, GUILD_DESCRIPTION, field_opt_text(&guild.description));
        change(&mut changes, GUILD_FEATURES, field_blob(&guild.features));
        change(&mut changes, GUILD_ICON, field_opt_text(&guild.icon));
        change(&mut changes, GUILD_MAX_MEMBERS, field_opt_num(guild.max_members));
        change(
            &mut changes,
            GUILD_MAX_PRESENCES,
            Field::Num(number_or(guild.max_presences, DEFAULT_MAX_PRESENCES)),
        );
        change(&mut changes, GUILD_MFA_LEVEL, Field::Num(guild.mfa_level));
        change(&mut changes, GUILD_NAME, field_text(&guild.name));
        change(&mut changes, GUILD_NSFW_LEVEL, Field::Num(guild.nsfw_level));
        change(&mut changes, GUILD_OWNER, field_opt_flag(guild.owner));
        change(&mut changes, GUILD_OWNER_ID, Field::Num(guild.owner_id));
        change(&mut changes, GUILD_PERMISSIONS, field_opt_num(guild.permissions));
        change(&mut changes, GUILD_PREFERRED_LOCALE, field_text(&guild.preferred_locale));
        change(&mut changes, GUILD_PREMIUM_TIER, Field::Num(guild.premium_tier));
        change(
            &mut changes,
            GUILD_PREMIUM_SUBSCRIPTION_COUNT,
            Field::Num(number_or(guild.premium_subscription_count, 0)),
        );
        change(&mut changes, GUILD_SPLASH, field_opt_text(&guild.splash));
        change(&mut changes, GUILD_SYSTEM_CHANNEL_ID, field_opt_num(guild.system_channel_id));
        change(&mut changes, GUILD_VERIFICATION_LEVEL, Field::Num(guild.verification_level));
        change(&mut changes, GUILD_VANITY_URL_CODE, field_opt_text(&guild.vanity_url_code));
        change(&mut changes, GUILD_WIDGET_CHANNEL_ID, field_opt_num(guild.widget_channel_id));
        change(&mut changes, GUILD_WIDGET_ENABLED, field_opt_flag(guild.widget_enabled));
        assert(changes_view(changes@) =~= guild_update_changes(self.0));
        patch(Table::Guilds, GUILD_FIELDS, Key::Id(guild.id), changes)
    }
}

} // verus!
