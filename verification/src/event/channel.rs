use crate::bytes::copy_bytes;
use crate::cache::{InRedisCache, UpdateCache};
use crate::codec::{data_wire, Datum, Field};
use crate::config::ResourceKind;
use crate::event::{
    batch, batch_plan, replace, replace_plan, retire, retire_plan, upsert, upsert_plan,
};
use crate::model::{
    CHANNEL_FIELDS, CHANNEL_KIND, CHANNEL_LAST_PIN_TIMESTAMP, ChannelKind, Group, GROUP_FIELDS,
    GROUP_LAST_PIN_TIMESTAMP, GuildChannel, kind_code, PRIVATE_FIELDS, PRIVATE_LAST_PIN_TIMESTAMP,
    PrivateChannel,
};
use crate::plan::{Change, Step, steps_view, StepView, Target, targets_view, TargetView};
use crate::record::{field_opt_num, Identified, opt_num, Record};
use crate::store::{Index, Key, Table, UNSCOPED, Write, WriteView};
use vstd::prelude::*;

verus! {

/// A channel of any sort.
#[derive(Clone, Debug, PartialEq, Eq)]
pub enum Channel {
    Group(Group),
    Guild(GuildChannel),
    Private(PrivateChannel),
}

/// A channel was made.
#[derive(Clone, Debug, PartialEq, Eq)]
pub struct ChannelCreate(pub Channel);

/// A channel was removed.
#[derive(Clone, Debug, PartialEq, Eq)]
pub struct ChannelDelete(pub Channel);

/// The time of a channel's last pin has changed.
#[derive(Clone, Debug, PartialEq, Eq)]
pub struct ChannelPinsUpdate {
    pub channel_id: u64,
    pub guild_id: Option<u64>,
    pub last_pin_timestamp: Option<u64>,
}

/// A channel has changed.
#[derive(Clone, Debug, PartialEq, Eq)]
pub struct ChannelUpdate(pub Channel);

/// A guild channel with its guild filled in.
pub open spec fn stamped(guild_id: u64, channel: GuildChannel) -> GuildChannel {
    GuildChannel { guild_id: Some(guild_id), ..channel }
}

/// The plan that stores the channels of a guild, all at once, each with the guild filled in.
pub open spec fn guild_channels_plan(guild_id: u64, channels: Seq<GuildChannel>) -> Seq<StepView> {
    batch_plan(
        Table::ChannelsGuild,
        Index::GuildChannels,
        guild_id,
        channels.map_values(|c: GuildChannel| stamped(guild_id, c)),
        true,
        false,
    )
}

/// The plan that stores one channel of a guild, with the guild filled in.
pub open spec fn guild_channel_plan(guild_id: u64, channel: GuildChannel) -> Seq<StepView> {
    upsert_plan(
        Table::ChannelsGuild,
        Index::GuildChannels,
        guild_id,
        stamped(guild_id, channel),
        true,
        false,
    )
}

/// The plan that stores a group under its identifier.
pub open spec fn group_plan(group: Group) -> Seq<StepView> {
    seq![
        StepView::Write(
            WriteView::Put {
                table: Table::Groups,
                key: Key::Id(group.id),
                value: data_wire(group.data()),
            },
        ),
    ]
}

/// The plan that stores a private channel under its identifier.
pub open spec fn private_channel_plan(channel: PrivateChannel) -> Seq<StepView> {
    seq![
        StepView::Write(
            WriteView::Put {
                table: Table::ChannelsPrivate,
                key: Key::Id(channel.id),
                value: data_wire(channel.data()),
            },
        ),
    ]
}

/// The plan that removes one channel of a guild.
pub open spec fn guild_channel_delete_plan(guild_id: u64, channel_id: u64) -> Seq<StepView> {
    retire_plan(Table::ChannelsGuild, Index::GuildChannels, guild_id, channel_id, false)
}

/// The plan that removes the record under `id` in `table`, whatever else the store holds.
pub open spec fn delete_plan(table: Table, id: u64) -> Seq<StepView> {
    seq![StepView::Write(WriteView::Delete { table, key: Key::Id(id) })]
}

/// The plan for a channel that was made. A guild channel that names no guild is not stored.
pub open spec fn channel_plan(channel: Channel) -> Seq<StepView> {
    match channel {
        Channel::Group(group) => group_plan(group),
        Channel::Guild(c) => match c.guild_id {
            Some(guild_id) => guild_channel_plan(guild_id, c),
            None => Seq::empty(),
        },
        Channel::Private(c) => private_channel_plan(c),
    }
}

/// The plan for a guild channel that has changed: the stored channel is replaced, with the
/// guild filled in; a channel that is not stored stays out.
pub open spec fn guild_channel_update_plan(guild_id: u64, channel: GuildChannel) -> Seq<StepView> {
    replace_plan(Table::ChannelsGuild, guild_id, stamped(guild_id, channel), true, false)
}

/// The plan for a channel that has changed: the stored channel is replaced; a channel that is
/// not stored stays out. A guild channel that names no guild is passed over.
pub open spec fn channel_update_plan(channel: Channel) -> Seq<StepView> {
    match channel {
        Channel::Group(group) => replace_plan(Table::Groups, UNSCOPED, group, false, false),
        Channel::Guild(c) => match c.guild_id {
            Some(guild_id) => guild_channel_update_plan(guild_id, c),
            None => Seq::empty(),
        },
        Channel::Private(c) => replace_plan(Table::ChannelsPrivate, UNSCOPED, c, false, false),
    }
}

/// The plan for a channel that was removed. Of a guild channel that names no guild only the
/// record is removed.
pub open spec fn channel_delete_plan(channel: Channel) -> Seq<StepView> {
    match channel {
        Channel::Group(group) => delete_plan(Table::Groups, group.id),
        Channel::Guild(c) => match c.guild_id {
            Some(guild_id) => guild_channel_delete_plan(guild_id, c.id),
            None => delete_plan(Table::ChannelsGuild, c.id),
        },
        Channel::Private(c) => delete_plan(Table::ChannelsPrivate, c.id),
    }
}

/// Where a guild channel keeps the time of its last pin; only a text channel has one.
pub open spec fn guild_pin_target(last_pin_timestamp: Option<u64>) -> TargetView {
    TargetView {
        table: Table::ChannelsGuild,
        arity: 1 + CHANNEL_FIELDS as nat,
        given: seq![(1 + CHANNEL_KIND as int, Datum::Num(kind_code(ChannelKind::Text)))],
        changes: seq![(1 + CHANNEL_LAST_PIN_TIMESTAMP as int, opt_num(last_pin_timestamp))],
    }
}

/// Where a private channel keeps the time of its last pin.
pub open spec fn private_pin_target(last_pin_timestamp: Option<u64>) -> TargetView {
    TargetView {
        table: Table::ChannelsPrivate,
        arity: PRIVATE_FIELDS as nat,
        given: Seq::empty(),
        changes: seq![(PRIVATE_LAST_PIN_TIMESTAMP as int, opt_num(last_pin_timestamp))],
    }
}

/// Where a group keeps the time of its last pin.
pub open spec fn group_pin_target(last_pin_timestamp: Option<u64>) -> TargetView {
    TargetView {
        table: Table::Groups,
        arity: GROUP_FIELDS as nat,
        given: Seq::empty(),
        changes: seq![(GROUP_LAST_PIN_TIMESTAMP as int, opt_num(last_pin_timestamp))],
    }
}

/// The plan for a new time of a channel's last pin: the channel is looked for among the guild
/// channels where the event names a guild, then among the private channels, then among the
/// groups, and the first record found is the one that is changed.
pub open spec fn pins_plan(event: ChannelPinsUpdate) -> Seq<StepView> {
    if event.guild_id is Some {
        seq![
            StepView::Revise {
                target: guild_pin_target(event.last_pin_timestamp),
                fallbacks: seq![
                    private_pin_target(event.last_pin_timestamp),
                    group_pin_target(event.last_pin_timestamp),
                ],
                key: Key::Id(event.channel_id),
                otherwise: None,
                then: Seq::empty(),
            },
        ]
    } else {
        seq![
            StepView::Revise {
                target: private_pin_target(event.last_pin_timestamp),
                fallbacks: seq![group_pin_target(event.last_pin_timestamp)],
                key: Key::Id(event.channel_id),
                otherwise: None,
                then: Seq::empty(),
            },
        ]
    }
}

fn pin_target(table: Table, arity: usize, at: usize, last_pin_timestamp: Option<u64>, text_only: bool) -> (r:
    Target)
    ensures
        r@ == (TargetView {
            table,
            arity: arity as nat,
            given: if text_only {
                seq![(1 + CHANNEL_KIND as int, Datum::Num(kind_code(ChannelKind::Text)))]
            } else {
                Seq::empty()
            },
            changes: seq![(at as int, opt_num(last_pin_timestamp))],
        }),
{
    let mut given: Vec<Change> = Vec::new();
    if text_only {
        given.push(Change { at: 1 + CHANNEL_KIND, to: Field::Num(ChannelKind::Text.code()) });
    }
    let mut changes: Vec<Change> = Vec::new();
    changes.push(Change { at, to: field_opt_num(last_pin_timestamp) });
    let target = Target { table, arity, given, changes };
    assert(target@.given =~= if text_only {
        seq![(1 + CHANNEL_KIND as int, Datum::Num(kind_code(ChannelKind::Text)))]
    } else {
        Seq::empty()
    });
    assert(target@.changes =~= seq![(at as int, opt_num(last_pin_timestamp))]);
    target
}

/// A copy of a guild channel.
pub(crate) fn copy_channel(channel: &GuildChannel) -> (r: GuildChannel)
    ensures
        r.id == channel.id,
        r.guild_id == channel.guild_id,
        r.kind == channel.kind,
        r.last_pin_timestamp == channel.last_pin_timestamp,
        r.body@ == channel.body@,
{
    GuildChannel {
        id: channel.id,
        guild_id: channel.guild_id,
        kind: channel.kind,
        last_pin_timestamp: channel.last_pin_timestamp,
        body: copy_bytes(channel.body.as_slice()),
    }
}

impl InRedisCache {
    /// Names `guild_id` as the guild of `channel`, whatever sort of channel it is and whether
    /// or not it named a guild before.
    pub fn replace_channels_guild_id(&self, guild_id: u64, channel: GuildChannel) -> (r:
        GuildChannel)
        ensures
            r == stamped(guild_id, channel),
    {
        let mut channel = channel;
        channel.guild_id = Some(guild_id);
        channel
    }

    /// The plan that stores the channels of a guild in one batch, each with the guild filled in.
    pub fn cache_guild_channels(&self, guild_id: u64, guild_channels: &Vec<GuildChannel>) -> (r:
        Vec<Step>)
        ensures
            steps_view(r@) == guild_channels_plan(guild_id, guild_channels@),
    {
        let mut conv: Vec<GuildChannel> = Vec::new();
        let ghost wanted = guild_channels@.map_values(|c: GuildChannel| stamped(guild_id, c));
        let mut i: usize = 0;
        while i < guild_channels.len()
            invariant
                i <= guild_channels.len(),
                conv.len() == i,
                wanted == guild_channels@.map_values(|c: GuildChannel| stamped(guild_id, c)),
                forall|j: int|
                    0 <= j < i ==> (#[trigger] conv[j]).data() == wanted[j].data() && conv[j].ident()
                        == wanted[j].ident(),
            decreases guild_channels.len() - i,
        {
            let channel = self.replace_channels_guild_id(
                guild_id,
                copy_channel(&guild_channels[i]),
            );
            assert(channel.data() =~= wanted[i as int].data());
            conv.push(channel);
            i = i + 1;
        }
        let plan = batch(Table::ChannelsGuild, Index::GuildChannels, guild_id, &conv, true, false);
        proof {
            assert(crate::event::batch_entries(guild_id, conv@, true, false)
                =~= crate::event::batch_entries(guild_id, wanted, true, false));
            assert(crate::event::batch_members(conv@) =~= crate::event::batch_members(wanted));
        }
        plan
    }

    /// The plan that stores one channel of a guild, with the guild filled in.
    pub fn cache_guild_channel(&self, guild_id: u64, channel: &GuildChannel) -> (r: Vec<Step>)
        ensures
            steps_view(r@) == guild_channel_plan(guild_id, *channel),
    {
        let value = self.replace_channels_guild_id(guild_id, copy_channel(channel));
        let plan = upsert(Table::ChannelsGuild, Index::GuildChannels, guild_id, &value, true, false);
        assert(value.data() =~= stamped(guild_id, *channel).data());
        plan
    }

    /// The plan that stores a group.
    pub fn cache_group(&self, group: &Group) -> (r: Vec<Step>)
        ensures
            steps_view(r@) == group_plan(*group),
    {
        let mut plan: Vec<Step> = Vec::new();
        plan.push(
            Step::Write(
                Write::Put {
                    table: Table::Groups,
                    key: Key::Id(group.id),
                    value: crate::record::encode(group),
                },
            ),
        );
        assert(steps_view(plan@) =~= group_plan(*group));
        plan
    }

    /// The plan that stores a private channel.
    pub fn cache_private_channel(&self, private_channel: &PrivateChannel) -> (r: Vec<Step>)
        ensures
            steps_view(r@) == private_channel_plan(*private_channel),
    {
        let mut plan: Vec<Step> = Vec::new();
        plan.push(
            Step::Write(
                Write::Put {
                    table: Table::ChannelsPrivate,
                    key: Key::Id(private_channel.id),
                    value: crate::record::encode(private_channel),
                },
            ),
        );
        assert(steps_view(plan@) =~= private_channel_plan(*private_channel));
        plan
    }

    /// The plan that removes a guild channel: its record and, where there was one, its entry
    /// in the guild's set of channels.
    pub fn delete_guild_channel(&self, guild_id: u64, channel_id: u64) -> (r: Vec<Step>)
        ensures
            steps_view(r@) == guild_channel_delete_plan(guild_id, channel_id),
    {
        retire(Table::ChannelsGuild, Index::GuildChannels, guild_id, channel_id, false)
    }

    /// The plan that removes a group.
    pub fn delete_group(&self, channel_id: u64) -> (r: Vec<Step>)
        ensures
            steps_view(r@) == delete_plan(Table::Groups, channel_id),
    {
        delete_record(Table::Groups, channel_id)
    }

    /// The plan for a guild channel that has changed.
    pub fn update_guild_channel(&self, guild_id: u64, channel: &GuildChannel) -> (r: Vec<Step>)
        ensures
            steps_view(r@) == guild_channel_update_plan(guild_id, *channel),
    {
        let value = self.replace_channels_guild_id(guild_id, copy_channel(channel));
        assert(value.data() =~= stamped(guild_id, *channel).data());
        replace(Table::ChannelsGuild, guild_id, &value, true, false)
    }

    /// The plan for a channel that was made.
    pub fn cache_channel(&self, channel: &Channel) -> (r: Vec<Step>)
        ensures
            steps_view(r@) == channel_plan(*channel),
    {
        match channel {
            Channel::Group(c) => self.cache_group(c),
            Channel::Guild(c) => match c.guild_id {
                Some(guild_id) => self.cache_guild_channel(guild_id, c),
                None => Vec::new(),
            },
            Channel::Private(c) => self.cache_private_channel(c),
        }
    }
}

pub(crate) fn delete_record(table: Table, id: u64) -> (r: Vec<Step>)
    ensures
        steps_view(r@) == delete_plan(table, id),
{
    let mut plan: Vec<Step> = Vec::new();
    plan.push(Step::Write(Write::Delete { table, key: Key::Id(id) }));
    assert(steps_view(plan@) =~= delete_plan(table, id));
    plan
}

impl UpdateCache for ChannelCreate {
    open spec fn plan(&self, wanted: Set<ResourceKind>) -> Seq<StepView> {
        if wanted.contains(ResourceKind::Channel) {
            channel_plan(self.0)
        } else {
            Seq::empty()
        }
    }

    fn update(&self, cache: &InRedisCache) -> (r: Vec<Step>) {
        if !cache.wants(ResourceKind::Channel) {
            return Vec::new();
        }
        cache.cache_channel(&self.0)
    }
}

impl UpdateCache for ChannelDelete {
    open spec fn plan(&self, wanted: Set<ResourceKind>) -> Seq<StepView> {
        if wanted.contains(ResourceKind::Channel) {
            channel_delete_plan(self.0)
        } else {
            Seq::empty()
        }
    }

    fn update(&self, cache: &InRedisCache) -> (r: Vec<Step>) {
        if !cache.wants(ResourceKind::Channel) {
            return Vec::new();
        }
        match &self.0 {
            Channel::Group(c) => cache.delete_group(c.id),
            Channel::Guild(c) => match c.guild_id {
                Some(guild_id) => cache.delete_guild_channel(guild_id, c.id),
                None => delete_record(Table::ChannelsGuild, c.id),
            },
            Channel::Private(c) => delete_record(Table::ChannelsPrivate, c.id),
        }
    }
}

impl UpdateCache for ChannelPinsUpdate {
    open spec fn plan(&self, wanted: Set<ResourceKind>) -> Seq<StepView> {
        if wanted.contains(ResourceKind::Channel) {
            pins_plan(*self)
        } else {
            Seq::empty()
        }
    }

    fn update(&self, cache: &InRedisCache) -> (r: Vec<Step>) {
        if !cache.wants(ResourceKind::Channel) {
            return Vec::new();
        }
        let mut plan: Vec<Step> = Vec::new();
        let private = pin_target(
            Table::ChannelsPrivate,
            PRIVATE_FIELDS,
            PRIVATE_LAST_PIN_TIMESTAMP,
            self.last_pin_timestamp,
            false,
        );
        let group = pin_target(
            Table::Groups,
            GROUP_FIELDS,
            GROUP_LAST_PIN_TIMESTAMP,
            self.last_pin_timestamp,
            false,
        );
        let mut fallbacks: Vec<Target> = Vec::new();
        if self.guild_id.is_some() {
            let guild = pin_target(
                Table::ChannelsGuild,
                1 + CHANNEL_FIELDS,
                1 + CHANNEL_LAST_PIN_TIMESTAMP,
                self.last_pin_timestamp,
                true,
            );
            fallbacks.push(private);
            fallbacks.push(group);
            assert(targets_view(fallbacks@) =~= seq![
                private_pin_target(self.last_pin_timestamp),
                group_pin_target(self.last_pin_timestamp),
            ]);
            plan.push(
                Step::Revise {
                    target: guild,
                    fallbacks,
                    key: Key::Id(self.channel_id),
                    otherwise: None,
                    then: Vec::new(),
                },
            );
        } else {
            fallbacks.push(group);
            assert(targets_view(fallbacks@) =~= seq![group_pin_target(self.last_pin_timestamp)]);
            plan.push(
                Step::Revise {
                    target: private,
                    fallbacks,
                    key: Key::Id(self.channel_id),
                    otherwise: None,
                    then: Vec::new(),
                },
            );
        }
        assert(plan@[0]@->Revise_then =~= Seq::empty());
        assert(steps_view(plan@) =~= pins_plan(*self));
        plan
    }
}

impl UpdateCache for ChannelUpdate {
    open spec fn plan(&self, wanted: Set<ResourceKind>) -> Seq<StepView> {
        if wanted.contains(ResourceKind::Channel) {
            channel_update_plan(self.0)
        } else {
            Seq::empty()
        }
    }

    fn update(&self, cache: &InRedisCache) -> (r: Vec<Step>) {
        if !cache.wants(ResourceKind::Channel) {
            return Vec::new();
        }
        match &self.0 {
            Channel::Group(c) => replace(Table::Groups, UNSCOPED, c, false, false),
            Channel::Guild(c) => match c.guild_id {
                Some(guild_id) => cache.update_guild_channel(guild_id, c),
                None => Vec::new(),
            },
            Channel::Private(c) => replace(Table::ChannelsPrivate, UNSCOPED, c, false, false),
        }
    }
}

} // verus!
