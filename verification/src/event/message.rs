use crate::cache::{InRedisCache, join, UpdateCache};
use crate::codec::Datum;
use crate::config::ResourceKind;
use crate::event::{
    blob_datum, blob_field, change_if, ids_datum, ids_field, maybe, num_datum, num_field, patch,
    patch_plan, retire_plan, text_datum, text_field, upsert, upsert_plan, user_plan,
};
use crate::event::member::{flag_datum, flag_field, partial_member_plan, PartialMember};
use crate::model::{
    CachedMessage, MESSAGE_ATTACHMENTS, MESSAGE_CONTENT, MESSAGE_EDITED_TIMESTAMP, MESSAGE_EMBEDS,
    MESSAGE_FIELDS, MESSAGE_MENTION_EVERYONE, MESSAGE_MENTION_ROLES, MESSAGE_MENTIONS,
    MESSAGE_PINNED, MESSAGE_TIMESTAMP, MESSAGE_TTS, User,
};
use crate::plan::{Change, changes_view, Step, steps_view, StepView};
use crate::store::{Index, Key, Table};
use vstd::prelude::*;

verus! {

/// A message was sent. The event carries the author whole and, in a guild, what the author
/// is as a member.
#[derive(Clone, Debug, PartialEq, Eq)]
pub struct MessageCreate {
    pub message: CachedMessage,
    pub author: User,
    pub member: Option<PartialMember>,
}

/// A message was removed.
#[derive(Clone, Debug, PartialEq, Eq)]
pub struct MessageDelete {
    pub id: u64,
    pub channel_id: u64,
}

/// Several messages of one channel were removed.
#[derive(Clone, Debug, PartialEq, Eq)]
pub struct MessageDeleteBulk {
    pub channel_id: u64,
    pub ids: Vec<u64>,
}

/// A message has changed. A field that the event leaves out stays as it is.
#[derive(Clone, Debug, PartialEq, Eq)]
pub struct MessageUpdate {
    pub id: u64,
    pub channel_id: u64,
    pub attachments: Option<Vec<u8>>,
    pub content: Option<String>,
    pub edited_timestamp: Option<u64>,
    pub embeds: Option<Vec<u8>>,
    pub mention_everyone: Option<bool>,
    pub mention_roles: Option<Vec<u64>>,
    pub mentions: Option<Vec<u64>>,
    pub pinned: Option<bool>,
    pub timestamp: Option<u64>,
    pub tts: Option<bool>,
}

/// The plan that stores a message and its place in the set of its channel.
pub open spec fn message_plan(message: CachedMessage) -> Seq<StepView> {
    upsert_plan(Table::Messages, Index::ChannelMessages, message.channel_id, message, false, false)
}

/// What stands for the author as a member in the plan of a new message.
pub open spec fn echo_plan(event: MessageCreate) -> Seq<StepView> {
    match (event.member, event.message.guild_id) {
        (Some(member), Some(guild_id)) => partial_member_plan(guild_id, member, event.author.id),
        _ => Seq::empty(),
    }
}

/// The plan for a new message: the author as a user, the author as a member, the message,
/// each where the cache tracks that kind.
pub open spec fn message_create_plan(wanted: Set<ResourceKind>, event: MessageCreate) -> Seq<
    StepView,
> {
    (if wanted.contains(ResourceKind::User) {
        user_plan(event.author, event.message.guild_id)
    } else {
        Seq::empty()
    }) + (if wanted.contains(ResourceKind::Member) {
        echo_plan(event)
    } else {
        Seq::empty()
    }) + (if wanted.contains(ResourceKind::Message) {
        message_plan(event.message)
    } else {
        Seq::empty()
    })
}

/// The plan that removes one message of a channel.
pub open spec fn message_delete_plan(channel_id: u64, id: u64) -> Seq<StepView> {
    retire_plan(Table::Messages, Index::ChannelMessages, channel_id, id, false)
}

/// The plan that removes several messages of one channel, one after the other.
pub open spec fn bulk_delete_plan(channel_id: u64, ids: Seq<u64>) -> Seq<StepView> {
    ids.map_values(
        |id: u64|
            StepView::Retire {
                table: Table::Messages,
                key: Key::Id(id),
                index: Index::ChannelMessages,
                owner: channel_id,
                member: Key::Id(id),
            },
    )
}

/// The fields that an update of a message sets: those that the update holds.
pub open spec fn message_update_changes(event: MessageUpdate) -> Seq<(int, Datum)> {
    maybe(MESSAGE_ATTACHMENTS as int, blob_datum(event.attachments)) + maybe(
        MESSAGE_CONTENT as int,
        text_datum(event.content),
    ) + maybe(MESSAGE_EDITED_TIMESTAMP as int, num_datum(event.edited_timestamp)) + maybe(
        MESSAGE_EMBEDS as int,
        blob_datum(event.embeds),
    ) + maybe(MESSAGE_MENTION_EVERYONE as int, flag_datum(event.mention_everyone)) + maybe(
        MESSAGE_MENTION_ROLES as int,
        ids_datum(event.mention_roles),
    ) + maybe(MESSAGE_MENTIONS as int, ids_datum(event.mentions)) + maybe(
        MESSAGE_PINNED as int,
        flag_datum(event.pinned),
    ) + maybe(MESSAGE_TIMESTAMP as int, num_datum(event.timestamp)) + maybe(
        MESSAGE_TTS as int,
        flag_datum(event.tts),
    )
}

impl UpdateCache for MessageCreate {
    open spec fn plan(&self, wanted: Set<ResourceKind>) -> Seq<StepView> {
        message_create_plan(wanted, *self)
    }

    fn update(&self, cache: &InRedisCache) -> (r: Vec<Step>) {
        let mut plan: Vec<Step> = Vec::new();
        assert(steps_view(plan@) =~= Seq::<StepView>::empty());
        if cache.wants(ResourceKind::User) {
            join(&mut plan, cache.cache_user(&self.author, self.message.guild_id));
        }
        let ghost first = steps_view(plan@);
        if cache.wants(ResourceKind::Member) {
            match (&self.member, self.message.guild_id) {
                (Some(member), Some(guild_id)) => {
                    join(
                        &mut plan,
                        cache.cache_borrowed_partial_member(guild_id, member, self.author.id),
                    );
                },
                _ => {},
            }
        }
        let ghost second = steps_view(plan@);
        assert(second =~= first + (if cache@.contains(ResourceKind::Member) {
            echo_plan(*self)
        } else {
            Seq::empty()
        }));
        if cache.wants(ResourceKind::Message) {
            join(
                &mut plan,
                upsert(
                    Table::Messages,
                    Index::ChannelMessages,
                    self.message.channel_id,
                    &self.message,
                    false,
                    false,
                ),
            );
        }
        assert(steps_view(plan@) =~= message_create_plan(cache@, *self));
        plan
    }
}

impl UpdateCache for MessageDelete {
    open spec fn plan(&self, wanted: Set<ResourceKind>) -> Seq<StepView> {
        if wanted.contains(ResourceKind::Message) {
            message_delete_plan(self.channel_id, self.id)
        } else {
            Seq::empty()
        }
    }

    fn update(&self, cache: &InRedisCache) -> (r: Vec<Step>) {
        if !cache.wants(ResourceKind::Message) {
            return Vec::new();
        }
        crate::event::retire(Table::Messages, Index::ChannelMessages, self.channel_id, self.id, false)
    }
}

impl UpdateCache for MessageDeleteBulk {
    open spec fn plan(&self, wanted: Set<ResourceKind>) -> Seq<StepView> {
        if wanted.contains(ResourceKind::Message) {
            bulk_delete_plan(self.channel_id, self.ids@)
        } else {
            Seq::empty()
        }
    }

    fn update(&self, cache: &InRedisCache) -> (r: Vec<Step>) {
        if !cache.wants(ResourceKind::Message) {
            return Vec::new();
        }
        let mut plan: Vec<Step> = Vec::new();
        let ghost wanted = bulk_delete_plan(self.channel_id, self.ids@);
        let mut i: usize = 0;
        assert(steps_view(plan@) =~= wanted.subrange(0, 0));
        while i < self.ids.len()
            invariant
                i <= self.ids.len(),
                wanted == bulk_delete_plan(self.channel_id, self.ids@),
                steps_view(plan@) == wanted.subrange(0, i as int),
            decreases self.ids.len() - i,
        {
            let ghost head = steps_view(plan@);
            let step = Step::Retire {
                table: Table::Messages,
                key: Key::Id(self.ids[i]),
                index: Index::ChannelMessages,
                owner: self.channel_id,
                member: Key::Id(self.ids[i]),
            };
            let ghost added = step@;
            plan.push(step);
            assert(steps_view(plan@) =~= head.push(added));
            i = i + 1;
            assert(steps_view(plan@) =~= wanted.subrange(0, i as int));
        }
        assert(wanted.subrange(0, i as int) =~= wanted);
        plan
    }
}

impl UpdateCache for MessageUpdate {
    open spec fn plan(&self, wanted: Set<ResourceKind>) -> Seq<StepView> {
        if wanted.contains(ResourceKind::Message) {
            patch_plan(
                Table::Messages,
                MESSAGE_FIELDS as nat,
                Key::Id(self.id),
                message_update_changes(*self),
            )
        } else {
            Seq::empty()
        }
    }

    fn update(&self, cache: &InRedisCache) -> (r: Vec<Step>) {
        if !cache.wants(ResourceKind::Message) {
            return Vec::new();
        }
        let mut changes: Vec<Change> = Vec::new();
        assert(changes_view(changes@) =~= Seq::<(int, Datum)>::empty());
        change_if(&mut changes, MESSAGE_ATTACHMENTS, blob_field(&self.attachments));
        change_if(&mut changes, MESSAGE_CONTENT, text_field(&self.content));
        change_if(&mut changes, MESSAGE_EDITED_TIMESTAMP, num_field(self.edited_timestamp));
        change_if(&mut changes, MESSAGE_EMBEDS, blob_field(&self.embeds));
        change_if(&mut changes, MESSAGE_MENTION_EVERYONE, flag_field(self.mention_everyone));
        change_if(&mut changes, MESSAGE_MENTION_ROLES, ids_field(&self.mention_roles));
        change_if(&mut changes, MESSAGE_MENTIONS, ids_field(&self.mentions));
        change_if(&mut changes, MESSAGE_PINNED, flag_field(self.pinned));
        change_if(&mut changes, MESSAGE_TIMESTAMP, num_field(self.timestamp));
        change_if(&mut changes, MESSAGE_TTS, flag_field(self.tts));
        assert(changes_view(changes@) =~= message_update_changes(*self));
        patch(Table::Messages, MESSAGE_FIELDS, Key::Id(self.id), changes)
    }
}

} // verus!
