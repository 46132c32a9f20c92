use crate::cache::{InRedisCache, UpdateCache};
use crate::config::ResourceKind;
use crate::event::unavailable_plan;
use crate::event::channel::{ChannelCreate, ChannelDelete, ChannelPinsUpdate, ChannelUpdate};
use crate::event::guild::{GuildCreate, GuildDelete, GuildUpdate};
use crate::event::integration::{IntegrationCreate, IntegrationDelete, IntegrationUpdate};
use crate::event::member::{MemberAdd, MemberChunk, MemberRemove, MemberUpdate};
use crate::event::message::{MessageCreate, MessageDelete, MessageDeleteBulk, MessageUpdate};
use crate::event::presence::PresenceUpdate;
use crate::event::role::{RoleCreate, RoleDelete, RoleUpdate};
use crate::event::stage_instance::{StageInstanceCreate, StageInstanceDelete, StageInstanceUpdate};
use crate::event::thread::{ThreadCreate, ThreadDelete, ThreadListSync, ThreadUpdate};
use crate::plan::{Step, StepView};
use vstd::prelude::*;

verus! {

/// A guild has become unreachable for a while.
#[derive(Clone, Debug, PartialEq, Eq)]
pub struct UnavailableGuild {
    pub id: u64,
}

impl UpdateCache for UnavailableGuild {
    open spec fn plan(&self, wanted: Set<ResourceKind>) -> Seq<StepView> {
        if wanted.contains(ResourceKind::Guild) {
            unavailable_plan(self.id)
        } else {
            Seq::empty()
        }
    }

    fn update(&self, cache: &InRedisCache) -> (r: Vec<Step>) {
        if !cache.wants(ResourceKind::Guild) {
            return Vec::new();
        }
        cache.unavailable_guild(self.id)
    }
}

/// An event of the gateway. The cache has a plan for each variant but the last, which stands
/// for every event that changes nothing the cache keeps.
#[derive(Clone, Debug, PartialEq, Eq)]
pub enum Event {
    ChannelCreate(ChannelCreate),
    ChannelDelete(ChannelDelete),
    ChannelPinsUpdate(ChannelPinsUpdate),
    ChannelUpdate(ChannelUpdate),
    GuildCreate(GuildCreate),
    GuildDelete(GuildDelete),
    GuildUpdate(GuildUpdate),
    IntegrationCreate(IntegrationCreate),
    IntegrationDelete(IntegrationDelete),
    IntegrationUpdate(IntegrationUpdate),
    MemberAdd(MemberAdd),
    MemberChunk(MemberChunk),
    MemberRemove(MemberRemove),
    MemberUpdate(MemberUpdate),
    MessageCreate(MessageCreate),
    MessageDelete(MessageDelete),
    MessageDeleteBulk(MessageDeleteBulk),
    MessageUpdate(MessageUpdate),
    PresenceUpdate(PresenceUpdate),
    RoleCreate(RoleCreate),
    RoleDelete(RoleDelete),
    RoleUpdate(RoleUpdate),
    StageInstanceCreate(StageInstanceCreate),
    StageInstanceDelete(StageInstanceDelete),
    StageInstanceUpdate(StageInstanceUpdate),
    ThreadCreate(ThreadCreate),
    ThreadDelete(ThreadDelete),
    ThreadListSync(ThreadListSync),
    ThreadUpdate(ThreadUpdate),
    UnavailableGuild(UnavailableGuild),
    Other,
}

impl Event {
    /// The kinds of resource that an event is about. Where the cache tracks none of them the
    /// event takes no step.
    pub open spec fn kinds(self) -> Set<ResourceKind> {
        match self {
            Event::ChannelCreate(_)
            | Event::ChannelDelete(_)
            | Event::ChannelPinsUpdate(_)
            | Event::ChannelUpdate(_)
            | Event::ThreadCreate(_)
            | Event::ThreadDelete(_)
            | Event::ThreadListSync(_)
            | Event::ThreadUpdate(_) => set![ResourceKind::Channel],
            Event::GuildCreate(_)
            | Event::GuildDelete(_)
            | Event::GuildUpdate(_)
            | Event::UnavailableGuild(_) => set![ResourceKind::Guild],
            Event::IntegrationCreate(_)
            | Event::IntegrationDelete(_)
            | Event::IntegrationUpdate(_) => set![ResourceKind::Integration],
            Event::MemberAdd(_)
            | Event::MemberChunk(_)
            | Event::MemberRemove(_)
            | Event::MemberUpdate(_) => set![ResourceKind::Member],
            Event::MessageCreate(_) => set![
                ResourceKind::User,
                ResourceKind::Member,
                ResourceKind::Message,
            ],
            Event::MessageDelete(_)
            | Event::MessageDeleteBulk(_)
            | Event::MessageUpdate(_) => set![ResourceKind::Message],
            Event::PresenceUpdate(_) => set![ResourceKind::Presence],
            Event::RoleCreate(_) | Event::RoleDelete(_) | Event::RoleUpdate(_) => set![
                ResourceKind::Role,
            ],
            Event::StageInstanceCreate(_)
            | Event::StageInstanceDelete(_)
            | Event::StageInstanceUpdate(_) => set![ResourceKind::StageInstance],
            Event::Other => Set::empty(),
        }
    }
}

impl UpdateCache for Event {
    open spec fn plan(&self, wanted: Set<ResourceKind>) -> Seq<StepView> {
        match *self {
            Event::ChannelCreate(v) => v.plan(wanted),
            Event::ChannelDelete(v) => v.plan(wanted),
            Event::ChannelPinsUpdate(v) => v.plan(wanted),
            Event::ChannelUpdate(v) => v.plan(wanted),
            Event::GuildCreate(v) => v.plan(wanted),
            Event::GuildDelete(v) => v.plan(wanted),
            Event::GuildUpdate(v) => v.plan(wanted),
            Event::IntegrationCreate(v) => v.plan(wanted),
            Event::IntegrationDelete(v) => v.plan(wanted),
            Event::IntegrationUpdate(v) => v.plan(wanted),
            Event::MemberAdd(v) => v.plan(wanted),
            Event::MemberChunk(v) => v.plan(wanted),
            Event::MemberRemove(v) => v.plan(wanted),
            Event::MemberUpdate(v) => v.plan(wanted),
            Event::MessageCreate(v) => v.plan(wanted),
            Event::MessageDelete(v) => v.plan(wanted),
            Event::MessageDeleteBulk(v) => v.plan(wanted),
            Event::MessageUpdate(v) => v.plan(wanted),
            Event::PresenceUpdate(v) => v.plan(wanted),
            Event::RoleCreate(v) => v.plan(wanted),
            Event::RoleDelete(v) => v.plan(wanted),
            Event::RoleUpdate(v) => v.plan(wanted),
            Event::StageInstanceCreate(v) => v.plan(wanted),
            Event::StageInstanceDelete(v) => v.plan(wanted),
            Event::StageInstanceUpdate(v) => v.plan(wanted),
            Event::ThreadCreate(v) => v.plan(wanted),
            Event::ThreadDelete(v) => v.plan(wanted),
            Event::ThreadListSync(v) => v.plan(wanted),
            Event::ThreadUpdate(v) => v.plan(wanted),
            Event::UnavailableGuild(v) => v.plan(wanted),
            Event::Other => Seq::empty(),
        }
    }

    fn update(&self, c: &InRedisCache) -> (r: Vec<Step>) {
        match self {
            Event::ChannelCreate(v) => c.update(v),
            Event::ChannelDelete(v) => c.update(v),
            Event::ChannelPinsUpdate(v) => c.update(v),
            Event::ChannelUpdate(v) => c.update(v),
            Event::GuildCreate(v) => c.update(v),
            Event::GuildDelete(v) => c.update(v),
            Event::GuildUpdate(v) => c.update(v),
            Event::IntegrationCreate(v) => c.update(v),
            Event::IntegrationDelete(v) => c.update(v),
            Event::IntegrationUpdate(v) => c.update(v),
            Event::MemberAdd(v) => c.update(v),
            Event::MemberChunk(v) => c.update(v),
            Event::MemberRemove(v) => c.update(v),
            Event::MemberUpdate(v) => c.update(v),
            Event::MessageCreate(v) => c.update(v),
            Event::MessageDelete(v) => c.update(v),
            Event::MessageDeleteBulk(v) => c.update(v),
            Event::MessageUpdate(v) => c.update(v),
            Event::PresenceUpdate(v) => c.update(v),
            Event::RoleCreate(v) => c.update(v),
            Event::RoleDelete(v) => c.update(v),
            Event::RoleUpdate(v) => c.update(v),
            Event::StageInstanceCreate(v) => c.update(v),
            Event::StageInstanceDelete(v) => c.update(v),
            Event::StageInstanceUpdate(v) => c.update(v),
            Event::ThreadCreate(v) => c.update(v),
            Event::ThreadDelete(v) => c.update(v),
            Event::ThreadListSync(v) => c.update(v),
            Event::ThreadUpdate(v) => c.update(v),
            Event::UnavailableGuild(v) => c.update(v),
            Event::Other => Vec::new(),
        }
    }
}

/// Interest gating: an event about kinds of which the cache tracks none takes no step.
pub proof fn law_interest_gating(event: Event, wanted: Set<ResourceKind>)
    requires
        wanted.disjoint(event.kinds()),
    ensures
        event.plan(wanted).len() == 0,
{
    match event {
        Event::MessageCreate(v) => {
            assert(event.kinds().contains(ResourceKind::User));
            assert(event.kinds().contains(ResourceKind::Member));
            assert(event.kinds().contains(ResourceKind::Message));
        },
        Event::Other => {},
        Event::ChannelCreate(_)
        | Event::ChannelDelete(_)
        | Event::ChannelPinsUpdate(_)
        | Event::ChannelUpdate(_)
        | Event::ThreadCreate(_)
        | Event::ThreadDelete(_)
        | Event::ThreadListSync(_)
        | Event::ThreadUpdate(_) => {
            assert(event.kinds().contains(ResourceKind::Channel));
        },
        Event::GuildCreate(_)
        | Event::GuildDelete(_)
        | Event::GuildUpdate(_)
        | Event::UnavailableGuild(_) => {
            assert(event.kinds().contains(ResourceKind::Guild));
        },
        Event::IntegrationCreate(_)
        | Event::IntegrationDelete(_)
        | Event::IntegrationUpdate(_) => {
            assert(event.kinds().contains(ResourceKind::Integration));
        },
        Event::MemberAdd(_)
        | Event::MemberChunk(_)
        | Event::MemberRemove(_)
        | Event::MemberUpdate(_) => {
            assert(event.kinds().contains(ResourceKind::Member));
        },
        Event::MessageDelete(_) | Event::MessageDeleteBulk(_) | Event::MessageUpdate(_) => {
            assert(event.kinds().contains(ResourceKind::Message));
        },
        Event::PresenceUpdate(_) => {
            assert(event.kinds().contains(ResourceKind::Presence));
        },
        Event::RoleCreate(_) | Event::RoleDelete(_) | Event::RoleUpdate(_) => {
            assert(event.kinds().contains(ResourceKind::Role));
        },
        Event::StageInstanceCreate(_)
        | Event::StageInstanceDelete(_)
        | Event::StageInstanceUpdate(_) => {
            assert(event.kinds().contains(ResourceKind::StageInstance));
        },
    }
}

} // verus!
