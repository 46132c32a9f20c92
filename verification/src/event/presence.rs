use crate::bytes::copy_bytes;
use crate::cache::{InRedisCache, UpdateCache};
use crate::config::ResourceKind;
use crate::event::{batch, batch_plan, upsert, upsert_plan};
use crate::model::{CachedPresence, User};
use crate::plan::{Step, steps_view, StepView};
use crate::record::Record;
use crate::store::{Index, Table};
use vstd::prelude::*;

verus! {

/// The user of a presence: the whole user, or the identifier alone.
#[derive(Clone, Debug, PartialEq, Eq)]
pub enum UserOrId {
    User(User),
    UserId { id: u64 },
}

/// What a user is doing in a guild has changed.
#[derive(Clone, Debug, PartialEq, Eq)]
pub struct PresenceUpdate {
    pub activities: Vec<u8>,
    pub client_status: Vec<u8>,
    pub guild_id: u64,
    pub status: u64,
    pub user: UserOrId,
}

/// The identifier of the user of a presence.
pub open spec fn presence_user(user_or_id: UserOrId) -> u64 {
    match user_or_id {
        UserOrId::User(u) => u.id,
        UserOrId::UserId { id } => id,
    }
}

/// The identifier of the user of a presence.
pub fn presence_user_id(user_or_id: &UserOrId) -> (r: u64)
    ensures
        r == presence_user(*user_or_id),
{
    match user_or_id {
        UserOrId::User(u) => u.id,
        UserOrId::UserId { id } => *id,
    }
}

/// The plan that stores the presences of a guild, all at once, each under the pair of the
/// guild and its user.
pub open spec fn presences_plan(guild_id: u64, presences: Seq<CachedPresence>) -> Seq<StepView> {
    batch_plan(Table::Presences, Index::GuildPresences, guild_id, presences, false, true)
}

/// The plan that stores one presence of a guild.
pub open spec fn presence_plan(guild_id: u64, presence: CachedPresence) -> Seq<StepView> {
    upsert_plan(Table::Presences, Index::GuildPresences, guild_id, presence, false, true)
}

/// The presence that an update comes to.
pub open spec fn presence_of(event: PresenceUpdate) -> CachedPresence {
    CachedPresence {
        activities: event.activities,
        client_status: event.client_status,
        guild_id: event.guild_id,
        status: event.status,
        user_id: presence_user(event.user),
    }
}

impl InRedisCache {
    /// The plan that stores the presences of a guild in one batch.
    pub fn cache_presences(&self, guild_id: u64, presences: &Vec<CachedPresence>) -> (r: Vec<Step>)
        ensures
            steps_view(r@) == presences_plan(guild_id, presences@),
    {
        batch(Table::Presences, Index::GuildPresences, guild_id, presences, false, true)
    }

    /// The plan that stores one presence of a guild.
    pub fn cache_presence(&self, guild_id: u64, presence: &CachedPresence) -> (r: Vec<Step>)
        ensures
            steps_view(r@) == presence_plan(guild_id, *presence),
    {
        upsert(Table::Presences, Index::GuildPresences, guild_id, presence, false, true)
    }
}

impl UpdateCache for PresenceUpdate {
    open spec fn plan(&self, wanted: Set<ResourceKind>) -> Seq<StepView> {
        if wanted.contains(ResourceKind::Presence) {
            presence_plan(self.guild_id, presence_of(*self))
        } else {
            Seq::empty()
        }
    }

    fn update(&self, cache: &InRedisCache) -> (r: Vec<Step>) {
        if !cache.wants(ResourceKind::Presence) {
            return Vec::new();
        }
        let presence = CachedPresence {
            activities: copy_bytes(self.activities.as_slice()),
            client_status: copy_bytes(self.client_status.as_slice()),
            guild_id: self.guild_id,
            status: self.status,
            user_id: presence_user_id(&self.user),
        };
        assert(presence.data() =~= presence_of(*self).data());
        cache.cache_presence(self.guild_id, &presence)
    }
}

} // verus!
