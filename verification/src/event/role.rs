use crate::cache::{InRedisCache, UpdateCache};
use crate::config::ResourceKind;
use crate::event::{
    batch, batch_plan, replace, replace_plan, retire, retire_plan, upsert, upsert_plan,
};
use crate::model::Role;
use crate::plan::{Step, steps_view, StepView};
use crate::store::{Index, Table};
use vstd::prelude::*;

verus! {

/// A role was made in a guild.
#[derive(Clone, Debug, PartialEq, Eq)]
pub struct RoleCreate {
    pub guild_id: u64,
    pub role: Role,
}

/// A role was removed from a guild.
#[derive(Clone, Debug, PartialEq, Eq)]
pub struct RoleDelete {
    pub guild_id: u64,
    pub role_id: u64,
}

/// A role of a guild has changed.
#[derive(Clone, Debug, PartialEq, Eq)]
pub struct RoleUpdate {
    pub guild_id: u64,
    pub role: Role,
}

/// The plan that stores the roles of a guild, all at once.
pub open spec fn roles_plan(guild_id: u64, roles: Seq<Role>) -> Seq<StepView> {
    batch_plan(Table::Roles, Index::GuildRoles, guild_id, roles, true, false)
}

/// The plan that stores one role of a guild.
pub open spec fn role_plan(guild_id: u64, role: Role) -> Seq<StepView> {
    upsert_plan(Table::Roles, Index::GuildRoles, guild_id, role, true, false)
}

/// The plan for a role that has changed: the stored role is replaced; a role that is not
/// stored stays out.
pub open spec fn role_update_plan(guild_id: u64, role: Role) -> Seq<StepView> {
    replace_plan(Table::Roles, guild_id, role, true, false)
}

/// The plan that removes one role of a guild.
pub open spec fn role_delete_plan(guild_id: u64, role_id: u64) -> Seq<StepView> {
    retire_plan(Table::Roles, Index::GuildRoles, guild_id, role_id, false)
}

impl InRedisCache {
    /// The plan that stores the roles of a guild in one batch.
    pub fn cache_roles(&self, guild_id: u64, roles: &Vec<Role>) -> (r: Vec<Step>)
        ensures
            steps_view(r@) == roles_plan(guild_id, roles@),
    {
        batch(Table::Roles, Index::GuildRoles, guild_id, roles, true, false)
    }

    /// The plan that stores one role of a guild.
    pub fn cache_role(&self, guild_id: u64, role: &Role) -> (r: Vec<Step>)
        ensures
            steps_view(r@) == role_plan(guild_id, *role),
    {
        upsert(Table::Roles, Index::GuildRoles, guild_id, role, true, false)
    }

    /// The plan that removes one role of a guild.
    pub fn delete_role(&self, guild_id: u64, role_id: u64) -> (r: Vec<Step>)
        ensures
            steps_view(r@) == role_delete_plan(guild_id, role_id),
    {
        retire(Table::Roles, Index::GuildRoles, guild_id, role_id, false)
    }
}

impl UpdateCache for RoleCreate {
    open spec fn plan(&self, wanted: Set<ResourceKind>) -> Seq<StepView> {
        if wanted.contains(ResourceKind::Role) {
            role_plan(self.guild_id, self.role)
        } else {
            Seq::empty()
        }
    }

    fn update(&self, cache: &InRedisCache) -> (r: Vec<Step>) {
        if !cache.wants(ResourceKind::Role) {
            return Vec::new();
        }
        cache.cache_role(self.guild_id, &self.role)
    }
}

impl UpdateCache for RoleDelete {
    open spec fn plan(&self, wanted: Set<ResourceKind>) -> Seq<StepView> {
        if wanted.contains(ResourceKind::Role) {
            role_delete_plan(self.guild_id, self.role_id)
        } else {
            Seq::empty()
        }
    }

    fn update(&self, cache: &InRedisCache) -> (r: Vec<Step>) {
        if !cache.wants(ResourceKind::Role) {
            return Vec::new();
        }
        cache.delete_role(self.guild_id, self.role_id)
    }
}

impl UpdateCache for RoleUpdate {
    open spec fn plan(&self, wanted: Set<ResourceKind>) -> Seq<StepView> {
        if wanted.contains(ResourceKind::Role) {
            role_update_plan(self.guild_id, self.role)
        } else {
            Seq::empty()
        }
    }

    fn update(&self, cache: &InRedisCache) -> (r: Vec<Step>) {
        if !cache.wants(ResourceKind::Role) {
            return Vec::new();
        }
        replace(Table::Roles, self.guild_id, &self.role, true, false)
    }
}

} // verus!
