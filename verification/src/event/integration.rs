use crate::cache::{InRedisCache, UpdateCache};
use crate::config::ResourceKind;
use crate::event::{replace, replace_plan, retire, retire_plan, upsert, upsert_plan};
use crate::model::GuildIntegration;
use crate::plan::{Step, steps_view, StepView};
use crate::store::{Index, Table};
use vstd::prelude::*;

verus! {

/// An integration was added to a guild. The event may come without the guild's identifier.
#[derive(Clone, Debug, PartialEq, Eq)]
pub struct IntegrationCreate {
    pub guild_id: Option<u64>,
    pub integration: GuildIntegration,
}

/// An integration was removed from a guild.
#[derive(Clone, Debug, PartialEq, Eq)]
pub struct IntegrationDelete {
    pub guild_id: u64,
    pub id: u64,
}

/// An integration of a guild has changed.
#[derive(Clone, Debug, PartialEq, Eq)]
pub struct IntegrationUpdate {
    pub guild_id: Option<u64>,
    pub integration: GuildIntegration,
}

/// The plan that stores one integration of a guild, under the pair of the guild and itself.
pub open spec fn integration_plan(guild_id: u64, integration: GuildIntegration) -> Seq<StepView> {
    upsert_plan(Table::Integrations, Index::GuildIntegrations, guild_id, integration, true, true)
}

/// The plan that removes one integration of a guild.
pub open spec fn integration_delete_plan(guild_id: u64, integration_id: u64) -> Seq<StepView> {
    retire_plan(Table::Integrations, Index::GuildIntegrations, guild_id, integration_id, true)
}

/// The plan for an integration that was added. Without a guild nothing is stored.
pub open spec fn integration_event_plan(guild_id: Option<u64>, integration: GuildIntegration) -> Seq<
    StepView,
> {
    match guild_id {
        Some(guild_id) => integration_plan(guild_id, integration),
        None => Seq::empty(),
    }
}

/// The plan for an integration that has changed: the stored integration is replaced; one
/// that is not stored stays out. Without a guild nothing is done.
pub open spec fn integration_update_plan(guild_id: Option<u64>, integration: GuildIntegration) -> Seq<
    StepView,
> {
    match guild_id {
        Some(guild_id) => replace_plan(Table::Integrations, guild_id, integration, true, true),
        None => Seq::empty(),
    }
}

impl InRedisCache {
    /// The plan that stores one integration of a guild.
    pub fn cache_integration(&self, guild_id: u64, integration: &GuildIntegration) -> (r: Vec<
        Step,
    >)
        ensures
            steps_view(r@) == integration_plan(guild_id, *integration),
    {
        upsert(Table::Integrations, Index::GuildIntegrations, guild_id, integration, true, true)
    }

    /// The plan that removes one integration of a guild.
    pub fn delete_integration(&self, guild_id: u64, integration_id: u64) -> (r: Vec<Step>)
        ensures
            steps_view(r@) == integration_delete_plan(guild_id, integration_id),
    {
        retire(Table::Integrations, Index::GuildIntegrations, guild_id, integration_id, true)
    }
}

impl UpdateCache for IntegrationCreate {
    open spec fn plan(&self, wanted: Set<ResourceKind>) -> Seq<StepView> {
        if wanted.contains(ResourceKind::Integration) {
            integration_event_plan(self.guild_id, self.integration)
        } else {
            Seq::empty()
        }
    }

    fn update(&self, cache: &InRedisCache) -> (r: Vec<Step>) {
        if !cache.wants(ResourceKind::Integration) {
            return Vec::new();
        }
        match self.guild_id {
            Some(guild_id) => cache.cache_integration(guild_id, &self.integration),
            None => Vec::new(),
        }
    }
}

impl UpdateCache for IntegrationDelete {
    open spec fn plan(&self, wanted: Set<ResourceKind>) -> Seq<StepView> {
        if wanted.contains(ResourceKind::Integration) {
            integration_delete_plan(self.guild_id, self.id)
        } else {
            Seq::empty()
        }
    }

    fn update(&self, cache: &InRedisCache) -> (r: Vec<Step>) {
        if !cache.wants(ResourceKind::Integration) {
            return Vec::new();
        }
        cache.delete_integration(self.guild_id, self.id)
    }
}

impl UpdateCache for IntegrationUpdate {
    open spec fn plan(&self, wanted: Set<ResourceKind>) -> Seq<StepView> {
        if wanted.contains(ResourceKind::Integration) {
            integration_update_plan(self.guild_id, self.integration)
        } else {
            Seq::empty()
        }
    }

    fn update(&self, cache: &InRedisCache) -> (r: Vec<Step>) {
        if !cache.wants(ResourceKind::Integration) {
            return Vec::new();
        }
        match self.guild_id {
            Some(guild_id) => replace(Table::Integrations, guild_id, &self.integration, true, true),
            None => Vec::new(),
        }
    }
}

} // verus!
