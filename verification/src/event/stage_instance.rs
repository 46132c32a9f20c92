use crate::cache::{InRedisCache, UpdateCache};
use crate::config::ResourceKind;
use crate::event::{
    batch, batch_plan, replace, replace_plan, retire, retire_plan, upsert, upsert_plan,
};
use crate::model::StageInstance;
use crate::plan::{Step, steps_view, StepView};
use crate::store::{Index, Table};
use vstd::prelude::*;

verus! {

/// A stage went live in a guild.
#[derive(Clone, Debug, PartialEq, Eq)]
pub struct StageInstanceCreate {
    pub guild_id: u64,
    pub stage_instance: StageInstance,
}

/// A stage of a guild has ended.
#[derive(Clone, Debug, PartialEq, Eq)]
pub struct StageInstanceDelete {
    pub guild_id: u64,
    pub id: u64,
}

/// A live stage of a guild has changed.
#[derive(Clone, Debug, PartialEq, Eq)]
pub struct StageInstanceUpdate {
    pub guild_id: u64,
    pub stage_instance: StageInstance,
}

/// The plan that stores the live stages of a guild, all at once.
pub open spec fn stage_instances_plan(guild_id: u64, stage_instances: Seq<StageInstance>) -> Seq<
    StepView,
> {
    batch_plan(
        Table::StageInstances,
        Index::GuildStageInstances,
        guild_id,
        stage_instances,
        false,
        false,
    )
}

/// The plan that stores one live stage of a guild.
pub open spec fn stage_instance_plan(guild_id: u64, stage_instance: StageInstance) -> Seq<StepView> {
    upsert_plan(
        Table::StageInstances,
        Index::GuildStageInstances,
        guild_id,
        stage_instance,
        false,
        false,
    )
}

/// The plan for a live stage that has changed: the stored stage is replaced; a stage that is
/// not stored stays out.
pub open spec fn stage_instance_update_plan(guild_id: u64, stage_instance: StageInstance) -> Seq<
    StepView,
> {
    replace_plan(Table::StageInstances, guild_id, stage_instance, false, false)
}

/// The plan that removes one live stage of a guild.
pub open spec fn stage_instance_delete_plan(guild_id: u64, stage_id: u64) -> Seq<StepView> {
    retire_plan(Table::StageInstances, Index::GuildStageInstances, guild_id, stage_id, false)
}

impl InRedisCache {
    /// The plan that stores the live stages of a guild in one batch.
    pub fn cache_stage_instances(&self, guild_id: u64, stage_instances: &Vec<StageInstance>) -> (r:
        Vec<Step>)
        ensures
            steps_view(r@) == stage_instances_plan(guild_id, stage_instances@),
    {
        batch(
            Table::StageInstances,
            Index::GuildStageInstances,
            guild_id,
            stage_instances,
            false,
            false,
        )
    }

    /// The plan that stores one live stage of a guild.
    pub fn cache_stage_instance(&self, guild_id: u64, stage_instance: &StageInstance) -> (r: Vec<
        Step,
    >)
        ensures
            steps_view(r@) == stage_instance_plan(guild_id, *stage_instance),
    {
        upsert(
            Table::StageInstances,
            Index::GuildStageInstances,
            guild_id,
            stage_instance,
            false,
            false,
        )
    }

    /// The plan that removes one live stage of a guild.
    pub fn delete_stage_instance(&self, guild_id: u64, stage_id: u64) -> (r: Vec<Step>)
        ensures
            steps_view(r@) == stage_instance_delete_plan(guild_id, stage_id),
    {
        retire(Table::StageInstances, Index::GuildStageInstances, guild_id, stage_id, false)
    }
}

impl UpdateCache for StageInstanceCreate {
    open spec fn plan(&self, wanted: Set<ResourceKind>) -> Seq<StepView> {
        if wanted.contains(ResourceKind::StageInstance) {
            stage_instance_plan(self.guild_id, self.stage_instance)
        } else {
            Seq::empty()
        }
    }

    fn update(&self, cache: &InRedisCache) -> (r: Vec<Step>) {
        if !cache.wants(ResourceKind::StageInstance) {
            return Vec::new();
        }
        cache.cache_stage_instance(self.guild_id, &self.stage_instance)
    }
}

impl UpdateCache for StageInstanceDelete {
    open spec fn plan(&self, wanted: Set<ResourceKind>) -> Seq<StepView> {
        if wanted.contains(ResourceKind::StageInstance) {
            stage_instance_delete_plan(self.guild_id, self.id)
        } else {
            Seq::empty()
        }
    }

    fn update(&self, cache: &InRedisCache) -> (r: Vec<Step>) {
        if !cache.wants(ResourceKind::StageInstance) {
            return Vec::new();
        }
        cache.delete_stage_instance(self.guild_id, self.id)
    }
}

impl UpdateCache for StageInstanceUpdate {
    open spec fn plan(&self, wanted: Set<ResourceKind>) -> Seq<StepView> {
        if wanted.contains(ResourceKind::StageInstance) {
            stage_instance_update_plan(self.guild_id, self.stage_instance)
        } else {
            Seq::empty()
        }
    }

    fn update(&self, cache: &InRedisCache) -> (r: Vec<Step>) {
        if !cache.wants(ResourceKind::StageInstance) {
            return Vec::new();
        }
        replace(Table::StageInstances, self.guild_id, &self.stage_instance, false, false)
    }
}

} // verus!
