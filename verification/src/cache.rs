use crate::config::{Config, ResourceKind};
use crate::plan::{Step, steps_view, StepView};
use vstd::prelude::*;

verus! {

/// The cache: it turns each event into the plan of store operations that brings the store up
/// to date. It holds no records itself.
#[derive(Clone, Copy, Debug)]
pub struct InRedisCache {
    config: Config,
}

impl View for InRedisCache {
    type V = Set<ResourceKind>;

    /// The kinds of resource that the cache tracks.
    closed spec fn view(&self) -> Set<ResourceKind> {
        self.config@
    }
}

/// An event that the cache can be brought up to date with.
pub trait UpdateCache {
    /// The plan for this event in a cache that tracks the kinds in `wanted`.
    spec fn plan(&self, wanted: Set<ResourceKind>) -> Seq<StepView>;

    /// The plan of store operations for this event.
    fn update(&self, cache: &InRedisCache) -> (r: Vec<Step>)
        ensures
            steps_view(r@) == self.plan(cache@),
    ;
}

impl InRedisCache {
    /// A cache that tracks every kind of resource.
    pub fn new() -> (r: Self)
        ensures
            forall|kind: ResourceKind| r@.contains(kind),
    {
        InRedisCache { config: Config::new() }
    }

    /// A cache that tracks what `config` says.
    pub fn with_config(config: Config) -> (r: Self)
        ensures
            r@ == config@,
    {
        InRedisCache { config }
    }

    /// What the cache was set up to track.
    pub fn config(&self) -> (r: Config)
        ensures
            r@ == self@,
    {
        self.config
    }

    /// Whether resources of `kind` are tracked.
    pub fn wants(&self, kind: ResourceKind) -> (r: bool)
        ensures
            r == self@.contains(kind),
    {
        self.config.wants(kind)
    }

    /// The plan of store operations for an event.
    pub fn update<E: UpdateCache>(&self, value: &E) -> (r: Vec<Step>)
        ensures
            steps_view(r@) == value.plan(self@),
    {
        value.update(self)
    }
}

/// Puts the steps of `more` behind those of `plan`.
pub(crate) fn join(plan: &mut Vec<Step>, more: Vec<Step>)
    ensures
        steps_view(final(plan)@) == steps_view(old(plan)@) + steps_view(more@),
{
    let mut more = more;
    let ghost tail = more@;
    plan.append(&mut more);
    assert(steps_view(plan@) =~= steps_view(old(plan)@) + steps_view(tail));
}

} // verus!
