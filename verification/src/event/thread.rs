use crate::cache::{InRedisCache, UpdateCache};
use crate::config::ResourceKind;
use crate::event::channel::{
    guild_channel_update_plan,
    Channel, copy_channel, guild_channel_delete_plan, guild_channel_plan, guild_channels_plan,
};
use crate::model::GuildChannel;
use crate::plan::{Step, steps_view, StepView};
use vstd::prelude::*;

verus! {

/// A thread was made.
#[derive(Clone, Debug, PartialEq, Eq)]
pub struct ThreadCreate(pub Channel);

/// A thread was removed.
#[derive(Clone, Debug, PartialEq, Eq)]
pub struct ThreadDelete(pub Channel);

/// The threads of a guild, as the gateway lists them.
#[derive(Clone, Debug, PartialEq, Eq)]
pub struct ThreadListSync {
    pub guild_id: u64,
    pub threads: Vec<Channel>,
}

/// A thread has changed.
#[derive(Clone, Debug, PartialEq, Eq)]
pub struct ThreadUpdate(pub Channel);

/// The plan for a thread that has changed: a stored guild channel is replaced; a thread that
/// is not stored, or names no guild, or is no guild channel, is passed over.
pub open spec fn thread_update_plan(channel: Channel) -> Seq<StepView> {
    match channel {
        Channel::Guild(c) => match c.guild_id {
            Some(guild_id) => guild_channel_update_plan(guild_id, c),
            None => Seq::empty(),
        },
        _ => Seq::empty(),
    }
}

/// The plan for a thread that was made: a guild channel that names its guild is stored,
/// anything else is passed over.
pub open spec fn thread_plan(channel: Channel) -> Seq<StepView> {
    match channel {
        Channel::Guild(c) => match c.guild_id {
            Some(guild_id) => guild_channel_plan(guild_id, c),
            None => Seq::empty(),
        },
        _ => Seq::empty(),
    }
}

/// The plan for a thread that was removed.
pub open spec fn thread_delete_plan(channel: Channel) -> Seq<StepView> {
    match channel {
        Channel::Guild(c) => match c.guild_id {
            Some(guild_id) => guild_channel_delete_plan(guild_id, c.id),
            None => Seq::empty(),
        },
        _ => Seq::empty(),
    }
}

/// The guild channels among `channels`, in order.
pub open spec fn guild_threads(channels: Seq<Channel>) -> Seq<GuildChannel>
    decreases channels.len(),
{
    if channels.len() == 0 {
        Seq::empty()
    } else {
        match channels.last() {
            Channel::Guild(c) => guild_threads(channels.drop_last()).push(c),
            _ => guild_threads(channels.drop_last()),
        }
    }
}

fn store_thread(cache: &InRedisCache, channel: &Channel) -> (r: Vec<Step>)
    ensures
        steps_view(r@) == thread_plan(*channel),
{
    match channel {
        Channel::Guild(c) => match c.guild_id {
            Some(guild_id) => cache.cache_guild_channel(guild_id, c),
            None => Vec::new(),
        },
        _ => Vec::new(),
    }
}

impl UpdateCache for ThreadCreate {
    open spec fn plan(&self, wanted: Set<ResourceKind>) -> Seq<StepView> {
        if wanted.contains(ResourceKind::Channel) {
            thread_plan(self.0)
        } else {
            Seq::empty()
        }
    }

    fn update(&self, cache: &InRedisCache) -> (r: Vec<Step>) {
        if !cache.wants(ResourceKind::Channel) {
            return Vec::new();
        }
        store_thread(cache, &self.0)
    }
}

impl UpdateCache for ThreadDelete {
    open spec fn plan(&self, wanted: Set<ResourceKind>) -> Seq<StepView> {
        if wanted.contains(ResourceKind::Channel) {
            thread_delete_plan(self.0)
        } else {
            Seq::empty()
        }
    }

    fn update(&self, cache: &InRedisCache) -> (r: Vec<Step>) {
        if !cache.wants(ResourceKind::Channel) {
            return Vec::new();
        }
        match &self.0 {
            Channel::Guild(c) => match c.guild_id {
                Some(guild_id) => cache.delete_guild_channel(guild_id, c.id),
                None => Vec::new(),
            },
            _ => Vec::new(),
        }
    }
}

impl UpdateCache for ThreadListSync {
    open spec fn plan(&self, wanted: Set<ResourceKind>) -> Seq<StepView> {
        if wanted.contains(ResourceKind::Channel) {
            guild_channels_plan(self.guild_id, guild_threads(self.threads@))
        } else {
            Seq::empty()
        }
    }

    fn update(&self, cache: &InRedisCache) -> (r: Vec<Step>) {
        if !cache.wants(ResourceKind::Channel) {
            return Vec::new();
        }
        let mut threads: Vec<GuildChannel> = Vec::new();
        let ghost wanted = guild_threads(self.threads@);
        let mut i: usize = 0;
        assert(self.threads@.subrange(0, 0) =~= Seq::<Channel>::empty());
        while i < self.threads.len()
            invariant
                i <= self.threads.len(),
                threads.len() == guild_threads(self.threads@.subrange(0, i as int)).len(),
                forall|j: int|
                    0 <= j < threads.len() ==> {
                        let c = #[trigger] threads[j];
                        let w = guild_threads(self.threads@.subrange(0, i as int))[j];
                        c.id == w.id && c.guild_id == w.guild_id && c.kind == w.kind
                            && c.last_pin_timestamp == w.last_pin_timestamp && c.body@ == w.body@
                    },
            decreases self.threads.len() - i,
        {
            proof {
                let upto = self.threads@.subrange(0, i + 1);
                assert(upto.drop_last() =~= self.threads@.subrange(0, i as int));
                assert(upto.last() == self.threads@[i as int]);
            }
            match &self.threads[i] {
                Channel::Guild(c) => {
                    threads.push(copy_channel(c));
                },
                _ => {},
            }
            i = i + 1;
        }
        assert(self.threads@.subrange(0, i as int) =~= self.threads@);
        let plan = cache.cache_guild_channels(self.guild_id, &threads);
        proof {
            let guild_id = self.guild_id;
            let a = threads@.map_values(
                |c: GuildChannel| crate::event::channel::stamped(guild_id, c),
            );
            let b = wanted.map_values(|c: GuildChannel| crate::event::channel::stamped(guild_id, c));
            assert(a.len() == b.len());
            assert forall|j: int| 0 <= j < a.len() implies crate::record::Record::data(&a[j])
                == crate::record::Record::data(&b[j]) && crate::record::Identified::ident(&a[j])
                == crate::record::Identified::ident(&b[j]) by {
                assert(threads[j].id == wanted[j].id);
                assert(crate::record::Record::data(&a[j]) =~= crate::record::Record::data(&b[j]));
            }
            assert(crate::event::batch_entries(guild_id, a, true, false)
                =~= crate::event::batch_entries(guild_id, b, true, false));
            assert(crate::event::batch_members(a) =~= crate::event::batch_members(b));
        }
        plan
    }
}

impl UpdateCache for ThreadUpdate {
    open spec fn plan(&self, wanted: Set<ResourceKind>) -> Seq<StepView> {
        if wanted.contains(ResourceKind::Channel) {
            thread_update_plan(self.0)
        } else {
            Seq::empty()
        }
    }

    fn update(&self, cache: &InRedisCache) -> (r: Vec<Step>) {
        if !cache.wants(ResourceKind::Channel) {
            return Vec::new();
        }
        match &self.0 {
            Channel::Guild(c) => match c.guild_id {
                Some(guild_id) => cache.update_guild_channel(guild_id, c),
                None => Vec::new(),
            },
            _ => Vec::new(),
        }
    }
}

} // verus!
