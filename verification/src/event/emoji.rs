use crate::cache::InRedisCache;
use crate::event::{batch, batch_plan};
use crate::model::CachedEmoji;
use crate::plan::{Step, steps_view, StepView};
use crate::store::{Index, Table};
use vstd::prelude::*;

verus! {

/// The plan that stores the emojis of a guild, all at once.
pub open spec fn emojis_plan(guild_id: u64, emojis: Seq<CachedEmoji>) -> Seq<StepView> {
    batch_plan(Table::Emojis, Index::GuildEmojis, guild_id, emojis, true, false)
}

impl InRedisCache {
    /// The plan that stores the emojis of a guild in one batch.
    pub fn cache_emojis(&self, guild_id: u64, emojis: &Vec<CachedEmoji>) -> (r: Vec<Step>)
        ensures
            steps_view(r@) == emojis_plan(guild_id, emojis@),
    {
        batch(Table::Emojis, Index::GuildEmojis, guild_id, emojis, true, false)
    }
}

} // verus!
