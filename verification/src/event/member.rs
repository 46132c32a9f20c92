use crate::cache::{InRedisCache, join, UpdateCache};
use crate::codec::{data_wire, Datum, Field};
use crate::config::ResourceKind;
use crate::event::{change, change_if, maybe, patch, patch_plan, retire_plan, user_plan};
use crate::model::{
    CachedMember, MEMBER_DEAF, MEMBER_FIELDS, MEMBER_GUILD_ID, MEMBER_JOINED_AT, MEMBER_MUTE,
    MEMBER_NICK, MEMBER_PENDING, MEMBER_PREMIUM_SINCE, MEMBER_ROLES, MEMBER_USER_ID, User,
};
use crate::plan::{Change, changes_view, Step, steps_view, StepView, Target, TargetView};
use crate::record::{copy_ids, field_ids, field_opt_num, field_opt_text, opt_num, opt_text, Record};
use crate::store::{Index, Key, Table, Write, WriteView};
use vstd::prelude::*;

verus! {

/// A member of a guild, as an event carries it, with the user whole.
#[derive(Clone, Debug, PartialEq, Eq)]
pub struct Member {
    pub deaf: bool,
    pub guild_id: u64,
    pub joined_at: Option<u64>,
    pub mute: bool,
    pub nick: Option<String>,
    pub pending: bool,
    pub premium_since: Option<u64>,
    pub roles: Vec<u64>,
    pub user: User,
}

/// What a message says of its author as a member of the guild.
#[derive(Clone, Debug, PartialEq, Eq)]
pub struct PartialMember {
    pub deaf: bool,
    pub joined_at: Option<u64>,
    pub mute: bool,
    pub nick: Option<String>,
    pub roles: Vec<u64>,
}

/// What an interaction says of a member of the guild. It does not say whether the member is
/// deafened or muted.
#[derive(Clone, Debug, PartialEq, Eq)]
pub struct InteractionMember {
    pub id: u64,
    pub joined_at: Option<u64>,
    pub nick: Option<String>,
    pub premium_since: Option<u64>,
    pub roles: Vec<u64>,
}

/// A user has joined a guild.
#[derive(Clone, Debug, PartialEq, Eq)]
pub struct MemberAdd {
    pub guild_id: u64,
    pub member: Member,
}

/// A part of the list of a guild's members.
#[derive(Clone, Debug, PartialEq, Eq)]
pub struct MemberChunk {
    pub guild_id: u64,
    pub members: Vec<Member>,
}

/// A user has left a guild.
#[derive(Clone, Debug, PartialEq, Eq)]
pub struct MemberRemove {
    pub guild_id: u64,
    pub user: User,
}

/// A member of a guild has changed. Whether the member is deafened or muted may be left out.
#[derive(Clone, Debug, PartialEq, Eq)]
pub struct MemberUpdate {
    pub guild_id: u64,
    pub user: User,
    pub deaf: Option<bool>,
    pub mute: Option<bool>,
    pub nick: Option<String>,
    pub roles: Vec<u64>,
    pub joined_at: u64,
    pub pending: bool,
}

/// The record that a member of `guild_id` is stored as.
pub open spec fn cached_member(guild_id: u64, member: Member) -> CachedMember {
    CachedMember {
        deaf: Some(member.deaf),
        guild_id,
        joined_at: member.joined_at,
        mute: Some(member.mute),
        nick: member.nick,
        pending: member.pending,
        premium_since: member.premium_since,
        roles: member.roles,
        user_id: member.user.id,
    }
}

/// The record that the author of a message is stored as.
pub open spec fn cached_partial(guild_id: u64, member: PartialMember, user_id: u64) -> CachedMember {
    CachedMember {
        deaf: Some(member.deaf),
        guild_id,
        joined_at: member.joined_at,
        mute: Some(member.mute),
        nick: member.nick,
        pending: false,
        premium_since: None,
        roles: member.roles,
        user_id,
    }
}

/// The record that the member of an interaction is stored as where the store holds none yet.
pub open spec fn cached_interaction(guild_id: u64, member: InteractionMember) -> CachedMember {
    CachedMember {
        deaf: None,
        guild_id,
        joined_at: member.joined_at,
        mute: None,
        nick: member.nick,
        pending: false,
        premium_since: member.premium_since,
        roles: member.roles,
        user_id: member.id,
    }
}

/// The plan that stores a record under `key` and puts `member` into a set, unless the store
/// holds the same bytes under `key` already; `between` stands between the test and the two
/// changes and is left out with them.
pub open spec fn snapshot_plan(
    table: Table,
    key: Key,
    value: Seq<u8>,
    index: Index,
    owner: u64,
    member: Key,
    between: Seq<StepView>,
) -> Seq<StepView> {
    seq![StepView::Guard { table, key, value, span: between.len() + 2 }] + between + seq![
        StepView::Write(WriteView::Put { table, key, value }),
        StepView::Write(WriteView::Add { index, owner, member }),
    ]
}

/// The plan that stores a member of a guild, and the member's user with it, unless the store
/// holds the same member already.
pub open spec fn member_plan(guild_id: u64, member: Member) -> Seq<StepView> {
    snapshot_plan(
        Table::Members,
        Key::Pair(guild_id, member.user.id),
        data_wire(cached_member(guild_id, member).data()),
        Index::GuildMembers,
        guild_id,
        Key::Id(member.user.id),
        user_plan(member.user, Some(guild_id)),
    )
}

/// The plan that stores several members of a guild, one after the other.
pub open spec fn members_plan(guild_id: u64, members: Seq<Member>) -> Seq<StepView>
    decreases members.len(),
{
    if members.len() == 0 {
        Seq::empty()
    } else {
        members_plan(guild_id, members.drop_last()) + member_plan(guild_id, members.last())
    }
}

/// The plan that stores the author of a message as a member, unless the store holds the same
/// member already.
pub open spec fn partial_member_plan(guild_id: u64, member: PartialMember, user_id: u64) -> Seq<
    StepView,
> {
    snapshot_plan(
        Table::Members,
        Key::Pair(guild_id, user_id),
        data_wire(cached_partial(guild_id, member, user_id).data()),
        Index::GuildMembers,
        guild_id,
        Key::Id(user_id),
        Seq::empty(),
    )
}

/// What an interaction changes of a member that the store holds: everything but whether the
/// member is deafened or muted.
pub open spec fn interaction_changes(guild_id: u64, member: InteractionMember) -> Seq<(int, Datum)> {
    seq![
        (MEMBER_GUILD_ID as int, Datum::Num(guild_id)),
        (MEMBER_JOINED_AT as int, opt_num(member.joined_at)),
        (MEMBER_NICK as int, opt_text(member.nick)),
        (MEMBER_PENDING as int, Datum::Flag(false)),
        (MEMBER_PREMIUM_SINCE as int, opt_num(member.premium_since)),
        (MEMBER_ROLES as int, Datum::Ids(member.roles@)),
        (MEMBER_USER_ID as int, Datum::Num(member.id)),
    ]
}

/// The plan that stores the member of an interaction: a member that the store holds keeps
/// whether it is deafened or muted; nothing is written where the bytes would stay the same.
pub open spec fn interaction_member_plan(guild_id: u64, member: InteractionMember) -> Seq<StepView> {
    seq![
        StepView::Revise {
            target: TargetView {
                table: Table::Members,
                arity: MEMBER_FIELDS as nat,
                given: Seq::empty(),
                changes: interaction_changes(guild_id, member),
            },
            fallbacks: Seq::empty(),
            key: Key::Pair(guild_id, member.id),
            otherwise: Some(data_wire(cached_interaction(guild_id, member).data())),
            then: seq![
                WriteView::Add {
                    index: Index::GuildMembers,
                    owner: guild_id,
                    member: Key::Id(member.id),
                },
            ],
        },
    ]
}

/// The plan for a user that has left a guild: the member's record and its place in the
/// guild's set go; the guild leaves the set of guilds that the user is seen through and,
/// where that was the last one, the user's record goes too.
pub open spec fn member_remove_plan(guild_id: u64, user_id: u64) -> Seq<StepView> {
    retire_plan(Table::Members, Index::GuildMembers, guild_id, user_id, true).push(
        StepView::Unlink {
            index: Index::UserGuilds,
            owner: user_id,
            member: Key::Id(guild_id),
            table: Table::Users,
            key: Key::Id(user_id),
        },
    )
}

/// The field that an optional flag sets, where there is one.
pub open spec fn flag_datum(flag: Option<bool>) -> Option<Datum> {
    match flag {
        Some(b) => Some(Datum::Flag(b)),
        None => None,
    }
}

/// The fields that an update of a member sets: whether the member is deafened or muted only
/// where the update says so.
pub open spec fn member_update_changes(event: MemberUpdate) -> Seq<(int, Datum)> {
    maybe(MEMBER_DEAF as int, flag_datum(event.deaf)) + maybe(
        MEMBER_MUTE as int,
        flag_datum(event.mute),
    ) + seq![
        (MEMBER_NICK as int, opt_text(event.nick)),
        (MEMBER_ROLES as int, Datum::Ids(event.roles@)),
        (MEMBER_JOINED_AT as int, Datum::Num(event.joined_at)),
        (MEMBER_PENDING as int, Datum::Flag(event.pending)),
    ]
}

pub(crate) fn flag_field(flag: Option<bool>) -> (r: Option<Field>)
    ensures
        crate::event::datum_of(r) == flag_datum(flag),
{
    match flag {
        Some(b) => Some(Field::Flag(b)),
        None => None,
    }
}

fn snapshot(
    table: Table,
    key: Key,
    value: Vec<u8>,
    again: Vec<u8>,
    index: Index,
    owner: u64,
    member: Key,
    between: Vec<Step>,
) -> (r: Vec<Step>)
    requires
        again@ == value@,
        between.len() + 2 <= usize::MAX,
    ensures
        steps_view(r@) == snapshot_plan(
            table,
            key,
            value@,
            index,
            owner,
            member,
            steps_view(between@),
        ),
{
    let mut plan: Vec<Step> = Vec::new();
    let span: usize = between.len() + 2;
    let ghost bytes = value@;
    let ghost middle = steps_view(between@);
    plan.push(Step::Guard { table, key, value, span });
    assert(steps_view(plan@) =~= seq![
        StepView::Guard { table, key, value: bytes, span: span as nat },
    ]);
    join(&mut plan, between);
    let ghost so_far = steps_view(plan@);
    let put = Step::Write(Write::Put { table, key, value: again });
    let ghost put_view = put@;
    plan.push(put);
    assert(steps_view(plan@) =~= so_far.push(put_view));
    let ghost with_put = steps_view(plan@);
    let add = Step::Write(Write::Add { index, owner, member });
    let ghost add_view = add@;
    plan.push(add);
    assert(steps_view(plan@) =~= with_put.push(add_view));
    assert(steps_view(plan@) =~= snapshot_plan(
        table,
        key,
        value@,
        index,
        owner,
        member,
        steps_view(between@),
    ));
    plan
}

impl InRedisCache {
    /// The plan that stores several members of a guild, one after the other.
    pub fn cache_members(&self, guild_id: u64, members: &Vec<Member>) -> (r: Vec<Step>)
        ensures
            steps_view(r@) == members_plan(guild_id, members@),
    {
        let mut plan: Vec<Step> = Vec::new();
        let mut i: usize = 0;
        assert(members@.subrange(0, 0) =~= Seq::<Member>::empty());
        assert(steps_view(plan@) =~= Seq::<StepView>::empty());
        while i < members.len()
            invariant
                i <= members.len(),
                steps_view(plan@) == members_plan(guild_id, members@.subrange(0, i as int)),
            decreases members.len() - i,
        {
            proof {
                let upto = members@.subrange(0, i + 1);
                assert(upto.drop_last() =~= members@.subrange(0, i as int));
                assert(upto.last() == members@[i as int]);
            }
            let more = self.cache_member(guild_id, &members[i]);
            join(&mut plan, more);
            i = i + 1;
        }
        assert(members@.subrange(0, i as int) =~= members@);
        plan
    }

    /// The plan that stores a member of a guild and the member's user, unless the store holds
    /// the same member already.
    pub fn cache_member(&self, guild_id: u64, member: &Member) -> (r: Vec<Step>)
        ensures
            steps_view(r@) == member_plan(guild_id, *member),
    {
        let user_id = member.user.id;
        let id = Key::Pair(guild_id, user_id);
        let cached = CachedMember {
            deaf: Some(member.deaf),
            guild_id,
            joined_at: member.joined_at,
            mute: Some(member.mute),
            nick: member.nick.clone(),
            pending: member.pending,
            premium_since: member.premium_since,
            roles: copy_ids(&member.roles),
            user_id,
        };
        assert(cached.data() =~= cached_member(guild_id, *member).data());
        let user = self.cache_user(&member.user, Some(guild_id));
        assert(steps_view(user@).len() == 3);
        snapshot(
            Table::Members,
            id,
            crate::record::encode(&cached),
            crate::record::encode(&cached),
            Index::GuildMembers,
            guild_id,
            Key::Id(user_id),
            user,
        )
    }

    /// The plan that stores the author of a message as a member of the guild, unless the store
    /// holds the same member already.
    pub fn cache_borrowed_partial_member(
        &self,
        guild_id: u64,
        member: &PartialMember,
        user_id: u64,
    ) -> (r: Vec<Step>)
        ensures
            steps_view(r@) == partial_member_plan(guild_id, *member, user_id),
    {
        let id = Key::Pair(guild_id, user_id);
        let cached = CachedMember {
            deaf: Some(member.deaf),
            guild_id,
            joined_at: member.joined_at,
            mute: Some(member.mute),
            nick: member.nick.clone(),
            pending: false,
            premium_since: None,
            roles: copy_ids(&member.roles),
            user_id,
        };
        assert(cached.data() =~= cached_partial(guild_id, *member, user_id).data());
        let between: Vec<Step> = Vec::new();
        assert(steps_view(between@) =~= Seq::<StepView>::empty());
        snapshot(
            Table::Members,
            id,
            crate::record::encode(&cached),
            crate::record::encode(&cached),
            Index::GuildMembers,
            guild_id,
            Key::Id(user_id),
            between,
        )
    }

    /// The plan that stores the member of an interaction. A member that the store holds keeps
    /// whether it is deafened or muted.
    pub fn cache_borrowed_interaction_member(&self, guild_id: u64, member: &InteractionMember) -> (r:
        Vec<Step>)
        ensures
            steps_view(r@) == interaction_member_plan(guild_id, *member),
    {
        let id = Key::Pair(guild_id, member.id);
        let cached = CachedMember {
            deaf: None,
            guild_id,
            joined_at: member.joined_at,
            mute: None,
            nick: member.nick.clone(),
            pending: false,
            premium_since: member.premium_since,
            roles: copy_ids(&member.roles),
            user_id: member.id,
        };
        assert(cached.data() =~= cached_interaction(guild_id, *member).data());
        let mut changes: Vec<Change> = Vec::new();
        assert(changes_view(changes@) =~= Seq::<(int, Datum)>::empty());
        change(&mut changes, MEMBER_GUILD_ID, Field::Num(guild_id));
        change(&mut changes, MEMBER_JOINED_AT, field_opt_num(member.joined_at));
        change(&mut changes, MEMBER_NICK, field_opt_text(&member.nick));
        change(&mut changes, MEMBER_PENDING, Field::Flag(false));
        change(&mut changes, MEMBER_PREMIUM_SINCE, field_opt_num(member.premium_since));
        change(&mut changes, MEMBER_ROLES, field_ids(&member.roles));
        change(&mut changes, MEMBER_USER_ID, Field::Num(member.id));
        assert(changes_view(changes@) =~= interaction_changes(guild_id, *member));
        let mut then: Vec<Write> = Vec::new();
        then.push(
            Write::Add { index: Index::GuildMembers, owner: guild_id, member: Key::Id(member.id) },
        );
        let target = Target {
            table: Table::Members,
            arity: MEMBER_FIELDS,
            given: Vec::new(),
            changes,
        };
        assert(target@.given =~= Seq::empty());
        let step = Step::Revise {
            target,
            fallbacks: Vec::new(),
            key: id,
            otherwise: Some(crate::record::encode(&cached)),
            then,
        };
        assert(step@ == interaction_member_plan(guild_id, *member)[0]) by {
            assert(step@->Revise_fallbacks =~= Seq::empty());
            assert(step@->Revise_then =~= seq![
                WriteView::Add {
                    index: Index::GuildMembers,
                    owner: guild_id,
                    member: Key::Id(member.id),
                },
            ]);
        }
        let mut plan: Vec<Step> = Vec::new();
        plan.push(step);
        assert(steps_view(plan@) =~= interaction_member_plan(guild_id, *member));
        plan
    }
}

impl UpdateCache for MemberAdd {
    open spec fn plan(&self, wanted: Set<ResourceKind>) -> Seq<StepView> {
        if wanted.contains(ResourceKind::Member) {
            member_plan(self.guild_id, self.member).push(
                StepView::Write(
                    WriteView::Add {
                        index: Index::GuildMembers,
                        owner: self.guild_id,
                        member: Key::Id(self.member.user.id),
                    },
                ),
            )
        } else {
            Seq::empty()
        }
    }

    fn update(&self, cache: &InRedisCache) -> (r: Vec<Step>) {
        if !cache.wants(ResourceKind::Member) {
            return Vec::new();
        }
        let mut plan = cache.cache_member(self.guild_id, &self.member);
        let ghost head = steps_view(plan@);
        let step = Step::Write(
            Write::Add {
                index: Index::GuildMembers,
                owner: self.guild_id,
                member: Key::Id(self.member.user.id),
            },
        );
        plan.push(step);
        assert(steps_view(plan@) =~= head.push(step@));
        plan
    }
}

/// The users of a list of members, as members of a set.
pub open spec fn member_keys(members: Seq<Member>) -> Seq<Key> {
    members.map_values(|member: Member| Key::Id(member.user.id))
}

impl UpdateCache for MemberChunk {
    open spec fn plan(&self, wanted: Set<ResourceKind>) -> Seq<StepView> {
        if wanted.contains(ResourceKind::Member) && self.members@.len() > 0 {
            members_plan(self.guild_id, self.members@).push(
                StepView::Write(
                    WriteView::AddMany {
                        index: Index::GuildMembers,
                        owner: self.guild_id,
                        members: member_keys(self.members@),
                    },
                ),
            )
        } else {
            Seq::empty()
        }
    }

    fn update(&self, cache: &InRedisCache) -> (r: Vec<Step>) {
        if !cache.wants(ResourceKind::Member) {
            return Vec::new();
        }
        if self.members.len() == 0 {
            return Vec::new();
        }
        let mut plan = cache.cache_members(self.guild_id, &self.members);
        let ghost head = steps_view(plan@);
        let mut ids: Vec<Key> = Vec::new();
        let mut i: usize = 0;
        while i < self.members.len()
            invariant
                i <= self.members.len(),
                ids@ == member_keys(self.members@).subrange(0, i as int),
            decreases self.members.len() - i,
        {
            ids.push(Key::Id(self.members[i].user.id));
            i = i + 1;
            assert(ids@ =~= member_keys(self.members@).subrange(0, i as int));
        }
        assert(member_keys(self.members@).subrange(0, i as int) =~= member_keys(self.members@));
        let step = Step::Write(
            Write::AddMany { index: Index::GuildMembers, owner: self.guild_id, members: ids },
        );
        plan.push(step);
        assert(steps_view(plan@) =~= head.push(step@));
        plan
    }
}

impl UpdateCache for MemberRemove {
    open spec fn plan(&self, wanted: Set<ResourceKind>) -> Seq<StepView> {
        if wanted.contains(ResourceKind::Member) {
            member_remove_plan(self.guild_id, self.user.id)
        } else {
            Seq::empty()
        }
    }

    fn update(&self, cache: &InRedisCache) -> (r: Vec<Step>) {
        if !cache.wants(ResourceKind::Member) {
            return Vec::new();
        }
        let user_id = self.user.id;
        let mut plan = crate::event::retire(
            Table::Members,
            Index::GuildMembers,
            self.guild_id,
            user_id,
            true,
        );
        let ghost head = steps_view(plan@);
        let step = Step::Unlink {
            index: Index::UserGuilds,
            owner: user_id,
            member: Key::Id(self.guild_id),
            table: Table::Users,
            key: Key::Id(user_id),
        };
        plan.push(step);
        assert(steps_view(plan@) =~= head.push(step@));
        plan
    }
}

impl UpdateCache for MemberUpdate {
    open spec fn plan(&self, wanted: Set<ResourceKind>) -> Seq<StepView> {
        if wanted.contains(ResourceKind::Member) {
            patch_plan(
                Table::Members,
                MEMBER_FIELDS as nat,
                Key::Pair(self.guild_id, self.user.id),
                member_update_changes(*self),
            )
        } else {
            Seq::empty()
        }
    }

    fn update(&self, cache: &InRedisCache) -> (r: Vec<Step>) {
        if !cache.wants(ResourceKind::Member) {
            return Vec::new();
        }
        let mut changes: Vec<Change> = Vec::new();
        assert(changes_view(changes@) =~= Seq::<(int, Datum)>::empty());
        change_if(&mut changes, MEMBER_DEAF, flag_field(self.deaf));
        change_if(&mut changes, MEMBER_MUTE, flag_field(self.mute));
        change(&mut changes, MEMBER_NICK, field_opt_text(&self.nick));
        change(&mut changes, MEMBER_ROLES, field_ids(&self.roles));
        change(&mut changes, MEMBER_JOINED_AT, Field::Num(self.joined_at));
        change(&mut changes, MEMBER_PENDING, Field::Flag(self.pending));
        assert(changes_view(changes@) =~= member_update_changes(*self));
        patch(Table::Members, MEMBER_FIELDS, Key::Pair(self.guild_id, self.user.id), changes)
    }
}

} // verus!
