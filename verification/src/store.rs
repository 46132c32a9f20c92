use crate::error::CacheError;
use vstd::prelude::*;
use vstd::string::StringExecFns;

verus! {

/// The keyed maps of the record store, one for each kind of record.
#[derive(Clone, Copy, Debug, PartialEq, Eq, Structural)]
pub enum Table {
    ChannelsGuild,
    ChannelsPrivate,
    Emojis,
    Groups,
    Guilds,
    Integrations,
    Members,
    Messages,
    Presences,
    Roles,
    StageInstances,
    Stickers,
    Users,
    VoiceStates,
}

/// The families of sets of the index store. A set is named by its family and its owner.
#[derive(Clone, Copy, Debug, PartialEq, Eq, Structural)]
pub enum Index {
    ChannelMessages,
    GuildChannels,
    GuildEmojis,
    GuildIntegrations,
    GuildMembers,
    GuildPresences,
    GuildRoles,
    GuildStageInstances,
    GuildStickers,
    UnavailableGuilds,
    UserGuilds,
    VoiceStateChannels,
    VoiceStateGuilds,
}

/// The name of the hash that holds a table in the backing store.
pub open spec fn table_name(table: Table) -> Seq<char> {
    match table {
        Table::ChannelsGuild => "channels_guild"@,
        Table::ChannelsPrivate => "channels_private"@,
        Table::Emojis => "emojis"@,
        Table::Groups => "groups"@,
        Table::Guilds => "guilds"@,
        Table::Integrations => "integrations"@,
        Table::Members => "members"@,
        Table::Messages => "messages"@,
        Table::Presences => "presences"@,
        Table::Roles => "roles"@,
        Table::StageInstances => "stage_instances"@,
        Table::Stickers => "stickers"@,
        Table::Users => "users"@,
        Table::VoiceStates => "voice_states"@,
    }
}

/// The prefix of the names of the sets of a family in the backing store.
pub open spec fn index_prefix(index: Index) -> Seq<char> {
    match index {
        Index::ChannelMessages => "channel_messages"@,
        Index::GuildChannels => "guild_channels"@,
        Index::GuildEmojis => "guild_emojis"@,
        Index::GuildIntegrations => "guild_integrations"@,
        Index::GuildMembers => "guild_members"@,
        Index::GuildPresences => "guild_presences"@,
        Index::GuildRoles => "guild_roles"@,
        Index::GuildStageInstances => "guild_stage_instances"@,
        Index::GuildStickers => "guild_stickers"@,
        Index::UnavailableGuilds => "unavailable_guilds"@,
        Index::UserGuilds => "user_guilds"@,
        Index::VoiceStateChannels => "voice_state_channels"@,
        Index::VoiceStateGuilds => "voice_state_guilds"@,
    }
}

impl Table {
    /// The name of the hash that holds this table in the backing store.
    pub fn name(&self) -> (r: &'static str)
        ensures
            r@ == table_name(*self),
    {
        match self {
            Table::ChannelsGuild => "channels_guild",
            Table::ChannelsPrivate => "channels_private",
            Table::Emojis => "emojis",
            Table::Groups => "groups",
            Table::Guilds => "guilds",
            Table::Integrations => "integrations",
            Table::Members => "members",
            Table::Messages => "messages",
            Table::Presences => "presences",
            Table::Roles => "roles",
            Table::StageInstances => "stage_instances",
            Table::Stickers => "stickers",
            Table::Users => "users",
            Table::VoiceStates => "voice_states",
        }
    }
}

impl Index {
    /// The prefix of the names of the sets of this family in the backing store.
    pub fn prefix(&self) -> (r: &'static str)
        ensures
            r@ == index_prefix(*self),
    {
        match self {
            Index::ChannelMessages => "channel_messages",
            Index::GuildChannels => "guild_channels",
            Index::GuildEmojis => "guild_emojis",
            Index::GuildIntegrations => "guild_integrations",
            Index::GuildMembers => "guild_members",
            Index::GuildPresences => "guild_presences",
            Index::GuildRoles => "guild_roles",
            Index::GuildStageInstances => "guild_stage_instances",
            Index::GuildStickers => "guild_stickers",
            Index::UnavailableGuilds => "unavailable_guilds",
            Index::UserGuilds => "user_guilds",
            Index::VoiceStateChannels => "voice_state_channels",
            Index::VoiceStateGuilds => "voice_state_guilds",
        }
    }
}

/// The character of a decimal digit.
pub open spec fn digit_char(digit: u64) -> char {
    if digit == 0 {
        '0'
    } else if digit == 1 {
        '1'
    } else if digit == 2 {
        '2'
    } else if digit == 3 {
        '3'
    } else if digit == 4 {
        '4'
    } else if digit == 5 {
        '5'
    } else if digit == 6 {
        '6'
    } else if digit == 7 {
        '7'
    } else if digit == 8 {
        '8'
    } else {
        '9'
    }
}

/// A number in decimal digits, without leading zeros.
pub open spec fn decimal(n: u64) -> Seq<char>
    decreases n,
{
    if n < 10 {
        seq![digit_char(n)]
    } else {
        decimal(n / 10).push(digit_char(n % 10))
    }
}

/// The name of the set of `owner` in a family, in the backing store: the family's prefix, a
/// hyphen, and the owner in decimal digits. The family of unavailable guilds has one set,
/// which is named by the prefix twice.
pub open spec fn set_name(index: Index, owner: u64) -> Seq<char> {
    index_prefix(index) + seq!['-'] + if index == Index::UnavailableGuilds {
        index_prefix(index)
    } else {
        decimal(owner)
    }
}

fn digit_str(digit: u64) -> (r: &'static str)
    requires
        digit < 10,
    ensures
        r@ == seq![digit_char(digit)],
{
    proof {
        reveal_strlit("0");
        reveal_strlit("1");
        reveal_strlit("2");
        reveal_strlit("3");
        reveal_strlit("4");
        reveal_strlit("5");
        reveal_strlit("6");
        reveal_strlit("7");
        reveal_strlit("8");
        reveal_strlit("9");
    }
    let r = if digit == 0 {
        "0"
    } else if digit == 1 {
        "1"
    } else if digit == 2 {
        "2"
    } else if digit == 3 {
        "3"
    } else if digit == 4 {
        "4"
    } else if digit == 5 {
        "5"
    } else if digit == 6 {
        "6"
    } else if digit == 7 {
        "7"
    } else if digit == 8 {
        "8"
    } else {
        "9"
    };
    assert(r@ =~= seq![digit_char(digit)]);
    r
}

fn push_decimal(out: &mut String, n: u64)
    ensures
        final(out)@ == old(out)@ + decimal(n),
    decreases n,
{
    if n >= 10 {
        push_decimal(out, n / 10);
    }
    out.append(digit_str(n % 10));
    assert(out@ =~= old(out)@ + decimal(n));
}

impl Index {
    /// The name of the set of `owner` in this family, in the backing store.
    pub fn set_name(&self, owner: u64) -> (r: String)
        ensures
            r@ == set_name(*self, owner),
    {
        let mut out = String::from_str(self.prefix());
        proof {
            reveal_strlit("-");
        }
        out.append("-");
        assert("-"@ =~= seq!['-']);
        match self {
            Index::UnavailableGuilds => {
                out.append(self.prefix());
            },
            _ => {
                push_decimal(&mut out, owner);
            },
        }
        assert(out@ =~= set_name(*self, owner));
        out
    }
}

/// The owner under which a family that is not divided by owner keeps its one set.
pub const UNSCOPED: u64 = 0;

/// A record's key, or a member of an index set: one identifier, or a parent's and a child's.
#[derive(Clone, Copy, Debug, PartialEq, Eq, Structural)]
pub enum Key {
    Id(u64),
    Pair(u64, u64),
}

/// The key under which the record of `member` stands, where `member` was read from a set of
/// `owner`: for a table keyed by parent and child the pair of both, else the member itself.
pub open spec fn child_key(owner: u64, member: Key, composite: bool) -> Key {
    match member {
        Key::Id(id) => if composite {
            Key::Pair(owner, id)
        } else {
            member
        },
        Key::Pair(_, _) => member,
    }
}

/// The contents of the store: what each key of each table holds, and which members each set has.
pub struct Store {
    pub records: Map<(Table, Key), Seq<u8>>,
    pub links: Set<(Index, u64, Key)>,
}

impl Store {
    /// The store that holds nothing.
    pub open spec fn empty() -> Store {
        Store { records: Map::empty(), links: Set::empty() }
    }

    /// The record under `key` in `table`, if there is one.
    pub open spec fn record(self, table: Table, key: Key) -> Option<Seq<u8>> {
        if self.records.dom().contains((table, key)) {
            Some(self.records[(table, key)])
        } else {
            None
        }
    }

    /// The members of the set of `owner` in the family `index`.
    pub open spec fn members(self, index: Index, owner: u64) -> Set<Key> {
        Set::new(|member: Key| self.links.contains((index, owner, member)))
    }

    /// The keys of `table` that hold a record.
    pub open spec fn keys(self, table: Table) -> Set<Key> {
        Set::new(|key: Key| self.records.dom().contains((table, key)))
    }
}

/// One entry of a batch of records.
#[derive(Clone, Debug, PartialEq, Eq)]
pub struct Entry {
    pub key: Key,
    pub value: Vec<u8>,
}

impl View for Entry {
    type V = (Key, Seq<u8>);

    open spec fn view(&self) -> (Key, Seq<u8>) {
        (self.key, self.value@)
    }
}

/// The views of a batch of entries, in order.
pub open spec fn entries_view(entries: Seq<Entry>) -> Seq<(Key, Seq<u8>)> {
    entries.map_values(|e: Entry| e@)
}

/// A command that changes the store.
#[derive(Clone, Debug, PartialEq, Eq)]
pub enum Write {
    /// Set the record under `key`, whether or not there was one.
    Put { table: Table, key: Key, value: Vec<u8> },
    /// Set several records of one table; of two entries with one key the later stays.
    PutMany { table: Table, entries: Vec<Entry> },
    /// Remove the record under `key`.
    Delete { table: Table, key: Key },
    /// Put `member` into a set.
    Add { index: Index, owner: u64, member: Key },
    /// Put several members into a set.
    AddMany { index: Index, owner: u64, members: Vec<Key> },
    /// Take `member` out of a set.
    Remove { index: Index, owner: u64, member: Key },
    /// Remove a whole set.
    Clear { index: Index, owner: u64 },
}

/// What a change says, as values.
pub enum WriteView {
    Put { table: Table, key: Key, value: Seq<u8> },
    PutMany { table: Table, entries: Seq<(Key, Seq<u8>)> },
    Delete { table: Table, key: Key },
    Add { index: Index, owner: u64, member: Key },
    AddMany { index: Index, owner: u64, members: Seq<Key> },
    Remove { index: Index, owner: u64, member: Key },
    Clear { index: Index, owner: u64 },
}

impl View for Write {
    type V = WriteView;

    open spec fn view(&self) -> WriteView {
        match *self {
            Write::Put { table, key, value } => WriteView::Put { table, key, value: value@ },
            Write::PutMany { table, entries } => WriteView::PutMany {
                table,
                entries: entries_view(entries@),
            },
            Write::Delete { table, key } => WriteView::Delete { table, key },
            Write::Add { index, owner, member } => WriteView::Add { index, owner, member },
            Write::AddMany { index, owner, members } => WriteView::AddMany {
                index,
                owner,
                members: members@,
            },
            Write::Remove { index, owner, member } => WriteView::Remove { index, owner, member },
            Write::Clear { index, owner } => WriteView::Clear { index, owner },
        }
    }
}

/// The records after each entry of a batch was put, in order.
pub open spec fn put_all(
    records: Map<(Table, Key), Seq<u8>>,
    table: Table,
    entries: Seq<(Key, Seq<u8>)>,
) -> Map<(Table, Key), Seq<u8>>
    decreases entries.len(),
{
    if entries.len() == 0 {
        records
    } else {
        put_all(records, table, entries.drop_last()).insert(
            (table, entries.last().0),
            entries.last().1,
        )
    }
}

/// The links after each member of a batch was added to one set.
pub open spec fn add_all(links: Set<(Index, u64, Key)>, index: Index, owner: u64, members: Seq<Key>) -> Set<
    (Index, u64, Key),
> {
    Set::new(
        |link: (Index, u64, Key)|
            links.contains(link) || (link.0 == index && link.1 == owner && members.contains(
                link.2,
            )),
    )
}

/// The links without those of one set.
pub open spec fn clear_set(links: Set<(Index, u64, Key)>, index: Index, owner: u64) -> Set<
    (Index, u64, Key),
> {
    Set::new(|link: (Index, u64, Key)| links.contains(link) && !(link.0 == index && link.1 == owner))
}

impl WriteView {
    /// The store after this command.
    pub open spec fn apply(self, store: Store) -> Store {
        match self {
            WriteView::Put { table, key, value } => Store {
                records: store.records.insert((table, key), value),
                ..store
            },
            WriteView::PutMany { table, entries } => Store {
                records: put_all(store.records, table, entries),
                ..store
            },
            WriteView::Delete { table, key } => Store {
                records: store.records.remove((table, key)),
                ..store
            },
            WriteView::Add { index, owner, member } => Store {
                links: store.links.insert((index, owner, member)),
                ..store
            },
            WriteView::AddMany { index, owner, members } => Store {
                links: add_all(store.links, index, owner, members),
                ..store
            },
            WriteView::Remove { index, owner, member } => Store {
                links: store.links.remove((index, owner, member)),
                ..store
            },
            WriteView::Clear { index, owner } => Store {
                links: clear_set(store.links, index, owner),
                ..store
            },
        }
    }

    /// What the store reports of this command: whether the record, the member or the set that a
    /// removal names was there; `true` for a command that only adds.
    pub open spec fn found(self, store: Store) -> bool {
        match self {
            WriteView::Delete { table, key } => store.records.dom().contains((table, key)),
            WriteView::Remove { index, owner, member } => store.links.contains(
                (index, owner, member),
            ),
            WriteView::Clear { index, owner } => exists|member: Key|
                store.links.contains((index, owner, member)),
            _ => true,
        }
    }
}

/// The store after a sequence of commands, applied in order.
pub open spec fn apply_all(writes: Seq<WriteView>, store: Store) -> Store
    decreases writes.len(),
{
    if writes.len() == 0 {
        store
    } else {
        apply_all(writes.drop_first(), writes.first().apply(store))
    }
}

/// A command for the store: a change, or one of the two reads that a handler makes.
#[derive(Clone, Debug, PartialEq, Eq)]
pub enum Request {
    Write(Write),
    /// Read the record under `key`.
    Get { table: Table, key: Key },
    /// Read the members of a set.
    Members { index: Index, owner: u64 },
}

/// What a request says, as values.
pub enum RequestView {
    Write(WriteView),
    Get { table: Table, key: Key },
    Members { index: Index, owner: u64 },
}

impl View for Request {
    type V = RequestView;

    open spec fn view(&self) -> RequestView {
        match *self {
            Request::Write(write) => RequestView::Write(write@),
            Request::Get { table, key } => RequestView::Get { table, key },
            Request::Members { index, owner } => RequestView::Members { index, owner },
        }
    }
}

/// What the store answered to a request.
#[derive(Clone, Debug, PartialEq, Eq)]
pub enum Reply {
    /// A change was made; the flag is what the store reports of it.
    Done(bool),
    /// The record that was read, or that there is none.
    Record(Option<Vec<u8>>),
    /// The members that were read, each once, in no particular order.
    Members(Vec<Key>),
    /// The store did not carry the request out.
    Failed(CacheError),
}

/// What an answer says, as values.
pub enum ReplyView {
    Done(bool),
    Record(Option<Seq<u8>>),
    Members(Seq<Key>),
    Failed(CacheError),
}

impl View for Reply {
    type V = ReplyView;

    open spec fn view(&self) -> ReplyView {
        match *self {
            Reply::Done(found) => ReplyView::Done(found),
            Reply::Record(record) => ReplyView::Record(
                match record {
                    Some(bytes) => Some(bytes@),
                    None => None,
                },
            ),
            Reply::Members(members) => ReplyView::Members(members@),
            Reply::Failed(error) => ReplyView::Failed(error),
        }
    }
}

/// The store contract: `reply` and `after` are what a store in the state `before` gives for
/// `request`. A failure is no answer.
pub open spec fn answers(before: Store, request: RequestView, reply: ReplyView, after: Store) -> bool {
    match request {
        RequestView::Write(write) => after == write.apply(before) && reply == ReplyView::Done(
            write.found(before),
        ),
        RequestView::Get { table, key } => after == before && reply == ReplyView::Record(
            before.record(table, key),
        ),
        RequestView::Members { index, owner } => after == before && (match reply {
            ReplyView::Members(members) => members.no_duplicates() && members.to_set()
                == before.members(index, owner),
            _ => false,
        }),
    }
}

} // verus!
