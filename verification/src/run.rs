use crate::bytes::{copy_bytes, same_bytes};
use crate::codec::{data_of, Datum, decode_fields, encode_fields, Field};
use crate::effects::{
    as_steps, deletes, lemma_apply_push, lemma_effort_concat, lemma_effort_suffix, lemma_run_first,
    lemma_run_only_writes, lemma_run_writes, lemma_sweep,
};
use crate::error::CacheError;
use crate::memory::MemoryStore;
use crate::plan::{
    Change, changed, changes_view, count, effort, holds, lone, readable, remaining, revision, run,
    Step, steps_view, StepView, Target, targets_view, writes_view,
};
use crate::record::copy_ids;
use crate::store::{
    answers, apply_all, child_key, entries_view, Entry, Index, Key, Reply, ReplyView, Request,
    RequestView, Store, Table, Write, WriteView,
};
use std::collections::VecDeque;
use vstd::prelude::*;

verus! {

fn copy_keys(keys: &Vec<Key>) -> (r: Vec<Key>)
    ensures
        r@ == keys@,
{
    let mut out: Vec<Key> = Vec::new();
    let mut i: usize = 0;
    while i < keys.len()
        invariant
            i <= keys.len(),
            out@ == keys@.subrange(0, i as int),
        decreases keys.len() - i,
    {
        out.push(keys[i]);
        i = i + 1;
        assert(out@ =~= keys@.subrange(0, i as int));
    }
    assert(keys@.subrange(0, i as int) =~= keys@);
    out
}

fn copy_entries(entries: &Vec<Entry>) -> (r: Vec<Entry>)
    ensures
        entries_view(r@) == entries_view(entries@),
{
    let mut out: Vec<Entry> = Vec::new();
    let mut i: usize = 0;
    while i < entries.len()
        invariant
            i <= entries.len(),
            entries_view(out@) == entries_view(entries@).subrange(0, i as int),
        decreases entries.len() - i,
    {
        let entry = Entry { key: entries[i].key, value: copy_bytes(entries[i].value.as_slice()) };
        let ghost prior = entries_view(out@);
        let ghost added = entry@;
        assert(added == entries_view(entries@)[i as int]);
        out.push(entry);
        assert(entries_view(out@) =~= prior.push(added));
        i = i + 1;
        assert(entries_view(out@) =~= entries_view(entries@).subrange(0, i as int));
    }
    assert(entries_view(entries@).subrange(0, i as int) =~= entries_view(entries@));
    out
}

fn copy_write(write: &Write) -> (r: Write)
    ensures
        r@ == write@,
{
    match write {
        Write::Put { table, key, value } => Write::Put {
            table: *table,
            key: *key,
            value: copy_bytes(value.as_slice()),
        },
        Write::PutMany { table, entries } => Write::PutMany {
            table: *table,
            entries: copy_entries(entries),
        },
        Write::Delete { table, key } => Write::Delete { table: *table, key: *key },
        Write::Add { index, owner, member } => Write::Add {
            index: *index,
            owner: *owner,
            member: *member,
        },
        Write::AddMany { index, owner, members } => Write::AddMany {
            index: *index,
            owner: *owner,
            members: copy_keys(members),
        },
        Write::Remove { index, owner, member } => Write::Remove {
            index: *index,
            owner: *owner,
            member: *member,
        },
        Write::Clear { index, owner } => Write::Clear { index: *index, owner: *owner },
    }
}

fn copy_field(field: &Field) -> (r: Field)
    ensures
        r@ == field@,
{
    match field {
        Field::Nil => Field::Nil,
        Field::Num(v) => Field::Num(*v),
        Field::Flag(b) => Field::Flag(*b),
        Field::Text(t) => Field::Text(t.clone()),
        Field::Blob(b) => Field::Blob(copy_bytes(b.as_slice())),
        Field::Ids(ids) => Field::Ids(copy_ids(ids)),
    }
}

fn same_ids(a: &Vec<u64>, b: &Vec<u64>) -> (r: bool)
    ensures
        r == (a@ == b@),
{
    if a.len() != b.len() {
        return false;
    }
    let mut i: usize = 0;
    while i < a.len()
        invariant
            i <= a.len(),
            a.len() == b.len(),
            forall|j: int| 0 <= j < i ==> a@[j] == b@[j],
        decreases a.len() - i,
    {
        if a[i] != b[i] {
            return false;
        }
        i = i + 1;
    }
    assert(a@ =~= b@);
    true
}

/// Whether two fields hold the same.
fn same_field(a: &Field, b: &Field) -> (r: bool)
    ensures
        r == (a@ == b@),
{
    match (a, b) {
        (Field::Nil, Field::Nil) => true,
        (Field::Num(x), Field::Num(y)) => *x == *y,
        (Field::Flag(x), Field::Flag(y)) => *x == *y,
        (Field::Text(x), Field::Text(y)) => *x == *y,
        (Field::Blob(x), Field::Blob(y)) => same_bytes(x.as_slice(), y.as_slice()),
        (Field::Ids(x), Field::Ids(y)) => same_ids(x, y),
        _ => false,
    }
}

/// The request that a step makes first.
pub fn request_of(step: &Step) -> (r: Request)
    ensures
        r@ == step@.request(),
{
    match step {
        Step::Write(write) => Request::Write(copy_write(write)),
        Step::Retire { table, key, .. } => Request::Write(
            Write::Delete { table: *table, key: *key },
        ),
        Step::Sweep { index, owner, .. } => Request::Members { index: *index, owner: *owner },
        Step::Revise { target, key, .. } => Request::Get { table: target.table, key: *key },
        Step::Guard { table, key, .. } => Request::Get { table: *table, key: *key },
        Step::Unlink { index, owner, .. } => Request::Members { index: *index, owner: *owner },
    }
}

/// How many changes a request makes.
pub open spec fn spent(request: RequestView) -> nat {
    if request is Write {
        1
    } else {
        0
    }
}

/// On every store that gives `reply` to the request of `step`, carrying out `follow` and
/// leaving out `skip` steps is what `step` comes to.
pub open spec fn replaces(
    step: StepView,
    reply: ReplyView,
    follow: Seq<StepView>,
    skip: nat,
) -> bool {
    forall|s: Store, t: Store| #[trigger]
        answers(s, step.request(), reply, t) ==> {
            &&& step.skips(s) == skip
            &&& run(follow, t) == step.after(s)
            &&& count(follow, t) + spent(step.request()) == step.tally(s)
        }
}

/// Whether an answer is of the sort that the request of a step asks for: a report for a
/// change, a record for a read of a record, members for a read of a set. A failure never is.
pub open spec fn fits(step: StepView, reply: ReplyView) -> bool {
    match step.request() {
        RequestView::Write(_) => reply is Done,
        RequestView::Get { .. } => reply is Record,
        RequestView::Members { .. } => reply is Members,
    }
}

/// The failure that ends a plan on an answer that does not fit: the store's own where it
/// reported one, else that the store did not do what was asked.
pub open spec fn failure_of(reply: ReplyView) -> CacheError {
    match reply {
        ReplyView::Failed(error) => error,
        _ => CacheError::StoreOperationFailed,
    }
}

/// No store gives `reply` to the request of `step`.
pub open spec fn refuses(step: StepView, reply: ReplyView) -> bool {
    forall|s: Store, t: Store| !#[trigger] answers(s, step.request(), reply, t)
}

/// On every store that gives `reply` to the first request of `before`, going on with `after`
/// ends where `before` ends, with as many changes.
pub open spec fn carries(before: Seq<StepView>, reply: ReplyView, after: Seq<StepView>) -> bool {
    forall|s: Store, t: Store| #[trigger]
        answers(s, before.first().request(), reply, t) ==> {
            &&& run(after, t) == run(before, s)
            &&& count(after, t) + spent(before.first().request()) == count(before, s)
        }
}

/// The bytes of a record that was read, or that there was none.
pub open spec fn stored_view(record: Option<Vec<u8>>) -> Option<Seq<u8>> {
    match record {
        Some(bytes) => Some(bytes@),
        None => None,
    }
}

/// What follows a step once the store has answered.
enum Outcome {
    /// The answer is none that the store contract allows: the plan is given up.
    Abandon,
    /// These changes are made next.
    Follow(Vec<Write>),
    /// This step is made next.
    Retry(Step),
    /// This many of the steps that follow are left out.
    Skip(usize),
}

fn resolve(owner: u64, member: Key, composite: bool) -> (r: Key)
    ensures
        r == child_key(owner, member, composite),
{
    match member {
        Key::Id(id) => if composite {
            Key::Pair(owner, id)
        } else {
            member
        },
        Key::Pair(_, _) => member,
    }
}

fn sweep_writes(members: &Vec<Key>, index: Index, owner: u64, table: Table, composite: bool) -> (r:
    Vec<Write>)
    ensures
        writes_view(r@) == deletes(members@, owner, table, composite).push(
            WriteView::Clear { index, owner },
        ),
{
    let mut out: Vec<Write> = Vec::new();
    let mut i: usize = 0;
    while i < members.len()
        invariant
            i <= members.len(),
            writes_view(out@) == deletes(members@.subrange(0, i as int), owner, table, composite),
        decreases members.len() - i,
    {
        let ghost prior = writes_view(out@);
        let write = Write::Delete { table, key: resolve(owner, members[i], composite) };
        let ghost added = write@;
        out.push(write);
        assert(writes_view(out@) =~= prior.push(added));
        i = i + 1;
        assert(deletes(members@.subrange(0, i as int), owner, table, composite) =~= deletes(
            members@.subrange(0, i - 1),
            owner,
            table,
            composite,
        ).push(added));
        assert(writes_view(out@) =~= deletes(
            members@.subrange(0, i as int),
            owner,
            table,
            composite,
        ));
    }
    assert(members@.subrange(0, i as int) =~= members@);
    out.push(Write::Clear { index, owner });
    assert(writes_view(out@) =~= deletes(members@, owner, table, composite).push(
        WriteView::Clear { index, owner },
    ));
    out
}

fn check_given(fields: &Vec<Field>, given: &Vec<Change>) -> (r: bool)
    ensures
        r == holds(data_of(fields@), changes_view(given@)),
{
    let mut i: usize = 0;
    let ghost data = data_of(fields@);
    let ghost wanted = changes_view(given@);
    while i < given.len()
        invariant
            i <= given.len(),
            data == data_of(fields@),
            wanted == changes_view(given@),
            forall|j: int|
                0 <= j < i ==> 0 <= (#[trigger] wanted[j]).0 < data.len() && data[wanted[j].0]
                    == wanted[j].1,
        decreases given.len() - i,
    {
        if given[i].at >= fields.len() {
            assert(!(wanted[i as int].0 < data.len()));
            return false;
        }
        if !same_field(&fields[given[i].at], &given[i].to) {
            assert(data[wanted[i as int].0] != wanted[i as int].1);
            return false;
        }
        i = i + 1;
    }
    true
}

fn apply_changes(fields: &mut Vec<Field>, changes: &Vec<Change>)
    ensures
        data_of(final(fields)@) == changed(data_of(old(fields)@), changes_view(changes@)),
{
    let mut i: usize = 0;
    let ghost wanted = changes_view(changes@);
    let ghost start = data_of(fields@);
    assert(wanted.subrange(0, 0) =~= Seq::<(int, Datum)>::empty());
    while i < changes.len()
        invariant
            i <= changes.len(),
            wanted == changes_view(changes@),
            data_of(fields@) == changed(start, wanted.subrange(0, i as int)),
        decreases changes.len() - i,
    {
        let ghost before = data_of(fields@);
        if changes[i].at < fields.len() {
            fields.set(changes[i].at, copy_field(&changes[i].to));
            assert(data_of(fields@) =~= before.update(wanted[i as int].0, wanted[i as int].1));
        }
        proof {
            let upto = wanted.subrange(0, i + 1);
            assert(upto.drop_last() =~= wanted.subrange(0, i as int));
            assert(upto.last() == wanted[i as int]);
        }
        i = i + 1;
    }
    assert(wanted.subrange(0, i as int) =~= wanted);
}

/// The changes of a revision that writes `value` to `table`.
fn put_then(table: Table, key: Key, value: Vec<u8>, then: Vec<Write>) -> (r: Vec<Write>)
    ensures
        writes_view(r@) == seq![WriteView::Put { table, key, value: value@ }] + writes_view(then@),
{
    let mut follow: Vec<Write> = Vec::new();
    let mut then = then;
    let ghost tail = then@;
    follow.push(Write::Put { table, key, value });
    follow.append(&mut then);
    assert(writes_view(follow@) =~= seq![WriteView::Put { table, key, value: value@ }]
        + writes_view(tail));
    follow
}

proof fn lemma_put_then(table: Table, key: Key, value: Seq<u8>, then: Seq<WriteView>, store: Store)
    ensures
        apply_all(seq![WriteView::Put { table, key, value }] + then, store) == apply_all(
            then,
            (WriteView::Put { table, key, value }).apply(store),
        ),
{
    let all = seq![WriteView::Put { table, key, value }] + then;
    assert(all.drop_first() =~= then);
}

fn react_revise(
    target: Target,
    fallbacks: Vec<Target>,
    key: Key,
    otherwise: Option<Vec<u8>>,
    then: Vec<Write>,
    record: Option<Vec<u8>>,
) -> (r: Outcome)
    ensures
        ({
            let step = (Step::Revise { target, fallbacks, key, otherwise, then })@;
            let reply = Reply::Record(record)@;
            match r {
                Outcome::Follow(writes) => replaces(step, reply, as_steps(writes_view(writes@)), 0),
                Outcome::Retry(next) => next@ is Revise && next@.effort() < step.effort()
                    && replaces(step, reply, seq![next@], 0),
                _ => false,
            }
        }),
{
    let ghost step = (Step::Revise { target, fallbacks, key, otherwise, then })@;
    let ghost reply = Reply::Record(record)@;
    let table = target.table;
    let arity = target.arity;
    let ghost stored: Option<Seq<u8>> = stored_view(record);
    let ghost first_try = readable(stored, arity as nat);
    let mut found: Option<Vec<Field>> = None;
    match &record {
        Some(bytes) => {
            match decode_fields(bytes.as_slice()) {
                Some(fields) => {
                    if fields.len() == arity {
                        found = Some(fields);
                    }
                },
                None => {},
            }
        },
        None => {},
    }
    assert(match found {
        Some(fields) => first_try == Some(data_of(fields@)),
        None => first_try.is_none(),
    });
    match found {
        Some(fields) => {
            let mut fields = fields;
            let ghost data = data_of(fields@);
            let bytes = record.unwrap();
            if check_given(&fields, &target.given) {
                apply_changes(&mut fields, &target.changes);
                let new = encode_fields(&fields);
                if !same_bytes(new.as_slice(), bytes.as_slice()) {
                    let ghost value = new@;
                    let ghost tail = writes_view(then@);
                    let follow = put_then(table, key, new, then);
                    proof {
                        assert forall|s: Store, t: Store| #[trigger]
                            answers(s, step.request(), reply, t) implies {
                            &&& step.skips(s) == 0
                            &&& run(as_steps(writes_view(follow@)), t) == step.after(s)
                            &&& count(as_steps(writes_view(follow@)), t) + spent(step.request())
                                == step.tally(s)
                        } by {
                            lemma_run_only_writes(writes_view(follow@), t);
                            lemma_put_then(table, key, value, tail, s);
                        }
                    }
                    return Outcome::Follow(follow);
                }
            }
            let follow: Vec<Write> = Vec::new();
            proof {
                assert forall|s: Store, t: Store| #[trigger]
                    answers(s, step.request(), reply, t) implies {
                    &&& step.skips(s) == 0
                    &&& run(as_steps(writes_view(follow@)), t) == step.after(s)
                    &&& count(as_steps(writes_view(follow@)), t) + spent(step.request())
                        == step.tally(s)
                } by {
                    lemma_run_only_writes(writes_view(follow@), t);
                }
            }
            Outcome::Follow(follow)
        },
        None => {
            let mut fallbacks = fallbacks;
            if fallbacks.len() > 0 {
                let ghost all = fallbacks@;
                let next_target = fallbacks.remove(0);
                assert(targets_view(fallbacks@) =~= targets_view(all).drop_first());
                assert(next_target@ == targets_view(all).first());
                let next = Step::Revise { target: next_target, fallbacks, key, otherwise, then };
                proof {
                    assert forall|s: Store, t: Store| #[trigger]
                        answers(s, step.request(), reply, t) implies {
                        &&& step.skips(s) == 0
                        &&& run(seq![next@], t) == step.after(s)
                        &&& count(seq![next@], t) + spent(step.request()) == step.tally(s)
                    } by {
                        lemma_run_first(next@, Seq::empty(), t);
                        assert(seq![next@] + Seq::<StepView>::empty() =~= seq![next@]);
                    }
                }
                return Outcome::Retry(next);
            }
            match otherwise {
                Some(bytes) => {
                    let ghost value = bytes@;
                    let ghost tail = writes_view(then@);
                    let follow = put_then(table, key, bytes, then);
                    proof {
                        assert forall|s: Store, t: Store| #[trigger]
                            answers(s, step.request(), reply, t) implies {
                            &&& step.skips(s) == 0
                            &&& run(as_steps(writes_view(follow@)), t) == step.after(s)
                            &&& count(as_steps(writes_view(follow@)), t) + spent(step.request())
                                == step.tally(s)
                        } by {
                            lemma_run_only_writes(writes_view(follow@), t);
                            lemma_put_then(table, key, value, tail, s);
                        }
                    }
                    Outcome::Follow(follow)
                },
                None => {
                    let follow: Vec<Write> = Vec::new();
                    proof {
                        assert forall|s: Store, t: Store| #[trigger]
                            answers(s, step.request(), reply, t) implies {
                            &&& step.skips(s) == 0
                            &&& run(as_steps(writes_view(follow@)), t) == step.after(s)
                            &&& count(as_steps(writes_view(follow@)), t) + spent(step.request())
                                == step.tally(s)
                        } by {
                            lemma_run_only_writes(writes_view(follow@), t);
                        }
                    }
                    Outcome::Follow(follow)
                },
            }
        },
    }
}

fn all_are(members: &Vec<Key>, member: Key) -> (r: bool)
    ensures
        r == (forall|i: int| 0 <= i < members.len() ==> members@[i] == member),
{
    let mut i: usize = 0;
    while i < members.len()
        invariant
            i <= members.len(),
            forall|j: int| 0 <= j < i ==> members@[j] == member,
        decreases members.len() - i,
    {
        if members[i] != member {
            return false;
        }
        i = i + 1;
    }
    true
}

fn react_unlink(
    index: Index,
    owner: u64,
    member: Key,
    table: Table,
    key: Key,
    members: Vec<Key>,
) -> (r: Vec<Write>)
    ensures
        replaces(
            StepView::Unlink { index, owner, member, table, key },
            ReplyView::Members(members@),
            as_steps(writes_view(r@)),
            0,
        ),
{
    let ghost step = StepView::Unlink { index, owner, member, table, key };
    let ghost reply = ReplyView::Members(members@);
    let alone = all_are(&members, member);
    let mut follow: Vec<Write> = Vec::new();
    if alone {
        follow.push(Write::Delete { table, key });
        follow.push(Write::Clear { index, owner });
    } else {
        follow.push(Write::Remove { index, owner, member });
    }
    proof {
        let writes = writes_view(follow@);
        assert forall|s: Store, t: Store| #[trigger]
            answers(s, step.request(), reply, t) implies {
            &&& step.skips(s) == 0
            &&& run(as_steps(writes), t) == step.after(s)
            &&& count(as_steps(writes), t) + spent(step.request()) == step.tally(s)
        } by {
            lemma_run_only_writes(writes, t);
            assert(lone(s, index, owner, member) == alone) by {
                if alone {
                    assert forall|other: Key|
                        s.links.contains((index, owner, other)) implies other == member by {
                        assert(s.members(index, owner).contains(other));
                        assert(members@.to_set().contains(other));
                        let i = choose|i: int| 0 <= i < members.len() && members@[i] == other;
                    }
                } else {
                    let i = choose|i: int| 0 <= i < members.len() && members@[i] != member;
                    assert(members@.to_set().contains(members@[i]));
                    assert(s.members(index, owner).contains(members@[i]));
                    assert(s.links.contains((index, owner, members@[i])));
                }
            }
            if alone {
                assert(writes =~= seq![WriteView::Delete { table, key }].push(
                    WriteView::Clear { index, owner },
                ));
                lemma_apply_push(
                    seq![WriteView::Delete { table, key }],
                    WriteView::Clear { index, owner },
                    t,
                );
                lemma_apply_push(Seq::empty(), WriteView::Delete { table, key }, t);
                assert(Seq::<WriteView>::empty().push(WriteView::Delete { table, key })
                    =~= seq![WriteView::Delete { table, key }]);
            } else {
                assert(writes =~= Seq::<WriteView>::empty().push(
                    WriteView::Remove { index, owner, member },
                ));
                lemma_apply_push(Seq::empty(), WriteView::Remove { index, owner, member }, t);
            }
        }
    }
    follow
}

/// What follows `step` once the store has given `reply`.
fn react(step: Step, reply: Reply) -> (r: Outcome)
    ensures
        match r {
            Outcome::Abandon => refuses(step@, reply@),
            Outcome::Follow(writes) => replaces(
                step@,
                reply@,
                as_steps(writes_view(writes@)),
                0,
            ) && (step@ is Write ==> writes@.len() == 0),
            Outcome::Retry(next) => next@ is Revise && next@.effort() < step@.effort() && replaces(
                step@,
                reply@,
                seq![next@],
                0,
            ),
            Outcome::Skip(skip) => step@ is Guard && replaces(
                step@,
                reply@,
                Seq::empty(),
                skip as nat,
            ),
        },
        r is Abandon <==> !fits(step@, reply@),
{
    let ghost plan = step@;
    let ghost answer = reply@;
    match step {
        Step::Write(write) => match reply {
            Reply::Done(_) => {
                let follow: Vec<Write> = Vec::new();
                proof {
                    assert forall|s: Store, t: Store| #[trigger]
                        answers(s, plan.request(), answer, t) implies {
                        &&& plan.skips(s) == 0
                        &&& run(as_steps(writes_view(follow@)), t) == plan.after(s)
                        &&& count(as_steps(writes_view(follow@)), t) + spent(plan.request())
                            == plan.tally(s)
                    } by {
                        lemma_run_only_writes(writes_view(follow@), t);
                    }
                }
                Outcome::Follow(follow)
            },
            _ => Outcome::Abandon,
        },
        Step::Retire { table, key, index, owner, member } => match reply {
            Reply::Done(found) => {
                let mut follow: Vec<Write> = Vec::new();
                if found {
                    follow.push(Write::Remove { index, owner, member });
                }
                proof {
                    let writes = writes_view(follow@);
                    assert forall|s: Store, t: Store| #[trigger]
                        answers(s, plan.request(), answer, t) implies {
                        &&& plan.skips(s) == 0
                        &&& run(as_steps(writes), t) == plan.after(s)
                        &&& count(as_steps(writes), t) + spent(plan.request()) == plan.tally(s)
                    } by {
                        lemma_run_only_writes(writes, t);
                        if found {
                            assert(writes =~= Seq::<WriteView>::empty().push(
                                WriteView::Remove { index, owner, member },
                            ));
                            lemma_apply_push(
                                Seq::empty(),
                                WriteView::Remove { index, owner, member },
                                t,
                            );
                        }
                    }
                }
                Outcome::Follow(follow)
            },
            _ => Outcome::Abandon,
        },
        Step::Sweep { index, owner, table, composite } => match reply {
            Reply::Members(members) => {
                let follow = sweep_writes(&members, index, owner, table, composite);
                proof {
                    let writes = writes_view(follow@);
                    assert forall|s: Store, t: Store| #[trigger]
                        answers(s, plan.request(), answer, t) implies {
                        &&& plan.skips(s) == 0
                        &&& run(as_steps(writes), t) == plan.after(s)
                        &&& count(as_steps(writes), t) + spent(plan.request()) == plan.tally(s)
                    } by {
                        lemma_run_only_writes(writes, t);
                        lemma_sweep(members@, index, owner, table, composite, s);
                    }
                }
                Outcome::Follow(follow)
            },
            _ => Outcome::Abandon,
        },
        Step::Revise { target, fallbacks, key, otherwise, then } => match reply {
            Reply::Record(record) => react_revise(target, fallbacks, key, otherwise, then, record),
            _ => Outcome::Abandon,
        },
        Step::Guard { table, key, value, span } => match reply {
            Reply::Record(record) => {
                let hit = match &record {
                    Some(bytes) => same_bytes(bytes.as_slice(), value.as_slice()),
                    None => false,
                };
                let skip: usize = if hit {
                    span
                } else {
                    0
                };
                proof {
                    assert forall|s: Store, t: Store| #[trigger]
                        answers(s, plan.request(), answer, t) implies {
                        &&& plan.skips(s) == skip
                        &&& run(Seq::<StepView>::empty(), t) == plan.after(s)
                        &&& count(Seq::<StepView>::empty(), t) + spent(plan.request())
                            == plan.tally(s)
                    } by {}
                }
                Outcome::Skip(skip)
            },
            _ => Outcome::Abandon,
        },
        Step::Unlink { index, owner, member, table, key } => match reply {
            Reply::Members(members) => Outcome::Follow(
                react_unlink(index, owner, member, table, key, members),
            ),
            _ => Outcome::Abandon,
        },
    }
}

/// Puts `writes`, as steps, in front of the queue.
fn push_writes(queue: &mut VecDeque<Step>, writes: Vec<Write>)
    ensures
        steps_view(final(queue)@) == as_steps(writes_view(writes@)) + steps_view(old(queue)@),
{
    let mut writes = writes;
    let ghost all = writes_view(writes@);
    let ghost tail = steps_view(queue@);
    assert(as_steps(all.subrange(all.len() as int, all.len() as int)) + tail =~= tail);
    while writes.len() > 0
        invariant
            writes_view(writes@) == all.subrange(0, writes.len() as int),
            writes.len() <= all.len(),
            steps_view(queue@) == as_steps(all.subrange(writes.len() as int, all.len() as int))
                + tail,
        decreases writes.len(),
    {
        let ghost n = writes.len() as int;
        let ghost before = steps_view(queue@);
        let ghost held = writes_view(writes@);
        match writes.pop() {
            Some(write) => {
                let ghost added = write@;
                assert(added == held[n - 1]);
                assert(writes_view(writes@) =~= all.subrange(0, n - 1));
                queue.push_front(Step::Write(write));
                assert(steps_view(queue@) =~= seq![StepView::Write(added)] + before);
                assert(seq![StepView::Write(added)] + (as_steps(all.subrange(n, all.len() as int))
                    + tail) =~= as_steps(all.subrange(n - 1, all.len() as int)) + tail);
            },
            None => {},
        }
    }
    assert(all.subrange(0, all.len() as int) =~= all);
}

/// Takes up to `skip` steps off the front of the queue.
fn drop_steps(queue: &mut VecDeque<Step>, skip: usize)
    ensures
        steps_view(final(queue)@) == remaining(
            seq![arbitrary::<StepView>()] + steps_view(old(queue)@),
            skip as nat,
        ),
{
    let ghost start = steps_view(queue@);
    let mut done: usize = 0;
    assert(start.subrange(0, start.len() as int) =~= start);
    while done < skip && queue.len() > 0
        invariant
            done <= skip,
            done <= start.len(),
            steps_view(queue@) == start.subrange(done as int, start.len() as int),
        decreases skip - done,
    {
        let ghost before = steps_view(queue@);
        let dropped = queue.pop_front();
        assert(steps_view(queue@) =~= before.subrange(1, before.len() as int));
        done = done + 1;
        assert(steps_view(queue@) =~= start.subrange(done as int, start.len() as int));
    }
    proof {
        let all = seq![arbitrary::<StepView>()] + start;
        if 1 + skip <= all.len() {
            assert(all.subrange(1 + skip as int, all.len() as int) =~= start.subrange(
                skip as int,
                start.len() as int,
            ));
        } else {
            assert(steps_view(queue@) =~= Seq::<StepView>::empty());
        }
    }
}

/// A plan that is being carried out: the steps that are left, the one whose request is with
/// the store first.
pub struct Run {
    queue: VecDeque<Step>,
    failure: Option<CacheError>,
}

impl Run {
    /// The steps that are left.
    pub closed spec fn left(&self) -> Seq<StepView> {
        steps_view(self.queue@)
    }

    /// Why the plan was given up, where it was.
    pub closed spec fn spec_failure(&self) -> Option<CacheError> {
        self.failure
    }

    /// Starts on a plan.
    pub fn new(plan: Vec<Step>) -> (r: Run)
        ensures
            r.left() == steps_view(plan@),
            r.spec_failure().is_none(),
    {
        let mut plan = plan;
        let ghost all = steps_view(plan@);
        let mut queue: VecDeque<Step> = VecDeque::new();
        assert(all.subrange(all.len() as int, all.len() as int) =~= steps_view(queue@));
        while plan.len() > 0
            invariant
                plan.len() <= all.len(),
                steps_view(plan@) == all.subrange(0, plan.len() as int),
                steps_view(queue@) == all.subrange(plan.len() as int, all.len() as int),
            decreases plan.len(),
        {
            let ghost n = plan.len() as int;
            let ghost before = steps_view(queue@);
            let ghost held = steps_view(plan@);
            match plan.pop() {
                Some(step) => {
                    let ghost added = step@;
                    assert(added == held[n - 1]);
                    assert(steps_view(plan@) =~= all.subrange(0, n - 1));
                    queue.push_front(step);
                    assert(steps_view(queue@) =~= seq![added] + before);
                    assert(seq![added] + before =~= all.subrange(n - 1, all.len() as int));
                },
                None => {},
            }
        }
        assert(all.subrange(0, all.len() as int) =~= all);
        Run { queue, failure: None }
    }

    /// Why the plan was given up, where it was.
    pub fn failure(&self) -> (r: Option<CacheError>)
        ensures
            r == self.spec_failure(),
    {
        self.failure
    }

    /// The request to send to the store now, or `None` where the plan is done.
    pub fn request(&self) -> (r: Option<Request>)
        ensures
            match r {
                Some(request) => self.left().len() > 0 && request@ == self.left().first().request(),
                None => self.left().len() == 0,
            },
    {
        if self.queue.len() == 0 {
            None
        } else {
            Some(request_of(&self.queue[0]))
        }
    }

    /// Takes the store's answer to the request that was sent last, and goes on to the next
    /// step. An answer of the sort that was asked for leaves the recorded failure as it was.
    /// After any other answer nothing is left to do, and the failure is the store's own or,
    /// where the store reported none, `StoreOperationFailed`. Where nothing was left before,
    /// nothing happens.
    pub fn feed(&mut self, reply: Reply)
        ensures
            old(self).left().len() > 0 ==> carries(old(self).left(), reply@, final(self).left()),
            old(self).left().len() > 0 ==> effort(final(self).left()) < effort(old(self).left())
                || (effort(final(self).left()) == effort(old(self).left())
                && final(self).left().len() < old(self).left().len()),
            old(self).left().len() > 0 && fits(old(self).left().first(), reply@)
                ==> final(self).spec_failure() == old(self).spec_failure(),
            old(self).left().len() > 0 && !fits(old(self).left().first(), reply@)
                ==> final(self).left().len() == 0
                && final(self).spec_failure() == Some(failure_of(reply@)),
            old(self).left().len() > 0 && !(reply@ is Failed) && !refuses(
                old(self).left().first(),
                reply@,
            ) ==> final(self).spec_failure() == old(self).spec_failure(),
            old(self).left().len() == 0 ==> final(self).left() == old(self).left()
                && final(self).spec_failure() == old(self).spec_failure(),
    {
        let ghost before = self.left();
        let ghost answer = reply@;
        let step = match self.queue.pop_front() {
            Some(step) => step,
            None => {
                return ;
            },
        };
        let ghost first = step@;
        let ghost rest = steps_view(self.queue@);
        assert(first == before.first());
        assert(rest =~= before.drop_first());
        assert(before =~= seq![first] + rest);
        proof {
            lemma_effort_concat(seq![first], rest);
            assert(seq![first].drop_first() =~= Seq::<StepView>::empty());
        }
        let failed: Option<CacheError> = match &reply {
            Reply::Failed(error) => Some(*error),
            _ => None,
        };
        match react(step, reply) {
            Outcome::Abandon => {
                self.queue.clear();
                self.failure = match failed {
                    Some(error) => Some(error),
                    None => Some(CacheError::StoreOperationFailed),
                };
                assert(self.left() =~= Seq::<StepView>::empty());
            },
            Outcome::Follow(writes) => {
                let ghost follow = writes_view(writes@);
                push_writes(&mut self.queue, writes);
                proof {
                    assert(self.left() == as_steps(follow) + rest);
                    lemma_run_writes(follow, rest, Store::empty());
                    assert forall|s: Store, t: Store| #[trigger]
                        answers(s, before.first().request(), answer, t) implies {
                        &&& run(self.left(), t) == run(before, s)
                        &&& count(self.left(), t) + spent(before.first().request()) == count(
                            before,
                            s,
                        )
                    } by {
                        lemma_run_writes(follow, rest, t);
                        lemma_run_only_writes(follow, t);
                        assert(remaining(before, 0) =~= rest);
                    }
                }
            },
            Outcome::Retry(next) => {
                let ghost again = next@;
                self.queue.push_front(next);
                proof {
                    assert(self.left() =~= seq![again] + rest);
                    lemma_effort_concat(seq![again], rest);
                    assert(seq![again].drop_first() =~= Seq::<StepView>::empty());
                    assert forall|s: Store, t: Store| #[trigger]
                        answers(s, before.first().request(), answer, t) implies {
                        &&& run(self.left(), t) == run(before, s)
                        &&& count(self.left(), t) + spent(before.first().request()) == count(
                            before,
                            s,
                        )
                    } by {
                        lemma_run_first(again, rest, t);
                        lemma_run_first(again, Seq::empty(), t);
                        assert(seq![again] + Seq::<StepView>::empty() =~= seq![again]);
                        assert(remaining(before, 0) =~= rest);
                    }
                }
            },
            Outcome::Skip(skip) => {
                drop_steps(&mut self.queue, skip);
                proof {
                    let probe = seq![arbitrary::<StepView>()] + rest;
                    assert(remaining(probe, skip as nat) =~= remaining(before, skip as nat));
                    if 1 + skip <= before.len() {
                        lemma_effort_suffix(rest, skip as int);
                        assert(before.subrange(1 + skip as int, before.len() as int)
                            =~= rest.subrange(skip as int, rest.len() as int));
                    }
                }
            },
        }
    }
}

/// Carries out a plan on a store in memory.
pub fn execute(plan: Vec<Step>, store: &mut MemoryStore)
    requires
        old(store).wf(),
    ensures
        final(store).wf(),
        final(store)@ == run(steps_view(plan@), old(store)@),
        final(store).spec_writes() == if old(store).spec_writes() + count(
            steps_view(plan@),
            old(store)@,
        ) <= usize::MAX {
            old(store).spec_writes() + count(steps_view(plan@), old(store)@)
        } else {
            usize::MAX as nat
        },
{
    let ghost target = run(steps_view(plan@), store@);
    let ghost total = store.spec_writes() + count(steps_view(plan@), store@);
    let mut driver = Run::new(plan);
    let mut next = driver.request();
    proof {
        store.lemma_writes_bound();
    }
    while next.is_some()
        invariant
            store.wf(),
            run(driver.left(), store@) == target,
            store.spec_writes() == if total - count(driver.left(), store@) <= usize::MAX {
                total - count(driver.left(), store@)
            } else {
                usize::MAX as int
            },
            count(driver.left(), store@) <= total,
            match next {
                Some(request) => driver.left().len() > 0 && request@
                    == driver.left().first().request(),
                None => driver.left().len() == 0,
            },
        decreases effort(driver.left()), driver.left().len(),
    {
        let request = next.unwrap();
        let ghost before = store@;
        let reply = store.perform(&request);
        assert(answers(before, driver.left().first().request(), reply@, store@));
        driver.feed(reply);
        next = driver.request();
    }
}

} // verus!
