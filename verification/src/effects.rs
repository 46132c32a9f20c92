use crate::plan::{count, effort, remaining, run, StepView, swept};
use crate::store::{apply_all, child_key, Index, Key, Store, Table, WriteView};
use vstd::prelude::*;

verus! {

/// A sequence of changes as steps of a plan.
pub open spec fn as_steps(writes: Seq<WriteView>) -> Seq<StepView> {
    writes.map_values(|w: WriteView| StepView::Write(w))
}

/// The deletions that a sweep makes for the members it has read.
pub open spec fn deletes(members: Seq<Key>, owner: u64, table: Table, composite: bool) -> Seq<
    WriteView,
> {
    members.map_values(
        |member: Key| WriteView::Delete { table, key: child_key(owner, member, composite) },
    )
}

/// A plan that starts with plain changes makes them, then goes on with the rest.
pub proof fn lemma_run_writes(writes: Seq<WriteView>, rest: Seq<StepView>, store: Store)
    ensures
        run(as_steps(writes) + rest, store) == run(rest, apply_all(writes, store)),
        count(as_steps(writes) + rest, store) == writes.len() + count(
            rest,
            apply_all(writes, store),
        ),
        effort(as_steps(writes) + rest) == effort(rest),
    decreases writes.len(),
{
    let all = as_steps(writes) + rest;
    if writes.len() == 0 {
        assert(all =~= rest);
    } else {
        assert(all.first() == StepView::Write(writes.first()));
        assert(remaining(all, 0) =~= as_steps(writes.drop_first()) + rest);
        assert(all.drop_first() =~= as_steps(writes.drop_first()) + rest);
        lemma_run_writes(writes.drop_first(), rest, writes.first().apply(store));
    }
}

/// A plan of plain changes alone.
pub proof fn lemma_run_only_writes(writes: Seq<WriteView>, store: Store)
    ensures
        run(as_steps(writes), store) == apply_all(writes, store),
        count(as_steps(writes), store) == writes.len(),
{
    lemma_run_writes(writes, Seq::empty(), store);
    assert(as_steps(writes) + Seq::<StepView>::empty() =~= as_steps(writes));
}

/// A plan that starts with a step that leaves nothing out.
pub proof fn lemma_run_first(step: StepView, rest: Seq<StepView>, store: Store)
    requires
        step.skips(store) == 0,
    ensures
        run(seq![step] + rest, store) == run(rest, step.after(store)),
        count(seq![step] + rest, store) == step.tally(store) + count(rest, step.after(store)),
        effort(seq![step] + rest) == step.effort() + effort(rest),
{
    let all = seq![step] + rest;
    assert(remaining(all, 0) =~= rest);
    assert(all.drop_first() =~= rest);
}

/// The reads of two plans, one after the other, are the reads of both.
pub proof fn lemma_effort_concat(a: Seq<StepView>, b: Seq<StepView>)
    ensures
        effort(a + b) == effort(a) + effort(b),
    decreases a.len(),
{
    if a.len() == 0 {
        assert(a + b =~= b);
    } else {
        assert((a + b).drop_first() =~= a.drop_first() + b);
        lemma_effort_concat(a.drop_first(), b);
    }
}

/// Leaving steps out takes no more reads.
pub proof fn lemma_effort_suffix(steps: Seq<StepView>, from: int)
    requires
        0 <= from <= steps.len(),
    ensures
        effort(steps.subrange(from, steps.len() as int)) <= effort(steps),
{
    assert(steps.subrange(0, from) + steps.subrange(from, steps.len() as int) =~= steps);
    lemma_effort_concat(steps.subrange(0, from), steps.subrange(from, steps.len() as int));
}

/// A sequence of changes with one more at its end: the last is applied last.
pub proof fn lemma_apply_push(writes: Seq<WriteView>, last: WriteView, store: Store)
    ensures
        apply_all(writes.push(last), store) == last.apply(apply_all(writes, store)),
    decreases writes.len(),
{
    let all = writes.push(last);
    if writes.len() == 0 {
        assert(all.drop_first() =~= Seq::<WriteView>::empty());
        assert(apply_all(all.drop_first(), last.apply(store)) == last.apply(store));
    } else {
        assert(all.drop_first() =~= writes.drop_first().push(last));
        lemma_apply_push(writes.drop_first(), last, writes.first().apply(store));
    }
}

/// Two sequences of changes, one after the other.
pub proof fn lemma_apply_concat(a: Seq<WriteView>, b: Seq<WriteView>, store: Store)
    ensures
        apply_all(a + b, store) == apply_all(b, apply_all(a, store)),
    decreases a.len(),
{
    if a.len() == 0 {
        assert(a + b =~= b);
    } else {
        assert((a + b).drop_first() =~= a.drop_first() + b);
        lemma_apply_concat(a.drop_first(), b, a.first().apply(store));
    }
}

/// The keys whose records the deletions for `members` remove.
pub open spec fn named(members: Seq<Key>, owner: u64, table: Table, composite: bool) -> Set<
    (Table, Key),
> {
    Set::new(
        |at: (Table, Key)|
            at.0 == table && exists|i: int|
                0 <= i < members.len() && at.1 == child_key(owner, #[trigger] members[i], composite),
    )
}

/// The deletions for the members that were read remove the records that they name, and no link.
pub proof fn lemma_deletes(
    members: Seq<Key>,
    owner: u64,
    table: Table,
    composite: bool,
    store: Store,
)
    ensures
        apply_all(deletes(members, owner, table, composite), store) == (Store {
            records: store.records.remove_keys(named(members, owner, table, composite)),
            links: store.links,
        }),
    decreases members.len(),
{
    let all = deletes(members, owner, table, composite);
    let gone = named(members, owner, table, composite);
    if members.len() == 0 {
        assert(store.records.remove_keys(gone) =~= store.records);
    } else {
        let rest = members.drop_first();
        let first = WriteView::Delete { table, key: child_key(owner, members[0], composite) };
        assert(all.first() == first);
        assert(all.drop_first() =~= deletes(rest, owner, table, composite));
        let next = first.apply(store);
        lemma_deletes(rest, owner, table, composite, next);
        let less = named(rest, owner, table, composite);
        assert forall|at: (Table, Key)| gone.contains(at) == (less.contains(at) || at == (
            table,
            child_key(owner, members[0], composite),
        )) by {
            if less.contains(at) {
                let i = choose|i: int|
                    0 <= i < rest.len() && at.1 == child_key(owner, #[trigger] rest[i], composite);
                assert(rest[i] == members[i + 1]);
            }
            if gone.contains(at) {
                let i = choose|i: int|
                    0 <= i < members.len() && at.1 == child_key(
                        owner,
                        #[trigger] members[i],
                        composite,
                    );
                if i > 0 {
                    assert(rest[i - 1] == members[i]);
                }
            }
        }
        assert(next.records.remove_keys(less) =~= store.records.remove_keys(gone));
    }
}

/// What the changes of a sweep come to, where `members` are the members of the set, each once.
pub proof fn lemma_sweep(
    members: Seq<Key>,
    index: Index,
    owner: u64,
    table: Table,
    composite: bool,
    store: Store,
)
    requires
        members.no_duplicates(),
        members.to_set() == store.members(index, owner),
    ensures
        apply_all(
            deletes(members, owner, table, composite).push(WriteView::Clear { index, owner }),
            store,
        ) == (StepView::Sweep { index, owner, table, composite }).after(store),
        members.len() == store.members(index, owner).len(),
{
    lemma_apply_push(
        deletes(members, owner, table, composite),
        WriteView::Clear { index, owner },
        store,
    );
    lemma_deletes(members, owner, table, composite, store);
    members.unique_seq_to_set();
    let gone = named(members, owner, table, composite);
    let wanted = swept(store, index, owner, table, composite);
    assert forall|at: (Table, Key)| gone.contains(at) == wanted.contains(at) by {
        if gone.contains(at) {
            let i = choose|i: int|
                0 <= i < members.len() && at.1 == child_key(owner, #[trigger] members[i], composite);
            assert(members.to_set().contains(members[i]));
            assert(store.links.contains((index, owner, members[i])));
        }
        if wanted.contains(at) {
            let member = choose|member: Key|
                store.links.contains((index, owner, member)) && at.1 == child_key(
                    owner,
                    member,
                    composite,
                );
            assert(store.members(index, owner).contains(member));
            assert(members.to_set().contains(member));
            let i = choose|i: int| 0 <= i < members.len() && members[i] == member;
            assert(at.1 == child_key(owner, members[i], composite));
        }
    }
    assert(gone =~= wanted);
}

} // verus!
