use crate::effects::{as_steps, lemma_run_only_writes};
use crate::plan::{remaining, run, StepView};
use crate::store::{apply_all, Index, Key, put_all, Store, Table, WriteView};
use vstd::prelude::*;

verus! {

/// What the store holds under one key of one table.
pub open spec fn peek(store: Store, at: (Table, Key)) -> Option<Seq<u8>> {
    store.record(at.0, at.1)
}

impl WriteView {
    /// Whether this change decides what the store holds under `at`, whatever it held before.
    pub open spec fn sets_record(self, at: (Table, Key)) -> bool {
        match self {
            WriteView::Put { table, key, .. } => at == (table, key),
            WriteView::PutMany { table, entries } => at.0 == table && exists|i: int|
                0 <= i < entries.len() && (#[trigger] entries[i]).0 == at.1,
            WriteView::Delete { table, key } => at == (table, key),
            _ => false,
        }
    }

    /// Whether this change decides if `link` is in the store, whatever the store held before.
    pub open spec fn sets_link(self, link: (Index, u64, Key)) -> bool {
        match self {
            WriteView::Add { index, owner, member } => link == (index, owner, member),
            WriteView::AddMany { index, owner, members } => link.0 == index && link.1 == owner
                && members.contains(link.2),
            WriteView::Remove { index, owner, member } => link == (index, owner, member),
            WriteView::Clear { index, owner } => link.0 == index && link.1 == owner,
            _ => false,
        }
    }
}

/// Whether one of the changes decides what the store holds under `at`.
pub open spec fn any_sets_record(writes: Seq<WriteView>, at: (Table, Key)) -> bool {
    exists|i: int| 0 <= i < writes.len() && (#[trigger] writes[i]).sets_record(at)
}

/// Whether one of the changes decides if `link` is in the store.
pub open spec fn any_sets_link(writes: Seq<WriteView>, link: (Index, u64, Key)) -> bool {
    exists|i: int| 0 <= i < writes.len() && (#[trigger] writes[i]).sets_link(link)
}

proof fn lemma_put_all(
    a: Map<(Table, Key), Seq<u8>>,
    b: Map<(Table, Key), Seq<u8>>,
    table: Table,
    entries: Seq<(Key, Seq<u8>)>,
    at: (Table, Key),
)
    ensures
        ({
            let named = at.0 == table && exists|i: int|
                0 <= i < entries.len() && (#[trigger] entries[i]).0 == at.1;
            let x = put_all(a, table, entries);
            let y = put_all(b, table, entries);
            if named {
                x.dom().contains(at) && y.dom().contains(at) && x[at] == y[at]
            } else {
                x.dom().contains(at) == a.dom().contains(at) && (a.dom().contains(at) ==> x[at]
                    == a[at])
            }
        }),
    decreases entries.len(),
{
    if entries.len() > 0 {
        let less = entries.drop_last();
        lemma_put_all(a, b, table, less, at);
        let last = entries.last();
        assert(entries[entries.len() - 1] == last);
        let named_less = at.0 == table && exists|i: int|
            0 <= i < less.len() && (#[trigger] less[i]).0 == at.1;
        if named_less {
            let i = choose|i: int| 0 <= i < less.len() && (#[trigger] less[i]).0 == at.1;
            assert(entries[i] == less[i]);
        }
        let named = at.0 == table && exists|i: int|
            0 <= i < entries.len() && (#[trigger] entries[i]).0 == at.1;
        if named && !named_less && !(at == (table, last.0)) {
            let i = choose|i: int| 0 <= i < entries.len() && (#[trigger] entries[i]).0 == at.1;
            assert(less[i] == entries[i]);
        }
    }
}

/// A change decides what it sets, whatever the store held, and leaves the rest as it was.
proof fn lemma_write(w: WriteView, s: Store, t: Store)
    ensures
        forall|at: (Table, Key)|
            if w.sets_record(at) {
                #[trigger] peek(w.apply(s), at) == peek(w.apply(t), at)
            } else {
                peek(w.apply(s), at) == peek(s, at)
            },
        forall|link: (Index, u64, Key)|
            if w.sets_link(link) {
                #[trigger] w.apply(s).links.contains(link) == w.apply(t).links.contains(link)
            } else {
                w.apply(s).links.contains(link) == s.links.contains(link)
            },
{
    assert forall|at: (Table, Key)|
        if w.sets_record(at) {
            #[trigger] peek(w.apply(s), at) == peek(w.apply(t), at)
        } else {
            peek(w.apply(s), at) == peek(s, at)
        } by {
        match w {
            WriteView::PutMany { table, entries } => {
                lemma_put_all(s.records, t.records, table, entries, at);
                lemma_put_all(t.records, s.records, table, entries, at);
            },
            _ => {},
        }
    }
}

/// A sequence of changes decides what its changes set, whatever the store held, and leaves
/// the rest as it was.
pub proof fn lemma_writes(writes: Seq<WriteView>, s: Store, t: Store)
    ensures
        forall|at: (Table, Key)|
            if any_sets_record(writes, at) {
                #[trigger] peek(apply_all(writes, s), at) == peek(apply_all(writes, t), at)
            } else {
                peek(apply_all(writes, s), at) == peek(s, at)
            },
        forall|link: (Index, u64, Key)|
            if any_sets_link(writes, link) {
                #[trigger] apply_all(writes, s).links.contains(link) == apply_all(
                    writes,
                    t,
                ).links.contains(link)
            } else {
                apply_all(writes, s).links.contains(link) == s.links.contains(link)
            },
    decreases writes.len(),
{
    if writes.len() > 0 {
        let first = writes.first();
        let rest = writes.drop_first();
        lemma_write(first, s, t);
        lemma_write(first, t, s);
        lemma_writes(rest, first.apply(s), first.apply(t));
        lemma_writes(rest, first.apply(t), first.apply(s));
        assert forall|at: (Table, Key)|
            if any_sets_record(writes, at) {
                #[trigger] peek(apply_all(writes, s), at) == peek(apply_all(writes, t), at)
            } else {
                peek(apply_all(writes, s), at) == peek(s, at)
            } by {
            let fs = first.apply(s);
            let ft = first.apply(t);
            assert(apply_all(writes, s) == apply_all(rest, fs));
            assert(apply_all(writes, t) == apply_all(rest, ft));
            assert(peek(fs, at) == peek(fs, at) && peek(ft, at) == peek(ft, at));
            assert(peek(apply_all(rest, fs), at) == peek(apply_all(rest, fs), at));
            assert(peek(apply_all(rest, ft), at) == peek(apply_all(rest, ft), at));
            if any_sets_record(rest, at) {
                let i = choose|i: int| 0 <= i < rest.len() && (#[trigger] rest[i]).sets_record(at);
                assert(writes[i + 1] == rest[i]);
            } else if any_sets_record(writes, at) {
                let i = choose|i: int|
                    0 <= i < writes.len() && (#[trigger] writes[i]).sets_record(at);
                if i > 0 {
                    assert(rest[i - 1] == writes[i]);
                }
            } else {
                assert(writes[0] == first);
            }
        }
        assert forall|link: (Index, u64, Key)|
            if any_sets_link(writes, link) {
                #[trigger] apply_all(writes, s).links.contains(link) == apply_all(
                    writes,
                    t,
                ).links.contains(link)
            } else {
                apply_all(writes, s).links.contains(link) == s.links.contains(link)
            } by {
            let fs = first.apply(s);
            let ft = first.apply(t);
            assert(apply_all(writes, s) == apply_all(rest, fs));
            assert(apply_all(writes, t) == apply_all(rest, ft));
            if any_sets_link(rest, link) {
                let i = choose|i: int| 0 <= i < rest.len() && (#[trigger] rest[i]).sets_link(link);
                assert(writes[i + 1] == rest[i]);
            } else if any_sets_link(writes, link) {
                let i = choose|i: int| 0 <= i < writes.len() && (#[trigger] writes[i]).sets_link(link);
                if i > 0 {
                    assert(rest[i - 1] == writes[i]);
                }
            } else {
                assert(writes[0] == first);
            }
        }
    }
}

/// Two stores that hold the same under every key and have the same links are one store.
pub proof fn lemma_same_store(a: Store, b: Store)
    requires
        forall|at: (Table, Key)| #[trigger] peek(a, at) == peek(b, at),
        forall|link: (Index, u64, Key)| #[trigger] a.links.contains(link) == b.links.contains(link),
    ensures
        a == b,
{
    assert forall|at: (Table, Key)|
        (#[trigger] a.records.dom().contains(at)) == b.records.dom().contains(at) && (
        a.records.dom().contains(at) ==> a.records[at] == b.records[at]) by {
        assert(peek(a, at) == peek(b, at));
    }
    assert(a.records =~= b.records);
    assert(a.links =~= b.links);
}

/// Making the same changes again changes nothing.
pub proof fn lemma_writes_twice(writes: Seq<WriteView>, store: Store)
    ensures
        apply_all(writes, apply_all(writes, store)) == apply_all(writes, store),
{
    let once = apply_all(writes, store);
    let twice = apply_all(writes, once);
    lemma_writes(writes, once, store);
    assert forall|at: (Table, Key)| #[trigger] peek(twice, at) == peek(once, at) by {}
    assert forall|link: (Index, u64, Key)| #[trigger]
        twice.links.contains(link) == once.links.contains(link) by {}
    lemma_same_store(twice, once);
}

/// Whether every step of a plan is one change.
pub open spec fn all_writes(plan: Seq<StepView>) -> bool {
    forall|i: int| 0 <= i < plan.len() ==> #[trigger] plan[i] is Write
}

/// The changes of a plan whose steps are changes.
pub open spec fn writes_of(plan: Seq<StepView>) -> Seq<WriteView> {
    plan.map_values(|step: StepView| step->Write_0)
}

/// Upsert idempotence: a plan that is made of changes alone, carried out a second time,
/// leaves every record and every set as the first time left them.
pub proof fn law_changes_twice(plan: Seq<StepView>, store: Store)
    requires
        all_writes(plan),
    ensures
        run(plan, run(plan, store)) == run(plan, store),
{
    let writes = writes_of(plan);
    assert(as_steps(writes) =~= plan) by {
        assert forall|i: int| 0 <= i < plan.len() implies as_steps(writes)[i] == plan[i] by {
            assert(plan[i] is Write);
        }
    }
    lemma_run_only_writes(writes, store);
    lemma_run_only_writes(writes, apply_all(writes, store));
    lemma_writes_twice(writes, store);
}

/// Whether no test of a plan leaves out steps beyond the plan's end.
pub open spec fn closed(plan: Seq<StepView>) -> bool {
    forall|i: int|
        0 <= i < plan.len() && (#[trigger] plan[i]) is Guard ==> i + 1 + plan[i]->Guard_span
            <= plan.len()
}

/// A closed plan followed by another does what the two do one after the other.
pub proof fn lemma_run_closed(a: Seq<StepView>, b: Seq<StepView>, store: Store)
    requires
        closed(a),
    ensures
        run(a + b, store) == run(b, run(a, store)),
    decreases a.len(),
{
    if a.len() == 0 {
        assert(a + b =~= b);
    } else {
        let first = a.first();
        let skip = first.skips(store);
        assert(a[0] == first);
        assert((a + b).first() == first);
        assert(1 + skip <= a.len());
        let rest = a.subrange(1 + skip as int, a.len() as int);
        assert(remaining(a, skip) =~= rest);
        assert(remaining(a + b, skip) =~= rest + b);
        assert forall|i: int| 0 <= i < rest.len() && (#[trigger] rest[i]) is Guard implies i + 1
            + rest[i]->Guard_span <= rest.len() by {
            assert(rest[i] == a[i + 1 + skip]);
        }
        lemma_run_closed(rest, b, first.after(store));
    }
}

/// A set of places in the store: keys of tables, and links.
pub struct Places {
    pub records: Set<(Table, Key)>,
    pub links: Set<(Index, u64, Key)>,
}

/// Whether two stores hold the same at every place of `places`.
pub open spec fn agree_on(a: Store, b: Store, places: Places) -> bool {
    &&& forall|at: (Table, Key)| places.records.contains(at) ==> #[trigger] peek(a, at) == peek(b, at)
    &&& forall|link: (Index, u64, Key)|
        places.links.contains(link) ==> #[trigger] a.links.contains(link) == b.links.contains(link)
}

/// Whether two stores hold the same at every place outside `places`.
pub open spec fn agree_off(a: Store, b: Store, places: Places) -> bool {
    &&& forall|at: (Table, Key)|
        !places.records.contains(at) ==> #[trigger] peek(a, at) == peek(b, at)
    &&& forall|link: (Index, u64, Key)|
        !places.links.contains(link) ==> #[trigger] a.links.contains(link) == b.links.contains(link)
}

/// Whether a plan reads and changes the store at the places of `places` alone, and leaves
/// those places, when it is carried out a second time, as the first time left them.
pub open spec fn settles(plan: Seq<StepView>, places: Places) -> bool {
    &&& closed(plan)
    &&& forall|s: Store| #[trigger] agree_off(run(plan, s), s, places)
    &&& forall|s: Store, t: Store| #[trigger]
        agree_on(s, t, places) ==> agree_on(run(plan, s), run(plan, t), places)
    &&& forall|s: Store| #[trigger] run(plan, run(plan, s)) == run(plan, s)
}

/// Whether two sets of places have no place in common.
pub open spec fn disjoint(a: Places, b: Places) -> bool {
    a.records.disjoint(b.records) && a.links.disjoint(b.links)
}

/// The places of two sets of places.
pub open spec fn join(a: Places, b: Places) -> Places {
    Places { records: a.records + b.records, links: a.links + b.links }
}

/// Two plans that settle places apart from each other settle, one after the other, the places
/// of both.
pub proof fn lemma_settles_both(a: Seq<StepView>, x: Places, b: Seq<StepView>, y: Places)
    requires
        settles(a, x),
        settles(b, y),
        disjoint(x, y),
    ensures
        settles(a + b, join(x, y)),
{
    let both = a + b;
    let places = join(x, y);
    assert forall|i: int| 0 <= i < both.len() && (#[trigger] both[i]) is Guard implies i + 1
        + both[i]->Guard_span <= both.len() by {
        if i < a.len() {
            assert(both[i] == a[i]);
        } else {
            assert(both[i] == b[i - a.len()]);
        }
    }
    assert forall|s: Store| #[trigger] agree_off(run(both, s), s, places) by {
        lemma_run_closed(a, b, s);
        let s1 = run(a, s);
        assert(agree_off(s1, s, x));
        assert(agree_off(run(b, s1), s1, y));
        let s2 = run(b, s1);
        assert forall|at: (Table, Key)| !places.records.contains(at) implies #[trigger] peek(
            s2,
            at,
        ) == peek(s, at) by {
            assert(peek(s2, at) == peek(s1, at));
            assert(peek(s1, at) == peek(s, at));
        }
        assert forall|link: (Index, u64, Key)|
            !places.links.contains(link) implies #[trigger] s2.links.contains(link)
            == s.links.contains(link) by {
            assert(s2.links.contains(link) == s1.links.contains(link));
            assert(s1.links.contains(link) == s.links.contains(link));
        }
    }
    assert forall|s: Store, t: Store| #[trigger] agree_on(s, t, places) implies agree_on(
        run(both, s),
        run(both, t),
        places,
    ) by {
        lemma_run_closed(a, b, s);
        lemma_run_closed(a, b, t);
        let s1 = run(a, s);
        let t1 = run(a, t);
        assert(agree_on(s, t, x));
        assert(agree_on(s1, t1, x));
        assert(agree_off(s1, s, x));
        assert(agree_off(t1, t, x));
        assert(agree_on(s1, t1, y)) by {
            assert forall|at: (Table, Key)| y.records.contains(at) implies #[trigger] peek(s1, at)
                == peek(t1, at) by {
                assert(!x.records.contains(at));
                assert(places.records.contains(at));
                assert(peek(s1, at) == peek(s, at));
                assert(peek(t1, at) == peek(t, at));
                assert(peek(s, at) == peek(t, at));
            }
            assert forall|link: (Index, u64, Key)|
                y.links.contains(link) implies #[trigger] s1.links.contains(link)
                == t1.links.contains(link) by {
                assert(!x.links.contains(link));
                assert(places.links.contains(link));
                assert(s1.links.contains(link) == s.links.contains(link));
                assert(t1.links.contains(link) == t.links.contains(link));
                assert(s.links.contains(link) == t.links.contains(link));
            }
        }
        let s2 = run(b, s1);
        let t2 = run(b, t1);
        assert(agree_on(s2, t2, y));
        assert(agree_off(s2, s1, y));
        assert(agree_off(t2, t1, y));
        assert forall|at: (Table, Key)| places.records.contains(at) implies #[trigger] peek(s2, at)
            == peek(t2, at) by {
            if !y.records.contains(at) {
                assert(x.records.contains(at));
                assert(peek(s2, at) == peek(s1, at));
                assert(peek(t2, at) == peek(t1, at));
                assert(peek(s1, at) == peek(t1, at));
            }
        }
        assert forall|link: (Index, u64, Key)|
            places.links.contains(link) implies #[trigger] s2.links.contains(link)
            == t2.links.contains(link) by {
            if !y.links.contains(link) {
                assert(x.links.contains(link));
                assert(s2.links.contains(link) == s1.links.contains(link));
                assert(t2.links.contains(link) == t1.links.contains(link));
                assert(s1.links.contains(link) == t1.links.contains(link));
            }
        }
    }
    assert forall|s: Store| #[trigger] run(both, run(both, s)) == run(both, s) by {
        lemma_run_closed(a, b, s);
        let s1 = run(a, s);
        let s2 = run(b, s1);
        lemma_run_closed(a, b, s2);
        let s3 = run(a, s2);
        // `b` has left the places of `a` as `a` left them, so `a` changes nothing now
        assert(agree_off(s2, s1, y));
        assert(agree_on(s2, s1, x)) by {
            assert forall|at: (Table, Key)| x.records.contains(at) implies #[trigger] peek(s2, at)
                == peek(s1, at) by {
                assert(!y.records.contains(at));
            }
            assert forall|link: (Index, u64, Key)|
                x.links.contains(link) implies #[trigger] s2.links.contains(link)
                == s1.links.contains(link) by {
                assert(!y.links.contains(link));
            }
        }
        assert(agree_on(s3, run(a, s1), x));
        assert(run(a, s1) == s1);
        assert(agree_off(s3, s2, x));
        assert forall|at: (Table, Key)| #[trigger] peek(s3, at) == peek(s2, at) by {
            if x.records.contains(at) {
                assert(peek(s3, at) == peek(s1, at));
                assert(peek(s2, at) == peek(s1, at));
            }
        }
        assert forall|link: (Index, u64, Key)| #[trigger]
            s3.links.contains(link) == s2.links.contains(link) by {
            if x.links.contains(link) {
                assert(s3.links.contains(link) == s1.links.contains(link));
                assert(s2.links.contains(link) == s1.links.contains(link));
            }
        }
        lemma_same_store(s3, s2);
        assert(run(b, s2) == s2);
    }
}

/// The places that a sequence of changes decides.
pub open spec fn places_of(writes: Seq<WriteView>) -> Places {
    Places {
        records: Set::new(|at: (Table, Key)| any_sets_record(writes, at)),
        links: Set::new(|link: (Index, u64, Key)| any_sets_link(writes, link)),
    }
}

/// A plan made of changes alone settles the places that its changes decide.
pub proof fn lemma_settles_writes(writes: Seq<WriteView>)
    ensures
        settles(as_steps(writes), places_of(writes)),
{
    let plan = as_steps(writes);
    let places = places_of(writes);
    assert forall|s: Store| #[trigger] agree_off(run(plan, s), s, places) by {
        lemma_run_only_writes(writes, s);
        lemma_writes(writes, s, s);
    }
    assert forall|s: Store, t: Store| #[trigger] agree_on(s, t, places) implies agree_on(
        run(plan, s),
        run(plan, t),
        places,
    ) by {
        lemma_run_only_writes(writes, s);
        lemma_run_only_writes(writes, t);
        lemma_writes(writes, s, t);
    }
    assert forall|s: Store| #[trigger] run(plan, run(plan, s)) == run(plan, s) by {
        lemma_run_only_writes(writes, s);
        lemma_run_only_writes(writes, apply_all(writes, s));
        lemma_writes_twice(writes, s);
    }
}

/// A plan that settles places settles any larger set of places too.
pub proof fn lemma_settles_more(plan: Seq<StepView>, places: Places, more: Places)
    requires
        settles(plan, places),
        places.records.subset_of(more.records),
        places.links.subset_of(more.links),
    ensures
        settles(plan, more),
{
    assert forall|s: Store| #[trigger] agree_off(run(plan, s), s, more) by {
        assert(agree_off(run(plan, s), s, places));
    }
    assert forall|s: Store, t: Store| #[trigger] agree_on(s, t, more) implies agree_on(
        run(plan, s),
        run(plan, t),
        more,
    ) by {
        assert(agree_on(s, t, places));
        assert(agree_on(run(plan, s), run(plan, t), places));
        assert(agree_off(run(plan, s), s, places));
        assert(agree_off(run(plan, t), t, places));
        assert forall|at: (Table, Key)| more.records.contains(at) implies #[trigger] peek(
            run(plan, s),
            at,
        ) == peek(run(plan, t), at) by {
            if !places.records.contains(at) {
                assert(peek(run(plan, s), at) == peek(s, at));
                assert(peek(run(plan, t), at) == peek(t, at));
                assert(peek(s, at) == peek(t, at));
            }
        }
        assert forall|link: (Index, u64, Key)|
            more.links.contains(link) implies #[trigger] run(plan, s).links.contains(link) == run(
            plan,
            t,
        ).links.contains(link) by {
            if !places.links.contains(link) {
                assert(run(plan, s).links.contains(link) == s.links.contains(link));
                assert(run(plan, t).links.contains(link) == t.links.contains(link));
                assert(s.links.contains(link) == t.links.contains(link));
            }
        }
    }
}

} // verus!
