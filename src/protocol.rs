use vstd::prelude::*;

use crate::inner::Operation;
use crate::inner::TableView;
use crate::inner::apply_op;
use crate::inner::apply_ops;
use crate::mutable::Mutable;

verus! {

/// The writer's side of the two-copy protocol, as the copies' contents.
///
/// `write` is the copy the writer brings up to date and `read` the one readers
/// see. Before the first publish (`first`) operations go straight into `write`;
/// after it they are only logged in `oplog`, and each publish applies the log to
/// `write` and swaps the copies. The first `swap_index` entries of the log are
/// those that the copy now in `write` has not seen yet. `second` marks that
/// `write` must still be synchronised wholesale with `read`, once, at the
/// publish after the first.
///
/// This is the order in which left_right's `WriteHandle` drives the copies; each
/// application of an operation is `Inner::absorb_first` or
/// `Inner::absorb_second`, whose contracts are `apply_op`, and the wholesale
/// synchronisation is `Inner::sync_with`, whose contract is `synced`.
#[verifier::reject_recursive_types(Key)]
pub struct Protocol<Key, MutV, RefV, Meta, Op> {
    pub write: TableView<Key, MutV, RefV, Meta>,
    pub read: TableView<Key, MutV, RefV, Meta>,
    pub oplog: Seq<Operation<Key, MutV, RefV, Meta, Op>>,
    pub swap_index: nat,
    pub first: bool,
    pub second: bool,
}

/// One call on the writer: append an operation, or publish.
pub enum Step<Key, MutV, RefV, Meta, Op> {
    Append(Operation<Key, MutV, RefV, Meta, Op>),
    Publish,
}

/// The empty, not yet ready table that both copies start from.
pub open spec fn empty_table<Key, MutV, RefV, Meta>(meta: Meta) -> TableView<Key, MutV, RefV, Meta> {
    (Map::empty(), meta, false)
}

/// Both copies hold `table`, and nothing has been published.
pub open spec fn start<Key, MutV, RefV, Meta, Op>(
    table: TableView<Key, MutV, RefV, Meta>,
) -> Protocol<Key, MutV, RefV, Meta, Op> {
    Protocol { write: table, read: table, oplog: Seq::empty(), swap_index: 0, first: true, second: true }
}

/// Appending an operation: before the first publish it goes straight into the
/// writer's copy; after it, into the log.
pub open spec fn append<Key, MutV: Mutable<Op>, RefV, Meta, Op>(
    p: Protocol<Key, MutV, RefV, Meta, Op>,
    op: Operation<Key, MutV, RefV, Meta, Op>,
) -> Protocol<Key, MutV, RefV, Meta, Op> {
    if p.first {
        Protocol { write: apply_op(p.write, op), ..p }
    } else {
        Protocol { oplog: p.oplog.push(op), ..p }
    }
}

/// What the stale copy holds after it has been synchronised with the published
/// one: the published entries and metadata, and ready.
pub open spec fn synced<Key, MutV, RefV, Meta>(
    published: TableView<Key, MutV, RefV, Meta>,
) -> TableView<Key, MutV, RefV, Meta> {
    (published.0, published.1, true)
}

/// Publishing: the writer's copy catches up with the log (first with the
/// operations that it alone has not seen, then with the new ones) and the two
/// copies swap, so readers see every operation appended so far.
pub open spec fn publish<Key, MutV: Mutable<Op>, RefV, Meta, Op>(
    p: Protocol<Key, MutV, RefV, Meta, Op>,
) -> Protocol<Key, MutV, RefV, Meta, Op> {
    if p.first {
        Protocol { write: p.read, read: p.write, first: false, ..p }
    } else {
        let base = if p.second { synced(p.read) } else { p.write };
        let rest = p.oplog.skip(p.swap_index as int);
        let caught_up = apply_ops(apply_ops(base, p.oplog.take(p.swap_index as int)), rest);
        Protocol {
            write: p.read,
            read: caught_up,
            oplog: rest,
            swap_index: rest.len(),
            first: false,
            second: false,
        }
    }
}

/// One step of the writer.
pub open spec fn step<Key, MutV: Mutable<Op>, RefV, Meta, Op>(
    p: Protocol<Key, MutV, RefV, Meta, Op>,
    s: Step<Key, MutV, RefV, Meta, Op>,
) -> Protocol<Key, MutV, RefV, Meta, Op> {
    match s {
        Step::Append(op) => append(p, op),
        Step::Publish => publish(p),
    }
}

/// The state after the given steps, in order.
pub open spec fn run<Key, MutV: Mutable<Op>, RefV, Meta, Op>(
    p: Protocol<Key, MutV, RefV, Meta, Op>,
    steps: Seq<Step<Key, MutV, RefV, Meta, Op>>,
) -> Protocol<Key, MutV, RefV, Meta, Op>
    decreases steps.len(),
{
    if steps.len() == 0 {
        p
    } else {
        step(run(p, steps.drop_last()), steps.last())
    }
}

/// A freshly constructed map: both copies empty and not ready, and the operation
/// that marks a copy ready already appended.
pub open spec fn constructed<Key, MutV: Mutable<Op>, RefV, Meta, Op>(
    meta: Meta,
) -> Protocol<Key, MutV, RefV, Meta, Op> {
    append(start(empty_table(meta)), Operation::MarkReady)
}

/// The operation that construction appends, followed by every operation that
/// the steps append, in order.
pub open spec fn appended<Key, MutV, RefV, Meta, Op>(
    steps: Seq<Step<Key, MutV, RefV, Meta, Op>>,
) -> Seq<Operation<Key, MutV, RefV, Meta, Op>>
    decreases steps.len(),
{
    if steps.len() == 0 {
        seq![Operation::MarkReady]
    } else {
        match steps.last() {
            Step::Append(op) => appended(steps.drop_last()).push(op),
            Step::Publish => appended(steps.drop_last()),
        }
    }
}

/// How many of the appended operations the last publish among the steps made
/// visible: none if there was no publish.
pub open spec fn visible<Key, MutV, RefV, Meta, Op>(
    steps: Seq<Step<Key, MutV, RefV, Meta, Op>>,
) -> nat
    decreases steps.len(),
{
    if steps.len() == 0 {
        0
    } else {
        match steps.last() {
            Step::Append(_) => visible(steps.drop_last()),
            Step::Publish => appended(steps.drop_last()).len(),
        }
    }
}

/// Whether any of the steps is a publish.
pub open spec fn has_published<Key, MutV, RefV, Meta, Op>(
    steps: Seq<Step<Key, MutV, RefV, Meta, Op>>,
) -> bool {
    exists|i: int| 0 <= i < steps.len() && steps[i] is Publish
}

/// What the protocol keeps true between steps, given the operations appended so
/// far (`all`) and how many of them are visible to readers (`shown`).
pub open spec fn consistent<Key, MutV: Mutable<Op>, RefV, Meta, Op>(
    p: Protocol<Key, MutV, RefV, Meta, Op>,
    init: TableView<Key, MutV, RefV, Meta>,
    all: Seq<Operation<Key, MutV, RefV, Meta, Op>>,
    shown: nat,
) -> bool {
    &&& init.0.is_empty()
    &&& all.len() > 0
    &&& all[0] is MarkReady
    &&& shown <= all.len()
    &&& if p.first {
        &&& shown == 0
        &&& p.read == init
        &&& p.write == apply_ops(init, all)
        &&& p.oplog.len() == 0
        &&& p.swap_index == 0
        &&& p.second
    } else {
        &&& shown > 0
        &&& p.read == apply_ops(init, all.take(shown as int))
        &&& if p.second {
            &&& p.swap_index == 0
            &&& p.write == init
            &&& p.oplog == all.skip(shown as int)
        } else {
            &&& p.swap_index <= shown
            &&& p.oplog == all.skip(shown - p.swap_index)
            &&& p.write == apply_ops(init, all.take(shown - p.swap_index))
        }
    }
}

/// Applying `x` and then `y` is applying `x + y`.
pub proof fn lemma_apply_ops_concat<Key, MutV: Mutable<Op>, RefV, Meta, Op>(
    t: TableView<Key, MutV, RefV, Meta>,
    x: Seq<Operation<Key, MutV, RefV, Meta, Op>>,
    y: Seq<Operation<Key, MutV, RefV, Meta, Op>>,
)
    ensures
        apply_ops(t, x + y) == apply_ops(apply_ops(t, x), y),
    decreases y.len(),
{
    if y.len() == 0 {
        assert(x + y =~= x);
    } else {
        assert((x + y).drop_last() =~= x + y.drop_last());
        lemma_apply_ops_concat(t, x, y.drop_last());
    }
}

/// Once a copy is ready, no operation makes it unready; a sequence that starts by
/// marking it ready leaves it ready.
pub proof fn lemma_ready_stays<Key, MutV: Mutable<Op>, RefV, Meta, Op>(
    t: TableView<Key, MutV, RefV, Meta>,
    ops: Seq<Operation<Key, MutV, RefV, Meta, Op>>,
)
    requires
        t.2 || (ops.len() > 0 && ops[0] is MarkReady),
    ensures
        apply_ops(t, ops).2,
    decreases ops.len(),
{
    if ops.len() > 0 {
        if ops.len() > 1 || t.2 {
            lemma_ready_stays(t, ops.drop_last());
        }
    }
}

proof fn lemma_append_consistent<Key, MutV: Mutable<Op>, RefV, Meta, Op>(
    p: Protocol<Key, MutV, RefV, Meta, Op>,
    init: TableView<Key, MutV, RefV, Meta>,
    all: Seq<Operation<Key, MutV, RefV, Meta, Op>>,
    shown: nat,
    op: Operation<Key, MutV, RefV, Meta, Op>,
)
    requires
        consistent(p, init, all, shown),
    ensures
        consistent(append(p, op), init, all.push(op), shown),
{
    assert(all.push(op)[0] == all[0]);
    if p.first {
        assert(all.push(op).drop_last() =~= all);
    } else {
        assert(all.push(op).take(shown as int) =~= all.take(shown as int));
        if p.second {
            assert(all.push(op).skip(shown as int) =~= all.skip(shown as int).push(op));
        } else {
            assert(all.push(op).take(shown - p.swap_index) =~= all.take(shown - p.swap_index));
            assert(all.push(op).skip(shown - p.swap_index) =~= all.skip(shown - p.swap_index).push(
                op,
            ));
        }
    }
}

proof fn lemma_publish_consistent<Key, MutV: Mutable<Op>, RefV, Meta, Op>(
    p: Protocol<Key, MutV, RefV, Meta, Op>,
    init: TableView<Key, MutV, RefV, Meta>,
    all: Seq<Operation<Key, MutV, RefV, Meta, Op>>,
    shown: nat,
)
    requires
        consistent(p, init, all, shown),
    ensures
        consistent(publish(p), init, all, all.len()),
{
    assert(all.take(all.len() as int) =~= all);
    if p.first {
        assert(p.oplog =~= all.skip(all.len() as int));
    } else {
        if p.second {
            lemma_ready_stays(init, all.take(shown as int));
            assert(synced(p.read) == p.read);
            assert(p.oplog.take(0) =~= Seq::<Operation<Key, MutV, RefV, Meta, Op>>::empty());
            assert(p.oplog.skip(0) =~= p.oplog);
        } else {
            let k = shown - p.swap_index;
            assert(p.oplog.take(p.swap_index as int) =~= all.subrange(k, shown as int));
            assert(p.oplog.skip(p.swap_index as int) =~= all.skip(shown as int));
            lemma_apply_ops_concat(init, all.take(k), all.subrange(k, shown as int));
            assert(all.take(k) + all.subrange(k, shown as int) =~= all.take(shown as int));
        }
        lemma_apply_ops_concat(init, all.take(shown as int), all.skip(shown as int));
        assert(all.take(shown as int) + all.skip(shown as int) =~= all);
        assert(all.skip(all.len() - (all.len() - shown)) =~= all.skip(shown as int));
    }
}

/// The entries of a plain map after one operation, with no copies involved.
pub open spec fn reference_op<Key, MutV: Mutable<Op>, RefV, Meta, Op>(
    m: Map<Key, (MutV, RefV)>,
    op: Operation<Key, MutV, RefV, Meta, Op>,
) -> Map<Key, (MutV, RefV)> {
    match op {
        Operation::Insert(k, v) => m.insert(k, v@),
        Operation::Remove(k) => m.remove(k),
        Operation::Clear => Map::empty(),
        Operation::Mutate(k, o) => if m.contains_key(k) {
            m.insert(k, (m[k].0.mutated(o), m[k].1))
        } else {
            m
        },
        _ => m,
    }
}

/// The entries of a plain map, empty at first, after the operations in order.
pub open spec fn reference<Key, MutV: Mutable<Op>, RefV, Meta, Op>(
    ops: Seq<Operation<Key, MutV, RefV, Meta, Op>>,
) -> Map<Key, (MutV, RefV)>
    decreases ops.len(),
{
    if ops.len() == 0 {
        Map::empty()
    } else {
        reference_op(reference(ops.drop_last()), ops.last())
    }
}

proof fn lemma_entries_follow_reference<Key, MutV: Mutable<Op>, RefV, Meta, Op>(
    meta: Meta,
    ops: Seq<Operation<Key, MutV, RefV, Meta, Op>>,
)
    ensures
        apply_ops(empty_table(meta), ops).0 == reference(ops),
    decreases ops.len(),
{
    if ops.len() > 0 {
        lemma_entries_follow_reference(meta, ops.drop_last());
    }
}

/// The protocol stays consistent over any run from construction.
pub proof fn lemma_run_consistent<Key, MutV: Mutable<Op>, RefV, Meta, Op>(
    meta: Meta,
    steps: Seq<Step<Key, MutV, RefV, Meta, Op>>,
)
    ensures
        consistent(run(constructed(meta), steps), empty_table(meta), appended(steps), visible(steps)),
    decreases steps.len(),
{
    let init = empty_table::<Key, MutV, RefV, Meta>(meta);
    if steps.len() == 0 {
        let ops = seq![Operation::<Key, MutV, RefV, Meta, Op>::MarkReady];
        assert(ops.drop_last() =~= Seq::empty());
        assert(apply_ops(init, ops.drop_last()) == init);
        assert(ops.last() is MarkReady);
        assert(apply_ops(init, ops) == apply_op(init, Operation::<Key, MutV, RefV, Meta, Op>::MarkReady));
    } else {
        lemma_run_consistent(meta, steps.drop_last());
        let p = run(constructed(meta), steps.drop_last());
        match steps.last() {
            Step::Append(op) => lemma_append_consistent(
                p,
                init,
                appended(steps.drop_last()),
                visible(steps.drop_last()),
                op,
            ),
            Step::Publish => lemma_publish_consistent(
                p,
                init,
                appended(steps.drop_last()),
                visible(steps.drop_last()),
            ),
        }
    }
}

/// After any sequence of appends and publishes, readers see exactly the effect
/// of every operation appended before the last publish, applied in order; the
/// entries they see are those of a plain map given the same operations.
pub proof fn law_published_matches_reference<Key, MutV: Mutable<Op>, RefV, Meta, Op>(
    meta: Meta,
    steps: Seq<Step<Key, MutV, RefV, Meta, Op>>,
)
    ensures
        run(constructed(meta), steps).read == apply_ops(
            empty_table(meta),
            appended(steps).take(visible(steps) as int),
        ),
        run(constructed(meta), steps).read.0 == reference(appended(steps).take(visible(steps) as int)),
{
    lemma_run_consistent(meta, steps);
    let p = run(constructed::<Key, MutV, RefV, Meta, Op>(meta), steps);
    if p.first {
        assert(appended(steps).take(0) =~= Seq::empty());
    }
    lemma_entries_follow_reference(meta, appended(steps).take(visible(steps) as int));
}

/// Publishing twice with nothing appended in between shows readers the same
/// state as publishing once.
pub proof fn law_empty_publish_changes_nothing<Key, MutV: Mutable<Op>, RefV, Meta, Op>(
    meta: Meta,
    steps: Seq<Step<Key, MutV, RefV, Meta, Op>>,
)
    ensures
        run(constructed(meta), steps.push(Step::Publish).push(Step::Publish)).read
            == run(constructed(meta), steps.push(Step::Publish)).read,
{
    let once = steps.push(Step::<Key, MutV, RefV, Meta, Op>::Publish);
    let twice = once.push(Step::Publish);
    assert(twice.drop_last() =~= once);
    assert(once.drop_last() =~= steps);
    law_published_matches_reference(meta, once);
    law_published_matches_reference(meta, twice);
}

/// Construction's operation always opens the log, and some of it is visible
/// exactly when a publish has happened.
pub proof fn lemma_visible_iff_published<Key, MutV, RefV, Meta, Op>(
    steps: Seq<Step<Key, MutV, RefV, Meta, Op>>,
)
    ensures
        appended(steps).len() > 0,
        appended(steps)[0] is MarkReady,
        visible(steps) > 0 <==> has_published(steps),
    decreases steps.len(),
{
    if steps.len() > 0 {
        let prev = steps.drop_last();
        lemma_visible_iff_published(prev);
        if has_published(prev) {
            let i = choose|i: int| 0 <= i < prev.len() && prev[i] is Publish;
            assert(steps[i] is Publish);
        }
        if has_published(steps) && !(steps.last() is Publish) {
            let i = choose|i: int| 0 <= i < steps.len() && steps[i] is Publish;
            assert(prev[i] is Publish);
        }
        if steps.last() is Publish {
            assert(steps[steps.len() - 1] is Publish);
        }
    }
}

/// Readers find no ready copy before the first publish, and a ready one, possibly
/// empty, from the first publish on.
pub proof fn law_ready_from_first_publish<Key, MutV: Mutable<Op>, RefV, Meta, Op>(
    meta: Meta,
    steps: Seq<Step<Key, MutV, RefV, Meta, Op>>,
)
    ensures
        run(constructed(meta), steps).read.2 == has_published(steps),
{
    law_published_matches_reference(meta, steps);
    lemma_run_consistent::<Key, MutV, RefV, Meta, Op>(meta, steps);
    lemma_visible_iff_published(steps);
    let shown = appended(steps).take(visible(steps) as int);
    if visible(steps) > 0 {
        assert(shown[0] == appended(steps)[0]);
        lemma_ready_stays(empty_table::<Key, MutV, RefV, Meta>(meta), shown);
    } else {
        assert(shown =~= Seq::empty());
    }
}

} // verus!
