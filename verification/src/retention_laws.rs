//! What pruning the mid-run checkpoints comes to.
use vstd::prelude::*;
use vstd::seq_lib::seq_to_set_is_finite;
use vstd::set_lib::lemma_len_subset;

use crate::ranking;
use crate::runtime_training;
use crate::runtime_training::RetentionPlan;
use crate::text;

verus! {

/// The name of a mid-run file: the base name, the step in plain decimal, and the end.
pub open spec fn step_file(base_name: Seq<char>, step: usize, end: Seq<char>) -> Seq<char> {
    base_name + ".step-"@ + text::decimal(step as nat) + end
}

/// The steps of the checkpoints in a listing.
pub open spec fn snapshots_of(names: Seq<String>, base_name: Seq<char>) -> Seq<Option<usize>> {
    runtime_training::steps_in_names(names, base_name, ".mpk"@)
}

/// The steps of the sidecars in a listing.
pub open spec fn sidecars_of(names: Seq<String>, base_name: Seq<char>) -> Seq<Option<usize>> {
    runtime_training::steps_in_names(names, base_name, ".metadata.json"@)
}

/// Whether a listing names every file once, and the mid-run files by their steps in plain decimal.
pub open spec fn plain_listing(names: Seq<String>, base_name: Seq<char>) -> bool {
    &&& names.len() <= usize::MAX
    &&& forall|i: int, j: int|
        0 <= i < names.len() && 0 <= j < names.len() && (#[trigger] names[i])@ == (
        #[trigger] names[j])@ ==> i == j
    &&& forall|i: int|
        #![trigger snapshots_of(names, base_name)[i]]
        0 <= i < names.len() ==> (snapshots_of(names, base_name)[i] matches Some(step) ==> names[i]@
            == step_file(base_name, step, ".mpk"@))
    &&& forall|i: int|
        #![trigger sidecars_of(names, base_name)[i]]
        0 <= i < names.len() ==> (sidecars_of(names, base_name)[i] matches Some(step) ==> names[i]@
            == step_file(base_name, step, ".metadata.json"@))
}

/// Whether a plan removes an entry: as a checkpoint, as the sidecar of one, or as one that belongs
/// to none.
pub open spec fn removes(plan: RetentionPlan, i: int) -> bool {
    ||| exists|k: int| 0 <= k < plan.pruned@.len() && #[trigger] plan.pruned@[k].entry == i
    ||| exists|k: int|
        0 <= k < plan.pruned@.len() && #[trigger] plan.pruned@[k].sidecar == Some(i as usize)
    ||| plan.orphans@.contains(i as usize)
}

/// Whether `left` lists what a plan leaves of `names`, in whatever order.
pub open spec fn is_left(names: Seq<String>, plan: RetentionPlan, left: Seq<String>) -> bool {
    &&& forall|i: int|
        #![trigger left[i]]
        0 <= i < left.len() ==> exists|j: int|
            0 <= j < names.len() && !removes(plan, j) && (#[trigger] names[j])@ == left[i]@
    &&& forall|j: int|
        #![trigger names[j]]
        0 <= j < names.len() && !removes(plan, j) ==> exists|i: int|
            0 <= i < left.len() && (#[trigger] left[i])@ == names[j]@
}

proof fn lemma_one_of_each_step(names: Seq<String>, base_name: Seq<char>, i: int, j: int)
    requires
        plain_listing(names, base_name),
        0 <= i < names.len(),
        0 <= j < names.len(),
    ensures
        snapshots_of(names, base_name)[i] is Some && snapshots_of(names, base_name)[i]
            == snapshots_of(names, base_name)[j] ==> i == j,
        sidecars_of(names, base_name)[i] is Some && sidecars_of(names, base_name)[i]
            == sidecars_of(names, base_name)[j] ==> i == j,
        !(snapshots_of(names, base_name)[i] is Some && sidecars_of(names, base_name)[i] is Some),
{
    if snapshots_of(names, base_name)[i] is Some && sidecars_of(names, base_name)[i] is Some {
        reveal_strlit(".mpk");
        reveal_strlit(".metadata.json");
        assert(names[i]@.last() == 'k');
        assert(names[i]@.last() == 'n');
    }
}

proof fn lemma_last_of_step(steps: Seq<Option<usize>>, step: usize, i: int)
    requires
        steps.len() <= usize::MAX,
        0 <= i < steps.len(),
        steps[i] == Some(step),
    ensures
        runtime_training::last_of_step(steps, step) matches Some(p) && p < steps.len()
            && steps[p as int] == Some(step),
    decreases steps.len(),
{
    if steps.last() != Some(step) {
        lemma_last_of_step(steps.drop_last(), step, i);
    }
}

proof fn lemma_orphans_are_listed(
    sidecars: Seq<Option<usize>>,
    snapshots: Seq<Option<usize>>,
    n: nat,
    i: int,
)
    requires
        0 <= i < n <= sidecars.len() <= usize::MAX,
        runtime_training::is_orphan(sidecars, snapshots, i),
    ensures
        runtime_training::orphans(sidecars, snapshots, n).contains(i as usize),
    decreases n,
{
    let list = runtime_training::orphans(sidecars, snapshots, n);
    if i == n - 1 {
        assert(list.last() == i as usize);
    } else {
        let less = (n - 1) as nat;
        lemma_orphans_are_listed(sidecars, snapshots, less, i);
        let before = runtime_training::orphans(sidecars, snapshots, less);
        let k = choose|k: int| 0 <= k < before.len() && before[k] == i as usize;
        assert(list[k] == i as usize);
    }
}

proof fn lemma_some_orphan(sidecars: Seq<Option<usize>>, snapshots: Seq<Option<usize>>, n: nat)
    requires
        runtime_training::orphans(sidecars, snapshots, n).len() > 0,
        n <= sidecars.len(),
    ensures
        exists|i: int| 0 <= i < n && #[trigger] runtime_training::is_orphan(sidecars, snapshots, i),
    decreases n,
{
    if !runtime_training::is_orphan(sidecars, snapshots, n - 1) {
        lemma_some_orphan(sidecars, snapshots, (n - 1) as nat);
    }
}

/// The order of a plan: what is kept, then what is removed.
spec fn order_of(plan: RetentionPlan) -> Seq<usize> {
    plan.kept@ + runtime_training::pruned_entries(plan.pruned@)
}

proof fn lemma_order_has_no_duplicates(order: Seq<usize>, keys: Seq<Option<usize>>)
    requires
        ranking::highest_first(order, keys, keys.len() as int),
    ensures
        order.no_duplicates(),
{
    assert forall|a: int, b: int|
        0 <= a < order.len() && 0 <= b < order.len() && a != b implies order[a] != order[b] by {
        if a < b {
            assert(ranking::higher(keys, order[a] as int, order[b] as int));
        } else {
            assert(ranking::higher(keys, order[b] as int, order[a] as int));
        }
    }
}

/// A checkpoint of the listing that is not removed is kept.
proof fn lemma_unremoved_is_kept(
    names: Seq<String>,
    base_name: Seq<char>,
    keep: usize,
    plan: RetentionPlan,
    i: int,
)
    requires
        plain_listing(names, base_name),
        plan.keeps_newest(keep, snapshots_of(names, base_name), sidecars_of(names, base_name)),
        0 <= i < names.len(),
        snapshots_of(names, base_name)[i] is Some,
        !removes(plan, i),
    ensures
        plan.kept@.contains(i as usize),
{
    let order = order_of(plan);
    assert(order.contains(i as usize));
    let k = choose|k: int| 0 <= k < order.len() && order[k] == i as usize;
    if k < plan.kept@.len() {
        assert(plan.kept@[k] == i as usize);
    } else {
        assert(plan.pruned@[k - plan.kept@.len()].entry == i);
    }
}

/// Where a name that is left stands in the listing.
spec fn home(names: Seq<String>, plan: RetentionPlan, name: Seq<char>) -> int {
    choose|j: int| 0 <= j < names.len() && !removes(plan, j) && (#[trigger] names[j])@ == name
}

proof fn lemma_checkpoints_left(
    names: Seq<String>,
    left: Seq<String>,
    base_name: Seq<char>,
    keep: usize,
    plan: RetentionPlan,
    order: Seq<usize>,
)
    requires
        plain_listing(names, base_name),
        plan.keeps_newest(keep, snapshots_of(names, base_name), sidecars_of(names, base_name)),
        plain_listing(left, base_name),
        is_left(names, plan, left),
        ranking::highest_first(order, snapshots_of(left, base_name), left.len() as int),
    ensures
        order.len() <= plan.kept@.len(),
{
    let steps = snapshots_of(left, base_name);
    lemma_order_has_no_duplicates(order, steps);
    let homes = Seq::new(order.len(), |k: int| home(names, plan, left[order[k] as int]@) as usize);
    let kept = plan.kept@.to_set();
    assert forall|k: int| 0 <= k < order.len() implies kept.contains(#[trigger] homes[k])
        && names[homes[k] as int]@ == left[order[k] as int]@ by {
        let i = order[k] as int;
        assert(i < left.len() && steps[i] is Some);
        let j = home(names, plan, left[i]@);
        assert(exists|j: int|
            0 <= j < names.len() && !removes(plan, j) && (#[trigger] names[j])@ == left[i]@);
        assert(snapshots_of(names, base_name)[j] == steps[i]);
        lemma_unremoved_is_kept(names, base_name, keep, plan, j);
    }
    assert(homes.no_duplicates()) by {
        assert forall|a: int, b: int|
            0 <= a < homes.len() && 0 <= b < homes.len() && a != b implies homes[a] != homes[b] by {
            assert(order[a] != order[b]);
            assert(left[order[a] as int]@ != left[order[b] as int]@);
        }
    }
    homes.unique_seq_to_set();
    plan.kept@.lemma_cardinality_of_set();
    assert(homes.to_set().subset_of(kept)) by {
        assert forall|x: usize| homes.to_set().contains(x) implies kept.contains(x) by {
            let k = choose|k: int| 0 <= k < homes.len() && homes[k] == x;
            assert(kept.contains(homes[k]));
        }
    }
    seq_to_set_is_finite(plan.kept@);
    lemma_len_subset(homes.to_set(), kept);
}

/// A sidecar that is left belongs to a checkpoint that is left.
proof fn lemma_sidecars_left(
    names: Seq<String>,
    left: Seq<String>,
    base_name: Seq<char>,
    keep: usize,
    plan: RetentionPlan,
    i: int,
)
    requires
        plain_listing(names, base_name),
        plan.keeps_newest(keep, snapshots_of(names, base_name), sidecars_of(names, base_name)),
        is_left(names, plan, left),
        0 <= i < left.len(),
        sidecars_of(left, base_name)[i] is Some,
    ensures
        snapshots_of(left, base_name).contains(sidecars_of(left, base_name)[i]),
{
    let snapshots = snapshots_of(names, base_name);
    let sidecars = sidecars_of(names, base_name);
    let step = sidecars_of(left, base_name)[i]->Some_0;
    let j = choose|j: int|
        0 <= j < names.len() && !removes(plan, j) && (#[trigger] names[j])@ == left[i]@;
    assert(sidecars[j] == Some(step));
    lemma_last_of_step(sidecars, step, j);
    let last = runtime_training::last_of_step(sidecars, step)->Some_0;
    lemma_one_of_each_step(names, base_name, j, last as int);
    if snapshots.contains(Some(step)) {
        let m = choose|m: int| 0 <= m < snapshots.len() && snapshots[m] == Some(step);
        if removes(plan, m) {
            lemma_checkpoint_goes_with_its_sidecar(names, base_name, keep, plan, m, j);
        } else {
            assert(names[m]@ == names[m]@);
            let n = choose|n: int| 0 <= n < left.len() && (#[trigger] left[n])@ == names[m]@;
            assert(snapshots_of(left, base_name)[n] == Some(step));
        }
    } else {
        assert(runtime_training::is_orphan(sidecars, snapshots, j));
        lemma_orphans_are_listed(sidecars, snapshots, sidecars.len(), j);
    }
}

proof fn lemma_checkpoint_goes_with_its_sidecar(
    names: Seq<String>,
    base_name: Seq<char>,
    keep: usize,
    plan: RetentionPlan,
    m: int,
    j: int,
)
    requires
        plain_listing(names, base_name),
        plan.keeps_newest(keep, snapshots_of(names, base_name), sidecars_of(names, base_name)),
        0 <= m < names.len(),
        0 <= j < names.len(),
        snapshots_of(names, base_name)[m] is Some,
        snapshots_of(names, base_name)[m] == sidecars_of(names, base_name)[j],
        removes(plan, m),
    ensures
        removes(plan, j),
{
    let snapshots = snapshots_of(names, base_name);
    let sidecars = sidecars_of(names, base_name);
    let step = sidecars[j]->Some_0;
    let pruned = plan.pruned@;
    lemma_one_of_each_step(names, base_name, m, m);
    lemma_last_of_step(sidecars, step, j);
    let last = runtime_training::last_of_step(sidecars, step)->Some_0;
    lemma_one_of_each_step(names, base_name, j, last as int);
    lemma_removed_checkpoint_is_pruned(names, base_name, keep, plan, m);
    let k = choose|k: int| 0 <= k < pruned.len() && #[trigger] pruned[k].entry == m;
    assert(runtime_training::is_pruned_rightly(pruned, snapshots, sidecars, k));
    assert(pruned[k].step == step);
    let order = order_of(plan);
    lemma_order_has_no_duplicates(order, snapshots);
    if exists|o: int| 0 <= o < k && #[trigger] pruned[o].step == pruned[k].step {
        let o = choose|o: int| 0 <= o < k && #[trigger] pruned[o].step == pruned[k].step;
        assert(runtime_training::is_pruned_rightly(pruned, snapshots, sidecars, o));
        let base = plan.kept@.len();
        assert(order[base + o] == pruned[o].entry);
        assert(order[base + k] == pruned[k].entry);
        lemma_one_of_each_step(names, base_name, pruned[o].entry as int, m);
    }
    assert(pruned[k].sidecar == Some(j as usize));
}

proof fn lemma_removed_checkpoint_is_pruned(
    names: Seq<String>,
    base_name: Seq<char>,
    keep: usize,
    plan: RetentionPlan,
    m: int,
)
    requires
        plain_listing(names, base_name),
        plan.keeps_newest(keep, snapshots_of(names, base_name), sidecars_of(names, base_name)),
        0 <= m < names.len(),
        snapshots_of(names, base_name)[m] is Some,
        removes(plan, m),
    ensures
        exists|k: int| 0 <= k < plan.pruned@.len() && #[trigger] plan.pruned@[k].entry == m,
{
    let snapshots = snapshots_of(names, base_name);
    let sidecars = sidecars_of(names, base_name);
    let pruned = plan.pruned@;
    lemma_one_of_each_step(names, base_name, m, m);
    assert(sidecars[m] is None);
    if exists|k: int| 0 <= k < pruned.len() && #[trigger] pruned[k].sidecar == Some(m as usize) {
        let k = choose|k: int| 0 <= k < pruned.len() && #[trigger] pruned[k].sidecar == Some(
            m as usize,
        );
        assert(runtime_training::is_pruned_rightly(pruned, snapshots, sidecars, k));
        lemma_last_is_of_step(sidecars, pruned[k].step);
    } else if plan.orphans@.contains(m as usize) {
        lemma_listed_are_orphans(sidecars, snapshots, sidecars.len(), m);
    }
}

proof fn lemma_last_is_of_step(steps: Seq<Option<usize>>, step: usize)
    requires
        steps.len() <= usize::MAX,
    ensures
        runtime_training::last_of_step(steps, step) matches Some(p) ==> p < steps.len()
            && steps[p as int] == Some(step),
    decreases steps.len(),
{
    if steps.len() > 0 && steps.last() != Some(step) {
        lemma_last_is_of_step(steps.drop_last(), step);
    }
}

proof fn lemma_listed_are_orphans(
    sidecars: Seq<Option<usize>>,
    snapshots: Seq<Option<usize>>,
    n: nat,
    i: int,
)
    requires
        0 <= i < sidecars.len() <= usize::MAX,
        n <= sidecars.len(),
        runtime_training::orphans(sidecars, snapshots, n).contains(i as usize),
    ensures
        runtime_training::is_orphan(sidecars, snapshots, i),
    decreases n,
{
    let list = runtime_training::orphans(sidecars, snapshots, n);
    let k = choose|k: int| 0 <= k < list.len() && list[k] == i as usize;
    if runtime_training::is_orphan(sidecars, snapshots, n - 1) && k == list.len() - 1 {
    } else {
        let before = runtime_training::orphans(sidecars, snapshots, (n - 1) as nat);
        assert(before[k] == i as usize);
        lemma_listed_are_orphans(sidecars, snapshots, (n - 1) as nat, i);
    }
}

/// Pruning once is enough: a second plan, for what the first one left, removes nothing.
pub proof fn law_pruning_again_removes_nothing(
    names: Seq<String>,
    left: Seq<String>,
    base_name: Seq<char>,
    keep: usize,
    plan: RetentionPlan,
    again: RetentionPlan,
)
    requires
        plain_listing(names, base_name),
        plan.keeps_newest(keep, snapshots_of(names, base_name), sidecars_of(names, base_name)),
        plain_listing(left, base_name),
        is_left(names, plan, left),
        again.keeps_newest(keep, snapshots_of(left, base_name), sidecars_of(left, base_name)),
    ensures
        again.pruned@.len() == 0,
        again.orphans@.len() == 0,
{
    let snapshots = snapshots_of(left, base_name);
    let sidecars = sidecars_of(left, base_name);
    let order = order_of(again);
    lemma_checkpoints_left(names, left, base_name, keep, plan, order);
    if again.orphans@.len() > 0 {
        lemma_some_orphan(sidecars, snapshots, sidecars.len());
        let i = choose|i: int|
            0 <= i < sidecars.len() && #[trigger] runtime_training::is_orphan(
                sidecars,
                snapshots,
                i,
            );
        lemma_sidecars_left(names, left, base_name, keep, plan, i);
    }
}

/// The checkpoints of a listing that are newer than a step.
pub open spec fn newer(snapshots: Seq<Option<usize>>, step: usize) -> Set<int> {
    Set::new(
        |i: int|
            0 <= i < snapshots.len() && (snapshots[i] matches Some(other) && other > step),
    )
}

/// A checkpoint is removed exactly where at least as many newer ones are there as are to be kept.
pub proof fn law_removed_are_those_with_enough_newer(
    names: Seq<String>,
    base_name: Seq<char>,
    keep: usize,
    plan: RetentionPlan,
    i: int,
)
    requires
        plain_listing(names, base_name),
        plan.keeps_newest(keep, snapshots_of(names, base_name), sidecars_of(names, base_name)),
        0 <= i < names.len(),
        snapshots_of(names, base_name)[i] is Some,
    ensures
        newer(snapshots_of(names, base_name), snapshots_of(names, base_name)[i]->Some_0).finite(),
        removes(plan, i) <==> newer(
            snapshots_of(names, base_name),
            snapshots_of(names, base_name)[i]->Some_0,
        ).len() >= keep,
{
    let snapshots = snapshots_of(names, base_name);
    let step = snapshots[i]->Some_0;
    let order = order_of(plan);
    assert(order.contains(i as usize));
    let p = choose|p: int| 0 <= p < order.len() && order[p] == i as usize;
    let above = Seq::new(p as nat, |k: int| order[k] as int);
    lemma_order_has_no_duplicates(order, snapshots);
    assert(above.no_duplicates()) by {
        assert forall|a: int, b: int|
            0 <= a < above.len() && 0 <= b < above.len() && a != b implies above[a] != above[b] by {
            assert(order[a] != order[b]);
        }
    }
    assert(above.to_set() == newer(snapshots, step)) by {
        assert forall|j: int| above.to_set().contains(j) <==> newer(snapshots, step).contains(
            j,
        ) by {
            if above.to_set().contains(j) {
                let k = choose|k: int| 0 <= k < above.len() && above[k] == j;
                assert(ranking::higher(snapshots, order[k] as int, order[p] as int));
                lemma_one_of_each_step(names, base_name, i, j);
            }
            if newer(snapshots, step).contains(j) {
                assert(snapshots[j] is Some);
                assert(order.contains(j as usize));
                let k = choose|k: int| 0 <= k < order.len() && order[k] == j as usize;
                if k > p {
                    assert(ranking::higher(snapshots, order[p] as int, order[k] as int));
                }
                assert(above[k] == j);
            }
        }
    }
    above.unique_seq_to_set();
    seq_to_set_is_finite(above);
    if p < plan.kept@.len() {
        if removes(plan, i) {
            lemma_removed_checkpoint_is_pruned(names, base_name, keep, plan, i);
            let k = choose|k: int| 0 <= k < plan.pruned@.len() && #[trigger] plan.pruned@[k].entry
                == i;
            assert(order[plan.kept@.len() + k] == i as usize);
        }
    } else {
        assert(plan.pruned@[p - plan.kept@.len()].entry == i);
    }
}

/// A sidecar is removed exactly where its checkpoint is not there, or is removed too.
pub proof fn law_sidecars_go_with_their_checkpoints(
    names: Seq<String>,
    base_name: Seq<char>,
    keep: usize,
    plan: RetentionPlan,
    i: int,
)
    requires
        plain_listing(names, base_name),
        plan.keeps_newest(keep, snapshots_of(names, base_name), sidecars_of(names, base_name)),
        0 <= i < names.len(),
        sidecars_of(names, base_name)[i] is Some,
    ensures
        removes(plan, i) <==> forall|m: int|
            0 <= m < names.len() && #[trigger] snapshots_of(names, base_name)[m] == sidecars_of(
                names,
                base_name,
            )[i] ==> removes(plan, m),
{
    let snapshots = snapshots_of(names, base_name);
    let sidecars = sidecars_of(names, base_name);
    let step = sidecars[i]->Some_0;
    if removes(plan, i) {
        assert forall|m: int|
            0 <= m < names.len() && #[trigger] snapshots[m] == sidecars[i] implies removes(
            plan,
            m,
        ) by {
            lemma_sidecar_goes_with_its_checkpoint(names, base_name, keep, plan, m, i);
        }
    } else if snapshots.contains(Some(step)) {
        let m = choose|m: int| 0 <= m < snapshots.len() && snapshots[m] == Some(step);
        if removes(plan, m) {
            lemma_checkpoint_goes_with_its_sidecar(names, base_name, keep, plan, m, i);
        }
        assert(snapshots[m] == sidecars[i]);
    } else {
        lemma_last_of_step(sidecars, step, i);
        let last = runtime_training::last_of_step(sidecars, step)->Some_0;
        lemma_one_of_each_step(names, base_name, i, last as int);
        assert(runtime_training::is_orphan(sidecars, snapshots, i));
        lemma_orphans_are_listed(sidecars, snapshots, sidecars.len(), i);
    }
}

proof fn lemma_sidecar_goes_with_its_checkpoint(
    names: Seq<String>,
    base_name: Seq<char>,
    keep: usize,
    plan: RetentionPlan,
    m: int,
    i: int,
)
    requires
        plain_listing(names, base_name),
        plan.keeps_newest(keep, snapshots_of(names, base_name), sidecars_of(names, base_name)),
        0 <= m < names.len(),
        0 <= i < names.len(),
        sidecars_of(names, base_name)[i] is Some,
        snapshots_of(names, base_name)[m] == sidecars_of(names, base_name)[i],
        removes(plan, i),
    ensures
        removes(plan, m),
{
    let snapshots = snapshots_of(names, base_name);
    let sidecars = sidecars_of(names, base_name);
    let pruned = plan.pruned@;
    lemma_one_of_each_step(names, base_name, i, i);
    if exists|k: int| 0 <= k < pruned.len() && #[trigger] pruned[k].entry == i {
        let k = choose|k: int| 0 <= k < pruned.len() && #[trigger] pruned[k].entry == i;
        assert(runtime_training::is_pruned_rightly(pruned, snapshots, sidecars, k));
    } else if exists|k: int|
        0 <= k < pruned.len() && #[trigger] pruned[k].sidecar == Some(i as usize) {
        let k = choose|k: int|
            0 <= k < pruned.len() && #[trigger] pruned[k].sidecar == Some(i as usize);
        assert(runtime_training::is_pruned_rightly(pruned, snapshots, sidecars, k));
        lemma_last_is_of_step(sidecars, pruned[k].step);
        let order = order_of(plan);
        assert(order[plan.kept@.len() + k] == pruned[k].entry);
        lemma_one_of_each_step(names, base_name, m, pruned[k].entry as int);
        assert(pruned[k].entry == m);
    } else {
        lemma_listed_are_orphans(sidecars, snapshots, sidecars.len(), i);
        assert(snapshots.contains(snapshots[m]));
    }
}

/// What is no mid-run file stays.
pub proof fn law_other_files_stay(
    names: Seq<String>,
    base_name: Seq<char>,
    keep: usize,
    plan: RetentionPlan,
    i: int,
)
    requires
        names.len() <= usize::MAX,
        plan.keeps_newest(keep, snapshots_of(names, base_name), sidecars_of(names, base_name)),
        0 <= i < names.len(),
        snapshots_of(names, base_name)[i] is None,
        sidecars_of(names, base_name)[i] is None,
    ensures
        !removes(plan, i),
{
    let snapshots = snapshots_of(names, base_name);
    let sidecars = sidecars_of(names, base_name);
    let pruned = plan.pruned@;
    if exists|k: int| 0 <= k < pruned.len() && #[trigger] pruned[k].entry == i {
        let k = choose|k: int| 0 <= k < pruned.len() && #[trigger] pruned[k].entry == i;
        assert(runtime_training::is_pruned_rightly(pruned, snapshots, sidecars, k));
    } else if exists|k: int|
        0 <= k < pruned.len() && #[trigger] pruned[k].sidecar == Some(i as usize) {
        let k = choose|k: int|
            0 <= k < pruned.len() && #[trigger] pruned[k].sidecar == Some(i as usize);
        assert(runtime_training::is_pruned_rightly(pruned, snapshots, sidecars, k));
        lemma_last_is_of_step(sidecars, pruned[k].step);
    } else if plan.orphans@.contains(i as usize) {
        lemma_listed_are_orphans(sidecars, snapshots, sidecars.len(), i);
    }
}

/// Whether a checkpoint of the given step has to go: at least as many newer ones are there as are
/// to be kept.
pub open spec fn outlived(snapshots: Seq<Option<usize>>, step: usize, keep: usize) -> bool {
    newer(snapshots, step).len() >= keep
}

/// Whether a file of a listing has to go: a checkpoint that is outlived, or a sidecar whose
/// checkpoint is outlived or not there.
pub open spec fn has_to_go(
    names: Seq<String>,
    base_name: Seq<char>,
    keep: usize,
    i: int,
) -> bool {
    let snapshots = snapshots_of(names, base_name);
    match (snapshots[i], sidecars_of(names, base_name)[i]) {
        (Some(step), _) => outlived(snapshots, step, keep),
        (None, Some(step)) => snapshots.contains(Some(step)) ==> outlived(snapshots, step, keep),
        (None, None) => false,
    }
}

/// What pruning does, file by file. Where nothing is to be kept, or the base has no directory or
/// no name, nothing is removed. Else the files that are removed are exactly those that have to go:
/// see [`has_to_go`]. The checkpoint of the base itself, its sidecar and the files of interrupted
/// runs are never among them.
pub proof fn law_what_pruning_removes(
    checkpoint_base: Seq<char>,
    keep: usize,
    names: Seq<String>,
    plan: Option<RetentionPlan>,
    i: int,
)
    requires
        plain_listing(names, runtime_training::checkpoint_name(checkpoint_base)),
        runtime_training::is_pruning(plan, checkpoint_base, keep, names),
        0 <= i < names.len(),
    ensures
        keep == 0 ==> plan is None,
        plan matches Some(p) ==> (removes(p, i) <==> has_to_go(
            names,
            runtime_training::checkpoint_name(checkpoint_base),
            keep,
            i,
        )),
        plan matches Some(p) ==> is_lasting_name(
            names[i]@,
            runtime_training::checkpoint_name(checkpoint_base),
        ) ==> !removes(p, i),
{
    let base_name = runtime_training::checkpoint_name(checkpoint_base);
    let snapshots = snapshots_of(names, base_name);
    let sidecars = sidecars_of(names, base_name);
    if let Some(p) = plan {
        if snapshots[i] is Some {
            law_removed_are_those_with_enough_newer(names, base_name, keep, p, i);
        } else if sidecars[i] is Some {
            law_sidecars_go_with_their_checkpoints(names, base_name, keep, p, i);
            if snapshots.contains(sidecars[i]) {
                let m = choose|m: int|
                    0 <= m < snapshots.len() && snapshots[m] == sidecars[i];
                law_removed_are_those_with_enough_newer(names, base_name, keep, p, m);
                assert forall|n: int|
                    0 <= n < names.len() && #[trigger] snapshots[n] == sidecars[i] implies n
                    == m by {
                    lemma_one_of_each_step(names, base_name, m, n);
                }
            } else {
                assert forall|n: int| 0 <= n < names.len() implies #[trigger] snapshots[n]
                    != sidecars[i] by {
                    assert(snapshots.contains(snapshots[n]));
                }
            }
        } else {
            law_other_files_stay(names, base_name, keep, p, i);
        }
        if is_lasting_name(names[i]@, base_name) {
            lemma_lasting_names_have_no_step(names[i]@, base_name);
        }
    }
}

/// Whether a name is that of the base's own checkpoint or sidecar, or of a file of an interrupted
/// run.
pub open spec fn is_lasting_name(name: Seq<char>, base_name: Seq<char>) -> bool {
    ||| name == base_name + ".mpk"@
    ||| name == base_name + ".metadata.json"@
    ||| (base_name + ".interrupted-step-"@).is_prefix_of(name)
}

proof fn lemma_lasting_names_have_no_step(name: Seq<char>, base_name: Seq<char>)
    requires
        is_lasting_name(name, base_name),
    ensures
        runtime_training::step_in_name(name, base_name, ".mpk"@) is None,
        runtime_training::step_in_name(name, base_name, ".metadata.json"@) is None,
{
    reveal_strlit(".");
    reveal_strlit(".mpk");
    reveal_strlit(".metadata.json");
    reveal_strlit(".interrupted-step-");
    let n = base_name.len() as int;
    let rest = name.skip(n + 1);
    if name == base_name + ".mpk"@ {
        assert(rest[0] == 'm');
    } else if name == base_name + ".metadata.json"@ {
        assert(rest[0] == 'm');
    } else {
        let start = base_name + ".interrupted-step-"@;
        assert(name.take(start.len() as int) == start);
        assert(name[n] == start[n]);
        assert(name[n + 1] == start[n + 1]);
        assert forall|k: int| 0 <= k < n implies name[k] == base_name[k] by {
            assert(name[k] == start[k]);
        }
        assert(rest[0] == 'i');
    }
    assert(name == base_name + "."@ + rest);
    runtime_training::law_final_checkpoints_are_never_pruned(base_name, rest);
}

} // verus!
