//! The behavioural laws of the dispatch protocol, stated over the model
//! transitions and proved once and for all.

use vstd::prelude::*;

use crate::lemmas::{
    lemma_build_index_unique, lemma_instance_index_unique, lemma_next_spec_step,
    lemma_register_in_build_wf, lemma_register_wf, lemma_reset_absent, lemma_sweep_membership,
};
use crate::model::{
    build_at, build_index, build_wf, dequeued_value, distinct_build_ids, expired, fresh_build,
    fresh_instance, has_build, has_instance, instance_at, next_spec_builds, register_builds,
    register_in_build, registered_view, registry_wf, reset_builds, sweep_builds, BuildModel,
    CompletionStatus,
};

verus! {

/// The registry after `k` successive polls for the same build and instance.
pub open spec fn after_polls(
    bs: Seq<BuildModel>,
    build_id: Seq<char>,
    instance_id: Seq<char>,
    k: nat,
) -> Seq<BuildModel>
    decreases k,
{
    if k == 0 {
        bs
    } else {
        next_spec_builds(after_polls(bs, build_id, instance_id, (k - 1) as nat), build_id, instance_id)
    }
}

/// The specification handed out by the poll made after `k` earlier polls.
pub open spec fn poll_value(
    bs: Seq<BuildModel>,
    build_id: Seq<char>,
    instance_id: Seq<char>,
    k: nat,
) -> Seq<char> {
    dequeued_value(build_at(after_polls(bs, build_id, instance_id, k), build_id))
}

/// Successive polls drain the queue strictly from the front: after `k` polls
/// the queue is the original one with its first `k` entries gone, the poll at
/// position `k` returns the `k`-th entry while one exists and the empty
/// sentinel ever after, and the registry stays live and well-formed.
pub proof fn lemma_polls_in_order(
    bs: Seq<BuildModel>,
    build_id: Seq<char>,
    instance_id: Seq<char>,
    k: nat,
)
    requires
        registry_wf(bs),
        has_build(bs, build_id),
        has_instance(build_at(bs, build_id).instances, instance_id),
    ensures
        ({
            let post = after_polls(bs, build_id, instance_id, k);
            let q = build_at(bs, build_id).test_spec_list;
            &&& registry_wf(post)
            &&& has_build(post, build_id)
            &&& has_instance(build_at(post, build_id).instances, instance_id)
            &&& build_at(post, build_id).test_spec_list == (if k <= q.len() {
                q.skip(k as int)
            } else {
                Seq::<Seq<char>>::empty()
            })
            &&& poll_value(bs, build_id, instance_id, k) == (if k < q.len() {
                q[k as int]
            } else {
                Seq::<char>::empty()
            })
        }),
    decreases k,
{
    let q = build_at(bs, build_id).test_spec_list;
    if k == 0 {
        assert(q.skip(0) =~= q);
    } else {
        lemma_polls_in_order(bs, build_id, instance_id, (k - 1) as nat);
        let prev = after_polls(bs, build_id, instance_id, (k - 1) as nat);
        let qp = build_at(prev, build_id).test_spec_list;
        lemma_next_spec_step(prev, build_id, instance_id);
        let post = after_polls(bs, build_id, instance_id, k);
        assert(post == next_spec_builds(prev, build_id, instance_id));
        if k - 1 < q.len() {
            assert(qp == q.skip(k - 1));
            assert(qp.len() == q.len() - (k - 1));
            if qp.len() > 0 {
                assert(build_at(post, build_id).test_spec_list == qp.drop_first());
                assert(qp.drop_first() =~= q.skip(k as int));
            } else {
                assert(k == q.len());
                assert(build_at(post, build_id).test_spec_list =~= q.skip(k as int));
            }
        } else {
            assert(qp =~= Seq::<Seq<char>>::empty());
            assert(build_at(post, build_id).test_spec_list =~= Seq::<Seq<char>>::empty());
        }
        let qk = build_at(post, build_id).test_spec_list;
        if k < q.len() {
            assert(qk == q.skip(k as int));
            assert(qk[0] == q[k as int]);
            assert(poll_value(bs, build_id, instance_id, k) == q[k as int]);
        } else {
            assert(qk.len() == 0);
        }
    }
}

/// Against a queue of distinct specifications, every specification is handed
/// out exactly once, in insertion order: the poll at each position below the
/// queue length returns the entry at that position, two polls at different
/// positions never return the same entry, and polls past the length return the
/// empty sentinel.
pub proof fn lemma_each_spec_dispatched_once(
    bs: Seq<BuildModel>,
    build_id: Seq<char>,
    instance_id: Seq<char>,
    i: nat,
    j: nat,
)
    requires
        registry_wf(bs),
        has_build(bs, build_id),
        has_instance(build_at(bs, build_id).instances, instance_id),
        ({
            let q = build_at(bs, build_id).test_spec_list;
            forall|p: int, r: int| 0 <= p < r < q.len() ==> q[p] != q[r]
        }),
        i < build_at(bs, build_id).test_spec_list.len(),
        i != j,
    ensures
        poll_value(bs, build_id, instance_id, i) == build_at(bs, build_id).test_spec_list[i as int],
        j < build_at(bs, build_id).test_spec_list.len() ==> poll_value(
            bs,
            build_id,
            instance_id,
            j,
        ) != poll_value(bs, build_id, instance_id, i),
        j >= build_at(bs, build_id).test_spec_list.len() ==> poll_value(
            bs,
            build_id,
            instance_id,
            j,
        ) == Seq::<char>::empty(),
{
    lemma_polls_in_order(bs, build_id, instance_id, i);
    lemma_polls_in_order(bs, build_id, instance_id, j);
}

/// Registering the same build and instance pair a second time is a no-op:
/// the registry is unchanged — no queue reset, no new instance, no change of
/// assignment history or master flag — and the reported instance is the same.
pub proof fn lemma_register_idempotent(
    bs: Seq<BuildModel>,
    build_id: Seq<char>,
    instance_id: Seq<char>,
    specs: Seq<Seq<char>>,
    specs2: Seq<Seq<char>>,
    now: int,
    now2: int,
)
    requires
        registry_wf(bs),
    ensures
        ({
            let once = register_builds(bs, build_id, instance_id, specs, now);
            let twice = register_builds(once, build_id, instance_id, specs2, now2);
            &&& twice == once
            &&& registered_view(twice, build_id, instance_id) == registered_view(
                once,
                build_id,
                instance_id,
            )
        }),
{
    lemma_register_wf(bs, build_id, instance_id, specs, now);
    let once = register_builds(bs, build_id, instance_id, specs, now);
    let twice = register_builds(once, build_id, instance_id, specs2, now2);
    let k = build_index(once, build_id);
    assert(has_build(once, build_id));
    assert(0 <= k < once.len() && once[k].id == build_id);
    lemma_build_index_unique(once, k);
    assert(build_at(once, build_id) == once[k]);
    assert(has_instance(once[k].instances, instance_id));
    assert(register_in_build(once[k], instance_id) == once[k]);
    assert(twice == once.update(k, once[k]));
    assert(once.update(k, once[k]) =~= once);
}

/// In a well-formed registry the first-registered instance of every build is
/// the master and every other instance is not.
pub proof fn lemma_master_is_first(bs: Seq<BuildModel>, build_id: Seq<char>)
    requires
        registry_wf(bs),
        has_build(bs, build_id),
    ensures
        forall|i: int|
            0 <= i < build_at(bs, build_id).instances.len() ==> (build_at(
                bs,
                build_id,
            ).instances[i].is_master <==> i == 0),
{
    let k = build_index(bs, build_id);
    assert(0 <= k < bs.len() && bs[k].id == build_id);
    assert(build_wf(bs[k]));
}

/// Master election: a registration reports the master flag exactly when it
/// created the first instance of the build; a later distinct instance is never
/// master, and re-registration reports the stored instance unchanged.
pub proof fn lemma_register_master_election(
    bs: Seq<BuildModel>,
    build_id: Seq<char>,
    instance_id: Seq<char>,
    specs: Seq<Seq<char>>,
    now: int,
)
    requires
        registry_wf(bs),
    ensures
        ({
            let after = register_builds(bs, build_id, instance_id, specs, now);
            let inst = registered_view(after, build_id, instance_id);
            &&& (!has_build(bs, build_id) ==> inst.is_master)
            &&& (has_build(bs, build_id) && build_at(bs, build_id).instances.len() == 0
                ==> inst.is_master)
            &&& (has_build(bs, build_id) && build_at(bs, build_id).instances.len() > 0
                && !has_instance(build_at(bs, build_id).instances, instance_id)
                ==> !inst.is_master)
            &&& (has_build(bs, build_id) && has_instance(
                build_at(bs, build_id).instances,
                instance_id,
            ) ==> inst == instance_at(build_at(bs, build_id).instances, instance_id))
        }),
{
    lemma_register_wf(bs, build_id, instance_id, specs, now);
    let after = register_builds(bs, build_id, instance_id, specs, now);
    let base = if has_build(bs, build_id) {
        build_at(bs, build_id)
    } else {
        fresh_build(build_id, specs, now)
    };
    let rb = register_in_build(base, instance_id);
    assert(build_at(after, build_id) == rb);
    let k = build_index(after, build_id);
    lemma_register_in_build_wf(base, instance_id);
    if has_instance(base.instances, instance_id) {
        assert(rb == base);
    } else {
        let n = base.instances.len() as int;
        assert(rb.instances[n] == fresh_instance(instance_id, base.instances.len() == 0));
        assert(build_wf(base) ==> true);
        lemma_instance_index_unique(rb.instances, n);
        assert(registered_view(after, build_id, instance_id) == rb.instances[n]);
    }
}

/// A reset removes all trace of the build: afterwards registration under the
/// same id is first-time creation — the queue comes from the new request, the
/// instance map starts empty, and the registering instance is elected master.
pub proof fn lemma_reset_then_register_fresh(
    bs: Seq<BuildModel>,
    build_id: Seq<char>,
    instance_id: Seq<char>,
    specs: Seq<Seq<char>>,
    now: int,
)
    requires
        registry_wf(bs),
    ensures
        !has_build(reset_builds(bs, build_id), build_id),
        ({
            let after = register_builds(
                reset_builds(bs, build_id),
                build_id,
                instance_id,
                specs,
                now,
            );
            let b = build_at(after, build_id);
            &&& has_build(after, build_id)
            &&& b.test_spec_list == specs
            &&& b.created_on == now
            &&& b.instances.len() == 1
            &&& b.instances[0].id == instance_id
            &&& b.instances[0].is_master
            &&& b.instances[0].test_list == Seq::<Seq<char>>::empty()
            &&& b.instances[0].test_status == CompletionStatus::Ongoing
        }),
{
    lemma_reset_absent(bs, build_id);
    let cleared = reset_builds(bs, build_id);
    assert(registry_wf(cleared)) by {
        if has_build(bs, build_id) {
            crate::lemmas::lemma_remove_wf(bs, build_index(bs, build_id));
            assert(0 <= build_index(bs, build_id) < bs.len());
        }
    }
    lemma_register_wf(cleared, build_id, instance_id, specs, now);
    let after = register_builds(cleared, build_id, instance_id, specs, now);
    let fb = fresh_build(build_id, specs, now);
    assert(build_at(after, build_id) == register_in_build(fb, instance_id));
    assert(!has_instance(fb.instances, instance_id)) by {
        if has_instance(fb.instances, instance_id) {
            let w = choose|i: int|
                0 <= i < fb.instances.len() && fb.instances[i].id == instance_id;
            assert(false);
        }
    }
    assert(register_in_build(fb, instance_id).instances == fb.instances.push(
        fresh_instance(instance_id, true),
    ));
}

/// A build past the retention threshold is absent from the registry every
/// operation sees: the sweep that precedes each operation has removed it.
pub proof fn lemma_expired_build_absent(bs: Seq<BuildModel>, now: int, build_id: Seq<char>)
    requires
        distinct_build_ids(bs),
        has_build(bs, build_id),
        expired(build_at(bs, build_id), now),
    ensures
        !has_build(sweep_builds(bs, now), build_id),
{
    lemma_sweep_membership(bs, now, build_id);
}

} // verus!
