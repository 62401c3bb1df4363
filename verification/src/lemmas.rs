//! Supporting lemmas about the registry model: uniqueness of lookups,
//! membership under the expiry sweep, and preservation of well-formedness.

use vstd::prelude::*;

use crate::model::{
    assign_spec, build_at, build_index, build_wf, dequeued_value, distinct_build_ids, expired,
    fresh_build, has_build, has_instance, instance_at, instance_index, next_spec_builds,
    pop_front_build, register_builds, register_in_build, registry_wf, reset_builds, sweep_builds,
    BuildModel, InstanceModel,
};

verus! {

/// With distinct build ids, the id of the entry at `i` looks up to `i` itself.
pub proof fn lemma_build_index_unique(bs: Seq<BuildModel>, i: int)
    requires
        distinct_build_ids(bs),
        0 <= i < bs.len(),
    ensures
        has_build(bs, bs[i].id),
        build_index(bs, bs[i].id) == i,
        build_at(bs, bs[i].id) == bs[i],
{
    assert(has_build(bs, bs[i].id)) by {
        assert(0 <= i < bs.len() && bs[i].id == bs[i].id);
    }
    let j = build_index(bs, bs[i].id);
    assert(0 <= j < bs.len() && bs[j].id == bs[i].id);
    if i < j {
        assert(bs[i].id != bs[j].id);
    } else if j < i {
        assert(bs[j].id != bs[i].id);
    }
}

/// With distinct instance ids, the id of the entry at `i` looks up to `i`.
pub proof fn lemma_instance_index_unique(is: Seq<InstanceModel>, i: int)
    requires
        forall|p: int, q: int| 0 <= p < q < is.len() ==> is[p].id != is[q].id,
        0 <= i < is.len(),
    ensures
        has_instance(is, is[i].id),
        instance_index(is, is[i].id) == i,
        instance_at(is, is[i].id) == is[i],
{
    assert(has_instance(is, is[i].id)) by {
        assert(0 <= i < is.len() && is[i].id == is[i].id);
    }
    let j = instance_index(is, is[i].id);
    assert(0 <= j < is.len() && is[j].id == is[i].id);
    if i < j {
        assert(is[i].id != is[j].id);
    } else if j < i {
        assert(is[j].id != is[i].id);
    }
}

/// Dropping the first build keeps ids distinct, and lookups of every other id
/// pass through unchanged.
pub proof fn lemma_lookup_tail(bs: Seq<BuildModel>, id: Seq<char>)
    requires
        distinct_build_ids(bs),
        bs.len() > 0,
    ensures
        distinct_build_ids(bs.drop_first()),
        id == bs[0].id ==> has_build(bs, id) && build_at(bs, id) == bs[0] && !has_build(
            bs.drop_first(),
            id,
        ),
        id != bs[0].id ==> (has_build(bs, id) <==> has_build(bs.drop_first(), id)),
        id != bs[0].id && has_build(bs, id) ==> build_at(bs, id) == build_at(
            bs.drop_first(),
            id,
        ),
{
    let tail = bs.drop_first();
    assert(forall|k: int| 0 <= k < tail.len() ==> tail[k] == bs[k + 1]);
    if id == bs[0].id {
        lemma_build_index_unique(bs, 0);
        if has_build(tail, id) {
            let k = instance_free_witness_build(tail, id);
            assert(bs[k + 1].id == bs[0].id);
            assert(false);
        }
    } else {
        if has_build(bs, id) {
            let k = build_index(bs, id);
            assert(0 <= k < bs.len() && bs[k].id == id);
            assert(k != 0);
            assert(tail[k - 1].id == id);
            assert(has_build(tail, id)) by {
                assert(0 <= k - 1 < tail.len() && tail[k - 1].id == id);
            }
            let j = build_index(tail, id);
            assert(0 <= j < tail.len() && tail[j].id == id);
            assert(bs[j + 1].id == id);
            if j + 1 < k {
                assert(bs[j + 1].id != bs[k].id);
            } else if k < j + 1 {
                assert(bs[k].id != bs[j + 1].id);
            }
            assert(build_at(tail, id) == tail[j]);
            assert(tail[j] == bs[k]);
        }
        if has_build(tail, id) {
            let j = build_index(tail, id);
            assert(0 <= j < tail.len() && tail[j].id == id);
            assert(has_build(bs, id)) by {
                assert(0 <= j + 1 < bs.len() && bs[j + 1].id == id);
            }
        }
    }
}

/// Pulls the witness index out of a `has_build` fact.
proof fn instance_free_witness_build(bs: Seq<BuildModel>, id: Seq<char>) -> (k: int)
    requires
        has_build(bs, id),
    ensures
        0 <= k < bs.len() && bs[k].id == id,
{
    choose|i: int| 0 <= i < bs.len() && bs[i].id == id
}

/// After the sweep, a build id is present exactly when it named an unexpired
/// build before, and it still names the same record.
pub proof fn lemma_sweep_membership(bs: Seq<BuildModel>, now: int, id: Seq<char>)
    requires
        distinct_build_ids(bs),
    ensures
        has_build(sweep_builds(bs, now), id) <==> (has_build(bs, id) && !expired(
            build_at(bs, id),
            now,
        )),
        has_build(sweep_builds(bs, now), id) ==> build_at(sweep_builds(bs, now), id) == build_at(
            bs,
            id,
        ),
    decreases bs.len(),
{
    let r = sweep_builds(bs, now);
    if bs.len() == 0 {
        if has_build(r, id) {
            let k = instance_free_witness_build(r, id);
        }
        if has_build(bs, id) {
            let k = instance_free_witness_build(bs, id);
        }
    } else {
        let tail = bs.drop_first();
        lemma_lookup_tail(bs, id);
        lemma_sweep_membership(tail, now, id);
        if expired(bs[0], now) {
            assert(r == sweep_builds(tail, now));
            if id == bs[0].id {
                assert(!has_build(tail, id));
                assert(!has_build(r, id));
                assert(expired(build_at(bs, id), now));
            }
        } else {
            assert(r == seq![bs[0]] + sweep_builds(tail, now));
            let rt = sweep_builds(tail, now);
            assert(r[0] == bs[0]);
            assert(forall|k: int| 0 <= k < rt.len() ==> r[k + 1] == rt[k]);
            if id == bs[0].id {
                assert(has_build(r, id)) by {
                    assert(0 <= 0 < r.len() && r[0].id == id);
                }
                let k = build_index(r, id);
                assert(0 <= k < r.len() && r[k].id == id);
                if k > 0 {
                    assert(rt[k - 1].id == id);
                    assert(has_build(rt, id)) by {
                        assert(0 <= k - 1 < rt.len() && rt[k - 1].id == id);
                    }
                    assert(has_build(tail, id));
                    assert(false);
                }
                assert(build_at(r, id) == bs[0]);
            } else {
                if has_build(rt, id) {
                    let j = build_index(rt, id);
                    assert(0 <= j < rt.len() && rt[j].id == id);
                    assert(has_build(r, id)) by {
                        assert(0 <= j + 1 < r.len() && r[j + 1].id == id);
                    }
                }
                if has_build(r, id) {
                    let k = instance_free_witness_build(r, id);
                    assert(k != 0);
                    assert(rt[k - 1].id == id);
                    assert(has_build(rt, id)) by {
                        assert(0 <= k - 1 < rt.len() && rt[k - 1].id == id);
                    }
                    let j = build_index(r, id);
                    assert(0 <= j < r.len() && r[j].id == id);
                    assert(j != 0);
                    assert(rt[j - 1].id == id);
                    let jt = build_index(rt, id);
                    assert(0 <= jt < rt.len() && rt[jt].id == id);
                    // rt keeps distinct ids: every entry of rt is an entry of tail
                    lemma_sweep_distinct(tail, now);
                    if j - 1 < jt {
                        assert(rt[j - 1].id != rt[jt].id);
                    } else if jt < j - 1 {
                        assert(rt[jt].id != rt[j - 1].id);
                    }
                    assert(build_at(r, id) == rt[jt]);
                    assert(build_at(r, id) == build_at(rt, id));
                }
            }
        }
    }
}

/// The sweep keeps build ids distinct.
pub proof fn lemma_sweep_distinct(bs: Seq<BuildModel>, now: int)
    requires
        distinct_build_ids(bs),
    ensures
        distinct_build_ids(sweep_builds(bs, now)),
    decreases bs.len(),
{
    let r = sweep_builds(bs, now);
    if bs.len() == 0 {
    } else {
        let tail = bs.drop_first();
        assert(forall|k: int| 0 <= k < tail.len() ==> tail[k] == bs[k + 1]);
        assert(distinct_build_ids(tail));
        lemma_sweep_distinct(tail, now);
        let rt = sweep_builds(tail, now);
        if expired(bs[0], now) {
        } else {
            assert(r == seq![bs[0]] + rt);
            assert(forall|k: int| 0 <= k < rt.len() ==> r[k + 1] == rt[k]);
            assert forall|i: int, j: int| 0 <= i < j < r.len() implies r[i].id != r[j].id by {
                if i == 0 {
                    assert(r[j] == rt[j - 1]);
                    if has_build(tail, bs[0].id) {
                        lemma_lookup_tail(bs, bs[0].id);
                    }
                    lemma_sweep_membership(tail, now, r[j].id);
                    assert(has_build(rt, r[j].id)) by {
                        assert(0 <= j - 1 < rt.len() && rt[j - 1].id == r[j].id);
                    }
                    assert(has_build(tail, r[j].id));
                    if r[0].id == r[j].id {
                        lemma_lookup_tail(bs, bs[0].id);
                        assert(false);
                    }
                } else {
                    assert(r[i] == rt[i - 1] && r[j] == rt[j - 1]);
                }
            }
        }
    }
}

/// The sweep keeps the registry well-formed.
pub proof fn lemma_sweep_wf(bs: Seq<BuildModel>, now: int)
    requires
        registry_wf(bs),
    ensures
        registry_wf(sweep_builds(bs, now)),
    decreases bs.len(),
{
    lemma_sweep_distinct(bs, now);
    if bs.len() == 0 {
    } else {
        let tail = bs.drop_first();
        assert(forall|k: int| 0 <= k < tail.len() ==> tail[k] == bs[k + 1]);
        assert(registry_wf(tail));
        lemma_sweep_wf(tail, now);
        let rt = sweep_builds(tail, now);
        if expired(bs[0], now) {
        } else {
            let r = sweep_builds(bs, now);
            assert(r == seq![bs[0]] + rt);
            assert forall|i: int| 0 <= i < r.len() implies build_wf(#[trigger] r[i]) by {
                if i == 0 {
                    assert(r[0] == bs[0]);
                } else {
                    assert(r[i] == rt[i - 1]);
                }
            }
        }
    }
}

/// Registering an instance keeps the build well-formed, keeps its identity,
/// and ends with the instance present.
pub proof fn lemma_register_in_build_wf(b: BuildModel, instance_id: Seq<char>)
    requires
        build_wf(b),
    ensures
        build_wf(register_in_build(b, instance_id)),
        register_in_build(b, instance_id).id == b.id,
        register_in_build(b, instance_id).created_on == b.created_on,
        has_instance(register_in_build(b, instance_id).instances, instance_id),
{
    let r = register_in_build(b, instance_id);
    if has_instance(b.instances, instance_id) {
    } else {
        let n = b.instances.len() as int;
        assert(forall|k: int| 0 <= k < n ==> r.instances[k] == b.instances[k]);
        assert(r.instances[n].id == instance_id);
        assert(has_instance(r.instances, instance_id)) by {
            assert(0 <= n < r.instances.len() && r.instances[n].id == instance_id);
        }
        assert forall|p: int, q: int|
            0 <= p < q < r.instances.len() implies r.instances[p].id != r.instances[q].id by {
            if q == n {
                if r.instances[p].id == instance_id {
                    assert(has_instance(b.instances, instance_id)) by {
                        assert(0 <= p < b.instances.len() && b.instances[p].id == instance_id);
                    }
                }
            }
        }
        assert forall|k: int|
            0 <= k < r.instances.len() implies (r.instances[k].is_master <==> k == 0) by {
            if k == n {
                assert(r.instances[k].is_master <==> n == 0);
            }
        }
    }
}

/// Replacing a build by one with the same id and a well-formed body keeps the
/// registry well-formed.
pub proof fn lemma_update_wf(bs: Seq<BuildModel>, k: int, b: BuildModel)
    requires
        registry_wf(bs),
        0 <= k < bs.len(),
        b.id == bs[k].id,
        build_wf(b),
    ensures
        registry_wf(bs.update(k, b)),
{
    let r = bs.update(k, b);
    assert forall|i: int, j: int| 0 <= i < j < r.len() implies r[i].id != r[j].id by {
        assert(bs[i].id != bs[j].id);
    }
    assert forall|i: int| 0 <= i < r.len() implies build_wf(#[trigger] r[i]) by {
        if i != k {
            assert(r[i] == bs[i]);
        }
    }
}

/// Registration keeps the registry well-formed, leaves every other build
/// alone, and ends with the target build and instance present.
pub proof fn lemma_register_wf(
    bs: Seq<BuildModel>,
    build_id: Seq<char>,
    instance_id: Seq<char>,
    specs: Seq<Seq<char>>,
    now: int,
)
    requires
        registry_wf(bs),
    ensures
        ({
            let after = register_builds(bs, build_id, instance_id, specs, now);
            &&& registry_wf(after)
            &&& has_build(after, build_id)
            &&& build_at(after, build_id) == register_in_build(
                if has_build(bs, build_id) {
                    build_at(bs, build_id)
                } else {
                    fresh_build(build_id, specs, now)
                },
                instance_id,
            )
            &&& has_instance(build_at(after, build_id).instances, instance_id)
            &&& forall|id2: Seq<char>|
                id2 != build_id ==> ((has_build(after, id2) <==> has_build(bs, id2))
                    && (has_build(bs, id2) ==> build_at(after, id2) == build_at(bs, id2)))
        }),
{
    let after = register_builds(bs, build_id, instance_id, specs, now);
    if has_build(bs, build_id) {
        let k = build_index(bs, build_id);
        assert(0 <= k < bs.len() && bs[k].id == build_id);
        lemma_build_index_unique(bs, k);
        let rb = register_in_build(bs[k], instance_id);
        lemma_register_in_build_wf(bs[k], instance_id);
        lemma_update_wf(bs, k, rb);
        assert(after == bs.update(k, rb));
        lemma_build_index_unique(after, k);
        assert(build_at(after, build_id) == rb);
        assert forall|id2: Seq<char>| id2 != build_id implies ((has_build(after, id2)
            <==> has_build(bs, id2)) && (has_build(bs, id2) ==> build_at(after, id2) == build_at(
            bs,
            id2,
        ))) by {
            if has_build(bs, id2) {
                let p = build_index(bs, id2);
                assert(0 <= p < bs.len() && bs[p].id == id2);
                assert(p != k);
                assert(after[p].id == id2);
                lemma_build_index_unique(after, p);
                lemma_build_index_unique(bs, p);
            }
            if has_build(after, id2) {
                let p = build_index(after, id2);
                assert(0 <= p < after.len() && after[p].id == id2);
                assert(p != k);
                assert(bs[p].id == id2);
                assert(has_build(bs, id2)) by {
                    assert(0 <= p < bs.len() && bs[p].id == id2);
                }
            }
        }
    } else {
        let fb = fresh_build(build_id, specs, now);
        let rb = register_in_build(fb, instance_id);
        assert(build_wf(fb));
        lemma_register_in_build_wf(fb, instance_id);
        assert(after == bs.push(rb));
        let n = bs.len() as int;
        assert(after[n] == rb && rb.id == build_id);
        assert forall|p: int, q: int| 0 <= p < q < after.len() implies after[p].id
            != after[q].id by {
            if q == n {
                if after[p].id == build_id {
                    assert(has_build(bs, build_id)) by {
                        assert(0 <= p < bs.len() && bs[p].id == build_id);
                    }
                }
            } else {
                assert(after[p] == bs[p] && after[q] == bs[q]);
            }
        }
        assert forall|i: int| 0 <= i < after.len() implies build_wf(#[trigger] after[i]) by {
            if i != n {
                assert(after[i] == bs[i]);
            }
        }
        lemma_build_index_unique(after, n);
        assert(build_at(after, build_id) == rb);
        assert forall|id2: Seq<char>| id2 != build_id implies ((has_build(after, id2)
            <==> has_build(bs, id2)) && (has_build(bs, id2) ==> build_at(after, id2) == build_at(
            bs,
            id2,
        ))) by {
            if has_build(bs, id2) {
                let p = build_index(bs, id2);
                assert(0 <= p < bs.len() && bs[p].id == id2);
                assert(after[p].id == id2);
                lemma_build_index_unique(after, p);
                lemma_build_index_unique(bs, p);
            }
            if has_build(after, id2) {
                let p = build_index(after, id2);
                assert(0 <= p < after.len() && after[p].id == id2);
                assert(p != n);
                assert(has_build(bs, id2)) by {
                    assert(0 <= p < bs.len() && bs[p].id == id2);
                }
            }
        }
    }
}

/// One poll against a live build and instance: the queue loses its front,
/// the dequeued value lands on the instance's history, everything else is
/// unchanged and stays well-formed.
pub proof fn lemma_next_spec_step(bs: Seq<BuildModel>, build_id: Seq<char>, instance_id: Seq<char>)
    requires
        registry_wf(bs),
        has_build(bs, build_id),
        has_instance(build_at(bs, build_id).instances, instance_id),
    ensures
        ({
            let post = next_spec_builds(bs, build_id, instance_id);
            let b0 = build_at(bs, build_id);
            let b1 = build_at(post, build_id);
            &&& registry_wf(post)
            &&& has_build(post, build_id)
            &&& has_instance(b1.instances, instance_id)
            &&& b1.test_spec_list == (if b0.test_spec_list.len() == 0 {
                Seq::<Seq<char>>::empty()
            } else {
                b0.test_spec_list.drop_first()
            })
            &&& b1.created_on == b0.created_on
            &&& instance_at(b1.instances, instance_id).test_list == instance_at(
                b0.instances,
                instance_id,
            ).test_list.push(dequeued_value(b0))
        }),
{
    let k = build_index(bs, build_id);
    assert(0 <= k < bs.len() && bs[k].id == build_id);
    lemma_build_index_unique(bs, k);
    let b0 = bs[k];
    let popped = pop_front_build(b0);
    assert(popped.instances == b0.instances);
    let j = instance_index(popped.instances, instance_id);
    assert(0 <= j < popped.instances.len() && popped.instances[j].id == instance_id);
    let assigned = assign_spec(popped, instance_id, dequeued_value(b0));
    let post = next_spec_builds(bs, build_id, instance_id);
    assert(post == bs.update(k, assigned));
    assert(build_wf(b0));
    assert forall|p: int, q: int| 0 <= p < q < assigned.instances.len() implies assigned.instances[p].id
        != assigned.instances[q].id by {
        assert(b0.instances[p].id == assigned.instances[p].id);
        assert(b0.instances[q].id == assigned.instances[q].id);
    }
    assert forall|i: int|
        0 <= i < assigned.instances.len() implies (assigned.instances[i].is_master <==> i == 0) by {
        assert(b0.instances[i].is_master == assigned.instances[i].is_master);
    }
    lemma_update_wf(bs, k, assigned);
    lemma_build_index_unique(post, k);
    assert(build_at(post, build_id) == assigned);
    if b0.test_spec_list.len() == 0 {
        assert(assigned.test_spec_list =~= Seq::<Seq<char>>::empty());
    }
    lemma_instance_index_unique(assigned.instances, j);
    lemma_instance_index_unique(b0.instances, j);
    assert(instance_at(assigned.instances, instance_id) == assigned.instances[j]);
    assert(has_instance(assigned.instances, instance_id));
}

/// A reset leaves the target id absent and every other build alone.
pub proof fn lemma_reset_absent(bs: Seq<BuildModel>, build_id: Seq<char>)
    requires
        distinct_build_ids(bs),
    ensures
        !has_build(reset_builds(bs, build_id), build_id),
        forall|id2: Seq<char>|
            id2 != build_id ==> ((has_build(reset_builds(bs, build_id), id2) <==> has_build(
                bs,
                id2,
            )) && (has_build(bs, id2) ==> build_at(reset_builds(bs, build_id), id2) == build_at(
                bs,
                id2,
            ))),
{
    let r = reset_builds(bs, build_id);
    if has_build(bs, build_id) {
        let k = build_index(bs, build_id);
        assert(0 <= k < bs.len() && bs[k].id == build_id);
        assert(r == bs.remove(k));
        if has_build(r, build_id) {
            let p = build_index(r, build_id);
            assert(0 <= p < r.len() && r[p].id == build_id);
            let pp: int = if p < k {
                p
            } else {
                p + 1
            };
            assert(r[p] == bs[pp]);
            assert(pp != k);
            if pp < k {
                assert(bs[pp].id != bs[k].id);
            } else {
                assert(bs[k].id != bs[pp].id);
            }
        }
        assert forall|id2: Seq<char>| id2 != build_id implies ((has_build(r, id2) <==> has_build(
            bs,
            id2,
        )) && (has_build(bs, id2) ==> build_at(r, id2) == build_at(bs, id2))) by {
            lemma_remove_wf_distinct(bs, k);
            if has_build(bs, id2) {
                let p = build_index(bs, id2);
                assert(0 <= p < bs.len() && bs[p].id == id2);
                assert(p != k);
                let rp: int = if p < k {
                    p
                } else {
                    p - 1
                };
                assert(r[rp] == bs[p]);
                assert(has_build(r, id2)) by {
                    assert(0 <= rp < r.len() && r[rp].id == id2);
                }
                let q = build_index(r, id2);
                assert(0 <= q < r.len() && r[q].id == id2);
                let qq: int = if q < k {
                    q
                } else {
                    q + 1
                };
                assert(r[q] == bs[qq]);
                if qq < p {
                    assert(bs[qq].id != bs[p].id);
                } else if p < qq {
                    assert(bs[p].id != bs[qq].id);
                }
                assert(build_at(r, id2) == build_at(bs, id2));
            }
            if has_build(r, id2) {
                let q = build_index(r, id2);
                assert(0 <= q < r.len() && r[q].id == id2);
                let qq: int = if q < k {
                    q
                } else {
                    q + 1
                };
                assert(r[q] == bs[qq]);
                assert(has_build(bs, id2)) by {
                    assert(0 <= qq < bs.len() && bs[qq].id == id2);
                }
            }
        }
    }
}

/// Removal keeps build ids distinct.
proof fn lemma_remove_wf_distinct(bs: Seq<BuildModel>, k: int)
    requires
        distinct_build_ids(bs),
        0 <= k < bs.len(),
    ensures
        distinct_build_ids(bs.remove(k)),
{
    let r = bs.remove(k);
    assert forall|i: int, j: int| 0 <= i < j < r.len() implies r[i].id != r[j].id by {
        let pi: int = if i < k {
            i
        } else {
            i + 1
        };
        let pj: int = if j < k {
            j
        } else {
            j + 1
        };
        assert(r[i] == bs[pi] && r[j] == bs[pj]);
        assert(bs[pi].id != bs[pj].id);
    }
}

/// Removing a build keeps the registry well-formed.
pub proof fn lemma_remove_wf(bs: Seq<BuildModel>, k: int)
    requires
        registry_wf(bs),
        0 <= k < bs.len(),
    ensures
        registry_wf(bs.remove(k)),
{
    let r = bs.remove(k);
    assert forall|i: int, j: int| 0 <= i < j < r.len() implies r[i].id != r[j].id by {
        let pi: int = if i < k { i } else { i + 1 };
        let pj: int = if j < k { j } else { j + 1 };
        assert(r[i] == bs[pi] && r[j] == bs[pj]);
        assert(bs[pi].id != bs[pj].id);
    }
    assert forall|i: int| 0 <= i < r.len() implies build_wf(#[trigger] r[i]) by {
        let pi: int = if i < k { i } else { i + 1 };
        assert(r[i] == bs[pi]);
    }
}

} // verus!
