//! The in-memory build registry and the four protocol operations.
//!
//! Builds and instances are kept in vectors ordered by creation, with
//! distinct-id invariants standing in for map keys; every operation sweeps
//! expired builds out before it looks at the registry.

use vstd::prelude::*;

use crate::lemmas::{
    lemma_build_index_unique, lemma_instance_index_unique, lemma_register_in_build_wf,
    lemma_remove_wf, lemma_sweep_wf, lemma_update_wf,
};
use crate::model::{
    assign_spec, build_at, build_index, build_wf, complete_builds, dequeued_value, expired,
    fresh_build, fresh_instance, has_build, has_instance, instance_at, instance_index, next_spec_builds,
    pop_front_build, register_builds, register_in_build, registered_view, registry_wf,
    reset_builds, sweep_builds, BuildModel, CompletionStatus, InstanceModel, RETENTION_SECONDS,
};

verus! {

/// Queue-exhaustion signal computed by a poll; distinct from the stored
/// `CompletionStatus`, which only an explicit completion call changes.
#[derive(Clone, Copy, PartialEq, Eq, Structural, Debug)]
pub enum QueueStatus {
    Ongoing,
    Done,
}

/// Client-error taxonomy of the protocol.
#[derive(Clone, Copy, PartialEq, Eq, Structural, Debug)]
pub enum DispatchError {
    /// Missing or malformed identity, or wrong credential.
    InvalidRequest,
    /// The build id names no live build.
    BuildNotFound,
    /// The build exists but the instance id was never registered under it.
    InstanceNotFound,
}

/// One worker instance participating in a build.
pub struct Instance {
    pub id: String,
    pub test_list: Vec<String>,
    pub test_status: CompletionStatus,
    pub is_master: bool,
}

impl View for Instance {
    type V = InstanceModel;

    open spec fn view(&self) -> InstanceModel {
        InstanceModel {
            id: self.id@,
            test_list: self.test_list.deep_view(),
            test_status: self.test_status,
            is_master: self.is_master,
        }
    }
}

/// One build: its shared spec queue and its registered instances.
pub struct Build {
    pub id: String,
    pub created_on: i64,
    pub test_spec_list: Vec<String>,
    pub instances: Vec<Instance>,
}

impl View for Build {
    type V = BuildModel;

    open spec fn view(&self) -> BuildModel {
        BuildModel {
            id: self.id@,
            created_on: self.created_on as int,
            test_spec_list: self.test_spec_list.deep_view(),
            instances: instances_view(self.instances@),
        }
    }
}

/// The authoritative registry of live builds.
pub struct Registry {
    pub builds: Vec<Build>,
}

impl View for Registry {
    type V = Seq<BuildModel>;

    open spec fn view(&self) -> Seq<BuildModel> {
        self.builds@.map_values(|b: Build| b@)
    }
}

/// Copies a list of specification strings, value for value.
fn clone_strings(v: &Vec<String>) -> (r: Vec<String>)
    ensures
        r.deep_view() == v.deep_view(),
{
    let mut r: Vec<String> = Vec::new();
    let mut i: usize = 0;
    while i < v.len()
        invariant
            i <= v.len(),
            r.len() == i,
            forall|k: int| 0 <= k < i ==> r@[k]@ == v@[k]@,
        decreases v.len() - i,
    {
        r.push(v[i].clone());
        i += 1;
    }
    proof {
        assert forall|k: int|
            0 <= k < v@.len() implies r.deep_view()[k] == v.deep_view()[k] by {
            assert(r@[k]@ == v@[k]@);
        }
        assert(r.deep_view() =~= v.deep_view());
    }
    r
}

/// The model of an instance vector.
pub open spec fn instances_view(v: Seq<Instance>) -> Seq<InstanceModel> {
    v.map_values(|i: Instance| i@)
}

/// Index of the instance with this id, if the vector holds one.
fn find_instance(instances: &Vec<Instance>, id: &String) -> (r: Option<usize>)
    ensures
        match r {
            Some(j) => j < instances.len() && instances_view(instances@)[j as int].id == id@
                && has_instance(instances_view(instances@), id@),
            None => !has_instance(instances_view(instances@), id@),
        },
{
    let ghost vw = instances_view(instances@);
    let mut j: usize = 0;
    while j < instances.len()
        invariant
            j <= instances.len(),
            vw == instances_view(instances@),
            forall|k: int| 0 <= k < j ==> vw[k].id != id@,
        decreases instances.len() - j,
    {
        if instances[j].id == *id {
            assert(vw[j as int].id == id@);
            assert(has_instance(vw, id@)) by {
                assert(0 <= j < vw.len() && vw[j as int].id == id@);
            }
            return Some(j);
        }
        j += 1;
    }
    proof {
        if has_instance(vw, id@) {
            let k = instance_index(vw, id@);
            assert(0 <= k < vw.len() && vw[k].id == id@);
        }
    }
    None
}

/// What a registration reports back: the resulting instance record.
pub struct RegisterResponse {
    pub test_list: Vec<String>,
    pub test_status: CompletionStatus,
    pub is_master: bool,
}

/// What a poll reports back: the dequeued specification and whether the queue
/// is exhausted.
pub struct NextSpecResponse {
    pub status: QueueStatus,
    pub next_test: String,
}

/// Everything a registration settles, for one reading `now` of the clock.
pub open spec fn register_outcome(
    pre: Seq<BuildModel>,
    post: Seq<BuildModel>,
    build_id: Seq<char>,
    instance_id: Seq<char>,
    specs: Seq<Seq<char>>,
    now: int,
    r: RegisterResponse,
) -> bool {
    let after = register_builds(sweep_builds(pre, now), build_id, instance_id, specs, now);
    let inst = registered_view(after, build_id, instance_id);
    &&& post == after
    &&& r.test_list.deep_view() == inst.test_list
    &&& r.test_status == inst.test_status
    &&& r.is_master == inst.is_master
}

/// Everything a poll settles, for one reading `now` of the clock.
pub open spec fn poll_outcome(
    pre: Seq<BuildModel>,
    post: Seq<BuildModel>,
    build_id: Seq<char>,
    instance_id: Seq<char>,
    now: int,
    r: Result<NextSpecResponse, DispatchError>,
) -> bool {
    let swept = sweep_builds(pre, now);
    &&& post == next_spec_builds(swept, build_id, instance_id)
    &&& match r {
        Ok(resp) => {
            &&& has_build(swept, build_id)
            &&& has_instance(build_at(swept, build_id).instances, instance_id)
            &&& resp.next_test@ == dequeued_value(build_at(swept, build_id))
            &&& (resp.status == QueueStatus::Done <==> dequeued_value(
                build_at(swept, build_id),
            ).len() == 0)
        },
        Err(e) => {
            &&& (e == DispatchError::BuildNotFound <==> !has_build(swept, build_id))
            &&& (e == DispatchError::InstanceNotFound <==> has_build(swept, build_id)
                && !has_instance(build_at(swept, build_id).instances, instance_id))
            &&& (e == DispatchError::BuildNotFound || e == DispatchError::InstanceNotFound)
        },
    }
}

/// Everything a completion call settles, for one reading `now` of the clock.
pub open spec fn completion_outcome(
    pre: Seq<BuildModel>,
    post: Seq<BuildModel>,
    build_id: Seq<char>,
    instance_id: Seq<char>,
    now: int,
    r: Result<(), DispatchError>,
) -> bool {
    let swept = sweep_builds(pre, now);
    &&& post == complete_builds(swept, build_id, instance_id)
    &&& match r {
        Ok(u) => {
            &&& has_build(swept, build_id)
            &&& has_instance(build_at(swept, build_id).instances, instance_id)
        },
        Err(e) => {
            &&& post == swept
            &&& (e == DispatchError::BuildNotFound <==> !has_build(swept, build_id))
            &&& (e == DispatchError::InstanceNotFound <==> has_build(swept, build_id)
                && !has_instance(build_at(swept, build_id).instances, instance_id))
            &&& (e == DispatchError::BuildNotFound || e == DispatchError::InstanceNotFound)
        },
    }
}

/// Everything a reset settles, for one reading `now` of the clock.
pub open spec fn reset_outcome(
    pre: Seq<BuildModel>,
    post: Seq<BuildModel>,
    build_id: Seq<char>,
    now: int,
) -> bool {
    &&& post == reset_builds(sweep_builds(pre, now), build_id)
    &&& !has_build(post, build_id)
}

impl Registry {
    pub fn new() -> (r: Registry)
        ensures
            r@ == Seq::<BuildModel>::empty(),
            registry_wf(r@),
    {
        let r = Registry { builds: Vec::new() };
        proof {
            assert(r@ =~= Seq::<BuildModel>::empty());
        }
        r
    }

    /// Index of the build with this id, if the registry holds one.
    fn find_build(&self, id: &String) -> (r: Option<usize>)
        ensures
            match r {
                Some(i) => i < self.builds.len() && self@[i as int].id == id@ && has_build(
                    self@,
                    id@,
                ),
                None => !has_build(self@, id@),
            },
    {
        let mut i: usize = 0;
        while i < self.builds.len()
            invariant
                i <= self.builds.len(),
                forall|k: int| 0 <= k < i ==> self@[k].id != id@,
            decreases self.builds.len() - i,
        {
            if self.builds[i].id == *id {
                assert(self@[i as int].id == id@);
                assert(has_build(self@, id@)) by {
                    assert(0 <= i < self@.len() && self@[i as int].id == id@);
                }
                return Some(i);
            }
            i += 1;
        }
        proof {
            if has_build(self@, id@) {
                let k = build_index(self@, id@);
                assert(0 <= k < self@.len() && self@[k].id == id@);
            }
        }
        None
    }

    /// Evicts every build older than the retention window, in place.
    pub fn clear_old_data(&mut self, now: i64)
        ensures
            final(self)@ == sweep_builds(old(self)@, now as int),
    {
        let threshold: i64 = if now >= i64::MIN + RETENTION_SECONDS {
            now - RETENTION_SECONDS
        } else {
            i64::MIN
        };
        proof {
            assert(forall|b: BuildModel| b.created_on >= i64::MIN ==> ((b.created_on
                < threshold as int) == expired(b, now as int)));
        }
        let ghost orig = self@;
        proof {
            assert(orig.skip(0) =~= orig);
            assert(orig.take(0) + sweep_builds(orig.skip(0), now as int) =~= sweep_builds(
                orig,
                now as int,
            ));
        }
        let mut i: usize = 0;
        while i < self.builds.len()
            invariant
                i <= self.builds.len(),
                threshold as int == if now as int >= i64::MIN + RETENTION_SECONDS {
                    now as int - RETENTION_SECONDS
                } else {
                    i64::MIN as int
                },
                forall|k: int|
                    0 <= k < self@.len() ==> #[trigger] self@[k].created_on >= i64::MIN,
                sweep_builds(orig, now as int) == self@.take(i as int) + sweep_builds(
                    self@.skip(i as int),
                    now as int,
                ),
            decreases self.builds.len() - i,
        {
            let ghost cur = self@;
            let ghost rem = cur.skip(i as int);
            assert(rem[0] == cur[i as int]);
            if self.builds[i].created_on < threshold {
                assert(expired(cur[i as int], now as int));
                self.builds.remove(i);
                proof {
                    assert(self@ =~= cur.remove(i as int));
                    assert(self@.take(i as int) =~= cur.take(i as int));
                    assert(self@.skip(i as int) =~= rem.drop_first());
                    assert(sweep_builds(rem, now as int) == sweep_builds(
                        rem.drop_first(),
                        now as int,
                    ));
                }
            } else {
                assert(!expired(cur[i as int], now as int));
                proof {
                    assert(sweep_builds(rem, now as int) == seq![rem[0]] + sweep_builds(
                        rem.drop_first(),
                        now as int,
                    ));
                    assert(cur.take(i + 1 as int) =~= cur.take(i as int) + seq![cur[i as int]]);
                    assert(cur.skip(i + 1 as int) =~= rem.drop_first());
                    assert(cur.take(i as int) + (seq![cur[i as int]] + sweep_builds(
                        rem.drop_first(),
                        now as int,
                    )) =~= cur.take(i + 1 as int) + sweep_builds(
                        cur.skip(i + 1 as int),
                        now as int,
                    ));
                }
                i += 1;
            }
        }
        proof {
            assert(self@.skip(i as int) =~= Seq::<BuildModel>::empty());
            assert(self@.take(i as int) =~= self@);
            assert(sweep_builds(self@.skip(i as int), now as int) == Seq::<BuildModel>::empty());
            assert(self@ + Seq::<BuildModel>::empty() =~= self@);
        }
    }

    /// Registers (or re-registers) an instance under a build, creating the
    /// build from the requested spec list if it is unknown; an existing build
    /// keeps its queue and an existing instance is returned unchanged.
    pub fn register_instance(
        &mut self,
        build_id: String,
        instance_id: String,
        specs: Vec<String>,
        now: i64,
    ) -> (r: RegisterResponse)
        requires
            registry_wf(old(self)@),
        ensures
            registry_wf(final(self)@),
            final(self)@ == register_builds(
                sweep_builds(old(self)@, now as int),
                build_id@,
                instance_id@,
                specs.deep_view(),
                now as int,
            ),
            ({
                let inst = registered_view(final(self)@, build_id@, instance_id@);
                &&& r.test_list.deep_view() == inst.test_list
                &&& r.test_status == inst.test_status
                &&& r.is_master == inst.is_master
            }),
    {
        self.clear_old_data(now);
        proof {
            lemma_sweep_wf(old(self)@, now as int);
        }
        let ghost swept = self@;
        let ghost target = register_builds(
            swept,
            build_id@,
            instance_id@,
            specs.deep_view(),
            now as int,
        );
        let idx: usize;
        match self.find_build(&build_id) {
            Some(i) => {
                idx = i;
                proof {
                    lemma_build_index_unique(swept, i as int);
                }
            },
            None => {
                idx = self.builds.len();
                let ghost fresh = fresh_build(build_id@, specs.deep_view(), now as int);
                let b = Build {
                    id: build_id,
                    created_on: now,
                    test_spec_list: specs,
                    instances: Vec::new(),
                };
                proof {
                    assert(b@.instances =~= fresh.instances);
                    assert(b@ == fresh);
                }
                self.builds.push(b);
                proof {
                    assert(self@ =~= swept.push(fresh));
                }
            },
        }
        let ghost mid = self@;
        let mut b = self.builds.remove(idx);
        let ghost pre_b = b@;
        assert(pre_b == mid[idx as int]);
        let jdx: usize;
        match find_instance(&b.instances, &instance_id) {
            Some(j) => {
                jdx = j;
                proof {
                    assert(register_in_build(pre_b, instance_id@) == pre_b);
                }
            },
            None => {
                let master = b.instances.len() == 0;
                jdx = b.instances.len();
                let ghost is0 = b.instances@;
                b.instances.push(
                    Instance {
                        id: instance_id,
                        test_list: Vec::new(),
                        test_status: CompletionStatus::Ongoing,
                        is_master: master,
                    },
                );
                proof {
                    let n = is0.len() as int;
                    let fi = fresh_instance(instance_id@, pre_b.instances.len() == 0);
                    assert(b.instances@[n]@ =~= fi);
                    assert forall|k: int|
                        0 <= k < instances_view(b.instances@).len() implies instances_view(
                        b.instances@,
                    )[k] == pre_b.instances.push(fi)[k] by {
                        if k < n {
                            assert(b.instances@[k] == is0[k]);
                        }
                    }
                    assert(instances_view(b.instances@) =~= pre_b.instances.push(fi));
                    assert(b@ =~= register_in_build(pre_b, instance_id@));
                }
            },
        }
        proof {
            assert(b@ == register_in_build(pre_b, instance_id@));
            assert(build_wf(pre_b));
            lemma_register_in_build_wf(pre_b, instance_id@);
            assert(b@.instances[jdx as int].id == instance_id@);
            lemma_instance_index_unique(b@.instances, jdx as int);
        }
        let resp = RegisterResponse {
            test_list: clone_strings(&b.instances[jdx].test_list),
            test_status: b.instances[jdx].test_status,
            is_master: b.instances[jdx].is_master,
        };
        proof {
            assert(b@.instances[jdx as int] == b.instances[jdx as int]@);
            assert(resp.test_list.deep_view() == b@.instances[jdx as int].test_list);
        }
        let ghost reg_b = b@;
        self.builds.insert(idx, b);
        proof {
            assert(self@ =~= mid.update(idx as int, reg_b));
            if has_build(swept, build_id@) {
                assert(mid == swept);
                assert(build_index(swept, build_id@) == idx);
                assert(target == swept.update(idx as int, reg_b));
            } else {
                assert(mid == swept.push(fresh_build(build_id@, specs.deep_view(), now as int)));
                assert(idx == swept.len());
                assert(self@ =~= target);
            }
            assert(self@ == target);
            // well-formedness of the result
            if has_build(swept, build_id@) {
                lemma_update_wf(swept, idx as int, reg_b);
            } else {
                assert forall|p: int, q: int|
                    0 <= p < q < self@.len() implies self@[p].id != self@[q].id by {
                    if q == idx as int {
                        if self@[p].id == build_id@ {
                            assert(has_build(swept, build_id@)) by {
                                assert(0 <= p < swept.len() && swept[p].id == build_id@);
                            }
                        }
                    } else {
                        assert(self@[p] == swept[p] && self@[q] == swept[q]);
                    }
                }
                assert forall|i: int| 0 <= i < self@.len() implies build_wf(#[trigger] self@[i]) by {
                    if i != idx as int {
                        assert(self@[i] == swept[i]);
                    }
                }
            }
            // the reported instance is the one stored under the ids
            lemma_build_index_unique(self@, idx as int);
            assert(build_at(self@, build_id@) == reg_b);
            assert(registered_view(self@, build_id@, instance_id@) == reg_b.instances[jdx as int]);
        }
        resp
    }

    /// Hands out the next unclaimed specification of the build: the front of
    /// the queue is dequeued (the empty sentinel once exhausted) and appended
    /// to the instance's assignment history.
    pub fn next_spec(&mut self, build_id: &String, instance_id: &String, now: i64) -> (r: Result<
        NextSpecResponse,
        DispatchError,
    >)
        requires
            registry_wf(old(self)@),
        ensures
            registry_wf(final(self)@),
            ({
                let swept = sweep_builds(old(self)@, now as int);
                &&& final(self)@ == next_spec_builds(swept, build_id@, instance_id@)
                &&& match r {
                    Ok(resp) => {
                        &&& has_build(swept, build_id@)
                        &&& has_instance(build_at(swept, build_id@).instances, instance_id@)
                        &&& resp.next_test@ == dequeued_value(build_at(swept, build_id@))
                        &&& (resp.status == QueueStatus::Done <==> dequeued_value(
                            build_at(swept, build_id@),
                        ).len() == 0)
                    },
                    Err(e) => {
                        &&& (e == DispatchError::BuildNotFound <==> !has_build(swept, build_id@))
                        &&& (e == DispatchError::InstanceNotFound <==> has_build(swept, build_id@)
                            && !has_instance(
                            build_at(swept, build_id@).instances,
                            instance_id@,
                        ))
                        &&& (e == DispatchError::BuildNotFound || e
                            == DispatchError::InstanceNotFound)
                    },
                }
            }),
    {
        self.clear_old_data(now);
        proof {
            lemma_sweep_wf(old(self)@, now as int);
        }
        let ghost swept = self@;
        let idx: usize;
        match self.find_build(build_id) {
            Some(i) => {
                idx = i;
            },
            None => {
                return Err(DispatchError::BuildNotFound);
            },
        }
        proof {
            lemma_build_index_unique(swept, idx as int);
        }
        let mut b = self.builds.remove(idx);
        let ghost pre_b = b@;
        let next_test: String;
        if b.test_spec_list.len() > 0 {
            next_test = b.test_spec_list.remove(0);
            proof {
                assert(b@.test_spec_list =~= pre_b.test_spec_list.drop_first());
                assert(b@ =~= pop_front_build(pre_b));
                assert(next_test@ == dequeued_value(pre_b));
            }
        } else {
            next_test = String::new();
            proof {
                assert(b@ == pre_b);
                assert(pop_front_build(pre_b) == pre_b);
                assert(next_test@ == dequeued_value(pre_b));
            }
        }
        let ghost popped = b@;
        assert(popped == pop_front_build(pre_b));
        assert(popped.instances == pre_b.instances);
        let jdx: usize;
        match find_instance(&b.instances, instance_id) {
            None => {
                self.builds.insert(idx, b);
                proof {
                    assert(self@ =~= swept.update(idx as int, popped));
                    assert(build_wf(popped));
                    lemma_update_wf(swept, idx as int, popped);
                    assert(self@ == next_spec_builds(swept, build_id@, instance_id@));
                }
                return Err(DispatchError::InstanceNotFound);
            },
            Some(j) => {
                jdx = j;
            },
        }
        proof {
            assert(build_wf(popped));
            lemma_instance_index_unique(popped.instances, jdx as int);
        }
        let ghost is0 = b.instances@;
        let mut inst = b.instances.remove(jdx);
        let ghost pre_i = inst@;
        inst.test_list.push(next_test.clone());
        proof {
            assert(inst@.test_list =~= pre_i.test_list.push(next_test@));
            assert(inst@ =~= InstanceModel { test_list: pre_i.test_list.push(next_test@), ..pre_i });
        }
        let ghost new_i = inst@;
        b.instances.insert(jdx, inst);
        proof {
            assert(b.instances@ =~= is0.update(jdx as int, b.instances@[jdx as int]));
            assert(instances_view(b.instances@) =~= popped.instances.update(jdx as int, new_i));
            assert(b@ =~= assign_spec(popped, instance_id@, dequeued_value(pre_b)));
        }
        let ghost assigned = b@;
        let status = if next_test.as_str().unicode_len() == 0 {
            QueueStatus::Done
        } else {
            QueueStatus::Ongoing
        };
        let resp = NextSpecResponse { status, next_test };
        self.builds.insert(idx, b);
        proof {
            assert(self@ =~= swept.update(idx as int, assigned));
            assert(self@ == next_spec_builds(swept, build_id@, instance_id@));
            assert forall|p: int, q: int|
                0 <= p < q < assigned.instances.len() implies assigned.instances[p].id
                != assigned.instances[q].id by {
                assert(popped.instances[p].id == assigned.instances[p].id);
                assert(popped.instances[q].id == assigned.instances[q].id);
            }
            assert forall|k: int|
                0 <= k < assigned.instances.len() implies (assigned.instances[k].is_master <==> k
                == 0) by {
                assert(popped.instances[k].is_master == assigned.instances[k].is_master);
            }
            lemma_update_wf(swept, idx as int, assigned);
        }
        Ok(resp)
    }

    /// Marks the instance's stored status `Done`; mutates nothing when the
    /// build or the instance is unknown.
    pub fn test_completed(&mut self, build_id: &String, instance_id: &String, now: i64) -> (r:
        Result<(), DispatchError>)
        requires
            registry_wf(old(self)@),
        ensures
            registry_wf(final(self)@),
            ({
                let swept = sweep_builds(old(self)@, now as int);
                &&& final(self)@ == complete_builds(swept, build_id@, instance_id@)
                &&& match r {
                    Ok(u) => {
                        &&& has_build(swept, build_id@)
                        &&& has_instance(build_at(swept, build_id@).instances, instance_id@)
                    },
                    Err(e) => {
                        &&& final(self)@ == swept
                        &&& (e == DispatchError::BuildNotFound <==> !has_build(swept, build_id@))
                        &&& (e == DispatchError::InstanceNotFound <==> has_build(swept, build_id@)
                            && !has_instance(
                            build_at(swept, build_id@).instances,
                            instance_id@,
                        ))
                        &&& (e == DispatchError::BuildNotFound || e
                            == DispatchError::InstanceNotFound)
                    },
                }
            }),
    {
        self.clear_old_data(now);
        proof {
            lemma_sweep_wf(old(self)@, now as int);
        }
        let ghost swept = self@;
        let idx: usize;
        match self.find_build(build_id) {
            Some(i) => {
                idx = i;
            },
            None => {
                return Err(DispatchError::BuildNotFound);
            },
        }
        proof {
            lemma_build_index_unique(swept, idx as int);
        }
        let jdx: usize;
        match find_instance(&self.builds[idx].instances, instance_id) {
            None => {
                return Err(DispatchError::InstanceNotFound);
            },
            Some(j) => {
                jdx = j;
            },
        }
        let ghost pre_b = swept[idx as int];
        proof {
            assert(build_wf(pre_b));
            lemma_instance_index_unique(pre_b.instances, jdx as int);
        }
        let mut b = self.builds.remove(idx);
        let ghost is0 = b.instances@;
        let mut inst = b.instances.remove(jdx);
        let ghost pre_i = inst@;
        inst.test_status = CompletionStatus::Done;
        proof {
            assert(inst@ =~= InstanceModel { test_status: CompletionStatus::Done, ..pre_i });
        }
        let ghost new_i = inst@;
        b.instances.insert(jdx, inst);
        proof {
            assert(b.instances@ =~= is0.update(jdx as int, b.instances@[jdx as int]));
            assert(instances_view(b.instances@) =~= pre_b.instances.update(jdx as int, new_i));
            assert(b@ =~= BuildModel {
                instances: pre_b.instances.update(
                    jdx as int,
                    InstanceModel { test_status: CompletionStatus::Done, ..pre_b.instances[jdx as int] },
                ),
                ..pre_b
            });
        }
        let ghost done_b = b@;
        self.builds.insert(idx, b);
        proof {
            assert(self@ =~= swept.update(idx as int, done_b));
            assert(self@ == complete_builds(swept, build_id@, instance_id@));
            assert forall|p: int, q: int|
                0 <= p < q < done_b.instances.len() implies done_b.instances[p].id
                != done_b.instances[q].id by {
                assert(pre_b.instances[p].id == done_b.instances[p].id);
                assert(pre_b.instances[q].id == done_b.instances[q].id);
            }
            assert forall|k: int|
                0 <= k < done_b.instances.len() implies (done_b.instances[k].is_master <==> k
                == 0) by {
                assert(pre_b.instances[k].is_master == done_b.instances[k].is_master);
            }
            lemma_update_wf(swept, idx as int, done_b);
        }
        Ok(())
    }

    /// Deletes the build and all its instances; an unknown build id is not an
    /// error.
    pub fn reset_build(&mut self, build_id: &String, now: i64)
        requires
            registry_wf(old(self)@),
        ensures
            registry_wf(final(self)@),
            final(self)@ == reset_builds(sweep_builds(old(self)@, now as int), build_id@),
            !has_build(final(self)@, build_id@),
    {
        self.clear_old_data(now);
        proof {
            lemma_sweep_wf(old(self)@, now as int);
        }
        let ghost swept = self@;
        match self.find_build(build_id) {
            Some(i) => {
                proof {
                    lemma_build_index_unique(swept, i as int);
                }
                self.builds.remove(i);
                proof {
                    assert(self@ =~= swept.remove(i as int));
                    lemma_remove_wf(swept, i as int);
                    if has_build(self@, build_id@) {
                        let k = build_index(self@, build_id@);
                        assert(0 <= k < self@.len() && self@[k].id == build_id@);
                        let pk: int = if k < i as int {
                            k
                        } else {
                            k + 1
                        };
                        assert(self@[k] == swept[pk]);
                        assert(pk != i as int);
                        if pk < i as int {
                            assert(swept[pk].id != swept[i as int].id);
                        } else {
                            assert(swept[i as int].id != swept[pk].id);
                        }
                        assert(false);
                    }
                }
            },
            None => {
            },
        }
    }

    /// Registration at the current wall-clock time; the clock reading is
    /// existentially bound since nothing is known of its value.
    pub fn register_instance_now(
        &mut self,
        build_id: String,
        instance_id: String,
        specs: Vec<String>,
    ) -> (r: RegisterResponse)
        requires
            registry_wf(old(self)@),
        ensures
            registry_wf(final(self)@),
            exists|now: int|
                #[trigger] register_outcome(
                    old(self)@,
                    final(self)@,
                    build_id@,
                    instance_id@,
                    specs.deep_view(),
                    now,
                    r,
                ),
    {
        let now = crate::clock::now_seconds();
        let ghost sp = specs.deep_view();
        let r = self.register_instance(build_id, instance_id, specs, now);
        proof {
            assert(register_outcome(
                old(self)@,
                self@,
                build_id@,
                instance_id@,
                sp,
                now as int,
                r,
            ));
        }
        r
    }

    /// A poll at the current wall-clock time.
    pub fn next_spec_now(&mut self, build_id: &String, instance_id: &String) -> (r: Result<
        NextSpecResponse,
        DispatchError,
    >)
        requires
            registry_wf(old(self)@),
        ensures
            registry_wf(final(self)@),
            exists|now: int|
                #[trigger] poll_outcome(old(self)@, final(self)@, build_id@, instance_id@, now, r),
    {
        let now = crate::clock::now_seconds();
        let r = self.next_spec(build_id, instance_id, now);
        proof {
            assert(poll_outcome(old(self)@, self@, build_id@, instance_id@, now as int, r));
        }
        r
    }

    /// A completion signal at the current wall-clock time.
    pub fn test_completed_now(&mut self, build_id: &String, instance_id: &String) -> (r: Result<
        (),
        DispatchError,
    >)
        requires
            registry_wf(old(self)@),
        ensures
            registry_wf(final(self)@),
            exists|now: int|
                #[trigger] completion_outcome(
                    old(self)@,
                    final(self)@,
                    build_id@,
                    instance_id@,
                    now,
                    r,
                ),
    {
        let now = crate::clock::now_seconds();
        let r = self.test_completed(build_id, instance_id, now);
        proof {
            assert(completion_outcome(old(self)@, self@, build_id@, instance_id@, now as int, r));
        }
        r
    }

    /// A reset at the current wall-clock time.
    pub fn reset_build_now(&mut self, build_id: &String)
        requires
            registry_wf(old(self)@),
        ensures
            registry_wf(final(self)@),
            !has_build(final(self)@, build_id@),
            exists|now: int| #[trigger] reset_outcome(old(self)@, final(self)@, build_id@, now),
    {
        let now = crate::clock::now_seconds();
        self.reset_build(build_id, now);
        proof {
            assert(reset_outcome(old(self)@, self@, build_id@, now as int));
        }
    }
}

} // verus!
