//! Mathematical model of the build registry: ghost records for builds and
//! instances, well-formedness, and the transition of every protocol operation.

use vstd::prelude::*;

verus! {

/// Completion state stored on an instance: set to `Done` only by an explicit
/// completion signal, never by queue exhaustion.
#[derive(Clone, Copy, PartialEq, Eq, Structural, Debug)]
pub enum CompletionStatus {
    Ongoing,
    Done,
}

/// Age limit in seconds: a build created earlier than this before the current
/// time is evicted before any operation looks at the registry.
pub const RETENTION_SECONDS: i64 = 7200;

/// One worker instance as the model sees it.
#[verifier::ext_equal]
pub ghost struct InstanceModel {
    pub id: Seq<char>,
    /// Specifications assigned to this instance, in assignment order.
    pub test_list: Seq<Seq<char>>,
    pub test_status: CompletionStatus,
    /// True exactly for the first instance registered under the build.
    pub is_master: bool,
}

/// One build as the model sees it.
#[verifier::ext_equal]
pub ghost struct BuildModel {
    pub id: Seq<char>,
    pub created_on: int,
    /// The shared queue, consumed strictly from the front.
    pub test_spec_list: Seq<Seq<char>>,
    /// Instances in registration order.
    pub instances: Seq<InstanceModel>,
}

pub open spec fn expired(b: BuildModel, now: int) -> bool {
    b.created_on < now - RETENTION_SECONDS
}

/// The registry after evicting every expired build, order kept.
pub open spec fn sweep_builds(bs: Seq<BuildModel>, now: int) -> Seq<BuildModel>
    decreases bs.len(),
{
    if bs.len() == 0 {
        Seq::<BuildModel>::empty()
    } else if expired(bs[0], now) {
        sweep_builds(bs.drop_first(), now)
    } else {
        seq![bs[0]] + sweep_builds(bs.drop_first(), now)
    }
}

pub open spec fn has_build(bs: Seq<BuildModel>, id: Seq<char>) -> bool {
    exists|i: int| 0 <= i < bs.len() && bs[i].id == id
}

pub open spec fn build_index(bs: Seq<BuildModel>, id: Seq<char>) -> int {
    choose|i: int| 0 <= i < bs.len() && bs[i].id == id
}

pub open spec fn build_at(bs: Seq<BuildModel>, id: Seq<char>) -> BuildModel {
    bs[build_index(bs, id)]
}

pub open spec fn has_instance(is: Seq<InstanceModel>, id: Seq<char>) -> bool {
    exists|i: int| 0 <= i < is.len() && is[i].id == id
}

pub open spec fn instance_index(is: Seq<InstanceModel>, id: Seq<char>) -> int {
    choose|i: int| 0 <= i < is.len() && is[i].id == id
}

pub open spec fn instance_at(is: Seq<InstanceModel>, id: Seq<char>) -> InstanceModel {
    is[instance_index(is, id)]
}

pub open spec fn distinct_build_ids(bs: Seq<BuildModel>) -> bool {
    forall|i: int, j: int| 0 <= i < j < bs.len() ==> bs[i].id != bs[j].id
}

/// Instance ids are unique within the build, and the master flag is held by
/// the first-registered instance and no other.
pub open spec fn build_wf(b: BuildModel) -> bool {
    &&& forall|i: int, j: int|
        0 <= i < j < b.instances.len() ==> b.instances[i].id != b.instances[j].id
    &&& forall|i: int|
        0 <= i < b.instances.len() ==> (b.instances[i].is_master <==> i == 0)
}

pub open spec fn registry_wf(bs: Seq<BuildModel>) -> bool {
    &&& distinct_build_ids(bs)
    &&& forall|i: int| 0 <= i < bs.len() ==> build_wf(#[trigger] bs[i])
}

// --- registration ---

pub open spec fn fresh_instance(id: Seq<char>, master: bool) -> InstanceModel {
    InstanceModel {
        id,
        test_list: Seq::<Seq<char>>::empty(),
        test_status: CompletionStatus::Ongoing,
        is_master: master,
    }
}

pub open spec fn fresh_build(id: Seq<char>, specs: Seq<Seq<char>>, now: int) -> BuildModel {
    BuildModel { id, created_on: now, test_spec_list: specs, instances: Seq::<InstanceModel>::empty() }
}

/// Idempotent instance registration: an unknown instance id is appended with
/// the master flag exactly when the build had no instance yet; a known id
/// leaves the build untouched.
pub open spec fn register_in_build(b: BuildModel, instance_id: Seq<char>) -> BuildModel {
    if has_instance(b.instances, instance_id) {
        b
    } else {
        BuildModel {
            instances: b.instances.push(fresh_instance(instance_id, b.instances.len() == 0)),
            ..b
        }
    }
}

/// Get-or-create the build (an existing queue is preserved, the requested
/// specs are ignored), then register the instance into it.
pub open spec fn register_builds(
    bs: Seq<BuildModel>,
    build_id: Seq<char>,
    instance_id: Seq<char>,
    specs: Seq<Seq<char>>,
    now: int,
) -> Seq<BuildModel> {
    if has_build(bs, build_id) {
        bs.update(build_index(bs, build_id), register_in_build(build_at(bs, build_id), instance_id))
    } else {
        bs.push(register_in_build(fresh_build(build_id, specs, now), instance_id))
    }
}

/// The instance record a registration reports: the one stored under the ids
/// after the transition.
pub open spec fn registered_view(
    bs_after: Seq<BuildModel>,
    build_id: Seq<char>,
    instance_id: Seq<char>,
) -> InstanceModel {
    instance_at(build_at(bs_after, build_id).instances, instance_id)
}

// --- next-spec ---

/// The value a poll hands out: the front of the queue, or the empty sentinel
/// once the queue is exhausted.
pub open spec fn dequeued_value(b: BuildModel) -> Seq<char> {
    if b.test_spec_list.len() == 0 {
        Seq::<char>::empty()
    } else {
        b.test_spec_list[0]
    }
}

pub open spec fn pop_front_build(b: BuildModel) -> BuildModel {
    if b.test_spec_list.len() == 0 {
        b
    } else {
        BuildModel { test_spec_list: b.test_spec_list.drop_first(), ..b }
    }
}

pub open spec fn assign_spec(b: BuildModel, instance_id: Seq<char>, value: Seq<char>) -> BuildModel {
    let j = instance_index(b.instances, instance_id);
    BuildModel {
        instances: b.instances.update(
            j,
            InstanceModel { test_list: b.instances[j].test_list.push(value), ..b.instances[j] },
        ),
        ..b
    }
}

/// One poll: the front of the queue is dequeued as soon as the build is found;
/// the dequeued value is recorded on the instance only if the instance exists.
pub open spec fn next_spec_builds(
    bs: Seq<BuildModel>,
    build_id: Seq<char>,
    instance_id: Seq<char>,
) -> Seq<BuildModel> {
    if !has_build(bs, build_id) {
        bs
    } else {
        let k = build_index(bs, build_id);
        let popped = pop_front_build(bs[k]);
        if !has_instance(popped.instances, instance_id) {
            bs.update(k, popped)
        } else {
            bs.update(k, assign_spec(popped, instance_id, dequeued_value(bs[k])))
        }
    }
}

// --- completion ---

/// Marking completion mutates nothing unless both build and instance exist.
pub open spec fn complete_builds(
    bs: Seq<BuildModel>,
    build_id: Seq<char>,
    instance_id: Seq<char>,
) -> Seq<BuildModel> {
    if !has_build(bs, build_id) {
        bs
    } else {
        let k = build_index(bs, build_id);
        let b = bs[k];
        if !has_instance(b.instances, instance_id) {
            bs
        } else {
            let j = instance_index(b.instances, instance_id);
            bs.update(
                k,
                BuildModel {
                    instances: b.instances.update(
                        j,
                        InstanceModel { test_status: CompletionStatus::Done, ..b.instances[j] },
                    ),
                    ..b
                },
            )
        }
    }
}

// --- reset ---

pub open spec fn reset_builds(bs: Seq<BuildModel>, build_id: Seq<char>) -> Seq<BuildModel> {
    if !has_build(bs, build_id) {
        bs
    } else {
        bs.remove(build_index(bs, build_id))
    }
}

} // verus!
