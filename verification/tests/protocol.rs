use ci_dispatch::model::CompletionStatus;
use ci_dispatch::registry::{DispatchError, QueueStatus, Registry};

fn s(x: &str) -> String {
    x.to_string()
}

fn specs(xs: &[&str]) -> Vec<String> {
    xs.iter().map(|x| x.to_string()).collect()
}

#[test]
fn scenario_two_specs_two_instances() {
    let mut r = Registry::new();
    let resp = r.register_instance(s("b1"), s("i1"), specs(&["t1", "t2"]), 100);
    assert!(resp.is_master);
    assert_eq!(resp.test_list.len(), 0);
    assert_eq!(resp.test_status, CompletionStatus::Ongoing);

    let p1 = r.next_spec(&s("b1"), &s("i1"), 100).unwrap();
    assert_eq!(p1.status, QueueStatus::Ongoing);
    assert_eq!(p1.next_test, s("t1"));

    let p2 = r.next_spec(&s("b1"), &s("i1"), 100).unwrap();
    assert_eq!(p2.status, QueueStatus::Ongoing);
    assert_eq!(p2.next_test, s("t2"));

    let p3 = r.next_spec(&s("b1"), &s("i1"), 100).unwrap();
    assert_eq!(p3.status, QueueStatus::Done);
    assert_eq!(p3.next_test, s(""));

    let resp2 = r.register_instance(s("b1"), s("i2"), specs(&[]), 100);
    assert!(!resp2.is_master);

    assert!(r.test_completed(&s("b1"), &s("i1"), 100).is_ok());
    assert_eq!(r.builds[0].instances[0].test_status, CompletionStatus::Done);
    assert_eq!(r.builds[0].instances[1].test_status, CompletionStatus::Ongoing);
}

#[test]
fn each_spec_dispatched_once_in_order() {
    let mut r = Registry::new();
    r.register_instance(s("b"), s("w1"), specs(&["a", "b", "c", "d"]), 5);
    r.register_instance(s("b"), s("w2"), specs(&["ignored"]), 5);
    let mut seen: Vec<String> = Vec::new();
    for k in 0..6 {
        let who = if k % 2 == 0 { s("w1") } else { s("w2") };
        let p = r.next_spec(&s("b"), &who, 5).unwrap();
        if p.status == QueueStatus::Ongoing {
            seen.push(p.next_test);
        } else {
            assert_eq!(p.next_test, s(""));
        }
    }
    assert_eq!(seen, specs(&["a", "b", "c", "d"]));
}

#[test]
fn register_is_idempotent() {
    let mut r = Registry::new();
    let first = r.register_instance(s("b"), s("i"), specs(&["t1", "t2"]), 0);
    assert!(first.is_master);
    let p = r.next_spec(&s("b"), &s("i"), 0).unwrap();
    assert_eq!(p.next_test, s("t1"));

    // Same build and instance again: nothing is reset or re-queued.
    let again = r.register_instance(s("b"), s("i"), specs(&["x", "y", "z"]), 0);
    assert!(again.is_master);
    assert_eq!(again.test_list, specs(&["t1"]));
    assert_eq!(again.test_status, CompletionStatus::Ongoing);
    let p2 = r.next_spec(&s("b"), &s("i"), 0).unwrap();
    assert_eq!(p2.next_test, s("t2"));
    let p3 = r.next_spec(&s("b"), &s("i"), 0).unwrap();
    assert_eq!(p3.status, QueueStatus::Done);
}

#[test]
fn only_first_instance_is_master() {
    let mut r = Registry::new();
    assert!(r.register_instance(s("b"), s("i1"), specs(&["t"]), 0).is_master);
    assert!(!r.register_instance(s("b"), s("i2"), specs(&[]), 0).is_master);
    assert!(!r.register_instance(s("b"), s("i3"), specs(&[]), 0).is_master);
    // Re-registration after other activity keeps the original flags.
    assert!(r.register_instance(s("b"), s("i1"), specs(&[]), 0).is_master);
    assert!(!r.register_instance(s("b"), s("i2"), specs(&[]), 0).is_master);
    // A different build elects its own master.
    assert!(r.register_instance(s("b2"), s("i2"), specs(&[]), 0).is_master);
}

#[test]
fn completed_on_unknown_ids_fails_without_mutation() {
    let mut r = Registry::new();
    r.register_instance(s("b"), s("i"), specs(&["t1"]), 0);
    assert_eq!(
        r.test_completed(&s("nope"), &s("i"), 0),
        Err(DispatchError::BuildNotFound)
    );
    assert_eq!(
        r.test_completed(&s("b"), &s("nope"), 0),
        Err(DispatchError::InstanceNotFound)
    );
    // Nothing moved: the queue still hands out t1 and the status is untouched.
    assert_eq!(r.builds.len(), 1);
    assert_eq!(r.builds[0].instances[0].test_status, CompletionStatus::Ongoing);
    let p = r.next_spec(&s("b"), &s("i"), 0).unwrap();
    assert_eq!(p.next_test, s("t1"));
}

#[test]
fn next_spec_on_unknown_build_fails() {
    let mut r = Registry::new();
    assert!(matches!(
        r.next_spec(&s("ghost"), &s("i"), 0),
        Err(DispatchError::BuildNotFound)
    ));
}

#[test]
fn next_spec_on_unknown_instance_still_dequeues() {
    let mut r = Registry::new();
    r.register_instance(s("b"), s("i"), specs(&["t1", "t2"]), 0);
    assert!(matches!(
        r.next_spec(&s("b"), &s("stranger"), 0),
        Err(DispatchError::InstanceNotFound)
    ));
    // The front entry was consumed before the instance lookup failed.
    let p = r.next_spec(&s("b"), &s("i"), 0).unwrap();
    assert_eq!(p.next_test, s("t2"));
}

#[test]
fn reset_removes_all_trace() {
    let mut r = Registry::new();
    r.register_instance(s("b"), s("i1"), specs(&["t1", "t2"]), 0);
    r.register_instance(s("b"), s("i2"), specs(&[]), 0);
    r.next_spec(&s("b"), &s("i1"), 0).unwrap();
    r.reset_build(&s("b"), 0);
    assert_eq!(r.builds.len(), 0);
    // Registration afterwards is first-time creation: fresh queue, new master.
    let resp = r.register_instance(s("b"), s("i2"), specs(&["n1"]), 0);
    assert!(resp.is_master);
    assert_eq!(resp.test_list.len(), 0);
    let p = r.next_spec(&s("b"), &s("i2"), 0).unwrap();
    assert_eq!(p.next_test, s("n1"));
    // Resetting a build that never existed is not an error.
    r.reset_build(&s("never"), 0);
}

#[test]
fn builds_expire_after_two_hours() {
    let mut r = Registry::new();
    r.register_instance(s("old"), s("i"), specs(&["t"]), 1_000);
    // Exactly two hours old: still alive.
    let p = r.next_spec(&s("old"), &s("i"), 1_000 + 7_200).unwrap();
    assert_eq!(p.next_test, s("t"));
    // One second past the window: gone, as if it never existed.
    assert!(matches!(
        r.next_spec(&s("old"), &s("i"), 1_000 + 7_201),
        Err(DispatchError::BuildNotFound)
    ));
    assert_eq!(r.builds.len(), 0);
    // And a new registration under the same id starts from nothing.
    let resp = r.register_instance(s("old"), s("j"), specs(&["u"]), 10_000);
    assert!(resp.is_master);
}

#[test]
fn expiry_sweeps_only_stale_builds() {
    let mut r = Registry::new();
    r.register_instance(s("a"), s("i"), specs(&["t"]), 0);
    r.register_instance(s("b"), s("i"), specs(&["u"]), 6_000);
    r.register_instance(s("c"), s("i"), specs(&["v"]), 7_300);
    // At 7_300 build "a" (age 7_300 > 7_200) is evicted by the registration
    // sweep above; "b" and "c" survive.
    assert_eq!(r.builds.len(), 2);
    assert_eq!(r.builds[0].id, s("b"));
    assert_eq!(r.builds[1].id, s("c"));
}

#[test]
fn empty_specification_reports_done_immediately() {
    let mut r = Registry::new();
    r.register_instance(s("b"), s("i"), specs(&[""]), 0);
    // The dequeued value is the empty string, so the poll reports done even
    // though an entry was consumed.
    let p = r.next_spec(&s("b"), &s("i"), 0).unwrap();
    assert_eq!(p.status, QueueStatus::Done);
    assert_eq!(p.next_test, s(""));
    // The instance's history still records the assignment.
    assert_eq!(r.builds[0].instances[0].test_list, specs(&[""]));
}

#[test]
fn assignment_history_grows_per_poll() {
    let mut r = Registry::new();
    r.register_instance(s("b"), s("i"), specs(&["t1"]), 0);
    r.next_spec(&s("b"), &s("i"), 0).unwrap();
    r.next_spec(&s("b"), &s("i"), 0).unwrap();
    // The sentinel is recorded too, exactly as handed out.
    assert_eq!(r.builds[0].instances[0].test_list, specs(&["t1", ""]));
}

#[test]
fn wall_clock_entry_points_cover_protocol() {
    let mut r = Registry::new();
    let resp = r.register_instance_now(s("b"), s("i"), specs(&["t1"]));
    assert!(resp.is_master);
    let p = r.next_spec_now(&s("b"), &s("i")).unwrap();
    assert_eq!(p.status, QueueStatus::Ongoing);
    assert_eq!(p.next_test, s("t1"));
    assert!(r.test_completed_now(&s("b"), &s("i")).is_ok());
    assert_eq!(r.builds[0].instances[0].test_status, CompletionStatus::Done);
    r.reset_build_now(&s("b"));
    assert_eq!(r.builds.len(), 0);
}
