use swarm_core::swarm::{FuturePoll, IntakePoll, StreamPoll, SwarmError, SwarmFuture, TaskPoll};

#[test]
fn submitted_dial_is_taken_in_and_started_in_one_pass() {
    let mut e = SwarmFuture::new();
    assert_eq!(e.poll_next_incoming(FuturePoll::NotReady), Ok(false));
    e.intake_listener(IntakePoll::NotReady);
    e.intake_dialer(IntakePoll::Item { id: 1 });
    assert_eq!(e.dialers(), &vec![1]);
    assert_eq!(e.advance_listeners(vec![]), Ok(()));
    assert_eq!(e.advance_listener_upgrades(vec![]), Ok(()));
    assert_eq!(e.advance_dialers(vec![FuturePoll::Ready { task: 10 }]), Ok(()));
    assert!(e.dialers().is_empty());
    assert_eq!(e.to_process(), &vec![10]);
    assert_eq!(e.advance_tasks(vec![TaskPoll::NotReady]), Ok(()));
    assert_eq!(e.to_process(), &vec![10]);
    assert_eq!(e.advance_tasks(vec![TaskPoll::Done]), Ok(()));
    assert!(e.to_process().is_empty());
}

#[test]
fn pending_dial_stays_until_ready() {
    let mut e = SwarmFuture::new();
    e.intake_dialer(IntakePoll::Item { id: 1 });
    e.intake_dialer(IntakePoll::Item { id: 2 });
    // polled last to first: dial 2 is pending, dial 1 is ready
    assert_eq!(
        e.advance_dialers(vec![FuturePoll::NotReady, FuturePoll::Ready { task: 11 }]),
        Ok(())
    );
    assert_eq!(e.dialers(), &vec![2]);
    assert_eq!(e.to_process(), &vec![11]);
}

#[test]
fn listener_yields_upgrades_and_leaves_when_exhausted() {
    let mut e = SwarmFuture::new();
    e.intake_listener(IntakePoll::Item { id: 5 });
    e.intake_listener(IntakePoll::Item { id: 6 });
    e.intake_listener(IntakePoll::Closed);
    assert_eq!(e.listeners(), &vec![5, 6]);
    // listener 6 yields upgrade 20, listener 5 yields upgrade 21
    assert_eq!(
        e.advance_listeners(vec![StreamPoll::Item { upgrade: 20 }, StreamPoll::Item { upgrade: 21 }]),
        Ok(())
    );
    assert_eq!(e.listeners(), &vec![5, 6]);
    assert_eq!(e.listeners_upgrade(), &vec![20, 21]);
    // upgrade 21 finishes, 20 does not
    assert_eq!(
        e.advance_listener_upgrades(vec![FuturePoll::Ready { task: 30 }, FuturePoll::NotReady]),
        Ok(())
    );
    assert_eq!(e.listeners_upgrade(), &vec![20]);
    assert_eq!(e.to_process(), &vec![30]);
    // listener 6 ends, listener 5 has nothing yet
    assert_eq!(e.advance_listeners(vec![StreamPoll::Exhausted, StreamPoll::NotReady]), Ok(()));
    assert_eq!(e.listeners(), &vec![5]);
}

#[test]
fn handler_count_matches_dials_and_accepted_connections() {
    // two dials and one listener that accepts three connections
    let mut e = SwarmFuture::new();
    e.intake_listener(IntakePoll::Item { id: 1 });
    e.intake_dialer(IntakePoll::Item { id: 2 });
    e.intake_dialer(IntakePoll::Item { id: 3 });
    let mut started = 0usize;
    for (k, upgrade) in [100u64, 101, 102].iter().enumerate() {
        assert_eq!(e.advance_listeners(vec![StreamPoll::Item { upgrade: *upgrade }]), Ok(()));
        let n = e.listeners_upgrade().len();
        let outs: Vec<FuturePoll> =
            (0..n).map(|j| FuturePoll::Ready { task: 1000 + (k * 10 + j) as u64 }).collect();
        started += outs.len();
        assert_eq!(e.advance_listener_upgrades(outs), Ok(()));
    }
    let n = e.dialers().len();
    let outs: Vec<FuturePoll> = (0..n).map(|j| FuturePoll::Ready { task: 2000 + j as u64 }).collect();
    started += outs.len();
    assert_eq!(e.advance_dialers(outs), Ok(()));
    assert_eq!(started, 5);
    assert_eq!(e.to_process().len(), 5);
}

#[test]
fn a_failure_fails_the_engine_and_changes_nothing() {
    let mut e = SwarmFuture::new();
    e.intake_dialer(IntakePoll::Item { id: 1 });
    e.intake_dialer(IntakePoll::Item { id: 2 });
    assert_eq!(
        e.advance_dialers(vec![FuturePoll::Ready { task: 9 }, FuturePoll::Failed]),
        Err(SwarmError)
    );
    assert_eq!(e.dialers(), &vec![1, 2]);
    assert!(e.to_process().is_empty());
    assert_eq!(e.poll_next_incoming(FuturePoll::Failed), Err(SwarmError));
    e.intake_listener(IntakePoll::Item { id: 3 });
    assert_eq!(e.advance_listeners(vec![StreamPoll::Failed]), Err(SwarmError));
    assert_eq!(e.listeners(), &vec![3]);
    assert_eq!(e.poll_next_incoming(FuturePoll::Ready { task: 4 }), Ok(true));
    assert_eq!(e.advance_tasks(vec![TaskPoll::Failed]), Err(SwarmError));
    assert_eq!(e.to_process(), &vec![4]);
}

#[test]
fn items_left_unpolled_stay() {
    let mut e = SwarmFuture::new();
    for id in 1..=3u64 {
        e.intake_dialer(IntakePoll::Item { id });
    }
    assert_eq!(e.advance_dialers(vec![FuturePoll::Ready { task: 7 }]), Ok(()));
    assert_eq!(e.dialers(), &vec![1, 2]);
    assert_eq!(e.to_process(), &vec![7]);
}
