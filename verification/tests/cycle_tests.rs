use load_balancer::client::{CycleAction, CycleEvent, MessagingCycle};

#[test]
fn cycle_runs_connect_then_disconnect() {
    let mut c = MessagingCycle::new();
    assert_eq!(c.first_action(), CycleAction::CheckShutdown);
    assert_eq!(
        c.step_with(CycleEvent::Checked { shutdown: false }, 10),
        CycleAction::Sleep { secs: 1 }
    );
    assert_eq!(c.step_with(CycleEvent::Slept, 0), CycleAction::SendConnect);
    assert_eq!(
        c.step_with(CycleEvent::Sent { delivered: true }, 17),
        CycleAction::Sleep { secs: 9 }
    );
    assert_eq!(c.step_with(CycleEvent::Slept, 0), CycleAction::SendDisconnect);
    assert_eq!(
        c.step_with(CycleEvent::Sent { delivered: true }, 0),
        CycleAction::CheckShutdown
    );
    assert_eq!(
        c.step_with(CycleEvent::Checked { shutdown: false }, 11),
        CycleAction::Sleep { secs: 2 }
    );
}

#[test]
fn cycle_notifies_itself_when_manager_is_gone() {
    let mut c = MessagingCycle::new();
    c.step_with(CycleEvent::Checked { shutdown: false }, 0);
    c.step_with(CycleEvent::Slept, 0);
    assert_eq!(
        c.step_with(CycleEvent::Sent { delivered: false }, 0),
        CycleAction::NotifyShutdown
    );
    assert_eq!(c.step_with(CycleEvent::Notified, 3), CycleAction::Sleep { secs: 4 });
    assert_eq!(c.step_with(CycleEvent::Slept, 0), CycleAction::SendDisconnect);
    assert_eq!(
        c.step_with(CycleEvent::Sent { delivered: false }, 0),
        CycleAction::NotifyShutdown
    );
    assert_eq!(c.step_with(CycleEvent::Notified, 0), CycleAction::CheckShutdown);
    assert_eq!(c.step_with(CycleEvent::Checked { shutdown: true }, 0), CycleAction::Stop);
    assert!(!c.accepts(CycleEvent::Checked { shutdown: false }));
    assert!(!c.accepts(CycleEvent::Slept));
}

#[test]
fn cycle_accepts_only_the_awaited_report() {
    let mut c = MessagingCycle::new();
    assert!(c.accepts(CycleEvent::Checked { shutdown: true }));
    assert!(!c.accepts(CycleEvent::Slept));
    c.step_with(CycleEvent::Checked { shutdown: false }, 0);
    assert!(c.accepts(CycleEvent::Slept));
    assert!(!c.accepts(CycleEvent::Notified));
}

#[test]
fn random_sleeps_stay_in_range() {
    for _ in 0..200 {
        let mut c = MessagingCycle::new();
        match c.step(CycleEvent::Checked { shutdown: false }) {
            CycleAction::Sleep { secs } => assert!((1..=2).contains(&secs)),
            other => panic!("unexpected {:?}", other),
        }
        c.step(CycleEvent::Slept);
        match c.step(CycleEvent::Sent { delivered: true }) {
            CycleAction::Sleep { secs } => assert!((1..=9).contains(&secs)),
            other => panic!("unexpected {:?}", other),
        }
    }
}
