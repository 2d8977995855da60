use account_lease::registry::Account;
use account_lease::registry::NotificationEvent;
use account_lease::registry::Registry;
use account_lease::registry::RegistryError;
use account_lease::registry::Requester;
use account_lease::registry::WaitOutcome;

fn account(name: &str) -> Account {
    Account { name: name.to_string() }
}

fn registry(names: &[&str]) -> Registry {
    let roster: Vec<Account> = names.iter().map(|n| account(n)).collect();
    Registry::new(roster).expect("valid roster")
}

fn names(accounts: &[Account]) -> Vec<String> {
    accounts.iter().map(|a| a.name.clone()).collect()
}

#[test]
fn scenario_two_accounts() {
    let mut reg = registry(&["A", "B"]);
    let (online, offline) = reg.status();
    assert!(online.is_empty());
    assert_eq!(names(&offline), ["A", "B"]);

    assert_eq!(reg.acquire(&"A".to_string(), Requester { id: 1 }), Ok(()));
    let (online, offline) = reg.status();
    assert_eq!(names(&online), ["A"]);
    assert_eq!(names(&offline), ["B"]);

    assert_eq!(
        reg.acquire(&"A".to_string(), Requester { id: 2 }),
        Err(RegistryError::AlreadyHeld)
    );
    let (online, _) = reg.status();
    assert_eq!(names(&online), ["A"]);

    match reg.request_access(Requester { id: 3 }) {
        WaitOutcome::Available(free) => assert_eq!(names(&free), ["B"]),
        WaitOutcome::Enqueued => panic!("an account was free"),
    }
    assert!(reg.waiters().is_empty());

    assert_eq!(reg.acquire(&"B".to_string(), Requester { id: 3 }), Ok(()));
    let (online, offline) = reg.status();
    assert_eq!(names(&online), ["A", "B"]);
    assert!(offline.is_empty());

    match reg.request_access(Requester { id: 4 }) {
        WaitOutcome::Enqueued => {}
        WaitOutcome::Available(_) => panic!("every account was held"),
    }
    assert_eq!(reg.waiters(), [Requester { id: 4 }]);

    let notification = reg
        .release(&"A".to_string())
        .expect("A was held")
        .expect("someone was waiting");
    assert_eq!(notification.requester, Requester { id: 4 });
    match notification.event {
        NotificationEvent::AccountFreed(a) => assert_eq!(a.name, "A"),
        NotificationEvent::AccountsAvailable(_) => panic!("a single account was freed"),
    }
    assert!(reg.waiters().is_empty());
    let (online, offline) = reg.status();
    assert_eq!(names(&online), ["B"]);
    assert_eq!(names(&offline), ["A"]);
}

#[test]
fn release_unknown_account_changes_nothing() {
    let mut reg = registry(&["A", "B"]);
    assert_eq!(reg.acquire(&"A".to_string(), Requester { id: 1 }), Ok(()));
    match reg.request_access(Requester { id: 2 }) {
        WaitOutcome::Available(_) => {}
        WaitOutcome::Enqueued => panic!("B was free"),
    }

    match reg.release(&"C".to_string()) {
        Err(RegistryError::UnknownAccount) => {}
        other => panic!("expected UnknownAccount, got {:?}", other),
    }
    let (online, offline) = reg.status();
    assert_eq!(names(&online), ["A"]);
    assert_eq!(names(&offline), ["B"]);
    assert!(reg.waiters().is_empty());
}

#[test]
fn waiters_are_served_in_arrival_order() {
    let mut reg = registry(&["A", "B"]);
    assert_eq!(reg.acquire(&"A".to_string(), Requester { id: 1 }), Ok(()));
    assert_eq!(reg.acquire(&"B".to_string(), Requester { id: 2 }), Ok(()));

    match reg.request_access(Requester { id: 10 }) {
        WaitOutcome::Enqueued => {}
        WaitOutcome::Available(_) => panic!("every account was held"),
    }
    match reg.request_access(Requester { id: 20 }) {
        WaitOutcome::Enqueued => {}
        WaitOutcome::Available(_) => panic!("every account was held"),
    }
    assert_eq!(reg.waiters(), [Requester { id: 10 }, Requester { id: 20 }]);

    let first = reg
        .release(&"A".to_string())
        .expect("A was held")
        .expect("two requesters were waiting");
    assert_eq!(first.requester, Requester { id: 10 });

    let second = reg
        .release(&"B".to_string())
        .expect("B was held")
        .expect("one requester was still waiting");
    assert_eq!(second.requester, Requester { id: 20 });

    assert!(reg.waiters().is_empty());
}

#[test]
fn second_release_fails_and_mutates_nothing() {
    let mut reg = registry(&["A", "B"]);
    assert_eq!(reg.acquire(&"A".to_string(), Requester { id: 1 }), Ok(()));

    match reg.release(&"A".to_string()) {
        Ok(None) => {}
        other => panic!("expected a quiet success, got {:?}", other),
    }
    let (online, offline) = reg.status();
    assert!(online.is_empty());
    assert_eq!(names(&offline), ["A", "B"]);

    match reg.release(&"A".to_string()) {
        Err(RegistryError::NotHeld) => {}
        other => panic!("expected NotHeld, got {:?}", other),
    }
    let (online, offline) = reg.status();
    assert!(online.is_empty());
    assert_eq!(names(&offline), ["A", "B"]);
}

#[test]
fn status_partitions_the_roster() {
    let mut reg = registry(&["A", "B", "C", "D"]);
    assert_eq!(reg.acquire(&"B".to_string(), Requester { id: 1 }), Ok(()));
    assert_eq!(reg.acquire(&"D".to_string(), Requester { id: 2 }), Ok(()));

    let (online, offline) = reg.status();
    assert_eq!(names(&online), ["B", "D"]);
    assert_eq!(names(&offline), ["A", "C"]);
    for held in &online {
        assert!(!offline.iter().any(|free| free.name == held.name));
    }
    assert_eq!(online.len() + offline.len(), 4);
}

#[test]
fn roster_with_duplicate_name_is_rejected() {
    let roster = vec![account("A"), account("B"), account("A")];
    assert!(Registry::new(roster).is_none());
}

#[test]
fn roster_with_empty_name_is_rejected() {
    let roster = vec![account("A"), account("")];
    assert!(Registry::new(roster).is_none());
}

#[test]
fn acquire_unknown_account_fails() {
    let mut reg = registry(&["A"]);
    assert_eq!(
        reg.acquire(&"Z".to_string(), Requester { id: 1 }),
        Err(RegistryError::UnknownAccount)
    );
    let (online, offline) = reg.status();
    assert!(online.is_empty());
    assert_eq!(names(&offline), ["A"]);
}

#[test]
fn request_access_with_free_accounts_mutates_nothing() {
    let mut reg = registry(&["A", "B"]);
    match reg.request_access(Requester { id: 1 }) {
        WaitOutcome::Available(free) => assert_eq!(names(&free), ["A", "B"]),
        WaitOutcome::Enqueued => panic!("everything was free"),
    }
    assert!(reg.waiters().is_empty());
    let (online, offline) = reg.status();
    assert!(online.is_empty());
    assert_eq!(names(&offline), ["A", "B"]);
}

#[test]
fn empty_roster_enqueues_every_request() {
    let mut reg = registry(&[]);
    match reg.request_access(Requester { id: 1 }) {
        WaitOutcome::Enqueued => {}
        WaitOutcome::Available(_) => panic!("there are no accounts at all"),
    }
    assert_eq!(reg.waiters(), [Requester { id: 1 }]);
}

#[test]
fn one_waiter_served_per_release() {
    let mut reg = registry(&["A"]);
    assert_eq!(reg.acquire(&"A".to_string(), Requester { id: 1 }), Ok(()));
    match reg.request_access(Requester { id: 2 }) {
        WaitOutcome::Enqueued => {}
        WaitOutcome::Available(_) => panic!("A was held"),
    }
    match reg.request_access(Requester { id: 3 }) {
        WaitOutcome::Enqueued => {}
        WaitOutcome::Available(_) => panic!("A was held"),
    }

    let notification = reg
        .release(&"A".to_string())
        .expect("A was held")
        .expect("someone was waiting");
    assert_eq!(notification.requester, Requester { id: 2 });
    assert_eq!(reg.waiters(), [Requester { id: 3 }]);
}
