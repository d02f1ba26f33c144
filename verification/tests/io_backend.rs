use helixrack::io_backend::{examine, is_resource_exhaustion, judge, probe, IoBackend, Probe};

#[test]
fn probe_returns_a_defined_backend_without_panicking() {
    let backend = probe();
    assert!(matches!(backend, IoBackend::IoUring | IoBackend::Epoll));
}

#[test]
fn as_str_matches_the_variant() {
    assert_eq!(IoBackend::IoUring.as_str(), "io_uring");
    assert_eq!(IoBackend::Epoll.as_str(), "epoll");
}

#[test]
fn want_of_resources_is_told_from_want_of_support() {
    assert!(is_resource_exhaustion(Some(libc::EMFILE)));
    assert!(is_resource_exhaustion(Some(libc::ENFILE)));
    assert!(is_resource_exhaustion(Some(libc::ENOMEM)));
    assert!(!is_resource_exhaustion(Some(libc::ENOSYS)));
    assert!(!is_resource_exhaustion(Some(libc::EPERM)));
    assert!(!is_resource_exhaustion(None));
    assert_eq!((libc::EMFILE, libc::ENFILE, libc::ENOMEM), (24, 23, 12));
}

#[test]
fn attempts_are_judged() {
    assert_eq!(
        judge(Ok(())),
        Probe { backend: IoBackend::IoUring, inconclusive: false, error: None }
    );
    assert_eq!(
        judge(Err(Some(libc::ENOSYS))),
        Probe { backend: IoBackend::Epoll, inconclusive: false, error: Some(libc::ENOSYS) }
    );
    assert_eq!(
        judge(Err(Some(libc::EMFILE))),
        Probe { backend: IoBackend::Epoll, inconclusive: true, error: Some(libc::EMFILE) }
    );
    assert_eq!(
        judge(Err(None)),
        Probe { backend: IoBackend::Epoll, inconclusive: false, error: None }
    );
}

#[test]
fn only_a_failed_attempt_is_inconclusive() {
    let found = examine();
    assert!(found.backend == IoBackend::Epoll || !found.inconclusive);
}
