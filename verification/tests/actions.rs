use taskmgr_core::actions::{kill_failure, pid_text, EPERM, ESRCH};
use taskmgr_core::{CoreError, KillSignal};

#[test]
fn signal_numbers_are_posix() {
    assert_eq!(KillSignal::Term.signal_number(), 15);
    assert_eq!(KillSignal::Kill.signal_number(), 9);
}

#[test]
fn pid_text_shows_the_signed_pid() {
    assert_eq!(pid_text(0), "pid 0");
    assert_eq!(pid_text(4242), "pid 4242");
    assert_eq!(pid_text(2_147_483_647), "pid 2147483647");
    assert_eq!(pid_text(2_147_483_648), "pid -2147483648");
    assert_eq!(pid_text(u32::MAX), "pid -1");
}

#[test]
fn not_permitted_kill_is_permission_denied() {
    match kill_failure(77, EPERM, "EPERM: Operation not permitted".to_string()) {
        CoreError::PermissionDenied(Some(m)) => assert_eq!(m, "pid 77"),
        other => panic!("{other:?}"),
    }
}

#[test]
fn kill_of_missing_process_is_not_found() {
    match kill_failure(12345, ESRCH, "ESRCH: No such process".to_string()) {
        CoreError::NotFound(m) => assert_eq!(m, "pid 12345"),
        other => panic!("{other:?}"),
    }
}

#[test]
fn other_kill_failures_pass_the_description_on() {
    match kill_failure(5, 22, "EINVAL: Invalid argument".to_string()) {
        CoreError::Invalid(m) => assert_eq!(m, "EINVAL: Invalid argument"),
        other => panic!("{other:?}"),
    }
}
