use gpu_arbiter::procmon::{event_kind_from_what, is_trigger_kind, ProcEventKind, ProcMonError};
use gpu_arbiter::procmon as proc_event_what;

#[test]
fn what_maps_exec_and_exit() {
    assert_eq!(
        event_kind_from_what(proc_event_what::EXEC),
        ProcEventKind::Exec
    );
    assert_eq!(
        event_kind_from_what(proc_event_what::EXIT),
        ProcEventKind::Exit
    );
    assert_eq!(
        event_kind_from_what(proc_event_what::NONZERO_EXIT),
        ProcEventKind::Exit
    );
}

#[test]
fn what_maps_fork_and_other() {
    assert_eq!(
        event_kind_from_what(proc_event_what::FORK),
        ProcEventKind::Fork
    );
    assert_eq!(
        event_kind_from_what(proc_event_what::UID),
        ProcEventKind::Other
    );
    assert_eq!(event_kind_from_what(0xDEAD_BEEF), ProcEventKind::Other);
}

#[test]
fn only_exec_and_exit_trigger_reconcile() {
    assert!(is_trigger_kind(ProcEventKind::Exec));
    assert!(is_trigger_kind(ProcEventKind::Exit));
    assert!(!is_trigger_kind(ProcEventKind::Fork));
    assert!(!is_trigger_kind(ProcEventKind::Other));
}

#[test]
fn what_then_trigger_pipeline() {
    assert!(is_trigger_kind(event_kind_from_what(proc_event_what::EXEC)));
    assert!(is_trigger_kind(event_kind_from_what(
        proc_event_what::NONZERO_EXIT
    )));
    assert!(!is_trigger_kind(event_kind_from_what(
        proc_event_what::FORK
    )));
}

#[test]
fn socket_error_says_what_failed() {
    assert_eq!(
        ProcMonError::Socket("denied".into()).message(),
        "opening cn_proc netlink socket: denied"
    );
}
