use log4tc::service::{
    handle_control, state_text, status_message, ControlAnswer, ControlDecision, ControlRequest,
    ServiceStateKind,
};

#[test]
fn stop_and_shutdown_stop_the_service() {
    for c in [ControlRequest::Stop, ControlRequest::Shutdown] {
        assert_eq!(
            handle_control(c),
            ControlDecision { answer: ControlAnswer::NoError, stop: true }
        );
    }
}

#[test]
fn interrogate_is_answered_without_stopping() {
    assert_eq!(
        handle_control(ControlRequest::Interrogate),
        ControlDecision { answer: ControlAnswer::NoError, stop: false }
    );
}

#[test]
fn other_requests_are_not_implemented() {
    assert_eq!(
        handle_control(ControlRequest::Other),
        ControlDecision { answer: ControlAnswer::NotImplemented, stop: false }
    );
}

#[test]
fn state_words() {
    assert_eq!(state_text(ServiceStateKind::Running), "Running");
    assert_eq!(state_text(ServiceStateKind::Stopped), "Stopped");
    assert_eq!(state_text(ServiceStateKind::StartPending), "Starting");
    assert_eq!(state_text(ServiceStateKind::StopPending), "Stopping");
    assert_eq!(state_text(ServiceStateKind::Other), "Unknown");
}

#[test]
fn status_message_shows_state_and_process_id() {
    assert_eq!(
        status_message(ServiceStateKind::Running, Some(4321)),
        format!("Log4TC Service Status: {} (Process ID: {:?})", "Running", Some(4321u32))
    );
    assert_eq!(
        status_message(ServiceStateKind::Stopped, None),
        "Log4TC Service Status: Stopped (Process ID: None)"
    );
}
