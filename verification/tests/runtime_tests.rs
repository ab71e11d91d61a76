use finger_kernel::protocol::{EventMsg, InputItem, UserTurnOptions};
use finger_kernel::engine::has_supported_input;
use finger_kernel::runtime::{
    echo_run_turn, KernelConfig, SchedulerState, TaskLifecycle, TurnRequest, UserTurnDecision,
};

fn text_turn(texts: &[&str]) -> TurnRequest {
    TurnRequest {
        items: texts.iter().map(|t| InputItem::Text { text: t.to_string() }).collect(),
        options: UserTurnOptions::empty(),
    }
}

#[test]
fn user_turn_emits_started_then_complete() {
    let (mut scheduler, configured) = SchedulerState::start("finger-kernel".to_string());
    assert_eq!(configured.id, "session");
    assert!(matches!(configured.msg, EventMsg::SessionConfigured(_)));

    let sub_id = "sub-1".to_string();
    let decision = scheduler.on_user_turn(&sub_id);
    assert!(matches!(decision, UserTurnDecision::SpawnNew));

    let (mut task, started) = TaskLifecycle::begin(sub_id, None);
    assert_eq!(started.id, "sub-1");
    assert!(matches!(started.msg, EventMsg::TaskStarted(_)));

    let result = echo_run_turn(&text_turn(&["hello"]));
    assert!(task.note_engine_result(Ok(result)).is_none());
    let completed = task.finish();
    assert_eq!(completed.id, "sub-1");
    match completed.msg {
        EventMsg::TaskComplete(done) => {
            assert_eq!(done.last_agent_message.as_deref(), Some("hello"));
        }
        _ => panic!("completion expected"),
    }

    let (aborted, shutdown) = scheduler.on_shutdown(&"shutdown".to_string());
    assert!(aborted.is_some());
    assert_eq!(shutdown.id, "shutdown");
    assert!(matches!(shutdown.msg, EventMsg::ShutdownComplete));
}

#[test]
fn second_user_turn_is_injected_into_running_task() {
    let (mut scheduler, _) = SchedulerState::start("finger-kernel".to_string());
    let first = "sub-1".to_string();
    assert!(matches!(scheduler.on_user_turn(&first), UserTurnDecision::SpawnNew));
    let (mut task, _) = TaskLifecycle::begin(first, None);
    let _ = task.note_engine_result(Ok(echo_run_turn(&text_turn(&["first"]))));

    let second = "sub-2".to_string();
    assert!(matches!(scheduler.on_user_turn(&second), UserTurnDecision::ForwardToActive));
    let _ = task.note_engine_result(Ok(echo_run_turn(&text_turn(&["second"]))));

    let completed = task.finish();
    assert_eq!(completed.id, "sub-1");
    match completed.msg {
        EventMsg::TaskComplete(done) => {
            assert_eq!(done.last_agent_message.as_deref(), Some("second"));
        }
        _ => panic!("completion expected"),
    }
}

#[test]
fn interrupt_aborts_running_task() {
    let (mut scheduler, _) = SchedulerState::start("finger-kernel".to_string());
    let sub_id = "sub-1".to_string();
    let _ = scheduler.on_user_turn(&sub_id);
    let (_task, started) = TaskLifecycle::begin(sub_id, None);
    assert!(matches!(started.msg, EventMsg::TaskStarted(_)));

    let aborted = scheduler.on_interrupt().expect("abort event");
    assert_eq!(aborted.id, "sub-1");
    match aborted.msg {
        EventMsg::TurnAborted(e) => {
            assert!(matches!(e.reason, finger_kernel::protocol::TurnAbortReason::UserInterrupt));
        }
        _ => panic!("abort expected"),
    }
    assert!(scheduler.on_interrupt().is_none());
}

#[test]
fn engine_failure_surfaces_as_error_then_complete() {
    let (mut task, _) = TaskLifecycle::begin("sub-err".to_string(), Some(4096));
    let error_event = task
        .note_engine_result(Err("connection reset".to_string()))
        .expect("error event");
    match error_event.msg {
        EventMsg::Error(e) => assert_eq!(e.message, "run_turn failed: connection reset"),
        _ => panic!("error expected"),
    }
    let completed = task.finish();
    match completed.msg {
        EventMsg::TaskComplete(done) => assert!(done.last_agent_message.is_none()),
        _ => panic!("completion expected"),
    }
}

#[test]
fn approvals_are_answered_with_an_error() {
    let (scheduler, _) = SchedulerState::start("finger-kernel".to_string());
    let answer = scheduler.on_approval(&"appr-1".to_string());
    assert_eq!(answer.id, "appr-1");
    match answer.msg {
        EventMsg::Error(e) => assert_eq!(e.message, "approval flow is not implemented"),
        _ => panic!("error expected"),
    }
}

#[test]
fn kernel_defaults_match_the_documented_values() {
    let cfg = KernelConfig::default();
    assert_eq!(cfg.session_id, "finger-kernel");
    assert_eq!(cfg.channel_capacity, 128);
    assert_eq!(cfg.task_idle_timeout_ms, 200);
}

#[test]
fn blank_turns_carry_nothing_to_send() {
    let blank = vec![
        InputItem::Text { text: "   ".to_string() },
        InputItem::Image { image_url: "".to_string() },
    ];
    assert!(!has_supported_input(&blank));
    let real = vec![InputItem::Text { text: "hello".to_string() }];
    assert!(has_supported_input(&real));
}
