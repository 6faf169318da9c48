use horizon_atlas::errors::AtlasError;
use horizon_atlas::scalar::Scalar;
use horizon_atlas::transitions::{
    default_handler, AfterExecute, AfterPrepare, CancelStep, HandlerKind, ProcessAction, ProcessEvent, ProcessStage,
    RegionTransitionHandler, ServerTransitionHandler, StepOutcome, TransitionContext, TransitionManager,
    TransitionMetrics, TransitionState, TransitionType,
};
use horizon_atlas::types::{ClientId, MessageDestination, MessageSource, Position, RegionId, ServerId, TransitionRequest};

const SECOND: i64 = 1_000_000_000;
const MINUTE: i64 = 60 * SECOND;

fn place() -> Position {
    Position { x: Scalar::Number(0), y: Scalar::Number(0), z: Scalar::Number(0) }
}

fn start(manager: &mut TransitionManager, id: &str, to_region: &str, now: i64) -> TransitionRequest {
    manager.initiate_with_id(
        id.to_string(),
        ClientId("c".to_string()),
        ServerId("s1".to_string()),
        ServerId("s2".to_string()),
        RegionId("r1".to_string()),
        RegionId(to_region.to_string()),
        place(),
        vec![1, 2],
        now,
    )
}

fn context(request: &TransitionRequest) -> TransitionContext {
    RegionTransitionHandler {}.prepare_context(request, 5)
}

fn transition_error(text: &str) -> AtlasError {
    AtlasError::Transition(text.to_string())
}

#[test]
fn transitions_begin_pending() {
    let mut manager = TransitionManager::new();
    let (id, request) = manager.initiate_transition(
        ClientId("c".to_string()),
        ServerId("s1".to_string()),
        ServerId("s2".to_string()),
        RegionId("r1".to_string()),
        RegionId("r2".to_string()),
        place(),
        vec![1, 2],
        100,
    );
    assert_eq!(id.len(), 36);
    assert_eq!((request.state_data.clone(), request.timestamp), (vec![1, 2], 100));
    assert_eq!(manager.get_transition_status(&id), Ok(TransitionState::Pending));
    assert_eq!(manager.find_transition_id(&request), Some(id.clone()));
    let record = manager.get_transition(&id).unwrap();
    assert_eq!(record.timeout_at, 100 + 30 * SECOND);
    assert_eq!((record.created_at, record.retry_count), (100, 0));
    let metrics = manager.get_metrics();
    assert_eq!((metrics.transitions_initiated, metrics.active_transitions), (1, 1));
    assert_eq!(manager.queue_failed(&id, "closed"), transition_error("Failed to queue transition: closed"));
    assert_eq!(manager.get_metrics().active_transitions, 0);
    assert_eq!(
        manager.get_transition_status(&id),
        Err(transition_error(&format!("Transition {} not found", id)))
    );
    assert_eq!(manager.find_transition_id(&request), None);
}

#[test]
fn transitions_are_taken_up_once() {
    let mut manager = TransitionManager::new();
    start(&mut manager, "t", "r2", 0);
    start(&mut manager, "u", "r1", 0);
    assert_eq!(manager.begin_transition("t", 1), Some(TransitionType::RegionChange));
    assert_eq!(manager.begin_transition("t", 2), None);
    assert_eq!(manager.begin_transition("u", 1), Some(TransitionType::ServerSwitch));
    assert_eq!(manager.begin_transition("x", 1), None);
    assert_eq!(manager.get_transition_status("t"), Ok(TransitionState::Preparing));
    assert_eq!(manager.get_transition("t").unwrap().updated_at, 1);
}

#[test]
fn a_transition_that_goes_well() {
    let mut manager = TransitionManager::new();
    manager.register_default_handlers();
    let mut metrics = TransitionMetrics::default();
    let request = start(&mut manager, "t", "r2", 0);
    let (mut process, kind) = manager.start_process("t", 1000).unwrap();
    assert_eq!(kind, TransitionType::RegionChange);
    assert_eq!(process.stage, ProcessStage::Preparing);
    let prepared = ProcessEvent::Prepared(StepOutcome::Succeeded(context(&request)));
    let action = manager.process_transition(&mut process, prepared, 2000, &mut metrics);
    assert!(matches!(action, ProcessAction::Execute));
    assert_eq!(manager.get_transition_status("t"), Ok(TransitionState::Prepared));
    assert!(manager.get_transition("t").unwrap().context.is_some());
    let executed = ProcessEvent::Executed(StepOutcome::Succeeded(()));
    let action = manager.process_transition(&mut process, executed, 3000, &mut metrics);
    assert!(matches!(action, ProcessAction::Confirm));
    assert_eq!(manager.get_transition_status("t"), Ok(TransitionState::Executing));
    let action =
        manager.process_transition(&mut process, ProcessEvent::Confirmed, 1000 + 7_999_999, &mut metrics);
    assert!(matches!(action, ProcessAction::Completed));
    assert_eq!(process.stage, ProcessStage::Done);
    assert_eq!(manager.get_transition_status("t"), Ok(TransitionState::Completed));
    assert_eq!((metrics.transitions_completed, metrics.average_transition_time_ms), (1, 7));
    assert!(manager.start_process("t", 0).is_none());
    let mut unhandled = TransitionManager::new();
    start(&mut unhandled, "t", "r2", 0);
    assert!(unhandled.start_process("t", 0).is_none());
    assert_eq!(unhandled.get_transition_status("t"), Ok(TransitionState::Preparing));
}

#[test]
fn a_transition_that_is_rolled_back() {
    let mut manager = TransitionManager::new();
    manager.register_default_handlers();
    let mut metrics = TransitionMetrics::default();
    let request = start(&mut manager, "t", "r2", 0);
    let (mut process, _) = manager.start_process("t", 0).unwrap();
    let prepared = ProcessEvent::Prepared(StepOutcome::Succeeded(context(&request)));
    let _ = manager.process_transition(&mut process, prepared, 1, &mut metrics);
    let failed = ProcessEvent::Executed(StepOutcome::Failed("lost".to_string()));
    let action = manager.process_transition(&mut process, failed, 2, &mut metrics);
    assert!(matches!(action, ProcessAction::RollBack(reason) if reason == "lost"));
    assert_eq!(manager.get_transition("t").unwrap().error_message, Some("lost".to_string()));
    assert_eq!(metrics.transitions_failed, 0);
    let back = ProcessEvent::RolledBack { succeeded: true, reason: "lost".to_string() };
    let action = manager.process_transition(&mut process, back, 3, &mut metrics);
    assert!(matches!(action, ProcessAction::Failed(error) if error == transition_error("lost")));
    assert_eq!(manager.get_transition_status("t"), Ok(TransitionState::RolledBack));
    assert_eq!((metrics.transitions_failed, metrics.transitions_rolled_back), (1, 1));
}

#[test]
fn steps_that_take_too_long() {
    let mut manager = TransitionManager::new();
    let mut metrics = TransitionMetrics::default();
    let request = start(&mut manager, "t", "r2", 0);
    let _ = manager.begin_transition("t", 0);
    let step = manager.finish_prepare("t", StepOutcome::TimedOut, 1, &mut metrics);
    assert!(matches!(step, AfterPrepare::Failed(error) if error == transition_error("Preparation timeout")));
    assert_eq!(manager.get_transition_status("t"), Ok(TransitionState::Failed));
    assert_eq!(metrics.transitions_failed, 1);
    start(&mut manager, "u", "r2", 0);
    let step = manager.finish_prepare("u", StepOutcome::Succeeded(context(&request)), 1, &mut metrics);
    assert!(matches!(step, AfterPrepare::Execute));
    let step = manager.finish_execute("u", StepOutcome::TimedOut, 2, &mut metrics);
    assert!(matches!(step, AfterExecute::RollBack(reason) if reason == "Execution timeout"));
    let error = manager.finish_rollback("u", false, "Execution timeout".to_string(), &mut metrics);
    assert_eq!(error, transition_error("Execution timeout"));
    assert_eq!(manager.get_transition_status("u"), Ok(TransitionState::Failed));
    assert_eq!((metrics.transitions_failed, metrics.transitions_rolled_back), (2, 0));
}

#[test]
fn transitions_that_are_no_longer_on_record() {
    let mut manager = TransitionManager::new();
    manager.register_default_handlers();
    let mut metrics = TransitionMetrics::default();
    start(&mut manager, "t", "r2", 0);
    let step = manager.finish_prepare("x", StepOutcome::TimedOut, 0, &mut metrics);
    assert!(matches!(step, AfterPrepare::Gone));
    let step = manager.finish_execute("x", StepOutcome::TimedOut, 0, &mut metrics);
    assert!(matches!(step, AfterExecute::Gone));
    let step = manager.finish_execute("t", StepOutcome::Failed("no".to_string()), 0, &mut metrics);
    assert!(matches!(step, AfterExecute::Failed(error) if error == transition_error("no")));
    assert_eq!(manager.finish_confirm("x", 0, 0, &mut metrics), None);
    assert_eq!(metrics.transitions_completed, 0);
    let (mut process, _) = {
        start(&mut manager, "u", "r2", 0);
        manager.start_process("u", 0).unwrap()
    };
    let _ = manager.queue_failed("u", "");
    let gone = ProcessEvent::Prepared(StepOutcome::Failed("late".to_string()));
    assert!(matches!(manager.process_transition(&mut process, gone, 1, &mut metrics), ProcessAction::Gone));
    assert_eq!(process.stage, ProcessStage::Done);
}

#[test]
fn cancelling_transitions() {
    let mut manager = TransitionManager::new();
    let mut metrics = TransitionMetrics::default();
    let request = start(&mut manager, "t", "r2", 0);
    assert_eq!(manager.cancel_transition("t", 9), Ok(CancelStep::Cancelled));
    assert_eq!(manager.get_transition_status("t"), Ok(TransitionState::Cancelled));
    assert_eq!(
        manager.cancel_transition("t", 9),
        Err(transition_error("Cannot cancel transition t in state Cancelled"))
    );
    assert_eq!(manager.cancel_transition("x", 9), Err(transition_error("Transition x not found")));
    start(&mut manager, "u", "r2", 0);
    let _ = manager.finish_execute("u", StepOutcome::Succeeded(()), 0, &mut metrics);
    assert_eq!(manager.cancel_transition("u", 9), Ok(CancelStep::Cancelled));
    start(&mut manager, "v", "r2", 0);
    let _ = manager.finish_prepare("v", StepOutcome::Succeeded(context(&request)), 0, &mut metrics);
    assert_eq!(
        manager.cancel_transition("v", 9),
        Err(transition_error("Cannot cancel transition v in state Prepared"))
    );
    let _ = manager.finish_execute("v", StepOutcome::Succeeded(()), 0, &mut metrics);
    let mut unhandled = TransitionManager::new();
    start(&mut unhandled, "v", "r2", 0);
    let _ = unhandled.finish_prepare("v", StepOutcome::Succeeded(context(&request)), 0, &mut metrics);
    let _ = unhandled.finish_execute("v", StepOutcome::Succeeded(()), 0, &mut metrics);
    assert_eq!(unhandled.cancel_transition("v", 9), Ok(CancelStep::Cancelled));
    manager.register_handler(TransitionType::RegionChange);
    assert!(manager.has_handler(TransitionType::RegionChange));
    assert!(!manager.has_handler(TransitionType::ServerSwitch));
    let on_record = manager.get_transition("v").unwrap().context.clone().unwrap();
    assert_eq!(
        manager.cancel_transition("v", 9),
        Ok(CancelStep::RollBackFirst {
            context: on_record,
            reason: "Transition cancelled by user".to_string(),
        })
    );
    let refused = || AtlasError::Network("refused".to_string());
    assert_eq!(manager.finish_cancel("v", Err(refused()), 10), Err(refused()));
    assert_eq!(manager.get_transition_status("v"), Ok(TransitionState::Executing));
    assert_eq!(manager.finish_cancel("v", Ok(()), 10), Ok(()));
    assert_eq!(manager.get_transition_status("v"), Ok(TransitionState::Cancelled));
    assert_eq!(manager.finish_cancel("x", Ok(()), 10), Err(transition_error("Transition x not found")));
}

#[test]
fn stopping_calls_off_what_is_running() {
    let mut manager = TransitionManager::new();
    let mut metrics = TransitionMetrics::default();
    start(&mut manager, "waiting", "r2", 0);
    start(&mut manager, "preparing", "r2", 0);
    let _ = manager.begin_transition("preparing", 0);
    start(&mut manager, "executing", "r2", 0);
    let _ = manager.finish_execute("executing", StepOutcome::Succeeded(()), 0, &mut metrics);
    manager.stop(5);
    assert_eq!(manager.get_transition_status("waiting"), Ok(TransitionState::Pending));
    assert_eq!(manager.get_transition_status("preparing"), Ok(TransitionState::Cancelled));
    assert_eq!(manager.get_transition_status("executing"), Ok(TransitionState::Cancelled));
    assert_eq!(manager.get_transition("executing").unwrap().updated_at, 5);
}

#[test]
fn stale_records_are_cleaned_up() {
    let mut manager = TransitionManager::new();
    let mut metrics = TransitionMetrics { active_transitions: 1, ..TransitionMetrics::default() };
    start(&mut manager, "stuck", "r2", 0);
    start(&mut manager, "done", "r2", 0);
    let _ = manager.cancel_transition("done", 0);
    manager.cleanup(30 * SECOND, &mut metrics);
    assert!(manager.get_transition("stuck").is_some());
    manager.cleanup(30 * SECOND + 1, &mut metrics);
    assert!(manager.get_transition("stuck").is_none());
    assert_eq!(metrics.active_transitions, 0);
    manager.cleanup(6 * MINUTE - 1, &mut metrics);
    assert!(manager.get_transition("done").is_some());
    manager.cleanup(6 * MINUTE, &mut metrics);
    assert!(manager.get_transition("done").is_none());
    assert_eq!(metrics.active_transitions, u32::MAX);
    manager.cleanup(6 * MINUTE, &mut metrics);
    assert_eq!(metrics.active_transitions, u32::MAX);
}

#[test]
fn handlers_by_type() {
    assert_eq!(default_handler(TransitionType::RegionChange), HandlerKind::Region);
    assert_eq!(default_handler(TransitionType::ServerSwitch), HandlerKind::Server);
    assert_eq!(default_handler(TransitionType::LoadBalancing), HandlerKind::Server);
    assert_eq!(default_handler(TransitionType::Emergency), HandlerKind::Server);
}

#[test]
fn what_servers_are_told() {
    let mut manager = TransitionManager::new();
    let request = start(&mut manager, "t", "r2", 0);
    let region = RegionTransitionHandler {};
    let made = region.prepare_context(&request, 1000);
    assert_eq!(made.transition_type, TransitionType::RegionChange);
    assert_eq!((made.prepared_at, made.deadline), (1000, 1000 + 30 * SECOND));
    assert_eq!(made.client_state, vec![1, 2]);
    let told = region.prepare_message(&request, vec![9], 7);
    assert_eq!(told.message_type, "prepare_client_transfer");
    assert_eq!(told.to, MessageDestination::Server(ServerId("s2".to_string())));
    assert_eq!(told.from, MessageSource::Atlas("transition-manager".to_string()));
    assert_eq!((told.payload, told.timestamp, told.encrypted, told.compressed), (vec![9], 7, false, false));
    let told = region.transfer_message(&made, vec![], 7);
    assert_eq!(told.message_type, "transfer_client");
    assert_eq!(told.to, MessageDestination::Server(ServerId("s1".to_string())));
    assert_eq!(region.accept_message(&made, vec![], 7).message_type, "accept_client");
    assert_eq!(region.rollback_message(&made, vec![], 7).message_type, "rollback_client_transfer");
    let server = ServerTransitionHandler {};
    let made = server.prepare_context(&request, 1000);
    assert_eq!(made.transition_type, TransitionType::ServerSwitch);
    assert_eq!(made.deadline, 1000 + 15 * SECOND);
    assert_eq!(server.prepare_message(&request, vec![], 7).message_type, "prepare_server_switch");
    assert_eq!(server.switch_message(&made, vec![], 7).message_type, "execute_server_switch");
    assert_eq!(server.rollback_message(&made, vec![], 7).message_type, "rollback_server_switch");
    assert_ne!(server.switch_message(&made, vec![], 7).id, server.switch_message(&made, vec![], 7).id);
}
