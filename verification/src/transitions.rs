//! Handing a client over from one server to another, step by step.
//!
//! A transition is prepared on the target, executed, and confirmed; where the
//! execution fails it is rolled back. The steps themselves are messages to
//! servers, sent elsewhere: this module decides what each outcome leads to.
use vstd::prelude::*;

use crate::clock::{
    elapsed, elapsed_nanos, span_in, whole_units, LATEST_INSTANT, NANOS_PER_MINUTE, NANOS_PER_SECOND,
};
use crate::errors::{AtlasError, Result};
use crate::ids::{is_uuid_text, new_uuid_text};
use crate::table::{lemma_push_contains, Table};
use crate::text::{join3, str_eq};
use crate::types::{
    copy_bytes, copy_pairs, ClientId, Message, MessageDestination, MessageSource, Position,
    RegionId, ServerId, TransitionRequest,
};

verus! {

/// How long a transition may wait before it counts as stuck.
pub const TRANSITION_TIMEOUT_SECONDS: i64 = 30;

/// How long a handler may take to prepare a transition.
pub const PREPARE_LIMIT_SECONDS: u64 = 10;

/// How long a handler may take to execute a transition.
pub const EXECUTE_LIMIT_SECONDS: u64 = 15;

/// For how many whole minutes a finished transition stays on record.
pub const RETENTION_MINUTES: i64 = 5;

/// Where a transition stands.
#[derive(Clone, Copy, Debug, PartialEq, Eq, Structural)]
pub enum TransitionState {
    Pending,
    Preparing,
    Prepared,
    Executing,
    Completed,
    Failed,
    RolledBack,
    Cancelled,
}

impl TransitionState {
    /// Whether the transition has run its course.
    pub open spec fn is_final(self) -> bool {
        self is Completed || self is Failed || self is RolledBack || self is Cancelled
    }

    /// The state's name.
    pub open spec fn spec_name(self) -> Seq<char> {
        match self {
            TransitionState::Pending => "Pending"@,
            TransitionState::Preparing => "Preparing"@,
            TransitionState::Prepared => "Prepared"@,
            TransitionState::Executing => "Executing"@,
            TransitionState::Completed => "Completed"@,
            TransitionState::Failed => "Failed"@,
            TransitionState::RolledBack => "RolledBack"@,
            TransitionState::Cancelled => "Cancelled"@,
        }
    }

    /// The state's name.
    pub fn name(self) -> (result: &'static str)
        ensures
            result@ == self.spec_name(),
    {
        match self {
            TransitionState::Pending => "Pending",
            TransitionState::Preparing => "Preparing",
            TransitionState::Prepared => "Prepared",
            TransitionState::Executing => "Executing",
            TransitionState::Completed => "Completed",
            TransitionState::Failed => "Failed",
            TransitionState::RolledBack => "RolledBack",
            TransitionState::Cancelled => "Cancelled",
        }
    }
}

/// Why a client changes servers.
#[derive(Clone, Copy, Debug, PartialEq, Eq, Hash, Structural)]
pub enum TransitionType {
    RegionChange,
    ServerSwitch,
    LoadBalancing,
    Emergency,
}

/// What a handler has prepared for a transition.
#[derive(Debug, PartialEq, Eq)]
pub struct TransitionContext {
    pub transition_id: String,
    pub transition_type: TransitionType,
    pub client_id: ClientId,
    pub from_server: ServerId,
    pub to_server: ServerId,
    pub from_region: RegionId,
    pub to_region: RegionId,
    pub client_state: Vec<u8>,
    pub position: Position,
    pub metadata: Vec<(String, String)>,
    pub prepared_at: i64,
    pub deadline: i64,
}

impl TransitionContext {
    /// Whether the two contexts agree in every field.
    pub open spec fn same_as(self, other: TransitionContext) -> bool {
        &&& self == (TransitionContext {
            client_state: self.client_state,
            metadata: self.metadata,
            ..other
        })
        &&& self.client_state@ == other.client_state@
        &&& self.metadata@ == other.metadata@
    }
}

impl Clone for TransitionContext {
    fn clone(&self) -> (result: Self)
        ensures
            result.same_as(*self),
    {
        TransitionContext {
            transition_id: self.transition_id.clone(),
            transition_type: self.transition_type,
            client_id: self.client_id.clone(),
            from_server: self.from_server.clone(),
            to_server: self.to_server.clone(),
            from_region: self.from_region.clone(),
            to_region: self.to_region.clone(),
            client_state: copy_bytes(&self.client_state),
            position: self.position,
            metadata: copy_pairs(&self.metadata),
            prepared_at: self.prepared_at,
            deadline: self.deadline,
        }
    }
}

/// A transition on record.
#[derive(Debug)]
pub struct ActiveTransition {
    pub id: String,
    pub request: TransitionRequest,
    pub state: TransitionState,
    pub context: Option<TransitionContext>,
    pub created_at: i64,
    pub updated_at: i64,
    pub timeout_at: i64,
    pub retry_count: u32,
    pub error_message: Option<String>,
}

impl ActiveTransition {
    /// Whether the transition was put on record at `now` for `request`, and nothing has
    /// been done about it yet.
    pub open spec fn is_new(self, id: Seq<char>, request: TransitionRequest, now: i64) -> bool {
        &&& self.id@ == id
        &&& self.request.same_as(request)
        &&& self.state is Pending
        &&& self.context is None
        &&& self.created_at == now
        &&& self.updated_at == now
        &&& self.timeout_at == now + TRANSITION_TIMEOUT_SECONDS * NANOS_PER_SECOND
        &&& self.retry_count == 0
        &&& self.error_message is None
    }

    /// The transition in another state since `now`.
    pub open spec fn moved_to(self, state: TransitionState, now: i64) -> ActiveTransition {
        ActiveTransition { state, updated_at: now, ..self }
    }

    /// Whether `after` is this transition, failed at `now` for `reason`.
    pub open spec fn failed_as(self, after: ActiveTransition, reason: Seq<char>, now: i64) -> bool {
        &&& after == (ActiveTransition {
            state: TransitionState::Failed,
            updated_at: now,
            error_message: after.error_message,
            ..self
        })
        &&& after.error_message matches Some(text) && text@ == reason
    }

    /// Whether the record has outlived its use at `now`: five whole minutes after
    /// the end of a finished transition, at the timeout of any other.
    pub open spec fn is_stale(self, now: i64) -> bool {
        if self.state.is_final() {
            whole_units(now - self.updated_at, NANOS_PER_MINUTE as int) > RETENTION_MINUTES
        } else {
            now > self.timeout_at
        }
    }

    fn stale(&self, now: i64) -> (result: bool)
        ensures
            result == self.is_stale(now),
    {
        match self.state {
            TransitionState::Completed
            | TransitionState::Failed
            | TransitionState::RolledBack
            | TransitionState::Cancelled => span_in(self.updated_at, now, NANOS_PER_MINUTE)
                > RETENTION_MINUTES,
            _ => now > self.timeout_at,
        }
    }
}

/// Counters of what became of transitions. They wrap around.
#[derive(Clone, Copy, Debug, PartialEq, Eq, Structural)]
pub struct TransitionMetrics {
    pub transitions_initiated: u32,
    pub transitions_completed: u32,
    pub transitions_failed: u32,
    pub transitions_rolled_back: u32,
    pub active_transitions: u32,
    pub average_transition_time_ms: u32,
}

impl TransitionMetrics {
    /// All counters at zero.
    pub open spec fn spec_zero() -> TransitionMetrics {
        TransitionMetrics {
            transitions_initiated: 0,
            transitions_completed: 0,
            transitions_failed: 0,
            transitions_rolled_back: 0,
            active_transitions: 0,
            average_transition_time_ms: 0,
        }
    }
}

impl Default for TransitionMetrics {
    fn default() -> (result: Self)
        ensures
            result == TransitionMetrics::spec_zero(),
    {
        TransitionMetrics {
            transitions_initiated: 0,
            transitions_completed: 0,
            transitions_failed: 0,
            transitions_rolled_back: 0,
            active_transitions: 0,
            average_transition_time_ms: 0,
        }
    }
}

/// The counters as they are handed out.
#[derive(Clone, Copy, Debug, PartialEq, Eq, Structural)]
pub struct TransitionMetricsSnapshot {
    pub transitions_initiated: u32,
    pub transitions_completed: u32,
    pub transitions_failed: u32,
    pub transitions_rolled_back: u32,
    pub active_transitions: u32,
    pub average_transition_time_ms: u32,
}

/// The outcome of a step that a handler was given limited time for. A failure
/// carries the text of the handler's error.
#[derive(Debug)]
pub enum StepOutcome<T> {
    Succeeded(T),
    Failed(String),
    TimedOut,
}

/// What follows the preparation of a transition.
#[derive(Debug)]
pub enum AfterPrepare {
    /// Have the handler execute the transition with the context on record.
    Execute,
    /// The transition has failed.
    Failed(AtlasError),
    /// The transition is no longer on record.
    Gone,
}

/// What follows the execution of a transition.
#[derive(Debug)]
pub enum AfterExecute {
    /// Have the handler confirm the transition.
    Confirm,
    /// Have the handler roll back the context on record, for this reason.
    RollBack(String),
    /// The transition has failed, and there is nothing to roll back.
    Failed(AtlasError),
    /// The transition is no longer on record.
    Gone,
}

/// What a transition that is being processed waits for.
#[derive(Clone, Copy, Debug, PartialEq, Eq, Structural)]
pub enum ProcessStage {
    Preparing,
    Executing,
    Confirming,
    RollingBack,
    Done,
}

impl ProcessStage {
    /// Whether the event is one that the stage waits for.
    pub open spec fn awaits(self, event: ProcessEvent) -> bool {
        match event {
            ProcessEvent::Prepared(_) => self is Preparing,
            ProcessEvent::Executed(_) => self is Executing,
            ProcessEvent::Confirmed => self is Confirming,
            ProcessEvent::RolledBack { .. } => self is RollingBack,
        }
    }

    /// How many more steps can follow at most.
    pub open spec fn steps_left(self) -> nat {
        match self {
            ProcessStage::Preparing => 3,
            ProcessStage::Executing => 2,
            ProcessStage::Confirming => 1,
            ProcessStage::RollingBack => 1,
            ProcessStage::Done => 0,
        }
    }
}

/// A transition that is being processed, and when that began.
#[derive(Debug)]
pub struct TransitionProcess {
    pub transition_id: String,
    pub started_at: i64,
    pub stage: ProcessStage,
}

/// What a step of a transition came to.
#[derive(Debug)]
pub enum ProcessEvent {
    Prepared(StepOutcome<TransitionContext>),
    Executed(StepOutcome<()>),
    /// The confirmation was tried; it does not matter what came of it.
    Confirmed,
    /// The rollback was tried, for the given reason.
    RolledBack { succeeded: bool, reason: String },
}

/// What is to be done next with a transition that is being processed.
#[derive(Debug)]
pub enum ProcessAction {
    /// Have the handler execute the transition with the context on record.
    Execute,
    /// Have the handler confirm the transition.
    Confirm,
    /// Have the handler roll back the context on record, for this reason.
    RollBack(String),
    /// Nothing: the transition is completed.
    Completed,
    /// Nothing: the transition has failed.
    Failed(AtlasError),
    /// Nothing: the transition is no longer on record.
    Gone,
}

impl ProcessAction {
    /// What is waited for once the action has been asked for.
    pub open spec fn next_stage(self) -> ProcessStage {
        match self {
            ProcessAction::Execute => ProcessStage::Executing,
            ProcessAction::Confirm => ProcessStage::Confirming,
            ProcessAction::RollBack(_) => ProcessStage::RollingBack,
            _ => ProcessStage::Done,
        }
    }
}

/// What a cancellation asks for.
#[derive(Debug, PartialEq, Eq)]
pub enum CancelStep {
    /// The transition is cancelled.
    Cancelled,
    /// Have the handler of the context's type roll the context back for the reason, then
    /// finish.
    RollBackFirst { context: TransitionContext, reason: String },
}

/// Whether a transition in this state can be cancelled.
pub open spec fn is_cancellable(state: TransitionState) -> bool {
    state is Pending || state is Preparing || state is Executing
}

/// The type of transition that a request calls for: one between regions, or one
/// between servers of the same region.
pub open spec fn requested_type(request: TransitionRequest) -> TransitionType {
    if request.from_region.0@ != request.to_region.0@ {
        TransitionType::RegionChange
    } else {
        TransitionType::ServerSwitch
    }
}

/// The type of transition that a request calls for.
pub fn determine_transition_type(request: &TransitionRequest) -> (result: TransitionType)
    ensures
        result == requested_type(*request),
{
    if str_eq(request.from_region.0.as_str(), request.to_region.0.as_str()) {
        TransitionType::ServerSwitch
    } else {
        TransitionType::RegionChange
    }
}

/// Whether `transition` was made for `request`.
pub open spec fn made_for(transition: ActiveTransition, request: TransitionRequest) -> bool {
    &&& transition.request.client_id.0@ == request.client_id.0@
    &&& transition.request.timestamp == request.timestamp
}

/// The transitions on record.
pub struct TransitionManager {
    pub active_transitions: Table<ActiveTransition>,
    /// The types of transitions that a handler is registered for
    pub handlers: Vec<TransitionType>,
    pub metrics: TransitionMetrics,
}

impl TransitionManager {
    /// The transitions on record by identifier.
    pub open spec fn active(&self) -> Map<Seq<char>, ActiveTransition> {
        self.active_transitions@
    }

    /// The identifiers on record in walking order.
    pub open spec fn order(&self) -> Seq<Seq<char>> {
        self.active_transitions.keys()
    }

    /// Every transition is filed under its own identifier.
    pub open spec fn wf(&self) -> bool {
        &&& self.active_transitions.wf()
        &&& forall|k: Seq<char>| #[trigger]
            self.active_transitions@.dom().contains(k) ==> self.active_transitions@[k].id@ == k
    }

    /// What a well-formed record says of the transitions in it.
    pub proof fn lemma_wf(&self)
        requires
            self.wf(),
        ensures
            self.order().no_duplicates(),
            self.active().dom() == self.order().to_set(),
            forall|k: Seq<char>| #[trigger]
                self.active().dom().contains(k) ==> self.active()[k].id@ == k,
    {
        self.active_transitions.lemma_wf();
        assert(self.active().dom() =~= self.order().to_set());
    }

    /// A manager with nothing on record.
    pub fn new() -> (result: Self)
        ensures
            result.wf(),
            result.active() == Map::<Seq<char>, ActiveTransition>::empty(),
            result.handlers@.len() == 0,
            result.metrics == TransitionMetrics::spec_zero(),
    {
        TransitionManager {
            active_transitions: Table::new(),
            handlers: Vec::new(),
            metrics: TransitionMetrics::default(),
        }
    }

    /// Whether a handler is registered for a type of transitions.
    pub open spec fn spec_has_handler(&self, kind: TransitionType) -> bool {
        self.handlers@.contains(kind)
    }

    /// Registers the handler of a type of transitions, in place of one before.
    pub fn register_handler(&mut self, transition_type: TransitionType)
        ensures
            final(self).active_transitions == old(self).active_transitions,
            final(self).metrics == old(self).metrics,
            forall|kind: TransitionType| #[trigger]
                final(self).spec_has_handler(kind) <==> old(self).spec_has_handler(kind) || kind
                    == transition_type,
    {
        if !self.has_handler(transition_type) {
            proof {
                lemma_push_contains(self.handlers@, transition_type);
            }
            self.handlers.push(transition_type);
        }
    }

    /// Registers a handler for every type of transitions.
    pub fn register_default_handlers(&mut self)
        ensures
            final(self).active_transitions == old(self).active_transitions,
            final(self).metrics == old(self).metrics,
            forall|kind: TransitionType| #[trigger] final(self).spec_has_handler(kind),
    {
        self.register_handler(TransitionType::RegionChange);
        self.register_handler(TransitionType::ServerSwitch);
        self.register_handler(TransitionType::LoadBalancing);
        self.register_handler(TransitionType::Emergency);
    }

    /// Whether a handler is registered for a type of transitions.
    pub fn has_handler(&self, transition_type: TransitionType) -> (result: bool)
        ensures
            result == self.spec_has_handler(transition_type),
    {
        let mut i: usize = 0;
        while i < self.handlers.len()
            invariant
                i <= self.handlers@.len(),
                forall|j: int| 0 <= j < i ==> (#[trigger] self.handlers@[j]) != transition_type,
            decreases self.handlers@.len() - i,
        {
            if self.handlers[i] == transition_type {
                return true;
            }
            i += 1;
        }
        false
    }

    /// The transition on record under `transition_id`.
    pub fn get_transition(&self, transition_id: &str) -> (result: Option<&ActiveTransition>)
        requires
            self.wf(),
        ensures
            match result {
                Some(transition) => self.active().dom().contains(transition_id@) && *transition
                    == self.active()[transition_id@],
                None => !self.active().dom().contains(transition_id@),
            },
    {
        self.active_transitions.get(transition_id)
    }

    /// Puts a transition on record under the given identifier, pending. The
    /// request comes back, to be queued.
    pub fn initiate_with_id(
        &mut self,
        transition_id: String,
        client_id: ClientId,
        from_server: ServerId,
        to_server: ServerId,
        from_region: RegionId,
        to_region: RegionId,
        position: Position,
        state_data: Vec<u8>,
        now: i64,
    ) -> (result: TransitionRequest)
        requires
            old(self).wf(),
            now <= LATEST_INSTANT,
        ensures
            final(self).wf(),
            result.same_as(
                TransitionRequest {
                    client_id,
                    from_server,
                    to_server,
                    from_region,
                    to_region,
                    position,
                    state_data,
                    timestamp: now,
                },
            ),
            final(self).active() == old(self).active().insert(
                transition_id@,
                final(self).active()[transition_id@],
            ),
            final(self).active()[transition_id@].is_new(transition_id@, result, now),
            final(self).handlers == old(self).handlers,
            final(self).metrics == (TransitionMetrics {
                transitions_initiated: old(self).metrics.transitions_initiated.wrapping_add(1),
                active_transitions: old(self).metrics.active_transitions.wrapping_add(1),
                ..old(self).metrics
            }),
    {
        let request = TransitionRequest {
            client_id,
            from_server,
            to_server,
            from_region,
            to_region,
            position,
            state_data,
            timestamp: now,
        };
        let queued = request.clone();
        let transition = ActiveTransition {
            id: transition_id.clone(),
            request,
            state: TransitionState::Pending,
            context: None,
            created_at: now,
            updated_at: now,
            timeout_at: now + TRANSITION_TIMEOUT_SECONDS * NANOS_PER_SECOND,
            retry_count: 0,
            error_message: None,
        };
        let _ = self.active_transitions.insert(transition_id, transition);
        self.metrics.transitions_initiated = self.metrics.transitions_initiated.wrapping_add(1);
        self.metrics.active_transitions = self.metrics.active_transitions.wrapping_add(1);
        queued
    }

    /// Puts a transition on record under a random identifier, pending. The
    /// identifier comes back, and the request, to be queued.
    pub fn initiate_transition(
        &mut self,
        client_id: ClientId,
        from_server: ServerId,
        to_server: ServerId,
        from_region: RegionId,
        to_region: RegionId,
        position: Position,
        state_data: Vec<u8>,
        now: i64,
    ) -> (result: (String, TransitionRequest))
        requires
            old(self).wf(),
            now <= LATEST_INSTANT,
        ensures
            final(self).wf(),
            is_uuid_text(result.0@),
            result.1.same_as(
                TransitionRequest {
                    client_id,
                    from_server,
                    to_server,
                    from_region,
                    to_region,
                    position,
                    state_data,
                    timestamp: now,
                },
            ),
            final(self).active() == old(self).active().insert(
                result.0@,
                final(self).active()[result.0@],
            ),
            final(self).active()[result.0@].is_new(result.0@, result.1, now),
            final(self).handlers == old(self).handlers,
            final(self).metrics == (TransitionMetrics {
                transitions_initiated: old(self).metrics.transitions_initiated.wrapping_add(1),
                active_transitions: old(self).metrics.active_transitions.wrapping_add(1),
                ..old(self).metrics
            }),
    {
        let transition_id: String = new_uuid_text();
        let request = self.initiate_with_id(
            transition_id.clone(),
            client_id,
            from_server,
            to_server,
            from_region,
            to_region,
            position,
            state_data,
            now,
        );
        (transition_id, request)
    }

    /// Takes a transition off the record whose request could not be queued, and
    /// gives the error to report.
    pub fn queue_failed(&mut self, transition_id: &str, cause: &str) -> (result: AtlasError)
        requires
            old(self).wf(),
        ensures
            final(self).wf(),
            final(self).active() == old(self).active().remove(transition_id@),
            final(self).handlers == old(self).handlers,
            final(self).metrics == (TransitionMetrics {
                active_transitions: old(self).metrics.active_transitions.wrapping_sub(1),
                ..old(self).metrics
            }),
            result matches AtlasError::Transition(text) && text@ == "Failed to queue transition: "@
                + cause@,
    {
        let _ = self.active_transitions.remove(transition_id);
        self.metrics.active_transitions = self.metrics.active_transitions.wrapping_sub(1);
        AtlasError::Transition(crate::text::join("Failed to queue transition: ", cause))
    }

    /// The state of the transition on record under `transition_id`.
    pub fn get_transition_status(&self, transition_id: &str) -> (result: Result<TransitionState>)
        requires
            self.wf(),
        ensures
            match result {
                Ok(state) => self.active().dom().contains(transition_id@) && state
                    == self.active()[transition_id@].state,
                Err(error) => !self.active().dom().contains(transition_id@) && not_found(
                    error,
                    transition_id@,
                ),
            },
    {
        match self.active_transitions.get(transition_id) {
            Some(transition) => Ok(transition.state),
            None => Err(transition_not_found(transition_id)),
        }
    }

    /// Whether a transition has to be rolled back before it is cancelled: it is being
    /// executed, and there is a handler for what was prepared for it.
    pub open spec fn rolls_back_first(&self, transition: ActiveTransition) -> bool {
        &&& transition.state is Executing
        &&& transition.context matches Some(context) && self.spec_has_handler(
            context.transition_type,
        )
    }

    /// Cancels a transition that is not prepared yet or is being executed. In the second
    /// case it is to be rolled back first, where there is a handler for what was prepared
    /// for it. Any other is past cancelling.
    pub fn cancel_transition(&mut self, transition_id: &str, now: i64) -> (result: Result<CancelStep>)
        requires
            old(self).wf(),
        ensures
            final(self).wf(),
            final(self).handlers == old(self).handlers,
            final(self).metrics == old(self).metrics,
            ({
                let id = transition_id@;
                let before = old(self).active()[id];
                let known = old(self).active().dom().contains(id);
                match result {
                    Ok(CancelStep::Cancelled) => {
                        &&& known && is_cancellable(before.state)
                        &&& !old(self).rolls_back_first(before)
                        &&& final(self).active() == old(self).active().insert(
                            id,
                            before.moved_to(TransitionState::Cancelled, now),
                        )
                    },
                    Ok(CancelStep::RollBackFirst { context, reason }) => {
                        &&& known && old(self).rolls_back_first(before)
                        &&& context.same_as(before.context->0)
                        &&& reason@ == "Transition cancelled by user"@
                        &&& final(self).active() == old(self).active()
                    },
                    Err(error) => {
                        &&& final(self).active() == old(self).active()
                        &&& if known {
                            &&& !is_cancellable(before.state)
                            &&& error matches AtlasError::Transition(text) && text@
                                == "Cannot cancel transition "@ + id + " in state "@
                                + before.state.spec_name()
                        } else {
                            not_found(error, id)
                        }
                    },
                }
            }),
    {
        proof {
            self.active_transitions.lemma_wf();
        }
        match self.active_transitions.find(transition_id) {
            None => Err(transition_not_found(transition_id)),
            Some(i) => {
                let state = self.active_transitions.value_at(i).state;
                match state {
                    TransitionState::Pending | TransitionState::Preparing => {
                        self.set_state(i, TransitionState::Cancelled, now);
                        Ok(CancelStep::Cancelled)
                    },
                    TransitionState::Executing => {
                        if let Some(context) = &self.active_transitions.value_at(i).context {
                            if self.has_handler(context.transition_type) {
                                return Ok(
                                    CancelStep::RollBackFirst {
                                        context: context.clone(),
                                        reason: "Transition cancelled by user".to_owned(),
                                    },
                                );
                            }
                        }
                        self.set_state(i, TransitionState::Cancelled, now);
                        Ok(CancelStep::Cancelled)
                    },
                    _ => {
                        let mut text: String = join3(
                            "Cannot cancel transition ",
                            transition_id,
                            " in state ",
                        );
                        text.append(state.name());
                        Err(AtlasError::Transition(text))
                    },
                }
            },
        }
    }

    /// Finishes the cancellation of an executing transition once its rollback
    /// has been tried. A failed rollback leaves the transition as it is.
    pub fn finish_cancel(
        &mut self,
        transition_id: &str,
        rollback: Result<()>,
        now: i64,
    ) -> (result: Result<()>)
        requires
            old(self).wf(),
        ensures
            final(self).wf(),
            final(self).handlers == old(self).handlers,
            final(self).metrics == old(self).metrics,
            ({
                let id = transition_id@;
                let known = old(self).active().dom().contains(id);
                match (rollback, result) {
                    (Ok(_), Ok(_)) => known && final(self).active() == old(self).active().insert(
                        id,
                        old(self).active()[id].moved_to(TransitionState::Cancelled, now),
                    ),
                    (Ok(_), Err(error)) => !known && not_found(error, id) && final(self).active()
                        == old(self).active(),
                    (Err(cause), Err(error)) => error == cause && final(self).active() == old(
                        self,
                    ).active(),
                    (Err(_), Ok(_)) => false,
                }
            }),
    {
        proof {
            self.active_transitions.lemma_wf();
        }
        match rollback {
            Err(cause) => Err(cause),
            Ok(_) => match self.active_transitions.find(transition_id) {
                Some(i) => {
                    self.set_state(i, TransitionState::Cancelled, now);
                    Ok(())
                },
                None => Err(transition_not_found(transition_id)),
            },
        }
    }

    /// Takes up a pending transition: it is now being prepared. The type says
    /// which handler is to prepare it. Nothing happens to a transition that is
    /// not pending.
    pub fn begin_transition(&mut self, transition_id: &str, now: i64) -> (result: Option<
        TransitionType,
    >)
        requires
            old(self).wf(),
        ensures
            final(self).wf(),
            final(self).handlers == old(self).handlers,
            final(self).metrics == old(self).metrics,
            result == (if is_pending(old(self).active(), transition_id@) {
                Some(requested_type(old(self).active()[transition_id@].request))
            } else {
                None
            }),
            final(self).active() == begun(old(self).active(), transition_id@, now),
    {
        proof {
            self.active_transitions.lemma_wf();
        }
        let i: usize = match self.active_transitions.find(transition_id) {
            Some(i) => i,
            None => {
                return None;
            },
        };
        if !matches!(self.active_transitions.value_at(i).state, TransitionState::Pending) {
            return None;
        }
        let kind = determine_transition_type(&self.active_transitions.value_at(i).request);
        self.set_state(i, TransitionState::Preparing, now);
        Some(kind)
    }

    /// Records the outcome of a preparation. `metrics` counts for the task that
    /// processes transitions.
    pub fn finish_prepare(
        &mut self,
        transition_id: &str,
        outcome: StepOutcome<TransitionContext>,
        now: i64,
        metrics: &mut TransitionMetrics,
    ) -> (result: AfterPrepare)
        requires
            old(self).wf(),
        ensures
            final(self).wf(),
            final(self).handlers == old(self).handlers,
            final(self).metrics == old(self).metrics,
            prepared(
                old(self).active(),
                final(self).active(),
                transition_id@,
                outcome,
                now,
                *old(metrics),
                *final(metrics),
                result,
            ),
    {
        proof {
            self.active_transitions.lemma_wf();
        }
        let i: usize = match self.active_transitions.find(transition_id) {
            Some(i) => i,
            None => {
                return AfterPrepare::Gone;
            },
        };
        match outcome {
            StepOutcome::Succeeded(context) => {
                let transition = self.active_transitions.value_at_mut(i);
                transition.state = TransitionState::Prepared;
                transition.context = Some(context);
                transition.updated_at = now;
                AfterPrepare::Execute
            },
            StepOutcome::Failed(text) => {
                self.set_failed(i, text.clone(), now);
                metrics.transitions_failed = metrics.transitions_failed.wrapping_add(1);
                AfterPrepare::Failed(AtlasError::Transition(text))
            },
            StepOutcome::TimedOut => {
                let text: String = "Preparation timeout".to_owned();
                self.set_failed(i, text.clone(), now);
                metrics.transitions_failed = metrics.transitions_failed.wrapping_add(1);
                AfterPrepare::Failed(AtlasError::Transition(text))
            },
        }
    }

    /// Records the outcome of an execution. A failed one is rolled back where
    /// something was prepared; its failure is counted once that has been tried.
    pub fn finish_execute(
        &mut self,
        transition_id: &str,
        outcome: StepOutcome<()>,
        now: i64,
        metrics: &mut TransitionMetrics,
    ) -> (result: AfterExecute)
        requires
            old(self).wf(),
        ensures
            final(self).wf(),
            final(self).handlers == old(self).handlers,
            final(self).metrics == old(self).metrics,
            executed(
                old(self).active(),
                final(self).active(),
                transition_id@,
                outcome,
                now,
                *old(metrics),
                *final(metrics),
                result,
            ),
    {
        proof {
            self.active_transitions.lemma_wf();
        }
        let i: usize = match self.active_transitions.find(transition_id) {
            Some(i) => i,
            None => {
                return AfterExecute::Gone;
            },
        };
        let text: String = match outcome {
            StepOutcome::Succeeded(_) => {
                self.set_state(i, TransitionState::Executing, now);
                return AfterExecute::Confirm;
            },
            StepOutcome::Failed(text) => text,
            StepOutcome::TimedOut => "Execution timeout".to_owned(),
        };
        let prepared = self.active_transitions.value_at(i).context.is_some();
        self.set_failed(i, text.clone(), now);
        if prepared {
            AfterExecute::RollBack(text)
        } else {
            metrics.transitions_failed = metrics.transitions_failed.wrapping_add(1);
            AfterExecute::Failed(AtlasError::Transition(text))
        }
    }

    /// Completes a transition once its confirmation has been tried, whatever came
    /// of that. The run took from `started_at` to `now`; the milliseconds are
    /// recorded modulo the counter's range. `None` where the transition is no
    /// longer on record.
    pub fn finish_confirm(
        &mut self,
        transition_id: &str,
        started_at: i64,
        now: i64,
        metrics: &mut TransitionMetrics,
    ) -> (result: Option<()>)
        requires
            old(self).wf(),
        ensures
            final(self).wf(),
            final(self).handlers == old(self).handlers,
            final(self).metrics == old(self).metrics,
            confirmed(
                old(self).active(),
                final(self).active(),
                transition_id@,
                started_at,
                now,
                *old(metrics),
                *final(metrics),
                result,
            ),
    {
        proof {
            self.active_transitions.lemma_wf();
        }
        match self.active_transitions.find(transition_id) {
            Some(i) => {
                self.set_state(i, TransitionState::Completed, now);
                metrics.transitions_completed = metrics.transitions_completed.wrapping_add(1);
                let millis: u64 = elapsed_nanos(started_at, now) / 1_000_000;
                metrics.average_transition_time_ms = (millis % 0x1_0000_0000) as u32;
                Some(())
            },
            None => None,
        }
    }

    /// Records whether the rollback of a failed transition succeeded, and gives
    /// the error to report.
    pub fn finish_rollback(
        &mut self,
        transition_id: &str,
        rolled_back: bool,
        reason: String,
        metrics: &mut TransitionMetrics,
    ) -> (result: AtlasError)
        requires
            old(self).wf(),
        ensures
            final(self).wf(),
            final(self).handlers == old(self).handlers,
            final(self).metrics == old(self).metrics,
            result == AtlasError::Transition(reason),
            final(self).active() == called_back(old(self).active(), transition_id@, rolled_back),
            *final(metrics) == counted_rollback(*old(metrics), rolled_back),
    {
        proof {
            self.active_transitions.lemma_wf();
        }
        if rolled_back {
            if let Some(i) = self.active_transitions.find(transition_id) {
                let transition = self.active_transitions.value_at_mut(i);
                transition.state = TransitionState::RolledBack;
            }
            metrics.transitions_rolled_back = metrics.transitions_rolled_back.wrapping_add(1);
        }
        metrics.transitions_failed = metrics.transitions_failed.wrapping_add(1);
        AtlasError::Transition(reason)
    }

    /// Takes up a pending transition and follows it from `now` on. The handler for the
    /// type of transition is to prepare it first. Nothing comes back where the transition
    /// is not pending, or there is no such handler.
    pub fn start_process(&mut self, transition_id: &str, now: i64) -> (result: Option<
        (TransitionProcess, TransitionType),
    >)
        requires
            old(self).wf(),
        ensures
            final(self).wf(),
            final(self).handlers == old(self).handlers,
            final(self).metrics == old(self).metrics,
            final(self).active() == begun(old(self).active(), transition_id@, now),
            match result {
                Some((process, kind)) => {
                    &&& is_pending(old(self).active(), transition_id@)
                    &&& kind == requested_type(old(self).active()[transition_id@].request)
                    &&& old(self).spec_has_handler(kind)
                    &&& process.transition_id@ == transition_id@
                    &&& process.started_at == now
                    &&& process.stage is Preparing
                },
                None => is_pending(old(self).active(), transition_id@) ==> !old(
                    self,
                ).spec_has_handler(
                    requested_type(old(self).active()[transition_id@].request),
                ),
            },
    {
        match self.begin_transition(transition_id, now) {
            Some(kind) => {
                if !self.has_handler(kind) {
                    return None;
                }
                let process = TransitionProcess {
                    transition_id: transition_id.to_owned(),
                    started_at: now,
                    stage: ProcessStage::Preparing,
                };
                Some((process, kind))
            },
            None => None,
        }
    }

    /// Takes a transition one step on: what a step came to decides what is done next.
    /// `metrics` counts for the task that processes transitions.
    pub fn process_transition(
        &mut self,
        process: &mut TransitionProcess,
        event: ProcessEvent,
        now: i64,
        metrics: &mut TransitionMetrics,
    ) -> (result: ProcessAction)
        requires
            old(self).wf(),
            old(process).stage.awaits(event),
        ensures
            final(self).wf(),
            final(self).handlers == old(self).handlers,
            final(self).metrics == old(self).metrics,
            final(process).transition_id == old(process).transition_id,
            final(process).started_at == old(process).started_at,
            final(process).stage == result.next_stage(),
            final(process).stage.steps_left() < old(process).stage.steps_left(),
            ({
                let id = old(process).transition_id@;
                let before = old(self).active();
                let after = final(self).active();
                match event {
                    ProcessEvent::Prepared(outcome) => exists|step: AfterPrepare|
                        {
                            &&& #[trigger] prepared(
                                before,
                                after,
                                id,
                                outcome,
                                now,
                                *old(metrics),
                                *final(metrics),
                                step,
                            )
                            &&& match step {
                                AfterPrepare::Execute => result is Execute,
                                AfterPrepare::Failed(error) => result == ProcessAction::Failed(error),
                                AfterPrepare::Gone => result is Gone,
                            }
                        },
                    ProcessEvent::Executed(outcome) => exists|step: AfterExecute|
                        {
                            &&& #[trigger] executed(
                                before,
                                after,
                                id,
                                outcome,
                                now,
                                *old(metrics),
                                *final(metrics),
                                step,
                            )
                            &&& match step {
                                AfterExecute::Confirm => result is Confirm,
                                AfterExecute::RollBack(reason) => result == ProcessAction::RollBack(
                                    reason,
                                ),
                                AfterExecute::Failed(error) => result == ProcessAction::Failed(error),
                                AfterExecute::Gone => result is Gone,
                            }
                        },
                    ProcessEvent::Confirmed => {
                        let step = if result is Completed {
                            Some(())
                        } else {
                            None
                        };
                        &&& result is Completed || result is Gone
                        &&& confirmed(
                            before,
                            after,
                            id,
                            old(process).started_at,
                            now,
                            *old(metrics),
                            *final(metrics),
                            step,
                        )
                    },
                    ProcessEvent::RolledBack { succeeded, reason } => {
                        &&& result == ProcessAction::Failed(AtlasError::Transition(reason))
                        &&& after == called_back(before, id, succeeded)
                        &&& *final(metrics) == counted_rollback(*old(metrics), succeeded)
                    },
                }
            }),
    {
        let id: String = process.transition_id.clone();
        let action = match event {
            ProcessEvent::Prepared(outcome) => {
                let ghost told = outcome;
                let step = self.finish_prepare(id.as_str(), outcome, now, metrics);
                assert(prepared(
                    old(self).active(),
                    self.active(),
                    id@,
                    told,
                    now,
                    *old(metrics),
                    *metrics,
                    step,
                ));
                match step {
                    AfterPrepare::Execute => ProcessAction::Execute,
                    AfterPrepare::Failed(error) => ProcessAction::Failed(error),
                    AfterPrepare::Gone => ProcessAction::Gone,
                }
            },
            ProcessEvent::Executed(outcome) => {
                let ghost told = outcome;
                let step = self.finish_execute(id.as_str(), outcome, now, metrics);
                assert(executed(
                    old(self).active(),
                    self.active(),
                    id@,
                    told,
                    now,
                    *old(metrics),
                    *metrics,
                    step,
                ));
                match step {
                    AfterExecute::Confirm => ProcessAction::Confirm,
                    AfterExecute::RollBack(reason) => ProcessAction::RollBack(reason),
                    AfterExecute::Failed(error) => ProcessAction::Failed(error),
                    AfterExecute::Gone => ProcessAction::Gone,
                }
            },
            ProcessEvent::Confirmed => match self.finish_confirm(
                id.as_str(),
                process.started_at,
                now,
                metrics,
            ) {
                Some(_) => ProcessAction::Completed,
                None => ProcessAction::Gone,
            },
            ProcessEvent::RolledBack { succeeded, reason } => ProcessAction::Failed(
                self.finish_rollback(id.as_str(), succeeded, reason, metrics),
            ),
        };
        process.stage = match &action {
            ProcessAction::Execute => ProcessStage::Executing,
            ProcessAction::Confirm => ProcessStage::Confirming,
            ProcessAction::RollBack(_) => ProcessStage::RollingBack,
            _ => ProcessStage::Done,
        };
        action
    }

    /// Cancels every transition that is being prepared or executed.
    pub fn stop(&mut self, now: i64)
        requires
            old(self).wf(),
        ensures
            final(self).wf(),
            final(self).handlers == old(self).handlers,
            final(self).metrics == old(self).metrics,
            final(self).active() == stopped(old(self).active(), now),
    {
        proof {
            self.active_transitions.lemma_wf();
        }
        let count: usize = self.active_transitions.len();
        let mut i: usize = 0;
        while i < count
            invariant
                i <= count,
                self.wf(),
                old(self).wf(),
                count == old(self).active_transitions.values().len(),
                count == self.active_transitions.values().len(),
                count == self.active_transitions.keys().len(),
                self.order() == old(self).order(),
                self.handlers == old(self).handlers,
                self.metrics == old(self).metrics,
                forall|j: int|
                    0 <= j < count ==> #[trigger] self.active_transitions.values()[j] == (if j < i {
                        called_off(old(self).active_transitions.values()[j], now)
                    } else {
                        old(self).active_transitions.values()[j]
                    }),
            decreases count - i,
        {
            match self.active_transitions.value_at(i).state {
                TransitionState::Preparing | TransitionState::Executing => {
                    self.set_state(i, TransitionState::Cancelled, now);
                },
                _ => {},
            }
            i += 1;
        }
        proof {
            self.active_transitions.lemma_wf();
            old(self).active_transitions.lemma_wf();
            assert(self.active() =~= stopped(old(self).active(), now));
        }
    }

    /// Takes the stale transitions off the record. `metrics` counts for the task
    /// that cleans up.
    pub fn cleanup(&mut self, now: i64, metrics: &mut TransitionMetrics)
        requires
            old(self).wf(),
        ensures
            final(self).wf(),
            final(self).handlers == old(self).handlers,
            final(self).metrics == old(self).metrics,
            final(self).active() == kept_at(old(self).active(), now),
            *final(metrics) == (TransitionMetrics {
                active_transitions: lowered(
                    old(metrics).active_transitions,
                    old(self).active().dom().len() - final(self).active().dom().len(),
                ),
                ..*old(metrics)
            }),
    {
        proof {
            self.active_transitions.lemma_wf();
        }
        let before: usize = self.active_transitions.len();
        let ghost keeps = |k: Seq<char>, t: ActiveTransition| !t.is_stale(now);
        let keep = |_id: &String, transition: &ActiveTransition| -> (kept: bool)
            ensures
                kept == !transition.is_stale(now),
        {
            !transition.stale(now)
        };
        self.active_transitions.retain(keep, Ghost(keeps));
        proof {
            assert(self.active() =~= kept_at(old(self).active(), now));
            self.active_transitions.lemma_wf();
            vstd::set_lib::lemma_len_subset(self.active().dom(), old(self).active().dom());
        }
        let gone: u64 = (before - self.active_transitions.len()) as u64;
        metrics.active_transitions = metrics.active_transitions.wrapping_sub(
            (gone % 0x1_0000_0000) as u32,
        );
    }

    /// The identifier of the first transition on record that was made for
    /// `request`.
    pub fn find_transition_id(&self, request: &TransitionRequest) -> (result: Option<String>)
        requires
            self.wf(),
        ensures
            match result {
                Some(id) => exists|i: int|
                    {
                        &&& 0 <= i < self.order().len()
                        &&& #[trigger] self.order()[i] == id@
                        &&& made_for(self.active()[id@], *request)
                        &&& forall|j: int|
                            0 <= j < i ==> !made_for(
                                self.active()[#[trigger] self.order()[j]],
                                *request,
                            )
                    },
                None => forall|k: Seq<char>| #[trigger]
                    self.active().dom().contains(k) ==> !made_for(self.active()[k], *request),
            },
    {
        proof {
            self.active_transitions.lemma_wf();
        }
        let mut i: usize = 0;
        while i < self.active_transitions.len()
            invariant
                i <= self.active_transitions.keys().len(),
                self.wf(),
                forall|j: int|
                    0 <= j < i ==> !made_for(self.active()[#[trigger] self.order()[j]], *request),
            decreases self.active_transitions.keys().len() - i,
        {
            proof {
                self.active_transitions.lemma_wf();
            }
            let transition = self.active_transitions.value_at(i);
            if str_eq(transition.request.client_id.0.as_str(), request.client_id.0.as_str())
                && transition.request.timestamp == request.timestamp {
                let id: String = self.active_transitions.key_at(i).clone();
                assert(self.order()[i as int] == id@);
                return Some(id);
            }
            i += 1;
        }
        proof {
            self.active_transitions.lemma_wf();
            assert forall|k: Seq<char>| #[trigger] self.active().dom().contains(k) implies !made_for(
                self.active()[k],
                *request,
            ) by {
                assert(self.order()[self.order().index_of(k)] == k);
            }
        }
        None
    }

    /// The counters as they stand.
    pub fn get_metrics(&self) -> (result: TransitionMetricsSnapshot)
        ensures
            result.transitions_initiated == self.metrics.transitions_initiated,
            result.transitions_completed == self.metrics.transitions_completed,
            result.transitions_failed == self.metrics.transitions_failed,
            result.transitions_rolled_back == self.metrics.transitions_rolled_back,
            result.active_transitions == self.metrics.active_transitions,
            result.average_transition_time_ms == self.metrics.average_transition_time_ms,
    {
        TransitionMetricsSnapshot {
            transitions_initiated: self.metrics.transitions_initiated,
            transitions_completed: self.metrics.transitions_completed,
            transitions_failed: self.metrics.transitions_failed,
            transitions_rolled_back: self.metrics.transitions_rolled_back,
            active_transitions: self.metrics.active_transitions,
            average_transition_time_ms: self.metrics.average_transition_time_ms,
        }
    }

    fn set_failed(&mut self, i: usize, reason: String, now: i64)
        requires
            old(self).wf(),
            i < old(self).active_transitions.keys().len(),
        ensures
            final(self).wf(),
            final(self).handlers == old(self).handlers,
            final(self).metrics == old(self).metrics,
            final(self).active() == old(self).active().insert(
                old(self).order()[i as int],
                ActiveTransition {
                    state: TransitionState::Failed,
                    updated_at: now,
                    error_message: Some(reason),
                    ..old(self).active()[old(self).order()[i as int]]
                },
            ),
    {
        proof {
            self.active_transitions.lemma_wf();
            assert(self.active_transitions@.dom().contains(self.active_transitions.keys()[i as int]));
        }
        let transition = self.active_transitions.value_at_mut(i);
        transition.state = TransitionState::Failed;
        transition.error_message = Some(reason);
        transition.updated_at = now;
    }

    fn set_state(&mut self, i: usize, state: TransitionState, now: i64)
        requires
            old(self).wf(),
            i < old(self).active_transitions.keys().len(),
        ensures
            final(self).wf(),
            final(self).handlers == old(self).handlers,
            final(self).metrics == old(self).metrics,
            final(self).active() == old(self).active().insert(
                old(self).order()[i as int],
                old(self).active()[old(self).order()[i as int]].moved_to(state, now),
            ),
            final(self).order() == old(self).order(),
            final(self).active_transitions.values() == old(self).active_transitions.values().update(
                i as int,
                old(self).active_transitions.values()[i as int].moved_to(state, now),
            ),
    {
        proof {
            self.active_transitions.lemma_wf();
            assert(self.active_transitions@.dom().contains(self.active_transitions.keys()[i as int]));
        }
        let transition = self.active_transitions.value_at_mut(i);
        transition.state = state;
        transition.updated_at = now;
    }
}

/// Whether a pending transition is on record under `id`.
pub open spec fn is_pending(active: Map<Seq<char>, ActiveTransition>, id: Seq<char>) -> bool {
    active.dom().contains(id) && active[id].state is Pending
}

/// The record once the transition `id` has been taken up.
pub open spec fn begun(active: Map<Seq<char>, ActiveTransition>, id: Seq<char>, now: i64) -> Map<
    Seq<char>,
    ActiveTransition,
> {
    if is_pending(active, id) {
        active.insert(id, active[id].moved_to(TransitionState::Preparing, now))
    } else {
        active
    }
}

/// The transition once work on it has been called off.
pub open spec fn called_off(transition: ActiveTransition, now: i64) -> ActiveTransition {
    if transition.state is Preparing || transition.state is Executing {
        transition.moved_to(TransitionState::Cancelled, now)
    } else {
        transition
    }
}

/// The record once the manager has stopped.
pub open spec fn stopped(active: Map<Seq<char>, ActiveTransition>, now: i64) -> Map<
    Seq<char>,
    ActiveTransition,
> {
    active.map_values(|t: ActiveTransition| called_off(t, now))
}

/// The counters with one more failure.
pub open spec fn one_more_failed(metrics: TransitionMetrics) -> TransitionMetrics {
    TransitionMetrics {
        transitions_failed: metrics.transitions_failed.wrapping_add(1),
        ..metrics
    }
}

/// What the outcome of a preparation leads to.
pub open spec fn prepared(
    before: Map<Seq<char>, ActiveTransition>,
    after: Map<Seq<char>, ActiveTransition>,
    id: Seq<char>,
    outcome: StepOutcome<TransitionContext>,
    now: i64,
    counted_before: TransitionMetrics,
    counted_after: TransitionMetrics,
    result: AfterPrepare,
) -> bool {
    if !before.dom().contains(id) {
        result is Gone && after == before && counted_after == counted_before
    } else {
        &&& after == before.insert(id, after[id])
        &&& match outcome {
            StepOutcome::Succeeded(context) => {
                &&& result is Execute
                &&& after[id] == (ActiveTransition {
                    context: Some(context),
                    ..before[id].moved_to(TransitionState::Prepared, now)
                })
                &&& counted_after == counted_before
            },
            StepOutcome::Failed(text) => {
                &&& result matches AfterPrepare::Failed(error) && error == AtlasError::Transition(
                    text,
                )
                &&& before[id].failed_as(after[id], text@, now)
                &&& counted_after == one_more_failed(counted_before)
            },
            StepOutcome::TimedOut => {
                &&& result matches AfterPrepare::Failed(AtlasError::Transition(text)) && text@
                    == "Preparation timeout"@
                &&& before[id].failed_as(after[id], "Preparation timeout"@, now)
                &&& counted_after == one_more_failed(counted_before)
            },
        }
    }
}

/// What the outcome of an execution leads to.
pub open spec fn executed(
    before: Map<Seq<char>, ActiveTransition>,
    after: Map<Seq<char>, ActiveTransition>,
    id: Seq<char>,
    outcome: StepOutcome<()>,
    now: i64,
    counted_before: TransitionMetrics,
    counted_after: TransitionMetrics,
    result: AfterExecute,
) -> bool {
    if !before.dom().contains(id) {
        result is Gone && after == before && counted_after == counted_before
    } else {
        &&& after == before.insert(id, after[id])
        &&& match outcome {
            StepOutcome::Succeeded(_) => {
                &&& result is Confirm
                &&& after[id] == before[id].moved_to(TransitionState::Executing, now)
                &&& counted_after == counted_before
            },
            StepOutcome::Failed(text) => execution_failed(
                before[id],
                after[id],
                text@,
                now,
                result,
                counted_before,
                counted_after,
            ),
            StepOutcome::TimedOut => execution_failed(
                before[id],
                after[id],
                "Execution timeout"@,
                now,
                result,
                counted_before,
                counted_after,
            ),
        }
    }
}

/// What a confirmation leads to, whatever came of it. The run took from `started_at` to
/// `now`; its milliseconds are recorded modulo the counter's range.
pub open spec fn confirmed(
    before: Map<Seq<char>, ActiveTransition>,
    after: Map<Seq<char>, ActiveTransition>,
    id: Seq<char>,
    started_at: i64,
    now: i64,
    counted_before: TransitionMetrics,
    counted_after: TransitionMetrics,
    result: Option<()>,
) -> bool {
    if !before.dom().contains(id) {
        result is None && after == before && counted_after == counted_before
    } else {
        &&& result is Some
        &&& after == before.insert(id, before[id].moved_to(TransitionState::Completed, now))
        &&& counted_after == (TransitionMetrics {
            transitions_completed: counted_before.transitions_completed.wrapping_add(1),
            average_transition_time_ms: ((elapsed(started_at as int, now as int) / 1_000_000)
                % 0x1_0000_0000) as u32,
            ..counted_before
        })
    }
}

/// The record once the rollback of a failed transition has been tried.
pub open spec fn called_back(
    active: Map<Seq<char>, ActiveTransition>,
    id: Seq<char>,
    rolled_back: bool,
) -> Map<Seq<char>, ActiveTransition> {
    if rolled_back && active.dom().contains(id) {
        active.insert(
            id,
            ActiveTransition { state: TransitionState::RolledBack, ..active[id] },
        )
    } else {
        active
    }
}

/// The counters once the rollback of a failed transition has been tried.
pub open spec fn counted_rollback(metrics: TransitionMetrics, rolled_back: bool) -> TransitionMetrics {
    TransitionMetrics {
        transitions_rolled_back: (if rolled_back {
            metrics.transitions_rolled_back.wrapping_add(1)
        } else {
            metrics.transitions_rolled_back
        }),
        ..one_more_failed(metrics)
    }
}

/// What a failed execution leads to: the transition fails for `reason`, and is
/// rolled back where something was prepared, or else counted as failed.
pub open spec fn execution_failed(
    before: ActiveTransition,
    after: ActiveTransition,
    reason: Seq<char>,
    now: i64,
    result: AfterExecute,
    counted_before: TransitionMetrics,
    counted_after: TransitionMetrics,
) -> bool {
    &&& before.failed_as(after, reason, now)
    &&& if before.context is Some {
        &&& result matches AfterExecute::RollBack(text) && text@ == reason
        &&& counted_after == counted_before
    } else {
        &&& result matches AfterExecute::Failed(AtlasError::Transition(text)) && text@ == reason
        &&& counted_after == one_more_failed(counted_before)
    }
}

/// The transitions of `active` that are not stale at `now`.
pub open spec fn kept_at(active: Map<Seq<char>, ActiveTransition>, now: i64) -> Map<
    Seq<char>,
    ActiveTransition,
> {
    active.restrict(Set::new(|k: Seq<char>| !active[k].is_stale(now)))
}

/// The counter after `n` steps down, wrapping around.
pub open spec fn lowered(counter: u32, n: int) -> u32 {
    ((counter - n) % 0x1_0000_0000) as u32
}

/// Whether `error` says that no transition is on record under `id`.
pub open spec fn not_found(error: AtlasError, id: Seq<char>) -> bool {
    error matches AtlasError::Transition(text) && text@ == "Transition "@ + id + " not found"@
}

fn transition_not_found(transition_id: &str) -> (result: AtlasError)
    ensures
        not_found(result, transition_id@),
{
    AtlasError::Transition(join3("Transition ", transition_id, " not found"))
}

/// Which of the two handlers serves transitions of a type.
#[derive(Clone, Copy, Debug, PartialEq, Eq, Structural)]
pub enum HandlerKind {
    Region,
    Server,
}

/// The handler that serves a type by default: changes of region have one of
/// their own, and all other types share one.
pub fn default_handler(transition_type: TransitionType) -> (result: HandlerKind)
    ensures
        result == (if transition_type is RegionChange {
            HandlerKind::Region
        } else {
            HandlerKind::Server
        }),
{
    match transition_type {
        TransitionType::RegionChange => HandlerKind::Region,
        _ => HandlerKind::Server,
    }
}

/// Whether `context` was prepared for `request` at `now`, to be used within
/// `seconds`.
pub open spec fn prepared_for(
    context: TransitionContext,
    request: TransitionRequest,
    transition_type: TransitionType,
    now: i64,
    seconds: int,
) -> bool {
    &&& is_uuid_text(context.transition_id@)
    &&& context.transition_type == transition_type
    &&& context.client_id == request.client_id
    &&& context.from_server == request.from_server
    &&& context.to_server == request.to_server
    &&& context.from_region == request.from_region
    &&& context.to_region == request.to_region
    &&& context.client_state@ == request.state_data@
    &&& context.position == request.position
    &&& context.metadata@.len() == 0
    &&& context.prepared_at == now
    &&& context.deadline == now + seconds * NANOS_PER_SECOND
}

fn context_for(
    request: &TransitionRequest,
    transition_type: TransitionType,
    now: i64,
    seconds: i64,
) -> (result: TransitionContext)
    requires
        now <= LATEST_INSTANT,
        0 <= seconds <= 600,
    ensures
        prepared_for(result, *request, transition_type, now, seconds as int),
{
    TransitionContext {
        transition_id: new_uuid_text(),
        transition_type,
        client_id: request.client_id.clone(),
        from_server: request.from_server.clone(),
        to_server: request.to_server.clone(),
        from_region: request.from_region.clone(),
        to_region: request.to_region.clone(),
        client_state: copy_bytes(&request.state_data),
        position: request.position,
        metadata: Vec::new(),
        prepared_at: now,
        deadline: now + seconds * NANOS_PER_SECOND,
    }
}

/// Whether `message` is sent by the transition manager to `server` at `now`, in
/// the clear.
pub open spec fn transition_message(
    message: Message,
    server: ServerId,
    message_type: Seq<char>,
    payload: Seq<u8>,
    now: i64,
) -> bool {
    &&& is_uuid_text(message.id@)
    &&& message.from matches MessageSource::Atlas(name) && name@ == "transition-manager"@
    &&& message.to == MessageDestination::Server(server)
    &&& message.message_type@ == message_type
    &&& message.payload@ == payload
    &&& message.timestamp == now
    &&& !message.encrypted
    &&& !message.compressed
}

fn message_to(server: &ServerId, message_type: &str, payload: Vec<u8>, now: i64) -> (result: Message)
    ensures
        transition_message(result, *server, message_type@, payload@, now),
{
    Message {
        id: new_uuid_text(),
        from: MessageSource::Atlas("transition-manager".to_owned()),
        to: MessageDestination::Server(server.clone()),
        message_type: message_type.to_owned(),
        payload,
        timestamp: now,
        encrypted: false,
        compressed: false,
    }
}

/// Prepares, executes and rolls back changes of region. Contexts travel in
/// serialized form, as the payload of each message.
#[derive(Clone, Copy, Debug)]
pub struct RegionTransitionHandler {}

impl RegionTransitionHandler {
    /// The context of a change of region; it is good for half a minute.
    pub fn prepare_context(&self, request: &TransitionRequest, now: i64) -> (result:
        TransitionContext)
        requires
            now <= LATEST_INSTANT,
        ensures
            prepared_for(result, *request, TransitionType::RegionChange, now, 30),
    {
        context_for(request, TransitionType::RegionChange, now, 30)
    }

    /// What the target server is told to prepare.
    pub fn prepare_message(&self, request: &TransitionRequest, payload: Vec<u8>, now: i64) -> (result:
        Message)
        ensures
            transition_message(
                result,
                request.to_server,
                "prepare_client_transfer"@,
                payload@,
                now,
            ),
    {
        message_to(&request.to_server, "prepare_client_transfer", payload, now)
    }

    /// What the source server is told, before the target hears anything.
    pub fn transfer_message(&self, context: &TransitionContext, payload: Vec<u8>, now: i64) -> (result:
        Message)
        ensures
            transition_message(result, context.from_server, "transfer_client"@, payload@, now),
    {
        message_to(&context.from_server, "transfer_client", payload, now)
    }

    /// What the target server is told once the source has been.
    pub fn accept_message(&self, context: &TransitionContext, payload: Vec<u8>, now: i64) -> (result:
        Message)
        ensures
            transition_message(result, context.to_server, "accept_client"@, payload@, now),
    {
        message_to(&context.to_server, "accept_client", payload, now)
    }

    /// What the target server is told when the transition is called off.
    pub fn rollback_message(&self, context: &TransitionContext, payload: Vec<u8>, now: i64) -> (result:
        Message)
        ensures
            transition_message(
                result,
                context.to_server,
                "rollback_client_transfer"@,
                payload@,
                now,
            ),
    {
        message_to(&context.to_server, "rollback_client_transfer", payload, now)
    }
}

/// Prepares, executes and rolls back changes of server within a region.
#[derive(Clone, Copy, Debug)]
pub struct ServerTransitionHandler {}

impl ServerTransitionHandler {
    /// The context of a change of server; it is good for a quarter of a minute.
    pub fn prepare_context(&self, request: &TransitionRequest, now: i64) -> (result:
        TransitionContext)
        requires
            now <= LATEST_INSTANT,
        ensures
            prepared_for(result, *request, TransitionType::ServerSwitch, now, 15),
    {
        context_for(request, TransitionType::ServerSwitch, now, 15)
    }

    /// What the target server is told to prepare.
    pub fn prepare_message(&self, request: &TransitionRequest, payload: Vec<u8>, now: i64) -> (result:
        Message)
        ensures
            transition_message(result, request.to_server, "prepare_server_switch"@, payload@, now),
    {
        message_to(&request.to_server, "prepare_server_switch", payload, now)
    }

    /// What the target server is told to do the switch.
    pub fn switch_message(&self, context: &TransitionContext, payload: Vec<u8>, now: i64) -> (result:
        Message)
        ensures
            transition_message(result, context.to_server, "execute_server_switch"@, payload@, now),
    {
        message_to(&context.to_server, "execute_server_switch", payload, now)
    }

    /// What the target server is told when the switch is called off.
    pub fn rollback_message(&self, context: &TransitionContext, payload: Vec<u8>, now: i64) -> (result:
        Message)
        ensures
            transition_message(result, context.to_server, "rollback_server_switch"@, payload@, now),
    {
        message_to(&context.to_server, "rollback_server_switch", payload, now)
    }
}

/// Cleaning up again at the same time takes nothing more off the record.
pub proof fn lemma_cleanup_idempotent(active: Map<Seq<char>, ActiveTransition>, now: i64)
    ensures
        kept_at(kept_at(active, now), now) == kept_at(active, now),
{
    assert(kept_at(kept_at(active, now), now) =~= kept_at(active, now));
}

/// A record that is stale stays stale: what a clean-up takes off, a later one
/// would have taken off too.
pub proof fn lemma_stale_stays_stale(transition: ActiveTransition, now: i64, later: i64)
    requires
        now <= later,
        transition.is_stale(now),
    ensures
        transition.is_stale(later),
{
    let unit = NANOS_PER_MINUTE as int;
    if transition.state.is_final() {
        assert(now - transition.updated_at >= 0);
        vstd::arithmetic::div_mod::lemma_div_is_ordered(
            now - transition.updated_at,
            later - transition.updated_at,
            unit,
        );
    }
}

/// A finished transition is kept through its retention: it is not stale before
/// its last change lies more than five whole minutes back.
pub proof fn lemma_finished_kept_for_retention(transition: ActiveTransition, now: i64)
    requires
        transition.state.is_final(),
        now - transition.updated_at < 6 * NANOS_PER_MINUTE,
    ensures
        !transition.is_stale(now),
{
}

/// A transition that was cancelled cannot be cancelled again.
pub proof fn lemma_cancelled_once(transition: ActiveTransition, now: i64)
    ensures
        !is_cancellable(transition.moved_to(TransitionState::Cancelled, now).state),
{
}

/// A transition is taken up at most once: it is not pending afterwards, and
/// taking it up again changes nothing.
pub proof fn lemma_begin_once(
    active: Map<Seq<char>, ActiveTransition>,
    id: Seq<char>,
    now: i64,
    later: i64,
)
    ensures
        !is_pending(begun(active, id, now), id),
        begun(begun(active, id, now), id, later) == begun(active, id, now),
{
}

/// Once the manager has stopped, no transition is being prepared or executed,
/// and stopping again changes nothing.
pub proof fn lemma_stop_leaves_nothing_running(
    active: Map<Seq<char>, ActiveTransition>,
    now: i64,
    later: i64,
)
    ensures
        stopped(active, now).dom() == active.dom(),
        forall|k: Seq<char>| #[trigger]
            stopped(active, now).dom().contains(k) ==> !(stopped(active, now)[k].state is Preparing)
                && !(stopped(active, now)[k].state is Executing),
        stopped(stopped(active, now), later) == stopped(active, now),
{
    assert(stopped(stopped(active, now), later) =~= stopped(active, now));
}

/// A transition becomes completed only by its confirmation: neither its preparation nor
/// its execution completes it, whatever they come to.
pub proof fn lemma_only_confirmation_completes(
    before: Map<Seq<char>, ActiveTransition>,
    after: Map<Seq<char>, ActiveTransition>,
    id: Seq<char>,
    preparation: StepOutcome<TransitionContext>,
    after_prepare: AfterPrepare,
    execution: StepOutcome<()>,
    after_execute: AfterExecute,
    now: i64,
    counted_before: TransitionMetrics,
    counted_after: TransitionMetrics,
)
    requires
        before.dom().contains(id),
    ensures
        prepared(
            before,
            after,
            id,
            preparation,
            now,
            counted_before,
            counted_after,
            after_prepare,
        ) ==> after[id].state is Prepared || after[id].state is Failed,
        executed(
            before,
            after,
            id,
            execution,
            now,
            counted_before,
            counted_after,
            after_execute,
        ) ==> after[id].state is Executing || after[id].state is Failed,
        forall|started_at: i64| #[trigger]
            confirmed(
                before,
                after,
                id,
                started_at,
                now,
                counted_before,
                counted_after,
                Some(()),
            ) ==> after[id].state is Completed,
{
}

/// A transition is over in four states and under way in the other four.
pub proof fn lemma_four_states_are_final(state: TransitionState)
    ensures
        state.is_final() <==> state != TransitionState::Pending && state
            != TransitionState::Preparing && state != TransitionState::Prepared && state
            != TransitionState::Executing,
        state.is_final() ==> !is_cancellable(state),
        is_cancellable(state) <==> !state.is_final() && state != TransitionState::Prepared,
{
}

/// A transition that is over is kept until its last change lies six minutes back. One under
/// way is kept up to the moment of its timeout, that moment among them.
pub proof fn lemma_records_are_kept_so_long(transition: ActiveTransition, now: i64)
    ensures
        transition.state.is_final() ==> (transition.is_stale(now) <==> now - transition.updated_at
            >= 6 * 60 * 1_000_000_000),
        !transition.state.is_final() ==> (transition.is_stale(now) <==> transition.timeout_at
            < now),
{
}

/// A clean-up takes away the stale records and leaves every other as it is.
pub proof fn lemma_cleanup_takes_only_stale_records(
    active: Map<Seq<char>, ActiveTransition>,
    now: i64,
    id: Seq<char>,
)
    requires
        active.dom().contains(id),
    ensures
        ({
            let t = active[id];
            let over = t.state == TransitionState::Completed || t.state == TransitionState::Failed
                || t.state == TransitionState::RolledBack || t.state == TransitionState::Cancelled;
            &&& kept_at(active, now).dom().contains(id) <==> if over {
                now - t.updated_at < 6 * 60 * 1_000_000_000
            } else {
                now <= t.timeout_at
            }
            &&& kept_at(active, now).dom().contains(id) ==> kept_at(active, now)[id] == t
        }),
{
}

/// A new transition waits, with nothing prepared and nothing tried, and times out half a
/// minute after it was made.
pub proof fn lemma_new_transition_waits_half_a_minute(
    transition: ActiveTransition,
    id: Seq<char>,
    request: TransitionRequest,
    now: i64,
)
    requires
        transition.is_new(id, request, now),
    ensures
        transition.id@ == id,
        transition.state == TransitionState::Pending,
        transition.context is None,
        transition.error_message is None,
        transition.retry_count == 0,
        transition.created_at == now && transition.updated_at == now,
        transition.timeout_at - now == 30_000_000_000,
        !transition.is_stale(now),
        is_cancellable(transition.state),
{
}

/// A change of state changes the state and when it changed, and nothing else.
pub proof fn lemma_change_of_state_keeps_the_rest(
    transition: ActiveTransition,
    state: TransitionState,
    now: i64,
)
    ensures
        transition.moved_to(state, now).state == state,
        transition.moved_to(state, now).updated_at == now,
        transition.moved_to(state, now).id == transition.id,
        transition.moved_to(state, now).request == transition.request,
        transition.moved_to(state, now).context == transition.context,
        transition.moved_to(state, now).created_at == transition.created_at,
        transition.moved_to(state, now).timeout_at == transition.timeout_at,
        transition.moved_to(state, now).retry_count == transition.retry_count,
        transition.moved_to(state, now).error_message == transition.error_message,
{
}

/// A failure is recorded with its reason and its time, and nothing else changes.
pub proof fn lemma_failure_is_recorded_with_its_reason(
    before: ActiveTransition,
    after: ActiveTransition,
    reason: Seq<char>,
    now: i64,
)
    requires
        before.failed_as(after, reason, now),
    ensures
        after.state == TransitionState::Failed,
        after.updated_at == now,
        after.error_message is Some && after.error_message->0@ == reason,
        after.id == before.id && after.request == before.request,
        after.context == before.context && after.created_at == before.created_at,
        after.timeout_at == before.timeout_at && after.retry_count == before.retry_count,
{
}

/// A client that stays in its region switches servers, whatever the servers are; one that
/// does not changes regions. Nothing but the two regions decides.
pub proof fn lemma_regions_decide_on_the_type(a: TransitionRequest, b: TransitionRequest)
    ensures
        a.from_region.0@ == a.to_region.0@ ==> requested_type(a) == TransitionType::ServerSwitch,
        a.from_region.0@ != a.to_region.0@ ==> requested_type(a) == TransitionType::RegionChange,
        a.from_region == b.from_region && a.to_region == b.to_region ==> requested_type(a)
            == requested_type(b),
        a.from_region == b.to_region && a.to_region == b.from_region ==> requested_type(a)
            == requested_type(b),
{
}

/// A transition is that of a request where client and time of the request agree.
pub proof fn lemma_client_and_time_name_a_request(
    transition: ActiveTransition,
    request: TransitionRequest,
)
    ensures
        made_for(transition, request) <==> transition.request.client_id.0@ == request.client_id.0@
            && transition.request.timestamp == request.timestamp,
        transition.request == request ==> made_for(transition, request),
{
}

/// Only a pending transition is taken up, and no other changes by it.
pub proof fn lemma_only_pending_transitions_begin(
    active: Map<Seq<char>, ActiveTransition>,
    id: Seq<char>,
    other: Seq<char>,
    now: i64,
)
    requires
        active.dom().contains(other),
    ensures
        begun(active, id, now).dom() == active.dom(),
        other == id && active[id].state == TransitionState::Pending ==> begun(
            active,
            id,
            now,
        )[id].state == TransitionState::Preparing && begun(active, id, now)[id].updated_at == now,
        other != id || active[other].state != TransitionState::Pending ==> begun(
            active,
            id,
            now,
        )[other] == active[other],
{
    assert(begun(active, id, now).dom() =~= active.dom());
}

/// Stopping calls off what is being prepared or executed. A transition that waits, is
/// prepared or is over stays as it is.
pub proof fn lemma_stopping_calls_off_what_runs(transition: ActiveTransition, now: i64)
    ensures
        ({
            let after = called_off(transition, now);
            let runs = transition.state == TransitionState::Preparing || transition.state
                == TransitionState::Executing;
            &&& runs ==> after.state == TransitionState::Cancelled && after.updated_at == now
            &&& !runs ==> after == transition
            &&& after.id == transition.id && after.request == transition.request
            &&& after.context == transition.context && after.timeout_at == transition.timeout_at
        }),
{
}

/// A preparation that succeeds brings its context and goes on; one that fails or takes too
/// long fails the transition, which counts once. Other transitions stay as they are.
pub proof fn lemma_preparation_decides(
    before: Map<Seq<char>, ActiveTransition>,
    after: Map<Seq<char>, ActiveTransition>,
    id: Seq<char>,
    outcome: StepOutcome<TransitionContext>,
    now: i64,
    counted_before: TransitionMetrics,
    counted_after: TransitionMetrics,
    result: AfterPrepare,
    other: Seq<char>,
)
    requires
        prepared(before, after, id, outcome, now, counted_before, counted_after, result),
    ensures
        result is Gone <==> !before.dom().contains(id),
        before.dom().contains(id) ==> (result is Execute <==> outcome is Succeeded),
        before.dom().contains(id) ==> (result is Failed <==> !(outcome is Succeeded)),
        result is Execute ==> {
            &&& after[id].state == TransitionState::Prepared
            &&& after[id].context is Some && after[id].context == (match outcome {
                StepOutcome::Succeeded(context) => Some(context),
                _ => None,
            })
            &&& counted_after == counted_before
        },
        result is Failed ==> {
            &&& after[id].state == TransitionState::Failed
            &&& after[id].context == before[id].context
            &&& after[id].error_message is Some
            &&& outcome matches StepOutcome::Failed(text) ==> after[id].error_message->0@ == text@
            &&& outcome is TimedOut ==> after[id].error_message->0@ == "Preparation timeout"@
            &&& counted_before.transitions_failed < u32::MAX ==> counted_after.transitions_failed
                == counted_before.transitions_failed + 1
            &&& counted_after.transitions_completed == counted_before.transitions_completed
            &&& counted_after.transitions_rolled_back == counted_before.transitions_rolled_back
        },
        after.dom() == before.dom(),
        before.dom().contains(id) ==> after[id].updated_at == now,
        before.dom().contains(other) && other != id ==> after[other] == before[other],
{
    assert(after.dom() =~= before.dom());
}

/// An execution that succeeds is to be confirmed. One that does not fails the transition,
/// and is rolled back where something was prepared; only where nothing was does it count as
/// failed at once.
pub proof fn lemma_execution_decides(
    before: Map<Seq<char>, ActiveTransition>,
    after: Map<Seq<char>, ActiveTransition>,
    id: Seq<char>,
    outcome: StepOutcome<()>,
    now: i64,
    counted_before: TransitionMetrics,
    counted_after: TransitionMetrics,
    result: AfterExecute,
    other: Seq<char>,
)
    requires
        executed(before, after, id, outcome, now, counted_before, counted_after, result),
    ensures
        result is Gone <==> !before.dom().contains(id),
        before.dom().contains(id) ==> (result is Confirm <==> outcome is Succeeded),
        before.dom().contains(id) && !(outcome is Succeeded) ==> {
            &&& result is RollBack <==> before[id].context is Some
            &&& result is Failed <==> before[id].context is None
            &&& after[id].state == TransitionState::Failed
            &&& after[id].context == before[id].context
            &&& after[id].error_message is Some
            &&& outcome matches StepOutcome::Failed(text) ==> after[id].error_message->0@ == text@
            &&& outcome is TimedOut ==> after[id].error_message->0@ == "Execution timeout"@
            &&& result matches AfterExecute::RollBack(text) ==> text@
                == after[id].error_message->0@
            &&& result matches AfterExecute::Failed(error) ==> (
            error matches AtlasError::Transition(text) && text@ == after[id].error_message->0@)
        },
        result is Confirm ==> after[id].state == TransitionState::Executing && after[id].context
            == before[id].context,
        result is Confirm || result is RollBack || result is Gone ==> counted_after
            == counted_before,
        result is Failed && counted_before.transitions_failed < u32::MAX
            ==> counted_after.transitions_failed == counted_before.transitions_failed + 1,
        counted_after.transitions_completed == counted_before.transitions_completed,
        after.dom() == before.dom(),
        before.dom().contains(id) ==> after[id].updated_at == now,
        before.dom().contains(other) && other != id ==> after[other] == before[other],
{
    assert(after.dom() =~= before.dom());
}

/// A confirmation completes the transition and counts it once, with the milliseconds since
/// it was started.
pub proof fn lemma_confirmation_counts_once(
    before: Map<Seq<char>, ActiveTransition>,
    after: Map<Seq<char>, ActiveTransition>,
    id: Seq<char>,
    started_at: i64,
    now: i64,
    counted_before: TransitionMetrics,
    counted_after: TransitionMetrics,
    result: Option<()>,
    other: Seq<char>,
)
    requires
        confirmed(
            before,
            after,
            id,
            started_at,
            now,
            counted_before,
            counted_after,
            result,
        ),
    ensures
        result is Some <==> before.dom().contains(id),
        result is None ==> after == before && counted_after == counted_before,
        result is Some ==> {
            &&& after[id].state == TransitionState::Completed
            &&& after[id].updated_at == now
            &&& counted_before.transitions_completed < u32::MAX
                ==> counted_after.transitions_completed == counted_before.transitions_completed + 1
            &&& counted_after.transitions_failed == counted_before.transitions_failed
            &&& counted_after.transitions_initiated == counted_before.transitions_initiated
            &&& counted_after.transitions_rolled_back == counted_before.transitions_rolled_back
            &&& counted_after.active_transitions == counted_before.active_transitions
            &&& 0 <= now - started_at < 4_000_000_000_000_000 ==> {
                let millis = counted_after.average_transition_time_ms;
                millis * 1_000_000 <= now - started_at < (millis + 1) * 1_000_000
            }
            &&& now <= started_at ==> counted_after.average_transition_time_ms == 0
        },
        after.dom() == before.dom(),
        before.dom().contains(other) && other != id ==> after[other] == before[other],
{
    assert(after.dom() =~= before.dom());
}

/// A rollback that went well is marked as such and counted; every one counts as a failure.
pub proof fn lemma_rollback_is_counted(
    active: Map<Seq<char>, ActiveTransition>,
    id: Seq<char>,
    other: Seq<char>,
    metrics: TransitionMetrics,
    rolled_back: bool,
)
    requires
        active.dom().contains(other),
        metrics.transitions_failed < u32::MAX,
        metrics.transitions_rolled_back < u32::MAX,
    ensures
        ({
            let after = called_back(active, id, rolled_back);
            let counted = counted_rollback(metrics, rolled_back);
            &&& after.dom() == active.dom()
            &&& rolled_back && other == id ==> after[other].state == TransitionState::RolledBack
            &&& after[other].error_message == active[other].error_message
            &&& !rolled_back || other != id ==> after[other] == active[other]
            &&& counted.transitions_failed == metrics.transitions_failed + 1
            &&& rolled_back ==> counted.transitions_rolled_back == metrics.transitions_rolled_back
                + 1
            &&& !rolled_back ==> counted.transitions_rolled_back
                == metrics.transitions_rolled_back
            &&& counted.transitions_completed == metrics.transitions_completed
            &&& counted.transitions_initiated == metrics.transitions_initiated
            &&& counted.active_transitions == metrics.active_transitions
        }),
{
    assert(called_back(active, id, rolled_back).dom() =~= active.dom());
}

/// A step of a process is answered by what it waits for, and by nothing else: no stage
/// waits for two kinds of events, and one that is done waits for none.
pub proof fn lemma_each_stage_awaits_one_event(stage: ProcessStage, event: ProcessEvent)
    ensures
        stage == ProcessStage::Done ==> !stage.awaits(event),
        event is Prepared ==> (stage.awaits(event) <==> stage == ProcessStage::Preparing),
        event is Executed ==> (stage.awaits(event) <==> stage == ProcessStage::Executing),
        event is Confirmed ==> (stage.awaits(event) <==> stage == ProcessStage::Confirming),
        event is RolledBack ==> (stage.awaits(event) <==> stage == ProcessStage::RollingBack),
        stage.steps_left() == 0 <==> stage == ProcessStage::Done,
{
}

/// What a process does next says what it waits for: executing and confirming follow one
/// another, and whatever ends the process leaves nothing to wait for.
pub proof fn lemma_action_says_what_is_awaited(action: ProcessAction)
    ensures
        action is Execute <==> action.next_stage() == ProcessStage::Executing,
        action is Confirm <==> action.next_stage() == ProcessStage::Confirming,
        action is RollBack <==> action.next_stage() == ProcessStage::RollingBack,
        action is Completed || action is Failed || action is Gone <==> action.next_stage()
            == ProcessStage::Done,
        action.next_stage() != ProcessStage::Preparing,
        action is Execute ==> action.next_stage().steps_left()
            == ProcessStage::Preparing.steps_left() - 1,
        action is Confirm ==> action.next_stage().steps_left()
            == ProcessStage::Executing.steps_left() - 1,
{
}

/// A transition is rolled back before it is cancelled only while it is executed, with a
/// context for whose type there is a handler.
pub proof fn lemma_only_executing_transitions_roll_back_first(
    manager: TransitionManager,
    transition: ActiveTransition,
)
    ensures
        manager.rolls_back_first(transition) <==> {
            &&& transition.state == TransitionState::Executing
            &&& transition.context is Some
            &&& manager.handlers@.contains(transition.context->0.transition_type)
        },
{
}

/// The count of transitions on record goes down by what a clean-up takes off it, around
/// zero if need be.
pub proof fn lemma_record_count_goes_down(counter: u32, n: int)
    requires
        0 <= n <= u32::MAX,
    ensures
        n <= counter ==> lowered(counter, n) == counter - n,
        n > counter ==> lowered(counter, n) == counter - n + 0x1_0000_0000,
{
    if n <= counter {
        vstd::arithmetic::div_mod::lemma_small_mod((counter - n) as nat, 0x1_0000_0000);
    }
}

/// A context says what the request says: who moves, from where to where, with which state
/// and at which position. Its deadline is as many seconds away as it is given.
pub proof fn lemma_context_says_what_the_request_says(
    context: TransitionContext,
    request: TransitionRequest,
    transition_type: TransitionType,
    now: i64,
    seconds: int,
)
    requires
        prepared_for(context, request, transition_type, now, seconds),
    ensures
        context.transition_type == transition_type,
        context.client_id == request.client_id,
        context.from_server == request.from_server && context.to_server == request.to_server,
        context.from_region == request.from_region && context.to_region == request.to_region,
        context.client_state@ == request.state_data@,
        context.position == request.position,
        context.metadata@.len() == 0,
        context.prepared_at == now,
        context.deadline - now == seconds * 1_000_000_000,
{
}

/// The names of the states tell them apart.
pub proof fn lemma_state_names_differ(a: TransitionState, b: TransitionState)
    ensures
        a.spec_name() == b.spec_name() ==> a == b,
{
    reveal_strlit("Pending");
    reveal_strlit("Preparing");
    reveal_strlit("Prepared");
    reveal_strlit("Executing");
    reveal_strlit("Completed");
    reveal_strlit("Failed");
    reveal_strlit("RolledBack");
    reveal_strlit("Cancelled");
    assert("Preparing"@[0] == 'P' && "Executing"@[0] == 'E' && "Completed"@[0] == 'C');
    assert("Cancelled"@[0] == 'C' && "Cancelled"@[1] == 'a' && "Completed"@[1] == 'o');
    assert("Preparing"@.len() == 9 && "Executing"@.len() == 9 && "Completed"@.len() == 9);
    assert("Cancelled"@.len() == 9 && "Pending"@.len() == 7 && "Prepared"@.len() == 8);
    assert("Failed"@.len() == 6 && "RolledBack"@.len() == 10);
}

/// Contexts that are the same agree in everything that they say.
pub proof fn lemma_same_context_in_every_field(a: TransitionContext, b: TransitionContext)
    requires
        a.same_as(b),
    ensures
        a.transition_id == b.transition_id && a.transition_type == b.transition_type,
        a.client_id == b.client_id && a.from_server == b.from_server && a.to_server == b.to_server,
        a.from_region == b.from_region && a.to_region == b.to_region && a.position == b.position,
        a.client_state@ == b.client_state@ && a.metadata@ == b.metadata@,
        a.prepared_at == b.prepared_at && a.deadline == b.deadline,
{
}

/// A message of a transition goes to the server that it is for, in the clear, and comes from
/// the manager.
pub proof fn lemma_transition_message_goes_to_its_server(
    message: Message,
    server: ServerId,
    message_type: Seq<char>,
    payload: Seq<u8>,
    now: i64,
)
    requires
        transition_message(message, server, message_type, payload, now),
    ensures
        message.to == MessageDestination::Server(server),
        message.from is Atlas,
        message.message_type@ == message_type,
        message.payload@ == payload,
        message.timestamp == now,
        !message.encrypted && !message.compressed,
{
}

} // verus!
