//! The kernel runtime's decisions: one scheduler owning at most one turn
//! task, the task's event lifecycle, and the ordering both guarantee. The
//! loop that waits on channels and timeouts drives these from outside.

use vstd::prelude::*;
use crate::protocol::Event;
use crate::protocol::EventMsg;
use crate::protocol::EventMsgView;
use crate::protocol::SessionConfiguredEvent;
use crate::protocol::TaskStartedEvent;
use crate::protocol::TaskCompleteEvent;
use crate::protocol::TurnAbortedEvent;
use crate::protocol::TurnAbortReason;
use crate::protocol::ErrorEvent;
use crate::protocol::InputItem;
use crate::protocol::UserTurnOptions;
use crate::protocol::ov;

verus! {

pub struct KernelConfig {
    pub session_id: String,
    pub channel_capacity: usize,
    pub task_idle_timeout_ms: u64,
}

impl Default for KernelConfig {
    /// The runtime's defaults: a fixed session name, a channel capacity of
    /// 128, and a 200 ms idle timeout.
    fn default() -> (r: Self)
        ensures
            r.session_id@ == "finger-kernel"@,
            r.channel_capacity == 128,
            r.task_idle_timeout_ms == 200,
    {
        KernelConfig {
            session_id: "finger-kernel".to_owned(),
            channel_capacity: 128,
            task_idle_timeout_ms: 200,
        }
    }
}

pub struct TurnRunResult {
    pub last_agent_message: Option<String>,
    pub metadata_json: Option<String>,
}

pub struct TurnRequest {
    pub items: Vec<InputItem>,
    pub options: UserTurnOptions,
}

/// The event kinds a running task may emit between its start and its end.
pub open spec fn is_progress_msg(m: EventMsgView) -> bool {
    ||| m is ModelRound
    ||| m is ToolCall
    ||| m is ToolResult
    ||| m is ToolError
    ||| m is Error
}

pub enum TaskPhase {
    Running,
    Done,
}

/// One turn task's event discipline. The ghost transcript records every
/// message the task has emitted, in order.
pub struct TaskLifecycle {
    pub sub_id: String,
    pub phase: TaskPhase,
    pub last_agent_message: Option<String>,
    pub last_metadata_json: Option<String>,
    pub transcript: Ghost<Seq<EventMsgView>>,
}

impl TaskLifecycle {
    /// The transcript always opens with `TaskStarted`; while the task runs,
    /// everything after it is progress; once done, exactly one
    /// `TaskComplete` closes it.
    pub open spec fn wf(self) -> bool {
        &&& self.transcript@.len() >= 1
        &&& self.transcript@[0] is TaskStarted
        &&& match self.phase {
            TaskPhase::Running => forall|i: int|
                1 <= i < self.transcript@.len() ==> is_progress_msg(#[trigger] self.transcript@[i]),
            TaskPhase::Done => {
                &&& self.transcript@.last() is TaskComplete
                &&& forall|i: int|
                    1 <= i < self.transcript@.len() - 1 ==> is_progress_msg(
                        #[trigger] self.transcript@[i],
                    )
            },
        }
    }

    /// Starting a task emits `TaskStarted` with the configured window, under
    /// the submission id that spawned the task.
    pub fn begin(sub_id: String, model_context_window: Option<u64>) -> (r: (TaskLifecycle, Event))
        ensures
            r.0.wf(),
            r.0.phase is Running,
            r.0.sub_id@ == sub_id@,
            r.0.transcript@ =~= seq![r.1.msg@],
            r.1.id@ == sub_id@,
            r.1.msg@ == (EventMsgView::TaskStarted { model_context_window }),
            r.0.last_agent_message is None,
            r.0.last_metadata_json is None,
    {
        let msg = EventMsg::TaskStarted(TaskStartedEvent { model_context_window });
        let event = Event { id: sub_id.clone(), msg };
        let ghost t = seq![event.msg@];
        let lifecycle = TaskLifecycle {
            sub_id,
            phase: TaskPhase::Running,
            last_agent_message: None,
            last_metadata_json: None,
            transcript: Ghost(t),
        };
        (lifecycle, event)
    }

    /// A progress message flows through under the task's id.
    pub fn record_progress(&mut self, msg: EventMsg) -> (r: Event)
        requires
            old(self).wf(),
            old(self).phase is Running,
            is_progress_msg(msg@),
        ensures
            final(self).wf(),
            final(self).phase is Running,
            final(self).sub_id == old(self).sub_id,
            final(self).last_agent_message == old(self).last_agent_message,
            final(self).last_metadata_json == old(self).last_metadata_json,
            final(self).transcript@ == old(self).transcript@.push(r.msg@),
            r.id@ == old(self).sub_id@,
            r.msg@ == msg@,
    {
        proof {
            self.transcript@ = self.transcript@.push(msg@);
        }
        Event { id: self.sub_id.clone(), msg }
    }

    /// A finished engine run updates what the closing event will carry; a
    /// failed one surfaces as an `Error` progress event instead.
    pub fn note_engine_result(&mut self, result: Result<TurnRunResult, String>) -> (r: Option<
        Event,
    >)
        requires
            old(self).wf(),
            old(self).phase is Running,
        ensures
            final(self).wf(),
            final(self).phase is Running,
            final(self).sub_id == old(self).sub_id,
            match result {
                Ok(out) => {
                    &&& r is None
                    &&& final(self).transcript@ == old(self).transcript@
                    &&& final(self).last_agent_message == (if out.last_agent_message is Some {
                        out.last_agent_message
                    } else {
                        old(self).last_agent_message
                    })
                    &&& final(self).last_metadata_json == (if out.metadata_json is Some {
                        out.metadata_json
                    } else {
                        old(self).last_metadata_json
                    })
                },
                Err(m) => {
                    &&& r is Some
                    &&& r->0.id@ == old(self).sub_id@
                    &&& r->0.msg@ == (EventMsgView::Error {
                        message: "run_turn failed: "@ + m@,
                    })
                    &&& final(self).transcript@ == old(self).transcript@.push(r->0.msg@)
                    &&& final(self).last_agent_message == old(self).last_agent_message
                    &&& final(self).last_metadata_json == old(self).last_metadata_json
                },
            },
    {
        match result {
            Ok(out) => {
                if out.last_agent_message.is_some() {
                    self.last_agent_message = out.last_agent_message;
                }
                if out.metadata_json.is_some() {
                    self.last_metadata_json = out.metadata_json;
                }
                None
            },
            Err(m) => {
                let mut v = crate::text::chars_of("run_turn failed: ");
                let mv = crate::text::chars_of(m.as_str());
                crate::text::extend_chars(&mut v, &mv);
                let message = crate::text::string_from_chars(&v);
                let msg = EventMsg::Error(ErrorEvent { message });
                proof {
                    self.transcript@ = self.transcript@.push(msg@);
                }
                Some(Event { id: self.sub_id.clone(), msg })
            },
        }
    }

    /// The single closing event: `TaskComplete`, carrying the most recent
    /// engine output.
    pub fn finish(&mut self) -> (r: Event)
        requires
            old(self).wf(),
            old(self).phase is Running,
        ensures
            final(self).wf(),
            final(self).phase is Done,
            final(self).transcript@ == old(self).transcript@.push(r.msg@),
            r.id@ == old(self).sub_id@,
            r.msg@ == (EventMsgView::TaskComplete {
                last_agent_message: ov(old(self).last_agent_message),
                metadata_json: ov(old(self).last_metadata_json),
            }),
    {
        let msg = EventMsg::TaskComplete(
            TaskCompleteEvent {
                last_agent_message: crate::ledger::clone_opt_string(&self.last_agent_message),
                metadata_json: crate::ledger::clone_opt_string(&self.last_metadata_json),
            },
        );
        self.phase = TaskPhase::Done;
        proof {
            self.transcript@ = self.transcript@.push(msg@);
        }
        Event { id: self.sub_id.clone(), msg }
    }
}

/// For every turn: `TaskStarted` precedes every progress event, and a
/// finished task closes with exactly one `TaskComplete`; an aborted one
/// never reaches it and the scheduler's `TurnAborted` takes its place.
pub proof fn lemma_task_event_order(t: TaskLifecycle)
    requires
        t.wf(),
    ensures
        t.transcript@.len() >= 1,
        t.transcript@[0] is TaskStarted,
        t.phase is Done ==> t.transcript@.last() is TaskComplete,
        t.phase is Done ==> forall|i: int|
            1 <= i < t.transcript@.len() - 1 ==> is_progress_msg(#[trigger] t.transcript@[i]),
        t.phase is Running ==> forall|i: int|
            1 <= i < t.transcript@.len() ==> is_progress_msg(#[trigger] t.transcript@[i]),
{
}

// ---------------------------------------------------------------------------
// The scheduler.
// ---------------------------------------------------------------------------

/// What the scheduler knows of its one running task.
pub struct ActiveTask {
    pub sub_id: String,
}

/// The scheduler's state: at most one active task, by construction.
pub struct SchedulerState {
    pub session_id: String,
    pub active: Option<ActiveTask>,
}

/// What the loop must do for a user turn.
pub enum UserTurnDecision {
    /// Send the request into the running task's input channel.
    ForwardToActive,
    /// No task runs: spawn one for this submission.
    SpawnNew,
}

impl SchedulerState {
    /// Starting the runtime emits `SessionConfigured` under the id
    /// `session`.
    pub fn start(session_id: String) -> (r: (SchedulerState, Event))
        ensures
            r.0.active is None,
            r.0.session_id@ == session_id@,
            r.1.id@ == "session"@,
            r.1.msg@ == (EventMsgView::SessionConfigured { session_id: session_id@ }),
    {
        let event = Event {
            id: "session".to_owned(),
            msg: EventMsg::SessionConfigured(
                SessionConfiguredEvent { session_id: session_id.clone() },
            ),
        };
        (SchedulerState { session_id, active: None }, event)
    }

    /// A finished task leaves the slot before the next submission is read.
    pub fn clear_finished(&mut self, active_has_finished: bool)
        ensures
            final(self).session_id == old(self).session_id,
            active_has_finished ==> final(self).active is None,
            !active_has_finished ==> final(self).active == old(self).active,
    {
        if active_has_finished {
            self.active = None;
        }
    }

    /// A user turn goes to the running task when one exists; otherwise a
    /// new task takes the slot under this submission's id.
    pub fn on_user_turn(&mut self, sub_id: &String) -> (r: UserTurnDecision)
        ensures
            final(self).session_id == old(self).session_id,
            match r {
                UserTurnDecision::ForwardToActive => {
                    &&& old(self).active is Some
                    &&& final(self).active == old(self).active
                },
                UserTurnDecision::SpawnNew => {
                    &&& old(self).active is None
                    &&& final(self).active is Some
                    &&& final(self).active->0.sub_id@ == sub_id@
                },
            },
    {
        match &self.active {
            Some(_) => UserTurnDecision::ForwardToActive,
            None => {
                self.active = Some(ActiveTask { sub_id: sub_id.clone() });
                UserTurnDecision::SpawnNew
            },
        }
    }

    /// A forward that found the task already gone replaces it: the slot is
    /// retaken under the new submission's id.
    pub fn on_forward_failed(&mut self, sub_id: &String)
        ensures
            final(self).session_id == old(self).session_id,
            final(self).active is Some,
            final(self).active->0.sub_id@ == sub_id@,
    {
        self.active = Some(ActiveTask { sub_id: sub_id.clone() });
    }

    /// An interrupt aborts the active task, if any, and says so under the
    /// aborted task's own submission id.
    pub fn on_interrupt(&mut self) -> (r: Option<Event>)
        ensures
            final(self).session_id == old(self).session_id,
            final(self).active is None,
            match r {
                Some(e) => {
                    &&& old(self).active is Some
                    &&& e.id@ == old(self).active->0.sub_id@
                    &&& e.msg@ == (EventMsgView::TurnAborted {
                        reason: TurnAbortReason::UserInterrupt,
                    })
                },
                None => old(self).active is None,
            },
    {
        match self.active.take() {
            Some(task) => Some(
                Event {
                    id: task.sub_id,
                    msg: EventMsg::TurnAborted(
                        TurnAbortedEvent { reason: TurnAbortReason::UserInterrupt },
                    ),
                },
            ),
            None => None,
        }
    }

    /// Shutdown aborts the active task, then announces completion under the
    /// shutdown submission's id; the loop exits afterwards.
    pub fn on_shutdown(&mut self, sub_id: &String) -> (r: (Option<Event>, Event))
        ensures
            final(self).session_id == old(self).session_id,
            final(self).active is None,
            match r.0 {
                Some(e) => {
                    &&& old(self).active is Some
                    &&& e.id@ == old(self).active->0.sub_id@
                    &&& e.msg@ == (EventMsgView::TurnAborted {
                        reason: TurnAbortReason::Shutdown,
                    })
                },
                None => old(self).active is None,
            },
            r.1.id@ == sub_id@,
            r.1.msg@ is ShutdownComplete,
    {
        let aborted = match self.active.take() {
            Some(task) => Some(
                Event {
                    id: task.sub_id,
                    msg: EventMsg::TurnAborted(
                        TurnAbortedEvent { reason: TurnAbortReason::Shutdown },
                    ),
                },
            ),
            None => None,
        };
        (aborted, Event { id: sub_id.clone(), msg: EventMsg::ShutdownComplete })
    }

    /// Approvals are not implemented: the submission is answered with an
    /// error under its own id.
    pub fn on_approval(&self, sub_id: &String) -> (r: Event)
        ensures
            r.id@ == sub_id@,
            r.msg@ == (EventMsgView::Error { message: "approval flow is not implemented"@ }),
    {
        Event {
            id: sub_id.clone(),
            msg: EventMsg::Error(
                ErrorEvent { message: "approval flow is not implemented".to_owned() },
            ),
        }
    }
}


// ---------------------------------------------------------------------------
// The echo engine.
// ---------------------------------------------------------------------------

/// What the echo engine answers: the text of the last text item, if any.
pub open spec fn echo_fold(items: Seq<crate::protocol::InputItemView>) -> Option<Seq<char>>
    decreases items.len(),
{
    if items.len() == 0 {
        None
    } else {
        match items.last() {
            crate::protocol::InputItemView::Text { text } => Some(text),
            _ => echo_fold(items.drop_last()),
        }
    }
}

/// The diagnostic fallback engine.
pub struct EchoChatEngine;

impl EchoChatEngine {
    /// A turn's answer is its last text item, with no metadata.
    pub fn run_turn(&self, request: &TurnRequest) -> (r: TurnRunResult)
        ensures
            ov(r.last_agent_message) == echo_fold(
                crate::engine::input_item_views(request.items@),
            ),
            r.metadata_json is None,
    {
        echo_run_turn(request)
    }
}

/// The diagnostic fallback engine's core: a turn's answer is its last text
/// item.
#[verifier::loop_isolation(false)]
pub fn echo_run_turn(request: &TurnRequest) -> (r: TurnRunResult)
    ensures
        ov(r.last_agent_message) == echo_fold(
            crate::engine::input_item_views(request.items@),
        ),
        r.metadata_json is None,
{
    let ghost iv = crate::engine::input_item_views(request.items@);
    let mut last: Option<String> = None;
    let mut i: usize = 0;
    proof {
        assert(iv.subrange(0, 0) =~= Seq::<crate::protocol::InputItemView>::empty());
    }
    while i < request.items.len()
        invariant
            i <= request.items@.len(),
            iv.len() == request.items@.len(),
            iv == crate::engine::input_item_views(request.items@),
            ov(last) == echo_fold(iv.subrange(0, i as int)),
        decreases request.items@.len() - i,
    {
        proof {
            assert(iv.subrange(0, i + 1) =~= iv.subrange(0, i as int).push(iv[i as int]));
            assert(iv.subrange(0, i + 1).drop_last() =~= iv.subrange(0, i as int));
            assert(iv[i as int] == request.items@[i as int]@);
        }
        match &request.items[i] {
            crate::protocol::InputItem::Text { text } => {
                last = Some(text.clone());
            },
            _ => {},
        }
        i = i + 1;
    }
    proof {
        assert(iv.subrange(0, iv.len() as int) =~= iv);
    }
    TurnRunResult { last_agent_message: last, metadata_json: None }
}

} // verus!
