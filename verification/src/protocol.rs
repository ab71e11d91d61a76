//! The protocol vocabulary: submissions in, events out, and the option
//! records a user turn carries. Each type has a view over sequences, which
//! the wire codec's contracts speak of.

use vstd::prelude::*;
use crate::json::JsonValue;
use crate::json::Json;
use crate::json::views_of;

verus! {

// ---------------------------------------------------------------------------
// Option records.
// ---------------------------------------------------------------------------

pub struct TurnContext {
    pub cwd: Option<String>,
    pub approval: Option<String>,
    pub sandbox: Option<String>,
    pub model: Option<String>,
}

pub struct TurnContextView {
    pub cwd: Option<Seq<char>>,
    pub approval: Option<Seq<char>>,
    pub sandbox: Option<Seq<char>>,
    pub model: Option<Seq<char>>,
}

pub open spec fn ov(x: Option<String>) -> Option<Seq<char>> {
    match x {
        Some(s) => Some(s@),
        None => None,
    }
}

impl View for TurnContext {
    type V = TurnContextView;

    open spec fn view(&self) -> TurnContextView {
        TurnContextView {
            cwd: ov(self.cwd),
            approval: ov(self.approval),
            sandbox: ov(self.sandbox),
            model: ov(self.model),
        }
    }
}

pub struct ContextWindowConfig {
    pub max_input_tokens: Option<u64>,
    pub baseline_tokens: Option<u64>,
    /// The auto-compaction threshold, in percent of the window. The wire
    /// carries a ratio; callers convert once at the boundary.
    pub auto_compact_threshold_percent: Option<u64>,
}

impl View for ContextWindowConfig {
    type V = ContextWindowConfig;

    open spec fn view(&self) -> ContextWindowConfig {
        *self
    }
}

impl Clone for ContextWindowConfig {
    fn clone(&self) -> (r: Self)
        ensures
            r == *self,
    {
        ContextWindowConfig {
            max_input_tokens: self.max_input_tokens,
            baseline_tokens: self.baseline_tokens,
            auto_compact_threshold_percent: self.auto_compact_threshold_percent,
        }
    }
}

pub struct CompactConfig {
    pub manual: bool,
    pub preserve_user_messages: bool,
    pub summary_hint: Option<String>,
}

pub struct CompactConfigView {
    pub manual: bool,
    pub preserve_user_messages: bool,
    pub summary_hint: Option<Seq<char>>,
}

impl View for CompactConfig {
    type V = CompactConfigView;

    open spec fn view(&self) -> CompactConfigView {
        CompactConfigView {
            manual: self.manual,
            preserve_user_messages: self.preserve_user_messages,
            summary_hint: ov(self.summary_hint),
        }
    }
}

pub struct ToolSpec {
    pub name: String,
    pub description: Option<String>,
    pub input_schema: Option<JsonValue>,
}

pub struct ToolSpecView {
    pub name: Seq<char>,
    pub description: Option<Seq<char>>,
    pub input_schema: Option<Json>,
}

impl View for ToolSpec {
    type V = ToolSpecView;

    open spec fn view(&self) -> ToolSpecView {
        ToolSpecView {
            name: self.name@,
            description: ov(self.description),
            input_schema: match self.input_schema {
                Some(ref v) => Some(v@),
                None => None,
            },
        }
    }
}

pub open spec fn tool_spec_views(xs: Seq<ToolSpec>) -> Seq<ToolSpecView> {
    xs.map_values(|t: ToolSpec| t@)
}

pub struct ToolExecutionConfig {
    pub daemon_url: String,
    pub agent_id: String,
}

pub struct ToolExecutionConfigView {
    pub daemon_url: Seq<char>,
    pub agent_id: Seq<char>,
}

impl View for ToolExecutionConfig {
    type V = ToolExecutionConfigView;

    open spec fn view(&self) -> ToolExecutionConfigView {
        ToolExecutionConfigView { daemon_url: self.daemon_url@, agent_id: self.agent_id@ }
    }
}

pub struct ResponsesReasoningOptions {
    pub enabled: Option<bool>,
    pub effort: Option<String>,
    pub summary: Option<String>,
    pub include_encrypted_content: Option<bool>,
}

pub struct ResponsesReasoningOptionsView {
    pub enabled: Option<bool>,
    pub effort: Option<Seq<char>>,
    pub summary: Option<Seq<char>>,
    pub include_encrypted_content: Option<bool>,
}

impl View for ResponsesReasoningOptions {
    type V = ResponsesReasoningOptionsView;

    open spec fn view(&self) -> ResponsesReasoningOptionsView {
        ResponsesReasoningOptionsView {
            enabled: self.enabled,
            effort: ov(self.effort),
            summary: ov(self.summary),
            include_encrypted_content: self.include_encrypted_content,
        }
    }
}

pub struct ResponsesTextOptions {
    pub enabled: Option<bool>,
    pub verbosity: Option<String>,
    pub output_schema: Option<JsonValue>,
}

pub struct ResponsesTextOptionsView {
    pub enabled: Option<bool>,
    pub verbosity: Option<Seq<char>>,
    pub output_schema: Option<Json>,
}

impl View for ResponsesTextOptions {
    type V = ResponsesTextOptionsView;

    open spec fn view(&self) -> ResponsesTextOptionsView {
        ResponsesTextOptionsView {
            enabled: self.enabled,
            verbosity: ov(self.verbosity),
            output_schema: match self.output_schema {
                Some(ref v) => Some(v@),
                None => None,
            },
        }
    }
}

pub struct ResponsesRequestOptions {
    pub reasoning: Option<ResponsesReasoningOptions>,
    pub text: Option<ResponsesTextOptions>,
    pub include_list: Vec<String>,
    pub store: Option<bool>,
    pub parallel_tool_calls: Option<bool>,
}

pub struct ResponsesRequestOptionsView {
    pub reasoning: Option<ResponsesReasoningOptionsView>,
    pub text: Option<ResponsesTextOptionsView>,
    pub include_list: Seq<Seq<char>>,
    pub store: Option<bool>,
    pub parallel_tool_calls: Option<bool>,
}

impl View for ResponsesRequestOptions {
    type V = ResponsesRequestOptionsView;

    open spec fn view(&self) -> ResponsesRequestOptionsView {
        ResponsesRequestOptionsView {
            reasoning: match self.reasoning {
                Some(ref r) => Some(r@),
                None => None,
            },
            text: match self.text {
                Some(ref t) => Some(t@),
                None => None,
            },
            include_list: self.include_list@.map_values(|s: String| s@),
            store: self.store,
            parallel_tool_calls: self.parallel_tool_calls,
        }
    }
}

pub struct ContextLedgerOptions {
    pub enabled: bool,
    pub root_dir: Option<String>,
    pub agent_id: Option<String>,
    pub role: Option<String>,
    pub mode: Option<String>,
    pub can_read_all: bool,
    pub readable_agents: Vec<String>,
    pub focus_enabled: bool,
    pub focus_max_chars: Option<usize>,
}

pub struct ContextLedgerOptionsView {
    pub enabled: bool,
    pub root_dir: Option<Seq<char>>,
    pub agent_id: Option<Seq<char>>,
    pub role: Option<Seq<char>>,
    pub mode: Option<Seq<char>>,
    pub can_read_all: bool,
    pub readable_agents: Seq<Seq<char>>,
    pub focus_enabled: bool,
    pub focus_max_chars: Option<usize>,
}

impl View for ContextLedgerOptions {
    type V = ContextLedgerOptionsView;

    open spec fn view(&self) -> ContextLedgerOptionsView {
        ContextLedgerOptionsView {
            enabled: self.enabled,
            root_dir: ov(self.root_dir),
            agent_id: ov(self.agent_id),
            role: ov(self.role),
            mode: ov(self.mode),
            can_read_all: self.can_read_all,
            readable_agents: self.readable_agents@.map_values(|s: String| s@),
            focus_enabled: self.focus_enabled,
            focus_max_chars: self.focus_max_chars,
        }
    }
}

// ---------------------------------------------------------------------------
// Input items and user-turn options.
// ---------------------------------------------------------------------------

pub enum InputItem {
    Text { text: String },
    Image { image_url: String },
    LocalImage { path: String },
}

pub enum InputItemView {
    Text { text: Seq<char> },
    Image { image_url: Seq<char> },
    LocalImage { path: Seq<char> },
}

impl View for InputItem {
    type V = InputItemView;

    open spec fn view(&self) -> InputItemView {
        match self {
            InputItem::Text { text } => InputItemView::Text { text: text@ },
            InputItem::Image { image_url } => InputItemView::Image { image_url: image_url@ },
            InputItem::LocalImage { path } => InputItemView::LocalImage { path: path@ },
        }
    }
}

pub open spec fn input_item_views(xs: Seq<InputItem>) -> Seq<InputItemView> {
    xs.map_values(|x: InputItem| x@)
}

pub struct UserTurnOptions {
    pub system_prompt: Option<String>,
    pub tools: Vec<ToolSpec>,
    pub tool_execution: Option<ToolExecutionConfig>,
    pub session_id: Option<String>,
    pub mode: Option<String>,
    pub history_items: Vec<JsonValue>,
    pub developer_instructions: Option<String>,
    pub user_instructions: Option<String>,
    pub environment_context: Option<String>,
    pub turn_context: Option<TurnContext>,
    pub context_window: Option<ContextWindowConfig>,
    pub compact: Option<CompactConfig>,
    pub fork_user_message_index: Option<usize>,
    pub context_ledger: Option<ContextLedgerOptions>,
    pub responses: Option<ResponsesRequestOptions>,
}

pub struct UserTurnOptionsView {
    pub system_prompt: Option<Seq<char>>,
    pub tools: Seq<ToolSpecView>,
    pub tool_execution: Option<ToolExecutionConfigView>,
    pub session_id: Option<Seq<char>>,
    pub mode: Option<Seq<char>>,
    pub history_items: Seq<Json>,
    pub developer_instructions: Option<Seq<char>>,
    pub user_instructions: Option<Seq<char>>,
    pub environment_context: Option<Seq<char>>,
    pub turn_context: Option<TurnContextView>,
    pub context_window: Option<ContextWindowConfig>,
    pub compact: Option<CompactConfigView>,
    pub fork_user_message_index: Option<usize>,
    pub context_ledger: Option<ContextLedgerOptionsView>,
    pub responses: Option<ResponsesRequestOptionsView>,
}

impl View for UserTurnOptions {
    type V = UserTurnOptionsView;

    open spec fn view(&self) -> UserTurnOptionsView {
        UserTurnOptionsView {
            system_prompt: ov(self.system_prompt),
            tools: tool_spec_views(self.tools@),
            tool_execution: match self.tool_execution {
                Some(ref t) => Some(t@),
                None => None,
            },
            session_id: ov(self.session_id),
            mode: ov(self.mode),
            history_items: views_of(self.history_items@),
            developer_instructions: ov(self.developer_instructions),
            user_instructions: ov(self.user_instructions),
            environment_context: ov(self.environment_context),
            turn_context: match self.turn_context {
                Some(ref t) => Some(t@),
                None => None,
            },
            context_window: match self.context_window {
                Some(ref c) => Some(*c),
                None => None,
            },
            compact: match self.compact {
                Some(ref c) => Some(c@),
                None => None,
            },
            fork_user_message_index: self.fork_user_message_index,
            context_ledger: match self.context_ledger {
                Some(ref c) => Some(c@),
                None => None,
            },
            responses: match self.responses {
                Some(ref r) => Some(r@),
                None => None,
            },
        }
    }
}

impl UserTurnOptions {
    /// All defaults: nothing set, no tools, no history.
    pub fn empty() -> (r: UserTurnOptions)
        ensures
            r@.system_prompt is None,
            r@.tools.len() == 0,
            r@.tool_execution is None,
            r@.session_id is None,
            r@.mode is None,
            r@.history_items.len() == 0,
            r@.developer_instructions is None,
            r@.user_instructions is None,
            r@.environment_context is None,
            r@.turn_context is None,
            r@.context_window is None,
            r@.compact is None,
            r@.fork_user_message_index is None,
            r@.context_ledger is None,
            r@.responses is None,
    {
        let r = UserTurnOptions {
            system_prompt: None,
            tools: Vec::new(),
            tool_execution: None,
            session_id: None,
            mode: None,
            history_items: Vec::new(),
            developer_instructions: None,
            user_instructions: None,
            environment_context: None,
            turn_context: None,
            context_window: None,
            compact: None,
            fork_user_message_index: None,
            context_ledger: None,
            responses: None,
        };
        proof {
            crate::json::lemma_views_of(r.history_items@);
        }
        r
    }

    /// Whether the record carries nothing, which lets the wire omit it.
    pub open spec fn is_empty_spec(o: UserTurnOptionsView) -> bool {
        &&& o.system_prompt is None
        &&& o.tools.len() == 0
        &&& o.tool_execution is None
        &&& o.session_id is None
        &&& o.mode is None
        &&& o.history_items.len() == 0
        &&& o.developer_instructions is None
        &&& o.user_instructions is None
        &&& o.environment_context is None
        &&& o.turn_context is None
        &&& o.context_window is None
        &&& o.compact is None
        &&& o.fork_user_message_index is None
        &&& o.context_ledger is None
        &&& o.responses is None
    }

    pub fn is_empty(options: &UserTurnOptions) -> (r: bool)
        ensures
            r == Self::is_empty_spec(options@),
    {
        proof {
            crate::json::lemma_views_of(options.history_items@);
        }
        options.system_prompt.is_none() && options.tools.len() == 0
            && options.tool_execution.is_none() && options.session_id.is_none()
            && options.mode.is_none() && options.history_items.len() == 0
            && options.developer_instructions.is_none() && options.user_instructions.is_none()
            && options.environment_context.is_none() && options.turn_context.is_none()
            && options.context_window.is_none() && options.compact.is_none()
            && options.fork_user_message_index.is_none() && options.context_ledger.is_none()
            && options.responses.is_none()
    }
}

// ---------------------------------------------------------------------------
// Submissions.
// ---------------------------------------------------------------------------

pub enum ReviewDecision {
    Approved,
    ApprovedForSession,
    Denied,
    Abort,
}

impl View for ReviewDecision {
    type V = ReviewDecision;

    open spec fn view(&self) -> ReviewDecision {
        *self
    }
}

impl Clone for ReviewDecision {
    fn clone(&self) -> (r: Self)
        ensures
            r == *self,
    {
        match self {
            ReviewDecision::Approved => ReviewDecision::Approved,
            ReviewDecision::ApprovedForSession => ReviewDecision::ApprovedForSession,
            ReviewDecision::Denied => ReviewDecision::Denied,
            ReviewDecision::Abort => ReviewDecision::Abort,
        }
    }
}

impl Default for ReviewDecision {
    fn default() -> (r: Self)
        ensures
            r == ReviewDecision::Denied,
    {
        ReviewDecision::Denied
    }
}

pub enum Op {
    UserTurn { items: Vec<InputItem>, options: UserTurnOptions },
    Interrupt,
    Shutdown,
    ExecApproval { id: String, decision: ReviewDecision },
    PatchApproval { id: String, decision: ReviewDecision },
}

pub enum OpView {
    UserTurn { items: Seq<InputItemView>, options: UserTurnOptionsView },
    Interrupt,
    Shutdown,
    ExecApproval { id: Seq<char>, decision: ReviewDecision },
    PatchApproval { id: Seq<char>, decision: ReviewDecision },
}

impl View for Op {
    type V = OpView;

    open spec fn view(&self) -> OpView {
        match self {
            Op::UserTurn { items, options } => OpView::UserTurn {
                items: input_item_views(items@),
                options: options@,
            },
            Op::Interrupt => OpView::Interrupt,
            Op::Shutdown => OpView::Shutdown,
            Op::ExecApproval { id, decision } => OpView::ExecApproval {
                id: id@,
                decision: *decision,
            },
            Op::PatchApproval { id, decision } => OpView::PatchApproval {
                id: id@,
                decision: *decision,
            },
        }
    }
}

pub struct Submission {
    pub id: String,
    pub op: Op,
}

pub struct SubmissionView {
    pub id: Seq<char>,
    pub op: OpView,
}

impl View for Submission {
    type V = SubmissionView;

    open spec fn view(&self) -> SubmissionView {
        SubmissionView { id: self.id@, op: self.op@ }
    }
}

// ---------------------------------------------------------------------------
// Events.
// ---------------------------------------------------------------------------

pub struct SessionConfiguredEvent {
    pub session_id: String,
}

pub struct TaskStartedEvent {
    pub model_context_window: Option<u64>,
}

pub struct ModelRoundEvent {
    pub seq: u64,
    pub round: u64,
    pub function_calls_count: u64,
    pub reasoning_count: u64,
    pub history_items_count: u64,
    pub has_output_text: bool,
    pub finish_reason: Option<String>,
    pub response_status: Option<String>,
    pub response_incomplete_reason: Option<String>,
    pub response_id: Option<String>,
    pub input_tokens: Option<u64>,
    pub output_tokens: Option<u64>,
    pub total_tokens: Option<u64>,
    pub estimated_tokens_in_context_window: Option<u64>,
    pub estimated_tokens_compactable: Option<u64>,
    pub context_usage_percent: Option<u64>,
    pub max_input_tokens: Option<u64>,
    pub threshold_percent: Option<u64>,
}

pub struct ToolCallEvent {
    pub seq: u64,
    pub call_id: String,
    pub tool_name: String,
    pub input: JsonValue,
}

pub struct ToolResultEvent {
    pub seq: u64,
    pub call_id: String,
    pub tool_name: String,
    pub output: JsonValue,
    pub duration_ms: u64,
}

pub struct ToolErrorEvent {
    pub seq: u64,
    pub call_id: String,
    pub tool_name: String,
    pub error: String,
    pub duration_ms: u64,
}

pub struct TaskCompleteEvent {
    pub last_agent_message: Option<String>,
    pub metadata_json: Option<String>,
}

pub enum TurnAbortReason {
    UserInterrupt,
    TaskReplaced,
    Shutdown,
}

pub struct TurnAbortedEvent {
    pub reason: TurnAbortReason,
}

pub struct ErrorEvent {
    pub message: String,
}

pub enum EventMsg {
    SessionConfigured(SessionConfiguredEvent),
    TaskStarted(TaskStartedEvent),
    ModelRound(ModelRoundEvent),
    ToolCall(ToolCallEvent),
    ToolResult(ToolResultEvent),
    ToolError(ToolErrorEvent),
    TaskComplete(TaskCompleteEvent),
    TurnAborted(TurnAbortedEvent),
    ShutdownComplete,
    Error(ErrorEvent),
}

pub struct Event {
    pub id: String,
    pub msg: EventMsg,
}

pub struct ModelRoundEventView {
    pub seq: u64,
    pub round: u64,
    pub function_calls_count: u64,
    pub reasoning_count: u64,
    pub history_items_count: u64,
    pub has_output_text: bool,
    pub finish_reason: Option<Seq<char>>,
    pub response_status: Option<Seq<char>>,
    pub response_incomplete_reason: Option<Seq<char>>,
    pub response_id: Option<Seq<char>>,
    pub input_tokens: Option<u64>,
    pub output_tokens: Option<u64>,
    pub total_tokens: Option<u64>,
    pub estimated_tokens_in_context_window: Option<u64>,
    pub estimated_tokens_compactable: Option<u64>,
    pub context_usage_percent: Option<u64>,
    pub max_input_tokens: Option<u64>,
    pub threshold_percent: Option<u64>,
}

impl View for ModelRoundEvent {
    type V = ModelRoundEventView;

    open spec fn view(&self) -> ModelRoundEventView {
        ModelRoundEventView {
            seq: self.seq,
            round: self.round,
            function_calls_count: self.function_calls_count,
            reasoning_count: self.reasoning_count,
            history_items_count: self.history_items_count,
            has_output_text: self.has_output_text,
            finish_reason: ov(self.finish_reason),
            response_status: ov(self.response_status),
            response_incomplete_reason: ov(self.response_incomplete_reason),
            response_id: ov(self.response_id),
            input_tokens: self.input_tokens,
            output_tokens: self.output_tokens,
            total_tokens: self.total_tokens,
            estimated_tokens_in_context_window: self.estimated_tokens_in_context_window,
            estimated_tokens_compactable: self.estimated_tokens_compactable,
            context_usage_percent: self.context_usage_percent,
            max_input_tokens: self.max_input_tokens,
            threshold_percent: self.threshold_percent,
        }
    }
}

pub enum EventMsgView {
    SessionConfigured { session_id: Seq<char> },
    TaskStarted { model_context_window: Option<u64> },
    ModelRound(ModelRoundEventView),
    ToolCall { seq: u64, call_id: Seq<char>, tool_name: Seq<char>, input: Json },
    ToolResult {
        seq: u64,
        call_id: Seq<char>,
        tool_name: Seq<char>,
        output: Json,
        duration_ms: u64,
    },
    ToolError {
        seq: u64,
        call_id: Seq<char>,
        tool_name: Seq<char>,
        error: Seq<char>,
        duration_ms: u64,
    },
    TaskComplete { last_agent_message: Option<Seq<char>>, metadata_json: Option<Seq<char>> },
    TurnAborted { reason: TurnAbortReason },
    ShutdownComplete,
    Error { message: Seq<char> },
}

impl View for EventMsg {
    type V = EventMsgView;

    open spec fn view(&self) -> EventMsgView {
        match self {
            EventMsg::SessionConfigured(e) => EventMsgView::SessionConfigured {
                session_id: e.session_id@,
            },
            EventMsg::TaskStarted(e) => EventMsgView::TaskStarted {
                model_context_window: e.model_context_window,
            },
            EventMsg::ModelRound(e) => EventMsgView::ModelRound(e@),
            EventMsg::ToolCall(e) => EventMsgView::ToolCall {
                seq: e.seq,
                call_id: e.call_id@,
                tool_name: e.tool_name@,
                input: e.input@,
            },
            EventMsg::ToolResult(e) => EventMsgView::ToolResult {
                seq: e.seq,
                call_id: e.call_id@,
                tool_name: e.tool_name@,
                output: e.output@,
                duration_ms: e.duration_ms,
            },
            EventMsg::ToolError(e) => EventMsgView::ToolError {
                seq: e.seq,
                call_id: e.call_id@,
                tool_name: e.tool_name@,
                error: e.error@,
                duration_ms: e.duration_ms,
            },
            EventMsg::TaskComplete(e) => EventMsgView::TaskComplete {
                last_agent_message: ov(e.last_agent_message),
                metadata_json: ov(e.metadata_json),
            },
            EventMsg::TurnAborted(e) => EventMsgView::TurnAborted { reason: e.reason },
            EventMsg::ShutdownComplete => EventMsgView::ShutdownComplete,
            EventMsg::Error(e) => EventMsgView::Error { message: e.message@ },
        }
    }
}

pub struct EventView {
    pub id: Seq<char>,
    pub msg: EventMsgView,
}

impl View for Event {
    type V = EventView;

    open spec fn view(&self) -> EventView {
        EventView { id: self.id@, msg: self.msg@ }
    }
}

} // verus!
