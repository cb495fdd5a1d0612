//! The agent: the conversation it keeps and the turn-taking that decides, event by
//! event, what to ask of the model, which command to run, what to tell the front end
//! and when a task is over. The caller performs each command (asking the model,
//! running a shell command) and hands the outcome back as the next event.

use vstd::prelude::*;
use crate::env::{ExecutionResult, ExecutionResultView, LocalEnvironment};
use crate::model::{
    actions_view, copy_messages, messages_view, parsed_actions, Action, ActionView, Message,
    MessageRole, MessageView, OpenAIModel,
};
use crate::text::{decimal, decimal_text};

verus! {

/// What the agent tells the front end.
#[derive(Debug, PartialEq, Eq)]
pub enum AgentEvent {
    /// A piece of the reply, as it streams in.
    TextDelta(String),
    /// An action of the reply is about to be carried out.
    ActionStarted(Action),
    /// A command ran, with this result.
    ActionFinished(Action, ExecutionResult),
    /// The conversation was forgotten.
    ConversationReset,
    /// Something went wrong; the task ends.
    Error(String),
    /// The task is over.
    TaskFinished,
}

/// An agent event as a mathematical value.
#[verifier::ext_equal]
pub enum AgentEventView {
    TextDelta(Seq<char>),
    ActionStarted(ActionView),
    ActionFinished(ActionView, ExecutionResultView),
    ConversationReset,
    Error(Seq<char>),
    TaskFinished,
}

impl View for AgentEvent {
    type V = AgentEventView;

    open spec fn view(&self) -> AgentEventView {
        match self {
            AgentEvent::TextDelta(t) => AgentEventView::TextDelta(t@),
            AgentEvent::ActionStarted(a) => AgentEventView::ActionStarted(a@),
            AgentEvent::ActionFinished(a, r) => AgentEventView::ActionFinished(a@, r@),
            AgentEvent::ConversationReset => AgentEventView::ConversationReset,
            AgentEvent::Error(e) => AgentEventView::Error(e@),
            AgentEvent::TaskFinished => AgentEventView::TaskFinished,
        }
    }
}

/// The views of a sequence of events.
pub open spec fn events_view(es: Seq<AgentEvent>) -> Seq<AgentEventView> {
    es.map_values(|e: AgentEvent| e@)
}

/// What the caller reports to the agent.
#[derive(Debug, PartialEq, Eq)]
pub enum TaskEvent {
    /// The user gives a task.
    Start(String),
    /// The model could not be asked; the text says why.
    ModelFailed(String),
    /// A piece of the reply arrived.
    Delta(String),
    /// The reply broke off; the text says why.
    StreamFailed(String),
    /// The reply is complete.
    ReplyEnded,
    /// The command that the agent asked for ran, with this result.
    CommandFinished(ExecutionResult),
}

/// A task event as a mathematical value.
#[verifier::ext_equal]
pub enum TaskEventView {
    Start(Seq<char>),
    ModelFailed(Seq<char>),
    Delta(Seq<char>),
    StreamFailed(Seq<char>),
    ReplyEnded,
    CommandFinished(ExecutionResultView),
}

impl View for TaskEvent {
    type V = TaskEventView;

    open spec fn view(&self) -> TaskEventView {
        match self {
            TaskEvent::Start(t) => TaskEventView::Start(t@),
            TaskEvent::ModelFailed(e) => TaskEventView::ModelFailed(e@),
            TaskEvent::Delta(t) => TaskEventView::Delta(t@),
            TaskEvent::StreamFailed(e) => TaskEventView::StreamFailed(e@),
            TaskEvent::ReplyEnded => TaskEventView::ReplyEnded,
            TaskEvent::CommandFinished(r) => TaskEventView::CommandFinished(r@),
        }
    }
}

/// What the agent asks the caller to do next.
#[derive(Debug, PartialEq, Eq)]
pub enum TaskCommand {
    /// Ask the model to continue this conversation, and report the reply.
    Query(Vec<Message>),
    /// Keep reporting the reply that is streaming in.
    Receive,
    /// Run this shell command and report its result.
    Execute(String),
    /// Nothing: no task is running.
    Stop,
}

/// A task command as a mathematical value.
#[verifier::ext_equal]
pub enum TaskCommandView {
    Query(Seq<MessageView>),
    Receive,
    Execute(Seq<char>),
    Stop,
}

impl View for TaskCommand {
    type V = TaskCommandView;

    open spec fn view(&self) -> TaskCommandView {
        match self {
            TaskCommand::Query(ms) => TaskCommandView::Query(messages_view(ms@)),
            TaskCommand::Receive => TaskCommandView::Receive,
            TaskCommand::Execute(c) => TaskCommandView::Execute(c@),
            TaskCommand::Stop => TaskCommandView::Stop,
        }
    }
}

/// Where a task stands.
enum Phase {
    /// No task is running.
    Idle,
    /// The reply is streaming in; this much has arrived.
    Receiving(String),
    /// The actions of the last reply are being carried out; the command of the one at
    /// this index is running.
    Running(Vec<Action>, usize),
}

/// Where a task stands, as a mathematical value.
#[verifier::ext_equal]
pub enum PhaseView {
    Idle,
    Receiving(Seq<char>),
    Running(Seq<ActionView>, int),
}

impl View for Phase {
    type V = PhaseView;

    closed spec fn view(&self) -> PhaseView {
        match self {
            Phase::Idle => PhaseView::Idle,
            Phase::Receiving(t) => PhaseView::Receiving(t@),
            Phase::Running(a, i) => PhaseView::Running(actions_view(a@), *i as int),
        }
    }
}

/// The agent's state as a mathematical value.
#[verifier::ext_equal]
pub struct AgentState {
    pub messages: Seq<MessageView>,
    pub system_prompt: Seq<char>,
    pub phase: PhaseView,
}

/// The outcome of one event: the next state, what the front end is told, in order,
/// and what the caller is asked to do.
#[verifier::ext_equal]
pub struct Step {
    pub state: AgentState,
    pub events: Seq<AgentEventView>,
    pub command: TaskCommandView,
}

/// The instructions that open every conversation.
pub const SYSTEM_PROMPT: &'static str = "You are a helpful AI software engineer. \
    You can use bash commands by wrapping them in ```bash code blocks. \
    To reset the conversation, use the command [[RESET]]. \
    Always explain your reasoning before executing a command.";

/// The message that opens a conversation.
pub open spec fn system_message(prompt: Seq<char>) -> MessageView {
    MessageView { role: MessageRole::System, content: prompt }
}

/// The message that reports a command's result back to the model.
pub open spec fn observation_text(command: Seq<char>, r: ExecutionResultView) -> Seq<char> {
    "Command: "@ + command + "\nReturn code: "@ + decimal(r.returncode as int) + "\nOutput:\n"@
        + r.output
}

/// The report of a failed request to the model.
pub open spec fn model_error_text(reason: Seq<char>) -> Seq<char> {
    "Model error: "@ + reason
}

/// The report of a reply that broke off.
pub open spec fn stream_error_text(reason: Seq<char>) -> Seq<char> {
    "Stream error: "@ + reason
}

/// A state that the agent can be in: the conversation opens with the system prompt
/// and holds no other system message, and a running action is a command.
pub open spec fn well_formed(st: AgentState) -> bool {
    &&& st.messages.len() >= 1
    &&& st.messages[0] == system_message(st.system_prompt)
    &&& forall|k: int| 0 < k < st.messages.len() ==> (#[trigger] st.messages[k]).role != MessageRole::System
    &&& match st.phase {
        PhaseView::Running(a, i) => 0 <= i < a.len() && a[i] is Bash,
        _ => true,
    }
}

/// What the caller is asked to do while nothing new has happened.
pub open spec fn awaited(phase: PhaseView) -> TaskCommandView {
    match phase {
        PhaseView::Idle => TaskCommandView::Stop,
        PhaseView::Receiving(_) => TaskCommandView::Receive,
        PhaseView::Running(a, i) => match a[i] {
            ActionView::Bash(c) => TaskCommandView::Execute(c),
            ActionView::Reset => TaskCommandView::Stop,
        },
    }
}

/// Goes on with the actions of a reply from index `i` on, with the conversation of
/// `st`. A reset forgets the conversation and ends the task; a command is started;
/// when all are done the model is asked again, unless the reply asked for nothing,
/// which ends the task.
pub open spec fn continue_actions(st: AgentState, actions: Seq<ActionView>, i: int) -> Step {
    if i >= actions.len() {
        if actions.len() == 0 {
            Step {
                state: AgentState { phase: PhaseView::Idle, ..st },
                events: seq![AgentEventView::TaskFinished],
                command: TaskCommandView::Stop,
            }
        } else {
            Step {
                state: AgentState { phase: PhaseView::Receiving(Seq::empty()), ..st },
                events: Seq::empty(),
                command: TaskCommandView::Query(st.messages),
            }
        }
    } else {
        match actions[i] {
            ActionView::Reset => Step {
                state: AgentState {
                    messages: seq![system_message(st.system_prompt)],
                    system_prompt: st.system_prompt,
                    phase: PhaseView::Idle,
                },
                events: seq![
                    AgentEventView::ActionStarted(ActionView::Reset),
                    AgentEventView::ConversationReset,
                    AgentEventView::TaskFinished,
                ],
                command: TaskCommandView::Stop,
            },
            ActionView::Bash(c) => Step {
                state: AgentState { phase: PhaseView::Running(actions, i), ..st },
                events: seq![AgentEventView::ActionStarted(ActionView::Bash(c))],
                command: TaskCommandView::Execute(c),
            },
        }
    }
}

/// The agent's answer to one event in one state. An event that the state does not
/// wait for changes nothing.
pub open spec fn next_step(st: AgentState, ev: TaskEventView) -> Step {
    match (st.phase, ev) {
        (PhaseView::Idle, TaskEventView::Start(task)) => {
            let messages = st.messages.push(MessageView { role: MessageRole::User, content: task });
            Step {
                state: AgentState {
                    messages,
                    system_prompt: st.system_prompt,
                    phase: PhaseView::Receiving(Seq::empty()),
                },
                events: Seq::empty(),
                command: TaskCommandView::Query(messages),
            }
        },
        (PhaseView::Receiving(reply), TaskEventView::Delta(t)) => Step {
            state: AgentState { phase: PhaseView::Receiving(reply + t), ..st },
            events: seq![AgentEventView::TextDelta(t)],
            command: TaskCommandView::Receive,
        },
        (PhaseView::Receiving(_), TaskEventView::ModelFailed(e)) => Step {
            state: AgentState { phase: PhaseView::Idle, ..st },
            events: seq![
                AgentEventView::Error(model_error_text(e)),
                AgentEventView::TaskFinished,
            ],
            command: TaskCommandView::Stop,
        },
        (PhaseView::Receiving(_), TaskEventView::StreamFailed(e)) => Step {
            state: AgentState { phase: PhaseView::Idle, ..st },
            events: seq![
                AgentEventView::Error(stream_error_text(e)),
                AgentEventView::TaskFinished,
            ],
            command: TaskCommandView::Stop,
        },
        (PhaseView::Receiving(reply), TaskEventView::ReplyEnded) => {
            let messages = st.messages.push(
                MessageView { role: MessageRole::Assistant, content: reply },
            );
            continue_actions(
                AgentState { messages, ..st },
                parsed_actions(reply),
                0,
            )
        },
        (PhaseView::Running(actions, i), TaskEventView::CommandFinished(r)) => match actions[i] {
            ActionView::Bash(c) => {
                let messages = st.messages.push(
                    MessageView { role: MessageRole::User, content: observation_text(c, r) },
                );
                let rest = continue_actions(AgentState { messages, ..st }, actions, i + 1);
                Step {
                    state: rest.state,
                    events: seq![AgentEventView::ActionFinished(ActionView::Bash(c), r)]
                        + rest.events,
                    command: rest.command,
                }
            },
            ActionView::Reset => Step { state: st, events: Seq::empty(), command: awaited(st.phase) },
        },
        _ => Step { state: st, events: Seq::empty(), command: awaited(st.phase) },
    }
}


/// The text that reports a command's result back to the model.
pub fn observation(command: &str, result: &ExecutionResult) -> (s: String)
    ensures
        s@ == observation_text(command@, result@),
{
    let mut s = String::from_str("Command: ");
    s.append(command);
    s.append("\nReturn code: ");
    let code = decimal_text(result.returncode);
    s.append(code.as_str());
    s.append("\nOutput:\n");
    s.append(result.output.as_str());
    s
}

/// `prefix` followed by `reason`.
fn prefixed(prefix: &str, reason: &str) -> (s: String)
    ensures
        s@ == prefix@ + reason@,
{
    String::from_str(prefix).concat(reason)
}

/// The agent: a model, the place where commands run, the conversation so far and
/// where the current task stands.
pub struct Agent {
    model: OpenAIModel,
    env: LocalEnvironment,
    messages: Vec<Message>,
    system_prompt: String,
    phase: Phase,
}

impl Agent {
    /// Every agent is well-formed; see [`well_formed`].
    #[verifier::type_invariant]
    spec fn is_well_formed(self) -> bool {
        well_formed(self.state())
    }

    /// The agent's state as a mathematical value.
    pub closed spec fn state(&self) -> AgentState {
        AgentState {
            messages: messages_view(self.messages@),
            system_prompt: self.system_prompt@,
            phase: self.phase@,
        }
    }

    /// The model that the agent asks.
    pub closed spec fn model_spec(&self) -> OpenAIModel {
        self.model
    }

    /// Where the agent's commands run.
    pub closed spec fn env_spec(&self) -> LocalEnvironment {
        self.env
    }

    /// An agent with no task, whose conversation holds only the system prompt.
    pub fn new(model: OpenAIModel, env: LocalEnvironment) -> (a: Self)
        ensures
            a.state() == (AgentState {
                messages: seq![system_message(SYSTEM_PROMPT@)],
                system_prompt: SYSTEM_PROMPT@,
                phase: PhaseView::Idle,
            }),
            well_formed(a.state()),
            a.model_spec() == model,
            a.env_spec() == env,
    {
        let system_prompt = String::from_str(SYSTEM_PROMPT);
        let mut messages: Vec<Message> = Vec::new();
        messages.push(Message { role: MessageRole::System, content: String::from_str(SYSTEM_PROMPT) });
        let a = Agent { model, env, messages, system_prompt, phase: Phase::Idle };
        assert(a.state().messages =~= seq![system_message(SYSTEM_PROMPT@)]);
        a
    }

    /// The model that the agent asks.
    pub fn model(&self) -> (m: &OpenAIModel)
        ensures
            *m == self.model_spec(),
    {
        &self.model
    }

    /// Where the agent's commands run.
    pub fn env(&self) -> (e: &LocalEnvironment)
        ensures
            *e == self.env_spec(),
    {
        &self.env
    }

    /// The conversation so far.
    pub fn messages(&self) -> (ms: &Vec<Message>)
        ensures
            messages_view(ms@) == self.state().messages,
    {
        &self.messages
    }

    /// The instructions that open the conversation.
    pub fn system_prompt(&self) -> (p: &str)
        ensures
            p@ == self.state().system_prompt,
    {
        self.system_prompt.as_str()
    }

    /// Whether a task is running.
    pub fn is_busy(&self) -> (b: bool)
        ensures
            b == !(self.state().phase is Idle),
    {
        match self.phase {
            Phase::Idle => false,
            _ => true,
        }
    }

    /// Appends a message to the conversation.
    fn record(&mut self, role: MessageRole, content: String)
        requires
            role != MessageRole::System,
            !(old(self).state().phase is Running),
        ensures
            final(self).state() == (AgentState {
                messages: old(self).state().messages.push(MessageView { role, content: content@ }),
                ..old(self).state()
            }),
            final(self).model_spec() == old(self).model_spec(),
            final(self).env_spec() == old(self).env_spec(),
    {
        proof {
            use_type_invariant(&*self);
        }
        let mut messages: Vec<Message> = Vec::new();
        messages.push(Message { role: MessageRole::System, content: self.system_prompt.clone() });
        std::mem::swap(&mut messages, &mut self.messages);
        let ghost before = messages_view(messages@);
        let ghost text = content@;
        messages.push(Message { role, content });
        proof {
            let after = messages_view(messages@);
            assert(after =~= before.push(MessageView { role, content: text }));
            assert forall|k: int| 0 < k < after.len() implies (#[trigger] after[k]).role
                != MessageRole::System by {
                if k < before.len() {
                    assert(after[k] == before[k]);
                }
            }
        }
        self.messages = messages;
        assert(messages_view(self.messages@) =~= messages_view(old(self).messages@).push(
            MessageView { role, content: content@ },
        ));
    }

    /// Forgets the conversation: only the system prompt is left.
    fn forget(&mut self)
        ensures
            final(self).state() == (AgentState {
                messages: seq![system_message(old(self).state().system_prompt)],
                ..old(self).state()
            }),
            final(self).model_spec() == old(self).model_spec(),
            final(self).env_spec() == old(self).env_spec(),
    {
        proof {
            use_type_invariant(&*self);
        }
        let prompt = self.system_prompt.clone();
        let mut fresh: Vec<Message> = Vec::new();
        fresh.push(Message { role: MessageRole::System, content: prompt });
        self.messages = fresh;
        assert(messages_view(self.messages@) =~= seq![
            system_message(old(self).state().system_prompt),
        ]);
    }

    /// Goes on with the actions of a reply from index `i` on; see [`continue_actions`].
    fn carry_on(&mut self, actions: Vec<Action>, i: usize, events: &mut Vec<AgentEvent>) -> (cmd:
        TaskCommand)
        requires
            i <= actions@.len(),
        ensures
            ({
                let s = continue_actions(old(self).state(), actions_view(actions@), i as int);
                &&& final(self).state() == s.state
                &&& events_view(final(events)@) == events_view(old(events)@) + s.events
                &&& cmd@ == s.command
            }),
            final(self).model_spec() == old(self).model_spec(),
            final(self).env_spec() == old(self).env_spec(),
    {
        proof {
            use_type_invariant(&*self);
        }
        let ghost st = self.state();
        let ghost before = events_view(events@);
        if i >= actions.len() {
            if actions.len() == 0 {
                self.phase = Phase::Idle;
                events.push(AgentEvent::TaskFinished);
                assert(events_view(events@) =~= before + seq![AgentEventView::TaskFinished]);
                TaskCommand::Stop
            } else {
                self.phase = Phase::Receiving(String::new());
                assert(events_view(events@) =~= before + Seq::<AgentEventView>::empty());
                TaskCommand::Query(copy_messages(&self.messages))
            }
        } else {
            let command = match &actions[i] {
                Action::Bash(c) => Some(c.clone()),
                Action::Reset => None,
            };
            match command {
                None => {
                    self.forget();
                    self.phase = Phase::Idle;
                    events.push(AgentEvent::ActionStarted(Action::Reset));
                    events.push(AgentEvent::ConversationReset);
                    events.push(AgentEvent::TaskFinished);
                    assert(events_view(events@) =~= before + seq![
                        AgentEventView::ActionStarted(ActionView::Reset),
                        AgentEventView::ConversationReset,
                        AgentEventView::TaskFinished,
                    ]);
                    TaskCommand::Stop
                },
                Some(c) => {
                    let started = c.clone();
                    events.push(AgentEvent::ActionStarted(Action::Bash(started)));
                    assert(events_view(events@) =~= before + seq![
                        AgentEventView::ActionStarted(ActionView::Bash(c@)),
                    ]);
                    self.phase = Phase::Running(actions, i);
                    TaskCommand::Execute(c)
                },
            }
        }
    }

    /// Answers one event; see [`next_step`]. Returns what the front end is told, in
    /// order, and what the caller is to do next.
    pub fn step(&mut self, event: TaskEvent) -> (out: (Vec<AgentEvent>, TaskCommand))
        ensures
            well_formed(old(self).state()),
            ({
                let s = next_step(old(self).state(), event@);
                &&& final(self).state() == s.state
                &&& events_view(out.0@) == s.events
                &&& out.1@ == s.command
            }),
            well_formed(final(self).state()),
            final(self).model_spec() == old(self).model_spec(),
            final(self).env_spec() == old(self).env_spec(),
    {
        proof {
            use_type_invariant(&*self);
        }
        let ghost st = self.state();
        let mut events: Vec<AgentEvent> = Vec::new();
        let mut phase = Phase::Idle;
        std::mem::swap(&mut phase, &mut self.phase);
        let cmd = match (phase, event) {
            (Phase::Idle, TaskEvent::Start(task)) => {
                self.record(MessageRole::User, task);
                self.phase = Phase::Receiving(String::new());
                TaskCommand::Query(copy_messages(&self.messages))
            },
            (Phase::Receiving(reply), TaskEvent::Delta(t)) => {
                let mut reply = reply;
                reply.append(t.as_str());
                self.phase = Phase::Receiving(reply);
                events.push(AgentEvent::TextDelta(t));
                assert(events_view(events@) =~= seq![AgentEventView::TextDelta(t@)]);
                TaskCommand::Receive
            },
            (Phase::Receiving(_), TaskEvent::ModelFailed(e)) => {
                events.push(AgentEvent::Error(prefixed("Model error: ", e.as_str())));
                events.push(AgentEvent::TaskFinished);
                assert(events_view(events@) =~= seq![
                    AgentEventView::Error(model_error_text(e@)),
                    AgentEventView::TaskFinished,
                ]);
                TaskCommand::Stop
            },
            (Phase::Receiving(_), TaskEvent::StreamFailed(e)) => {
                events.push(AgentEvent::Error(prefixed("Stream error: ", e.as_str())));
                events.push(AgentEvent::TaskFinished);
                assert(events_view(events@) =~= seq![
                    AgentEventView::Error(stream_error_text(e@)),
                    AgentEventView::TaskFinished,
                ]);
                TaskCommand::Stop
            },
            (Phase::Receiving(reply), TaskEvent::ReplyEnded) => {
                let actions = crate::model::read_actions(reply.as_str());
                self.record(MessageRole::Assistant, reply);
                assert(events_view(events@) =~= Seq::<AgentEventView>::empty());
                self.carry_on(actions, 0, &mut events)
            },
            (Phase::Running(actions, i), TaskEvent::CommandFinished(r)) => {
                let count = actions.len();
                assert(i < count);
                let command = match &actions[i] {
                    Action::Bash(c) => Some(c.clone()),
                    Action::Reset => None,
                };
                match command {
                    Some(c) => {
                        let text = observation(c.as_str(), &r);
                        events.push(AgentEvent::ActionFinished(Action::Bash(c), r));
                        self.record(MessageRole::User, text);
                        self.carry_on(actions, i + 1, &mut events)
                    },
                    None => {
                        self.phase = Phase::Running(actions, i);
                        TaskCommand::Stop
                    },
                }
            },
            (p, _) => {
                let cmd = match &p {
                    Phase::Idle => TaskCommand::Stop,
                    Phase::Receiving(_) => TaskCommand::Receive,
                    Phase::Running(actions, i) => match &actions[*i] {
                        Action::Bash(c) => TaskCommand::Execute(c.clone()),
                        Action::Reset => TaskCommand::Stop,
                    },
                };
                self.phase = p;
                assert(events_view(events@) =~= Seq::<AgentEventView>::empty());
                cmd
            },
        };
        proof {
            lemma_step_well_formed(st, event@);
        }
        (events, cmd)
    }
}

/// Every event leaves a well-formed state well-formed: the conversation still opens
/// with the system prompt, and a running action is a command.
pub proof fn lemma_step_well_formed(st: AgentState, ev: TaskEventView)
    requires
        well_formed(st),
    ensures
        well_formed(next_step(st, ev).state),
{
}


/// The task stops exactly when the caller is told to do nothing: after any event the
/// agent is idle if and only if the command is `Stop`. `TaskFinished` is reported
/// exactly when a running task stops, and then as the last event of the step.
pub proof fn lemma_finished_exactly_when_stopping(st: AgentState, ev: TaskEventView)
    requires
        well_formed(st),
    ensures
        ({
            let s = next_step(st, ev);
            &&& (s.state.phase is Idle <==> s.command is Stop)
            &&& (s.events.len() > 0 && s.events.last() is TaskFinished) <==> (!(st.phase is Idle)
                && s.state.phase is Idle)
            &&& forall|j: int| 0 <= j < s.events.len() - 1 ==> !(#[trigger] s.events[j] is TaskFinished)
        }),
{
    let s = next_step(st, ev);
    match (st.phase, ev) {
        (PhaseView::Running(actions, i), TaskEventView::CommandFinished(r)) => {
            match actions[i] {
                ActionView::Bash(c) => {
                    let messages = st.messages.push(
                        MessageView { role: MessageRole::User, content: observation_text(c, r) },
                    );
                    let rest = continue_actions(AgentState { messages, ..st }, actions, i + 1);
                    assert(s.events == seq![AgentEventView::ActionFinished(ActionView::Bash(c), r)]
                        + rest.events);
                    assert forall|j: int| 0 <= j < s.events.len() - 1 implies !(
                    #[trigger] s.events[j] is TaskFinished) by {
                        if j > 0 {
                            assert(s.events[j] == rest.events[j - 1]);
                        }
                    }
                    if rest.events.len() > 0 {
                        assert(s.events.last() == rest.events.last());
                    }
                },
                ActionView::Reset => {},
            }
        },
        _ => {},
    }
}

/// The conversation only grows, except when it is forgotten: after any event it either
/// extends the one before, with no reset reported, or holds only the system prompt
/// again, with the reset reported. The system prompt never changes.
pub proof fn lemma_conversation_grows_or_resets(st: AgentState, ev: TaskEventView)
    requires
        well_formed(st),
    ensures
        ({
            let s = next_step(st, ev);
            let reset_reported = exists|j: int|
                0 <= j < s.events.len() && #[trigger] s.events[j] is ConversationReset;
            &&& s.state.system_prompt == st.system_prompt
            &&& {
                ||| {
                    &&& st.messages.len() <= s.state.messages.len()
                    &&& s.state.messages.subrange(0, st.messages.len() as int) == st.messages
                    &&& !reset_reported
                }
                ||| {
                    &&& s.state.messages == seq![system_message(st.system_prompt)]
                    &&& reset_reported
                }
            }
        }),
{
    let s = next_step(st, ev);
    match (st.phase, ev) {
        (PhaseView::Running(actions, i), TaskEventView::CommandFinished(r)) => {
            match actions[i] {
                ActionView::Bash(c) => {
                    let messages = st.messages.push(
                        MessageView { role: MessageRole::User, content: observation_text(c, r) },
                    );
                    let rest = continue_actions(AgentState { messages, ..st }, actions, i + 1);
                    assert(s.events == seq![AgentEventView::ActionFinished(ActionView::Bash(c), r)]
                        + rest.events);
                    if i + 1 < actions.len() && actions[i + 1] is Reset {
                        assert(s.events[2] is ConversationReset);
                    } else {
                        assert(messages.subrange(0, st.messages.len() as int) =~= st.messages);
                        assert forall|j: int| 0 <= j < s.events.len() implies !(
                        #[trigger] s.events[j] is ConversationReset) by {
                            if j > 0 {
                                assert(s.events[j] == rest.events[j - 1]);
                            }
                        }
                    }
                },
                ActionView::Reset => {
                    assert(s.state.messages.subrange(0, st.messages.len() as int) =~= st.messages);
                },
            }
        },
        (PhaseView::Receiving(reply), TaskEventView::ReplyEnded) => {
            let messages = st.messages.push(
                MessageView { role: MessageRole::Assistant, content: reply },
            );
            let actions = parsed_actions(reply);
            if actions.len() > 0 && actions[0] is Reset {
                assert(s.events[1] is ConversationReset);
            } else {
                assert(messages.subrange(0, st.messages.len() as int) =~= st.messages);
            }
        },
        (PhaseView::Idle, TaskEventView::Start(task)) => {
            assert(s.state.messages.subrange(0, st.messages.len() as int) =~= st.messages);
        },
        _ => {
            assert(s.state.messages.subrange(0, st.messages.len() as int) =~= st.messages);
        },
    }
}


/// The state after a sequence of events, one after the other.
pub open spec fn after_events(st: AgentState, evs: Seq<TaskEventView>) -> AgentState
    decreases evs.len(),
{
    if evs.len() == 0 {
        st
    } else {
        after_events(next_step(st, evs[0]).state, evs.drop_first())
    }
}

/// The texts one after the other.
pub open spec fn concat_texts(ts: Seq<Seq<char>>) -> Seq<char>
    decreases ts.len(),
{
    if ts.len() == 0 {
        Seq::empty()
    } else {
        ts[0] + concat_texts(ts.drop_first())
    }
}

/// The events that deliver these pieces of a reply.
pub open spec fn deltas(ts: Seq<Seq<char>>) -> Seq<TaskEventView> {
    ts.map_values(|t: Seq<char>| TaskEventView::Delta(t))
}

/// The reply is what streamed in: while a reply streams, its pieces add up, in order,
/// to what the agent holds as the reply (which becomes the assistant's message when it
/// ends), and nothing else changes.
pub proof fn lemma_deltas_accumulate(st: AgentState, reply: Seq<char>, ts: Seq<Seq<char>>)
    requires
        st.phase == PhaseView::Receiving(reply),
    ensures
        after_events(st, deltas(ts)) == (AgentState {
            phase: PhaseView::Receiving(reply + concat_texts(ts)),
            ..st
        }),
    decreases ts.len(),
{
    if ts.len() == 0 {
        assert(reply + concat_texts(ts) =~= reply);
    } else {
        let next = AgentState { phase: PhaseView::Receiving(reply + ts[0]), ..st };
        assert(deltas(ts).drop_first() =~= deltas(ts.drop_first()));
        lemma_deltas_accumulate(next, reply + ts[0], ts.drop_first());
        assert(reply + ts[0] + concat_texts(ts.drop_first()) =~= reply + concat_texts(ts));
    }
}


/// The events reported over a sequence of events, in order.
pub open spec fn run_events(st: AgentState, evs: Seq<TaskEventView>) -> Seq<AgentEventView>
    decreases evs.len(),
{
    if evs.len() == 0 {
        Seq::empty()
    } else {
        let s = next_step(st, evs[0]);
        s.events + run_events(s.state, evs.drop_first())
    }
}

/// The events arrive while a task runs: before each event after the first, the agent
/// is not idle.
pub open spec fn runs_throughout(st: AgentState, evs: Seq<TaskEventView>) -> bool {
    forall|k: int| 0 < k < evs.len() ==> !(#[trigger] after_events(st, evs.take(k)).phase is Idle)
}

/// `TaskFinished` is reported at most once, as the last event, and exactly when the
/// agent ends up idle.
pub open spec fn finishes_once(out: Seq<AgentEventView>, end: AgentState) -> bool {
    &&& (out.len() > 0 && out.last() is TaskFinished) <==> end.phase is Idle
    &&& forall|j: int| 0 <= j < out.len() - 1 ==> !(#[trigger] out[j] is TaskFinished)
}

/// Running on after the first of a sequence of events.
proof fn lemma_runs_throughout_rest(st: AgentState, evs: Seq<TaskEventView>)
    requires
        evs.len() > 0,
        runs_throughout(st, evs),
    ensures
        runs_throughout(next_step(st, evs[0]).state, evs.drop_first()),
{
    let s0 = next_step(st, evs[0]).state;
    let rest = evs.drop_first();
    assert forall|k: int| 0 < k < rest.len() implies !(#[trigger] after_events(
        s0,
        rest.take(k),
    ).phase is Idle) by {
        assert(evs.take(k + 1)[0] == evs[0]);
        assert(evs.take(k + 1).drop_first() =~= rest.take(k));
        assert(!(after_events(st, evs.take(k + 1)).phase is Idle));
    }
}

/// While a task runs, the events reported up to any point finish it at most once, last.
proof fn lemma_running_finishes_once(st: AgentState, evs: Seq<TaskEventView>)
    requires
        well_formed(st),
        !(st.phase is Idle),
        runs_throughout(st, evs),
    ensures
        finishes_once(run_events(st, evs), after_events(st, evs)),
    decreases evs.len(),
{
    if evs.len() > 0 {
        let s0 = next_step(st, evs[0]);
        let rest = evs.drop_first();
        lemma_finished_exactly_when_stopping(st, evs[0]);
        lemma_step_well_formed(st, evs[0]);
        let out = run_events(st, evs);
        assert(out == s0.events + run_events(s0.state, rest));
        if s0.state.phase is Idle {
            if evs.len() > 1 {
                assert(evs.take(1)[0] == evs[0]);
                assert(evs.take(1).drop_first() =~= Seq::<TaskEventView>::empty());
                assert(after_events(s0.state, Seq::<TaskEventView>::empty()) == s0.state);
                assert(after_events(st, evs.take(1)) == s0.state);
                assert(!(after_events(st, evs.take(1)).phase is Idle));
            }
            assert(rest.len() == 0);
            assert(out =~= s0.events);
            assert(after_events(st, evs) == after_events(s0.state, rest));
            assert(after_events(s0.state, rest) == s0.state);
        } else {
            lemma_runs_throughout_rest(st, evs);
            lemma_running_finishes_once(s0.state, rest);
            let more = run_events(s0.state, rest);
            assert forall|j: int| 0 <= j < out.len() - 1 implies !(#[trigger] out[j] is TaskFinished) by {
                if j < s0.events.len() {
                    assert(out[j] == s0.events[j]);
                    if j == s0.events.len() - 1 {
                        assert(s0.events[j] == s0.events.last());
                    }
                } else {
                    assert(out[j] == more[j - s0.events.len()]);
                }
            }
            assert(after_events(st, evs) == after_events(s0.state, rest));
            if more.len() > 0 {
                assert(out.last() == more.last());
            } else {
                assert(out =~= s0.events);
                assert(!(after_events(s0.state, rest).phase is Idle));
                if s0.events.len() > 0 {
                    assert(!(s0.events.last() is TaskFinished));
                }
            }
        }
    }
}

/// A task finishes once: from an idle agent, over a task given by `Start` and the
/// events delivered while it runs, `TaskFinished` is reported exactly when the agent
/// ends up idle, once, and as the last event.
pub proof fn lemma_task_finishes_once(st: AgentState, evs: Seq<TaskEventView>)
    requires
        well_formed(st),
        st.phase is Idle,
        evs.len() > 0,
        evs[0] is Start,
        runs_throughout(st, evs),
    ensures
        finishes_once(run_events(st, evs), after_events(st, evs)),
{
    let s0 = next_step(st, evs[0]);
    lemma_step_well_formed(st, evs[0]);
    lemma_runs_throughout_rest(st, evs);
    lemma_running_finishes_once(s0.state, evs.drop_first());
    assert(run_events(st, evs) =~= run_events(s0.state, evs.drop_first()));
}


/// At index `k` of the reported events: a command's result comes right after the
/// start of that command, nothing comes between a command's start and its result,
/// a started reset is followed by `ConversationReset` and then `TaskFinished`, and a
/// piece of reply text comes first or right after another piece, after a command's
/// result (the model is asked again once all of a reply's commands have run) or after
/// a finished task: so a reply's text all comes before its first action starts.
pub open spec fn event_in_order(out: Seq<AgentEventView>, k: int) -> bool {
    &&& ((out[k] is TextDelta && k > 0) ==> {
        ||| out[k - 1] is TextDelta
        ||| out[k - 1] is ActionFinished
        ||| out[k - 1] is TaskFinished
    })
    &&& ((out[k] matches AgentEventView::ActionStarted(a) && a is Bash) ==> (k + 1 < out.len()
        ==> (out[k + 1] matches AgentEventView::ActionFinished(b, _) && b == out[k]->ActionStarted_0)))
    &&& (out[k] matches AgentEventView::ActionFinished(a, _) ==> {
        &&& k > 0
        &&& out[k - 1] == AgentEventView::ActionStarted(a)
        &&& a is Bash
    })
    &&& (out[k] == AgentEventView::ActionStarted(ActionView::Reset) ==> {
        &&& k + 2 < out.len()
        &&& out[k + 1] is ConversationReset
        &&& out[k + 2] is TaskFinished
    })
}

/// Every reported event is in order; see [`event_in_order`].
pub open spec fn events_in_order(out: Seq<AgentEventView>) -> bool {
    forall|k: int| 0 <= k < out.len() ==> #[trigger] event_in_order(out, k)
}

/// While a command runs, the last reported event is its start; and only then is the
/// last reported event the start of a command.
pub open spec fn start_reported(st: AgentState, out: Seq<AgentEventView>) -> bool {
    &&& match st.phase {
        PhaseView::Running(a, i) => out.len() > 0 && out.last() == AgentEventView::ActionStarted(a[i]),
        _ => true,
    }
    &&& (out.len() > 0 && (out.last() matches AgentEventView::ActionStarted(a) && a is Bash))
        ==> st.phase is Running
    &&& st.phase is Idle ==> (out.len() == 0 || out.last() is TaskFinished)
    &&& st.phase is Receiving ==> text_may_follow(out)
}

/// A piece of reply text may come next: nothing has been reported yet, or the last
/// event is a piece of text, a command's result or a finished task.
pub open spec fn text_may_follow(out: Seq<AgentEventView>) -> bool {
    ||| out.len() == 0
    ||| out.last() is TextDelta
    ||| out.last() is ActionFinished
    ||| out.last() is TaskFinished
}

/// The last event is not the start of a command.
pub open spec fn no_open_start(out: Seq<AgentEventView>) -> bool {
    out.len() > 0 ==> !(out.last() matches AgentEventView::ActionStarted(a) && a is Bash)
}

/// The shapes of what one step reports, apart from a leading command result.
pub open spec fn plain_events(e: Seq<AgentEventView>) -> bool {
    ||| e.len() == 0
    ||| e == seq![AgentEventView::TaskFinished]
    ||| (e.len() == 1 && e[0] is TextDelta)
    ||| (e.len() == 2 && e[0] is Error && e[1] is TaskFinished)
    ||| e == seq![
        AgentEventView::ActionStarted(ActionView::Reset),
        AgentEventView::ConversationReset,
        AgentEventView::TaskFinished,
    ]
    ||| (e.len() == 1 && (e[0] matches AgentEventView::ActionStarted(a) && a is Bash))
}

/// Appending plain events keeps the order.
proof fn lemma_append_plain(prefix: Seq<AgentEventView>, e: Seq<AgentEventView>)
    requires
        events_in_order(prefix),
        plain_events(e),
        e.len() > 0 ==> no_open_start(prefix),
        (e.len() > 0 && e[0] is TextDelta) ==> text_may_follow(prefix),
    ensures
        events_in_order(prefix + e),
{
    let out = prefix + e;
    assert forall|k: int| 0 <= k < out.len() implies #[trigger] event_in_order(out, k) by {
        if k < prefix.len() {
            assert(event_in_order(prefix, k));
            assert(out[k] == prefix[k]);
            if k > 0 {
                assert(out[k - 1] == prefix[k - 1]);
            }
            if prefix[k] == AgentEventView::ActionStarted(ActionView::Reset) {
                assert(out[k + 1] == prefix[k + 1]);
                assert(out[k + 2] == prefix[k + 2]);
            }
            if k + 1 < prefix.len() {
                assert(out[k + 1] == prefix[k + 1]);
            } else if e.len() > 0 {
                assert(prefix[k] == prefix.last());
            }
        } else {
            assert(out[k] == e[k - prefix.len()]);
            if k > prefix.len() {
                assert(out[k - 1] == e[k - 1 - prefix.len()]);
            } else if k > 0 {
                assert(out[k - 1] == prefix.last());
            }
            if k - prefix.len() == 0 && e.len() == 3 {
                assert(out[k + 1] == e[1]);
                assert(out[k + 2] == e[2]);
            }
        }
    }
}

/// Appending a command's result right after its start, then plain events, keeps the order.
proof fn lemma_append_finished(
    prefix: Seq<AgentEventView>,
    c: Seq<char>,
    r: ExecutionResultView,
    e: Seq<AgentEventView>,
)
    requires
        events_in_order(prefix),
        prefix.len() > 0,
        prefix.last() == AgentEventView::ActionStarted(ActionView::Bash(c)),
        plain_events(e),
    ensures
        events_in_order(prefix + (seq![AgentEventView::ActionFinished(ActionView::Bash(c), r)] + e)),
{
    let head = prefix.push(AgentEventView::ActionFinished(ActionView::Bash(c), r));
    assert forall|k: int| 0 <= k < head.len() implies #[trigger] event_in_order(head, k) by {
        if k < prefix.len() {
            assert(event_in_order(prefix, k));
            assert(head[k] == prefix[k]);
            if k > 0 {
                assert(head[k - 1] == prefix[k - 1]);
            }
            if prefix[k] == AgentEventView::ActionStarted(ActionView::Reset) {
                assert(k + 2 < prefix.len()) by {
                    if k == prefix.len() - 1 {
                        assert(prefix[k] == prefix.last());
                    }
                }
                assert(head[k + 1] == prefix[k + 1]);
                assert(head[k + 2] == prefix[k + 2]);
            }
            if k + 1 < prefix.len() {
                assert(head[k + 1] == prefix[k + 1]);
            } else {
                assert(prefix[k] == prefix.last());
            }
        } else {
            assert(head[k - 1] == prefix.last());
        }
    }
    assert(head.last() is ActionFinished);
    lemma_append_plain(head, e);
    assert(prefix + (seq![AgentEventView::ActionFinished(ActionView::Bash(c), r)] + e) =~= head + e);
}

/// What `continue_actions` reports is plain, and leaves a running command's start last.
proof fn lemma_continue_plain(st: AgentState, actions: Seq<ActionView>, i: int, prefix: Seq<AgentEventView>)
    requires
        0 <= i,
        no_open_start(prefix),
        text_may_follow(prefix),
    ensures
        plain_events(continue_actions(st, actions, i).events),
        start_reported(continue_actions(st, actions, i).state, prefix + continue_actions(st, actions, i).events),
{
    let s = continue_actions(st, actions, i);
    if i < actions.len() {
        match actions[i] {
            ActionView::Bash(c) => {
                assert((prefix + s.events).last() == s.events[0]);
            },
            ActionView::Reset => {
                assert((prefix + s.events).last() == s.events[2]);
            },
        }
    } else if actions.len() == 0 {
        assert((prefix + s.events).last() == s.events[0]);
    } else {
        assert(prefix + s.events =~= prefix);
    }
}

/// One step keeps the reported events in order, and a running command's start last.
proof fn lemma_step_in_order(st: AgentState, ev: TaskEventView, prefix: Seq<AgentEventView>)
    requires
        well_formed(st),
        events_in_order(prefix),
        start_reported(st, prefix),
    ensures
        events_in_order(prefix + next_step(st, ev).events),
        start_reported(next_step(st, ev).state, prefix + next_step(st, ev).events),
{
    let s = next_step(st, ev);
    match (st.phase, ev) {
        (PhaseView::Receiving(reply), TaskEventView::ReplyEnded) => {
            let messages = st.messages.push(
                MessageView { role: MessageRole::Assistant, content: reply },
            );
            lemma_continue_plain(AgentState { messages, ..st }, parsed_actions(reply), 0, prefix);
            lemma_append_plain(prefix, s.events);
        },
        (PhaseView::Running(actions, i), TaskEventView::CommandFinished(r)) => {
            match actions[i] {
                ActionView::Bash(c) => {
                    let messages = st.messages.push(
                        MessageView { role: MessageRole::User, content: observation_text(c, r) },
                    );
                    let rest = continue_actions(AgentState { messages, ..st }, actions, i + 1);
                    let head = prefix + seq![AgentEventView::ActionFinished(ActionView::Bash(c), r)];
                    lemma_continue_plain(AgentState { messages, ..st }, actions, i + 1, head);
                    lemma_append_finished(prefix, c, r, rest.events);
                    assert(prefix + s.events =~= head + rest.events);
                },
                ActionView::Reset => {
                    assert(prefix + s.events =~= prefix);
                },
            }
        },
        _ => {
            lemma_append_plain(prefix, s.events);
            if s.events.len() == 0 {
                assert(prefix + s.events =~= prefix);
            }
            if s.events.len() > 0 {
                assert((prefix + s.events).last() == s.events.last());
            }
        },
    }
}

/// The events of a run stay in order: a command's result is reported right after
/// the start of that same command, which is a shell command, with nothing between;
/// a started reset is followed by `ConversationReset` and then `TaskFinished`; and a
/// reply's pieces of text all come before its first action starts (see
/// [`event_in_order`]).
pub proof fn lemma_events_in_order(st: AgentState, evs: Seq<TaskEventView>)
    requires
        well_formed(st),
        st.phase is Idle,
    ensures
        events_in_order(run_events(st, evs)),
{
    lemma_run_in_order(st, evs, Seq::empty());
    assert(Seq::<AgentEventView>::empty() + run_events(st, evs) =~= run_events(st, evs));
}

/// [`lemma_events_in_order`], after events already reported.
proof fn lemma_run_in_order(st: AgentState, evs: Seq<TaskEventView>, prefix: Seq<AgentEventView>)
    requires
        well_formed(st),
        events_in_order(prefix),
        start_reported(st, prefix),
    ensures
        events_in_order(prefix + run_events(st, evs)),
    decreases evs.len(),
{
    if evs.len() == 0 {
        assert(prefix + run_events(st, evs) =~= prefix);
    } else {
        let s = next_step(st, evs[0]);
        lemma_step_in_order(st, evs[0], prefix);
        lemma_step_well_formed(st, evs[0]);
        lemma_run_in_order(s.state, evs.drop_first(), prefix + s.events);
        assert(prefix + run_events(st, evs) =~= (prefix + s.events) + run_events(
            s.state,
            evs.drop_first(),
        ));
    }
}


/// A conversation that the model is asked to continue: it opens with the system
/// prompt, holds no other system message and ends with a user message (the task, or
/// the result of the last command).
pub open spec fn proper_query(ms: Seq<MessageView>, prompt: Seq<char>) -> bool {
    &&& ms.len() >= 2
    &&& ms[0] == system_message(prompt)
    &&& forall|k: int| 0 < k < ms.len() ==> (#[trigger] ms[k]).role != MessageRole::System
    &&& ms.last().role == MessageRole::User
}

/// Every conversation that the agent asks the model to continue is proper; see
/// [`proper_query`].
pub proof fn lemma_queries_proper(st: AgentState, ev: TaskEventView)
    requires
        well_formed(st),
    ensures
        next_step(st, ev).command matches TaskCommandView::Query(ms) ==> proper_query(
            ms,
            st.system_prompt,
        ),
{
    let s = next_step(st, ev);
    match (st.phase, ev) {
        (PhaseView::Idle, TaskEventView::Start(task)) => {
            let ms = st.messages.push(MessageView { role: MessageRole::User, content: task });
            assert(ms.last().role == MessageRole::User);
            assert forall|k: int| 0 < k < ms.len() implies (#[trigger] ms[k]).role
                != MessageRole::System by {
                if k < st.messages.len() {
                    assert(ms[k] == st.messages[k]);
                }
            }
        },
        (PhaseView::Receiving(reply), TaskEventView::ReplyEnded) => {},
        (PhaseView::Running(actions, i), TaskEventView::CommandFinished(r)) => {
            match actions[i] {
                ActionView::Bash(c) => {
                    let ms = st.messages.push(
                        MessageView { role: MessageRole::User, content: observation_text(c, r) },
                    );
                    assert(ms.last().role == MessageRole::User);
                    assert forall|k: int| 0 < k < ms.len() implies (#[trigger] ms[k]).role
                        != MessageRole::System by {
                        if k < st.messages.len() {
                            assert(ms[k] == st.messages[k]);
                        }
                    }
                },
                ActionView::Reset => {},
            }
        },
        _ => {},
    }
}


/// Each piece of a streaming reply is reported once, as it is, and the pieces held add
/// up to the reply: after a piece `t` the front end is told exactly `TextDelta(t)`, the
/// agent holds the reply so far followed by `t`, and it keeps waiting for the reply.
pub proof fn lemma_delta_reported(st: AgentState, reply: Seq<char>, t: Seq<char>)
    requires
        st.phase == PhaseView::Receiving(reply),
    ensures
        next_step(st, TaskEventView::Delta(t)).events == seq![AgentEventView::TextDelta(t)],
        next_step(st, TaskEventView::Delta(t)).state.phase == PhaseView::Receiving(reply + t),
        next_step(st, TaskEventView::Delta(t)).state.messages == st.messages,
        next_step(st, TaskEventView::Delta(t)).command == TaskCommandView::Receive,
{
}

/// Over a stream of pieces, the front end is told each piece once, in order, and the
/// reply that the agent holds is what the front end was told, put together.
pub proof fn lemma_deltas_reported(st: AgentState, reply: Seq<char>, ts: Seq<Seq<char>>)
    requires
        st.phase == PhaseView::Receiving(reply),
    ensures
        run_events(st, deltas(ts)) == ts.map_values(|t: Seq<char>| AgentEventView::TextDelta(t)),
        after_events(st, deltas(ts)).phase == PhaseView::Receiving(reply + concat_texts(ts)),
    decreases ts.len(),
{
    lemma_deltas_accumulate(st, reply, ts);
    if ts.len() == 0 {
        assert(ts.map_values(|t: Seq<char>| AgentEventView::TextDelta(t)) =~= Seq::<
            AgentEventView,
        >::empty());
    } else {
        lemma_delta_reported(st, reply, ts[0]);
        let next = next_step(st, TaskEventView::Delta(ts[0])).state;
        assert(deltas(ts)[0] == TaskEventView::Delta(ts[0]));
        assert(deltas(ts).drop_first() =~= deltas(ts.drop_first()));
        lemma_deltas_reported(next, reply + ts[0], ts.drop_first());
        assert(ts.map_values(|t: Seq<char>| AgentEventView::TextDelta(t)) =~= seq![
            AgentEventView::TextDelta(ts[0]),
        ] + ts.drop_first().map_values(|t: Seq<char>| AgentEventView::TextDelta(t)));
    }
}


/// When a reply ends, it is recorded as the assistant's message and its first action
/// is taken up: no action ends the task; a command is started; a reset forgets the
/// conversation (the reply with it) and ends the task.
pub proof fn lemma_reply_recorded(st: AgentState, reply: Seq<char>)
    requires
        st.phase == PhaseView::Receiving(reply),
    ensures
        ({
            let s = next_step(st, TaskEventView::ReplyEnded);
            let actions = parsed_actions(reply);
            let recorded = st.messages.push(
                MessageView { role: MessageRole::Assistant, content: reply },
            );
            &&& actions.len() == 0 ==> {
                &&& s.state.messages == recorded
                &&& s.state.phase is Idle
                &&& s.events == seq![AgentEventView::TaskFinished]
                &&& s.command is Stop
            }
            &&& (actions.len() > 0 && (actions[0] matches ActionView::Bash(c))) ==> {
                &&& s.state.messages == recorded
                &&& s.events == seq![AgentEventView::ActionStarted(actions[0])]
                &&& s.command == TaskCommandView::Execute(actions[0]->Bash_0)
            }
            &&& (actions.len() > 0 && actions[0] is Reset) ==> {
                &&& s.state.messages == seq![system_message(st.system_prompt)]
                &&& s.state.phase is Idle
                &&& s.events == seq![
                    AgentEventView::ActionStarted(ActionView::Reset),
                    AgentEventView::ConversationReset,
                    AgentEventView::TaskFinished,
                ]
            }
        }),
{
}

/// When a command finishes, its result is reported right away and recorded as a user
/// message: `Command: ` and the command, then `Return code: ` and the exit code in
/// decimal, then `Output:` and the output, on lines of their own. After the last
/// command of a reply the model is asked again with that conversation.
pub proof fn lemma_result_recorded(
    st: AgentState,
    actions: Seq<ActionView>,
    i: int,
    c: Seq<char>,
    r: ExecutionResultView,
)
    requires
        st.phase == PhaseView::Running(actions, i),
        0 <= i < actions.len(),
        actions[i] == ActionView::Bash(c),
    ensures
        ({
            let s = next_step(st, TaskEventView::CommandFinished(r));
            let text = "Command: "@ + c + "\nReturn code: "@ + decimal(r.returncode as int)
                + "\nOutput:\n"@ + r.output;
            let recorded = st.messages.push(MessageView { role: MessageRole::User, content: text });
            &&& s.events.len() > 0
            &&& s.events[0] == AgentEventView::ActionFinished(ActionView::Bash(c), r)
            &&& (i + 1 == actions.len() ==> {
                &&& s.state.messages == recorded
                &&& s.command == TaskCommandView::Query(recorded)
                &&& s.events == seq![AgentEventView::ActionFinished(ActionView::Bash(c), r)]
            })
            &&& ((i + 1 < actions.len() && actions[i + 1] is Bash) ==> s.state.messages
                == recorded)
        }),
{
    let s = next_step(st, TaskEventView::CommandFinished(r));
    assert(s.events[0] == AgentEventView::ActionFinished(ActionView::Bash(c), r));
    if i + 1 == actions.len() {
        assert(s.events =~= seq![AgentEventView::ActionFinished(ActionView::Bash(c), r)]);
    }
}


/// A task starts only from an idle agent: the task is recorded as a user message, the
/// model is asked to continue that conversation, and nothing is reported yet. A failed
/// request or a broken reply is reported as an error, with its reason, and ends the
/// task, leaving the conversation as it was.
pub proof fn lemma_start_and_failures(st: AgentState, task: Seq<char>, reason: Seq<char>)
    ensures
        st.phase is Idle ==> {
            let s = next_step(st, TaskEventView::Start(task));
            let asked = st.messages.push(MessageView { role: MessageRole::User, content: task });
            &&& s.state.messages == asked
            &&& s.state.phase == PhaseView::Receiving(Seq::empty())
            &&& s.events.len() == 0
            &&& s.command == TaskCommandView::Query(asked)
        },
        !(st.phase is Idle) ==> next_step(st, TaskEventView::Start(task)).state == st,
        st.phase is Receiving ==> {
            let f = next_step(st, TaskEventView::ModelFailed(reason));
            let g = next_step(st, TaskEventView::StreamFailed(reason));
            &&& f.events == seq![
                AgentEventView::Error("Model error: "@ + reason),
                AgentEventView::TaskFinished,
            ]
            &&& g.events == seq![
                AgentEventView::Error("Stream error: "@ + reason),
                AgentEventView::TaskFinished,
            ]
            &&& f.state.messages == st.messages && f.state.phase is Idle
            &&& g.state.messages == st.messages && g.state.phase is Idle
        },
{
}

} // verus!
