//! Conversation messages, the actions that a model reply asks for, and the
//! model handle that reads those actions out of a reply.

use async_openai::types::{
    ChatCompletionRequestAssistantMessageArgs, ChatCompletionRequestMessage,
    ChatCompletionRequestSystemMessageArgs, ChatCompletionRequestUserMessageArgs,
    CreateChatCompletionRequest, CreateChatCompletionRequestArgs,
};
use vstd::prelude::*;
use crate::text::{
    chars_of, find_from, find_pattern, lemma_find_from, lemma_trim_idempotent, occurs_at, trim,
    trimmed_bounds,
};

verus! {

/// Who wrote a message of the conversation.
#[derive(Debug, Clone, Copy, PartialEq, Eq, Structural)]
pub enum MessageRole {
    System,
    User,
    Assistant,
    Tool,
}

/// One message of the conversation.
#[derive(Debug, PartialEq, Eq)]
pub struct Message {
    pub role: MessageRole,
    pub content: String,
}

/// A message as a mathematical value.
pub struct MessageView {
    pub role: MessageRole,
    pub content: Seq<char>,
}

impl View for Message {
    type V = MessageView;

    open spec fn view(&self) -> MessageView {
        MessageView { role: self.role, content: self.content@ }
    }
}

impl Clone for Message {
    fn clone(&self) -> (m: Self)
        ensures
            m@ == self@,
    {
        Message { role: self.role, content: self.content.clone() }
    }
}

/// The views of a sequence of messages.
pub open spec fn messages_view(ms: Seq<Message>) -> Seq<MessageView> {
    ms.map_values(|m: Message| m@)
}

/// A copy of every message of `ms`, in order.
pub fn copy_messages(ms: &Vec<Message>) -> (out: Vec<Message>)
    ensures
        messages_view(out@) == messages_view(ms@),
{
    let mut out: Vec<Message> = Vec::new();
    for i in 0..ms.len()
        invariant
            messages_view(out@) == messages_view(ms@).take(i as int),
    {
        out.push(ms[i].clone());
        assert(messages_view(ms@).take(i + 1) =~= messages_view(ms@).take(i as int).push(
            ms@[i as int]@,
        ));
    }
    assert(messages_view(ms@).take(ms@.len() as int) =~= messages_view(ms@));
    out
}

/// Something that a reply asks the agent to do.
#[derive(Debug, PartialEq, Eq)]
pub enum Action {
    /// Run this shell command.
    Bash(String),
    /// Forget the conversation.
    Reset,
}

/// An action as a mathematical value.
pub enum ActionView {
    Bash(Seq<char>),
    Reset,
}

impl View for Action {
    type V = ActionView;

    open spec fn view(&self) -> ActionView {
        match self {
            Action::Bash(c) => ActionView::Bash(c@),
            Action::Reset => ActionView::Reset,
        }
    }
}

impl Clone for Action {
    fn clone(&self) -> (a: Self)
        ensures
            a@ == self@,
    {
        match self {
            Action::Bash(c) => Action::Bash(c.clone()),
            Action::Reset => Action::Reset,
        }
    }
}

/// The views of a sequence of actions.
pub open spec fn actions_view(a: Seq<Action>) -> Seq<ActionView> {
    a.map_values(|x: Action| x@)
}

/// The marker that opens a command block.
pub open spec fn bash_open() -> Seq<char> {
    "```bash"@
}

/// The marker that closes a command block.
pub open spec fn fence() -> Seq<char> {
    "```"@
}

/// The keyword that asks for a reset, as the system prompt teaches it.
pub open spec fn reset_keyword() -> Seq<char> {
    "[[RESET]]"@
}

/// The other spelling of the reset request.
pub open spec fn reset_state_keyword() -> Seq<char> {
    "RESET_AGENT_STATE"@
}

/// The marker lengths.
pub proof fn lemma_marker_lengths()
    ensures
        bash_open().len() == 7,
        fence().len() == 3,
        reset_keyword().len() == 9,
        reset_state_keyword().len() == 17,
{
    reveal_strlit("```bash");
    reveal_strlit("```");
    reveal_strlit("[[RESET]]");
    reveal_strlit("RESET_AGENT_STATE");
}

/// The first reset request at or after `from`: where it starts and how long it is.
pub open spec fn first_reset(s: Seq<char>, from: int) -> Option<(int, int)> {
    let a = find_from(s, reset_keyword(), from);
    let b = find_from(s, reset_state_keyword(), from);
    match (a, b) {
        (Some(i), Some(j)) => if i <= j {
            Some((i, reset_keyword().len() as int))
        } else {
            Some((j, reset_state_keyword().len() as int))
        },
        (Some(i), None) => Some((i, reset_keyword().len() as int)),
        (None, Some(j)) => Some((j, reset_state_keyword().len() as int)),
        (None, None) => None,
    }
}

/// The actions that `s` asks for, reading from index `from` on. At each point the
/// earlier of the next command block and the next reset request is taken: a
/// block runs from the opening marker to the next closing fence, and gives
/// its trimmed text as a command when that is not empty; an opening marker
/// without a closing fence is skipped; a reset request gives a reset.
pub open spec fn parse_from(s: Seq<char>, from: int) -> Seq<ActionView>
    decreases s.len() - from,
{
    if from < 0 || from >= s.len() {
        seq![]
    } else {
        let b = find_from(s, bash_open(), from);
        let r = first_reset(s, from);
        proof {
            lemma_marker_lengths();
            lemma_find_from(s, bash_open(), from);
            lemma_find_from(s, reset_keyword(), from);
            lemma_find_from(s, reset_state_keyword(), from);
        }
        let reset_first = match (b, r) {
            (Some(i), Some((j, _))) => j < i,
            (None, Some(_)) => true,
            _ => false,
        };
        if b is Some && !reset_first {
            let start = b->0 + bash_open().len();
            proof {
                lemma_find_from(s, fence(), start);
            }
            match find_from(s, fence(), start) {
                Some(e) => {
                    let command = trim(s.subrange(start, e));
                    let rest = parse_from(s, e + fence().len());
                    if command.len() > 0 {
                        seq![ActionView::Bash(command)] + rest
                    } else {
                        rest
                    }
                },
                None => parse_from(s, start),
            }
        } else {
            match r {
                Some((j, len)) => seq![ActionView::Reset] + parse_from(s, j + len),
                None => seq![],
            }
        }
    }
}

/// The actions that the reply `s` asks for, in the order in which they appear.
pub open spec fn parsed_actions(s: Seq<char>) -> Seq<ActionView> {
    parse_from(s, 0)
}


/// Every command that a reply yields is non-empty and has no white space at either
/// end: trimming it changes nothing.
pub proof fn lemma_commands_trimmed(s: Seq<char>, from: int)
    ensures
        forall|k: int|
            0 <= k < parse_from(s, from).len() ==> match #[trigger] parse_from(s, from)[k] {
                ActionView::Bash(c) => c.len() > 0 && trim(c) == c,
                ActionView::Reset => true,
            },
    decreases s.len() - from,
{
    let out = parse_from(s, from);
    if from < 0 || from >= s.len() {
    } else {
        lemma_marker_lengths();
        lemma_find_from(s, bash_open(), from);
        lemma_find_from(s, reset_keyword(), from);
        lemma_find_from(s, reset_state_keyword(), from);
        let b = find_from(s, bash_open(), from);
        let r = first_reset(s, from);
        let reset_first = match (b, r) {
            (Some(i), Some((j, _))) => j < i,
            (None, Some(_)) => true,
            _ => false,
        };
        if b is Some && !reset_first {
            let start = b->0 + bash_open().len();
            lemma_find_from(s, fence(), start);
            match find_from(s, fence(), start) {
                Some(e) => {
                    let command = trim(s.subrange(start, e));
                    let rest = parse_from(s, e + fence().len());
                    lemma_commands_trimmed(s, e + fence().len());
                    lemma_trim_idempotent(s.subrange(start, e));
                    if command.len() > 0 {
                        assert forall|k: int| 0 <= k < out.len() implies match #[trigger] out[k] {
                            ActionView::Bash(c) => c.len() > 0 && trim(c) == c,
                            ActionView::Reset => true,
                        } by {
                            if k > 0 {
                                assert(out[k] == rest[k - 1]);
                            }
                        }
                    }
                },
                None => {
                    lemma_commands_trimmed(s, start);
                },
            }
        } else {
            match r {
                Some((j, len)) => {
                    let rest = parse_from(s, j + len);
                    lemma_commands_trimmed(s, j + len);
                    assert forall|k: int| 0 <= k < out.len() implies match #[trigger] out[k] {
                        ActionView::Bash(c) => c.len() > 0 && trim(c) == c,
                        ActionView::Reset => true,
                    } by {
                        if k > 0 {
                            assert(out[k] == rest[k - 1]);
                        }
                    }
                },
                None => {},
            }
        }
    }
}

/// A reply in which neither an opening marker nor a reset keyword occurs asks for
/// nothing.
pub proof fn lemma_no_markers_no_actions(s: Seq<char>)
    requires
        forall|i: int| !occurs_at(s, bash_open(), i),
        forall|i: int| !occurs_at(s, reset_keyword(), i),
        forall|i: int| !occurs_at(s, reset_state_keyword(), i),
    ensures
        parsed_actions(s) == Seq::<ActionView>::empty(),
{
    lemma_find_from(s, bash_open(), 0);
    lemma_find_from(s, reset_keyword(), 0);
    lemma_find_from(s, reset_state_keyword(), 0);
}

/// [`first_reset`], computed; the keywords come in as their characters.
fn find_reset(s: &Vec<char>, keyword: &Vec<char>, state_keyword: &Vec<char>, from: usize) -> (r:
    Option<(usize, usize)>)
    requires
        keyword@ == reset_keyword(),
        state_keyword@ == reset_state_keyword(),
    ensures
        match r {
            Some((i, len)) => first_reset(s@, from as int) == Some((i as int, len as int)),
            None => first_reset(s@, from as int) is None,
        },
{
    let a = find_pattern(s, keyword, from);
    let b = find_pattern(s, state_keyword, from);
    match (a, b) {
        (Some(i), Some(j)) => if i <= j {
            Some((i, keyword.len()))
        } else {
            Some((j, state_keyword.len()))
        },
        (Some(i), None) => Some((i, keyword.len())),
        (None, Some(j)) => Some((j, state_keyword.len())),
        (None, None) => None,
    }
}

/// Reads the actions out of a reply; see [`parse_from`].
pub fn read_actions(content: &str) -> (actions: Vec<Action>)
    ensures
        actions_view(actions@) == parsed_actions(content@),
{
    let s = chars_of(content);
    let open = chars_of("```bash");
    let close = chars_of("```");
    let keyword = chars_of("[[RESET]]");
    let state_keyword = chars_of("RESET_AGENT_STATE");
    let mut actions: Vec<Action> = Vec::new();
    let mut p: usize = 0;
    while p < s.len()
        invariant
            s@ == content@,
            open@ == bash_open(),
            close@ == fence(),
            keyword@ == reset_keyword(),
            state_keyword@ == reset_state_keyword(),
            p <= s@.len(),
            actions_view(actions@) + parse_from(s@, p as int) == parse_from(s@, 0),
        decreases s@.len() - p,
    {
        let ghost before = actions_view(actions@);
        let b = find_pattern(&s, &open, p);
        let r = find_reset(&s, &keyword, &state_keyword, p);
        proof {
            lemma_marker_lengths();
            lemma_find_from(s@, bash_open(), p as int);
            lemma_find_from(s@, reset_keyword(), p as int);
            lemma_find_from(s@, reset_state_keyword(), p as int);
        }
        let reset_first = match (b, r) {
            (Some(i), Some((j, _))) => j < i,
            (None, Some(_)) => true,
            _ => false,
        };
        match b {
            Some(i) if !reset_first => {
                let start = i + open.len();
                proof {
                    lemma_find_from(s@, fence(), start as int);
                }
                match find_pattern(&s, &close, start) {
                    Some(e) => {
                        let (lo, hi) = trimmed_bounds(&s, start, e);
                        if lo < hi {
                            let command = String::from_str(content.substring_char(lo, hi));
                            actions.push(Action::Bash(command));
                            assert(actions_view(actions@) =~= before.push(
                                ActionView::Bash(trim(s@.subrange(start as int, e as int))),
                            ));
                        }
                        p = e + close.len();
                    },
                    None => {
                        p = start;
                    },
                }
            },
            _ => {
                match r {
                    Some((j, len)) => {
                        actions.push(Action::Reset);
                        assert(actions_view(actions@) =~= before.push(ActionView::Reset));
                        p = j + len;
                    },
                    None => {
                        p = s.len();
                    },
                }
            },
        }
    }
    actions
}


#[verifier::external_type_specification]
#[verifier::external_body]
pub struct ExChatCompletionRequestMessage(ChatCompletionRequestMessage);

#[verifier::external_type_specification]
#[verifier::external_body]
pub struct ExCreateChatCompletionRequest(CreateChatCompletionRequest);

/// The request message that `ChatCompletionRequestSystemMessageArgs` builds around `content`.
pub uninterp spec fn system_chat_message(content: Seq<char>) -> ChatCompletionRequestMessage;

/// The request message that `ChatCompletionRequestUserMessageArgs` builds around `content`.
pub uninterp spec fn user_chat_message(content: Seq<char>) -> ChatCompletionRequestMessage;

/// The request message that `ChatCompletionRequestAssistantMessageArgs` builds around `content`.
pub uninterp spec fn assistant_chat_message(content: Seq<char>) -> ChatCompletionRequestMessage;

/// The request that `CreateChatCompletionRequestArgs` builds from a model name, the
/// messages and the streaming switch.
pub uninterp spec fn chat_completion_request(
    model: Seq<char>,
    messages: Seq<ChatCompletionRequestMessage>,
    stream: bool,
) -> CreateChatCompletionRequest;

/// Calls `ChatCompletionRequestSystemMessageArgs::default().content(..).build()` and
/// converts the message into a `ChatCompletionRequestMessage`. Every field of the
/// builder has a default, so `build` cannot fail. Claimed: the result depends on
/// `content` alone.
#[verifier::external_body]
fn build_system_message(content: String) -> (m: ChatCompletionRequestMessage)
    ensures
        m == system_chat_message(content@),
{
    ChatCompletionRequestSystemMessageArgs::default().content(content).build().unwrap().into()
}

/// Calls `ChatCompletionRequestUserMessageArgs::default().content(..).build()` and
/// converts the message into a `ChatCompletionRequestMessage`; `build` cannot fail,
/// every field having a default. Claimed: the result depends on `content` alone.
#[verifier::external_body]
fn build_user_message(content: String) -> (m: ChatCompletionRequestMessage)
    ensures
        m == user_chat_message(content@),
{
    ChatCompletionRequestUserMessageArgs::default().content(content).build().unwrap().into()
}

/// Calls `ChatCompletionRequestAssistantMessageArgs::default().content(..).build()` and
/// converts the message into a `ChatCompletionRequestMessage`; `build` cannot fail,
/// every field having a default. Claimed: the result depends on `content` alone.
#[verifier::external_body]
fn build_assistant_message(content: String) -> (m: ChatCompletionRequestMessage)
    ensures
        m == assistant_chat_message(content@),
{
    ChatCompletionRequestAssistantMessageArgs::default().content(content).build().unwrap().into()
}

/// Calls `CreateChatCompletionRequestArgs::default()` with `model`, `messages` and
/// `stream` set, and `build`; every field has a default, so `build` cannot fail.
/// Claimed: the request depends on these three arguments alone.
#[verifier::external_body]
fn build_chat_request(model: &str, messages: Vec<ChatCompletionRequestMessage>, stream: bool) -> (r:
    CreateChatCompletionRequest)
    ensures
        r == chat_completion_request(model@, messages@, stream),
{
    CreateChatCompletionRequestArgs::default().model(model).messages(messages).stream(
        stream,
    ).build().unwrap()
}

/// The request message for a conversation message: a tool message goes out as a user
/// message.
pub open spec fn request_message(m: MessageView) -> ChatCompletionRequestMessage {
    match m.role {
        MessageRole::System => system_chat_message(m.content),
        MessageRole::User => user_chat_message(m.content),
        MessageRole::Assistant => assistant_chat_message(m.content),
        MessageRole::Tool => user_chat_message(m.content),
    }
}

/// The request messages for a conversation, in order.
pub open spec fn request_messages(ms: Seq<MessageView>) -> Seq<ChatCompletionRequestMessage> {
    ms.map_values(|m: MessageView| request_message(m))
}

/// The text of a streamed chunk: the pieces that it carries (one per choice, some
/// without content), present ones joined in order.
pub open spec fn chunk_text(pieces: Seq<Option<Seq<char>>>) -> Seq<char>
    decreases pieces.len(),
{
    if pieces.len() == 0 {
        Seq::empty()
    } else {
        chunk_text(pieces.drop_last()) + match pieces.last() {
            Some(t) => t,
            None => Seq::empty(),
        }
    }
}

/// A chunk with one piece is that piece, whatever its characters; a chunk with one
/// missing piece is empty.
pub proof fn lemma_chunk_text_single(t: Seq<char>)
    ensures
        chunk_text(seq![Some(t)]) == t,
        chunk_text(seq![None::<Seq<char>>]) == Seq::<char>::empty(),
{
    let none = Seq::<Option<Seq<char>>>::empty();
    assert(chunk_text(none) == Seq::<char>::empty());
    let one = seq![Some(t)];
    assert(one.drop_last() =~= none);
    assert(one.last() == Some(t));
    assert(chunk_text(one) == chunk_text(one.drop_last()) + t);
    assert(Seq::<char>::empty() + t =~= t);
    let missing = seq![None::<Seq<char>>];
    assert(missing.drop_last() =~= none);
    assert(chunk_text(missing) == chunk_text(missing.drop_last()) + Seq::<char>::empty());
    assert(Seq::<char>::empty() + Seq::<char>::empty() =~= Seq::<char>::empty());
}

/// Joining pieces one after the other is joining each part and putting the results
/// one after the other: nothing is dropped, added or reordered.
pub proof fn lemma_chunk_text_append(p: Seq<Option<Seq<char>>>, q: Seq<Option<Seq<char>>>)
    ensures
        chunk_text(p + q) == chunk_text(p) + chunk_text(q),
    decreases q.len(),
{
    if q.len() == 0 {
        assert(p + q =~= p);
        assert(chunk_text(p) + Seq::<char>::empty() =~= chunk_text(p));
    } else {
        lemma_chunk_text_append(p, q.drop_last());
        assert((p + q).drop_last() =~= p + q.drop_last());
        assert((p + q).last() == q.last());
        let tail = match q.last() {
            Some(t) => t,
            None => Seq::<char>::empty(),
        };
        assert(chunk_text(p) + chunk_text(q.drop_last()) + tail =~= chunk_text(p) + (chunk_text(
            q.drop_last(),
        ) + tail));
    }
}

/// The views of optional texts.
pub open spec fn optional_texts(pieces: Seq<Option<String>>) -> Seq<Option<Seq<char>>> {
    pieces.map_values(|p: Option<String>| match p {
        Some(t) => Some(t@),
        None => None,
    })
}

/// Joins the pieces of a streamed chunk; see [`chunk_text`].
pub fn join_chunk(pieces: &Vec<Option<String>>) -> (s: String)
    ensures
        s@ == chunk_text(optional_texts(pieces@)),
{
    let mut s = String::new();
    for i in 0..pieces.len()
        invariant
            s@ == chunk_text(optional_texts(pieces@).take(i as int)),
    {
        assert(optional_texts(pieces@).take(i + 1).drop_last() =~= optional_texts(pieces@).take(
            i as int,
        ));
        match &pieces[i] {
            Some(t) => s.append(t.as_str()),
            None => {
                assert(s@ + Seq::<char>::empty() =~= s@);
            },
        }
    }
    assert(optional_texts(pieces@).take(pieces@.len() as int) =~= optional_texts(pieces@));
    s
}

/// Each conversation message goes out in its place with its own content, and as the
/// same kind of message: a user message (and a tool message) as a user message, a
/// system message as a system message, an assistant message as an assistant message.
pub proof fn lemma_request_roles(ms: Seq<MessageView>)
    ensures
        request_messages(ms).len() == ms.len(),
        forall|k: int| 0 <= k < ms.len() ==> {
            let m = #[trigger] ms[k];
            &&& m.role == MessageRole::User ==> request_messages(ms)[k] == user_chat_message(
                m.content,
            )
            &&& m.role == MessageRole::Tool ==> request_messages(ms)[k] == user_chat_message(
                m.content,
            )
            &&& m.role == MessageRole::System ==> request_messages(ms)[k] == system_chat_message(
                m.content,
            )
            &&& m.role == MessageRole::Assistant ==> request_messages(ms)[k]
                == assistant_chat_message(m.content)
        },
{
}

/// The name of the model that is asked when none is given.
pub open spec fn default_model_name() -> Seq<char> {
    "gpt-4o"@
}

/// The error text when no API key was configured.
pub open spec fn missing_key_text() -> Seq<char> {
    "OPENAI_API_KEY not set"@
}

/// A chat model: its name and the credentials for reaching it.
pub struct OpenAIModel {
    model_name: String,
    api_key: Option<String>,
    api_base: Option<String>,
}

impl OpenAIModel {
    /// The model's name.
    pub closed spec fn name(&self) -> Seq<char> {
        self.model_name@
    }

    /// The API key, if one was configured.
    pub closed spec fn key(&self) -> Option<Seq<char>> {
        match &self.api_key {
            Some(k) => Some(k@),
            None => None,
        }
    }

    /// The endpoint that replaces the default one, if any.
    pub closed spec fn base(&self) -> Option<Seq<char>> {
        match &self.api_base {
            Some(b) => Some(b@),
            None => None,
        }
    }

    /// A model named `model_name` (or `gpt-4o`) with the credentials that the
    /// environment holds (`OPENAI_API_KEY`, `OPENAI_BASEURL`), read by the caller: an
    /// endpoint counts only together with a key.
    pub fn new(model_name: Option<String>, api_key: Option<String>, api_base: Option<
        String,
    >) -> (m: Self)
        ensures
            m.name() == (match model_name {
                Some(n) => n@,
                None => default_model_name(),
            }),
            m.key() == (match api_key {
                Some(k) => Some(k@),
                None => None::<Seq<char>>,
            }),
            m.base() == (match (api_key, api_base) {
                (Some(_), Some(b)) => Some(b@),
                _ => None::<Seq<char>>,
            }),
    {
        let name = match model_name {
            Some(n) => n,
            None => String::from_str("gpt-4o"),
        };
        let base = match api_key {
            Some(_) => api_base,
            None => None,
        };
        OpenAIModel { model_name: name, api_key, api_base: base }
    }

    /// The model's name.
    pub fn model_name(&self) -> (n: &str)
        ensures
            n@ == self.name(),
    {
        self.model_name.as_str()
    }

    /// The API key, if one was configured.
    pub fn api_key(&self) -> (k: Option<&str>)
        ensures
            match k {
                Some(k) => self.key() == Some(k@),
                None => self.key() is None,
            },
    {
        match &self.api_key {
            Some(k) => Some(k.as_str()),
            None => None,
        }
    }

    /// The endpoint that replaces the default one, if any.
    pub fn api_base(&self) -> (b: Option<&str>)
        ensures
            match b {
                Some(b) => self.base() == Some(b@),
                None => self.base() is None,
            },
    {
        match &self.api_base {
            Some(b) => Some(b.as_str()),
            None => None,
        }
    }

    /// The actions that a reply asks for; see [`parse_from`].
    pub fn parse_actions(&self, content: &str) -> (actions: Vec<Action>)
        ensures
            actions_view(actions@) == parsed_actions(content@),
    {
        read_actions(content)
    }

    /// The streaming request that asks this model to continue `messages`; an error
    /// when no API key was configured.
    pub fn chat_request(&self, messages: &Vec<Message>) -> (r: Result<
        CreateChatCompletionRequest,
        String,
    >)
        ensures
            match r {
                Ok(req) => {
                    &&& self.key() is Some
                    &&& req == chat_completion_request(
                        self.name(),
                        request_messages(messages_view(messages@)),
                        true,
                    )
                },
                Err(e) => self.key() is None && e@ == missing_key_text(),
            },
    {
        if self.api_key.is_none() {
            return Err(String::from_str("OPENAI_API_KEY not set"));
        }
        let mut out: Vec<ChatCompletionRequestMessage> = Vec::new();
        for i in 0..messages.len()
            invariant
                out@ == request_messages(messages_view(messages@)).take(i as int),
        {
            let m = &messages[i];
            let content = m.content.clone();
            let built = match m.role {
                MessageRole::System => build_system_message(content),
                MessageRole::User => build_user_message(content),
                MessageRole::Assistant => build_assistant_message(content),
                MessageRole::Tool => build_user_message(content),
            };
            out.push(built);
            assert(request_messages(messages_view(messages@)).take(i + 1) =~= request_messages(
                messages_view(messages@),
            ).take(i as int).push(request_message(messages@[i as int]@)));
        }
        assert(request_messages(messages_view(messages@)).take(messages@.len() as int)
            =~= request_messages(messages_view(messages@)));
        Ok(build_chat_request(self.model_name.as_str(), out, true))
    }
}

} // verus!
