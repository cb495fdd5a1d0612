//! What the terminal front end shows: the transcript of a session, built from the
//! user's tasks and the agent's events, and the state of its scrolling.

use vstd::prelude::*;
use crate::agent::{AgentEvent, AgentEventView};
use crate::env::{ExecutionResult, ExecutionResultView};
use crate::model::{Action, ActionView};
use crate::text::{decimal, decimal_text};

verus! {

/// The text that `format!("{:?}", ..)` makes of a string: quoted, with special
/// characters escaped.
pub uninterp spec fn debug_text(s: Seq<char>) -> Seq<char>;

/// Formats a string with `Debug` (`<str as Debug>::fmt`). Claimed: the text depends on
/// the string alone; how it quotes and escapes is left to the name.
#[verifier::external_body]
fn debug_quoted(s: &str) -> (d: String)
    ensures
        d@ == debug_text(s@),
{
    format!("{:?}", s)
}

/// How an action is shown: as `{:?}` prints it.
pub open spec fn action_text(a: ActionView) -> Seq<char> {
    match a {
        ActionView::Bash(c) => "Bash("@ + debug_text(c) + ")"@,
        ActionView::Reset => "Reset"@,
    }
}

impl Action {
    /// How the action is shown: as `{:?}` prints it.
    pub fn describe(&self) -> (s: String)
        ensures
            s@ == action_text(self@),
    {
        match self {
            Action::Bash(c) => {
                let mut s = String::from_str("Bash(");
                let quoted = debug_quoted(c.as_str());
                s.append(quoted.as_str());
                s.append(")");
                s
            },
            Action::Reset => String::from_str("Reset"),
        }
    }
}

/// The transcript as a mathematical value.
#[verifier::ext_equal]
pub struct TranscriptView {
    /// The lines written so far.
    pub lines: Seq<Seq<char>>,
    /// Reply text that has streamed in and is not yet a line of its own.
    pub pending: Seq<char>,
    /// Whether a task is running.
    pub busy: bool,
    /// Whether the view follows the end of the transcript.
    pub follow: bool,
    /// The first line shown when the view does not follow.
    pub scroll: u16,
}

/// `t` with the pending reply text written out as an `Agent:` line.
pub open spec fn flushed(t: TranscriptView) -> TranscriptView {
    if t.pending.len() > 0 {
        TranscriptView { lines: t.lines.push("Agent: "@ + t.pending), pending: Seq::empty(), ..t }
    } else {
        t
    }
}

/// The lines that report a command's result.
pub open spec fn result_lines(code: i32, output: Seq<char>) -> Seq<Seq<char>> {
    let head = seq!["Result: (Code "@ + decimal(code as int) + ")"@];
    if output.len() > 0 {
        head.push("Output: "@ + output)
    } else {
        head
    }
}

/// The transcript after one event of the agent.
pub open spec fn apply_event(t: TranscriptView, e: AgentEventView) -> TranscriptView {
    match e {
        AgentEventView::TextDelta(d) => TranscriptView { pending: t.pending + d, ..t },
        AgentEventView::ActionStarted(a) => {
            let f = flushed(t);
            TranscriptView { lines: f.lines.push("Action: "@ + action_text(a)), ..f }
        },
        AgentEventView::ActionFinished(_, r) => TranscriptView {
            lines: t.lines + result_lines(r.returncode, r.output),
            ..t
        },
        AgentEventView::ConversationReset => TranscriptView {
            lines: t.lines.push("--- Conversation Reset ---"@),
            pending: Seq::empty(),
            ..t
        },
        AgentEventView::Error(m) => TranscriptView { lines: t.lines.push("Error: "@ + m), ..t },
        AgentEventView::TaskFinished => TranscriptView { busy: false, ..flushed(t) },
    }
}

/// The lines to show: those written, then the reply text still streaming in.
pub open spec fn shown_lines(t: TranscriptView) -> Seq<Seq<char>> {
    if t.pending.len() > 0 {
        t.lines.push("Agent: "@ + t.pending)
    } else {
        t.lines
    }
}

/// The transcript of a session and the state of its view.
pub struct Transcript {
    lines: Vec<String>,
    pending: String,
    busy: bool,
    follow: bool,
    scroll: u16,
}

/// The views of a sequence of strings.
pub open spec fn texts_view(v: Seq<String>) -> Seq<Seq<char>> {
    v.map_values(|s: String| s@)
}

impl View for Transcript {
    type V = TranscriptView;

    closed spec fn view(&self) -> TranscriptView {
        TranscriptView {
            lines: texts_view(self.lines@),
            pending: self.pending@,
            busy: self.busy,
            follow: self.follow,
            scroll: self.scroll,
        }
    }
}

/// `prefix` followed by `rest`.
fn joined(prefix: &str, rest: &str) -> (s: String)
    ensures
        s@ == prefix@ + rest@,
{
    String::from_str(prefix).concat(rest)
}

impl Transcript {
    /// An empty transcript: no task running, the view following the end.
    pub fn new() -> (t: Self)
        ensures
            t@ == (TranscriptView {
                lines: Seq::empty(),
                pending: Seq::empty(),
                busy: false,
                follow: true,
                scroll: 0,
            }),
    {
        let t = Transcript {
            lines: Vec::new(),
            pending: String::new(),
            busy: false,
            follow: true,
            scroll: 0,
        };
        assert(t@.lines =~= Seq::<Seq<char>>::empty());
        t
    }

    /// Appends a line.
    fn write(&mut self, line: String)
        ensures
            final(self)@ == (TranscriptView { lines: old(self)@.lines.push(line@), ..old(self)@ }),
    {
        self.lines.push(line);
        assert(texts_view(self.lines@) =~= texts_view(old(self).lines@).push(line@));
    }

    /// Writes out the pending reply text as an `Agent:` line.
    fn flush(&mut self)
        ensures
            final(self)@ == flushed(old(self)@),
    {
        if self.pending.as_str().unicode_len() > 0 {
            let line = joined("Agent: ", self.pending.as_str());
            self.write(line);
            self.pending = String::new();
        }
    }

    /// Hands a task to the agent, unless a task is running or the task is empty:
    /// then nothing changes and the result is `false`. Otherwise the task is written
    /// as a `User:` line and the transcript is busy until the task finishes.
    pub fn submit(&mut self, task: &str) -> (accepted: bool)
        ensures
            accepted == (!old(self)@.busy && task@.len() > 0),
            accepted ==> final(self)@ == (TranscriptView {
                lines: old(self)@.lines.push("User: "@ + task@),
                busy: true,
                ..old(self)@
            }),
            !accepted ==> final(self)@ == old(self)@,
    {
        if self.busy || task.unicode_len() == 0 {
            return false;
        }
        let line = joined("User: ", task);
        self.write(line);
        self.busy = true;
        true
    }

    /// Takes one event of the agent into the transcript; see [`apply_event`].
    pub fn apply(&mut self, event: &AgentEvent)
        ensures
            final(self)@ == apply_event(old(self)@, event@),
    {
        match event {
            AgentEvent::TextDelta(d) => {
                self.pending.append(d.as_str());
            },
            AgentEvent::ActionStarted(a) => {
                self.flush();
                let line = joined("Action: ", a.describe().as_str());
                self.write(line);
            },
            AgentEvent::ActionFinished(_, r) => {
                self.write_result(r);
            },
            AgentEvent::ConversationReset => {
                self.write(String::from_str("--- Conversation Reset ---"));
                self.pending = String::new();
            },
            AgentEvent::Error(m) => {
                let line = joined("Error: ", m.as_str());
                self.write(line);
            },
            AgentEvent::TaskFinished => {
                self.flush();
                self.busy = false;
            },
        }
    }

    /// Writes the lines that report a command's result.
    fn write_result(&mut self, r: &ExecutionResult)
        ensures
            final(self)@ == (TranscriptView {
                lines: old(self)@.lines + result_lines(r.returncode, r.output@),
                ..old(self)@
            }),
    {
        let mut head = String::from_str("Result: (Code ");
        head.append(decimal_text(r.returncode).as_str());
        head.append(")");
        self.write(head);
        if r.output.as_str().unicode_len() > 0 {
            let line = joined("Output: ", r.output.as_str());
            self.write(line);
        }
        assert(self@.lines =~= old(self)@.lines + result_lines(r.returncode, r.output@));
    }

    /// The lines to show; see [`shown_lines`].
    pub fn shown(&self) -> (v: Vec<String>)
        ensures
            texts_view(v@) == shown_lines(self@),
    {
        let mut v: Vec<String> = Vec::new();
        for i in 0..self.lines.len()
            invariant
                texts_view(v@) == texts_view(self.lines@).take(i as int),
        {
            v.push(self.lines[i].clone());
            assert(texts_view(self.lines@).take(i + 1) =~= texts_view(self.lines@).take(
                i as int,
            ).push(self.lines@[i as int]@));
        }
        assert(texts_view(self.lines@).take(self.lines@.len() as int) =~= texts_view(
            self.lines@,
        ));
        if self.pending.as_str().unicode_len() > 0 {
            let line = joined("Agent: ", self.pending.as_str());
            v.push(line);
            assert(texts_view(v@) =~= texts_view(self.lines@).push("Agent: "@ + self.pending@));
        }
        v
    }

    /// Whether a task is running.
    pub fn is_busy(&self) -> (b: bool)
        ensures
            b == self@.busy,
    {
        self.busy
    }

    /// Whether the view follows the end of the transcript.
    pub fn is_following(&self) -> (b: bool)
        ensures
            b == self@.follow,
    {
        self.follow
    }

    /// Scrolls the view one line up from where it is now shown (not above the first
    /// line) for `total` lines in a view `height` lines high; the view stops following
    /// and stays where it was put.
    pub fn scroll_up(&mut self, total: usize, height: usize)
        ensures
            final(self)@ == (TranscriptView {
                scroll: scrolled_up(old(self)@, total as int, height as int),
                follow: false,
                ..old(self)@
            }),
            offset_for(final(self)@, total as int, height as int) == scrolled_up(
                old(self)@,
                total as int,
                height as int,
            ),
    {
        let shown = self.view_offset(total, height);
        self.scroll = if shown > 0 {
            shown - 1
        } else {
            0
        };
        self.follow = false;
    }

    /// Scrolls the view one line down from where it is now shown (not below the last
    /// page) for `total` lines in a view `height` lines high; the view stops following
    /// and stays where it was put.
    pub fn scroll_down(&mut self, total: usize, height: usize)
        ensures
            final(self)@ == (TranscriptView {
                scroll: scrolled_down(old(self)@, total as int, height as int),
                follow: false,
                ..old(self)@
            }),
            offset_for(final(self)@, total as int, height as int) == scrolled_down(
                old(self)@,
                total as int,
                height as int,
            ),
    {
        let shown = self.view_offset(total, height);
        let last = last_page_offset(total, height);
        self.scroll = if shown < last {
            shown + 1
        } else {
            last
        };
        self.follow = false;
    }

    /// Switches following the end of the transcript on or off.
    pub fn toggle_follow(&mut self)
        ensures
            final(self)@ == (TranscriptView { follow: !old(self)@.follow, ..old(self)@ }),
    {
        self.follow = !self.follow;
    }

    /// The first line to show of `total` lines in a view `height` lines high: the
    /// last page when following, else the scroll position, kept within the last page.
    pub fn view_offset(&self, total: usize, height: usize) -> (offset: u16)
        ensures
            offset == offset_for(self@, total as int, height as int),
    {
        let last = last_page_offset(total, height);
        if self.follow || self.scroll > last {
            last
        } else {
            self.scroll
        }
    }
}

/// The keys that the front end tells apart.
#[derive(Debug, Clone, Copy, PartialEq, Eq, Structural)]
pub enum Key {
    /// Leave the application.
    Escape,
    /// Send the input as a task.
    Enter,
    /// Scroll the transcript up.
    Up,
    /// Scroll the transcript down.
    Down,
    /// Switch following the end of the transcript.
    ToggleFollow,
    /// Any other key: it edits the input.
    Other,
}

/// What the front end does after a key.
#[derive(Debug, PartialEq, Eq)]
pub enum KeyOutcome {
    /// Leave.
    Quit,
    /// Start a task with this text; the input field is emptied.
    StartTask(String),
    /// Pass the key on to the input field.
    Edit,
    /// Nothing more.
    Handled,
}

/// The outcome of a key as a mathematical value.
pub enum KeyOutcomeView {
    Quit,
    StartTask(Seq<char>),
    Edit,
    Handled,
}

impl View for KeyOutcome {
    type V = KeyOutcomeView;

    open spec fn view(&self) -> KeyOutcomeView {
        match self {
            KeyOutcome::Quit => KeyOutcomeView::Quit,
            KeyOutcome::StartTask(t) => KeyOutcomeView::StartTask(t@),
            KeyOutcome::Edit => KeyOutcomeView::Edit,
            KeyOutcome::Handled => KeyOutcomeView::Handled,
        }
    }
}

impl Transcript {
    /// Answers a key, with `input` the text in the input field and the transcript shown
    /// as `total` lines in a view `height` lines high. Enter hands the input to the agent
    /// as a task when no task is running and the input is not empty, and does nothing
    /// otherwise; the arrows move the view one line (see [`scrolled_up`] and
    /// [`scrolled_down`]), the follow key switches following, Escape quits and any other
    /// key edits the input.
    pub fn on_key(&mut self, key: Key, input: &str, total: usize, height: usize) -> (outcome:
        KeyOutcome)
        ensures
            match key {
                Key::Escape => final(self)@ == old(self)@ && outcome@ == KeyOutcomeView::Quit,
                Key::Enter => if !old(self)@.busy && input@.len() > 0 {
                    &&& final(self)@ == (TranscriptView {
                        lines: old(self)@.lines.push("User: "@ + input@),
                        busy: true,
                        ..old(self)@
                    })
                    &&& outcome@ == KeyOutcomeView::StartTask(input@)
                } else {
                    final(self)@ == old(self)@ && outcome@ == KeyOutcomeView::Handled
                },
                Key::Up => {
                    &&& final(self)@ == (TranscriptView {
                        scroll: scrolled_up(old(self)@, total as int, height as int),
                        follow: false,
                        ..old(self)@
                    })
                    &&& offset_for(final(self)@, total as int, height as int) == scrolled_up(
                        old(self)@,
                        total as int,
                        height as int,
                    )
                    &&& outcome@ == KeyOutcomeView::Handled
                },
                Key::Down => {
                    &&& final(self)@ == (TranscriptView {
                        scroll: scrolled_down(old(self)@, total as int, height as int),
                        follow: false,
                        ..old(self)@
                    })
                    &&& offset_for(final(self)@, total as int, height as int) == scrolled_down(
                        old(self)@,
                        total as int,
                        height as int,
                    )
                    &&& outcome@ == KeyOutcomeView::Handled
                },
                Key::ToggleFollow => {
                    &&& final(self)@ == (TranscriptView { follow: !old(self)@.follow, ..old(self)@ })
                    &&& outcome@ == KeyOutcomeView::Handled
                },
                Key::Other => final(self)@ == old(self)@ && outcome@ == KeyOutcomeView::Edit,
            },
    {
        match key {
            Key::Escape => KeyOutcome::Quit,
            Key::Enter => {
                if self.submit(input) {
                    KeyOutcome::StartTask(String::from_str(input))
                } else {
                    KeyOutcome::Handled
                }
            },
            Key::Up => {
                self.scroll_up(total, height);
                KeyOutcome::Handled
            },
            Key::Down => {
                self.scroll_down(total, height);
                KeyOutcome::Handled
            },
            Key::ToggleFollow => {
                self.toggle_follow();
                KeyOutcome::Handled
            },
            Key::Other => KeyOutcome::Edit,
        }
    }
}

/// The first line of the last page of `total` lines in a view `height` lines high
/// (as far as a `u16` reaches).
pub open spec fn last_offset(total: int, height: int) -> u16 {
    let bottom = if total > height {
        total - height
    } else {
        0
    };
    if bottom > u16::MAX {
        u16::MAX
    } else {
        bottom as u16
    }
}

/// [`last_offset`], computed.
pub fn last_page_offset(total: usize, height: usize) -> (last: u16)
    ensures
        last == last_offset(total as int, height as int),
{
    let bottom: usize = if total > height {
        total - height
    } else {
        0
    };
    if bottom > 65535 {
        u16::MAX
    } else {
        bottom as u16
    }
}

/// The first line shown after scrolling one line up: one above the line shown now,
/// unless that is the first.
pub open spec fn scrolled_up(t: TranscriptView, total: int, height: int) -> u16 {
    let shown = offset_for(t, total, height);
    if shown > 0 {
        (shown - 1) as u16
    } else {
        0
    }
}

/// The first line shown after scrolling one line down: one below the line shown now,
/// unless that is the last page.
pub open spec fn scrolled_down(t: TranscriptView, total: int, height: int) -> u16 {
    let shown = offset_for(t, total, height);
    if shown < last_offset(total, height) {
        (shown + 1) as u16
    } else {
        last_offset(total, height)
    }
}

/// The first line to show of `total` lines in a view `height` lines high: the last
/// page when following, else the scroll position, kept within the last page.
pub open spec fn offset_for(t: TranscriptView, total: int, height: int) -> u16 {
    let last = last_offset(total, height);
    if t.follow || t.scroll > last {
        last
    } else {
        t.scroll
    }
}

/// A command's result is shown as a `Result:` line with its exit code, then, whenever
/// it wrote anything, whatever the exit code, an `Output:` line with what it wrote;
/// nothing else changes.
pub proof fn lemma_result_shown(t: TranscriptView, a: ActionView, r: ExecutionResultView)
    ensures
        ({
            let u = apply_event(t, AgentEventView::ActionFinished(a, r));
            let head = "Result: (Code "@ + decimal(r.returncode as int) + ")"@;
            &&& r.output.len() > 0 ==> u.lines == t.lines.push(head).push("Output: "@ + r.output)
            &&& r.output.len() == 0 ==> u.lines == t.lines.push(head)
            &&& u.pending == t.pending
            &&& u.busy == t.busy
            &&& u.follow == t.follow
            &&& u.scroll == t.scroll
        }),
{
    let u = apply_event(t, AgentEventView::ActionFinished(a, r));
    let head = "Result: (Code "@ + decimal(r.returncode as int) + ")"@;
    if r.output.len() > 0 {
        assert(u.lines =~= t.lines.push(head).push("Output: "@ + r.output));
    } else {
        assert(u.lines =~= t.lines.push(head));
    }
}

/// How each other event shows: a piece of reply text is held, not yet a line; a
/// starting action first writes out the held text as an `Agent:` line, then an
/// `Action:` line; an error is an `Error:` line; a reset is a separator line and drops
/// the held text; a finished task writes out the held text and frees the input.
pub proof fn lemma_events_shown(t: TranscriptView, e: AgentEventView)
    ensures
        ({
            let u = apply_event(t, e);
            let written = if t.pending.len() > 0 {
                t.lines.push("Agent: "@ + t.pending)
            } else {
                t.lines
            };
            &&& e matches AgentEventView::TextDelta(d) ==> u.lines == t.lines && u.pending
                == t.pending + d && u.busy == t.busy
            &&& e matches AgentEventView::ActionStarted(a) ==> u.lines == written.push(
                "Action: "@ + action_text(a),
            ) && u.pending.len() == 0 && u.busy == t.busy
            &&& e matches AgentEventView::Error(m) ==> u.lines == t.lines.push("Error: "@ + m)
                && u.pending == t.pending && u.busy == t.busy
            &&& e is ConversationReset ==> u.lines == t.lines.push(
                "--- Conversation Reset ---"@,
            ) && u.pending.len() == 0 && u.busy == t.busy
            &&& e is TaskFinished ==> u.lines == written && u.pending.len() == 0 && !u.busy
        }),
{
}

/// Written lines stay: no event of the agent removes or changes a line of the
/// transcript, it only adds lines after them.
pub proof fn lemma_lines_only_grow(t: TranscriptView, e: AgentEventView)
    ensures
        t.lines.len() <= apply_event(t, e).lines.len(),
        apply_event(t, e).lines.subrange(0, t.lines.len() as int) == t.lines,
{
    let u = apply_event(t, e);
    assert(u.lines.subrange(0, t.lines.len() as int) =~= t.lines);
}

/// Streamed text is never lost: what has streamed in is shown, either as the
/// pending `Agent:` line or, once written out, in the written lines; only a reset
/// drops it.
pub proof fn lemma_streamed_text_shown(t: TranscriptView, d: Seq<char>)
    requires
        (t.pending + d).len() > 0,
    ensures
        shown_lines(apply_event(t, AgentEventView::TextDelta(d))).last() == "Agent: "@ + t.pending
            + d,
        shown_lines(apply_event(apply_event(t, AgentEventView::TextDelta(d)), AgentEventView::TaskFinished)).last()
            == "Agent: "@ + t.pending + d,
{
}

/// After a task finishes the transcript is no longer busy, so that the next
/// non-empty task is accepted.
pub proof fn lemma_finished_frees_input(t: TranscriptView)
    ensures
        !apply_event(t, AgentEventView::TaskFinished).busy,
{
}

} // verus!
