use mini_swe_agent::agent::AgentEvent;
use mini_swe_agent::env::ExecutionResult;
use mini_swe_agent::model::Action;
use mini_swe_agent::tui::{Key, KeyOutcome, Transcript};

#[test]
fn enter_submits_only_when_idle_and_non_empty() {
    let mut t = Transcript::new();
    assert_eq!(t.on_key(Key::Enter, "", 0, 0), KeyOutcome::Handled);
    assert_eq!(t.on_key(Key::Enter, "do it", 0, 0), KeyOutcome::StartTask("do it".to_string()));
    assert!(t.is_busy());
    assert_eq!(t.on_key(Key::Enter, "more", 0, 0), KeyOutcome::Handled);
    assert_eq!(t.shown(), vec!["User: do it".to_string()]);
    t.apply(&AgentEvent::TaskFinished);
    assert!(!t.is_busy());
    assert_eq!(t.on_key(Key::Enter, "more", 0, 0), KeyOutcome::StartTask("more".to_string()));
}

#[test]
fn events_become_lines() {
    let mut t = Transcript::new();
    t.submit("task");
    t.apply(&AgentEvent::TextDelta("Let me ".to_string()));
    t.apply(&AgentEvent::TextDelta("look.".to_string()));
    assert_eq!(t.shown().last().unwrap(), "Agent: Let me look.");
    t.apply(&AgentEvent::ActionStarted(Action::Bash("ls \"a\"".to_string())));
    let r = ExecutionResult::from_text("f".to_string(), String::new(), Some(0));
    t.apply(&AgentEvent::ActionFinished(Action::Bash("ls".to_string()), r));
    let empty = ExecutionResult::from_text(String::new(), String::new(), Some(1));
    t.apply(&AgentEvent::ActionFinished(Action::Bash("true".to_string()), empty));
    t.apply(&AgentEvent::ActionStarted(Action::Reset));
    t.apply(&AgentEvent::ConversationReset);
    t.apply(&AgentEvent::Error("Model error: x".to_string()));
    t.apply(&AgentEvent::TaskFinished);
    assert_eq!(
        t.shown(),
        vec![
            "User: task",
            "Agent: Let me look.",
            "Action: Bash(\"ls \\\"a\\\"\")",
            "Result: (Code 0)",
            "Output: f",
            "Result: (Code 1)",
            "Action: Reset",
            "--- Conversation Reset ---",
            "Error: Model error: x",
        ]
    );
}

#[test]
fn final_reply_text_is_kept() {
    let mut t = Transcript::new();
    t.submit("task");
    t.apply(&AgentEvent::TextDelta("Answer".to_string()));
    t.apply(&AgentEvent::TaskFinished);
    assert_eq!(t.shown(), vec!["User: task", "Agent: Answer"]);
}

#[test]
fn action_description_matches_debug() {
    for a in [Action::Bash("echo 'x'\n".to_string()), Action::Reset] {
        assert_eq!(a.describe(), format!("{:?}", a));
    }
}

#[test]
fn scrolling_moves_one_line() {
    let mut t = Transcript::new();
    assert!(t.is_following());
    assert_eq!(t.view_offset(30, 10), 20);
    assert_eq!(t.on_key(Key::Up, "", 30, 10), KeyOutcome::Handled);
    assert!(!t.is_following());
    assert_eq!(t.view_offset(30, 10), 19);
    t.on_key(Key::Up, "", 30, 10);
    assert_eq!(t.view_offset(30, 10), 18);
    t.on_key(Key::Down, "", 30, 10);
    t.on_key(Key::Down, "", 30, 10);
    t.on_key(Key::Down, "", 30, 10);
    assert_eq!(t.view_offset(30, 10), 20);
    t.on_key(Key::Up, "", 30, 10);
    assert_eq!(t.view_offset(30, 10), 19);
    for _ in 0..25 {
        t.on_key(Key::Up, "", 30, 10);
    }
    assert_eq!(t.view_offset(30, 10), 0);
    t.on_key(Key::Down, "", 30, 10);
    assert_eq!(t.view_offset(30, 10), 1);
    assert_eq!(t.view_offset(5, 10), 0);
}

#[test]
fn scrolling_and_following() {
    let mut t = Transcript::new();
    t.on_key(Key::Up, "", 30, 10);
    assert_eq!(t.view_offset(40, 10), 19);
    t.on_key(Key::ToggleFollow, "", 30, 10);
    assert!(t.is_following());
    assert_eq!(t.view_offset(40, 10), 30);
    assert_eq!(t.on_key(Key::Escape, "", 30, 10), KeyOutcome::Quit);
    assert_eq!(t.on_key(Key::Other, "", 30, 10), KeyOutcome::Edit);
}
