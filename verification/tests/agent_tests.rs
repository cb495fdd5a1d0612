use mini_swe_agent::agent::{observation, Agent, AgentEvent, TaskCommand, TaskEvent, SYSTEM_PROMPT};
use mini_swe_agent::env::{ExecutionResult, LocalEnvironment};
use mini_swe_agent::model::{Action, MessageRole, OpenAIModel};

fn agent() -> Agent {
    Agent::new(OpenAIModel::new(None, None, None), LocalEnvironment::new(None, None))
}

#[test]
fn new_agent_holds_only_the_system_prompt() {
    let a = agent();
    assert_eq!(a.messages().len(), 1);
    assert_eq!(a.messages()[0].role, MessageRole::System);
    assert_eq!(a.messages()[0].content, SYSTEM_PROMPT);
    assert!(SYSTEM_PROMPT.starts_with("You are a helpful AI software engineer. You can use bash"));
    assert!(SYSTEM_PROMPT.contains("[[RESET]]"));
    assert!(!a.is_busy());
}

#[test]
fn command_round_then_reset() {
    let mut a = agent();
    let (events, cmd) = a.step(TaskEvent::Start("list files".to_string()));
    assert!(events.is_empty());
    match cmd {
        TaskCommand::Query(ms) => {
            assert_eq!(ms.len(), 2);
            assert_eq!(ms[1].role, MessageRole::User);
            assert_eq!(ms[1].content, "list files");
        }
        other => panic!("unexpected {:?}", other),
    }
    let (events, cmd) = a.step(TaskEvent::Delta("Sure.\n```bash\nls\n".to_string()));
    assert_eq!(events, vec![AgentEvent::TextDelta("Sure.\n```bash\nls\n".to_string())]);
    assert_eq!(cmd, TaskCommand::Receive);
    let (_, _) = a.step(TaskEvent::Delta("```".to_string()));
    let (events, cmd) = a.step(TaskEvent::ReplyEnded);
    assert_eq!(events, vec![AgentEvent::ActionStarted(Action::Bash("ls".to_string()))]);
    assert_eq!(cmd, TaskCommand::Execute("ls".to_string()));
    assert_eq!(a.messages().len(), 3);
    assert_eq!(a.messages()[2].content, "Sure.\n```bash\nls\n```");

    let result = ExecutionResult::from_text("a\nb".to_string(), String::new(), Some(0));
    let (events, cmd) = a.step(TaskEvent::CommandFinished(result.clone()));
    assert_eq!(
        events,
        vec![AgentEvent::ActionFinished(Action::Bash("ls".to_string()), result)]
    );
    match cmd {
        TaskCommand::Query(ms) => {
            assert_eq!(ms.len(), 4);
            assert_eq!(ms[3].content, "Command: ls\nReturn code: 0\nOutput:\na\nb");
        }
        other => panic!("unexpected {:?}", other),
    }
    let (_, _) = a.step(TaskEvent::Delta("All done. [[RESET]] ```bash\nrm x\n```".to_string()));
    let (events, cmd) = a.step(TaskEvent::ReplyEnded);
    assert_eq!(
        events,
        vec![
            AgentEvent::ActionStarted(Action::Reset),
            AgentEvent::ConversationReset,
            AgentEvent::TaskFinished
        ]
    );
    assert_eq!(cmd, TaskCommand::Stop);
    assert_eq!(a.messages().len(), 1);
    assert_eq!(a.messages()[0].content, SYSTEM_PROMPT);
    assert!(!a.is_busy());
}

#[test]
fn reply_without_actions_ends_the_task() {
    let mut a = agent();
    a.step(TaskEvent::Start("hi".to_string()));
    a.step(TaskEvent::Delta("Hello!".to_string()));
    let (events, cmd) = a.step(TaskEvent::ReplyEnded);
    assert_eq!(events, vec![AgentEvent::TaskFinished]);
    assert_eq!(cmd, TaskCommand::Stop);
    assert_eq!(a.messages().len(), 3);
    assert_eq!(a.messages()[2].role, MessageRole::Assistant);
}

#[test]
fn model_and_stream_errors_end_the_task() {
    let mut a = agent();
    a.step(TaskEvent::Start("hi".to_string()));
    let (events, cmd) = a.step(TaskEvent::ModelFailed("OPENAI_API_KEY not set".to_string()));
    assert_eq!(
        events,
        vec![
            AgentEvent::Error("Model error: OPENAI_API_KEY not set".to_string()),
            AgentEvent::TaskFinished
        ]
    );
    assert_eq!(cmd, TaskCommand::Stop);
    a.step(TaskEvent::Start("again".to_string()));
    a.step(TaskEvent::Delta("par".to_string()));
    let (events, _) = a.step(TaskEvent::StreamFailed("connection reset".to_string()));
    assert_eq!(
        events,
        vec![
            AgentEvent::Error("Stream error: connection reset".to_string()),
            AgentEvent::TaskFinished
        ]
    );
    // the broken reply is not recorded
    assert_eq!(a.messages().len(), 3);
}

#[test]
fn unexpected_events_change_nothing() {
    let mut a = agent();
    let (events, cmd) = a.step(TaskEvent::ReplyEnded);
    assert!(events.is_empty());
    assert_eq!(cmd, TaskCommand::Stop);
    a.step(TaskEvent::Start("t".to_string()));
    let (events, cmd) = a.step(TaskEvent::Start("other".to_string()));
    assert!(events.is_empty());
    assert_eq!(cmd, TaskCommand::Receive);
    assert_eq!(a.messages().len(), 2);
}

#[test]
fn two_commands_then_ask_again() {
    let mut a = agent();
    a.step(TaskEvent::Start("t".to_string()));
    a.step(TaskEvent::Delta("```bash\na\n``` and ```bash\nb\n```".to_string()));
    let (_, cmd) = a.step(TaskEvent::ReplyEnded);
    assert_eq!(cmd, TaskCommand::Execute("a".to_string()));
    let r = ExecutionResult::from_text(String::new(), String::new(), Some(1));
    let (events, cmd) = a.step(TaskEvent::CommandFinished(r.clone()));
    assert_eq!(
        events,
        vec![
            AgentEvent::ActionFinished(Action::Bash("a".to_string()), r.clone()),
            AgentEvent::ActionStarted(Action::Bash("b".to_string()))
        ]
    );
    assert_eq!(cmd, TaskCommand::Execute("b".to_string()));
    let (_, cmd) = a.step(TaskEvent::CommandFinished(r));
    assert!(matches!(cmd, TaskCommand::Query(ref ms) if ms.len() == 5));
}

#[test]
fn observation_format() {
    let r = ExecutionResult::from_text("x".to_string(), String::new(), Some(-3));
    assert_eq!(observation("false", &r), "Command: false\nReturn code: -3\nOutput:\nx");
}

/// Drives a task with scripted outcomes and collects every reported event.
fn drive(replies: &[&str]) -> Vec<AgentEvent> {
    let mut a = agent();
    let mut all = Vec::new();
    let (events, mut cmd) = a.step(TaskEvent::Start("task".to_string()));
    all.extend(events);
    let mut replies = replies.iter();
    loop {
        let event = match cmd {
            TaskCommand::Query(_) => match replies.next() {
                Some(r) => {
                    let (events, _) = a.step(TaskEvent::Delta(r.to_string()));
                    all.extend(events);
                    TaskEvent::ReplyEnded
                }
                None => TaskEvent::ModelFailed("out of replies".to_string()),
            },
            TaskCommand::Execute(c) => {
                TaskEvent::CommandFinished(ExecutionResult::from_text(c, String::new(), Some(0)))
            }
            TaskCommand::Receive => TaskEvent::ReplyEnded,
            TaskCommand::Stop => break,
        };
        let (events, next) = a.step(event);
        all.extend(events);
        cmd = next;
    }
    all
}

#[test]
fn whole_task_events_in_order_and_finished_once() {
    for replies in [
        vec!["```bash\na\n``` ```bash\nb\n```", "done"],
        vec!["```bash\na\n```", "[[RESET]] ```bash\nnever\n```"],
        vec!["```bash\na\n```"],
    ] {
        let all = drive(&replies);
        let finished: Vec<usize> = all
            .iter()
            .enumerate()
            .filter(|(_, e)| **e == AgentEvent::TaskFinished)
            .map(|(i, _)| i)
            .collect();
        assert_eq!(finished, vec![all.len() - 1]);
        for (i, e) in all.iter().enumerate() {
            if let AgentEvent::TextDelta(_) = e {
                if i > 0 {
                    assert!(matches!(
                        all[i - 1],
                        AgentEvent::TextDelta(_) | AgentEvent::ActionFinished(_, _) | AgentEvent::TaskFinished
                    ));
                }
            }
            if let AgentEvent::ActionFinished(a, _) = e {
                assert_eq!(all[i - 1], AgentEvent::ActionStarted(a.clone()));
            }
            if *e == AgentEvent::ActionStarted(Action::Reset) {
                assert_eq!(all[i + 1], AgentEvent::ConversationReset);
                assert_eq!(all[i + 2], AgentEvent::TaskFinished);
            }
        }
    }
}

#[test]
fn every_query_opens_with_the_prompt_and_ends_with_a_user_message() {
    let mut a = agent();
    let mut queries = Vec::new();
    let (_, cmd) = a.step(TaskEvent::Start("t".to_string()));
    queries.push(cmd);
    a.step(TaskEvent::Delta("```bash\nx\n```".to_string()));
    a.step(TaskEvent::ReplyEnded);
    let (_, cmd) = a.step(TaskEvent::CommandFinished(ExecutionResult::spawn_failed("no shell")));
    queries.push(cmd);
    for q in queries {
        match q {
            TaskCommand::Query(ms) => {
                assert_eq!(ms[0].role, MessageRole::System);
                assert_eq!(ms[0].content, SYSTEM_PROMPT);
                assert!(ms[1..].iter().all(|m| m.role != MessageRole::System));
                assert_eq!(ms.last().unwrap().role, MessageRole::User);
            }
            other => panic!("unexpected {:?}", other),
        }
    }
}
