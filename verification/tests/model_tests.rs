use mini_swe_agent::model::{Action, Message, MessageRole, OpenAIModel};

#[test]
fn test_parse_actions() {
    let model = OpenAIModel::new(None, None, None);

    let content = "I will list the files.\n```bash\nls -la\n```\nAnd then I will reset.\nRESET_AGENT_STATE";
    let actions = model.parse_actions(content);

    assert_eq!(actions.len(), 2);
    assert_eq!(actions[0], Action::Bash("ls -la".to_string()));
    assert_eq!(actions[1], Action::Reset);
}

#[test]
fn test_parse_multiple_bash() {
    let model = OpenAIModel::new(None, None, None);
    let content = "```bash\necho 1\n```\n```bash\necho 2\n```";
    let actions = model.parse_actions(content);
    assert_eq!(actions.len(), 2);
    assert_eq!(actions[0], Action::Bash("echo 1".to_string()));
    assert_eq!(actions[1], Action::Bash("echo 2".to_string()));
}

#[test]
fn parse_reset_keyword_of_the_prompt() {
    let model = OpenAIModel::new(None, None, None);
    assert_eq!(model.parse_actions("Starting over. [[RESET]]"), vec![Action::Reset]);
}

#[test]
fn parse_plain_text_asks_nothing() {
    let model = OpenAIModel::new(None, None, None);
    assert!(model.parse_actions("Nothing to run here, just ``` quotes and RESET words.").is_empty());
    assert!(model.parse_actions("").is_empty());
}

#[test]
fn parse_reset_before_command_keeps_order() {
    let model = OpenAIModel::new(None, None, None);
    let actions = model.parse_actions("[[RESET]] then ```bash\npwd\n``` and RESET_AGENT_STATE");
    assert_eq!(
        actions,
        vec![Action::Reset, Action::Bash("pwd".to_string()), Action::Reset]
    );
}

#[test]
fn parse_empty_block_gives_no_command() {
    let model = OpenAIModel::new(None, None, None);
    assert!(model.parse_actions("```bash\n   \n\t```").is_empty());
    assert!(model.parse_actions("```bash```").is_empty());
}

#[test]
fn parse_unclosed_block_is_skipped() {
    let model = OpenAIModel::new(None, None, None);
    assert!(model.parse_actions("```bash\nls -la").is_empty());
    assert_eq!(model.parse_actions("```bash\nls [[RESET]]"), vec![Action::Reset]);
}

#[test]
fn parse_keeps_inner_lines_and_trims_ends() {
    let model = OpenAIModel::new(None, None, None);
    let actions = model.parse_actions("```bash\n  cd /tmp\n  ls\u{3000}\n```");
    assert_eq!(actions, vec![Action::Bash("cd /tmp\n  ls".to_string())]);
}

#[test]
fn parse_reset_inside_block_is_part_of_the_command() {
    let model = OpenAIModel::new(None, None, None);
    let actions = model.parse_actions("```bash\necho [[RESET]]\n```");
    assert_eq!(actions, vec![Action::Bash("echo [[RESET]]".to_string())]);
    let actions = model.parse_actions("```bash\necho hi\n```\n```bash\necho é\n```");
    assert_eq!(
        actions,
        vec![Action::Bash("echo hi".to_string()), Action::Bash("echo é".to_string())]
    );
}

#[test]
fn model_defaults_and_settings() {
    let model = OpenAIModel::new(None, None, None);
    assert_eq!(model.model_name(), "gpt-4o");
    assert_eq!(model.api_key(), None);
    let named = OpenAIModel::new(Some("gpt-4.1".to_string()), None, None);
    assert_eq!(named.model_name(), "gpt-4.1");
    let keyed = OpenAIModel::new(None, Some("k".to_string()), Some("http://x/v1".to_string()));
    assert_eq!(keyed.api_key(), Some("k"));
    assert_eq!(keyed.api_base(), Some("http://x/v1"));
    let unkeyed = OpenAIModel::new(None, None, Some("http://x/v1".to_string()));
    assert_eq!(unkeyed.api_base(), None);
}

#[test]
fn chat_request_needs_a_key() {
    let model = OpenAIModel::new(None, None, None);
    let messages = vec![Message { role: MessageRole::User, content: "hi".to_string() }];
    assert_eq!(model.chat_request(&messages).unwrap_err(), "OPENAI_API_KEY not set");
}

#[test]
fn chat_request_carries_model_messages_and_streaming() {
    let model = OpenAIModel::new(Some("m1".to_string()), Some("k".to_string()), None);
    let messages = vec![
        Message { role: MessageRole::System, content: "sys".to_string() },
        Message { role: MessageRole::User, content: "task".to_string() },
        Message { role: MessageRole::Assistant, content: "reply".to_string() },
        Message { role: MessageRole::Tool, content: "tool out".to_string() },
    ];
    let request = model.chat_request(&messages).unwrap();
    assert_eq!(request.model, "m1");
    assert_eq!(request.stream, Some(true));
    assert_eq!(request.messages.len(), 4);
    let text = format!("{:?}", request.messages);
    assert!(text.contains("System"));
    assert!(text.contains("Assistant"));
    match &request.messages[3] {
        async_openai::types::ChatCompletionRequestMessage::User(m) => {
            assert_eq!(format!("{:?}", m.content), "Text(\"tool out\")");
        }
        other => panic!("tool message sent as {:?}", other),
    }
}

#[test]
fn message_clone_keeps_role_and_content() {
    let m = Message { role: MessageRole::Tool, content: "x".to_string() };
    assert_eq!(m.clone(), m);
}

#[test]
fn bash_blocks_round_trip() {
    let model = OpenAIModel::new(None, None, None);
    let cs = ["ls -la", "echo [[RESET]] RESET_AGENT_STATE", "cd /tmp && pwd", "printf 'a\\nb'"];
    let content: String = cs.iter().map(|c| format!("```bash\n{}\n```\n", c)).collect();
    let expected: Vec<Action> = cs.iter().map(|c| Action::Bash(c.to_string())).collect();
    assert_eq!(model.parse_actions(&content), expected);
}

#[test]
fn marker_free_prose_changes_nothing() {
    let model = OpenAIModel::new(None, None, None);
    let reply = "```bash\nls\n``` [[RESET]]";
    let prose = "Let me think about the REQUEST first; [[ no markers ]] here.\n";
    assert_eq!(model.parse_actions(&format!("{}{}", prose, reply)), model.parse_actions(reply));
    let keyed = OpenAIModel::new(Some("x".to_string()), Some("k".to_string()), None);
    assert_eq!(keyed.parse_actions(reply), model.parse_actions(reply));
}
