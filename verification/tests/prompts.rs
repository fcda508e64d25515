use urbilateria::models::deepseek_v4::prompt as v4;
use urbilateria::models::deepseek_v41::prompt as v41;
use urbilateria::models::glm::prompt as glm;

#[test]
fn readme_prompt_matches_official_reference() {
    let messages = [
        v4::Message::new(v4::Role::System, "You are a helpful assistant."),
        v4::Message::new(v4::Role::User, "What is 2+2?"),
    ];
    assert_eq!(
        v4::render_chat(&messages, v4::PromptOptions::default()),
        "<｜begin▁of▁sentence｜>You are a helpful assistant.<｜User｜>What is 2+2?<｜Assistant｜><think>"
    );
}

#[test]
fn chat_mode_closes_thinking_immediately() {
    let options = v4::PromptOptions {
        thinking_mode: v4::ThinkingMode::Chat,
        ..v4::PromptOptions::default()
    };
    assert_eq!(
        v4::render_chat(&[v4::Message::new(v4::Role::User, "hello")], options),
        "<｜begin▁of▁sentence｜><｜User｜>hello<｜Assistant｜></think>"
    );
}

#[test]
fn renders_default_numeric_effort_and_thinking_header() {
    let messages = [
        v41::Message::new(v41::Role::System, "You are helpful."),
        v41::Message::new(v41::Role::User, "Hello"),
    ];
    let expected = [
        "<｜begin▁of▁sentence｜><｜System｜>",
        "Reasoning Effort: 75 (range 1-100, the higher the value, the more thorough the reasoning)\n\n",
        "You are helpful.<｜User｜>Hello<｜Assistant｜><think>",
    ];
    assert_eq!(
        v41::render_chat(&messages, v41::PromptOptions::default()),
        expected.concat()
    );
}

#[test]
fn chat_mode_and_mid_conversation_system_follow_reference_transitions() {
    let messages = [
        v41::Message::new(v41::Role::User, "one"),
        v41::Message::assistant("two", None),
        v41::Message::new(v41::Role::System, "new rule"),
    ];
    let options = v41::PromptOptions {
        thinking_mode: v41::ThinkingMode::Chat,
        ..v41::PromptOptions::default()
    };
    let expected = [
        "<｜begin▁of▁sentence｜><｜User｜>one<｜Assistant｜></think>",
        "two<｜end▁of▁sentence｜><｜System｜>new rule<｜Assistant｜></think>",
    ];
    assert_eq!(v41::render_chat(&messages, options), expected.concat());
}

#[test]
fn numeric_effort_accepts_only_one_through_one_hundred() {
    assert_eq!(v41::ReasoningEffort::new(0), None);
    assert_eq!(v41::ReasoningEffort::new(1).unwrap().get(), 1);
    assert_eq!(v41::ReasoningEffort::new(100).unwrap().get(), 100);
    assert_eq!(v41::ReasoningEffort::new(101), None);
}

#[test]
fn named_efforts_have_their_numbers() {
    assert_eq!(v41::ReasoningEffort::low().get(), 50);
    assert_eq!(v41::ReasoningEffort::high().get(), 75);
    assert_eq!(v41::ReasoningEffort::max().get(), 100);
}

#[test]
fn history_reasoning_is_dropped_unless_it_is_kept() {
    let messages = [
        v4::Message::new(v4::Role::User, "one"),
        v4::Message::assistant("two", Some("because")),
        v4::Message::new(v4::Role::User, "three"),
    ];
    let dropped = v4::render_chat(&messages, v4::PromptOptions::default());
    assert!(!dropped.contains("because"));
    let kept = v4::render_chat(
        &messages,
        v4::PromptOptions {
            drop_history_reasoning: false,
            ..v4::PromptOptions::default()
        },
    );
    assert!(kept.contains("because"));
    assert!(kept.starts_with("<｜begin▁of▁sentence｜>"));
    let bare = v4::render_chat(
        &messages,
        v4::PromptOptions {
            add_bos: false,
            ..v4::PromptOptions::default()
        },
    );
    assert!(bare.starts_with("<｜User｜>one"));
}

#[test]
fn glm_reasoning_is_split_at_the_think_tags() {
    let (reasoning, answer) = glm::split_reasoning("<think>why</think>so");
    assert_eq!(reasoning, Some("why"));
    assert_eq!(answer, "so");
    let (reasoning, answer) = glm::split_reasoning("plain");
    assert_eq!(reasoning, None);
    assert_eq!(answer, "plain");
}

#[test]
fn glm_chat_opens_with_its_prefix_and_ends_with_the_generation_prompt() {
    let messages = [
        glm::ChatMessage::new(glm::ChatRole::System, "Be brief."),
        glm::ChatMessage::new(glm::ChatRole::User, "Hi"),
    ];
    assert_eq!(
        glm::render_chat(&messages, glm::ChatTemplateOptions::default()),
        "[gMASK]<sop><|system|>Reasoning Effort: Max<|system|>Be brief.<|user|>Hi<|assistant|><think>"
    );
    assert_eq!(
        glm::render_chat(
            &messages,
            glm::ChatTemplateOptions {
                add_generation_prompt: false,
                enable_thinking: false,
                preserve_history_reasoning: false,
            },
        ),
        "[gMASK]<sop><|system|>Be brief.<|user|>Hi"
    );
}

#[test]
fn glm_tool_answers_share_one_observation_and_history_loses_its_reasoning() {
    let messages = [
        glm::ChatMessage::new(glm::ChatRole::User, "one"),
        glm::ChatMessage::new(glm::ChatRole::Assistant, "<think>why</think> two "),
        glm::ChatMessage::new(glm::ChatRole::Tool, "a"),
        glm::ChatMessage::new(glm::ChatRole::Tool, "b"),
        glm::ChatMessage::new(glm::ChatRole::User, "three"),
        glm::ChatMessage::new(glm::ChatRole::Assistant, "<think>late</think>four"),
    ];
    let options = glm::ChatTemplateOptions {
        add_generation_prompt: true,
        enable_thinking: false,
        preserve_history_reasoning: false,
    };
    let expected = [
        "[gMASK]<sop><|user|>one<|assistant|><think></think>two",
        "<|observation|><tool_response>a</tool_response><tool_response>b</tool_response>",
        "<|user|>three<|assistant|><think>late</think>four<|assistant|><think></think>",
    ];
    assert_eq!(glm::render_chat(&messages, options), expected.concat());
    let kept = glm::render_chat(
        &messages,
        glm::ChatTemplateOptions {
            preserve_history_reasoning: true,
            ..options
        },
    );
    assert!(kept.contains("<think>why</think>two"));
}

#[test]
fn reasoning_effort_stands_in_front_of_the_conversation() {
    assert_eq!(v4::reasoning_prefix(v4::ReasoningEffort::Low), "");
    assert!(v4::reasoning_prefix(v4::ReasoningEffort::High)
        .starts_with("Reasoning Effort: Absolute maximum with no shortcuts permitted.\n"));
    assert!(v4::reasoning_prefix(v4::ReasoningEffort::Max).ends_with("undiscovered.\n\n"));
}

#[test]
fn chat_mode_renders_no_reasoning_even_where_history_keeps_it() {
    let v4_options = v4::PromptOptions {
        thinking_mode: v4::ThinkingMode::Chat,
        drop_history_reasoning: false,
        ..v4::PromptOptions::default()
    };
    let v41_options = v41::PromptOptions {
        thinking_mode: v41::ThinkingMode::Chat,
        drop_history_reasoning: false,
        ..v41::PromptOptions::default()
    };
    let v4_chat = |reasoning| {
        v4::render_chat(
            &[
                v4::Message::new(v4::Role::User, "one"),
                v4::Message::assistant("two", reasoning),
            ],
            v4_options,
        )
    };
    let v41_chat = |reasoning| {
        v41::render_chat(
            &[
                v41::Message::new(v41::Role::User, "one"),
                v41::Message::assistant("two", reasoning),
            ],
            v41_options,
        )
    };
    assert_eq!(v4_chat(Some("because")), v4_chat(None));
    assert_eq!(v41_chat(Some("because")), v41_chat(None));
}
