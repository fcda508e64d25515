//! Text-only DeepSeek-V4 chat protocol.

use vstd::prelude::*;
use vstd::string::*;

verus! {

pub const BOS: &'static str = "<｜begin▁of▁sentence｜>";

pub const EOS: &'static str = "<｜end▁of▁sentence｜>";

pub const USER: &'static str = "<｜User｜>";

pub const ASSISTANT: &'static str = "<｜Assistant｜>";

pub const THINK_START: &'static str = "<think>";

pub const THINK_END: &'static str = "</think>";

#[derive(Debug, Clone, Copy, PartialEq, Eq, Structural)]
pub enum Role {
    System,
    User,
    Assistant,
}

#[derive(Debug, Clone, PartialEq, Eq)]
pub struct Message {
    pub role: Role,
    pub content: String,
    pub reasoning_content: Option<String>,
}

impl Message {
    pub fn new(role: Role, content: &str) -> (message: Self)
        ensures
            message.role == role,
            message.content@ == content@,
            message.reasoning_content is None,
    {
        Message { role, content: content.to_owned(), reasoning_content: None }
    }

    pub fn assistant(content: &str, reasoning_content: Option<&str>) -> (message: Self)
        ensures
            message.role == Role::Assistant,
            message.content@ == content@,
            match reasoning_content {
                Some(reasoning) => message.reasoning_content matches Some(kept) && kept@
                    == reasoning@,
                None => message.reasoning_content is None,
            },
    {
        let kept = match reasoning_content {
            Some(reasoning) => Some(reasoning.to_owned()),
            None => None,
        };
        Message { role: Role::Assistant, content: content.to_owned(), reasoning_content: kept }
    }
}

#[derive(Debug, Clone, Copy, PartialEq, Eq, Structural)]
pub enum ThinkingMode {
    Thinking,
    Chat,
}

#[derive(Debug, Clone, Copy, PartialEq, Eq, Structural)]
pub enum ReasoningEffort {
    Low,
    High,
    Max,
}

#[derive(Debug, Clone, Copy, PartialEq, Eq, Structural)]
pub struct PromptOptions {
    pub thinking_mode: ThinkingMode,
    pub reasoning_effort: ReasoningEffort,
    pub drop_history_reasoning: bool,
    pub add_bos: bool,
}

impl Default for PromptOptions {
    fn default() -> (options: Self)
        ensures
            options == (PromptOptions {
                thinking_mode: ThinkingMode::Thinking,
                reasoning_effort: ReasoningEffort::Low,
                drop_history_reasoning: true,
                add_bos: true,
            }),
    {
        PromptOptions {
            thinking_mode: ThinkingMode::Thinking,
            reasoning_effort: ReasoningEffort::Low,
            drop_history_reasoning: true,
            add_bos: true,
        }
    }
}

/// The instruction in front of the conversation.
pub open spec fn prefix_of(effort: ReasoningEffort) -> Seq<char> {
    match effort {
        ReasoningEffort::Low => ""@,
        ReasoningEffort::High =>
            "Reasoning Effort: Absolute maximum with no shortcuts permitted.\nYou MUST be very thorough in your thinking and comprehensively decompose the problem to resolve the root cause, rigorously stress-testing your logic against all potential paths, edge cases, and adversarial scenarios.\nExplicitly write out your entire deliberation process, documenting every intermediate step, considered alternative, and rejected hypothesis to ensure absolutely no assumption is left unchecked.\n\n"@,
        ReasoningEffort::Max =>
            "Reasoning Effort: Beyond maximum — exhaustive, relentless, and uncompromising.\nYou MUST reason with the utmost depth and rigor, leaving absolutely nothing to chance: exhaustively decompose the problem into its most fundamental components, trace every causal chain to its root, and resolve the underlying cause rather than any surface symptom.\nDo not stop reasoning until you have independently verified the solution from multiple angles and are certain that no assumption remains unchecked and no error remains undiscovered.\n\n"@,
    }
}

pub fn reasoning_prefix(effort: ReasoningEffort) -> (text: &'static str)
    ensures
        text@ == prefix_of(effort),
{
    match effort {
        ReasoningEffort::Low => "",
        ReasoningEffort::High =>
            "Reasoning Effort: Absolute maximum with no shortcuts permitted.\nYou MUST be very thorough in your thinking and comprehensively decompose the problem to resolve the root cause, rigorously stress-testing your logic against all potential paths, edge cases, and adversarial scenarios.\nExplicitly write out your entire deliberation process, documenting every intermediate step, considered alternative, and rejected hypothesis to ensure absolutely no assumption is left unchecked.\n\n",
        ReasoningEffort::Max =>
            "Reasoning Effort: Beyond maximum — exhaustive, relentless, and uncompromising.\nYou MUST reason with the utmost depth and rigor, leaving absolutely nothing to chance: exhaustively decompose the problem into its most fundamental components, trace every causal chain to its root, and resolve the underlying cause rather than any surface symptom.\nDo not stop reasoning until you have independently verified the solution from multiple angles and are certain that no assumption remains unchecked and no error remains undiscovered.\n\n",
    }
}

/// A user message stands before `index` and none at or behind it.
pub open spec fn behind_last_user(messages: Seq<Message>, index: int) -> bool {
    &&& exists|user: int| 0 <= user < index && #[trigger] messages[user].role == Role::User
    &&& forall|later: int|
        index <= later < messages.len() ==> #[trigger] messages[later].role != Role::User
}

/// What stands in front of the first message.
pub open spec fn opening(options: PromptOptions) -> Seq<char> {
    (if options.add_bos {
        BOS@
    } else {
        Seq::empty()
    }) + if options.thinking_mode == ThinkingMode::Thinking {
        prefix_of(options.reasoning_effort)
    } else {
        Seq::empty()
    }
}

/// The reasoning of an assistant message, with its closing mark.
pub open spec fn reasoning_text(message: Message) -> Seq<char> {
    match message.reasoning_content {
        Some(reasoning) => reasoning@ + THINK_END@,
        None => THINK_END@,
    }
}

/// The reasoning of a message is kept: it is an assistant's, in thinking mode, and either all
/// reasoning is kept or the message stands behind the last user message.
pub open spec fn keeps_reasoning(
    messages: Seq<Message>,
    options: PromptOptions,
    index: int,
) -> bool {
    &&& messages[index].role == Role::Assistant
    &&& options.thinking_mode == ThinkingMode::Thinking
    &&& !options.drop_history_reasoning || behind_last_user(messages, index)
}

/// One message by itself.
pub open spec fn message_text(
    messages: Seq<Message>,
    options: PromptOptions,
    index: int,
) -> Seq<char> {
    let message = messages[index];
    match message.role {
        Role::System => message.content@,
        Role::User => USER@ + message.content@,
        Role::Assistant => (if keeps_reasoning(messages, options, index) {
            reasoning_text(message)
        } else {
            Seq::empty()
        }) + message.content@ + EOS@,
    }
}

/// The assistant's turn opens behind a user message that ends the conversation or is answered.
pub open spec fn turn_text(
    messages: Seq<Message>,
    options: PromptOptions,
    index: int,
) -> Seq<char> {
    if messages[index].role == Role::User && (index + 1 >= messages.len() || messages[index
        + 1].role == Role::Assistant) {
        ASSISTANT@ + match options.thinking_mode {
            ThinkingMode::Thinking => THINK_START@,
            ThinkingMode::Chat => THINK_END@,
        }
    } else {
        Seq::empty()
    }
}

/// The prompt of the first `count` messages of a conversation.
pub open spec fn prompt_of(
    messages: Seq<Message>,
    options: PromptOptions,
    count: int,
) -> Seq<char>
    decreases count,
{
    if count <= 0 {
        opening(options)
    } else {
        prompt_of(messages, options, count - 1) + message_text(messages, options, count - 1)
            + turn_text(messages, options, count - 1)
    }
}

fn find_last_user(messages: &[Message]) -> (last: Option<usize>)
    ensures
        match last {
            Some(last) => {
                &&& last < messages@.len()
                &&& messages@[last as int].role == Role::User
                &&& forall|later: int|
                    last < later < messages@.len() ==> #[trigger] messages@[later].role
                        != Role::User
            },
            None => forall|index: int|
                0 <= index < messages@.len() ==> #[trigger] messages@[index].role != Role::User,
        },
{
    let mut index: usize = messages.len();
    while index > 0
        invariant
            index <= messages@.len(),
            forall|later: int|
                index <= later < messages@.len() ==> #[trigger] messages@[later].role
                    != Role::User,
        decreases index,
    {
        index = index - 1;
        if messages[index].role == Role::User {
            return Some(index);
        }
    }
    None
}

fn push_message(
    prompt: &mut String,
    messages: &[Message],
    options: PromptOptions,
    index: usize,
    last_user: Option<usize>,
)
    requires
        index < messages@.len(),
        messages@[index as int].role == Role::Assistant ==> (last_user matches Some(last) && index
            > last) == behind_last_user(messages@, index as int),
    ensures
        final(prompt)@ == old(prompt)@ + message_text(messages@, options, index as int),
{
    let message = &messages[index];
    match message.role {
        Role::System => {
            prompt.append(message.content.as_str());
        },
        Role::User => {
            prompt.append(USER);
            prompt.append(message.content.as_str());
        },
        Role::Assistant => {
            if options.thinking_mode == ThinkingMode::Thinking {
                let behind = match last_user {
                    Some(last) => index > last,
                    None => false,
                };
                if !options.drop_history_reasoning || behind {
                    if let Some(reasoning) = &message.reasoning_content {
                        prompt.append(reasoning.as_str());
                    }
                    prompt.append(THINK_END);
                }
            }
            prompt.append(message.content.as_str());
            prompt.append(EOS);
        },
    }
    proof {
        assert(prompt@ =~= old(prompt)@ + message_text(messages@, options, index as int));
    }
}

fn push_turn(prompt: &mut String, messages: &[Message], options: PromptOptions, index: usize)
    requires
        index < messages@.len(),
    ensures
        final(prompt)@ == old(prompt)@ + turn_text(messages@, options, index as int),
{
    let opens = messages[index].role == Role::User && (index + 1 >= messages.len() || messages[index
        + 1].role == Role::Assistant);
    if opens {
        prompt.append(ASSISTANT);
        prompt.append(
            match options.thinking_mode {
                ThinkingMode::Thinking => THINK_START,
                ThinkingMode::Chat => THINK_END,
            },
        );
    }
    proof {
        assert(prompt@ =~= old(prompt)@ + turn_text(messages@, options, index as int));
    }
}

/// Renders the official text-only protocol.
pub fn render_chat(messages: &[Message], options: PromptOptions) -> (prompt: String)
    ensures
        prompt@ == prompt_of(messages@, options, messages@.len() as int),
{
    let last_user = find_last_user(messages);
    let mut prompt = String::new();
    if options.add_bos {
        prompt.append(BOS);
    }
    if options.thinking_mode == ThinkingMode::Thinking {
        prompt.append(reasoning_prefix(options.reasoning_effort));
    }
    proof {
        assert(prompt@ =~= opening(options));
    }
    let mut index: usize = 0;
    while index < messages.len()
        invariant
            index <= messages@.len(),
            prompt@ == prompt_of(messages@, options, index as int),
            match last_user {
                Some(last) => {
                    &&& last < messages@.len()
                    &&& messages@[last as int].role == Role::User
                    &&& forall|later: int|
                        last < later < messages@.len() ==> #[trigger] messages@[later].role
                            != Role::User
                },
                None => forall|other: int|
                    0 <= other < messages@.len() ==> #[trigger] messages@[other].role
                        != Role::User,
            },
        decreases messages@.len() - index,
    {
        push_message(&mut prompt, messages, options, index, last_user);
        push_turn(&mut prompt, messages, options, index);
        index = index + 1;
    }
    prompt
}

/// Two conversations that differ only in reasoning that is not kept render alike: any of it in chat
/// mode, and in thinking mode what is dropped from the history.
pub proof fn dropped_reasoning_is_not_rendered(
    left: Seq<Message>,
    right: Seq<Message>,
    options: PromptOptions,
    count: int,
)
    requires
        left.len() == right.len(),
        0 <= count <= left.len(),
        forall|i: int|
            0 <= i < left.len() ==> (#[trigger] left[i]).role == right[i].role
                && left[i].content@ == right[i].content@,
        forall|i: int|
            0 <= i < left.len() && keeps_reasoning(left, options, i) ==> reasoning_text(
                #[trigger] left[i],
            ) == reasoning_text(right[i]),
    ensures
        prompt_of(left, options, count) == prompt_of(right, options, count),
    decreases count,
{
    if count > 0 {
        let index = count - 1;
        dropped_reasoning_is_not_rendered(left, right, options, index);
        assert(left[index].role == right[index].role);
        if behind_last_user(left, index) {
            let user = choose|user: int|
                0 <= user < index && #[trigger] left[user].role == Role::User;
            assert(right[user].role == Role::User);
            assert forall|later: int| index <= later < right.len() implies #[trigger] right[
                later
            ].role != Role::User by {
                assert(left[later].role != Role::User);
            }
        }
        if behind_last_user(right, index) {
            let user = choose|user: int|
                0 <= user < index && #[trigger] right[user].role == Role::User;
            assert(left[user].role == Role::User);
            assert forall|later: int| index <= later < left.len() implies #[trigger] left[
                later
            ].role != Role::User by {
                assert(right[later].role != Role::User);
            }
        }
        if count < left.len() {
            assert(left[count].role == right[count].role);
        }
    }
}

/// Behind the opening stands one piece for each message, in their order, and nothing else. A system
/// message is its content; a user's stands behind its mark; an assistant's stands right in front of
/// the end of its sentence, and behind its reasoning where that is kept: in thinking mode, for all
/// assistants on request and otherwise for those behind the last user. Behind a user who is answered,
/// or who speaks last, the assistant's turn opens, with reasoning to come in thinking mode and
/// without it in chat mode.
pub proof fn every_message_is_rendered(messages: Seq<Message>, options: PromptOptions, i: int)
    requires
        0 <= i < messages.len(),
    ensures
        ({
            let thinking = options.thinking_mode == ThinkingMode::Thinking;
            let content = messages[i].content@;
            let last = i + 1 == messages.len();
            let before = prompt_of(messages, options, i);
            let after = prompt_of(messages, options, i + 1);
            let turn = "<｜Assistant｜>"@ + (if thinking {
                "<think>"@
            } else {
                "</think>"@
            });
            &&& messages[i].role == Role::System ==> after == before + content
            &&& messages[i].role == Role::User && (last || messages[i + 1].role == Role::Assistant)
                ==> after == before + "<｜User｜>"@ + content + turn
            &&& messages[i].role == Role::User && !(last || messages[i + 1].role == Role::Assistant)
                ==> after == before + "<｜User｜>"@ + content
            &&& messages[i].role == Role::Assistant && !thinking ==> after == before + content
                + "<｜end▁of▁sentence｜>"@
            &&& messages[i].role == Role::Assistant && thinking && options.drop_history_reasoning
                && ((exists|later: int|
                i < later < messages.len() && #[trigger] messages[later].role == Role::User)
                || (forall|user: int|
                0 <= user < i ==> #[trigger] messages[user].role != Role::User)) ==> after == before + content + "<｜end▁of▁sentence｜>"@
            &&& messages[i].role == Role::Assistant && thinking && (!options.drop_history_reasoning
                || ((exists|user: int| 0 <= user < i && #[trigger] messages[user].role == Role::User)
                && (forall|later: int|
                i < later < messages.len() ==> #[trigger] messages[later].role != Role::User)))
                ==> after == before + (if messages[i].reasoning_content is Some {
                messages[i].reasoning_content->0@
            } else {
                Seq::empty()
            }) + "</think>"@ + content + "<｜end▁of▁sentence｜>"@
        }),
{
    let before = prompt_of(messages, options, i);
    let after = prompt_of(messages, options, i + 1);
    assert(after == before + message_text(messages, options, i) + turn_text(messages, options, i));
    let content = messages[i].content@;
    match messages[i].role {
        Role::System => {
            assert(after =~= before + content);
        },
        Role::User => {
            assert(message_text(messages, options, i) == "<｜User｜>"@ + content);
            assert(after =~= before + "<｜User｜>"@ + content + turn_text(messages, options, i));
            assert(after.len() >= before.len());
            if !(i + 1 == messages.len() || messages[i + 1].role == Role::Assistant) {
                assert(after =~= before + "<｜User｜>"@ + content);
            }
        },
        Role::Assistant => {
            assert(turn_text(messages, options, i) =~= Seq::<char>::empty());
            if exists|later: int|
                i < later < messages.len() && #[trigger] messages[later].role == Role::User {
                assert(!behind_last_user(messages, i));
            }
            if keeps_reasoning(messages, options, i) {
                let reasoning = if messages[i].reasoning_content is Some {
                    messages[i].reasoning_content->0@
                } else {
                    Seq::empty()
                };
                assert(after =~= before + reasoning + "</think>"@ + content
                    + "<｜end▁of▁sentence｜>"@);
            } else {
                assert(after =~= before + content + "<｜end▁of▁sentence｜>"@);
            }
        },
    }
}

/// A prompt opens with the mark of its beginning, where one is wanted, and in thinking mode with the
/// instruction that belongs to the effort. In chat mode the effort does not matter.
pub proof fn prompts_open_with_their_marks(messages: Seq<Message>, options: PromptOptions)
    ensures
        options.thinking_mode != ThinkingMode::Thinking ==> prompt_of(messages, options, 0) == (
        if options.add_bos {
            "<｜begin▁of▁sentence｜>"@
        } else {
            Seq::empty()
        }),
        options.thinking_mode == ThinkingMode::Thinking ==> prompt_of(messages, options, 0) == (
        if options.add_bos {
            "<｜begin▁of▁sentence｜>"@
        } else {
            Seq::empty()
        }) + prefix_of(options.reasoning_effort),
        prefix_of(ReasoningEffort::Low) == ""@,
        prefix_of(ReasoningEffort::High)
            == "Reasoning Effort: Absolute maximum with no shortcuts permitted.\nYou MUST be very thorough in your thinking and comprehensively decompose the problem to resolve the root cause, rigorously stress-testing your logic against all potential paths, edge cases, and adversarial scenarios.\nExplicitly write out your entire deliberation process, documenting every intermediate step, considered alternative, and rejected hypothesis to ensure absolutely no assumption is left unchecked.\n\n"@,
        prefix_of(ReasoningEffort::Max)
            == "Reasoning Effort: Beyond maximum — exhaustive, relentless, and uncompromising.\nYou MUST reason with the utmost depth and rigor, leaving absolutely nothing to chance: exhaustively decompose the problem into its most fundamental components, trace every causal chain to its root, and resolve the underlying cause rather than any surface symptom.\nDo not stop reasoning until you have independently verified the solution from multiple angles and are certain that no assumption remains unchecked and no error remains undiscovered.\n\n"@,
{
    assert(prompt_of(messages, options, 0) == opening(options));
    if options.thinking_mode != ThinkingMode::Thinking {
        assert(opening(options) =~= if options.add_bos {
            "<｜begin▁of▁sentence｜>"@
        } else {
            Seq::empty()
        });
    }
}

} // verus!
