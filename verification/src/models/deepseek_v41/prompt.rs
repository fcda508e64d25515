//! Text prompt protocol for DeepSeek-V4.1: the native text conversation, mid-conversation system
//! messages, thinking markers and numeric reasoning effort.

use crate::text;
use crate::text::push_decimal;
use vstd::prelude::*;
use vstd::string::*;

verus! {

pub const BOS: &'static str = "<｜begin▁of▁sentence｜>";

pub const EOS: &'static str = "<｜end▁of▁sentence｜>";

pub const SYSTEM: &'static str = "<｜System｜>";

pub const USER: &'static str = "<｜User｜>";

pub const ASSISTANT: &'static str = "<｜Assistant｜>";

pub const THINK_START: &'static str = "<think>";

pub const THINK_END: &'static str = "</think>";

#[derive(Debug, Clone, Copy, PartialEq, Eq, Structural)]
pub enum Role {
    System,
    User,
    Assistant,
}

#[derive(Debug, Clone, PartialEq, Eq)]
pub struct Message {
    pub role: Role,
    pub content: String,
    pub reasoning_content: Option<String>,
}

impl Message {
    pub fn new(role: Role, content: &str) -> (message: Self)
        ensures
            message.role == role,
            message.content@ == content@,
            message.reasoning_content is None,
    {
        Message { role, content: content.to_owned(), reasoning_content: None }
    }

    pub fn assistant(content: &str, reasoning_content: Option<&str>) -> (message: Self)
        ensures
            message.role == Role::Assistant,
            message.content@ == content@,
            match reasoning_content {
                Some(reasoning) => message.reasoning_content matches Some(kept) && kept@
                    == reasoning@,
                None => message.reasoning_content is None,
            },
    {
        let kept = match reasoning_content {
            Some(reasoning) => Some(reasoning.to_owned()),
            None => None,
        };
        Message { role: Role::Assistant, content: content.to_owned(), reasoning_content: kept }
    }
}

#[derive(Debug, Clone, Copy, PartialEq, Eq, Structural)]
pub enum ThinkingMode {
    Thinking,
    Chat,
}

/// How thorough the reasoning should be, from 1 to 100.
#[derive(Debug, Clone, Copy, PartialEq, Eq, Structural)]
pub struct ReasoningEffort(u8);

impl ReasoningEffort {
    pub closed spec fn value(self) -> u8 {
        self.0
    }

    /// The named levels and every constructed effort lie between 1 and 100.
    #[verifier::type_invariant]
    spec fn in_range(self) -> bool {
        1 <= self.0 <= 100
    }

    pub fn low() -> (effort: Self)
        ensures
            effort.value() == 50,
    {
        ReasoningEffort(50)
    }

    pub fn high() -> (effort: Self)
        ensures
            effort.value() == 75,
    {
        ReasoningEffort(75)
    }

    pub fn max() -> (effort: Self)
        ensures
            effort.value() == 100,
    {
        ReasoningEffort(100)
    }

    pub fn new(value: u8) -> (effort: Option<Self>)
        ensures
            match effort {
                Some(effort) => 1 <= value <= 100 && effort.value() == value,
                None => value == 0 || value > 100,
            },
    {
        if 1 <= value && value <= 100 {
            Some(ReasoningEffort(value))
        } else {
            None
        }
    }

    pub fn get(self) -> (value: u8)
        ensures
            value == self.value(),
            1 <= value <= 100,
    {
        proof {
            use_type_invariant(self);
        }
        self.0
    }
}

#[derive(Debug, Clone, Copy, PartialEq, Eq, Structural)]
pub struct PromptOptions {
    pub thinking_mode: ThinkingMode,
    pub reasoning_effort: ReasoningEffort,
    pub drop_history_reasoning: bool,
    pub add_bos: bool,
}

impl Default for PromptOptions {
    fn default() -> (options: Self)
        ensures
            options.thinking_mode == ThinkingMode::Thinking,
            options.reasoning_effort.value() == 75,
            options.drop_history_reasoning,
            options.add_bos,
    {
        PromptOptions {
            thinking_mode: ThinkingMode::Thinking,
            reasoning_effort: ReasoningEffort::high(),
            drop_history_reasoning: true,
            add_bos: true,
        }
    }
}

/// A message that asks for an answer: one of the user, or a system message that does not open the
/// conversation.
pub open spec fn asks(messages: Seq<Message>, index: int) -> bool {
    messages[index].role == Role::User || (messages[index].role == Role::System && index > 0)
}

/// Something asks before `index` and nothing at or behind it.
pub open spec fn behind_last_question(messages: Seq<Message>, index: int) -> bool {
    &&& exists|question: int| 0 <= question < index && #[trigger] asks(messages, question)
    &&& forall|later: int| index <= later < messages.len() ==> !#[trigger] asks(messages, later)
}

/// What stands in front of the first message.
pub open spec fn opening(messages: Seq<Message>, options: PromptOptions) -> Seq<char> {
    let thinking = options.thinking_mode == ThinkingMode::Thinking;
    (if options.add_bos {
        BOS@
    } else {
        Seq::empty()
    }) + (if messages.len() > 0 && (thinking || messages[0].role == Role::System) {
        SYSTEM@
    } else {
        Seq::empty()
    }) + if thinking && messages.len() > 0 {
        "Reasoning Effort: "@ + text::decimal(options.reasoning_effort.value() as nat)
            + " (range 1-100, the higher the value, the more thorough the reasoning)\n\n"@
    } else {
        Seq::empty()
    }
}

/// The reasoning of an assistant message, with its closing mark.
pub open spec fn reasoning_text(message: Message) -> Seq<char> {
    match message.reasoning_content {
        Some(reasoning) => reasoning@ + THINK_END@,
        None => THINK_END@,
    }
}

/// The reasoning of a message is kept: it is an assistant's, in thinking mode, and either all
/// reasoning is kept or the message stands behind the last message that asks.
pub open spec fn keeps_reasoning(
    messages: Seq<Message>,
    options: PromptOptions,
    index: int,
) -> bool {
    &&& messages[index].role == Role::Assistant
    &&& options.thinking_mode == ThinkingMode::Thinking
    &&& !options.drop_history_reasoning || behind_last_question(messages, index)
}

/// One message by itself.
pub open spec fn message_text(
    messages: Seq<Message>,
    options: PromptOptions,
    index: int,
) -> Seq<char> {
    let message = messages[index];
    match message.role {
        Role::System => (if index > 0 {
            SYSTEM@
        } else {
            Seq::empty()
        }) + message.content@,
        Role::User => USER@ + message.content@,
        Role::Assistant => (if keeps_reasoning(messages, options, index) {
            reasoning_text(message)
        } else {
            Seq::empty()
        }) + message.content@ + EOS@,
    }
}

/// The assistant's turn opens behind a message that asks and ends the conversation or is answered.
pub open spec fn turn_text(
    messages: Seq<Message>,
    options: PromptOptions,
    index: int,
) -> Seq<char> {
    if asks(messages, index) && (index + 1 >= messages.len() || messages[index + 1].role
        == Role::Assistant) {
        ASSISTANT@ + match options.thinking_mode {
            ThinkingMode::Thinking => THINK_START@,
            ThinkingMode::Chat => THINK_END@,
        }
    } else {
        Seq::empty()
    }
}

/// The prompt of the first `count` messages of a conversation.
pub open spec fn prompt_of(
    messages: Seq<Message>,
    options: PromptOptions,
    count: int,
) -> Seq<char>
    decreases count,
{
    if count <= 0 {
        opening(messages, options)
    } else {
        prompt_of(messages, options, count - 1) + message_text(messages, options, count - 1)
            + turn_text(messages, options, count - 1)
    }
}

fn find_last_question(messages: &[Message]) -> (last: Option<usize>)
    ensures
        match last {
            Some(last) => {
                &&& last < messages@.len()
                &&& asks(messages@, last as int)
                &&& forall|later: int|
                    last < later < messages@.len() ==> !#[trigger] asks(messages@, later)
            },
            None => forall|index: int|
                0 <= index < messages@.len() ==> !#[trigger] asks(messages@, index),
        },
{
    let mut index: usize = messages.len();
    while index > 0
        invariant
            index <= messages@.len(),
            forall|later: int|
                index <= later < messages@.len() ==> !#[trigger] asks(messages@, later),
        decreases index,
    {
        index = index - 1;
        let role = messages[index].role;
        if role == Role::User || (role == Role::System && index > 0) {
            return Some(index);
        }
    }
    None
}

fn push_message(
    prompt: &mut String,
    messages: &[Message],
    options: PromptOptions,
    index: usize,
    last_question: Option<usize>,
)
    requires
        index < messages@.len(),
        messages@[index as int].role == Role::Assistant ==> (last_question matches Some(last)
            && index > last) == behind_last_question(messages@, index as int),
    ensures
        final(prompt)@ == old(prompt)@ + message_text(messages@, options, index as int),
{
    let message = &messages[index];
    match message.role {
        Role::System => {
            if index > 0 {
                prompt.append(SYSTEM);
            }
            prompt.append(message.content.as_str());
        },
        Role::User => {
            prompt.append(USER);
            prompt.append(message.content.as_str());
        },
        Role::Assistant => {
            if options.thinking_mode == ThinkingMode::Thinking {
                let behind = match last_question {
                    Some(last) => index > last,
                    None => false,
                };
                if !options.drop_history_reasoning || behind {
                    if let Some(reasoning) = &message.reasoning_content {
                        prompt.append(reasoning.as_str());
                    }
                    prompt.append(THINK_END);
                }
            }
            prompt.append(message.content.as_str());
            prompt.append(EOS);
        },
    }
    proof {
        assert(prompt@ =~= old(prompt)@ + message_text(messages@, options, index as int));
    }
}

fn push_turn(prompt: &mut String, messages: &[Message], options: PromptOptions, index: usize)
    requires
        index < messages@.len(),
    ensures
        final(prompt)@ == old(prompt)@ + turn_text(messages@, options, index as int),
{
    let role = messages[index].role;
    let asking = role == Role::User || (role == Role::System && index > 0);
    let opens = asking && (index + 1 >= messages.len() || messages[index + 1].role
        == Role::Assistant);
    if opens {
        prompt.append(ASSISTANT);
        prompt.append(
            match options.thinking_mode {
                ThinkingMode::Thinking => THINK_START,
                ThinkingMode::Chat => THINK_END,
            },
        );
    }
    proof {
        assert(prompt@ =~= old(prompt)@ + turn_text(messages@, options, index as int));
    }
}

/// Renders the native text conversation.
pub fn render_chat(messages: &[Message], options: PromptOptions) -> (prompt: String)
    ensures
        prompt@ == prompt_of(messages@, options, messages@.len() as int),
{
    let mut prompt = String::new();
    if options.add_bos {
        prompt.append(BOS);
    }
    let last_question = find_last_question(messages);
    let thinking = options.thinking_mode == ThinkingMode::Thinking;
    if messages.len() > 0 && (thinking || messages[0].role == Role::System) {
        prompt.append(SYSTEM);
    }
    if thinking && messages.len() > 0 {
        prompt.append("Reasoning Effort: ");
        push_decimal(&mut prompt, options.reasoning_effort.get() as u64);
        prompt.append(" (range 1-100, the higher the value, the more thorough the reasoning)\n\n");
    }
    proof {
        assert(prompt@ =~= opening(messages@, options));
    }
    let mut index: usize = 0;
    while index < messages.len()
        invariant
            index <= messages@.len(),
            prompt@ == prompt_of(messages@, options, index as int),
            match last_question {
                Some(last) => {
                    &&& last < messages@.len()
                    &&& asks(messages@, last as int)
                    &&& forall|later: int|
                        last < later < messages@.len() ==> !#[trigger] asks(messages@, later)
                },
                None => forall|other: int|
                    0 <= other < messages@.len() ==> !#[trigger] asks(messages@, other),
            },
        decreases messages@.len() - index,
    {
        proof {
            let at = index as int;
            if messages@[at].role == Role::Assistant {
                assert(!asks(messages@, at));
            }
        }
        push_message(&mut prompt, messages, options, index, last_question);
        push_turn(&mut prompt, messages, options, index);
        index = index + 1;
    }
    prompt
}

/// Two conversations that differ only in reasoning that is not kept render alike: any of it in chat
/// mode, and in thinking mode what is dropped from the history.
pub proof fn dropped_reasoning_is_not_rendered(
    left: Seq<Message>,
    right: Seq<Message>,
    options: PromptOptions,
    count: int,
)
    requires
        left.len() == right.len(),
        0 <= count <= left.len(),
        forall|i: int|
            0 <= i < left.len() ==> (#[trigger] left[i]).role == right[i].role
                && left[i].content@ == right[i].content@,
        forall|i: int|
            0 <= i < left.len() && keeps_reasoning(left, options, i) ==> reasoning_text(
                #[trigger] left[i],
            ) == reasoning_text(right[i]),
    ensures
        prompt_of(left, options, count) == prompt_of(right, options, count),
    decreases count,
{
    if left.len() > 0 {
        assert(left[0].role == right[0].role);
    }
    if count > 0 {
        let index = count - 1;
        dropped_reasoning_is_not_rendered(left, right, options, index);
        assert(left[index].role == right[index].role);
        lemma_same_questions(left, right, index);
        if count < left.len() {
            assert(left[count].role == right[count].role);
        }
    }
}

proof fn lemma_same_questions(left: Seq<Message>, right: Seq<Message>, index: int)
    requires
        left.len() == right.len(),
        0 <= index < left.len(),
        forall|i: int| 0 <= i < left.len() ==> (#[trigger] left[i]).role == right[i].role,
    ensures
        behind_last_question(left, index) == behind_last_question(right, index),
{
    assert forall|i: int| 0 <= i < left.len() implies asks(left, i) == #[trigger] asks(
        right,
        i,
    ) by {
        assert(left[i].role == right[i].role);
    }
    if behind_last_question(left, index) {
        let question = choose|question: int|
            0 <= question < index && #[trigger] asks(left, question);
        assert(asks(right, question));
    }
    if behind_last_question(right, index) {
        let question = choose|question: int|
            0 <= question < index && #[trigger] asks(right, question);
        assert(asks(left, question));
        assert forall|later: int| index <= later < left.len() implies !#[trigger] asks(
            left,
            later,
        ) by {
            assert(!asks(right, later));
        }
    }
}

/// Behind the opening stands one piece for each message, in their order, and nothing else. A system
/// message that opens the conversation is its content; a later one, and a user's, stands behind its
/// mark. An assistant's stands right in front of the end of its sentence, and behind its reasoning
/// where that is kept: in thinking mode, for all assistants on request and otherwise for those behind
/// the last message that asks. Behind a message that asks and is answered, or comes last, the
/// assistant's turn opens, with reasoning to come in thinking mode and without it in chat mode.
pub proof fn every_message_is_rendered(messages: Seq<Message>, options: PromptOptions, i: int)
    requires
        0 <= i < messages.len(),
    ensures
        ({
            let thinking = options.thinking_mode == ThinkingMode::Thinking;
            let content = messages[i].content@;
            let answered = i + 1 == messages.len() || messages[i + 1].role == Role::Assistant;
            let before = prompt_of(messages, options, i);
            let after = prompt_of(messages, options, i + 1);
            let turn = "<｜Assistant｜>"@ + (if thinking {
                "<think>"@
            } else {
                "</think>"@
            });
            &&& messages[i].role == Role::System && i == 0 ==> after == before + content
            &&& messages[i].role == Role::System && i > 0 && answered ==> after == before
                + "<｜System｜>"@ + content + turn
            &&& messages[i].role == Role::System && i > 0 && !answered ==> after == before
                + "<｜System｜>"@ + content
            &&& messages[i].role == Role::User && answered ==> after == before + "<｜User｜>"@
                + content + turn
            &&& messages[i].role == Role::User && !answered ==> after == before + "<｜User｜>"@
                + content
            &&& messages[i].role == Role::Assistant && !thinking ==> after == before + content
                + "<｜end▁of▁sentence｜>"@
            &&& messages[i].role == Role::Assistant && thinking && options.drop_history_reasoning
                && ((exists|later: int|
                i < later < messages.len() && #[trigger] messages[later].role != Role::Assistant)
                || (forall|asking: int|
                0 <= asking < i ==> #[trigger] messages[asking].role == Role::Assistant || (asking
                    == 0 && messages[asking].role == Role::System))) ==> after == before + content + "<｜end▁of▁sentence｜>"@
            &&& messages[i].role == Role::Assistant && thinking && (!options.drop_history_reasoning
                || ((exists|asking: int|
                0 <= asking < i && (#[trigger] messages[asking].role == Role::User || (asking > 0
                    && messages[asking].role == Role::System))) && (forall|later: int|
                i < later < messages.len() ==> #[trigger] messages[later].role == Role::Assistant)))
                ==> after == before + (if messages[i].reasoning_content is Some {
                messages[i].reasoning_content->0@
            } else {
                Seq::empty()
            }) + "</think>"@ + content + "<｜end▁of▁sentence｜>"@
        }),
{
    let before = prompt_of(messages, options, i);
    let after = prompt_of(messages, options, i + 1);
    assert(after == before + message_text(messages, options, i) + turn_text(messages, options, i));
    let content = messages[i].content@;
    let answered = i + 1 == messages.len() || messages[i + 1].role == Role::Assistant;
    match messages[i].role {
        Role::System => {
            if i == 0 {
                assert(after =~= before + content);
            } else {
                assert(after =~= before + "<｜System｜>"@ + content + turn_text(
                    messages,
                    options,
                    i,
                ));
                if !answered {
                    assert(after =~= before + "<｜System｜>"@ + content);
                }
            }
        },
        Role::User => {
            assert(after =~= before + "<｜User｜>"@ + content + turn_text(messages, options, i));
            if !answered {
                assert(after =~= before + "<｜User｜>"@ + content);
            }
        },
        Role::Assistant => {
            assert(turn_text(messages, options, i) =~= Seq::<char>::empty());
            if exists|later: int|
                i < later < messages.len() && #[trigger] messages[later].role != Role::Assistant {
                let later = choose|later: int|
                    i < later < messages.len() && #[trigger] messages[later].role
                        != Role::Assistant;
                assert(asks(messages, later));
                assert(!behind_last_question(messages, i));
            } else {
                assert forall|later: int| i <= later < messages.len() implies !#[trigger] asks(
                    messages,
                    later,
                ) by {
                    assert(later == i || messages[later].role == Role::Assistant);
                }
                if exists|asking: int|
                    0 <= asking < i && (#[trigger] messages[asking].role == Role::User || (asking
                        > 0 && messages[asking].role == Role::System)) {
                    let asking = choose|asking: int|
                        0 <= asking < i && (#[trigger] messages[asking].role == Role::User || (
                        asking > 0 && messages[asking].role == Role::System));
                    assert(asks(messages, asking));
                    assert(behind_last_question(messages, i));
                } else {
                    assert(!behind_last_question(messages, i));
                }
            }
            if keeps_reasoning(messages, options, i) {
                let reasoning = if messages[i].reasoning_content is Some {
                    messages[i].reasoning_content->0@
                } else {
                    Seq::empty()
                };
                assert(after =~= before + reasoning + "</think>"@ + content
                    + "<｜end▁of▁sentence｜>"@);
            } else {
                assert(after =~= before + content + "<｜end▁of▁sentence｜>"@);
            }
        },
    }
}

/// A prompt opens with the mark of its beginning, where one is wanted. Behind it the system speaks
/// where the first message is the system's or there is an effort to state, and the effort is stated
/// in thinking mode. An empty conversation has no more than the first mark.
pub proof fn prompts_open_with_their_marks(messages: Seq<Message>, options: PromptOptions)
    ensures
        ({
            let thinking = options.thinking_mode == ThinkingMode::Thinking;
            let bos = if options.add_bos {
                "<｜begin▁of▁sentence｜>"@
            } else {
                Seq::empty()
            };
            let begun = prompt_of(messages, options, 0);
            &&& messages.len() == 0 ==> begun == bos
            &&& messages.len() > 0 && thinking ==> begun == bos + "<｜System｜>"@
                + "Reasoning Effort: "@ + text::decimal(options.reasoning_effort.value() as nat)
                + " (range 1-100, the higher the value, the more thorough the reasoning)\n\n"@
            &&& messages.len() > 0 && !thinking && messages[0].role == Role::System ==> begun == bos
                + "<｜System｜>"@
            &&& messages.len() > 0 && !thinking && messages[0].role != Role::System ==> begun == bos
        }),
{
    let bos = if options.add_bos {
        "<｜begin▁of▁sentence｜>"@
    } else {
        Seq::empty()
    };
    let begun = prompt_of(messages, options, 0);
    assert(begun == opening(messages, options));
    if messages.len() == 0 {
        assert(begun =~= bos);
    } else if options.thinking_mode == ThinkingMode::Thinking {
        assert(begun =~= bos + "<｜System｜>"@ + "Reasoning Effort: "@ + text::decimal(
            options.reasoning_effort.value() as nat,
        ) + " (range 1-100, the higher the value, the more thorough the reasoning)\n\n"@);
    } else if messages[0].role == Role::System {
        assert(begun =~= bos + "<｜System｜>"@);
    } else {
        assert(begun =~= bos);
    }
}

} // verus!
