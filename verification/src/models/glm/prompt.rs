//! Text-only GLM-5.2 chat protocol.

use crate::text;
use crate::text::{characters, find, rfind, trim};
use vstd::prelude::*;
use vstd::string::*;

verus! {

#[derive(Debug, Clone, Copy, PartialEq, Eq, Structural)]
pub enum ChatRole {
    System,
    User,
    Assistant,
    Tool,
}

#[derive(Debug, Clone, PartialEq, Eq)]
pub struct ChatMessage {
    pub role: ChatRole,
    pub content: String,
}

impl ChatMessage {
    pub fn new(role: ChatRole, content: &str) -> (message: Self)
        ensures
            message.role == role,
            message.content@ == content@,
    {
        ChatMessage { role, content: content.to_owned() }
    }
}

#[derive(Debug, Clone, Copy, PartialEq, Eq, Structural)]
pub struct ChatTemplateOptions {
    pub add_generation_prompt: bool,
    pub enable_thinking: bool,
    pub preserve_history_reasoning: bool,
}

impl Default for ChatTemplateOptions {
    fn default() -> (options: Self)
        ensures
            options == (ChatTemplateOptions {
                add_generation_prompt: true,
                enable_thinking: true,
                preserve_history_reasoning: false,
            }),
    {
        ChatTemplateOptions {
            add_generation_prompt: true,
            enable_thinking: true,
            preserve_history_reasoning: false,
        }
    }
}

/// Where the reasoning of a message ends: at the first closing mark.
pub open spec fn reasoning_end(content: Seq<char>) -> Option<nat> {
    text::first_from(content, "</think>"@, 0)
}

/// Where it starts: behind the last opening mark in front of its end, or with the message.
pub open spec fn reasoning_start(content: Seq<char>, end: nat) -> nat {
    match text::last_before(content.take(end as int), "<think>"@, end + 1) {
        Some(at) => at + "<think>"@.len(),
        None => 0,
    }
}

/// The reasoning of a message, where it has one, and what is left to see.
pub open spec fn reasoning_split(content: Seq<char>) -> (Option<Seq<char>>, Seq<char>) {
    match reasoning_end(content) {
        Some(end) => (
            Some(content.subrange(reasoning_start(content, end) as int, end as int)),
            content.skip((end + "</think>"@.len()) as int),
        ),
        None => (None, content),
    }
}

pub fn split_reasoning<'a>(content: &'a str) -> (split: (Option<&'a str>, &'a str))
    ensures
        split.0 is Some == reasoning_split(content@).0 is Some,
        split.0 matches Some(reasoning) ==> Some(reasoning@) == reasoning_split(content@).0,
        split.1@ == reasoning_split(content@).1,
{
    let list = characters(content);
    let length: usize = list.len();
    let closing = characters("</think>");
    match find(&list, &closing) {
        Some(end) => {
            let opening = characters("<think>");
            let start: usize = match rfind(&list, end, &opening) {
                Some(at) => at + opening.len(),
                None => 0,
            };
            let reasoning = content.substring_char(start, end);
            let visible = content.substring_char(end + closing.len(), length);
            proof {
                assert(visible@ =~= content@.skip((end + "</think>"@.len()) as int));
            }
            (Some(reasoning), visible)
        },
        None => (None, content),
    }
}

/// A user message stands before `index` and none at or behind it.
pub open spec fn behind_last_user(messages: Seq<ChatMessage>, index: int) -> bool {
    &&& exists|user: int| 0 <= user < index && #[trigger] messages[user].role == ChatRole::User
    &&& forall|later: int|
        index <= later < messages.len() ==> #[trigger] messages[later].role != ChatRole::User
}

pub open spec fn opening(options: ChatTemplateOptions) -> Seq<char> {
    "[gMASK]<sop>"@ + if options.enable_thinking {
        "<|system|>Reasoning Effort: Max"@
    } else {
        Seq::empty()
    }
}

/// An assistant message: its reasoning, kept on request or behind the last user message, and what
/// is left to see, without the white space around it.
pub open spec fn assistant_text(content: Seq<char>, preserve: bool) -> Seq<char> {
    let (reasoning, visible) = reasoning_split(content);
    "<|assistant|>"@ + match reasoning {
        Some(kept) => if preserve {
            "<think>"@ + kept + "</think>"@
        } else {
            "<think></think>"@
        },
        None => "<think></think>"@,
    } + text::trimmed(visible)
}

pub open spec fn message_text(
    messages: Seq<ChatMessage>,
    options: ChatTemplateOptions,
    index: int,
) -> Seq<char> {
    let content = messages[index].content@;
    match messages[index].role {
        ChatRole::System => "<|system|>"@ + content,
        ChatRole::User => "<|user|>"@ + content,
        ChatRole::Assistant => assistant_text(
            content,
            options.preserve_history_reasoning || behind_last_user(messages, index),
        ),
        ChatRole::Tool => (if index > 0 && messages[index - 1].role == ChatRole::Tool {
            Seq::empty()
        } else {
            "<|observation|>"@
        }) + "<tool_response>"@ + content + "</tool_response>"@,
    }
}

/// The opening and the first `count` messages.
pub open spec fn conversation(
    messages: Seq<ChatMessage>,
    options: ChatTemplateOptions,
    count: int,
) -> Seq<char>
    decreases count,
{
    if count <= 0 {
        opening(options)
    } else {
        conversation(messages, options, count - 1) + message_text(messages, options, count - 1)
    }
}

pub open spec fn generation_prompt(options: ChatTemplateOptions) -> Seq<char> {
    if !options.add_generation_prompt {
        Seq::empty()
    } else if options.enable_thinking {
        "<|assistant|>"@ + "<think>"@
    } else {
        "<|assistant|>"@ + "<think></think>"@
    }
}

fn find_last_user(messages: &[ChatMessage]) -> (last: Option<usize>)
    ensures
        match last {
            Some(last) => {
                &&& last < messages@.len()
                &&& messages@[last as int].role == ChatRole::User
                &&& forall|later: int|
                    last < later < messages@.len() ==> #[trigger] messages@[later].role
                        != ChatRole::User
            },
            None => forall|index: int|
                0 <= index < messages@.len() ==> #[trigger] messages@[index].role
                    != ChatRole::User,
        },
{
    let mut index: usize = messages.len();
    while index > 0
        invariant
            index <= messages@.len(),
            forall|later: int|
                index <= later < messages@.len() ==> #[trigger] messages@[later].role
                    != ChatRole::User,
        decreases index,
    {
        index = index - 1;
        if messages[index].role == ChatRole::User {
            return Some(index);
        }
    }
    None
}

fn push_assistant(prompt: &mut String, content: &str, preserve: bool)
    ensures
        final(prompt)@ == old(prompt)@ + assistant_text(content@, preserve),
{
    prompt.append("<|assistant|>");
    let (reasoning, visible) = split_reasoning(content);
    match reasoning {
        Some(kept) => {
            if preserve {
                prompt.append("<think>");
                prompt.append(kept);
                prompt.append("</think>");
            } else {
                prompt.append("<think></think>");
            }
        },
        None => {
            prompt.append("<think></think>");
        },
    }
    prompt.append(trim(visible));
    proof {
        assert(prompt@ =~= old(prompt)@ + assistant_text(content@, preserve));
    }
}

fn push_message(
    prompt: &mut String,
    messages: &[ChatMessage],
    options: ChatTemplateOptions,
    index: usize,
    last_user: Option<usize>,
)
    requires
        index < messages@.len(),
        messages@[index as int].role == ChatRole::Assistant ==> (last_user matches Some(last)
            && index > last) == behind_last_user(messages@, index as int),
    ensures
        final(prompt)@ == old(prompt)@ + message_text(messages@, options, index as int),
{
    let message = &messages[index];
    match message.role {
        ChatRole::System => {
            prompt.append("<|system|>");
            prompt.append(message.content.as_str());
        },
        ChatRole::User => {
            prompt.append("<|user|>");
            prompt.append(message.content.as_str());
        },
        ChatRole::Assistant => {
            let behind = match last_user {
                Some(last) => index > last,
                None => false,
            };
            push_assistant(
                prompt,
                message.content.as_str(),
                options.preserve_history_reasoning || behind,
            );
        },
        ChatRole::Tool => {
            if !(index > 0 && messages[index - 1].role == ChatRole::Tool) {
                prompt.append("<|observation|>");
            }
            prompt.append("<tool_response>");
            prompt.append(message.content.as_str());
            prompt.append("</tool_response>");
        },
    }
    proof {
        assert(prompt@ =~= old(prompt)@ + message_text(messages@, options, index as int));
    }
}

/// Renders the text-only portion of the official GLM-5.2 chat template.
pub fn render_chat(messages: &[ChatMessage], options: ChatTemplateOptions) -> (prompt: String)
    ensures
        prompt@ == conversation(messages@, options, messages@.len() as int) + generation_prompt(
            options,
        ),
{
    let last_user = find_last_user(messages);
    let mut prompt = "[gMASK]<sop>".to_owned();
    if options.enable_thinking {
        prompt.append("<|system|>Reasoning Effort: Max");
    }
    proof {
        assert(prompt@ =~= opening(options));
    }
    let mut index: usize = 0;
    while index < messages.len()
        invariant
            index <= messages@.len(),
            prompt@ == conversation(messages@, options, index as int),
            match last_user {
                Some(last) => {
                    &&& last < messages@.len()
                    &&& messages@[last as int].role == ChatRole::User
                    &&& forall|later: int|
                        last < later < messages@.len() ==> #[trigger] messages@[later].role
                            != ChatRole::User
                },
                None => forall|other: int|
                    0 <= other < messages@.len() ==> #[trigger] messages@[other].role
                        != ChatRole::User,
            },
        decreases messages@.len() - index,
    {
        push_message(&mut prompt, messages, options, index, last_user);
        index = index + 1;
    }
    let ghost talk = prompt@;
    if options.add_generation_prompt {
        prompt.append("<|assistant|>");
        if options.enable_thinking {
            prompt.append("<think>");
        } else {
            prompt.append("<think></think>");
        }
    }
    proof {
        assert(prompt@ =~= talk + generation_prompt(options));
    }
    prompt
}

/// The first closing mark splits a message: the reasoning holds none, and stands in the message
/// right in front of the mark and what is left to see.
pub proof fn split_reasoning_loses_only_marks(content: Seq<char>)
    requires
        reasoning_split(content).0 is Some,
    ensures
        ({
            let end = reasoning_end(content)->0;
            let start = reasoning_start(content, end);
            &&& start <= end
            &&& text::stands_at(content, "</think>"@, end as int)
            &&& content =~= content.take(start as int) + reasoning_split(content).0->0
                + "</think>"@ + reasoning_split(content).1
            &&& forall|at: int| 0 <= at < end ==> !#[trigger] text::stands_at(
                content,
                "</think>"@,
                at,
            )
        }),
{
    let end = reasoning_end(content)->0;
    lemma_first(content, "</think>"@, 0);
    lemma_last(content.take(end as int), "<think>"@, end + 1);
    let start = reasoning_start(content, end);
    let whole = content.take(start as int) + reasoning_split(content).0->0 + "</think>"@
        + reasoning_split(content).1;
    let mark = content.subrange(end as int, (end + "</think>"@.len()) as int);
    assert(mark == "</think>"@);
    assert(whole.len() == content.len());
    assert forall|i: int| 0 <= i < content.len() implies whole[i] == content[i] by {
        if end <= i < end + mark.len() {
            assert(whole[i] == "</think>"@[i - end]);
            assert(mark[i - end] == content[i]);
        }
    }
}

proof fn lemma_first(content: Seq<char>, pattern: Seq<char>, from: nat)
    requires
        text::first_from(content, pattern, from) is Some,
    ensures
        text::first_from(content, pattern, from)->0 >= from,
        text::stands_at(content, pattern, text::first_from(content, pattern, from)->0 as int),
        forall|at: int|
            from <= at < text::first_from(content, pattern, from)->0 ==> !#[trigger] text::stands_at(
                content,
                pattern,
                at,
            ),
    decreases content.len() + 1 - from,
{
    if !text::stands_at(content, pattern, from as int) {
        lemma_first(content, pattern, from + 1);
    }
}

proof fn lemma_last(content: Seq<char>, pattern: Seq<char>, until: nat)
    ensures
        text::last_before(content, pattern, until) matches Some(at) ==> text::stands_at(
            content,
            pattern,
            at as int,
        ),
    decreases until,
{
    if until > 0 && !text::stands_at(content, pattern, until - 1) {
        lemma_last(content, pattern, (until - 1) as nat);
    }
}

/// Behind the opening stands one piece for each message, in their order. What the system and a user
/// say stands whole behind their marks, and what a tool answers between its own; the first of several
/// answers in a row is announced. What an assistant says for all to see stands behind its reasoning,
/// without the white space around it; the reasoning is kept on request, and behind the last user, and
/// is empty elsewhere.
pub proof fn every_message_is_rendered(
    messages: Seq<ChatMessage>,
    options: ChatTemplateOptions,
    i: int,
)
    requires
        0 <= i < messages.len(),
    ensures
        ({
            let content = messages[i].content@;
            let before = conversation(messages, options, i);
            let after = conversation(messages, options, i + 1);
            let (reasoning, visible) = reasoning_split(content);
            let follows = i > 0 && messages[i - 1].role == ChatRole::Tool;
            let later_user = exists|later: int|
                i < later < messages.len() && #[trigger] messages[later].role == ChatRole::User;
            let earlier_user = exists|user: int|
                0 <= user < i && #[trigger] messages[user].role == ChatRole::User;
            let kept = options.preserve_history_reasoning || (earlier_user && !later_user);
            &&& messages[i].role == ChatRole::System ==> after == before + "<|system|>"@ + content
            &&& messages[i].role == ChatRole::User ==> after == before + "<|user|>"@ + content
            &&& messages[i].role == ChatRole::Tool && follows ==> after == before
                + "<tool_response>"@ + content + "</tool_response>"@
            &&& messages[i].role == ChatRole::Tool && !follows ==> after == before
                + "<|observation|>"@ + "<tool_response>"@ + content + "</tool_response>"@
            &&& messages[i].role == ChatRole::Assistant && kept && reasoning is Some ==> after
                == before + "<|assistant|>"@ + "<think>"@ + reasoning->0 + "</think>"@
                + text::trimmed(visible)
            &&& messages[i].role == ChatRole::Assistant && !(kept && reasoning is Some) ==> after
                == before + "<|assistant|>"@ + "<think></think>"@ + text::trimmed(visible)
        }),
{
    let content = messages[i].content@;
    let before = conversation(messages, options, i);
    let after = conversation(messages, options, i + 1);
    let (reasoning, visible) = reasoning_split(content);
    assert(after == before + message_text(messages, options, i));
    match messages[i].role {
        ChatRole::System => {
            assert(after =~= before + "<|system|>"@ + content);
        },
        ChatRole::User => {
            assert(after =~= before + "<|user|>"@ + content);
        },
        ChatRole::Tool => {
            if i > 0 && messages[i - 1].role == ChatRole::Tool {
                assert(after =~= before + "<tool_response>"@ + content + "</tool_response>"@);
            } else {
                assert(after =~= before + "<|observation|>"@ + "<tool_response>"@ + content
                    + "</tool_response>"@);
            }
        },
        ChatRole::Assistant => {
            if exists|later: int|
                i < later < messages.len() && #[trigger] messages[later].role == ChatRole::User {
                assert(!behind_last_user(messages, i));
            } else {
                assert forall|later: int| i <= later < messages.len() implies #[trigger] messages[
                    later
                ].role != ChatRole::User by {
                    assert(later == i || messages[later].role != ChatRole::User);
                }
            }
            let kept = options.preserve_history_reasoning || behind_last_user(messages, i);
            if kept && reasoning is Some {
                assert(after =~= before + "<|assistant|>"@ + "<think>"@ + reasoning->0
                    + "</think>"@ + text::trimmed(visible));
            } else {
                assert(after =~= before + "<|assistant|>"@ + "<think></think>"@ + text::trimmed(
                    visible,
                ));
            }
        },
    }
}

/// A conversation opens with its marks, and with the effort where the model is to think. Where a
/// reply is wanted, it begins behind the last message, with reasoning to come where the model is to
/// think and with none elsewhere.
pub proof fn conversations_open_and_end_with_their_marks(
    messages: Seq<ChatMessage>,
    options: ChatTemplateOptions,
)
    ensures
        options.enable_thinking ==> conversation(messages, options, 0) == "[gMASK]<sop>"@
            + "<|system|>Reasoning Effort: Max"@,
        !options.enable_thinking ==> conversation(messages, options, 0) == "[gMASK]<sop>"@,
        !options.add_generation_prompt ==> generation_prompt(options).len() == 0,
        options.add_generation_prompt && options.enable_thinking ==> generation_prompt(options)
            == "<|assistant|>"@ + "<think>"@,
        options.add_generation_prompt && !options.enable_thinking ==> generation_prompt(options)
            == "<|assistant|>"@ + "<think></think>"@,
{
    assert(conversation(messages, options, 0) == opening(options));
    assert("[gMASK]<sop>"@ + Seq::<char>::empty() =~= "[gMASK]<sop>"@);
}

/// The reasoning of a message ends at its first closing mark and begins behind the last opening mark
/// in front of it, or with the message; a message without a closing mark has none and is all to see.
pub proof fn reasoning_stands_between_its_marks(content: Seq<char>, at: int)
    ensures
        ({
            let (reasoning, visible) = reasoning_split(content);
            &&& reasoning is None ==> visible == content && !(0 <= at && at + "</think>"@.len()
                <= content.len() && content.subrange(at, at + "</think>"@.len()) == "</think>"@)
            &&& reasoning matches Some(kept) ==> {
                let begin = content.len() - visible.len() - "</think>"@.len() - kept.len();
                &&& 0 <= begin
                &&& content.subrange(begin, begin + kept.len()) == kept
                &&& content.subrange(begin + kept.len(), begin + kept.len() + "</think>"@.len())
                    == "</think>"@
                &&& content.skip(begin + kept.len() + "</think>"@.len()) == visible
                &&& begin == 0 || (begin >= "<think>"@.len() && content.subrange(
                    begin - "<think>"@.len(),
                    begin,
                ) == "<think>"@)
                &&& 0 <= at < begin + kept.len() && at + "</think>"@.len() <= content.len()
                    ==> content.subrange(at, at + "</think>"@.len()) != "</think>"@
                &&& begin <= at && at + "<think>"@.len() <= begin + kept.len()
                    ==> content.subrange(at, at + "<think>"@.len()) != "<think>"@
            }
        }),
{
    reveal_strlit("</think>");
    reveal_strlit("<think>");
    if reasoning_end(content) is None && 0 <= at && at + "</think>"@.len() <= content.len() {
        lemma_no_first(content, "</think>"@, 0, at);
    }
    if reasoning_end(content) is Some {
        let end = reasoning_end(content)->0;
        lemma_first(content, "</think>"@, 0);
        let front = content.take(end as int);
        lemma_last(front, "<think>"@, end + 1);
        lemma_none_behind(front, "<think>"@, end + 1, at);
        let start = reasoning_start(content, end);
        let kept = content.subrange(start as int, end as int);
        let visible = content.skip((end + "</think>"@.len()) as int);
        assert(content.len() - visible.len() - "</think>"@.len() - kept.len() == start);
        if start > 0 {
            let opened = start - "<think>"@.len();
            assert(front.subrange(opened, start as int) =~= content.subrange(opened, start as int));
        }
        if start <= at && at + "<think>"@.len() <= end {
            assert(front.subrange(at, at + "<think>"@.len()) =~= content.subrange(
                at,
                at + "<think>"@.len(),
            ));
        }
        if 0 <= at < end && at + "</think>"@.len() <= content.len() {
            assert(!text::stands_at(content, "</think>"@, at));
        }
    }
}

proof fn lemma_no_first(content: Seq<char>, pattern: Seq<char>, from: nat, at: int)
    requires
        text::first_from(content, pattern, from) is None,
        from <= at,
        at + pattern.len() <= content.len(),
        pattern.len() > 0,
    ensures
        content.subrange(at, at + pattern.len()) != pattern,
    decreases content.len() - from,
{
    if from < at {
        lemma_no_first(content, pattern, from + 1, at);
    }
}

proof fn lemma_none_behind(content: Seq<char>, pattern: Seq<char>, until: nat, at: int)
    requires
        pattern.len() > 0,
    ensures
        text::last_before(content, pattern, until) matches Some(last) ==> (last < at < until
            ==> !text::stands_at(content, pattern, at)),
        text::last_before(content, pattern, until) is None ==> (0 <= at < until
            ==> !text::stands_at(content, pattern, at)),
    decreases until,
{
    if until > 0 && !text::stands_at(content, pattern, until - 1) {
        lemma_none_behind(content, pattern, (until - 1) as nat, at);
    }
}

} // verus!
