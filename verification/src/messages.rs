//! Chat messages and the text the gateway derives from them.

use vstd::prelude::*;
use crate::json::{copy_json, jview, jview_items, jview_members, JsonValue, JsonView};
use crate::text::seq_join;
use crate::voting::{copy_opt, opt_view};

verus! {

/// One part of a multi-part message content.
#[derive(Debug, Clone, PartialEq, Eq)]
pub struct ContentPart {
    pub part_type: String,
    pub text: Option<String>,
}

/// A message's content: plain text or a list of parts.
#[derive(Debug, Clone, PartialEq, Eq)]
pub enum Content {
    Text(String),
    Parts(Vec<ContentPart>),
}

/// The function called by a tool call.
#[derive(Debug, PartialEq)]
pub struct ToolFunction {
    pub name: String,
    pub arguments: JsonValue,
}

/// A tool call made by the assistant.
#[derive(Debug, PartialEq)]
pub struct ToolCall {
    pub id: String,
    pub call_type: String,
    pub function: Option<ToolFunction>,
}

/// A chat message.
#[derive(Debug, PartialEq)]
pub struct ChatMessage {
    pub role: String,
    pub content: Option<Content>,
    pub tool_calls: Option<Vec<ToolCall>>,
    pub tool_call_id: Option<String>,
}

/// The mathematical value of a [`ContentPart`]: its type and its text.
pub type PartView = (Seq<char>, Option<Seq<char>>);

/// The mathematical value of a [`Content`].
pub enum ContentView {
    Text(Seq<char>),
    Parts(Seq<PartView>),
}

/// The mathematical value of a [`ToolCall`]: id, type, and the function's
/// name and arguments.
pub struct ToolCallView {
    pub id: Seq<char>,
    pub call_type: Seq<char>,
    pub function: Option<(Seq<char>, JsonView)>,
}

/// The mathematical value of a [`ChatMessage`].
pub struct MessageView {
    pub role: Seq<char>,
    pub content: Option<ContentView>,
    pub tool_calls: Option<Seq<ToolCallView>>,
    pub tool_call_id: Option<Seq<char>>,
}

pub open spec fn part_view(p: ContentPart) -> PartView {
    (p.part_type@, opt_view(p.text))
}

pub open spec fn content_view(c: Content) -> ContentView {
    match c {
        Content::Text(s) => ContentView::Text(s@),
        Content::Parts(ps) => ContentView::Parts(ps@.map_values(|p: ContentPart| part_view(p))),
    }
}

pub open spec fn tool_call_view(t: ToolCall) -> ToolCallView {
    ToolCallView {
        id: t.id@,
        call_type: t.call_type@,
        function: match t.function {
            Some(f) => Some((f.name@, jview(f.arguments))),
            None => None,
        },
    }
}

pub open spec fn message_view(m: ChatMessage) -> MessageView {
    MessageView {
        role: m.role@,
        content: match m.content {
            Some(c) => Some(content_view(c)),
            None => None,
        },
        tool_calls: match m.tool_calls {
            Some(tcs) => Some(tcs@.map_values(|t: ToolCall| tool_call_view(t))),
            None => None,
        },
        tool_call_id: opt_view(m.tool_call_id),
    }
}

/// The views of a list of messages.
pub open spec fn messages_view(ms: Seq<ChatMessage>) -> Seq<MessageView> {
    ms.map_values(|m: ChatMessage| message_view(m))
}

/// The texts of the parts of type `"text"` that have a text, in order.
pub open spec fn part_texts(ps: Seq<PartView>) -> Seq<Seq<char>>
    decreases ps.len(),
{
    if ps.len() == 0 {
        Seq::empty()
    } else if ps.last().0 == "text"@ && ps.last().1 is Some {
        part_texts(ps.drop_last()).push(ps.last().1->0)
    } else {
        part_texts(ps.drop_last())
    }
}

/// The text of a content: the text itself, or the text parts joined by a space.
pub open spec fn content_text(c: Option<ContentView>) -> Seq<char> {
    match c {
        None => Seq::empty(),
        Some(ContentView::Text(s)) => s,
        Some(ContentView::Parts(ps)) => seq_join(part_texts(ps), " "@),
    }
}

/// Whether `s` equals the literal `lit`.
pub fn eq_lit(s: &String, lit: &str) -> (r: bool)
    ensures
        r == (s@ == lit@),
{
    let l = crate::text::owned(lit);
    *s == l
}

impl ChatMessage {
    /// The message's text: the text content, or its text parts joined by a
    /// space; empty without content.
    pub fn extract_text_content(&self) -> (r: String)
        ensures
            r@ == content_text(message_view(*self).content),
    {
        match &self.content {
            None => String::new(),
            Some(Content::Text(s)) => s.clone(),
            Some(Content::Parts(parts)) => {
                let ghost pv = parts@.map_values(|p: ContentPart| part_view(p));
                let mut texts: Vec<String> = Vec::new();
                let mut i: usize = 0;
                while i < parts.len()
                    invariant
                        i <= parts@.len(),
                        pv == parts@.map_values(|p: ContentPart| part_view(p)),
                        texts@.map_values(|t: String| t@) == part_texts(pv.take(i as int)),
                    decreases parts@.len() - i,
                {
                    let ghost before = texts@;
                    assert(pv.take(i + 1).drop_last() =~= pv.take(i as int));
                    assert(pv.take(i + 1).last() == part_view(parts@[i as int]));
                    if eq_lit(&parts[i].part_type, "text") {
                        match &parts[i].text {
                            Some(t) => {
                                texts.push(t.clone());
                                assert(texts@.map_values(|t: String| t@) =~= before.map_values(|t: String| t@).push(t@));
                            },
                            None => {},
                        }
                    }
                    i = i + 1;
                }
                assert(pv.take(parts@.len() as int) =~= pv);
                crate::text::join_strings(&texts, " ")
            },
        }
    }

    /// A user message holding `text`.
    pub fn user(text: String) -> (r: ChatMessage)
        ensures
            message_view(r) == (MessageView {
                role: "user"@,
                content: Some(ContentView::Text(text@)),
                tool_calls: None,
                tool_call_id: None,
            }),
    {
        ChatMessage {
            role: crate::text::owned("user"),
            content: Some(Content::Text(text)),
            tool_calls: None,
            tool_call_id: None,
        }
    }

    /// An assistant message holding `text`.
    pub fn assistant(text: String) -> (r: ChatMessage)
        ensures
            message_view(r) == (MessageView {
                role: "assistant"@,
                content: Some(ContentView::Text(text@)),
                tool_calls: None,
                tool_call_id: None,
            }),
    {
        ChatMessage {
            role: crate::text::owned("assistant"),
            content: Some(Content::Text(text)),
            tool_calls: None,
            tool_call_id: None,
        }
    }
}

/// A copy of a content part.
pub fn copy_part(p: &ContentPart) -> (r: ContentPart)
    ensures
        part_view(r) == part_view(*p),
{
    ContentPart { part_type: p.part_type.clone(), text: copy_opt(&p.text) }
}

/// A copy of a content.
pub fn copy_content(c: &Content) -> (r: Content)
    ensures
        content_view(r) == content_view(*c),
{
    match c {
        Content::Text(s) => Content::Text(s.clone()),
        Content::Parts(ps) => {
            let mut out: Vec<ContentPart> = Vec::new();
            let mut i: usize = 0;
            while i < ps.len()
                invariant
                    i <= ps@.len(),
                    out@.len() == i,
                    forall|j: int| 0 <= j < i ==> part_view(#[trigger] out@[j]) == part_view(ps@[j]),
                decreases ps@.len() - i,
            {
                out.push(copy_part(&ps[i]));
                i = i + 1;
            }
            assert(out@.map_values(|p: ContentPart| part_view(p)) =~= ps@.map_values(|p: ContentPart| part_view(p)));
            Content::Parts(out)
        },
    }
}

/// A copy of a tool call.
pub fn copy_tool_call(t: &ToolCall) -> (r: ToolCall)
    ensures
        tool_call_view(r) == tool_call_view(*t),
{
    let function = match &t.function {
        Some(f) => Some(ToolFunction { name: f.name.clone(), arguments: copy_json(&f.arguments) }),
        None => None,
    };
    ToolCall { id: t.id.clone(), call_type: t.call_type.clone(), function }
}

/// A copy of a message.
pub fn copy_message(m: &ChatMessage) -> (r: ChatMessage)
    ensures
        message_view(r) == message_view(*m),
{
    let content = match &m.content {
        Some(c) => Some(copy_content(c)),
        None => None,
    };
    let tool_calls = match &m.tool_calls {
        Some(tcs) => {
            let mut out: Vec<ToolCall> = Vec::new();
            let mut i: usize = 0;
            while i < tcs.len()
                invariant
                    i <= tcs@.len(),
                    out@.len() == i,
                    forall|j: int| 0 <= j < i ==> tool_call_view(#[trigger] out@[j]) == tool_call_view(tcs@[j]),
                decreases tcs@.len() - i,
            {
                out.push(copy_tool_call(&tcs[i]));
                i = i + 1;
            }
            assert(out@.map_values(|t: ToolCall| tool_call_view(t)) =~= tcs@.map_values(|t: ToolCall| tool_call_view(t)));
            Some(out)
        },
        None => None,
    };
    ChatMessage { role: m.role.clone(), content, tool_calls, tool_call_id: copy_opt(&m.tool_call_id) }
}

/// A copy of a list of messages.
pub fn copy_messages(ms: &Vec<ChatMessage>) -> (r: Vec<ChatMessage>)
    ensures
        messages_view(r@) == messages_view(ms@),
{
    let mut out: Vec<ChatMessage> = Vec::new();
    let mut i: usize = 0;
    while i < ms.len()
        invariant
            i <= ms@.len(),
            out@.len() == i,
            forall|j: int| 0 <= j < i ==> message_view(#[trigger] out@[j]) == message_view(ms@[j]),
        decreases ms@.len() - i,
    {
        out.push(copy_message(&ms[i]));
        i = i + 1;
    }
    assert(messages_view(out@) =~= messages_view(ms@));
    out
}


/// The names of the called functions, each followed by `()`.
pub open spec fn call_names(tcs: Seq<ToolCallView>) -> Seq<Seq<char>>
    decreases tcs.len(),
{
    if tcs.len() == 0 {
        Seq::empty()
    } else {
        match tcs.last().function {
            Some((name, _args)) => call_names(tcs.drop_last()).push(name + "()"@),
            None => call_names(tcs.drop_last()),
        }
    }
}

/// The text of an optional string, empty when absent.
pub open spec fn or_empty(o: Option<Seq<char>>) -> Seq<char> {
    match o {
        Some(s) => s,
        None => Seq::empty(),
    }
}

/// How one message is rendered in a text prompt.
pub open spec fn prompt_line(m: MessageView) -> Seq<char> {
    let text = content_text(m.content);
    if m.role == "tool"@ {
        "tool["@ + or_empty(m.tool_call_id) + "]: "@ + text
    } else if m.role == "assistant"@ && m.tool_calls is Some {
        let calls = seq_join(call_names(m.tool_calls->0), ", "@);
        if text.len() != 0 {
            "assistant: "@ + text + " [calls: "@ + calls + "]"@
        } else {
            "assistant: [calls: "@ + calls + "]"@
        }
    } else {
        m.role + ": "@ + text
    }
}

/// A message rendered as `role: text`.
pub open spec fn role_line(m: MessageView) -> Seq<char> {
    m.role + ": "@ + content_text(m.content)
}

fn concat3(a: &str, b: &str, c: &str) -> (r: String)
    ensures
        r@ == a@ + b@ + c@,
{
    let mut r = crate::text::owned(a);
    r.append(b);
    r.append(c);
    r
}

/// The function names of the tool calls, each followed by `()`, joined by `, `.
fn call_list(tcs: &Vec<ToolCall>) -> (r: String)
    ensures
        r@ == seq_join(call_names(tcs@.map_values(|t: ToolCall| tool_call_view(t))), ", "@),
{
    let ghost tv = tcs@.map_values(|t: ToolCall| tool_call_view(t));
    let mut names: Vec<String> = Vec::new();
    let mut i: usize = 0;
    while i < tcs.len()
        invariant
            i <= tcs@.len(),
            tv == tcs@.map_values(|t: ToolCall| tool_call_view(t)),
            names@.map_values(|t: String| t@) == call_names(tv.take(i as int)),
        decreases tcs@.len() - i,
    {
        let ghost before = names@;
        assert(tv.take(i + 1).drop_last() =~= tv.take(i as int));
        assert(tv.take(i + 1).last() == tool_call_view(tcs@[i as int]));
        match &tcs[i].function {
            Some(f) => {
                let mut n = f.name.clone();
                n.append("()");
                names.push(n);
                assert(names@.map_values(|t: String| t@) =~= before.map_values(|t: String| t@).push(f.name@ + "()"@));
            },
            None => {},
        }
        i = i + 1;
    }
    assert(tv.take(tcs@.len() as int) =~= tv);
    crate::text::join_strings(&names, ", ")
}

/// One message rendered for a text prompt (see [`prompt_line`]).
pub fn render_prompt_line(m: &ChatMessage) -> (r: String)
    ensures
        r@ == prompt_line(message_view(*m)),
{
    let text = m.extract_text_content();
    if eq_lit(&m.role, "tool") {
        let id = match &m.tool_call_id {
            Some(t) => t.clone(),
            None => String::new(),
        };
        let mut r = concat3("tool[", id.as_str(), "]: ");
        r.append(text.as_str());
        r
    } else if eq_lit(&m.role, "assistant") && m.tool_calls.is_some() {
        let calls = match &m.tool_calls {
            Some(tcs) => call_list(tcs),
            None => String::new(),
        };
        if !text.as_str().is_empty() {
            let mut r = concat3("assistant: ", text.as_str(), " [calls: ");
            r.append(calls.as_str());
            r.append("]");
            r
        } else {
            concat3("assistant: [calls: ", calls.as_str(), "]")
        }
    } else {
        concat3(m.role.as_str(), ": ", text.as_str())
    }
}


/// A prompt: plain text, or a conversation history.
#[derive(Debug)]
pub enum ChatMessages {
    Text(String),
    Messages(Vec<ChatMessage>),
}

/// The mathematical value of a [`ChatMessages`].
pub enum ChatMessagesView {
    Text(Seq<char>),
    Messages(Seq<MessageView>),
}

impl View for ChatMessages {
    type V = ChatMessagesView;

    open spec fn view(&self) -> ChatMessagesView {
        match self {
            ChatMessages::Text(s) => ChatMessagesView::Text(s@),
            ChatMessages::Messages(ms) => ChatMessagesView::Messages(messages_view(ms@)),
        }
    }
}

/// The message that wraps a plain-text prompt.
pub open spec fn user_message_view(text: Seq<char>) -> MessageView {
    MessageView {
        role: "user"@,
        content: Some(ContentView::Text(text)),
        tool_calls: None,
        tool_call_id: None,
    }
}

/// The conversation a prompt stands for: a single user message for text.
pub open spec fn conversation(c: ChatMessagesView) -> Seq<MessageView> {
    match c {
        ChatMessagesView::Text(s) => seq![user_message_view(s)],
        ChatMessagesView::Messages(ms) => ms,
    }
}

/// The text form of a prompt: the text itself, or one line per message
/// joined by newlines.
pub open spec fn prompt_text(c: ChatMessagesView) -> Seq<char> {
    match c {
        ChatMessagesView::Text(s) => s,
        ChatMessagesView::Messages(ms) => seq_join(ms.map_values(|m: MessageView| prompt_line(m)), "\n"@),
    }
}

/// A text prompt reads back as itself, and a conversation comes back as it
/// was given: `from_string(s).to_prompt()` is `s`, and
/// `from_messages(ms).to_chat_messages()` is `ms`.
pub proof fn law_prompt_roundtrip(s: Seq<char>, ms: Seq<MessageView>)
    ensures
        prompt_text(ChatMessagesView::Text(s)) == s,
        conversation(ChatMessagesView::Messages(ms)) == ms,
{
}

impl ChatMessages {
    /// A prompt made of plain text.
    pub fn from_string(s: String) -> (r: ChatMessages)
        ensures
            r@ == ChatMessagesView::Text(s@),
    {
        ChatMessages::Text(s)
    }

    /// A prompt made of a conversation.
    pub fn from_messages(messages: Vec<ChatMessage>) -> (r: ChatMessages)
        ensures
            r@ == ChatMessagesView::Messages(messages_view(messages@)),
    {
        ChatMessages::Messages(messages)
    }

    /// Whether the prompt is plain text.
    pub fn is_string(&self) -> (r: bool)
        ensures
            r == (self@ is Text),
    {
        match self {
            ChatMessages::Text(_) => true,
            ChatMessages::Messages(_) => false,
        }
    }

    /// The text form of the prompt (see [`prompt_text`]).
    pub fn to_prompt(&self) -> (r: String)
        ensures
            r@ == prompt_text(self@),
    {
        match self {
            ChatMessages::Text(s) => s.clone(),
            ChatMessages::Messages(ms) => {
                let ghost mv = messages_view(ms@);
                let mut lines: Vec<String> = Vec::new();
                let mut i: usize = 0;
                while i < ms.len()
                    invariant
                        i <= ms@.len(),
                        mv == messages_view(ms@),
                        lines@.len() == i,
                        forall|j: int| 0 <= j < i ==> (#[trigger] lines@[j])@ == prompt_line(mv[j]),
                    decreases ms@.len() - i,
                {
                    lines.push(render_prompt_line(&ms[i]));
                    i = i + 1;
                }
                let r = crate::text::join_strings(&lines, "\n");
                assert(lines@.map_values(|p: String| p@) =~= mv.map_values(|m: MessageView| prompt_line(m)));
                r
            },
        }
    }

    /// The conversation the prompt stands for (see [`conversation`]).
    pub fn to_chat_messages(&self) -> (r: Vec<ChatMessage>)
        ensures
            messages_view(r@) == conversation(self@),
    {
        match self {
            ChatMessages::Text(s) => {
                let m = ChatMessage::user(s.clone());
                let r = vec![m];
                assert(messages_view(r@) =~= seq![user_message_view(s@)]);
                r
            },
            ChatMessages::Messages(ms) => copy_messages(ms),
        }
    }

    /// `size` copies of the conversation, one per parallel generation.
    pub fn to_batch(&self, size: usize) -> (r: Vec<Vec<ChatMessage>>)
        ensures
            r@.len() == size,
            forall|i: int| 0 <= i < size ==> messages_view((#[trigger] r@[i])@) == conversation(self@),
    {
        let base = self.to_chat_messages();
        let mut r: Vec<Vec<ChatMessage>> = Vec::new();
        let mut i: usize = 0;
        while i < size
            invariant
                i <= size,
                r@.len() == i,
                messages_view(base@) == conversation(self@),
                forall|j: int| 0 <= j < i ==> messages_view((#[trigger] r@[j])@) == conversation(self@),
            decreases size - i,
        {
            r.push(copy_messages(&base));
            i = i + 1;
        }
        r
    }
}

/// A JSON string value from a string's view.
pub open spec fn jstr(s: Seq<char>) -> JsonView {
    JsonView::Str(s)
}

/// The JSON form of a content part: its type, then its text when present.
pub open spec fn part_jview(p: PartView) -> JsonView {
    match p.1 {
        Some(t) => JsonView::Object(seq![("type"@, jstr(p.0)), ("text"@, jstr(t))]),
        None => JsonView::Object(seq![("type"@, jstr(p.0))]),
    }
}

/// The JSON form of a content: a string, or the array of its parts.
pub open spec fn content_jview(c: ContentView) -> JsonView {
    match c {
        ContentView::Text(s) => jstr(s),
        ContentView::Parts(ps) => JsonView::Array(ps.map_values(|p: PartView| part_jview(p))),
    }
}

/// The JSON form of a tool call: id, type and function (`null` when absent).
pub open spec fn tool_call_jview(t: ToolCallView) -> JsonView {
    JsonView::Object(seq![
        ("id"@, jstr(t.id)),
        ("type"@, jstr(t.call_type)),
        ("function"@, match t.function {
            Some((name, args)) => JsonView::Object(seq![("name"@, jstr(name)), ("arguments"@, args)]),
            None => JsonView::Null,
        }),
    ])
}

/// The JSON form of a message: its role, then content, tool calls and tool
/// call id when present.
pub open spec fn message_jview(m: MessageView) -> JsonView {
    let role = seq![("role"@, jstr(m.role))];
    let with_content = match m.content {
        Some(c) => role.push(("content"@, content_jview(c))),
        None => role,
    };
    let with_calls = match m.tool_calls {
        Some(tcs) => with_content.push(("tool_calls"@, JsonView::Array(tcs.map_values(|t: ToolCallView| tool_call_jview(t))))),
        None => with_content,
    };
    let all = match m.tool_call_id {
        Some(id) => with_calls.push(("tool_call_id"@, jstr(id))),
        None => with_calls,
    };
    JsonView::Object(all)
}

fn member(key: &str, value: JsonValue) -> (r: (String, JsonValue))
    ensures
        r.0@ == key@,
        r.1 == value,
{
    (crate::text::owned(key), value)
}

fn part_json(p: &ContentPart) -> (r: JsonValue)
    ensures
        jview(r) == part_jview(part_view(*p)),
{
    let mut ms: Vec<(String, JsonValue)> = Vec::new();
    ms.push(member("type", JsonValue::Str(p.part_type.clone())));
    match &p.text {
        Some(t) => ms.push(member("text", JsonValue::Str(t.clone()))),
        None => {},
    }
    proof {
        crate::json::lemma_jview_members(ms@);
        assert(jview_members(ms@) =~= match part_view(*p).1 {
            Some(t) => seq![("type"@, jstr(p.part_type@)), ("text"@, jstr(t))],
            None => seq![("type"@, jstr(p.part_type@))],
        });
    }
    JsonValue::Object(ms)
}

fn content_json(c: &Content) -> (r: JsonValue)
    ensures
        jview(r) == content_jview(content_view(*c)),
{
    match c {
        Content::Text(s) => JsonValue::Str(s.clone()),
        Content::Parts(ps) => {
            let mut items: Vec<JsonValue> = Vec::new();
            let mut i: usize = 0;
            while i < ps.len()
                invariant
                    i <= ps@.len(),
                    items@.len() == i,
                    forall|j: int| 0 <= j < i ==> jview(#[trigger] items@[j]) == part_jview(part_view(ps@[j])),
                decreases ps@.len() - i,
            {
                items.push(part_json(&ps[i]));
                i = i + 1;
            }
            proof {
                crate::json::lemma_jview_items(items@);
                assert(jview_items(items@) =~= ps@.map_values(|p: ContentPart| part_view(p)).map_values(|p: PartView| part_jview(p)));
            }
            JsonValue::Array(items)
        },
    }
}

fn tool_call_json(t: &ToolCall) -> (r: JsonValue)
    ensures
        jview(r) == tool_call_jview(tool_call_view(*t)),
{
    let function = match &t.function {
        Some(f) => {
            let fm = vec![member("name", JsonValue::Str(f.name.clone())), member("arguments", copy_json(&f.arguments))];
            proof {
                crate::json::lemma_jview_members(fm@);
                assert(jview_members(fm@) =~= seq![("name"@, jstr(f.name@)), ("arguments"@, jview(f.arguments))]);
            }
            JsonValue::Object(fm)
        },
        None => JsonValue::Null,
    };
    let ms = vec![
        member("id", JsonValue::Str(t.id.clone())),
        member("type", JsonValue::Str(t.call_type.clone())),
        member("function", function),
    ];
    proof {
        crate::json::lemma_jview_members(ms@);
        assert(jview_members(ms@) =~= match tool_call_jview(tool_call_view(*t)) {
            JsonView::Object(m) => m,
            _ => Seq::empty(),
        });
    }
    JsonValue::Object(ms)
}

/// The JSON form of a message (see [`message_jview`]).
pub fn message_json(m: &ChatMessage) -> (r: JsonValue)
    ensures
        jview(r) == message_jview(message_view(*m)),
{
    let mut ms: Vec<(String, JsonValue)> = Vec::new();
    ms.push(member("role", JsonValue::Str(m.role.clone())));
    match &m.content {
        Some(c) => ms.push(member("content", content_json(c))),
        None => {},
    }
    match &m.tool_calls {
        Some(tcs) => {
            let mut items: Vec<JsonValue> = Vec::new();
            let mut i: usize = 0;
            while i < tcs.len()
                invariant
                    i <= tcs@.len(),
                    items@.len() == i,
                    forall|j: int| 0 <= j < i ==> jview(#[trigger] items@[j]) == tool_call_jview(tool_call_view(tcs@[j])),
                decreases tcs@.len() - i,
            {
                items.push(tool_call_json(&tcs[i]));
                i = i + 1;
            }
            proof {
                crate::json::lemma_jview_items(items@);
                assert(jview_items(items@) =~= tcs@.map_values(|t: ToolCall| tool_call_view(t)).map_values(|t: ToolCallView| tool_call_jview(t)));
            }
            ms.push(member("tool_calls", JsonValue::Array(items)));
        },
        None => {},
    }
    match &m.tool_call_id {
        Some(id) => ms.push(member("tool_call_id", JsonValue::Str(id.clone()))),
        None => {},
    }
    proof {
        crate::json::lemma_jview_members(ms@);
        assert(jview_members(ms@) =~= match message_jview(message_view(*m)) {
            JsonView::Object(x) => x,
            _ => Seq::empty(),
        });
    }
    JsonValue::Object(ms)
}

/// The conversation as one prompt: a `role: text` line per message,
/// joined by newlines.
pub fn messages_to_prompt(messages: &Vec<ChatMessage>) -> (r: String)
    ensures
        r@ == seq_join(messages_view(messages@).map_values(|m: MessageView| role_line(m)), "\n"@),
{
    let ghost mv = messages_view(messages@);
    let mut lines: Vec<String> = Vec::new();
    let mut i: usize = 0;
    while i < messages.len()
        invariant
            i <= messages@.len(),
            mv == messages_view(messages@),
            lines@.len() == i,
            forall|j: int| 0 <= j < i ==> (#[trigger] lines@[j])@ == role_line(mv[j]),
        decreases messages@.len() - i,
    {
        let text = messages[i].extract_text_content();
        let line = concat3(messages[i].role.as_str(), ": ", text.as_str());
        lines.push(line);
        i = i + 1;
    }
    assert(lines@.map_values(|p: String| p@) =~= mv.map_values(|m: MessageView| role_line(m)));
    crate::text::join_strings(&lines, "\n")
}

/// The problem a conversation poses: the texts of its messages joined by
/// newlines.
pub fn problem_text(messages: &Vec<ChatMessage>) -> (r: String)
    ensures
        r@ == seq_join(messages_view(messages@).map_values(|m: MessageView| content_text(m.content)), "\n"@),
{
    let ghost mv = messages_view(messages@);
    let mut texts: Vec<String> = Vec::new();
    let mut i: usize = 0;
    while i < messages.len()
        invariant
            i <= messages@.len(),
            mv == messages_view(messages@),
            texts@.len() == i,
            forall|j: int| 0 <= j < i ==> (#[trigger] texts@[j])@ == content_text(mv[j].content),
        decreases messages@.len() - i,
    {
        texts.push(messages[i].extract_text_content());
        i = i + 1;
    }
    assert(texts@.map_values(|p: String| p@) =~= mv.map_values(|m: MessageView| content_text(m.content)));
    crate::text::join_strings(&texts, "\n")
}

} // verus!
