//! Requests, messages, tools and tool calls, whatever API they came by.
use vstd::prelude::*;

use crate::error::{AdapterError, ErrorView};
use crate::json;
use crate::json::{Json, JsonView};
use crate::protocol;
use crate::protocol_laws;
use crate::text;
use crate::views;
use crate::wire::{chat, messages, responses, WireMode};

verus! {

/// A part of a message.
pub enum ContentView {
    Text { text: Seq<char> },
    ImageUrl { url: Seq<char> },
    ToolUse { id: Seq<char>, name: Seq<char>, input: JsonView },
    ToolResult { tool_use_id: Seq<char>, content: Seq<char>, is_error: bool },
}

/// A message: who says it and what.
pub struct MessageView {
    pub role: Seq<char>,
    pub content: Seq<ContentView>,
}

/// A tool that the client offers.
pub struct ToolView {
    pub name: Seq<char>,
    pub description: Option<Seq<char>>,
    pub input_schema: JsonView,
}

/// Which tools the client lets the model call.
pub enum ChoiceView {
    Auto,
    Never,
    Required,
    Function { name: Seq<char> },
}

/// A tool call that the model made.
pub struct CallView {
    pub id: Seq<char>,
    pub name: Seq<char>,
    pub arguments: Seq<char>,
}

/// A request.
pub struct RequestView {
    pub model: Seq<char>,
    pub max_tokens: u32,
    pub system: Option<Seq<char>>,
    pub messages: Seq<MessageView>,
    pub tools: Seq<ToolView>,
    pub tool_choice: ChoiceView,
    pub parallel_tool_calls: bool,
    pub stream: bool,
    pub background: bool,
    pub previous_response_id: Option<Seq<char>>,
}

impl ContentView {
    /// How the part reads in a prompt.
    pub open spec fn prompt_text(self) -> Seq<char> {
        match self {
            ContentView::Text { text } => text,
            ContentView::ImageUrl { url } => "[Image: "@ + url + "]"@,
            ContentView::ToolUse { id, name, input } => "<previous_tool_call id=\""@ + id
                + "\" name=\""@ + name + "\">"@ + json::compact(input)
                + "</previous_tool_call>"@,
            ContentView::ToolResult { tool_use_id, content, is_error } => "<tool_result id=\""@
                + tool_use_id + "\" is_error=\""@ + (if is_error {
                "true"@
            } else {
                "false"@
            }) + "\">\n"@ + content + "\n</tool_result>"@,
        }
    }
}

impl MessageView {
    /// How the content reads in a prompt: a line break between the parts.
    pub open spec fn content_text(self) -> Seq<char> {
        text::joined(self.content.map_values(|part: ContentView| part.prompt_text()), "\n"@)
    }
}

/// What the prompt says about the choice of tools.
pub open spec fn choice_prompt(protocol: Seq<char>, choice: ChoiceView, parallel: bool) -> Seq<char> {
    protocol + match choice {
        ChoiceView::Auto => "\nTool choice: auto. Use a tool only when it is needed."@,
        ChoiceView::Never => "\nTool choice: none. Do not call tools. Answer directly."@,
        ChoiceView::Required => "\nTool choice: required. You must call one available tool."@,
        ChoiceView::Function { name } => "\nTool choice: required function `"@ + name
            + "`. You must call this tool name exactly."@,
    } + if parallel {
        "\nParallel tool calls: allowed when independent."@
    } else {
        "\nParallel tool calls: disabled. Emit at most one tool call."@
    }
}

impl RequestView {
    /// The system section of the prompt: there unless the system text is blank.
    pub open spec fn system_sections(self) -> Seq<Seq<char>> {
        match self.system {
            Some(system) => if text::blank(system) {
                Seq::empty()
            } else {
                seq!["<system>\n"@ + system + "\n</system>"@]
            },
            None => Seq::empty(),
        }
    }

    /// The tool section of the prompt: there if the request offers tools.
    pub open spec fn tool_sections(self, protocol: Seq<char>) -> Seq<Seq<char>> {
        if self.tools.len() > 0 {
            seq![
                "<tool_protocol>\n"@ + choice_prompt(
                    protocol,
                    self.tool_choice,
                    self.parallel_tool_calls,
                ) + "\n</tool_protocol>"@,
            ]
        } else {
            Seq::empty()
        }
    }

    /// One section for each message: who says it and what.
    pub open spec fn message_sections(self) -> Seq<Seq<char>> {
        self.messages.map_values(|m: MessageView| m.role + ": "@ + m.content_text())
    }

    /// The prompt: the sections, with an empty line between them.
    pub open spec fn prompt(self, protocol: Seq<char>) -> Seq<char> {
        text::joined(
            self.system_sections() + self.tool_sections(protocol) + self.message_sections(),
            "\n\n"@,
        )
    }
}

/// A request, whatever API it came by.
#[derive(Debug, Clone, PartialEq)]
pub struct UnifiedRequest {
    pub model: String,
    pub max_tokens: u32,
    pub system: Option<String>,
    pub messages: Vec<UnifiedMessage>,
    pub tools: Vec<ToolDefinition>,
    pub tool_choice: ToolChoice,
    pub parallel_tool_calls: bool,
    pub stream: bool,
    pub background: bool,
    pub previous_response_id: Option<String>,
}

/// A message: who says it and what.
#[derive(Debug, Clone, PartialEq)]
pub struct UnifiedMessage {
    pub role: String,
    pub content: Vec<UnifiedContent>,
}

/// A part of a message.
#[derive(Debug, Clone, PartialEq)]
pub enum UnifiedContent {
    Text { text: String },
    ImageUrl { url: String },
    ToolUse { id: String, name: String, input: Json },
    ToolResult { tool_use_id: String, content: String, is_error: bool },
}

/// A tool that the client offers.
#[derive(Debug, Clone, PartialEq, Eq)]
pub struct ToolDefinition {
    pub name: String,
    pub description: Option<String>,
    pub input_schema: Json,
}

/// Which tools the client lets the model call.
#[derive(Debug, Clone, PartialEq, Eq)]
pub enum ToolChoice {
    Auto,
    Never,
    Required,
    Function { name: String },
}

/// A tool call that the model made.
#[derive(Debug, Clone, PartialEq, Eq)]
pub struct ParsedToolCall {
    pub id: String,
    pub name: String,
    pub arguments: String,
}

impl View for UnifiedContent {
    type V = ContentView;

    open spec fn view(&self) -> ContentView {
        match *self {
            UnifiedContent::Text { text } => ContentView::Text { text: text@ },
            UnifiedContent::ImageUrl { url } => ContentView::ImageUrl { url: url@ },
            UnifiedContent::ToolUse { id, name, input } => ContentView::ToolUse {
                id: id@,
                name: name@,
                input: input@,
            },
            UnifiedContent::ToolResult { tool_use_id, content, is_error } => ContentView::ToolResult {
                tool_use_id: tool_use_id@,
                content: content@,
                is_error,
            },
        }
    }
}

impl View for UnifiedMessage {
    type V = MessageView;

    open spec fn view(&self) -> MessageView {
        MessageView { role: self.role@, content: views::of_list(self.content@) }
    }
}

impl View for ToolDefinition {
    type V = ToolView;

    open spec fn view(&self) -> ToolView {
        ToolView {
            name: self.name@,
            description: views::of_option(self.description),
            input_schema: self.input_schema@,
        }
    }
}

impl View for ToolChoice {
    type V = ChoiceView;

    open spec fn view(&self) -> ChoiceView {
        match *self {
            ToolChoice::Auto => ChoiceView::Auto,
            ToolChoice::Never => ChoiceView::Never,
            ToolChoice::Required => ChoiceView::Required,
            ToolChoice::Function { name } => ChoiceView::Function { name: name@ },
        }
    }
}

impl View for ParsedToolCall {
    type V = CallView;

    open spec fn view(&self) -> CallView {
        CallView { id: self.id@, name: self.name@, arguments: self.arguments@ }
    }
}

impl View for UnifiedRequest {
    type V = RequestView;

    open spec fn view(&self) -> RequestView {
        RequestView {
            model: self.model@,
            max_tokens: self.max_tokens,
            system: views::of_option(self.system),
            messages: views::of_list(self.messages@),
            tools: views::of_list(self.tools@),
            tool_choice: self.tool_choice@,
            parallel_tool_calls: self.parallel_tool_calls,
            stream: self.stream,
            background: self.background,
            previous_response_id: views::of_option(self.previous_response_id),
        }
    }
}

impl UnifiedContent {
    /// How the part reads in a prompt. A tool call with an object as its input is read off
    /// its text as that call: with its id, its name and its input as the arguments, or with
    /// what the input holds under one of the usual names of arguments.
    pub fn as_prompt_text(&self) -> (r: String)
        ensures
            r@ == self@.prompt_text(),
            self@ matches ContentView::ToolUse { id, name, input } ==> (input is Object
                && json::reads_back(input) && protocol_laws::shown_clearly(
                id,
                name,
                json::compact(input),
            ) ==> protocol::calls_in(r@) == seq![
                CallView { id, name, arguments: protocol_laws::meant_arguments(input) },
            ]),
    {
        match self {
            UnifiedContent::Text { text } => text.clone(),
            UnifiedContent::ImageUrl { url } => {
                let mut out = "[Image: ".to_owned();
                out.append(url.as_str());
                out.append("]");
                out
            },
            UnifiedContent::ToolUse { id, name, input } => {
                let mut out = "<previous_tool_call id=\"".to_owned();
                out.append(id.as_str());
                out.append("\" name=\"");
                out.append(name.as_str());
                out.append("\">");
                out.append(input.to_text().as_str());
                out.append("</previous_tool_call>");
                proof {
                    if protocol_laws::shown_clearly(id@, name@, json::compact(input@)) {
                        protocol_laws::lemma_previous_call_is_read(id@, name@, input@);
                    }
                }
                out
            },
            UnifiedContent::ToolResult { tool_use_id, content, is_error } => {
                let mut out = "<tool_result id=\"".to_owned();
                out.append(tool_use_id.as_str());
                out.append("\" is_error=\"");
                out.append(
                    if *is_error {
                        "true"
                    } else {
                        "false"
                    },
                );
                out.append("\">\n");
                out.append(content.as_str());
                out.append("\n</tool_result>");
                out
            },
        }
    }
}

impl UnifiedMessage {
    /// A message with one part, a text.
    pub fn text(role: &str, text: &str) -> (r: Self)
        ensures
            r@ == (MessageView { role: role@, content: seq![ContentView::Text { text: text@ }] }),
    {
        let content = vec![UnifiedContent::Text { text: text.to_owned() }];
        assert(views::of_list(content@) =~= seq![ContentView::Text { text: text@ }]);
        UnifiedMessage { role: role.to_owned(), content }
    }

    /// How the content reads in a prompt.
    pub fn content_text(&self) -> (r: String)
        ensures
            r@ == self@.content_text(),
    {
        let mut parts: Vec<String> = Vec::new();
        let mut i: usize = 0;
        while i < self.content.len()
            invariant
                i <= self.content@.len(),
                parts@.len() == i,
                forall|k: int|
                    0 <= k < i ==> (#[trigger] parts@[k])@ == self.content@[k]@.prompt_text(),
            decreases self.content.len() - i,
        {
            parts.push(self.content[i].as_prompt_text());
            i += 1;
        }
        assert(text::texts(parts@) =~= self@.content.map_values(
            |part: ContentView| part.prompt_text(),
        ));
        text::join(&parts, "\n")
    }
}

impl Default for ToolChoice {
    fn default() -> (r: Self)
        ensures
            r == ToolChoice::Auto,
    {
        ToolChoice::Auto
    }
}

impl ToolChoice {
    /// Whether the model may call tools at all.
    pub fn allows_tools(&self) -> (r: bool)
        ensures
            r == !(self@ is Never),
    {
        match self {
            ToolChoice::Never => false,
            _ => true,
        }
    }

    /// Whether the model has to call a tool.
    pub fn requires_tool(&self) -> (r: bool)
        ensures
            r == (self@ is Required || self@ is Function),
    {
        match self {
            ToolChoice::Required => true,
            ToolChoice::Function { .. } => true,
            _ => false,
        }
    }

    /// The one tool that the model has to call, if it is named.
    pub fn required_name(&self) -> (r: Option<&str>)
        ensures
            views::of_option(r) == self@.required_name(),
    {
        match self {
            ToolChoice::Function { name } => Some(name.as_str()),
            _ => None,
        }
    }

    /// The choice as the Responses API writes it.
    pub fn to_wire_value(&self) -> (r: Json)
        ensures
            r@ == self@.wire_value(),
    {
        match self {
            ToolChoice::Auto => Json::text("auto"),
            ToolChoice::Never => Json::text("none"),
            ToolChoice::Required => Json::text("required"),
            ToolChoice::Function { name } => {
                let pairs = vec![("type", Json::text("function")), ("name", Json::text(name.as_str()))];
                assert(crate::json::pairs_view(pairs@) =~= seq![
                    ("type"@, JsonView::Text("function"@)),
                    ("name"@, JsonView::Text(name@)),
                ]);
                Json::object(pairs)
            },
        }
    }
}

impl ChoiceView {
    /// The one tool that the model has to call, if it is named.
    pub open spec fn required_name(self) -> Option<Seq<char>> {
        match self {
            ChoiceView::Function { name } => Some(name),
            _ => None,
        }
    }

    /// The choice as the Responses API writes it.
    pub open spec fn wire_value(self) -> JsonView {
        match self {
            ChoiceView::Auto => JsonView::Text("auto"@),
            ChoiceView::Never => JsonView::Text("none"@),
            ChoiceView::Required => JsonView::Text("required"@),
            ChoiceView::Function { name } => JsonView::object(
                seq![("type"@, JsonView::Text("function"@)), ("name"@, JsonView::Text(name))],
            ),
        }
    }
}

/// What the prompt says about the choice of tools.
pub fn render_tool_choice_prompt(protocol: &str, tool_choice: &ToolChoice, parallel: bool) -> (r:
    String)
    ensures
        r@ == choice_prompt(protocol@, tool_choice@, parallel),
{
    let mut choice = String::new();
    match tool_choice {
        ToolChoice::Auto => {
            choice.append("\nTool choice: auto. Use a tool only when it is needed.");
        },
        ToolChoice::Never => {
            choice.append("\nTool choice: none. Do not call tools. Answer directly.");
        },
        ToolChoice::Required => {
            choice.append("\nTool choice: required. You must call one available tool.");
        },
        ToolChoice::Function { name } => {
            choice.append("\nTool choice: required function `");
            choice.append(name.as_str());
            choice.append("`. You must call this tool name exactly.");
        },
    }
    let mut prompt = protocol.to_owned();
    prompt.append(choice.as_str());
    if parallel {
        prompt.append("\nParallel tool calls: allowed when independent.");
    } else {
        prompt.append("\nParallel tool calls: disabled. Emit at most one tool call.");
    }
    assert(prompt@ =~= choice_prompt(protocol@, tool_choice@, parallel));
    prompt
}

/// The request that a payload makes by this API.
pub open spec fn wire_request(mode: WireMode, payload: JsonView) -> Result<RequestView, ErrorView> {
    match mode {
        WireMode::ChatCompletions => chat::request_of(payload),
        WireMode::Messages => messages::request_of(payload),
        WireMode::Responses => responses::request_of(payload),
    }
}

impl UnifiedRequest {
    /// Reads the request that a payload makes by this API.
    pub fn from_wire_payload(mode: WireMode, payload: Json) -> (r: Result<Self, AdapterError>)
        ensures
            views::of_result(r) == wire_request(mode, payload@),
    {
        match mode {
            WireMode::ChatCompletions => chat::parse_request(payload),
            WireMode::Messages => messages::parse_request(payload),
            WireMode::Responses => responses::parse_request(payload),
        }
    }

    /// The prompt for an upstream that knows no tools: the system text, the tool
    /// protocol if tools are offered, and the messages.
    pub fn render_prompt_with_tool_protocol(&self, protocol: &str) -> (r: String)
        ensures
            r@ == self@.prompt(protocol@),
    {
        let mut sections: Vec<String> = Vec::new();
        assert(text::texts(sections@) =~= Seq::empty());
        if let Some(system) = &self.system {
            if !text::is_blank(system.as_str()) {
                let mut section = "<system>\n".to_owned();
                section.append(system.as_str());
                section.append("\n</system>");
                sections.push(section);
            }
        }
        assert(text::texts(sections@) =~= self@.system_sections());
        let ghost head = sections@;
        if !self.tools.is_empty() {
            let mut section = "<tool_protocol>\n".to_owned();
            section.append(
                render_tool_choice_prompt(
                    protocol,
                    &self.tool_choice,
                    self.parallel_tool_calls,
                ).as_str(),
            );
            section.append("\n</tool_protocol>");
            sections.push(section);
        }
        let ghost front = self@.system_sections() + self@.tool_sections(protocol@);
        assert(text::texts(sections@) =~= front);
        let mut i: usize = 0;
        assert(self@.message_sections().take(0) =~= Seq::empty());
        while i < self.messages.len()
            invariant
                i <= self.messages@.len(),
                text::texts(sections@) =~= front + self@.message_sections().take(i as int),
            decreases self.messages.len() - i,
        {
            let message = &self.messages[i];
            let mut section = message.role.clone();
            section.append(": ");
            section.append(message.content_text().as_str());
            let ghost before = sections@;
            sections.push(section);
            i += 1;
            assert(self@.message_sections()[i - 1] == section@);
            assert(text::texts(sections@) =~= text::texts(before).push(section@));
        }
        assert(self@.message_sections().take(i as int) =~= self@.message_sections());
        text::join(&sections, "\n\n")
    }
}

} // verus!
