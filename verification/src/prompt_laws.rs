//! What holds of every prompt: all that a request says stands in it.
use vstd::prelude::*;

use crate::json;
use crate::json::JsonView;
use crate::protocol;
use crate::text;
use crate::types;
use crate::types::{ChoiceView, ContentView, MessageView, RequestView, ToolView};

verus! {

/// Each of the parts stands in what they are joined to.
proof fn lemma_joined_has(parts: Seq<Seq<char>>, sep: Seq<char>, i: int)
    requires
        0 <= i < parts.len(),
    ensures
        text::has(text::joined(parts, sep), parts[i]),
    decreases parts.len(),
{
    let none = Seq::<char>::empty();
    if parts.len() == 1 {
        text::lemma_has_between(none, parts[0], none);
        assert(none + parts[0] + none =~= parts[0]);
    } else {
        let n = parts.len() - 1;
        let front = text::joined(parts.take(n), sep);
        if i == n {
            text::lemma_has_between(front + sep, parts[n], none);
            assert(front + sep + parts[n] + none =~= text::joined(parts, sep));
        } else {
            assert(parts.take(n)[i] == parts[i]);
            lemma_joined_has(parts.take(n), sep, i);
            text::lemma_has_between(none, front, sep + parts[n]);
            assert(none + front + (sep + parts[n]) =~= text::joined(parts, sep));
            text::lemma_has_within(text::joined(parts, sep), front, parts[i]);
        }
    }
}

/// Each tool stands in what is said of all.
proof fn lemma_entries_have(tools: Seq<ToolView>, i: int)
    requires
        0 <= i < tools.len(),
    ensures
        text::has(protocol::tool_entries(tools), protocol::tool_entry(tools[i])),
    decreases tools.len(),
{
    let none = Seq::<char>::empty();
    let n = tools.len() - 1;
    let front = protocol::tool_entries(tools.take(n));
    let last = protocol::tool_entry(tools[n]);
    if i == n {
        text::lemma_has_between(front, last, none);
        assert(front + last + none =~= protocol::tool_entries(tools));
    } else {
        assert(tools.take(n)[i] == tools[i]);
        lemma_entries_have(tools.take(n), i);
        text::lemma_has_between(none, front, last);
        assert(none + front + last =~= protocol::tool_entries(tools));
        text::lemma_has_within(
            protocol::tool_entries(tools),
            front,
            protocol::tool_entry(tools[i]),
        );
    }
}

/// Every message of a request stands in its prompt, with who says it.
pub proof fn lemma_prompt_has_messages(request: RequestView, protocol: Seq<char>, i: int)
    requires
        0 <= i < request.messages.len(),
    ensures
        text::has(
            request.prompt(protocol),
            request.messages[i].role + ": "@ + request.messages[i].content_text(),
        ),
{
    let front = request.system_sections() + request.tool_sections(protocol);
    let sections = front + request.message_sections();
    let at = front.len() + i;
    assert(sections[at] == request.messages[i].role + ": "@ + request.messages[i].content_text());
    lemma_joined_has(sections, "\n\n"@, at);
}

/// The system text of a request stands in its prompt, unless it is blank.
pub proof fn lemma_prompt_has_system(request: RequestView, protocol: Seq<char>, system: Seq<char>)
    requires
        request.system == Some(system),
        !text::blank(system),
    ensures
        text::has(request.prompt(protocol), system),
{
    let section = "<system>\n"@ + system + "\n</system>"@;
    let sections = request.system_sections() + request.tool_sections(protocol)
        + request.message_sections();
    assert(sections[0] == section);
    lemma_joined_has(sections, "\n\n"@, 0);
    text::lemma_has_between("<system>\n"@, system, "\n</system>"@);
    text::lemma_has_within(request.prompt(protocol), section, system);
}

/// If a request offers tools, its prompt tells how to call one, what the choice of tools
/// is, and each tool with its name, description and schema.
pub proof fn lemma_prompt_has_tools(request: RequestView, i: int)
    requires
        0 <= i < request.tools.len(),
    ensures
        ({
            let protocol = protocol::protocol_prompt(request.tools);
            let prompt = request.prompt(protocol);
            &&& text::has(prompt, protocol::TOOL_PROTOCOL@)
            &&& text::has(
                prompt,
                types::choice_prompt(protocol, request.tool_choice, request.parallel_tool_calls),
            )
            &&& text::has(prompt, protocol::tool_entry(request.tools[i]))
        }),
{
    let none = Seq::<char>::empty();
    let protocol = protocol::protocol_prompt(request.tools);
    let prompt = request.prompt(protocol);
    let told = types::choice_prompt(protocol, request.tool_choice, request.parallel_tool_calls);
    let section = "<tool_protocol>\n"@ + told + "\n</tool_protocol>"@;
    let front = request.system_sections();
    let sections = front + request.tool_sections(protocol) + request.message_sections();
    let entry = protocol::tool_entry(request.tools[i]);
    let entries = protocol::tool_entries(request.tools);
    let head = protocol::TOOL_PROTOCOL@;
    let lead = "\nAvailable tools:\n"@;
    assert(sections[front.len() as int] == section);
    lemma_joined_has(sections, "\n\n"@, front.len() as int);
    text::lemma_has_between("<tool_protocol>\n"@, told, "\n</tool_protocol>"@);
    text::lemma_has_within(prompt, section, told);
    let behind = told.skip(protocol.len() as int);
    assert(told =~= none + protocol + behind);
    text::lemma_has_between(none, protocol, behind);
    text::lemma_has_within(prompt, told, protocol);
    assert(protocol =~= none + head + (lead + entries));
    text::lemma_has_between(none, head, lead + entries);
    text::lemma_has_within(prompt, protocol, head);
    assert(protocol =~= (head + lead) + entries + none);
    text::lemma_has_between(head + lead, entries, none);
    text::lemma_has_within(prompt, protocol, entries);
    lemma_entries_have(request.tools, i);
    text::lemma_has_within(prompt, entries, entry);
}

/// What a client lets the model call is told in the words for it, and in no others: each
/// choice has a sentence of its own behind the protocol, and whether calls may be parallel
/// is told behind that.
pub proof fn lemma_choice_told(protocol: Seq<char>, choice: ChoiceView, parallel: bool)
    ensures
        ({
            let told = types::choice_prompt(protocol, choice, parallel);
            let sentence = told.skip(protocol.len() as int);
            let end = if parallel {
                "\nParallel tool calls: allowed when independent."@
            } else {
                "\nParallel tool calls: disabled. Emit at most one tool call."@
            };
            &&& text::begins(told, protocol)
            &&& choice is Auto ==> sentence
                == "\nTool choice: auto. Use a tool only when it is needed."@ + end
            &&& choice is Never ==> sentence
                == "\nTool choice: none. Do not call tools. Answer directly."@ + end
            &&& choice is Required ==> sentence
                == "\nTool choice: required. You must call one available tool."@ + end
            &&& choice matches ChoiceView::Function { name } ==> sentence
                == "\nTool choice: required function `"@ + name
                + "`. You must call this tool name exactly."@ + end
        }),
{
    let told = types::choice_prompt(protocol, choice, parallel);
    assert(told.take(protocol.len() as int) =~= protocol);
    let end = if parallel {
        "\nParallel tool calls: allowed when independent."@
    } else {
        "\nParallel tool calls: disabled. Emit at most one tool call."@
    };
    let sentence = match choice {
        ChoiceView::Auto => "\nTool choice: auto. Use a tool only when it is needed."@,
        ChoiceView::Never => "\nTool choice: none. Do not call tools. Answer directly."@,
        ChoiceView::Required => "\nTool choice: required. You must call one available tool."@,
        ChoiceView::Function { name } => "\nTool choice: required function `"@ + name
            + "`. You must call this tool name exactly."@,
    };
    assert(told.skip(protocol.len() as int) =~= sentence + end);
}

/// The prompt of a request that offers tools tells the choice in its own words.
pub proof fn lemma_prompt_tells_choice(request: RequestView)
    requires
        request.tools.len() > 0,
    ensures
        ({
            let prompt = request.prompt(protocol::protocol_prompt(request.tools));
            &&& request.tool_choice is Auto ==> text::has(
                prompt,
                "\nTool choice: auto. Use a tool only when it is needed."@,
            )
            &&& request.tool_choice is Never ==> text::has(
                prompt,
                "\nTool choice: none. Do not call tools. Answer directly."@,
            )
            &&& request.tool_choice is Required ==> text::has(
                prompt,
                "\nTool choice: required. You must call one available tool."@,
            )
            &&& request.tool_choice matches ChoiceView::Function { name } ==> text::has(
                prompt,
                "\nTool choice: required function `"@ + name
                    + "`. You must call this tool name exactly."@,
            )
            &&& request.parallel_tool_calls ==> text::has(
                prompt,
                "\nParallel tool calls: allowed when independent."@,
            )
            &&& !request.parallel_tool_calls ==> text::has(
                prompt,
                "\nParallel tool calls: disabled. Emit at most one tool call."@,
            )
        }),
{
    let none = Seq::<char>::empty();
    let protocol = protocol::protocol_prompt(request.tools);
    let prompt = request.prompt(protocol);
    let told = types::choice_prompt(protocol, request.tool_choice, request.parallel_tool_calls);
    lemma_prompt_has_tools(request, 0);
    lemma_choice_told(protocol, request.tool_choice, request.parallel_tool_calls);
    let end = if request.parallel_tool_calls {
        "\nParallel tool calls: allowed when independent."@
    } else {
        "\nParallel tool calls: disabled. Emit at most one tool call."@
    };
    let sentence = match request.tool_choice {
        ChoiceView::Auto => "\nTool choice: auto. Use a tool only when it is needed."@,
        ChoiceView::Never => "\nTool choice: none. Do not call tools. Answer directly."@,
        ChoiceView::Required => "\nTool choice: required. You must call one available tool."@,
        ChoiceView::Function { name } => "\nTool choice: required function `"@ + name
            + "`. You must call this tool name exactly."@,
    };
    assert(told =~= protocol + sentence + end);
    text::lemma_has_between(protocol, sentence, end);
    text::lemma_has_within(prompt, told, sentence);
    assert(told =~= (protocol + sentence) + end + none);
    text::lemma_has_between(protocol + sentence, end, none);
    text::lemma_has_within(prompt, told, end);
}

/// A choice is told from every other by its words: two that read alike are the same.
pub proof fn lemma_choices_told_apart(protocol: Seq<char>, a: ChoiceView, b: ChoiceView, parallel: bool)
    requires
        types::choice_prompt(protocol, a, parallel) == types::choice_prompt(protocol, b, parallel),
    ensures
        a is Never <==> b is Never,
        a is Required <==> b is Required,
        a is Auto <==> b is Auto,
{
    lemma_choice_told(protocol, a, parallel);
    lemma_choice_told(protocol, b, parallel);
    reveal_strlit("\nTool choice: auto. Use a tool only when it is needed.");
    reveal_strlit("\nTool choice: none. Do not call tools. Answer directly.");
    reveal_strlit("\nTool choice: required. You must call one available tool.");
    reveal_strlit("\nTool choice: required function `");
    let s = types::choice_prompt(protocol, a, parallel).skip(protocol.len() as int);
    assert(a is Auto ==> s[14] == 'a');
    assert(b is Auto ==> s[14] == 'a');
    assert(a is Never ==> s[14] == 'n');
    assert(b is Never ==> s[14] == 'n');
    assert(a is Required ==> s[14] == 'r' && s[22] == '.');
    assert(b is Required ==> s[14] == 'r' && s[22] == '.');
    assert(a is Function ==> s[14] == 'r' && s[22] == ' ');
    assert(b is Function ==> s[14] == 'r' && s[22] == ' ');
}

/// How each part of a message reads in a prompt: a text as it is, an image as its address
/// in brackets, an earlier call and its result in tags that carry the call's id.
pub proof fn lemma_parts_read(id: Seq<char>, name: Seq<char>, input: JsonView, said: Seq<char>)
    ensures
        (ContentView::Text { text: said }).prompt_text() == said,
        (ContentView::ImageUrl { url: said }).prompt_text() == "[Image: "@ + said + "]"@,
        (ContentView::ToolUse { id, name, input }).prompt_text() == "<previous_tool_call id=\""@ + id
            + "\" name=\""@ + name + "\">"@ + json::compact(input) + "</previous_tool_call>"@,
        (ContentView::ToolResult { tool_use_id: id, content: said, is_error: true }).prompt_text()
            == "<tool_result id=\""@ + id + "\" is_error=\"true\">\n"@ + said
            + "\n</tool_result>"@,
        (ContentView::ToolResult { tool_use_id: id, content: said, is_error: false }).prompt_text()
            == "<tool_result id=\""@ + id + "\" is_error=\"false\">\n"@ + said
            + "\n</tool_result>"@,
{
    reveal_strlit("\" is_error=\"");
    reveal_strlit("true");
    reveal_strlit("false");
    reveal_strlit("\">\n");
    reveal_strlit("\" is_error=\"true\">\n");
    reveal_strlit("\" is_error=\"false\">\n");
    assert("\" is_error=\""@ + "true"@ + "\">\n"@ =~= "\" is_error=\"true\">\n"@);
    assert("\" is_error=\""@ + "false"@ + "\">\n"@ =~= "\" is_error=\"false\">\n"@);
    assert((ContentView::ToolResult { tool_use_id: id, content: said, is_error: true }).prompt_text()
        =~= "<tool_result id=\""@ + id + ("\" is_error=\""@ + "true"@ + "\">\n"@) + said
        + "\n</tool_result>"@);
    assert((ContentView::ToolResult { tool_use_id: id, content: said, is_error: false }).prompt_text()
        =~= "<tool_result id=\""@ + id + ("\" is_error=\""@ + "false"@ + "\">\n"@) + said
        + "\n</tool_result>"@);
}

/// A message with one part reads as that part; with one more, as before with a line break
/// and the part behind it.
pub proof fn lemma_message_reads(message: MessageView, part: ContentView)
    ensures
        ({
            let more = MessageView { content: message.content.push(part), ..message };
            &&& message.content.len() == 0 ==> more.content_text() == part.prompt_text()
            &&& message.content.len() > 0 ==> more.content_text() == message.content_text() + "\n"@
                + part.prompt_text()
        }),
{
    let more = MessageView { content: message.content.push(part), ..message };
    let texts = more.content.map_values(|part: ContentView| part.prompt_text());
    let before = message.content.map_values(|part: ContentView| part.prompt_text());
    assert(texts.take(texts.len() - 1) =~= before);
    assert(texts[texts.len() - 1] == part.prompt_text());
}

/// A request with one more message has a prompt with that message behind all else, an
/// empty line before it.
pub proof fn lemma_prompt_grows(request: RequestView, protocol: Seq<char>, message: MessageView)
    ensures
        ({
            let more = RequestView { messages: request.messages.push(message), ..request };
            let last = message.role + ": "@ + message.content_text();
            &&& request.prompt(protocol).len() > 0 ==> more.prompt(protocol) == request.prompt(
                protocol,
            ) + "\n\n"@ + last
            &&& request.messages.len() == 0 && request.system is None && request.tools.len() == 0
                ==> more.prompt(protocol) == last
        }),
{
    let more = RequestView { messages: request.messages.push(message), ..request };
    let front = request.system_sections() + request.tool_sections(protocol);
    let before = front + request.message_sections();
    let all = front + more.message_sections();
    let last = message.role + ": "@ + message.content_text();
    assert(all.take(all.len() - 1) =~= before);
    assert(all[all.len() - 1] == last);
}

/// One more tool is told of behind the others, by its name, its description and the schema
/// of its input.
pub proof fn lemma_tool_told(tools: Seq<ToolView>, tool: ToolView)
    ensures
        ({
            let described = match tool.description {
                Some(description) => description,
                None => Seq::empty(),
            };
            let entry = "- name: "@ + tool.name + "\n  description: "@ + described
                + "\n  input_schema: "@ + json::compact(tool.input_schema) + "\n"@;
            let told = protocol::protocol_prompt(tools.push(tool));
            &&& tools.len() > 0 ==> told == protocol::protocol_prompt(tools) + entry
            &&& text::ends(told, entry)
            &&& text::begins(told, protocol::TOOL_PROTOCOL@)
        }),
        text::ends(protocol::protocol_prompt(Seq::empty()), "\nNo tools are available."@),
{
    let entry = protocol::tool_entry(tool);
    let told = protocol::protocol_prompt(tools.push(tool));
    assert(tools.push(tool).take(tools.len() as int) =~= tools);
    assert(told =~= protocol::TOOL_PROTOCOL@ + "\nAvailable tools:\n"@ + protocol::tool_entries(
        tools,
    ) + entry);
    assert(told.skip(told.len() - entry.len()) =~= entry);
    assert(told.take(protocol::TOOL_PROTOCOL@.len() as int) =~= protocol::TOOL_PROTOCOL@);
    let none = protocol::protocol_prompt(Seq::empty());
    assert(none.skip(none.len() - "\nNo tools are available."@.len())
        =~= "\nNo tools are available."@);
}

} // verus!
