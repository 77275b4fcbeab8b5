//! The prompt: what the model is told, in its own chat template.
//!
//! A leading system turn declares the tools, one JSON object per line, and carries the
//! app's instructions. User text and tool results follow as user turns, each ending where
//! the assistant's answer begins.

use vstd::prelude::*;
use vstd::string::*;

verus! {

/// One tool, as the model is told about it.
pub struct ToolSpec {
    pub name: &'static str,
    pub description: &'static str,
    /// A JSON-schema object, verbatim.
    pub parameters: &'static str,
}

/// The line that opens the system turn.
pub const SYSTEM_OPEN: &'static str = "<|im_start|>system\n";
/// What stands before the tools.
pub const TOOLS_OPEN: &'static str =
    "# Tools\n\nYou have access to the following functions:\n\n<tools>\n";
/// What stands after the tools.
pub const TOOLS_CLOSE: &'static str = "</tools>\n\n";
/// How a call is to be written.
pub const CALL_FORMAT: &'static str =
    "If you choose to call a function ONLY reply in the following format with NO suffix:\n\n\
     <tool_call>\n<function=example_function_name>\n<parameter=example_parameter_1>\n\
     value_1\n</parameter>\n</function>\n</tool_call>\n\n\
     <IMPORTANT>\nReminder:\n\
     - Function calls MUST follow the specified format: an inner <function=...></function> block must be nested within <tool_call></tool_call> XML tags\n\
     - Required parameters MUST be specified\n\
     - You may provide optional reasoning for your function call in natural language BEFORE the function call, but NOT after\n\
     - If there is no function call available, answer the question like normal\n\
     </IMPORTANT>\n\n";
/// The end of a turn.
pub const TURN_CLOSE: &'static str = "<|im_end|>\n";
/// The line that opens a user turn.
pub const USER_OPEN: &'static str = "<|im_start|>user\n";
/// The end of a user turn and the start of the answer, its thinking already closed.
pub const ANSWER_OPEN: &'static str =
    "<|im_end|>\n<|im_start|>assistant\n<think>\n\n</think>\n\n";

// --------------------------------------------------------------------- JSON

/// The hexadecimal digit `d`, in lower case.
pub open spec fn hex_digit(d: int) -> char {
    if d == 0 { '0' } else if d == 1 { '1' } else if d == 2 { '2' } else if d == 3 { '3' }
    else if d == 4 { '4' } else if d == 5 { '5' } else if d == 6 { '6' } else if d == 7 { '7' }
    else if d == 8 { '8' } else if d == 9 { '9' } else if d == 10 { 'a' } else if d == 11 { 'b' }
    else if d == 12 { 'c' } else if d == 13 { 'd' } else if d == 14 { 'e' } else { 'f' }
}

/// How one character stands in a JSON string.
pub open spec fn json_escape(c: char) -> Seq<char> {
    if c == '"' {
        seq!['\\', '"']
    } else if c == '\\' {
        seq!['\\', '\\']
    } else if c == '\n' {
        seq!['\\', 'n']
    } else if c == '\r' {
        seq!['\\', 'r']
    } else if c == '\t' {
        seq!['\\', 't']
    } else if (c as u32) < 0x20 {
        seq!['\\', 'u', '0', '0', hex_digit((c as u32) as int / 16), hex_digit((c as u32) as int % 16)]
    } else {
        seq![c]
    }
}

/// `text` inside a JSON string: each character escaped, in order.
pub open spec fn json_body(text: Seq<char>) -> Seq<char>
    decreases text.len(),
{
    if text.len() == 0 {
        seq![]
    } else {
        json_body(text.drop_last()) + json_escape(text.last())
    }
}

/// `text` as a JSON string literal.
pub open spec fn json_string(text: Seq<char>) -> Seq<char> {
    seq!['"'] + json_body(text) + seq!['"']
}

fn hex_char(d: u32) -> (r: char)
    requires
        d < 16,
    ensures
        r == hex_digit(d as int),
{
    match d {
        0 => '0', 1 => '1', 2 => '2', 3 => '3', 4 => '4', 5 => '5', 6 => '6', 7 => '7',
        8 => '8', 9 => '9', 10 => 'a', 11 => 'b', 12 => 'c', 13 => 'd', 14 => 'e', _ => 'f',
    }
}

/// A JSON string literal, appended. The only JSON that is written here.
pub fn push_json_string(out: &mut String, text: &str)
    ensures
        final(out)@ == old(out)@ + json_string(text@),
{
    let ghost start = out@;
    out.push('"');
    for c in it: text.chars()
        invariant
            it.seq() == text@,
            out@ == start + seq!['"'] + json_body(text@.take(it.index() as int)),
    {
        let ghost before = out@;
        if c == '"' {
            out.push('\\');
            out.push('"');
        } else if c == '\\' {
            out.push('\\');
            out.push('\\');
        } else if c == '\n' {
            out.push('\\');
            out.push('n');
        } else if c == '\r' {
            out.push('\\');
            out.push('r');
        } else if c == '\t' {
            out.push('\\');
            out.push('t');
        } else if (c as u32) < 0x20 {
            out.push('\\');
            out.push('u');
            out.push('0');
            out.push('0');
            out.push(hex_char(c as u32 / 16));
            out.push(hex_char(c as u32 % 16));
        } else {
            out.push(c);
        }
        proof {
            assert(out@ =~= before + json_escape(c));
            let i = it.index() as int;
            assert(text@.take(i + 1).drop_last() =~= text@.take(i));
            assert(text@.take(i + 1).last() == c);
        }
    }
    proof {
        assert(text@.take(text@.len() as int) =~= text@);
    }
    out.push('"');
    assert(out@ =~= start + json_string(text@));
}

// ------------------------------------------------------------- the system turn

/// One tool's line: a JSON object of its name, its description and its parameters.
pub open spec fn tool_line(tool: ToolSpec) -> Seq<char> {
    "{\"name\":"@ + json_string(tool.name@) + ",\"description\":"@ + json_string(tool.description@)
        + ",\"parameters\":"@ + tool.parameters@ + "}\n"@
}

/// The tools, a line each.
pub open spec fn tool_lines(tools: Seq<ToolSpec>) -> Seq<char>
    decreases tools.len(),
{
    if tools.len() == 0 {
        seq![]
    } else {
        tool_lines(tools.drop_last()) + tool_line(tools.last())
    }
}

/// The tools block. Nothing, where there are no tools.
pub open spec fn tools_block(tools: Seq<ToolSpec>) -> Seq<char> {
    if tools.len() == 0 {
        seq![]
    } else {
        TOOLS_OPEN@ + tool_lines(tools) + TOOLS_CLOSE@ + CALL_FORMAT@
    }
}

/// The system turn.
pub open spec fn prefix_text(system_prompt: Seq<char>, tools: Seq<ToolSpec>) -> Seq<char> {
    SYSTEM_OPEN@ + tools_block(tools) + system_prompt + TURN_CLOSE@
}

/// The system turn: the tools block in the model's own template, then the app's own
/// instructions, ending ready for the first user turn.
pub fn build_prefix(system_prompt: &str, tools: &[ToolSpec]) -> (out: String)
    ensures
        out@ == prefix_text(system_prompt@, tools@),
{
    let mut out = String::new();
    out.append(SYSTEM_OPEN);
    if tools.len() != 0 {
        out.append(TOOLS_OPEN);
        let ghost head = out@;
        let mut i: usize = 0;
        while i < tools.len()
            invariant
                i <= tools@.len(),
                out@ == head + tool_lines(tools@.take(i as int)),
            decreases tools@.len() - i,
        {
            let ghost before = out@;
            let tool = &tools[i];
            out.append("{\"name\":");
            push_json_string(&mut out, tool.name);
            out.append(",\"description\":");
            push_json_string(&mut out, tool.description);
            out.append(",\"parameters\":");
            out.append(tool.parameters);
            out.append("}\n");
            proof {
                assert(out@ =~= before + tool_line(*tool));
                assert(tools@.take(i + 1).drop_last() =~= tools@.take(i as int));
                assert(out@ =~= head + tool_lines(tools@.take(i + 1)));
            }
            i += 1;
        }
        assert(tools@.take(tools@.len() as int) =~= tools@);
        out.append(TOOLS_CLOSE);
        out.append(CALL_FORMAT);
    }
    assert(out@ =~= SYSTEM_OPEN@ + tools_block(tools@));
    out.append(system_prompt);
    out.append(TURN_CLOSE);
    out
}

// ---------------------------------------------------------------- later turns

/// A user turn, ending where the answer begins.
pub open spec fn user_turn_text(text: Seq<char>) -> Seq<char> {
    USER_OPEN@ + text + ANSWER_OPEN@
}

/// A user turn, ending where the answer begins.
pub fn user_turn(text: &str) -> (out: String)
    ensures
        out@ == user_turn_text(text@),
{
    let mut out = String::new();
    out.append(USER_OPEN);
    out.append(text);
    out.append(ANSWER_OPEN);
    assert(out@ =~= user_turn_text(text@));
    out
}

/// One tool result: its text, marked where it is an error.
pub open spec fn response_block(result: (String, bool)) -> Seq<char> {
    "<tool_response>\n"@ + (if result.1 { "ERROR: "@ } else { seq![] }) + result.0@
        + "\n</tool_response>\n"@
}

/// The results, a block each.
pub open spec fn response_blocks(results: Seq<(String, bool)>) -> Seq<char>
    decreases results.len(),
{
    if results.len() == 0 {
        seq![]
    } else {
        response_blocks(results.drop_last()) + response_block(results.last())
    }
}

/// The user turn that carries tool results.
pub open spec fn response_turn_text(results: Seq<(String, bool)>) -> Seq<char> {
    USER_OPEN@ + response_blocks(results) + ANSWER_OPEN@
}

/// The user turn that carries tool results, in call order.
pub fn tool_response_turn(results: &[(String, bool)]) -> (out: String)
    ensures
        out@ == response_turn_text(results@),
{
    let mut out = String::new();
    out.append(USER_OPEN);
    let mut i: usize = 0;
    assert(out@ =~= USER_OPEN@ + response_blocks(results@.take(0)));
    while i < results.len()
        invariant
            i <= results@.len(),
            out@ == USER_OPEN@ + response_blocks(results@.take(i as int)),
        decreases results@.len() - i,
    {
        let ghost before = out@;
        out.append("<tool_response>\n");
        if results[i].1 {
            out.append("ERROR: ");
        }
        out.append(results[i].0.as_str());
        out.append("\n</tool_response>\n");
        proof {
            assert(out@ =~= before + response_block(results@[i as int]));
            assert(results@.take(i + 1).drop_last() =~= results@.take(i as int));
            assert(out@ =~= USER_OPEN@ + response_blocks(results@.take(i + 1)));
        }
        i += 1;
    }
    assert(results@.take(results@.len() as int) =~= results@);
    out.append(ANSWER_OPEN);
    out
}

// --------------------------------------------------------------------- laws

/// Whether `c` is a hexadecimal digit, in either case.
pub open spec fn is_hex(c: char) -> bool {
    '0' <= c <= '9' || 'a' <= c <= 'f' || 'A' <= c <= 'F'
}

/// The value of a hexadecimal digit.
pub open spec fn hex_value(c: char) -> int {
    if '0' <= c <= '9' {
        (c as u32) - 48
    } else if 'a' <= c <= 'f' {
        (c as u32) - 87
    } else {
        (c as u32) - 55
    }
}

/// The text that the inside of a JSON string stands for. `None` where it is not the inside
/// of one: a bare quote or control character, or an escape that is not written here, such as
/// `\u` without four hexadecimal digits behind it or with half a pair of code units.
pub open spec fn json_text(body: Seq<char>) -> Option<Seq<char>>
    decreases body.len(),
{
    if body.len() == 0 {
        Some(seq![])
    } else if body[0] == '\\' {
        if body.len() < 2 {
            None
        } else if body[1] == 'u' {
            if body.len() < 6 || !(forall|i: int| 2 <= i < 6 ==> is_hex(#[trigger] body[i])) {
                None
            } else {
                let code = ((hex_value(body[2]) * 16 + hex_value(body[3])) * 16 + hex_value(
                    body[4],
                )) * 16 + hex_value(body[5]);
                match json_text(body.skip(6)) {
                    Some(rest) => if 0xd800 <= code <= 0xdfff {
                        None
                    } else {
                        Some(seq![code as char] + rest)
                    },
                    None => None,
                }
            }
        } else {
            let c = if body[1] == 'n' {
                Some('\n')
            } else if body[1] == 'r' {
                Some('\r')
            } else if body[1] == 't' {
                Some('\t')
            } else if body[1] == '"' || body[1] == '\\' {
                Some(body[1])
            } else {
                None
            };
            match (c, json_text(body.skip(2))) {
                (Some(c), Some(rest)) => Some(seq![c] + rest),
                _ => None,
            }
        }
    } else if body[0] == '"' || (body[0] as u32) < 0x20 {
        None
    } else {
        match json_text(body.skip(1)) {
            Some(rest) => Some(seq![body[0]] + rest),
            None => None,
        }
    }
}

/// A JSON string literal reads back as the text it was written from.
pub proof fn json_reads_back(text: Seq<char>)
    ensures
        json_text(json_body(text)) == Some(text),
    decreases text.len(),
{
    if text.len() > 0 {
        let rest = text.skip(1);
        let escape = json_escape(text[0]);
        json_reads_back(rest);
        lemma_json_body_head(text);
        let body = escape + json_body(rest);
        assert(body.skip(escape.len() as int) =~= json_body(rest));
        assert(seq![text[0]] + rest =~= text);
        if escape.len() == 6 {
            let code = (text[0] as u32) as int;
            assert(body[2] == '0' && body[3] == '0');
            assert(hex_value(body[2]) == 0);
            assert(hex_value(body[4]) == code / 16);
            assert(hex_value(body[5]) == code % 16);
            assert(forall|i: int| 2 <= i < 6 ==> is_hex(#[trigger] body[i]));
            lemma_char_code(text[0]);
        } else if escape.len() == 2 {
            assert(body[0] == '\\');
            assert(body[1] == escape[1]);
        } else {
            assert(body[0] == text[0]);
        }
    }
}

/// A character is the one with its own code.
proof fn lemma_char_code(c: char)
    ensures
        ((c as u32) as int) as char == c,
{
}

/// `json_body`, from the front.
proof fn lemma_json_body_head(text: Seq<char>)
    requires
        text.len() > 0,
    ensures
        json_body(text) == json_escape(text[0]) + json_body(text.skip(1)),
    decreases text.len(),
{
    let rest = text.skip(1);
    if rest.len() == 0 {
        assert(text.drop_last() =~= Seq::<char>::empty());
        assert(json_body(text.drop_last()) =~= Seq::<char>::empty());
        assert(json_body(rest) =~= Seq::<char>::empty());
        assert(json_body(text) =~= json_escape(text[0]) + json_body(rest));
    } else {
        lemma_json_body_head(text.drop_last());
        assert(text.drop_last().skip(1) =~= rest.drop_last());
        assert(json_body(text) =~= json_escape(text[0]) + json_body(rest));
    }
}

/// A JSON string literal holds no control character, line breaks among them.
pub proof fn json_is_one_line(text: Seq<char>)
    ensures
        forall|i: int| 0 <= i < json_string(text).len() ==> (#[trigger] json_string(text)[i]) as u32
            >= 0x20,
    decreases text.len(),
{
    if text.len() > 0 {
        let before = text.drop_last();
        json_is_one_line(before);
        assert forall|i: int| 0 <= i < json_string(text).len() implies (
        #[trigger] json_string(text)[i]) as u32 >= 0x20 by {
            let n = json_body(before).len();
            if i <= n {
                assert(json_string(text)[i] == json_string(before)[i]);
            } else if i < json_string(text).len() - 1 {
                assert(json_string(text)[i] == json_escape(text.last())[i - 1 - n]);
            }
        }
    }
}

/// A tool whose schema is one line takes one line: its only line break is the last character.
pub proof fn a_tool_is_one_line(tool: ToolSpec)
    requires
        !tool.parameters@.contains('\n'),
    ensures
        tool_line(tool).len() > 0,
        tool_line(tool).last() == '\n',
        !tool_line(tool).drop_last().contains('\n'),
{
    json_is_one_line(tool.name@);
    json_is_one_line(tool.description@);
    reveal_strlit("{\"name\":");
    reveal_strlit(",\"description\":");
    reveal_strlit(",\"parameters\":");
    reveal_strlit("}\n");
    let line = tool_line(tool);
    let a = "{\"name\":"@;
    let b = json_string(tool.name@);
    let c = ",\"description\":"@;
    let d = json_string(tool.description@);
    let e = ",\"parameters\":"@;
    let f = tool.parameters@;
    assert forall|i: int| 0 <= i < line.len() - 1 implies line[i] != '\n' by {
        let ab = a.len() + b.len();
        let abc = ab + c.len();
        let abcd = abc + d.len();
        let abcde = abcd + e.len();
        if a.len() <= i < ab {
            assert(line[i] == b[i - a.len()]);
        } else if abc <= i < abcd {
            assert(line[i] == d[i - abc]);
        } else if abcde <= i < abcde + f.len() {
            assert(line[i] == f[i - abcde]);
            assert(f.contains(f[i - abcde]));
        }
    }
}

} // verus!
