//! What always holds of what the model is told: nothing of it is lost on the way.

use vstd::prelude::*;
use vstd::string::*;
use crate::prompt;
use crate::prompt::ToolSpec;
use crate::text_laws;

verus! {

// --------------------------------------------------------------------- JSON

/// A text is written character by character: two texts in a row are written as the two in a
/// row, and nothing is written for nothing.
pub proof fn json_is_written_piece_by_piece(a: Seq<char>, b: Seq<char>, c: char)
    ensures
        prompt::json_body(a + b) == prompt::json_body(a) + prompt::json_body(b),
        prompt::json_body(seq![c]) == prompt::json_escape(c),
        prompt::json_body(seq![]).len() == 0,
        prompt::json_string(a) == seq!['"'] + prompt::json_body(a) + seq!['"'],
    decreases b.len(),
{
    assert(seq![c].drop_last() =~= Seq::<char>::empty());
    assert(prompt::json_body(seq![c].drop_last()).len() == 0);
    assert(prompt::json_body(seq![c]) =~= prompt::json_escape(c));
    if b.len() == 0 {
        assert(a + b =~= a);
        assert(prompt::json_body(a) + prompt::json_body(b) =~= prompt::json_body(a));
    } else {
        json_is_written_piece_by_piece(a, b.drop_last(), c);
        assert((a + b).drop_last() =~= a + b.drop_last());
        assert(prompt::json_body(a + b) =~= prompt::json_body(a) + prompt::json_body(b));
    }
}

/// Nothing is escaped that need not be, and what must be is written in the shortest way there
/// is: a quote, a backslash, a line break, a return and a tab in two characters, any other
/// control character as four digits in lower case.
pub proof fn an_escape_is_the_shortest(c: char)
    ensures
        ({
            let e = prompt::json_escape(c);
            let short = c == '"' || c == '\\' || c == '\n' || c == '\r' || c == '\t';
            if short {
                &&& e.len() == 2
                &&& e[0] == '\\'
            } else if (c as u32) < 0x20 {
                &&& e.len() == 6
                &&& e.subrange(0, 4) == seq!['\\', 'u', '0', '0']
                &&& forall|i: int|
                    4 <= i < 6 ==> '0' <= #[trigger] e[i] <= '9' || 'a' <= e[i] <= 'f'
            } else {
                e == seq![c]
            }
        }),
{
    let e = prompt::json_escape(c);
    if e.len() == 6 {
        assert(e.subrange(0, 4) =~= seq!['\\', 'u', '0', '0']);
    }
}

/// A text with nothing to escape stands in a JSON string as it is.
pub proof fn plain_text_is_written_as_it_is(text: Seq<char>)
    requires
        forall|i: int|
            0 <= i < text.len() ==> (#[trigger] text[i]) as u32 >= 0x20 && text[i] != '"' && text[i]
                != '\\',
    ensures
        prompt::json_body(text) == text,
    decreases text.len(),
{
    if text.len() > 0 {
        assert forall|i: int| 0 <= i < text.drop_last().len() implies (
        #[trigger] text.drop_last()[i]) as u32 >= 0x20 && text.drop_last()[i] != '"'
            && text.drop_last()[i] != '\\' by {
            assert(text.drop_last()[i] == text[i]);
        }
        plain_text_is_written_as_it_is(text.drop_last());
        assert(text.last() == text[text.len() - 1]);
    }
    assert(prompt::json_body(text) =~= text);
}

// ------------------------------------------------------------- the system turn

/// The system turn carries the whole of the caller's instructions, whatever they hold: it
/// ends with them and the end of the turn, and besides them it holds its opening and the
/// tools, and not a character more.
pub proof fn the_instructions_are_carried_whole(system_prompt: Seq<char>, tools: Seq<ToolSpec>)
    ensures
        ({
            let turn = prompt::prefix_text(system_prompt, tools);
            let opening = "<|im_start|>system\n"@;
            let closing = "<|im_end|>\n"@;
            &&& text_laws::begins(turn, opening)
            &&& text_laws::ends(turn, system_prompt + closing)
            &&& tools.len() == 0 ==> turn.len() == opening.len() + system_prompt.len()
                + closing.len()
        }),
{
    let turn = prompt::prefix_text(system_prompt, tools);
    let opening = "<|im_start|>system\n"@;
    let closing = "<|im_end|>\n"@;
    let n = turn.len() as int;
    let m = (system_prompt.len() + closing.len()) as int;
    assert(turn.subrange(0, opening.len() as int) =~= opening);
    assert(turn.subrange(n - m, n) =~= system_prompt + closing);
}

/// The system turn with tools is the one without, with the tools block between its opening
/// and the instructions: the block opens, has every tool's line and nothing between them, and
/// says how a call is to be written.
pub proof fn the_tools_stand_before_the_instructions(
    system_prompt: Seq<char>,
    tools: Seq<ToolSpec>,
)
    requires
        tools.len() > 0,
    ensures
        ({
            let bare = prompt::prefix_text(system_prompt, seq![]);
            let turn = prompt::prefix_text(system_prompt, tools);
            let opening = "<|im_start|>system\n"@.len() as int;
            let head = "# Tools\n\nYou have access to the following functions:\n\n<tools>\n"@;
            let block = turn.subrange(opening, turn.len() - (bare.len() - opening));
            let lines = prompt::tool_lines(tools);
            &&& bare.len() <= turn.len()
            &&& turn.subrange(0, opening) == bare.subrange(0, opening)
            &&& text_laws::ends(turn, bare.subrange(opening, bare.len() as int))
            &&& text_laws::begins(block, head + lines + "</tools>\n\n"@)
            &&& block.len() == head.len() + lines.len() + "</tools>\n\n"@.len()
                + prompt::CALL_FORMAT@.len()
            &&& text_laws::ends(block, prompt::CALL_FORMAT@)
        }),
{
    let bare = prompt::prefix_text(system_prompt, seq![]);
    let turn = prompt::prefix_text(system_prompt, tools);
    let opening = "<|im_start|>system\n"@.len() as int;
    let head = "# Tools\n\nYou have access to the following functions:\n\n<tools>\n"@;
    let block = turn.subrange(opening, turn.len() - (bare.len() - opening));
    let lines = prompt::tool_lines(tools);
    let close = "</tools>\n\n"@;
    let how = prompt::CALL_FORMAT@;
    assert(turn.subrange(0, opening) =~= bare.subrange(0, opening));
    assert(turn.subrange(turn.len() - (bare.len() - opening), turn.len() as int) =~= bare.subrange(
        opening,
        bare.len() as int,
    ));
    assert(block =~= head + lines + close + how);
    assert(block.subrange(0, (head.len() + lines.len() + close.len()) as int) =~= head + lines
        + close);
    assert(block.subrange(block.len() - how.len(), block.len() as int) =~= how);
}

/// The model is told how to write a call, by an example and four reminders.
pub proof fn a_call_is_explained()
    ensures
        prompt::CALL_FORMAT@
            == "If you choose to call a function ONLY reply in the following format with NO suffix:\n\n\
     <tool_call>\n<function=example_function_name>\n<parameter=example_parameter_1>\n\
     value_1\n</parameter>\n</function>\n</tool_call>\n\n\
     <IMPORTANT>\nReminder:\n\
     - Function calls MUST follow the specified format: an inner <function=...></function> block must be nested within <tool_call></tool_call> XML tags\n\
     - Required parameters MUST be specified\n\
     - You may provide optional reasoning for your function call in natural language BEFORE the function call, but NOT after\n\
     - If there is no function call available, answer the question like normal\n\
     </IMPORTANT>\n\n"@,
{
}

/// Every tool has its line, in order: the lines of two lists in a row are those of the one
/// and then of the other, and a single tool's is its own.
pub proof fn every_tool_has_its_line(a: Seq<ToolSpec>, b: Seq<ToolSpec>, tool: ToolSpec)
    ensures
        prompt::tool_lines(a + b) == prompt::tool_lines(a) + prompt::tool_lines(b),
        prompt::tool_lines(seq![tool]) == prompt::tool_line(tool),
        prompt::tool_lines(seq![]).len() == 0,
    decreases b.len(),
{
    assert(seq![tool].drop_last() =~= Seq::<ToolSpec>::empty());
    assert(prompt::tool_lines(seq![tool].drop_last()).len() == 0);
    assert(prompt::tool_lines(seq![tool]) =~= prompt::tool_line(tool));
    if b.len() == 0 {
        assert(a + b =~= a);
        assert(prompt::tool_lines(a) + prompt::tool_lines(b) =~= prompt::tool_lines(a));
    } else {
        every_tool_has_its_line(a, b.drop_last(), tool);
        assert((a + b).drop_last() =~= a + b.drop_last());
        assert(prompt::tool_lines(a + b) =~= prompt::tool_lines(a) + prompt::tool_lines(b));
    }
}

/// A tool's line holds its name, its description and its schema, each whole: the first two as
/// JSON strings, the last verbatim, and nothing else but the keys of the object.
pub proof fn a_tool_is_told_whole(tool: ToolSpec)
    ensures
        ({
            let line = prompt::tool_line(tool);
            let name = prompt::json_string(tool.name@);
            let about = prompt::json_string(tool.description@);
            let schema = tool.parameters@;
            &&& text_laws::begins(line, "{\"name\":"@ + name + ",\"description\":"@ + about)
            &&& text_laws::ends(line, ",\"parameters\":"@ + schema + "}\n"@)
            &&& line.len() == "{\"name\":"@.len() + name.len() + ",\"description\":"@.len()
                + about.len() + ",\"parameters\":"@.len() + schema.len() + "}\n"@.len()
        }),
{
    let line = prompt::tool_line(tool);
    let head = "{\"name\":"@ + prompt::json_string(tool.name@) + ",\"description\":"@
        + prompt::json_string(tool.description@);
    let tail = ",\"parameters\":"@ + tool.parameters@ + "}\n"@;
    assert(line =~= head + tail);
    assert(line.subrange(0, head.len() as int) =~= head);
    assert(line.subrange(line.len() - tail.len(), line.len() as int) =~= tail);
}

// ---------------------------------------------------------------- later turns

/// A user turn carries the whole of what the user said, and ends where the answer begins.
pub proof fn the_question_is_carried_whole(text: Seq<char>)
    ensures
        ({
            let turn = prompt::user_turn_text(text);
            let opening = "<|im_start|>user\n"@;
            let closing = "<|im_end|>\n<|im_start|>assistant\n<think>\n\n</think>\n\n"@;
            &&& text_laws::begins(turn, opening + text)
            &&& text_laws::ends(turn, closing)
            &&& turn.len() == opening.len() + text.len() + closing.len()
        }),
{
    let turn = prompt::user_turn_text(text);
    let opening = "<|im_start|>user\n"@;
    let closing = "<|im_end|>\n<|im_start|>assistant\n<think>\n\n</think>\n\n"@;
    assert(turn.subrange(0, (opening.len() + text.len()) as int) =~= opening + text);
    assert(turn.subrange(turn.len() - closing.len(), turn.len() as int) =~= closing);
}

/// The turn that carries tool results is a user turn of their blocks: every result has one, in
/// order.
pub proof fn every_result_has_its_block(
    a: Seq<(String, bool)>,
    b: Seq<(String, bool)>,
    result: (String, bool),
)
    ensures
        prompt::response_turn_text(a) == prompt::user_turn_text(prompt::response_blocks(a)),
        prompt::response_blocks(a + b) == prompt::response_blocks(a) + prompt::response_blocks(b),
        prompt::response_blocks(seq![result]) == prompt::response_block(result),
        prompt::response_blocks(seq![]).len() == 0,
    decreases b.len(),
{
    let one = seq![result];
    assert(one.drop_last() =~= Seq::<(String, bool)>::empty());
    assert(prompt::response_blocks(one.drop_last()).len() == 0);
    assert(prompt::response_blocks(one) =~= prompt::response_block(result));
    if b.len() == 0 {
        assert(a + b =~= a);
        assert(prompt::response_blocks(a) + prompt::response_blocks(b) =~= prompt::response_blocks(
            a,
        ));
    } else {
        every_result_has_its_block(a, b.drop_last(), result);
        assert((a + b).drop_last() =~= a + b.drop_last());
        assert(prompt::response_blocks(a + b) =~= prompt::response_blocks(a)
            + prompt::response_blocks(b));
    }
}

/// A result's block carries the whole of its text, and an error's differs from it in nothing
/// but the word that says so.
pub proof fn a_result_is_carried_whole(result: (String, bool))
    ensures
        ({
            let block = prompt::response_block(result);
            let opening = "<tool_response>\n"@;
            let closing = "\n</tool_response>\n"@;
            let mark: Seq<char> = if result.1 {
                "ERROR: "@
            } else {
                seq![]
            };
            &&& text_laws::begins(block, opening + mark)
            &&& text_laws::ends(block, result.0@ + closing)
            &&& block.len() == opening.len() + mark.len() + result.0@.len() + closing.len()
        }),
{
    let block = prompt::response_block(result);
    let opening = "<tool_response>\n"@;
    let closing = "\n</tool_response>\n"@;
    let mark: Seq<char> = if result.1 {
        "ERROR: "@
    } else {
        seq![]
    };
    let tail = result.0@ + closing;
    assert(block.subrange(0, (opening.len() + mark.len()) as int) =~= opening + mark);
    assert(block.subrange(block.len() - tail.len(), block.len() as int) =~= tail);
}

} // verus!
