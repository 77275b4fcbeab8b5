use mpfiles::prompt::{build_prefix, push_json_string, tool_response_turn, user_turn, ToolSpec};
use mpfiles::text::{chars_of, find, find_stop, is_white_space, push_decimal, trimmed};
use mpfiles::tool_call::{arg, parse_tool_call};

#[test]
fn parses_a_typical_call() {
    let body = "\n<function=list_dir>\n<parameter=path>\n~/Documents\n</parameter>\n</function>\n";
    let (name, args) = parse_tool_call(body).unwrap();
    assert_eq!(name, "list_dir");
    assert_eq!(arg(&args, "path"), "~/Documents");
    assert_eq!(arg(&args, "missing"), "");
}

#[test]
fn parses_several_parameters_in_order() {
    let body = "<function=read_file>\n<parameter=path>\n/tmp/a.txt\n</parameter>\n\
                <parameter=max_bytes>\n4096\n</parameter>\n</function>";
    let (name, args) = parse_tool_call(body).unwrap();
    assert_eq!(name, "read_file");
    assert_eq!(
        args,
        vec![
            ("path".to_string(), "/tmp/a.txt".to_string()),
            ("max_bytes".to_string(), "4096".to_string()),
        ]
    );
}

#[test]
fn rejects_a_body_with_no_function() {
    assert!(parse_tool_call("just some prose").is_err());
}

#[test]
fn the_prefix_carries_the_tools_block() {
    let tools = [ToolSpec {
        name: "list_dir",
        description: "List a folder's entries.",
        parameters: r#"{"type":"object","properties":{"path":{"type":"string"}},"required":["path"]}"#,
    }];
    let prefix = build_prefix("You are a file assistant.", &tools);
    assert!(prefix.starts_with("<|im_start|>system\n# Tools"));
    assert!(prefix.contains("\"name\":\"list_dir\""));
    assert!(prefix.contains("<tools>\n"));
    assert!(prefix.ends_with("You are a file assistant.<|im_end|>\n"));
}

#[test]
fn json_strings_are_escaped() {
    let mut out = String::new();
    push_json_string(&mut out, "a \"quoted\" \\ path\nnewline");
    assert_eq!(out, "\"a \\\"quoted\\\" \\\\ path\\nnewline\"");
}

#[test]
fn json_control_characters_are_escaped_as_code_units() {
    let mut out = String::from("x");
    push_json_string(&mut out, "\r\t\u{1}\u{1f}\u{20}é");
    assert_eq!(out, "x\"\\r\\t\\u0001\\u001f é\"");
    for code in 0u32..0x20 {
        let c = char::from_u32(code).unwrap();
        let mut out = String::new();
        push_json_string(&mut out, &c.to_string());
        let expected = match c {
            '\n' => "\"\\n\"".to_string(),
            '\r' => "\"\\r\"".to_string(),
            '\t' => "\"\\t\"".to_string(),
            c => format!("\"\\u{:04x}\"", c as u32),
        };
        assert_eq!(out, expected);
    }
}

#[test]
fn a_prefix_without_tools_is_the_instructions_alone() {
    assert_eq!(
        build_prefix("Be brief.", &[]),
        "<|im_start|>system\nBe brief.<|im_end|>\n"
    );
}

#[test]
fn a_prefix_is_laid_out_line_by_line() {
    let tools = [
        ToolSpec { name: "a\nb", description: "d\"", parameters: "{}" },
        ToolSpec { name: "c", description: "", parameters: "[1]" },
    ];
    let prefix = build_prefix("Go.", &tools);
    let head = "<|im_start|>system\n# Tools\n\nYou have access to the following functions:\n\n<tools>\n\
                {\"name\":\"a\\nb\",\"description\":\"d\\\"\",\"parameters\":{}}\n\
                {\"name\":\"c\",\"description\":\"\",\"parameters\":[1]}\n\
                </tools>\n\nIf you choose to call a function ONLY reply in the following format with NO suffix:\n\n\
                <tool_call>\n<function=example_function_name>\n<parameter=example_parameter_1>\nvalue_1\n</parameter>\n</function>\n</tool_call>\n\n<IMPORTANT>\nReminder:\n- Function calls MUST";
    assert!(prefix.starts_with(head));
    assert!(prefix.ends_with("answer the question like normal\n</IMPORTANT>\n\nGo.<|im_end|>\n"));
}

#[test]
fn a_user_turn_ends_where_the_answer_begins() {
    assert_eq!(
        user_turn("how big is ~?"),
        "<|im_start|>user\nhow big is ~?<|im_end|>\n<|im_start|>assistant\n<think>\n\n</think>\n\n"
    );
}

#[test]
fn tool_results_go_back_in_order_and_errors_are_marked() {
    let results = [("12 files".to_string(), false), ("no such folder".to_string(), true)];
    assert_eq!(
        tool_response_turn(&results),
        "<|im_start|>user\n<tool_response>\n12 files\n</tool_response>\n<tool_response>\nERROR: no such folder\n</tool_response>\n<|im_end|>\n<|im_start|>assistant\n<think>\n\n</think>\n\n"
    );
    assert_eq!(
        tool_response_turn(&[]),
        "<|im_start|>user\n<|im_end|>\n<|im_start|>assistant\n<think>\n\n</think>\n\n"
    );
}

#[test]
fn each_malformed_call_says_what_is_missing() {
    assert_eq!(parse_tool_call("just some prose").unwrap_err(), "missing <function=");
    assert_eq!(parse_tool_call("<function=name").unwrap_err(), "unterminated function name");
    assert_eq!(parse_tool_call("<function= \u{2003}>").unwrap_err(), "empty function name");
    assert_eq!(parse_tool_call("<function=\n>").unwrap_err(), "empty function name");
}

#[test]
fn a_value_without_a_closing_tag_runs_to_the_end() {
    let (name, args) = parse_tool_call("<function=f>\n<parameter=k>\nv and more\n").unwrap();
    assert_eq!(name, "f");
    assert_eq!(args, vec![("k".to_string(), "v and more".to_string())]);
}

#[test]
fn an_unterminated_key_ends_the_parameters() {
    let (_, args) =
        parse_tool_call("<function=f>\n<parameter=a>\n1\n</parameter>\n<parameter=b").unwrap();
    assert_eq!(args, vec![("a".to_string(), "1".to_string())]);
}

#[test]
fn the_first_argument_of_a_name_is_the_one() {
    let args = vec![
        ("k".to_string(), "1".to_string()),
        ("k".to_string(), "2".to_string()),
    ];
    assert_eq!(arg(&args, "k"), "1");
    assert_eq!(arg(&args, "K"), "");
}

#[test]
fn a_written_call_reads_back() {
    let args = vec![
        ("path".to_string(), "~/Über/ordner".to_string()),
        ("text".to_string(), "two\nlines > here".to_string()),
        ("empty".to_string(), "".to_string()),
    ];
    let mut body = String::from("\n<function=write>\n");
    for (key, value) in &args {
        body += &format!("<parameter={key}>\n{value}\n</parameter>\n");
    }
    body += "</function>\n";
    let (name, read) = parse_tool_call(&body).unwrap();
    assert_eq!(name, "write");
    assert_eq!(read, args);
}

#[test]
fn white_space_is_unicodes() {
    for code in 0u32..=0x10ffff {
        if let Some(c) = char::from_u32(code) {
            assert_eq!(is_white_space(c), c.is_whitespace(), "{code:x}");
        }
    }
}

#[test]
fn searching_finds_the_first() {
    let s = chars_of("abcabc");
    assert_eq!(find(&s, &chars_of("bc"), 0), Some(1));
    assert_eq!(find(&s, &chars_of("bc"), 2), Some(4));
    assert_eq!(find(&s, &chars_of("bc"), 5), None);
    assert_eq!(find(&s, &chars_of(""), 6), Some(6));
    assert_eq!(find(&s, &chars_of("abcabca"), 0), None);
    assert_eq!(find_stop(&s, &vec!['c', 'b'], 0), Some(1));
    assert_eq!(find_stop(&s, &vec!['x'], 0), None);
    assert_eq!(trimmed(&chars_of("  a b \n"), 0, 7), "a b");
    assert_eq!(trimmed(&chars_of("   "), 0, 3), "");
}

#[test]
fn numbers_are_written_in_decimal() {
    for n in [0u64, 7, 10, 99, 100, 1234567890, u64::MAX] {
        let mut out = String::from("n=");
        push_decimal(&mut out, n);
        assert_eq!(out, format!("n={n}"));
    }
}
