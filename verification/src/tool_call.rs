//! Reading the model's tool calls.
//!
//! Between `<tool_call>` and `</tool_call>` the model writes `<function=NAME>` and a run of
//! `<parameter=key>\nvalue\n</parameter>`. Nothing here is JSON: a call is a name and a list
//! of (key, value) strings.

use vstd::prelude::*;
use vstd::string::*;
use crate::text;

verus! {

/// A call: the function's name, and its arguments in the order they were written.
pub type CallView = (Seq<char>, Seq<(Seq<char>, Seq<char>)>);

/// The arguments of a call, as text.
pub open spec fn args_view(args: Seq<(String, String)>) -> Seq<(Seq<char>, Seq<char>)> {
    Seq::new(args.len(), |i: int| (args[i].0@, args[i].1@))
}

/// Where the value that starts at `i` ends: before its closing tag, or with the body.
pub open spec fn value_end(s: Seq<char>, i: int) -> int {
    match text::find_from(s, "</parameter>"@, i) {
        Some(e) => e,
        None => s.len() as int,
    }
}

/// The parameters of `s` from position `i` on. One whose key is not terminated ends the run.
pub open spec fn params_from(s: Seq<char>, i: int) -> Seq<(Seq<char>, Seq<char>)>
    decreases s.len() - i,
    when 0 <= i
    via params_from_shrinks
{
    match text::find_from(s, "<parameter="@, i) {
        None => seq![],
        Some(p) => {
            let key = p + "<parameter="@.len();
            match text::stop_from(s, seq!['>'], key) {
                None => seq![],
                Some(k) => {
                    let e = value_end(s, k + 1);
                    seq![(text::trim_range(s, key, k), text::trim_range(s, k + 1, e))] + params_from(s, e)
                },
            }
        },
    }
}

#[via_fn]
proof fn params_from_shrinks(s: Seq<char>, i: int) {
    text::lemma_find_is_first(s, "<parameter="@, i);
    if let Some(p) = text::find_from(s, "<parameter="@, i) {
        let key = p + "<parameter="@.len();
        text::lemma_stop_is_first(s, seq!['>'], key);
        if let Some(k) = text::stop_from(s, seq!['>'], key) {
            text::lemma_find_is_first(s, "</parameter>"@, k + 1);
        }
    }
}

/// What a tool-call body says: the name between `<function=` and the first `>` or line
/// break, and the parameters after it. The error says what is missing.
pub open spec fn parse_call(body: Seq<char>) -> Result<CallView, Seq<char>> {
    match text::find_from(body, "<function="@, 0) {
        None => Err("missing <function="@),
        Some(f) => {
            let start = f + "<function="@.len();
            match text::stop_from(body, seq!['>', '\n'], start) {
                None => Err("unterminated function name"@),
                Some(end) => {
                    let name = text::trim_range(body, start, end);
                    if name.len() == 0 {
                        Err("empty function name"@)
                    } else {
                        Ok((name, params_from(body, end)))
                    }
                },
            }
        },
    }
}

/// A tool-call body into a name and its arguments. Values stay strings: the tools that read
/// them know what they want.
///
/// A value is trimmed of white space at both ends, line breaks among it.
pub fn parse_tool_call(body: &str) -> (r: Result<(String, Vec<(String, String)>), String>)
    ensures
        match r {
            Ok(call) => parse_call(body@) == Ok::<CallView, Seq<char>>(
                (call.0@, args_view(call.1@)),
            ),
            Err(error) => parse_call(body@) == Err::<CallView, Seq<char>>(error@),
        },
{
    let s: Vec<char> = text::chars_of(body);
    let function: Vec<char> = text::chars_of("<function=");
    proof {
        text::lemma_find_is_first(s@, "<function="@, 0);
    }
    let function_at = match text::find(&s, &function, 0) {
        None => {
            return Err("missing <function=".to_owned());
        },
        Some(at) => at,
    };
    let name_at: usize = function_at + function.len();
    let name_stops: Vec<char> = vec!['>', '\n'];
    assert(name_stops@ =~= seq!['>', '\n']);
    proof {
        text::lemma_stop_is_first(s@, seq!['>', '\n'], name_at as int);
    }
    let name_end = match text::find_stop(&s, &name_stops, name_at) {
        None => {
            return Err("unterminated function name".to_owned());
        },
        Some(end) => end,
    };
    let name: String = text::trimmed(&s, name_at, name_end);
    if name.as_str().is_empty() {
        return Err("empty function name".to_owned());
    }
    let args = parse_params(&s, name_end);
    Ok((name, args))
}

/// The parameters of `s` from position `from` on.
fn parse_params(s: &Vec<char>, from: usize) -> (args: Vec<(String, String)>)
    requires
        from <= s@.len(),
    ensures
        args_view(args@) == params_from(s@, from as int),
{
    let open: Vec<char> = text::chars_of("<parameter=");
    let close: Vec<char> = text::chars_of("</parameter>");
    let key_stops: Vec<char> = vec!['>'];
    assert(key_stops@ =~= seq!['>']);
    let n = s.len();
    let mut args: Vec<(String, String)> = Vec::new();
    let mut cursor: usize = from;
    assert(args_view(args@) + params_from(s@, from as int) =~= params_from(s@, from as int));
    loop
        invariant
            n == s@.len(),
            cursor <= n,
            open@ == "<parameter="@,
            close@ == "</parameter>"@,
            key_stops@ == seq!['>'],
            args_view(args@) + params_from(s@, cursor as int) == params_from(s@, from as int),
        ensures
            args_view(args@) == params_from(s@, from as int),
        decreases n - cursor,
    {
        proof {
            text::lemma_find_is_first(s@, "<parameter="@, cursor as int);
        }
        let param_at = match text::find(s, &open, cursor) {
            None => {
                assert(args_view(args@) + Seq::empty() =~= args_view(args@));
                break;
            },
            Some(at) => at,
        };
        let key_at: usize = param_at + open.len();
        proof {
            text::lemma_stop_is_first(s@, seq!['>'], key_at as int);
        }
        let key_end = match text::find_stop(s, &key_stops, key_at) {
            None => {
                assert(args_view(args@) + Seq::empty() =~= args_view(args@));
                break;
            },
            Some(end) => end,
        };
        proof {
            text::lemma_find_is_first(s@, "</parameter>"@, key_end + 1);
        }
        let end = match text::find(s, &close, key_end + 1) {
            None => n,
            Some(e) => e,
        };
        let key: String = text::trimmed(s, key_at, key_end);
        let value: String = text::trimmed(s, key_end + 1, end);
        let ghost before = args@;
        let ghost rest = params_from(s@, end as int);
        args.push((key, value));
        proof {
            assert(args_view(args@) =~= args_view(before) + seq![(key@, value@)]);
            assert((args_view(before) + seq![(key@, value@)]) + rest =~= args_view(before) + (seq![
                (key@, value@),
            ] + rest));
        }
        cursor = end;
    }
    args
}

/// The same arguments again.
pub fn copy_args(args: &Vec<(String, String)>) -> (r: Vec<(String, String)>)
    ensures
        r@ == args@,
{
    let mut r: Vec<(String, String)> = Vec::new();
    let mut i: usize = 0;
    while i < args.len()
        invariant
            i <= args@.len(),
            r@ == args@.take(i as int),
        decreases args@.len() - i,
    {
        r.push((args[i].0.clone(), args[i].1.clone()));
        i += 1;
    }
    assert(r@ =~= args@);
    r
}

/// The value of the first argument named `key`, or the empty text.
pub open spec fn value_of(args: Seq<(Seq<char>, Seq<char>)>, key: Seq<char>) -> Seq<char>
    decreases args.len(),
{
    if args.len() == 0 {
        seq![]
    } else if args[0].0 == key {
        args[0].1
    } else {
        value_of(args.skip(1), key)
    }
}

/// One argument by name, or the empty string.
pub fn arg<'a>(args: &'a [(String, String)], key: &str) -> (r: &'a str)
    ensures
        r@ == value_of(args_view(args@), key@),
{
    let wanted: String = key.to_owned();
    let ghost all = args_view(args@);
    let mut i: usize = 0;
    assert(all.skip(0) =~= all);
    while i < args.len()
        invariant
            all == args_view(args@),
            wanted@ == key@,
            i <= args@.len(),
            value_of(all, key@) == value_of(all.skip(i as int), key@),
        decreases args@.len() - i,
    {
        if args[i].0 == wanted {
            return args[i].1.as_str();
        }
        assert(all.skip(i as int).skip(1) =~= all.skip(i + 1));
        i += 1;
    }
    let none: &'static str = "";
    proof {
        reveal_strlit("");
        assert(none@ =~= Seq::<char>::empty());
    }
    none
}

// ------------------------------------------------------------------- a law

/// Whether `s` neither begins nor ends with white space.
pub open spec fn inked(s: Seq<char>) -> bool {
    s.len() > 0 ==> !text::white_space(s[0]) && !text::white_space(s[s.len() - 1])
}

/// A name that the template can carry.
pub open spec fn plain_name(name: Seq<char>) -> bool {
    &&& name.len() > 0
    &&& inked(name)
    &&& !name.contains('>')
    &&& !name.contains('\n')
}

/// An argument that the template can carry.
pub open spec fn plain_arg(arg: (Seq<char>, Seq<char>)) -> bool {
    &&& inked(arg.0)
    &&& inked(arg.1)
    &&& !arg.0.contains('>')
    &&& forall|j: int| !text::stands_at(arg.1, "</parameter>"@, j)
}

/// The parameters of a call, as the chat template writes them.
pub open spec fn params_text(args: Seq<(Seq<char>, Seq<char>)>) -> Seq<char>
    decreases args.len(),
{
    if args.len() == 0 {
        seq![]
    } else {
        "<parameter="@ + args[0].0 + ">\n"@ + args[0].1 + "\n</parameter>\n"@ + params_text(
            args.skip(1),
        )
    }
}

/// A call, as the chat template writes it between `<tool_call>` and `</tool_call>`.
pub open spec fn call_text(call: CallView) -> Seq<char> {
    "\n<function="@ + call.0 + ">\n"@ + params_text(call.1) + "</function>\n"@
}

/// Reading back a call that was written in the template gives the call: its name, and every
/// argument under its key, in order.
pub proof fn a_call_reads_back(call: CallView)
    requires
        plain_name(call.0),
        forall|i: int| 0 <= i < call.1.len() ==> plain_arg(#[trigger] call.1[i]),
    ensures
        parse_call(call_text(call)) == Ok::<CallView, Seq<char>>(call),
{
    let s = call_text(call);
    let (name, args) = call;
    reveal_strlit("\n<function=");
    reveal_strlit("<function=");
    reveal_strlit(">\n");
    reveal_strlit("</function>\n");
    let end: int = 11 + name.len() as int;
    let tail = "</function>\n"@;
    assert(s.len() == 11 + name.len() + 2 + params_text(args).len() + tail.len());
    assert(s.subrange(1, 11) =~= "<function="@);
    text::lemma_find_is_first(s, "<function="@, 0);
    assert(!text::stands_at(s, "<function="@, 0)) by {
        if text::stands_at(s, "<function="@, 0) {
            assert(s.subrange(0, 10)[0] == '\n');
        }
    }
    assert(text::stands_at(s, "<function="@, 1));
    assert(text::find_from(s, "<function="@, 0) == Some(1int));
    let stops = seq!['>', '\n'];
    text::lemma_stop_is_first(s, stops, 11);
    assert forall|j: int| 11 <= j < end implies !stops.contains(#[trigger] s[j]) by {
        assert(s[j] == name[j - 11]);
        assert(name.contains(name[j - 11]));
    }
    assert(stops.contains(s[end])) by {
        assert(s[end] == '>');
        assert(stops[0] == '>');
    }
    assert(text::stop_from(s, stops, 11) == Some(end));
    lemma_trim_between(s, 11, end, 11, end);
    assert(s.subrange(11, end) =~= name);
    assert(s.subrange(end, s.len() as int) =~= ">\n"@ + params_text(args) + tail);
    assert(s[end] == '>' && s[end + 1] == '\n');
    assert(s.subrange(end + 2, end + 2 + params_text(args).len()) =~= params_text(args));
    assert(s.subrange(s.len() - 12, s.len() as int) =~= tail);
    lemma_params_read_back(s, end, 2, args);
}

/// `trim_range` over `i..j` where only white space surrounds the inked part `a..b`.
proof fn lemma_trim_between(s: Seq<char>, i: int, j: int, a: int, b: int)
    requires
        0 <= i <= a <= b <= j <= s.len(),
        inked(s.subrange(a, b)),
        forall|k: int| i <= k < a ==> text::white_space(#[trigger] s[k]),
        forall|k: int| b <= k < j ==> text::white_space(#[trigger] s[k]),
    ensures
        text::trim_range(s, i, j) =~= s.subrange(a, b),
{
    if a < b {
        assert(s.subrange(a, b)[0] == s[a]);
        assert(s.subrange(a, b)[b - a - 1] == s[b - 1]);
        lemma_inked_from(s, i, j, a);
        lemma_inked_to(s, a, j, b);
    } else {
        lemma_inked_from(s, i, j, j);
    }
}

proof fn lemma_inked_from(s: Seq<char>, i: int, j: int, a: int)
    requires
        0 <= i <= a <= j <= s.len(),
        forall|k: int| i <= k < a ==> text::white_space(#[trigger] s[k]),
        a < j ==> !text::white_space(s[a]),
    ensures
        text::inked_from(s, i, j) == a,
    decreases a - i,
{
    if i < a {
        lemma_inked_from(s, i + 1, j, a);
    }
}

proof fn lemma_inked_to(s: Seq<char>, i: int, j: int, b: int)
    requires
        0 <= i < b <= j <= s.len(),
        forall|k: int| b <= k < j ==> text::white_space(#[trigger] s[k]),
        !text::white_space(s[b - 1]),
    ensures
        text::inked_to(s, i, j) == b,
    decreases j - b,
{
    if b < j {
        lemma_inked_to(s, i, j - 1, b);
    }
}

/// From position `i` on, `s` is `lead` characters in which no parameter opens, the text of
/// `args`, and the closing tag.
proof fn lemma_params_read_back(
    s: Seq<char>,
    i: int,
    lead: int,
    args: Seq<(Seq<char>, Seq<char>)>,
)
    requires
        0 <= i,
        0 <= lead,
        s.len() == i + lead + params_text(args).len() + 12,
        s.subrange(i + lead, i + lead + params_text(args).len()) == params_text(args),
        s.subrange(s.len() - 12, s.len() as int) == "</function>\n"@,
        forall|j: int| i <= j < i + lead ==> !(s[j] == '<' && #[trigger] s[j + 1] == 'p'),
        forall|k: int| 0 <= k < args.len() ==> plain_arg(#[trigger] args[k]),
    ensures
        params_from(s, i) =~= args,
    decreases args.len(),
{
    reveal_strlit("<parameter=");
    reveal_strlit("</parameter>");
    reveal_strlit("\n</parameter>\n");
    reveal_strlit(">\n");
    reveal_strlit("</function>\n");
    let open = "<parameter="@;
    let close = "</parameter>"@;
    text::lemma_find_is_first(s, open, i);
    assert forall|j: int| i <= j < i + lead implies !text::stands_at(s, open, j) by {
        if text::stands_at(s, open, j) {
            assert(s.subrange(j, j + 11)[0] == '<');
            assert(s.subrange(j, j + 11)[1] == 'p');
            assert(s[j + 1] == 'p');
        }
    }
    if args.len() == 0 {
        assert forall|j: int| i <= j implies !text::stands_at(s, open, j) by {
            if text::stands_at(s, open, j) && j >= i + lead {
                let t = s.subrange(s.len() - 12, s.len() as int);
                assert(s.subrange(j, j + 11)[0] == '<');
                assert(s.subrange(j, j + 11)[1] == 'p');
                assert(s[j] == t[j - (s.len() - 12)]);
                assert(s[j + 1] == t[j + 1 - (s.len() - 12)]);
            }
        }
        assert(text::find_from(s, open, i) is None);
    } else {
        let key = args[0].0;
        let value = args[0].1;
        let rest = args.skip(1);
        let body = params_text(args);
        let p = i + lead;
        assert(plain_arg(args[0]));
        assert(body =~= open + key + ">\n"@ + value + "\n</parameter>\n"@ + params_text(rest));
        assert forall|j: int| 0 <= j < body.len() implies s[p + j] == #[trigger] body[j] by {
            assert(s.subrange(p, p + body.len())[j] == s[p + j]);
        }
        // The key.
        assert(s.subrange(p, p + 11) =~= open);
        assert(text::stands_at(s, open, p));
        assert(text::find_from(s, open, i) == Some(p));
        let key_at = p + 11;
        let k = key_at + key.len();
        text::lemma_stop_is_first(s, seq!['>'], key_at);
        assert forall|j: int| key_at <= j < k implies !seq!['>'].contains(#[trigger] s[j]) by {
            assert(s[j] == body[j - p]);
            assert(body[j - p] == key[j - key_at]);
            assert(key.contains(key[j - key_at]));
        }
        assert(s[k] == '>') by {
            assert(s[k] == body[k - p]);
        }
        assert(seq!['>'].contains(s[k])) by {
            assert(seq!['>'][0] == '>');
        }
        assert(text::stop_from(s, seq!['>'], key_at) == Some(k));
        assert(s.subrange(key_at, k) =~= key) by {
            assert forall|j: int| 0 <= j < key.len() implies s[key_at + j] == key[j] by {
                assert(s[key_at + j] == body[11 + j]);
            }
        }
        lemma_trim_between(s, key_at, k, key_at, k);
        // The value.
        let v = k + 2;
        let e = v + value.len() + 1;
        assert(s[k + 1] == '\n') by {
            assert(s[k + 1] == body[k + 1 - p]);
        }
        assert(s[e - 1] == '\n') by {
            assert(s[e - 1] == body[e - 1 - p]);
        }
        assert(s.subrange(v, e - 1) =~= value) by {
            assert forall|j: int| 0 <= j < value.len() implies s[v + j] == value[j] by {
                assert(s[v + j] == body[v + j - p]);
            }
        }
        assert forall|j: int| 0 <= j < 13 implies #[trigger] s[e + j]
            == "\n</parameter>\n"@[j + 1] by {
            assert(s[e + j] == body[e + j - p]);
        }
        assert(s.subrange(e, e + 12) =~= close) by {
            assert forall|j: int| 0 <= j < 12 implies s.subrange(e, e + 12)[j] == close[j] by {
                assert(s[e + j] == "\n</parameter>\n"@[j + 1]);
            }
        }
        assert(text::stands_at(s, close, e));
        text::lemma_find_is_first(s, close, k + 1);
        assert forall|j: int| k + 1 <= j < e implies !text::stands_at(s, close, j) by {
            if text::stands_at(s, close, j) {
                let w = s.subrange(j, j + 12);
                assert(w[0] == '<');
                assert(s[j] == '<');
                assert(v <= j < e - 1);
                if j + 12 <= e - 1 {
                    assert(value.subrange(j - v, j - v + 12) =~= close) by {
                        assert forall|m: int| 0 <= m < 12 implies value[j - v + m] == close[m] by {
                            assert(s.subrange(v, e - 1)[j - v + m] == s[j + m]);
                            assert(w[m] == s[j + m]);
                        }
                    }
                    assert(text::stands_at(value, close, j - v));
                } else {
                    assert(w[e - 1 - j] == s[e - 1]);
                    assert(close[e - 1 - j] == '\n');
                }
            }
        }
        assert(text::find_from(s, close, k + 1) == Some(e));
        lemma_trim_between(s, k + 1, e, v, e - 1);
        // The rest.
        assert(s.len() == e + 13 + params_text(rest).len() + 12);
        assert(s.subrange(e + 13, e + 13 + params_text(rest).len()) =~= params_text(rest)) by {
            assert forall|j: int| 0 <= j < params_text(rest).len() implies s[e + 13 + j]
                == params_text(rest)[j] by {
                assert(s[e + 13 + j] == body[e + 13 + j - p]);
            }
        }
        assert forall|j: int| e <= j < e + 13 implies !(s[j] == '<' && #[trigger] s[j + 1]
            == 'p') by {
            assert(s[e + (j - e)] == "\n</parameter>\n"@[j - e + 1]);
            if j == e {
                assert(s[e + 1] == "\n</parameter>\n"@[2]);
            }
        }
        assert forall|m: int| 0 <= m < rest.len() implies plain_arg(#[trigger] rest[m]) by {
            assert(rest[m] == args[m + 1]);
        }
        lemma_params_read_back(s, e, 13, rest);
        assert(seq![(key, value)] + rest =~= args);
    }
}

} // verus!
