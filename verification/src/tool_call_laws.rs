//! What always holds of reading a tool call, of any text whatever.

use vstd::prelude::*;
use vstd::string::*;
use crate::text;
use crate::text_laws;
use crate::tool_call;

verus! {

/// Whether `pattern` stands in `s` at `at` and nowhere from `from` up to there.
pub open spec fn first_at(s: Seq<char>, pattern: Seq<char>, from: int, at: int) -> bool {
    &&& from <= at
    &&& text::stands_at(s, pattern, at)
    &&& forall|j: int| from <= j < at ==> !#[trigger] text::stands_at(s, pattern, j)
}

/// Whether `pattern` stands in `s` nowhere from `from` on.
pub open spec fn nowhere(s: Seq<char>, pattern: Seq<char>, from: int) -> bool {
    forall|j: int| from <= j ==> !#[trigger] text::stands_at(s, pattern, j)
}

/// Whether the place `at` of `s` is the first from `from` on that ends a name: a `>`, or, where
/// `line` says so, a line break.
pub open spec fn first_stop(s: Seq<char>, line: bool, from: int, at: int) -> bool {
    &&& from <= at < s.len()
    &&& s[at] == '>' || (line && s[at] == '\n')
    &&& forall|j: int| from <= j < at ==> #[trigger] s[j] != '>' && !(line && s[j] == '\n')
}

/// Whether nothing from `from` on ends a name.
pub open spec fn no_stop(s: Seq<char>, line: bool, from: int) -> bool {
    forall|j: int| from <= j < s.len() ==> #[trigger] s[j] != '>' && !(line && s[j] == '\n')
}

spec fn stops_of(line: bool) -> Seq<char> {
    if line {
        seq!['>', '\n']
    } else {
        seq!['>']
    }
}

proof fn lemma_first_at(s: Seq<char>, pattern: Seq<char>, from: int, at: int)
    requires
        0 <= from,
        first_at(s, pattern, from, at),
    ensures
        text::find_from(s, pattern, from) == Some(at),
{
    text::lemma_find_is_first(s, pattern, from);
}

proof fn lemma_first_stop(s: Seq<char>, line: bool, from: int, at: int)
    requires
        0 <= from,
        first_stop(s, line, from, at),
    ensures
        text::stop_from(s, stops_of(line), from) == Some(at),
{
    let stops = stops_of(line);
    text::lemma_stop_is_first(s, stops, from);
    lemma_stops(line);
}

proof fn lemma_no_stop(s: Seq<char>, line: bool, from: int)
    requires
        0 <= from,
        no_stop(s, line, from),
    ensures
        text::stop_from(s, stops_of(line), from) is None,
{
    let stops = stops_of(line);
    text::lemma_stop_is_first(s, stops, from);
    lemma_stops(line);
}

proof fn lemma_stops(line: bool)
    ensures
        forall|c: char|
            #[trigger] stops_of(line).contains(c) == (c == '>' || (line && c == '\n')),
{
    assert(seq!['>', '\n'][0] == '>' && seq!['>', '\n'][1] == '\n');
    assert(seq!['>'][0] == '>');
}

/// A body without `<function=` is no call, whatever else is in it.
pub proof fn a_call_needs_a_function(body: Seq<char>)
    requires
        nowhere(body, "<function="@, 0),
    ensures
        tool_call::parse_call(body) == Err::<tool_call::CallView, Seq<char>>("missing <function="@),
{
    text::lemma_find_is_first(body, "<function="@, 0);
}

/// A name that neither a `>` nor a line break ends is no call.
pub proof fn a_call_needs_an_end_of_its_name(body: Seq<char>, f: int)
    requires
        first_at(body, "<function="@, 0, f),
        no_stop(body, true, f + 10),
    ensures
        tool_call::parse_call(body) == Err::<tool_call::CallView, Seq<char>>(
            "unterminated function name"@,
        ),
{
    reveal_strlit("<function=");
    lemma_first_at(body, "<function="@, 0, f);
    lemma_no_stop(body, true, f + 10);
}

/// A body with a function whose name is ended is a call exactly where the name is more than
/// white space. The name is what stands between the first `<function=` and the first `>` or
/// line break after it, trimmed, and the parameters are read from there on.
pub proof fn a_call_has_the_name_it_is_given(body: Seq<char>, f: int, e: int)
    requires
        first_at(body, "<function="@, 0, f),
        first_stop(body, true, f + 10, e),
    ensures
        match tool_call::parse_call(body) {
            Ok(call) => {
                &&& !text_laws::blank(body, f + 10, e)
                &&& text_laws::is_trimmed(body, f + 10, e, call.0)
                &&& call.1 == tool_call::params_from(body, e)
            },
            Err(error) => text_laws::blank(body, f + 10, e) && error == "empty function name"@,
        },
{
    reveal_strlit("<function=");
    lemma_first_at(body, "<function="@, 0, f);
    lemma_first_stop(body, true, f + 10, e);
    text_laws::trimming_cuts_white_space_only(body, f + 10, e);
    lemma_blank(body, f + 10, e);
}

/// A text trims to nothing exactly where it is white space.
proof fn lemma_blank(s: Seq<char>, i: int, j: int)
    requires
        0 <= i <= j <= s.len(),
    ensures
        text::trim_range(s, i, j).len() == 0 <==> text_laws::blank(s, i, j),
{
    text_laws::trimming_cuts_white_space_only(s, i, j);
    let t = text::trim_range(s, i, j);
    let (a, b) = choose|a: int, b: int|
        i <= a <= b <= j && text_laws::blank(s, i, a) && text_laws::blank(s, b, j) && t
            == #[trigger] s.subrange(a, b);
    if t.len() > 0 {
        assert(t[0] == s[a]);
    } else {
        assert(a == b);
    }
}

/// Where no parameter opens there is none.
pub proof fn no_parameter_is_made_up(s: Seq<char>, i: int)
    requires
        0 <= i,
        nowhere(s, "<parameter="@, i),
    ensures
        tool_call::params_from(s, i).len() == 0,
{
    text::lemma_find_is_first(s, "<parameter="@, i);
}

/// A parameter whose key is not ended is none, and nothing is read after it.
pub proof fn a_parameter_needs_an_end_of_its_key(s: Seq<char>, i: int, p: int)
    requires
        0 <= i,
        first_at(s, "<parameter="@, i, p),
        no_stop(s, false, p + 11),
    ensures
        tool_call::params_from(s, i).len() == 0,
{
    reveal_strlit("<parameter=");
    lemma_first_at(s, "<parameter="@, i, p);
    lemma_no_stop(s, false, p + 11);
}

/// Every parameter is read, in order. The first one from `i` on has for its key what stands
/// between its tag and the next `>`, and for its value what follows up to the closing tag, or
/// to the end where there is none, each trimmed; and the rest are those from there on.
pub proof fn every_parameter_is_read(s: Seq<char>, i: int, p: int, k: int, e: int)
    requires
        0 <= i,
        first_at(s, "<parameter="@, i, p),
        first_stop(s, false, p + 11, k),
        first_at(s, "</parameter>"@, k + 1, e) || (nowhere(s, "</parameter>"@, k + 1) && e
            == s.len()),
    ensures
        ({
            let params = tool_call::params_from(s, i);
            &&& params.len() == 1 + tool_call::params_from(s, e).len()
            &&& text_laws::is_trimmed(s, p + 11, k, params[0].0)
            &&& text_laws::is_trimmed(s, k + 1, e, params[0].1)
            &&& params.skip(1) == tool_call::params_from(s, e)
        }),
{
    reveal_strlit("<parameter=");
    reveal_strlit("</parameter>");
    lemma_first_at(s, "<parameter="@, i, p);
    lemma_first_stop(s, false, p + 11, k);
    text::lemma_find_is_first(s, "</parameter>"@, k + 1);
    assert(tool_call::value_end(s, k + 1) == e);
    text_laws::trimming_cuts_white_space_only(s, p + 11, k);
    text_laws::trimming_cuts_white_space_only(s, k + 1, e);
    let params = tool_call::params_from(s, i);
    assert(params.skip(1) =~= tool_call::params_from(s, e));
}

/// An argument is the first of its name, and none of a name that is not there.
pub proof fn the_first_argument_of_a_name_counts(
    args: Seq<(Seq<char>, Seq<char>)>,
    key: Seq<char>,
    i: int,
)
    requires
        0 <= i <= args.len(),
        forall|j: int| 0 <= j < i ==> (#[trigger] args[j]).0 != key,
        i < args.len() ==> args[i].0 == key,
    ensures
        i < args.len() ==> tool_call::value_of(args, key) == args[i].1,
        i == args.len() ==> tool_call::value_of(args, key).len() == 0,
    decreases i,
{
    if i > 0 {
        assert(args[0].0 != key);
        assert forall|j: int| 0 <= j < i - 1 implies (#[trigger] args.skip(1)[j]).0 != key by {
            assert(args.skip(1)[j] == args[j + 1]);
        }
        the_first_argument_of_a_name_counts(args.skip(1), key, i - 1);
    }
}

} // verus!
