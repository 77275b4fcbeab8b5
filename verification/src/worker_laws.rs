//! What always holds of the model's worker, input by input and over a whole run.

use vstd::prelude::*;
use vstd::string::*;
use crate::prompt;
use crate::tool_call;
use crate::worker;
use crate::worker::{
    ActionView, EventView, Input, Marks, Stage, WorkerMsg, WorkerView,
};

verus! {

// ---------------------------------------------------------------- the answer

/// Nothing of the answer is lost and nothing is added to it: a text that is decoded outside of
/// a tool call and of the thinking is said, exactly it and once; inside of a tool call all of
/// it goes to the body; inside of the thinking it goes nowhere.
pub proof fn decoded_text_goes_to_one_place<F>(w: WorkerView, text: String)
    requires
        w.stage is Decode,
    ensures
        ({
            let m = worker::moves(w, Input::<F>::Text(Some(text)));
            let after = m.next.turn;
            &&& m.does is Check
            &&& m.next.stage is Check
            &&& after.generated == w.turn.generated
            &&& after.in_tool_call == w.turn.in_tool_call
            &&& after.in_think == w.turn.in_think
            &&& after.calls == w.turn.calls
            &&& if w.turn.in_tool_call {
                m.says.len() == 0 && after.body == w.turn.body + text@
            } else if w.turn.in_think {
                m.says.len() == 0 && after.body == w.turn.body
            } else {
                &&& m.says == seq![EventView::<F>::Delta(text@)]
                &&& after.body == w.turn.body
            }
        }),
{
}

/// A token that the decoder makes nothing of changes nothing.
pub proof fn no_text_is_no_news<F>(w: WorkerView)
    requires
        w.stage is Decode,
    ensures
        ({
            let m = worker::moves(w, Input::<F>::Text(None));
            &&& m.says.len() == 0
            &&& m.does is Check
            &&& m.next == (WorkerView { stage: Stage::Check, ..w })
        }),
{
}

/// The pieces of the answer among `events`, in order.
pub open spec fn deltas<F>(events: Seq<EventView<F>>) -> Seq<Seq<char>>
    decreases events.len(),
{
    if events.len() == 0 {
        seq![]
    } else {
        match events.last() {
            EventView::Delta(text) => deltas(events.drop_last()).push(text),
            _ => deltas(events.drop_last()),
        }
    }
}

/// What a run is to say of its answers: every text that was decoded outside of a tool call and
/// of the thinking, and, in the place of a tool call that cannot be read, what is wrong with it.
pub open spec fn answered<F>(w: WorkerView, inputs: Seq<Input<F>>) -> Seq<Seq<char>>
    decreases inputs.len(),
{
    if inputs.len() == 0 {
        seq![]
    } else {
        let here: Seq<Seq<char>> = match inputs[0] {
            Input::Text(text) => if text is Some && !w.turn.in_tool_call && !w.turn.in_think {
                seq![(text->0)@]
            } else {
                seq![]
            },
            Input::Token(token) => if token is Some && worker::closes_a_call(w, token->0) {
                match tool_call::parse_call(w.turn.body) {
                    Ok(_) => seq![],
                    Err(error) => seq!["[bad tool call: "@ + error + "]"@],
                }
            } else {
                seq![]
            },
            _ => seq![],
        };
        here + answered(worker::moves(w, inputs[0]).next, inputs.skip(1))
    }
}

/// Over any run the pieces of the answer that are said are all the texts decoded outside of
/// the tool calls and of the thinking, in order, and a word for each call that could not be
/// read: none is lost, none is said twice.
pub proof fn nothing_of_the_answer_is_lost<F>(w: WorkerView, inputs: Seq<Input<F>>)
    requires
        worker::is_run(w, inputs),
    ensures
        deltas(worker::run_says(w, inputs)) == answered(w, inputs),
    decreases inputs.len(),
{
    if inputs.len() > 0 {
        let m = worker::moves(w, inputs[0]);
        let rest = worker::run_says(m.next, inputs.skip(1));
        nothing_of_the_answer_is_lost(m.next, inputs.skip(1));
        lemma_deltas_add(m.says, rest);
        if m.says.len() == 1 {
            assert(m.says.drop_last() =~= Seq::<EventView<F>>::empty());
            assert(deltas(m.says.drop_last()) =~= Seq::<Seq<char>>::empty());
        }
        if let Input::Closed { .. } = inputs[0] {
            lemma_no_deltas(m.says);
        }
        let here = deltas(m.says);
        assert(answered(w, inputs) =~= here + answered(m.next, inputs.skip(1)));
    }
}

proof fn lemma_deltas_add<F>(a: Seq<EventView<F>>, b: Seq<EventView<F>>)
    ensures
        deltas(a + b) == deltas(a) + deltas(b),
    decreases b.len(),
{
    if b.len() == 0 {
        assert(a + b =~= a);
        assert(deltas(a) + deltas(b) =~= deltas(a));
    } else {
        assert((a + b).drop_last() =~= a + b.drop_last());
        lemma_deltas_add(a, b.drop_last());
        assert(deltas(a + b) =~= deltas(a) + deltas(b));
    }
}

proof fn lemma_no_deltas<F>(events: Seq<EventView<F>>)
    requires
        forall|i: int| 0 <= i < events.len() ==> !(#[trigger] events[i] is Delta),
    ensures
        deltas(events).len() == 0,
    decreases events.len(),
{
    if events.len() > 0 {
        assert(!(events.last() is Delta));
        lemma_no_deltas(events.drop_last());
    }
}

// ------------------------------------------------------------------ the marks

/// A sampled token is counted, and does what its mark says and no more: the first of the four
/// that it is opens or closes a tool call or the thinking; one that is none goes to the
/// decoder. Opening a call starts its body anew; closing one that is open adds the call, where
/// its body can be read.
pub proof fn marks_steer<F>(w: WorkerView, token: u32)
    requires
        w.stage is Sample,
    ensures
        ({
            let m = worker::moves(w, Input::<F>::Token(Some(token)));
            let t = m.next.turn;
            let opens = w.marks.tool_call_open == Some(token);
            let closes = !opens && w.marks.tool_call_close == Some(token);
            let thinks = !opens && !closes && w.marks.think_open == Some(token);
            let answers = !opens && !closes && !thinks && w.marks.think_close == Some(token);
            let body = tool_call::parse_call(w.turn.body);
            let ends = closes && w.turn.in_tool_call;
            &&& t.generated == w.turn.generated + 1
            &&& t.in_tool_call == (opens || (w.turn.in_tool_call && !closes))
            &&& t.in_think == (thinks || (w.turn.in_think && !answers))
            &&& opens ==> t.body.len() == 0
            &&& !opens ==> t.body == w.turn.body
            &&& ends && body is Ok ==> t.calls == w.turn.calls.push(body->Ok_0)
            &&& !(ends && body is Ok) ==> t.calls == w.turn.calls
            &&& ends && body is Err ==> m.says == seq![
                EventView::<F>::Delta("[bad tool call: "@ + body->Err_0 + "]"@),
            ]
            &&& !(ends && body is Err) ==> m.says.len() == 0
            &&& if opens || closes || thinks || answers {
                m.does is Check && m.next.stage is Check
            } else {
                m.does == ActionView::Decode(token) && m.next.stage is Decode
            }
        }),
{
}

/// Where nothing is left to say the turn is closed as it stands, without a mark: the model has
/// ended it.
pub proof fn the_model_ends_its_turn<F>(w: WorkerView)
    requires
        w.stage is Sample,
    ensures
        ({
            let m = worker::moves(w, Input::<F>::Token(None));
            &&& m.says.len() == 0
            &&& m.does == ActionView::Close(None)
            &&& m.next == (WorkerView { stage: Stage::Closing, ..w })
        }),
{
}

/// The next token is sampled exactly while nobody cancelled, the turn has said less than its
/// share and enough context is left. A turn that is closed for want of either keeps the calls
/// it made; nothing but a cancel drops them.
pub proof fn a_turn_goes_on_while_it_may<F>(w: WorkerView, cancelled: bool, remaining: usize)
    requires
        w.stage is Check,
    ensures
        ({
            let m = worker::moves(w, Input::<F>::Checked { cancelled, remaining });
            let may = !cancelled && w.turn.generated < 640 && remaining >= 256;
            &&& m.says.len() == 0
            &&& may ==> m.does is NextToken && m.next == (WorkerView { stage: Stage::Sample, ..w })
            &&& !may ==> m.does == ActionView::Close(w.marks.im_end) && m.next.stage is Closing
            &&& m.next.turn.generated == w.turn.generated
            &&& m.next.turn.in_tool_call == w.turn.in_tool_call
            &&& m.next.turn.in_think == w.turn.in_think
            &&& m.next.turn.body == w.turn.body
            &&& cancelled ==> m.next.turn.calls.len() == 0
            &&& !cancelled ==> m.next.turn.calls == w.turn.calls
        }),
{
}

// ------------------------------------------------------------------- the turns

/// A question is put to the model as a user turn, tool results as a turn of their blocks; the
/// text is whole, and nothing is said.
pub proof fn a_message_becomes_a_turn<F>(w: WorkerView, text: String, results: Vec<(String, bool)>)
    requires
        w.stage is Idle,
    ensures
        ({
            let asked = worker::moves(w, Input::<F>::Message(WorkerMsg::UserTurn(text)));
            let answered = worker::moves(w, Input::<F>::Message(WorkerMsg::ToolResults(results)));
            let opening = "<|im_start|>user\n"@;
            let closing = "<|im_end|>\n<|im_start|>assistant\n<think>\n\n</think>\n\n"@;
            &&& asked.does == ActionView::Tokenize(opening + text@ + closing)
            &&& answered.does == ActionView::Tokenize(
                opening + prompt::response_blocks(results@) + closing,
            )
            &&& asked.says.len() == 0
            &&& answered.says.len() == 0
            &&& asked.next == (WorkerView { stage: Stage::TurnTokens, ..w })
            &&& answered.next == (WorkerView { stage: Stage::TurnTokens, ..w })
        }),
{
    prompt_shape(text@);
    prompt_shape(prompt::response_blocks(results@));
    assert(prompt::response_turn_text(results@) =~= prompt::user_turn_text(
        prompt::response_blocks(results@),
    ));
}

proof fn prompt_shape(text: Seq<char>)
    ensures
        prompt::user_turn_text(text) == "<|im_start|>user\n"@ + text
            + "<|im_end|>\n<|im_start|>assistant\n<think>\n\n</think>\n\n"@,
{
}

/// A turn that cannot be made tokens of is passed over; one that fits is appended; one that is
/// appended begins with nothing said, nothing open and nothing called.
pub proof fn a_turn_begins_clean<F>(w: WorkerView, tokens: usize, remaining: usize)
    ensures
        w.stage is TurnTokens ==> {
            let none = worker::moves(w, Input::<F>::TurnTokenized { tokens: None, remaining });
            let fits = worker::moves(w, Input::<F>::TurnTokenized { tokens: Some(tokens), remaining });
            &&& none.says.len() == 0
            &&& none.does is Receive
            &&& none.next == (WorkerView { stage: Stage::Idle, ..w })
            &&& remaining >= tokens + 256 ==> {
                &&& fits.says.len() == 0
                &&& fits.does is Append
                &&& fits.next == (WorkerView { stage: Stage::TurnFill, ..w })
            }
        },
        w.stage is TurnFill ==> {
            let begun = worker::moves(w, Input::<F>::TurnAppended(true));
            &&& begun.says.len() == 0
            &&& begun.does is Check
            &&& begun.next.stage is Check
            &&& begun.next.turn.generated == 0
            &&& !begun.next.turn.in_tool_call
            &&& !begun.next.turn.in_think
            &&& begun.next.turn.body.len() == 0
            &&& begun.next.turn.calls.len() == 0
            &&& worker::moves(w, Input::<F>::TurnAppended(false)).says == seq![
                EventView::<F>::ContextFull,
            ]
        },
{
}

/// A turn that is closed leaves the worker waiting for the next message.
pub proof fn a_closed_turn_is_over<F>(
    w: WorkerView,
    secs: F,
    context_used: usize,
    context_max: usize,
)
    requires
        w.stage is Closing,
    ensures
        ({
            let m = worker::moves(w, Input::<F>::Closed { secs, context_used, context_max });
            &&& m.does is Receive
            &&& m.next == (WorkerView { stage: Stage::Idle, ..w })
        }),
{
}

/// What the worker was made with never changes, nor do the marks once they are known; and
/// nothing touches the turn but what happens in it.
pub proof fn the_rest_stays_as_it_is<F>(w: WorkerView, input: Input<F>)
    requires
        worker::awaits(w.stage, input),
    ensures
        ({
            let next = worker::moves(w, input).next;
            &&& next.model == w.model
            &&& next.prefix == w.prefix
            &&& !(input is PrefixAppended) ==> next.marks == w.marks
            &&& input matches Input::PrefixAppended { result, marks, .. } ==> next.marks == (
            if result is Ok {
                marks
            } else {
                w.marks
            })
            &&& !(input is TurnAppended || input is Checked || input is Token || input is Text)
                ==> next.turn == w.turn
            &&& input == Input::<F>::TurnAppended(false) ==> next.turn == w.turn
        }),
{
}

// ---------------------------------------------------------------- the start

/// The load reports itself, as it does and as often, and goes on.
pub proof fn the_load_reports_itself<F>(w: WorkerView, phase: String, fraction: F)
    requires
        w.stage is Loading,
    ensures
        ({
            let m = worker::moves(w, Input::Progress { phase, fraction });
            &&& m.says == seq![EventView::Loading { phase: phase@, fraction }]
            &&& m.does is Load
            &&& m.next == w
        }),
{
}

/// A start that goes well says one thing: that the model is ready, after as many tokens as the
/// prefix was found to have. What is made tokens of is the prefix, all of it.
pub proof fn a_start_that_goes_well<F>(w: WorkerView, tokens: usize, marks: Marks, secs: F)
    requires
        w.stage is Loading,
    ensures
        ({
            let loaded = worker::moves(w, Input::<F>::Loaded(Ok(())));
            let counted = worker::moves(loaded.next, Input::<F>::PrefixTokenized(Ok(tokens)));
            let filled = worker::moves(
                counted.next,
                Input::PrefixAppended { result: Ok(()), marks, secs },
            );
            &&& loaded.says.len() == 0
            &&& loaded.does == ActionView::Tokenize(w.prefix)
            &&& loaded.next.stage is PrefixTokens
            &&& counted.says.len() == 0
            &&& counted.does is Append
            &&& counted.next.stage is PrefixFill
            &&& filled.says == seq![EventView::Ready { prefill_tokens: tokens, secs }]
            &&& filled.does is Receive
            &&& filled.next == (WorkerView { stage: Stage::Idle, marks, ..w })
        }),
{
}

/// A start that fails says what failed and with what error, and nothing else.
pub proof fn a_start_that_fails<F>(w: WorkerView, error: String, marks: Marks, secs: F)
    ensures
        w.stage is Loading ==> {
            let m = worker::moves(w, Input::<F>::Loaded(Err(error)));
            &&& m.says == seq![
                EventView::<F>::Failed("could not load "@ + w.model + ": "@ + error@),
            ]
            &&& m.does is Stop
            &&& m.next.stage is Dead
        },
        w.stage is PrefixTokens ==> {
            let m = worker::moves(w, Input::<F>::PrefixTokenized(Err(error)));
            &&& m.says == seq![EventView::<F>::Failed("tokenize: "@ + error@)]
            &&& m.does is Stop
            &&& m.next.stage is Dead
        },
        w.stage is PrefixFill ==> {
            let m = worker::moves(w, Input::PrefixAppended { result: Err(error), marks, secs });
            &&& m.says == seq![EventView::<F>::Failed("prefill: "@ + error@)]
            &&& m.does is Stop
            &&& m.next.stage is Dead
        },
{
}

/// The worker waits for something at every stage but when it is over, and for a message
/// wherever it receives one.
pub proof fn a_stage_waits_for_its_own<F>(w: WorkerView, input: Input<F>)
    ensures
        input is Message ==> (worker::awaits(w.stage, input) <==> w.stage is Idle || w.stage is Full),
        input is Progress || input is Loaded ==> (worker::awaits(w.stage, input)
            <==> w.stage is Loading),
        input is PrefixTokenized ==> (worker::awaits(w.stage, input) <==> w.stage is PrefixTokens),
        input is PrefixAppended ==> (worker::awaits(w.stage, input) <==> w.stage is PrefixFill),
        input is TurnTokenized ==> (worker::awaits(w.stage, input) <==> w.stage is TurnTokens),
        input is TurnAppended ==> (worker::awaits(w.stage, input) <==> w.stage is TurnFill),
        input is Checked ==> (worker::awaits(w.stage, input) <==> w.stage is Check),
        input is Token ==> (worker::awaits(w.stage, input) <==> w.stage is Sample),
        input is Text ==> (worker::awaits(w.stage, input) <==> w.stage is Decode),
        input is Closed ==> (worker::awaits(w.stage, input) <==> w.stage is Closing),
{
}

} // verus!
