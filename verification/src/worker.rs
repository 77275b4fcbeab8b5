//! The model's worker: what it does next, and what it says, as a function of what happened.
//!
//! The engine lives on a thread of its own, and everything it does takes time: loading,
//! tokenizing, appending to the context, sampling a token. [`Worker`] does none of that. It
//! is told the outcome of one thing as an [`Input`], and answers with the events to publish
//! and the next [`Action`] to perform.
//!
//! The session is append-only: the system turn and every later turn stay in the context, so
//! the context window is the conversation's whole life.

use vstd::prelude::*;
use vstd::string::*;
use crate::prompt;
use crate::tool_call;

verus! {

/// The context window. The tools prefix and every turn accumulate in it.
pub const MAX_CONTEXT: u32 = 16384;
/// A file question is not an essay. Past this the answer has stopped being one.
pub const MAX_NEW_TOKENS: usize = 640;
/// Stop a turn while this much context is still left, so the next one fits.
pub const MIN_REMAINING_CONTEXT: usize = 256;

/// What the worker has to say. Everything the panel shows comes from here. `F` is how the
/// caller measures time and progress.
#[derive(Debug)]
pub enum ChatEvent<F> {
    /// A named phase of the load, and how far through it is (0..1).
    Loading { phase: String, fraction: F },
    /// The weights are resident and the prefix is prefilled.
    Ready { prefill_tokens: usize, secs: F },
    /// The model could not be loaded at all. Nothing else will ever arrive.
    Failed(String),
    /// A piece of the answer being written.
    Delta(String),
    /// The model wants a tool run. The app owes exactly one result per call.
    ToolCall { name: String, args: Vec<(String, String)> },
    /// The turn is over. `tool_calls` is how many results the app now owes.
    TurnDone {
        tool_calls: usize,
        tokens: usize,
        secs: F,
        context_used: usize,
        context_max: usize,
    },
    /// The window is full; this session cannot continue.
    ContextFull,
}

/// What the app sends the worker.
#[derive(Debug)]
pub enum WorkerMsg {
    UserTurn(String),
    /// One (text, is_error) per tool the last turn asked for, in call order.
    ToolResults(Vec<(String, bool)>),
}

/// The tokens that mean something to the worker. `None` where the vocabulary has none.
#[derive(Clone, Copy, Debug)]
pub struct Marks {
    pub im_end: Option<u32>,
    pub tool_call_open: Option<u32>,
    pub tool_call_close: Option<u32>,
    pub think_open: Option<u32>,
    pub think_close: Option<u32>,
}

/// What just happened.
#[derive(Debug)]
pub enum Input<F> {
    /// The load reports itself.
    Progress { phase: String, fraction: F },
    /// The load is over; an error comes as text.
    Loaded(Result<(), String>),
    /// The prefix is this many tokens.
    PrefixTokenized(Result<usize, String>),
    /// The prefix was appended; the vocabulary's marks, and the time since the start.
    PrefixAppended { result: Result<(), String>, marks: Marks, secs: F },
    /// The app sent something.
    Message(WorkerMsg),
    /// The turn is this many tokens, and this much context is left.
    TurnTokenized { tokens: Option<usize>, remaining: usize },
    /// Whether the turn could be appended.
    TurnAppended(bool),
    /// Whether the turn was cancelled, and how much context is left.
    Checked { cancelled: bool, remaining: usize },
    /// The next token, or nothing left to say.
    Token(Option<u32>),
    /// What the decoder made of the token.
    Text(Option<String>),
    /// The turn is closed; how long it took, and the context it left.
    Closed { secs: F, context_used: usize, context_max: usize },
}

/// What to do next.
#[derive(Debug)]
pub enum Action {
    /// Load the weights.
    Load,
    /// Tokenize this text.
    Tokenize(String),
    /// Append the tokens of the last [`Action::Tokenize`].
    Append,
    /// Wait for a message.
    Receive,
    /// Look at the cancel flag and at the context.
    Check,
    /// Sample the next token.
    NextToken,
    /// Decode this token.
    Decode(u32),
    /// Append this token, if any, to close the turn.
    Close(Option<u32>),
    /// Stop: the worker is over.
    Stop,
}

/// What the worker waits for.
#[derive(Clone, Copy, Debug)]
pub enum Stage {
    Loading,
    PrefixTokens,
    PrefixFill { tokens: usize },
    Idle,
    TurnTokens,
    TurnFill,
    Check,
    Sample,
    Decode,
    Closing,
    /// The window is full: no message gets a turn any more.
    Full,
    Dead,
}

/// The answer being written.
pub struct Turn {
    generated: usize,
    in_tool_call: bool,
    in_think: bool,
    tool_body: String,
    tool_calls: Vec<(String, Vec<(String, String)>)>,
}

/// The worker.
pub struct Worker {
    model: String,
    prefix: String,
    marks: Marks,
    stage: Stage,
    turn: Turn,
}

/// The events to publish, in order, and then the next thing to do.
#[derive(Debug)]
pub struct Output<F> {
    pub events: Vec<ChatEvent<F>>,
    pub action: Action,
}

// -------------------------------------------------------------------- models

/// A [`Turn`] as a value.
pub struct TurnView {
    pub generated: nat,
    pub in_tool_call: bool,
    pub in_think: bool,
    pub body: Seq<char>,
    pub calls: Seq<tool_call::CallView>,
}

/// A [`Worker`] as a value.
pub struct WorkerView {
    pub model: Seq<char>,
    pub prefix: Seq<char>,
    pub marks: Marks,
    pub stage: Stage,
    pub turn: TurnView,
}

/// A [`ChatEvent`] as a value.
pub enum EventView<F> {
    Loading { phase: Seq<char>, fraction: F },
    Ready { prefill_tokens: usize, secs: F },
    Failed(Seq<char>),
    Delta(Seq<char>),
    ToolCall(tool_call::CallView),
    TurnDone {
        tool_calls: nat,
        tokens: nat,
        secs: F,
        context_used: usize,
        context_max: usize,
    },
    ContextFull,
}

/// An [`Action`] as a value.
pub enum ActionView {
    Load,
    Tokenize(Seq<char>),
    Append,
    Receive,
    Check,
    NextToken,
    Decode(u32),
    Close(Option<u32>),
    Stop,
}

/// What one input leads to.
pub struct Move<F> {
    pub next: WorkerView,
    pub says: Seq<EventView<F>>,
    pub does: ActionView,
}

pub open spec fn calls_view(calls: Seq<(String, Vec<(String, String)>)>) -> Seq<
    tool_call::CallView,
> {
    Seq::new(calls.len(), |i: int| (calls[i].0@, tool_call::args_view(calls[i].1@)))
}

pub open spec fn event_view<F>(event: ChatEvent<F>) -> EventView<F> {
    match event {
        ChatEvent::Loading { phase, fraction } => EventView::Loading { phase: phase@, fraction },
        ChatEvent::Ready { prefill_tokens, secs } => EventView::Ready { prefill_tokens, secs },
        ChatEvent::Failed(text) => EventView::Failed(text@),
        ChatEvent::Delta(text) => EventView::Delta(text@),
        ChatEvent::ToolCall { name, args } => EventView::ToolCall(
            (name@, tool_call::args_view(args@)),
        ),
        ChatEvent::TurnDone { tool_calls, tokens, secs, context_used, context_max } => {
            EventView::TurnDone {
                tool_calls: tool_calls as nat,
                tokens: tokens as nat,
                secs,
                context_used,
                context_max,
            }
        },
        ChatEvent::ContextFull => EventView::ContextFull,
    }
}

pub open spec fn events_view<F>(events: Seq<ChatEvent<F>>) -> Seq<EventView<F>> {
    Seq::new(events.len(), |i: int| event_view(events[i]))
}

pub open spec fn action_view(action: Action) -> ActionView {
    match action {
        Action::Load => ActionView::Load,
        Action::Tokenize(text) => ActionView::Tokenize(text@),
        Action::Append => ActionView::Append,
        Action::Receive => ActionView::Receive,
        Action::Check => ActionView::Check,
        Action::NextToken => ActionView::NextToken,
        Action::Decode(token) => ActionView::Decode(token),
        Action::Close(token) => ActionView::Close(token),
        Action::Stop => ActionView::Stop,
    }
}

impl View for Turn {
    type V = TurnView;

    closed spec fn view(&self) -> TurnView {
        TurnView {
            generated: self.generated as nat,
            in_tool_call: self.in_tool_call,
            in_think: self.in_think,
            body: self.tool_body@,
            calls: calls_view(self.tool_calls@),
        }
    }
}

impl View for Worker {
    type V = WorkerView;

    closed spec fn view(&self) -> WorkerView {
        WorkerView {
            model: self.model@,
            prefix: self.prefix@,
            marks: self.marks,
            stage: self.stage,
            turn: self.turn@,
        }
    }
}

// ------------------------------------------------------------------ behaviour

/// A turn before its first token.
pub open spec fn fresh_turn() -> TurnView {
    TurnView {
        generated: 0,
        in_tool_call: false,
        in_think: false,
        body: seq![],
        calls: seq![],
    }
}

/// Whether `stage` waits for `input`.
pub open spec fn awaits<F>(stage: Stage, input: Input<F>) -> bool {
    match input {
        Input::Progress { .. } => stage is Loading,
        Input::Loaded(_) => stage is Loading,
        Input::PrefixTokenized(_) => stage is PrefixTokens,
        Input::PrefixAppended { .. } => stage is PrefixFill,
        Input::Message(_) => stage is Idle || stage is Full,
        Input::TurnTokenized { .. } => stage is TurnTokens,
        Input::TurnAppended(_) => stage is TurnFill,
        Input::Checked { .. } => stage is Check,
        Input::Token(_) => stage is Sample,
        Input::Text(_) => stage is Decode,
        Input::Closed { .. } => stage is Closing,
    }
}

/// A move to `stage` that says nothing.
pub open spec fn silently<F>(w: WorkerView, stage: Stage, does: ActionView) -> Move<F> {
    Move { next: WorkerView { stage, ..w }, says: seq![], does }
}

/// A failure: it is said, and the worker is over.
pub open spec fn fails<F>(w: WorkerView, text: Seq<char>) -> Move<F> {
    Move {
        next: WorkerView { stage: Stage::Dead, ..w },
        says: seq![EventView::Failed(text)],
        does: ActionView::Stop,
    }
}

/// The window is full: it is said, now and to whatever is sent later, and the session cannot
/// continue.
pub open spec fn overflows<F>(w: WorkerView) -> Move<F> {
    Move {
        next: WorkerView { stage: Stage::Full, ..w },
        says: seq![EventView::ContextFull],
        does: ActionView::Receive,
    }
}

/// The text of a message's turn.
pub open spec fn turn_text(msg: WorkerMsg) -> Seq<char> {
    match msg {
        WorkerMsg::UserTurn(text) => prompt::user_turn_text(text@),
        WorkerMsg::ToolResults(results) => prompt::response_turn_text(results@),
    }
}

/// Whether a turn of `tokens` fits with room to spare for the answer.
pub open spec fn fits(tokens: usize, remaining: usize) -> bool {
    remaining >= tokens + MIN_REMAINING_CONTEXT
}

/// The check before each token. A cancelled turn is closed and its tool calls are dropped;
/// one that has said enough, or has little context left, is closed.
pub open spec fn checked<F>(w: WorkerView, cancelled: bool, remaining: usize) -> Move<F> {
    if cancelled {
        Move {
            next: WorkerView {
                stage: Stage::Closing,
                turn: TurnView { calls: seq![], ..w.turn },
                ..w
            },
            says: seq![],
            does: ActionView::Close(w.marks.im_end),
        }
    } else if w.turn.generated >= MAX_NEW_TOKENS || remaining < MIN_REMAINING_CONTEXT {
        silently(w, Stage::Closing, ActionView::Close(w.marks.im_end))
    } else {
        silently(w, Stage::Sample, ActionView::NextToken)
    }
}

/// What a finished tool-call body adds: a call, or a word about what is wrong with it.
pub open spec fn call_closed<F>(turn: TurnView) -> (TurnView, Seq<EventView<F>>) {
    let open = TurnView { in_tool_call: false, ..turn };
    match tool_call::parse_call(turn.body) {
        Ok(call) => (TurnView { calls: turn.calls.push(call), ..open }, seq![]),
        Err(error) => (
            open,
            seq![EventView::Delta("[bad tool call: "@ + error + "]"@)],
        ),
    }
}

/// A sampled token. The four marks steer; anything else goes to the decoder.
pub open spec fn sampled<F>(w: WorkerView, token: u32) -> Move<F> {
    let turn = TurnView { generated: w.turn.generated + 1, ..w.turn };
    if w.marks.tool_call_open == Some(token) {
        let turn = TurnView { in_tool_call: true, body: seq![], ..turn };
        silently(WorkerView { turn, ..w }, Stage::Check, ActionView::Check)
    } else if w.marks.tool_call_close == Some(token) {
        let (turn, says) = if turn.in_tool_call {
            call_closed(turn)
        } else {
            (turn, seq![])
        };
        Move { next: WorkerView { stage: Stage::Check, turn, ..w }, says, does: ActionView::Check }
    } else if w.marks.think_open == Some(token) {
        let turn = TurnView { in_think: true, ..turn };
        silently(WorkerView { turn, ..w }, Stage::Check, ActionView::Check)
    } else if w.marks.think_close == Some(token) {
        let turn = TurnView { in_think: false, ..turn };
        silently(WorkerView { turn, ..w }, Stage::Check, ActionView::Check)
    } else {
        silently(WorkerView { turn, ..w }, Stage::Decode, ActionView::Decode(token))
    }
}

/// Decoded text: kept inside a tool call, dropped inside the thinking, said otherwise.
pub open spec fn decoded<F>(w: WorkerView, text: Option<Seq<char>>) -> Move<F> {
    let (turn, says) = match text {
        None => (w.turn, seq![]),
        Some(text) => if w.turn.in_tool_call {
            (TurnView { body: w.turn.body + text, ..w.turn }, seq![])
        } else if w.turn.in_think {
            (w.turn, seq![])
        } else {
            (w.turn, seq![EventView::Delta(text)])
        },
    };
    Move { next: WorkerView { stage: Stage::Check, turn, ..w }, says, does: ActionView::Check }
}

/// What is said when a turn is over: each tool call in order, and that the turn is done.
pub open spec fn turn_done<F>(
    turn: TurnView,
    secs: F,
    context_used: usize,
    context_max: usize,
) -> Seq<EventView<F>> {
    Seq::new(turn.calls.len(), |i: int| EventView::<F>::ToolCall(turn.calls[i])).push(
        EventView::TurnDone {
            tool_calls: turn.calls.len(),
            tokens: turn.generated,
            secs,
            context_used,
            context_max,
        },
    )
}

/// What `input` leads to, where `w` waits for it.
pub open spec fn moves<F>(w: WorkerView, input: Input<F>) -> Move<F> {
    match input {
        Input::Progress { phase, fraction } => Move {
            next: w,
            says: seq![EventView::Loading { phase: phase@, fraction }],
            does: ActionView::Load,
        },
        Input::Loaded(result) => match result {
            Ok(_) => silently(w, Stage::PrefixTokens, ActionView::Tokenize(w.prefix)),
            Err(error) => fails(w, "could not load "@ + w.model + ": "@ + error@),
        },
        Input::PrefixTokenized(result) => match result {
            Ok(tokens) => silently(w, Stage::PrefixFill { tokens }, ActionView::Append),
            Err(error) => fails(w, "tokenize: "@ + error@),
        },
        Input::PrefixAppended { result, marks, secs } => match result {
            Ok(_) => Move {
                next: WorkerView { stage: Stage::Idle, marks, ..w },
                says: seq![EventView::Ready { prefill_tokens: w.stage->PrefixFill_tokens, secs }],
                does: ActionView::Receive,
            },
            Err(error) => fails(w, "prefill: "@ + error@),
        },
        Input::Message(msg) => if w.stage is Full {
            overflows(w)
        } else {
            silently(w, Stage::TurnTokens, ActionView::Tokenize(turn_text(msg)))
        },
        Input::TurnTokenized { tokens, remaining } => match tokens {
            None => silently(w, Stage::Idle, ActionView::Receive),
            Some(tokens) => if fits(tokens, remaining) {
                silently(w, Stage::TurnFill, ActionView::Append)
            } else {
                overflows(w)
            },
        },
        Input::TurnAppended(appended) => if appended {
            silently(WorkerView { turn: fresh_turn(), ..w }, Stage::Check, ActionView::Check)
        } else {
            overflows(w)
        },
        Input::Checked { cancelled, remaining } => checked(w, cancelled, remaining),
        Input::Token(token) => match token {
            None => silently(w, Stage::Closing, ActionView::Close(None)),
            Some(token) => sampled(w, token),
        },
        Input::Text(text) => decoded(
            w,
            match text {
                None => None,
                Some(text) => Some(text@),
            },
        ),
        Input::Closed { secs, context_used, context_max } => Move {
            next: WorkerView { stage: Stage::Idle, ..w },
            says: turn_done(w.turn, secs, context_used, context_max),
            does: ActionView::Receive,
        },
    }
}

impl WorkerView {
    /// No turn says more than its share.
    pub open spec fn wf(self) -> bool {
        &&& self.turn.generated <= MAX_NEW_TOKENS
        &&& self.stage is Sample ==> self.turn.generated < MAX_NEW_TOKENS
    }
}

// ---------------------------------------------------------------- the worker

impl Turn {
    fn new() -> (r: Self)
        ensures
            r@ == fresh_turn(),
    {
        let r = Turn {
            generated: 0,
            in_tool_call: false,
            in_think: false,
            tool_body: String::new(),
            tool_calls: Vec::new(),
        };
        assert(calls_view(r.tool_calls@) =~= seq![]);
        r
    }
}

/// Three texts in a row.
fn joined(a: &str, b: &str, c: &str) -> (r: String)
    ensures
        r@ == a@ + b@ + c@,
{
    let mut r = String::new();
    r.append(a);
    r.append(b);
    r.append(c);
    r
}

/// Nothing is said.
fn quiet<F>(action: Action) -> (r: Output<F>)
    ensures
        events_view(r.events@) == Seq::<EventView<F>>::empty(),
        r.action == action,
{
    let r = Output { events: Vec::new(), action };
    assert(events_view(r.events@) =~= Seq::<EventView<F>>::empty());
    r
}

/// One thing is said.
fn saying<F>(event: ChatEvent<F>, action: Action) -> (r: Output<F>)
    ensures
        events_view(r.events@) == seq![event_view(event)],
        r.action == action,
{
    let mut events: Vec<ChatEvent<F>> = Vec::new();
    events.push(event);
    assert(events_view(events@) =~= seq![event_view(event)]);
    Output { events, action }
}

impl Worker {
    /// A worker about to load `model`, which is how the model is named in a message, with the
    /// system turn `prefix`.
    pub fn new(model: String, prefix: String) -> (r: Self)
        ensures
            r@.model == model@,
            r@.prefix == prefix@,
            r@.stage is Loading,
            r@.turn == fresh_turn(),
            r@.wf(),
    {
        Worker {
            model,
            prefix,
            marks: Marks {
                im_end: None,
                tool_call_open: None,
                tool_call_close: None,
                think_open: None,
                think_close: None,
            },
            stage: Stage::Loading,
            turn: Turn::new(),
        }
    }

    /// What the worker waits for.
    pub fn stage(&self) -> (r: Stage)
        ensures
            r == self@.stage,
    {
        self.stage
    }

    /// Whether the worker waits for `input`.
    pub fn awaits<F>(&self, input: &Input<F>) -> (r: bool)
        ensures
            r == awaits(self@.stage, *input),
    {
        match (input, self.stage) {
            (Input::Progress { .. }, Stage::Loading) => true,
            (Input::Loaded(_), Stage::Loading) => true,
            (Input::PrefixTokenized(_), Stage::PrefixTokens) => true,
            (Input::PrefixAppended { .. }, Stage::PrefixFill { .. }) => true,
            (Input::Message(_), Stage::Idle) => true,
            (Input::Message(_), Stage::Full) => true,
            (Input::TurnTokenized { .. }, Stage::TurnTokens) => true,
            (Input::TurnAppended(_), Stage::TurnFill) => true,
            (Input::Checked { .. }, Stage::Check) => true,
            (Input::Token(_), Stage::Sample) => true,
            (Input::Text(_), Stage::Decode) => true,
            (Input::Closed { .. }, Stage::Closing) => true,
            _ => false,
        }
    }

    /// Take `input`: the events to publish, and the next thing to do.
    pub fn step<F>(&mut self, input: Input<F>) -> (r: Output<F>)
        requires
            old(self)@.wf(),
            awaits(old(self)@.stage, input),
        ensures
            final(self)@ == moves(old(self)@, input).next,
            events_view(r.events@) == moves(old(self)@, input).says,
            action_view(r.action) == moves(old(self)@, input).does,
            final(self)@.wf(),
    {
        match input {
            Input::Progress { phase, fraction } => saying(
                ChatEvent::Loading { phase, fraction },
                Action::Load,
            ),
            Input::Loaded(result) => match result {
                Ok(_) => {
                    self.stage = Stage::PrefixTokens;
                    quiet(Action::Tokenize(self.prefix.clone()))
                },
                Err(error) => {
                    let mut text: String = joined("could not load ", self.model.as_str(), ": ");
                    text.append(error.as_str());
                    self.fail(text)
                },
            },
            Input::PrefixTokenized(result) => match result {
                Ok(tokens) => {
                    self.stage = Stage::PrefixFill { tokens };
                    quiet(Action::Append)
                },
                Err(error) => {
                    let mut text: String = "tokenize: ".to_owned();
                    text.append(error.as_str());
                    self.fail(text)
                },
            },
            Input::PrefixAppended { result, marks, secs } => match result {
                Ok(_) => {
                    let prefill_tokens: usize = match self.stage {
                        Stage::PrefixFill { tokens } => tokens,
                        _ => 0,
                    };
                    self.marks = marks;
                    self.stage = Stage::Idle;
                    saying(ChatEvent::Ready { prefill_tokens, secs }, Action::Receive)
                },
                Err(error) => {
                    let mut text: String = "prefill: ".to_owned();
                    text.append(error.as_str());
                    self.fail(text)
                },
            },
            Input::Message(msg) => {
                if let Stage::Full = self.stage {
                    return self.overflow();
                }
                let text = match msg {
                    WorkerMsg::UserTurn(text) => prompt::user_turn(text.as_str()),
                    WorkerMsg::ToolResults(results) => prompt::tool_response_turn(
                        results.as_slice(),
                    ),
                };
                self.stage = Stage::TurnTokens;
                quiet(Action::Tokenize(text))
            },
            Input::TurnTokenized { tokens, remaining } => match tokens {
                None => {
                    self.stage = Stage::Idle;
                    quiet(Action::Receive)
                },
                Some(tokens) => {
                    if remaining >= MIN_REMAINING_CONTEXT && remaining - MIN_REMAINING_CONTEXT
                        >= tokens {
                        self.stage = Stage::TurnFill;
                        quiet(Action::Append)
                    } else {
                        self.overflow()
                    }
                },
            },
            Input::TurnAppended(appended) => {
                if appended {
                    self.turn = Turn::new();
                    self.stage = Stage::Check;
                    quiet(Action::Check)
                } else {
                    self.overflow()
                }
            },
            Input::Checked { cancelled, remaining } => {
                if cancelled {
                    self.turn.tool_calls.clear();
                    assert(calls_view(self.turn.tool_calls@) =~= seq![]);
                    self.stage = Stage::Closing;
                    quiet(Action::Close(self.marks.im_end))
                } else if self.turn.generated >= MAX_NEW_TOKENS || remaining
                    < MIN_REMAINING_CONTEXT {
                    self.stage = Stage::Closing;
                    quiet(Action::Close(self.marks.im_end))
                } else {
                    self.stage = Stage::Sample;
                    quiet(Action::NextToken)
                }
            },
            Input::Token(token) => match token {
                None => {
                    self.stage = Stage::Closing;
                    quiet(Action::Close(None))
                },
                Some(token) => self.take_token(token),
            },
            Input::Text(text) => self.take_text(text),
            Input::Closed { secs, context_used, context_max } => {
                self.stage = Stage::Idle;
                let events = self.turn_events(secs, context_used, context_max);
                Output { events, action: Action::Receive }
            },
        }
    }

    /// Say what went wrong, and be over.
    fn fail<F>(&mut self, text: String) -> (r: Output<F>)
        ensures
            final(self)@ == (WorkerView { stage: Stage::Dead, ..old(self)@ }),
            events_view(r.events@) == seq![EventView::<F>::Failed(text@)],
            r.action == Action::Stop,
    {
        self.stage = Stage::Dead;
        saying(ChatEvent::Failed(text), Action::Stop)
    }

    /// Say that the window is full, and give no message a turn any more.
    fn overflow<F>(&mut self) -> (r: Output<F>)
        ensures
            final(self)@ == (WorkerView { stage: Stage::Full, ..old(self)@ }),
            events_view(r.events@) == seq![EventView::<F>::ContextFull],
            r.action == Action::Receive,
    {
        self.stage = Stage::Full;
        saying(ChatEvent::ContextFull, Action::Receive)
    }

    fn take_token<F>(&mut self, token: u32) -> (r: Output<F>)
        requires
            old(self)@.wf(),
            old(self)@.stage is Sample,
        ensures
            final(self)@ == sampled::<F>(old(self)@, token).next,
            events_view(r.events@) == sampled::<F>(old(self)@, token).says,
            action_view(r.action) == sampled::<F>(old(self)@, token).does,
    {
        self.turn.generated = self.turn.generated + 1;
        if is_mark(self.marks.tool_call_open, token) {
            self.turn.in_tool_call = true;
            self.turn.tool_body = String::new();
            self.stage = Stage::Check;
            quiet(Action::Check)
        } else if is_mark(self.marks.tool_call_close, token) {
            self.stage = Stage::Check;
            if self.turn.in_tool_call {
                self.turn.in_tool_call = false;
                match tool_call::parse_tool_call(self.turn.tool_body.as_str()) {
                    Ok(call) => {
                        let ghost before = self.turn.tool_calls@;
                        self.turn.tool_calls.push(call);
                        assert(calls_view(self.turn.tool_calls@) =~= calls_view(before).push(
                            (call.0@, tool_call::args_view(call.1@)),
                        ));
                        quiet(Action::Check)
                    },
                    Err(error) => saying(
                        ChatEvent::Delta(joined("[bad tool call: ", error.as_str(), "]")),
                        Action::Check,
                    ),
                }
            } else {
                quiet(Action::Check)
            }
        } else if is_mark(self.marks.think_open, token) {
            self.turn.in_think = true;
            self.stage = Stage::Check;
            quiet(Action::Check)
        } else if is_mark(self.marks.think_close, token) {
            self.turn.in_think = false;
            self.stage = Stage::Check;
            quiet(Action::Check)
        } else {
            self.stage = Stage::Decode;
            quiet(Action::Decode(token))
        }
    }

    fn take_text<F>(&mut self, text: Option<String>) -> (r: Output<F>)
        requires
            old(self)@.stage is Decode,
        ensures
            ({
                let m = decoded::<F>(
                    old(self)@,
                    match text {
                        None => None,
                        Some(text) => Some(text@),
                    },
                );
                &&& final(self)@ == m.next
                &&& events_view(r.events@) == m.says
                &&& action_view(r.action) == m.does
            }),
    {
        self.stage = Stage::Check;
        match text {
            None => quiet(Action::Check),
            Some(text) => {
                if self.turn.in_tool_call {
                    self.turn.tool_body.append(text.as_str());
                    quiet(Action::Check)
                } else if self.turn.in_think {
                    quiet(Action::Check)
                } else {
                    saying(ChatEvent::Delta(text), Action::Check)
                }
            },
        }
    }

    /// Each tool call, and that the turn is done.
    fn turn_events<F>(&self, secs: F, context_used: usize, context_max: usize) -> (events: Vec<
        ChatEvent<F>,
    >)
        ensures
            events_view(events@) == turn_done(self@.turn, secs, context_used, context_max),
    {
        let mut events: Vec<ChatEvent<F>> = Vec::new();
        let ghost calls = self@.turn.calls;
        let n = self.turn.tool_calls.len();
        let mut i: usize = 0;
        while i < n
            invariant
                n == self.turn.tool_calls@.len(),
                calls == calls_view(self.turn.tool_calls@),
                i <= n,
                events@.len() == i,
                forall|j: int| 0 <= j < i ==> event_view(#[trigger] events@[j])
                    == EventView::<F>::ToolCall(calls[j]),
            decreases n - i,
        {
            let call = &self.turn.tool_calls[i];
            let args = tool_call::copy_args(&call.1);
            events.push(ChatEvent::ToolCall { name: call.0.clone(), args });
            i += 1;
        }
        events.push(
            ChatEvent::TurnDone {
                tool_calls: n,
                tokens: self.turn.generated,
                secs,
                context_used,
                context_max,
            },
        );
        assert(events_view(events@) =~= turn_done(
            self@.turn,
            secs,
            context_used,
            context_max,
        ));
        events
    }
}

/// Whether `token` is the mark.
fn is_mark(mark: Option<u32>, token: u32) -> (r: bool)
    ensures
        r == (mark == Some(token)),
{
    match mark {
        Some(id) => id == token,
        None => false,
    }
}

// --------------------------------------------------------------------- laws

/// Whether every input of a run is waited for when it comes.
pub open spec fn is_run<F>(w: WorkerView, inputs: Seq<Input<F>>) -> bool
    decreases inputs.len(),
{
    inputs.len() > 0 ==> awaits(w.stage, inputs[0]) && is_run(
        moves(w, inputs[0]).next,
        inputs.skip(1),
    )
}

/// Everything that is said over a run.
pub open spec fn run_says<F>(w: WorkerView, inputs: Seq<Input<F>>) -> Seq<EventView<F>>
    decreases inputs.len(),
{
    if inputs.len() == 0 {
        seq![]
    } else {
        moves(w, inputs[0]).says + run_says(moves(w, inputs[0]).next, inputs.skip(1))
    }
}

/// How many tool calls are among `events`.
pub open spec fn calls_made<F>(events: Seq<EventView<F>>) -> nat
    decreases events.len(),
{
    if events.len() == 0 {
        0
    } else {
        calls_made(events.drop_last()) + (if events.last() is ToolCall { 1nat } else { 0 })
    }
}

/// How many results the finished turns among `events` ask for.
pub open spec fn results_owed<F>(events: Seq<EventView<F>>) -> nat
    decreases events.len(),
{
    if events.len() == 0 {
        0
    } else {
        results_owed(events.drop_last()) + (match events.last() {
            EventView::TurnDone { tool_calls, .. } => tool_calls,
            _ => 0,
        })
    }
}

/// Over any run the app owes exactly one result per tool call: the turns that are done ask
/// for as many results as there were calls.
pub proof fn one_result_per_call<F>(w: WorkerView, inputs: Seq<Input<F>>)
    requires
        is_run(w, inputs),
    ensures
        calls_made(run_says(w, inputs)) == results_owed(run_says(w, inputs)),
    decreases inputs.len(),
{
    if inputs.len() > 0 {
        let m = moves(w, inputs[0]);
        let rest = run_says(m.next, inputs.skip(1));
        one_result_per_call(m.next, inputs.skip(1));
        lemma_counts_add(m.says, rest);
        if let Input::Closed { secs, context_used, context_max } = inputs[0] {
            let calls = Seq::new(
                w.turn.calls.len(),
                |i: int| EventView::<F>::ToolCall(w.turn.calls[i]),
            );
            assert(m.says.drop_last() =~= calls);
            lemma_calls_only(calls);
        } else {
            lemma_short_counts(m.says);
        }
    }
}

proof fn lemma_counts_add<F>(a: Seq<EventView<F>>, b: Seq<EventView<F>>)
    ensures
        calls_made(a + b) == calls_made(a) + calls_made(b),
        results_owed(a + b) == results_owed(a) + results_owed(b),
    decreases b.len(),
{
    if b.len() == 0 {
        assert(a + b =~= a);
    } else {
        assert((a + b).drop_last() =~= a + b.drop_last());
        lemma_counts_add(a, b.drop_last());
    }
}

proof fn lemma_calls_only<F>(events: Seq<EventView<F>>)
    requires
        forall|i: int| 0 <= i < events.len() ==> #[trigger] events[i] is ToolCall,
    ensures
        calls_made(events) == events.len(),
        results_owed(events) == 0,
    decreases events.len(),
{
    if events.len() > 0 {
        lemma_calls_only(events.drop_last());
    }
}

proof fn lemma_short_counts<F>(events: Seq<EventView<F>>)
    requires
        events.len() <= 1,
        forall|i: int|
            0 <= i < events.len() ==> !(#[trigger] events[i] is ToolCall) && !(events[i] is TurnDone),
    ensures
        calls_made(events) == 0,
        results_owed(events) == 0,
{
    if events.len() == 1 {
        assert(events.drop_last() =~= Seq::<EventView<F>>::empty());
        assert(calls_made(events.drop_last()) == 0);
        assert(results_owed(events.drop_last()) == 0);
    }
}

/// After a failure nothing else ever arrives: whatever fails ends the worker, and a worker
/// that is over waits for nothing.
pub proof fn a_failure_is_final<F>(w: WorkerView, inputs: Seq<Input<F>>, i: int)
    requires
        inputs.len() > 0,
        is_run(w, inputs),
        0 <= i < moves(w, inputs[0]).says.len(),
        moves(w, inputs[0]).says[i] is Failed,
    ensures
        moves(w, inputs[0]).does is Stop,
        inputs.len() == 1,
{
    let m = moves(w, inputs[0]);
    assert(m.next.stage is Dead);
    if inputs.len() > 1 {
        assert(is_run(m.next, inputs.skip(1)));
        assert(awaits(m.next.stage, inputs.skip(1)[0]));
    }
}

/// The worker after the first `n` inputs of a run.
pub open spec fn after<F>(w: WorkerView, inputs: Seq<Input<F>>, n: int) -> WorkerView
    decreases n,
{
    if n <= 0 {
        w
    } else {
        moves(after(w, inputs, n - 1), inputs[n - 1]).next
    }
}

/// The tool calls of the turn that is running after the first `n` inputs: since the turn
/// began or was cancelled, the call of each body that was closed and could be read, in order.
pub open spec fn calls_read<F>(w: WorkerView, inputs: Seq<Input<F>>, n: int) -> Seq<
    tool_call::CallView,
>
    decreases n,
{
    if n <= 0 {
        w.turn.calls
    } else {
        let before = calls_read(w, inputs, n - 1);
        match inputs[n - 1] {
            Input::TurnAppended(appended) => if appended {
                seq![]
            } else {
                before
            },
            Input::Checked { cancelled, .. } => if cancelled {
                seq![]
            } else {
                before
            },
            Input::Token(token) => {
                let at = after(w, inputs, n - 1);
                if token is Some && closes_a_call(at, token->0) {
                    match tool_call::parse_call(body_read(w, inputs, n - 1)) {
                        Ok(call) => before.push(call),
                        Err(_) => before,
                    }
                } else {
                    before
                }
            },
            _ => before,
        }
    }
}

/// The body of the tool call that is being written after the first `n` inputs: what was
/// decoded inside of a call since the last one was opened.
pub open spec fn body_read<F>(w: WorkerView, inputs: Seq<Input<F>>, n: int) -> Seq<char>
    decreases n,
{
    if n <= 0 {
        w.turn.body
    } else {
        let before = body_read(w, inputs, n - 1);
        let at = after(w, inputs, n - 1);
        match inputs[n - 1] {
            Input::TurnAppended(appended) => if appended {
                seq![]
            } else {
                before
            },
            Input::Token(token) => if token is Some && at.marks.tool_call_open == token {
                seq![]
            } else {
                before
            },
            Input::Text(text) => match text {
                Some(text) => if at.turn.in_tool_call {
                    before + text@
                } else {
                    before
                },
                None => before,
            },
            _ => before,
        }
    }
}

/// Whether the token is the mark that closes the tool call being written.
pub open spec fn closes_a_call(w: WorkerView, token: u32) -> bool {
    &&& w.turn.in_tool_call
    &&& w.marks.tool_call_close == Some(token)
    &&& w.marks.tool_call_open != Some(token)
}

/// What a turn asks for is what the model wrote: when a turn is closed, the calls that are
/// said are those of its bodies that were closed and could be read, each once and in order,
/// and then that the turn is done, with as many calls. Nothing else says a call or that a
/// turn is done.
pub proof fn a_turn_says_the_calls_it_read<F>(w: WorkerView, inputs: Seq<Input<F>>, n: int)
    requires
        is_run(w, inputs),
        0 <= n < inputs.len(),
    ensures
        ({
            let says = moves(after(w, inputs, n), inputs[n]).says;
            let calls = calls_read(w, inputs, n);
            match inputs[n] {
                Input::Closed { secs, context_used, context_max } => {
                    &&& says.len() == calls.len() + 1
                    &&& forall|i: int|
                        0 <= i < calls.len() ==> #[trigger] says[i] == EventView::<F>::ToolCall(
                            calls[i],
                        )
                    &&& says.last() == EventView::TurnDone {
                        tool_calls: calls.len(),
                        tokens: after(w, inputs, n).turn.generated,
                        secs,
                        context_used,
                        context_max,
                    }
                },
                _ => forall|i: int|
                    0 <= i < says.len() ==> !(#[trigger] says[i] is ToolCall) && !(
                    says[i] is TurnDone),
            }
        }),
{
    lemma_calls_read(w, inputs, n);
}

proof fn lemma_calls_read<F>(w: WorkerView, inputs: Seq<Input<F>>, n: int)
    requires
        0 <= n <= inputs.len(),
        is_run(w, inputs),
    ensures
        after(w, inputs, n).turn.calls == calls_read(w, inputs, n),
        after(w, inputs, n).turn.body == body_read(w, inputs, n),
    decreases n,
{
    if n > 0 {
        lemma_calls_read(w, inputs, n - 1);
        lemma_run_waits(w, inputs, n - 1);
    }
}

/// Whether each end of a turn stands right behind the calls that it counts, and behind no
/// more of them.
pub open spec fn counted<F>(events: Seq<EventView<F>>) -> bool {
    forall|k: int|
        0 <= k < events.len() ==> (#[trigger] events[k] matches EventView::TurnDone {
            tool_calls,
            ..
        } ==> {
            &&& tool_calls <= k
            &&& forall|j: int| k - tool_calls <= j < k ==> #[trigger] events[j] is ToolCall
            &&& tool_calls < k ==> !(events[k - tool_calls - 1] is ToolCall)
        })
}

/// One result per call, turn by turn: over any run, before each end of a turn stand exactly
/// as many calls as it says, and none of an earlier turn is left over.
pub proof fn one_result_per_call_in_each_turn<F>(w: WorkerView, inputs: Seq<Input<F>>)
    requires
        is_run(w, inputs),
    ensures
        counted(run_says(w, inputs)),
        run_says(w, inputs).len() > 0 ==> !(run_says(w, inputs).last() is ToolCall),
    decreases inputs.len(),
{
    if inputs.len() > 0 {
        let m = moves(w, inputs[0]);
        let rest = run_says(m.next, inputs.skip(1));
        one_result_per_call_in_each_turn(m.next, inputs.skip(1));
        lemma_move_counts(w, inputs[0]);
        lemma_counted_add(m.says, rest);
    }
}

proof fn lemma_move_counts<F>(w: WorkerView, input: Input<F>)
    requires
        awaits(w.stage, input),
    ensures
        counted(moves(w, input).says),
        moves(w, input).says.len() > 0 ==> !(moves(w, input).says.last() is ToolCall),
{
    let says = moves(w, input).says;
    if let Input::Closed { .. } = input {
        let n = w.turn.calls.len();
        assert(forall|j: int| 0 <= j < n ==> #[trigger] says[j] is ToolCall);
        assert(says[n as int] is TurnDone);
    } else {
        assert(forall|j: int| 0 <= j < says.len() ==> !(#[trigger] says[j] is TurnDone));
    }
}

proof fn lemma_counted_add<F>(a: Seq<EventView<F>>, b: Seq<EventView<F>>)
    requires
        counted(a),
        counted(b),
        a.len() > 0 ==> !(a.last() is ToolCall),
        b.len() > 0 ==> !(b.last() is ToolCall),
    ensures
        counted(a + b),
        (a + b).len() > 0 ==> !((a + b).last() is ToolCall),
{
    let all = a + b;
    let n = a.len() as int;
    assert forall|k: int| 0 <= k < all.len() implies (#[trigger] all[k] matches EventView::TurnDone {
        tool_calls,
        ..
    } ==> {
        &&& tool_calls <= k
        &&& forall|j: int| k - tool_calls <= j < k ==> #[trigger] all[j] is ToolCall
        &&& tool_calls < k ==> !(all[k - tool_calls - 1] is ToolCall)
    }) by {
        if let EventView::TurnDone { tool_calls, .. } = all[k] {
            if k < n {
                assert(a[k] == all[k]);
                assert forall|j: int| k - tool_calls <= j < k implies #[trigger] all[j] is ToolCall by {
                    assert(a[j] is ToolCall);
                }
            } else {
                assert(b[k - n] == all[k]);
                assert forall|j: int| k - tool_calls <= j < k implies #[trigger] all[j] is ToolCall by {
                    assert(b[j - n] is ToolCall);
                }
                if tool_calls < k {
                    if tool_calls < k - n {
                        assert(all[k - tool_calls - 1] == b[k - n - tool_calls - 1]);
                    } else {
                        assert(all[k - tool_calls - 1] == a.last());
                    }
                }
            }
        }
    }
}

/// A full window ends the session: once it is said in a run, nothing is appended or sampled
/// any more, and all that is ever said is that the window is full.
pub proof fn a_full_window_ends_the_session<F>(
    w: WorkerView,
    inputs: Seq<Input<F>>,
    i: int,
    j: int,
)
    requires
        is_run(w, inputs),
        0 <= i < j < inputs.len(),
        moves(after(w, inputs, i), inputs[i]).says.contains(EventView::<F>::ContextFull),
    ensures
        ({
            let later = moves(after(w, inputs, j), inputs[j]);
            &&& later.does is Receive
            &&& later.says == seq![EventView::<F>::ContextFull]
            &&& later.next.stage is Full
        }),
    decreases j,
{
    lemma_run_waits(w, inputs, i);
    lemma_run_waits(w, inputs, j);
    if j == i + 1 {
        lemma_full_is_said_when_full(after(w, inputs, i), inputs[i]);
    } else {
        a_full_window_ends_the_session(w, inputs, i, j - 1);
    }
}

/// Each input of a run is waited for by the worker that the inputs before it left.
proof fn lemma_run_waits<F>(w: WorkerView, inputs: Seq<Input<F>>, n: int)
    requires
        is_run(w, inputs),
        0 <= n < inputs.len(),
    ensures
        awaits(after(w, inputs, n).stage, inputs[n]),
    decreases n,
{
    if n > 0 {
        let next = moves(w, inputs[0]).next;
        lemma_run_waits(next, inputs.skip(1), n - 1);
        lemma_after_first(w, inputs, n);
    }
}

/// `after`, from the front.
proof fn lemma_after_first<F>(w: WorkerView, inputs: Seq<Input<F>>, n: int)
    requires
        0 < n <= inputs.len(),
    ensures
        after(w, inputs, n) == after(moves(w, inputs[0]).next, inputs.skip(1), n - 1),
    decreases n,
{
    if n > 1 {
        lemma_after_first(w, inputs, n - 1);
        assert(inputs.skip(1)[n - 2] == inputs[n - 1]);
    } else {
        assert(after(w, inputs, 0) == w);
    }
}

/// Whatever says that the window is full leaves the worker full.
proof fn lemma_full_is_said_when_full<F>(w: WorkerView, input: Input<F>)
    requires
        awaits(w.stage, input),
        moves(w, input).says.contains(EventView::<F>::ContextFull),
    ensures
        moves(w, input).next.stage is Full,
{
    let says = moves(w, input).says;
    let k = choose|k: int| 0 <= k < says.len() && says[k] == EventView::<F>::ContextFull;
    assert(says[k] is ContextFull);
}

/// An interrupted question does not keep acting: a cancelled turn is closed at the next
/// check, with the mark that keeps the context valid, and all that is said after it is that
/// the turn is done, with no tool to run.
pub proof fn a_cancelled_turn_runs_no_tool<F>(
    w: WorkerView,
    remaining: usize,
    secs: F,
    context_used: usize,
    context_max: usize,
)
    requires
        w.stage is Check,
    ensures
        ({
            let cancelled = moves(w, Input::<F>::Checked { cancelled: true, remaining });
            let closed = Input::<F>::Closed { secs, context_used, context_max };
            &&& cancelled.says.len() == 0
            &&& cancelled.does == ActionView::Close(w.marks.im_end)
            &&& forall|input: Input<F>|
                #[trigger] awaits(cancelled.next.stage, input) ==> input is Closed
            &&& moves(cancelled.next, closed).says == seq![
                EventView::TurnDone {
                    tool_calls: 0,
                    tokens: w.turn.generated,
                    secs,
                    context_used,
                    context_max,
                },
            ]
        }),
{
    let cancelled = moves(w, Input::<F>::Checked { cancelled: true, remaining });
    let closed = Input::<F>::Closed { secs, context_used, context_max };
    assert(moves(cancelled.next, closed).says =~= seq![
        EventView::TurnDone {
            tool_calls: 0,
            tokens: w.turn.generated,
            secs,
            context_used,
            context_max,
        },
    ]);
}

/// A token is asked for only while the turn has said less than its share, enough context is
/// left for the next turn to fit, and nobody cancelled.
pub proof fn sampling_is_bounded<F>(w: WorkerView, input: Input<F>)
    requires
        awaits(w.stage, input),
        moves(w, input).does is NextToken,
    ensures
        w.turn.generated < MAX_NEW_TOKENS,
        input matches Input::Checked { cancelled, remaining } && !cancelled && remaining
            >= MIN_REMAINING_CONTEXT,
{
}

/// What is said of an answer is what was decoded outside of the thinking and outside of a
/// tool call. The one other thing said in its place is what is wrong with a tool call.
pub proof fn only_the_answer_is_said<F>(w: WorkerView, input: Input<F>, i: int)
    requires
        awaits(w.stage, input),
        0 <= i < moves(w, input).says.len(),
        moves(w, input).says[i] is Delta,
    ensures
        match input {
            Input::Text(text) => {
                &&& !w.turn.in_think
                &&& !w.turn.in_tool_call
                &&& text matches Some(text) && moves(w, input).says[i] == EventView::<F>::Delta(
                    text@,
                )
            },
            Input::Token(token) => {
                &&& token is Some
                &&& token == w.marks.tool_call_close
                &&& w.turn.in_tool_call
                &&& tool_call::parse_call(w.turn.body) is Err
            },
            _ => false,
        },
{
}

/// A turn is refused exactly when it does not leave the room the next answer needs, and a
/// refused turn is not appended: the window is full.
pub proof fn a_turn_that_does_not_fit_is_refused<F>(w: WorkerView, tokens: usize, remaining: usize)
    requires
        w.stage is TurnTokens,
    ensures
        ({
            let m = moves(w, Input::<F>::TurnTokenized { tokens: Some(tokens), remaining });
            &&& m.says.contains(EventView::<F>::ContextFull) <==> remaining < tokens
                + MIN_REMAINING_CONTEXT
            &&& m.does is Append <==> remaining >= tokens + MIN_REMAINING_CONTEXT
            &&& m.next.stage is Full <==> remaining < tokens + MIN_REMAINING_CONTEXT
        }),
{
    assert(seq![EventView::<F>::ContextFull][0] == EventView::<F>::ContextFull);
}

} // verus!
