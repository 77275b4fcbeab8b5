//! The hub object every app constructs: AI compute and workload management, in-process.
//!
//! A hub opens no listener and announces nothing: there is no socket in it. It holds no
//! transcript either. A session streams events, and the conversation lives with the app.

use vstd::prelude::*;
use vstd::string::*;
use crate::prompt;
use crate::prompt::ToolSpec;
use crate::text;
use crate::worker;
use crate::worker::Worker;

verus! {

/// The name of a pipe: a domain, a dot, and what it is within the domain.
pub struct PipeId {
    name: String,
}

/// The domain of a pipe's name: what stands before the first dot.
pub open spec fn domain_of(name: Seq<char>) -> Seq<char> {
    match text::stop_from(name, seq!['.'], 0) {
        Some(i) => name.take(i),
        None => name,
    }
}

impl View for PipeId {
    type V = Seq<char>;

    closed spec fn view(&self) -> Seq<char> {
        self.name@
    }
}

impl PipeId {
    /// The pipe of this name.
    pub fn new(name: &str) -> (r: PipeId)
        ensures
            r@ == name@,
    {
        PipeId { name: name.to_owned() }
    }

    /// The pipe's name.
    pub fn name(&self) -> (r: &str)
        ensures
            r@ == self@,
    {
        self.name.as_str()
    }

    /// The domain of the pipe.
    pub fn domain(&self) -> (r: String)
        ensures
            r@ == domain_of(self@),
    {
        let chars: Vec<char> = text::chars_of(self.name.as_str());
        let dots: Vec<char> = vec!['.'];
        assert(dots@ =~= seq!['.']);
        proof {
            text::lemma_stop_is_first(self@, seq!['.'], 0);
        }
        let end = match text::find_stop(&chars, &dots, 0) {
            Some(i) => i,
            None => chars.len(),
        };
        let r = text::string_of(&chars, 0, end);
        assert(r@ =~= domain_of(self@));
        r
    }
}

/// The engine's limits, and the weights to load.
pub struct LocalLlmConfig {
    /// How the weights are found, and how they are named in a message.
    pub model: String,
    pub max_context: u32,
}

/// Configuration for a local-model chat session. `W` is how a sleeping consumer is woken.
pub struct ChatConfig<W> {
    /// The engine's limits, and the weights to load.
    pub llm: LocalLlmConfig,
    /// The caller's system instructions.
    pub system_prompt: String,
    /// The caller's tool pack, declared to the model in its own template.
    pub tools: Vec<ToolSpec>,
    /// Wake-up for sleeping consumers.
    pub wake: Option<W>,
}

/// A session on the local model, about to load: what its worker thread takes over.
pub struct LocalLlmSession<W> {
    pub llm: LocalLlmConfig,
    pub worker: Worker,
    pub wake: Option<W>,
}

impl<W> LocalLlmSession<W> {
    /// A session that loads `llm` and then takes in the system turn `prefix`.
    pub fn start(llm: LocalLlmConfig, prefix: String, wake: Option<W>) -> (r: LocalLlmSession<W>)
        ensures
            r.llm == llm,
            r.wake == wake,
            r.worker@.stage is Loading,
            r.worker@.model == llm.model@,
            r.worker@.prefix == prefix@,
            r.worker@.turn == worker::fresh_turn(),
            r.worker@.wf(),
    {
        let worker = Worker::new(llm.model.clone(), prefix);
        LocalLlmSession { llm, worker, wake }
    }
}

/// One in-process hub. Cheap to construct; it owns no thread until a session actually
/// starts.
pub struct AiHub {
    _private: (),
}

impl AiHub {
    /// A hub's one part is a unit, which holds nothing.
    pub closed spec fn holds_nothing(self) -> bool {
        self._private == ()
    }

    /// The default for every app: fully in-process.
    pub fn in_process() -> (r: AiHub)
        ensures
            r.holds_nothing(),
    {
        AiHub { _private: () }
    }

    /// Start a chat on the in-process local model. The session that comes back waits for its
    /// weights to be loaded; nothing blocks.
    pub fn start_local_chat<W>(&self, config: ChatConfig<W>) -> (r: LocalLlmSession<W>)
        ensures
            r.llm == config.llm,
            r.wake == config.wake,
            r.worker@.stage is Loading,
            r.worker@.model == config.llm.model@,
            r.worker@.prefix == prompt::prefix_text(config.system_prompt@, config.tools@),
            r.worker@.turn == worker::fresh_turn(),
            r.worker@.wf(),
    {
        let prefix = prompt::build_prefix(
            config.system_prompt.as_str(),
            config.tools.as_slice(),
        );
        LocalLlmSession::start(config.llm, prefix, config.wake)
    }

    /// The pipe that the in-process local model publishes, on this machine only.
    pub fn local_llm_pipe() -> (r: PipeId)
        ensures
            r@ == "llm.local"@,
            domain_of(r@) == "llm"@,
    {
        let r = PipeId::new("llm.local");
        proof {
            reveal_strlit("llm.local");
            reveal_strlit("llm");
            text::lemma_stop_is_first(r@, seq!['.'], 0);
            assert(seq!['.'][0] == '.');
            assert(r@[3] == '.');
            assert(seq!['.'].contains(r@[3]));
            assert(r@.take(3) =~= "llm"@);
        }
        r
    }
}

/// A pipe's domain is what stands before the first dot of its name: it has no dot, and the name
/// is the domain alone or goes on with a dot.
pub proof fn a_domain_ends_at_the_first_dot(name: Seq<char>)
    ensures
        ({
            let domain = domain_of(name);
            &&& !domain.contains('.')
            &&& domain.len() <= name.len()
            &&& domain == name.take(domain.len() as int)
            &&& domain.len() < name.len() ==> name[domain.len() as int] == '.'
        }),
{
    let dots = seq!['.'];
    text::lemma_stop_is_first(name, dots, 0);
    assert(dots[0] == '.');
    let domain = domain_of(name);
    assert(domain =~= name.take(domain.len() as int));
    if domain.contains('.') {
        let k = choose|k: int| 0 <= k < domain.len() && domain[k] == '.';
        assert(name[k] == '.');
        assert(dots.contains(name[k]));
    }
}

} // verus!
