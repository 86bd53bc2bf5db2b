//! One request before it decodes: a job waiting for admission, then a prompt
//! run in bounded chunks.
use vstd::prelude::*;
use crate::generate::{find_out_of_vocab, first_bad, in_vocab, DecodeError, FinishReason, GenerationParams, Usage};

verus! {

/// What a caller is told in the end.
#[derive(Debug)]
pub struct Completion {
    pub finish: FinishReason,
    pub ids: Vec<usize>,
    pub text: String,
    pub usage: Usage,
}

/// An answer on its way to the caller that waits under `to`.
#[derive(Debug)]
pub struct Reply {
    pub to: u64,
    pub result: Result<Completion, DecodeError>,
    /// The whole sequence of a finished row whose KV lives in shared pages,
    /// for the prefix cache to take over before the pages go back.
    pub publish: Option<Vec<usize>>,
}

impl Reply {
    /// Nothing was generated: the request was cancelled.
    pub open spec fn is_cancelled(&self, to: u64, prompt_tokens: usize) -> bool {
        &&& self.to == to
        &&& self.publish is None
        &&& self.result matches Ok(c) && c.finish is Cancelled && c.ids@.len() == 0 && c.text@.len() == 0
            && c.usage == (Usage { prompt_tokens, completion_tokens: 0, total_tokens: prompt_tokens })
    }

    /// The prompt holds a token the model does not have.
    pub open spec fn is_out_of_vocab(&self, to: u64, tokens: Seq<usize>, vocab: usize) -> bool {
        &&& self.to == to
        &&& self.publish is None
        &&& self.result matches Err(DecodeError::TokenOutOfVocab { token, vocab_size }) && vocab_size == vocab
            && exists|i: int| first_bad(tokens, vocab, i) && tokens[i] == token
    }

    /// The answer to a request that was cancelled before it generated anything.
    pub fn cancelled(to: u64, prompt_tokens: usize) -> (r: Reply)
        ensures
            r.is_cancelled(to, prompt_tokens),
    {
        Reply {
            to,
            result: Ok(
                Completion {
                    finish: FinishReason::Cancelled,
                    ids: Vec::new(),
                    text: String::new(),
                    usage: Usage::new(prompt_tokens, 0),
                },
            ),
            publish: None,
        }
    }
}

/// A submitted request waiting for admission.
#[derive(Debug)]
pub struct Job {
    pub prompt_tokens: Vec<usize>,
    pub params: GenerationParams,
    pub eos_id: Option<usize>,
    /// Where the answer goes.
    pub reply: u64,
    /// The id a cancellation names this request by.
    pub abort: u64,
    /// KV blocks the request needs for its whole lifetime.
    pub blocks: usize,
}

/// One request's prefill as a resumable state machine: how far through the
/// prompt it is, and how far one step takes it.
#[derive(Debug)]
pub struct PrefillState {
    tokens: Vec<usize>,
    tokens_processed: usize,
    chunk_size: usize,
    paged: bool,
}

/// The tokens a prompt is run as. An empty one still needs a forward pass
/// for the logits its first token is sampled from, and runs token 0.
pub open spec fn run_as(prompt: Seq<usize>) -> Seq<usize> {
    if prompt.len() == 0 {
        seq![0usize]
    } else {
        prompt
    }
}

/// Where a step that starts at `from` ends.
pub open spec fn chunk_end(n: int, from: int, chunk: int) -> int {
    if from + chunk <= n {
        from + chunk
    } else {
        n
    }
}

impl PrefillState {
    /// The tokens to run.
    pub closed spec fn tokens(&self) -> Seq<usize> {
        self.tokens@
    }

    /// Tokens already through the model.
    pub closed spec fn processed(&self) -> int {
        self.tokens_processed as int
    }

    /// Tokens per step.
    pub closed spec fn chunk(&self) -> int {
        self.chunk_size as int
    }

    /// Whether the KV lives in a shared paged store.
    pub closed spec fn is_paged(&self) -> bool {
        self.paged
    }

    /// The prefill is somewhere in its prompt, and every step moves it.
    pub closed spec fn wf(&self) -> bool {
        &&& self.tokens@.len() > 0
        &&& self.tokens_processed <= self.tokens@.len()
        &&& self.chunk_size > 0
    }

    /// A sound prefill is somewhere in its prompt.
    pub proof fn lemma_in_bounds(&self)
        requires
            self.wf(),
        ensures
            0 <= self.processed() <= self.tokens().len(),
            self.chunk() > 0,
    {
    }

    /// A prefill that has not started.
    pub fn new(prompt_tokens: Vec<usize>, chunk_size: usize) -> (s: PrefillState)
        requires
            chunk_size > 0,
        ensures
            s.wf(),
            s.tokens() == run_as(prompt_tokens@),
            s.processed() == 0,
            s.chunk() == chunk_size,
            !s.is_paged(),
    {
        let mut tokens: Vec<usize> = prompt_tokens;
        if tokens.len() == 0 {
            tokens.push(0);
            assert(tokens@ =~= seq![0usize]);
        }
        PrefillState { tokens, tokens_processed: 0, chunk_size, paged: false }
    }

    /// A prefill that has not started, whose KV lives in a shared paged
    /// store with its pages already reserved.
    pub fn new_paged(prompt_tokens: Vec<usize>, chunk_size: usize) -> (s: PrefillState)
        requires
            chunk_size > 0,
        ensures
            s.wf(),
            s.tokens() == run_as(prompt_tokens@),
            s.processed() == 0,
            s.chunk() == chunk_size,
            s.is_paged(),
    {
        let mut s: PrefillState = PrefillState::new(prompt_tokens, chunk_size);
        s.paged = true;
        s
    }

    /// Hands a finished prefill over: where the first generated token goes,
    /// the tokens that were run, and whether the KV is paged.
    pub fn into_decode_start(self) -> (r: (usize, Vec<usize>, bool))
        requires
            self.wf(),
            self.processed() == self.tokens().len(),
        ensures
            r.0 == self.processed(),
            r.1@ == self.tokens(),
            r.2 == self.is_paged(),
    {
        (self.tokens_processed, self.tokens, self.paged)
    }

    /// Prompt tokens already through the model.
    pub fn tokens_processed(&self) -> (n: usize)
        ensures
            n == self.processed(),
    {
        self.tokens_processed
    }

    /// Prompt tokens still to run.
    pub fn tokens_remaining(&self) -> (n: usize)
        requires
            self.wf(),
        ensures
            n == self.tokens().len() - self.processed(),
    {
        self.tokens.len() - self.tokens_processed
    }

    /// Whether the whole prompt is through.
    pub fn is_done(&self) -> (r: bool)
        requires
            self.wf(),
        ensures
            r == (self.processed() == self.tokens().len()),
    {
        self.tokens_remaining() == 0
    }

    /// The token at position `pos`.
    pub fn token(&self, pos: usize) -> (t: usize)
        requires
            pos < self.tokens().len(),
        ensures
            t == self.tokens()[pos as int],
    {
        self.tokens[pos]
    }

    /// Advances by at most one chunk; true once the whole prompt is through,
    /// and again without effect after that.
    pub fn step_chunk(&mut self) -> (done: bool)
        requires
            old(self).wf(),
        ensures
            final(self).wf(),
            final(self).tokens() == old(self).tokens(),
            final(self).chunk() == old(self).chunk(),
            final(self).is_paged() == old(self).is_paged(),
            final(self).processed() == chunk_end(old(self).tokens().len() as int, old(self).processed(), old(self).chunk()),
            0 <= old(self).processed() <= final(self).processed() <= final(self).tokens().len(),
            done == (final(self).processed() == final(self).tokens().len()),
    {
        let left: usize = self.tokens.len() - self.tokens_processed;
        self.tokens_processed = if self.chunk_size <= left {
            self.tokens_processed + self.chunk_size
        } else {
            self.tokens.len()
        };
        self.is_done()
    }
}

/// The tokens that the remaining steps run, one after the other.
pub open spec fn tokens_run(tokens: Seq<usize>, from: int, chunk: int) -> Seq<usize>
    decreases tokens.len() - from,
{
    if 0 <= from < tokens.len() && chunk > 0 {
        let to = chunk_end(tokens.len() as int, from, chunk);
        tokens.subrange(from, to) + tokens_run(tokens, to, chunk)
    } else {
        Seq::empty()
    }
}

/// How many steps are left.
pub open spec fn steps_left(n: int, from: int, chunk: int) -> int
    decreases n - from,
{
    if 0 <= from < n && chunk > 0 {
        1 + steps_left(n, chunk_end(n, from, chunk), chunk)
    } else {
        0
    }
}

/// Splitting a prompt runs the same tokens at the same positions, in order
/// and each once, whatever the chunk size.
pub proof fn law_chunking_runs_the_whole_prompt(tokens: Seq<usize>, from: int, chunk: int)
    requires
        0 <= from <= tokens.len(),
        chunk > 0,
    ensures
        tokens_run(tokens, from, chunk) == tokens.subrange(from, tokens.len() as int),
    decreases tokens.len() - from,
{
    if from < tokens.len() {
        let to = chunk_end(tokens.len() as int, from, chunk);
        law_chunking_runs_the_whole_prompt(tokens, to, chunk);
        assert(tokens.subrange(from, to) + tokens.subrange(to, tokens.len() as int) =~= tokens.subrange(
            from,
            tokens.len() as int,
        ));
    } else {
        assert(tokens.subrange(from, from) =~= Seq::empty());
    }
}

/// A prompt of `n` tokens is through after one step per chunk, the last one
/// possibly partial.
pub proof fn law_prefill_takes_one_step_per_chunk(n: int, from: int, chunk: int)
    requires
        0 <= from <= n,
        chunk > 0,
    ensures
        (steps_left(n, from, chunk) - 1) * chunk < n - from <= steps_left(n, from, chunk) * chunk,
    decreases n - from,
{
    if from < n {
        let to = chunk_end(n, from, chunk);
        let rest = steps_left(n, to, chunk);
        law_prefill_takes_one_step_per_chunk(n, to, chunk);
        assert((rest - 1) * chunk == rest * chunk - chunk) by (nonlinear_arith);
        let all = steps_left(n, from, chunk);
        assert(all == 1 + rest);
        assert(all * chunk == rest * chunk + chunk && (all - 1) * chunk == rest * chunk) by (nonlinear_arith)
            requires
                all == 1 + rest,
        ;
        if to == n {
            assert(rest == 0);
            assert(rest * chunk == 0) by (nonlinear_arith)
                requires
                    rest == 0,
            ;
        }
    } else {
        let all = steps_left(n, from, chunk);
        assert(all == 0);
        assert((all - 1) * chunk < 0 && all * chunk == 0) by (nonlinear_arith)
            requires
                all == 0,
                chunk > 0,
        ;
    }
}

/// An accepted job whose prompt is still being prefilled.
#[derive(Debug)]
pub struct Prefill {
    pub state: PrefillState,
    /// The real prompt length, which is not the number of tokens run for an
    /// empty prompt.
    pub prompt_tokens: usize,
    pub params: GenerationParams,
    pub eos_id: Option<usize>,
    pub reply: u64,
    pub abort: u64,
    /// Blocks reserved at admission.
    pub blocks: usize,
}

impl Prefill {
    /// The prefill of a job that has just been accepted.
    pub open spec fn starts(&self, job: Job, chunk: usize, paged: bool) -> bool {
        &&& self.state.wf()
        &&& self.state.tokens() == run_as(job.prompt_tokens@)
        &&& self.state.processed() == 0
        &&& self.state.chunk() == chunk
        &&& self.state.is_paged() == paged
        &&& self.prompt_tokens == job.prompt_tokens@.len()
        &&& self.params == job.params
        &&& self.eos_id == job.eos_id
        &&& self.reply == job.reply
        &&& self.abort == job.abort
        &&& self.blocks == job.blocks
    }

    /// The prefill is sound and its prompt is the one it counts.
    pub open spec fn wf(&self) -> bool {
        &&& self.state.wf()
        &&& self.state.tokens().len() == if self.prompt_tokens == 0 { 1 } else { self.prompt_tokens as int }
    }
}

/// Validates a job and turns it into a waiting prefill. No model work
/// happens here. The error answers a prompt this model cannot accept.
pub fn accept(vocab_size: usize, job: Job, chunk_size: usize, paged: bool) -> (r: Result<Prefill, Reply>)
    requires
        chunk_size > 0,
    ensures
        r is Ok <==> in_vocab(job.prompt_tokens@, vocab_size),
        r matches Ok(p) ==> p.starts(job, chunk_size, paged) && p.wf(),
        r matches Err(e) ==> e.is_out_of_vocab(job.reply, job.prompt_tokens@, vocab_size),
{
    if let Some(token) = find_out_of_vocab(job.prompt_tokens.as_slice(), vocab_size) {
        return Err(Reply { to: job.reply, result: Err(DecodeError::TokenOutOfVocab { token, vocab_size }), publish: None });
    }
    let prompt_tokens: usize = job.prompt_tokens.len();
    let state: PrefillState = if paged {
        PrefillState::new_paged(job.prompt_tokens, chunk_size)
    } else {
        PrefillState::new(job.prompt_tokens, chunk_size)
    };
    Ok(
        Prefill {
            state,
            prompt_tokens,
            params: job.params,
            eos_id: job.eos_id,
            reply: job.reply,
            abort: job.abort,
            blocks: job.blocks,
        },
    )
}

/// A step takes a whole chunk or what is left of the prompt, whichever is
/// less.
pub proof fn law_a_step_takes_a_chunk_or_the_rest(n: int, from: int, chunk: int)
    requires
        0 <= from <= n,
        chunk > 0,
    ensures
        from <= chunk_end(n, from, chunk) <= n,
        chunk_end(n, from, chunk) - from <= chunk,
        chunk_end(n, from, chunk) - from < chunk ==> chunk_end(n, from, chunk) == n,
{
}

/// A prompt is run as it is; only an empty one is run as token 0.
pub proof fn law_a_prompt_is_run_as_it_is(prompt: Seq<usize>)
    ensures
        prompt.len() > 0 ==> run_as(prompt) == prompt,
        prompt.len() == 0 ==> run_as(prompt) == seq![0usize],
{
}

/// An accepted job keeps everything it came with: its prompt, its settings,
/// its end token, where its answer goes, what cancels it and its blocks.
pub proof fn law_a_prefill_is_its_job(p: Prefill, job: Job, chunk: usize, paged: bool)
    requires
        p.starts(job, chunk, paged),
    ensures
        job.prompt_tokens@.len() > 0 ==> p.state.tokens() == job.prompt_tokens@,
        job.prompt_tokens@.len() == 0 ==> p.state.tokens() == seq![0usize],
        p.state.processed() == 0,
        p.state.chunk() == chunk,
        p.state.is_paged() == paged,
        p.prompt_tokens == job.prompt_tokens@.len(),
        p.params == job.params,
        p.eos_id == job.eos_id,
        p.reply == job.reply,
        p.abort == job.abort,
        p.blocks == job.blocks,
{
}

/// A cancelled request is told so, with no tokens and no text, and is charged
/// its prompt.
pub proof fn law_a_cancelled_request_is_told_so(r: Reply, to: u64, prompt_tokens: usize)
    requires
        r.is_cancelled(to, prompt_tokens),
    ensures
        r.to == to,
        r.publish is None,
        r.result is Ok,
        ({
            let c = r.result->Ok_0;
            &&& c.finish == FinishReason::Cancelled
            &&& c.ids@ == Seq::<usize>::empty()
            &&& c.text@ == Seq::<char>::empty()
            &&& c.usage.prompt_tokens == prompt_tokens
            &&& c.usage.completion_tokens == 0
            &&& c.usage.total_tokens == prompt_tokens
        }),
{
    assert(r.result->Ok_0.ids@ =~= Seq::<usize>::empty());
    assert(r.result->Ok_0.text@ =~= Seq::<char>::empty());
}

/// A prompt with a foreign token is refused by that token: one of the
/// prompt's that is outside the vocabulary, with none before it.
pub proof fn law_a_foreign_prompt_is_told_the_token(r: Reply, to: u64, tokens: Seq<usize>, vocab: usize)
    requires
        r.is_out_of_vocab(to, tokens, vocab),
    ensures
        r.to == to,
        r.publish is None,
        exists|i: int|
            #![trigger tokens[i]]
            0 <= i < tokens.len() && tokens[i] >= vocab && (forall|k: int| 0 <= k < i ==> #[trigger] tokens[k] < vocab)
                && r.result == Err::<Completion, DecodeError>(
                DecodeError::TokenOutOfVocab { token: tokens[i], vocab_size: vocab },
            ),
{
    let token = r.result->Err_0->token;
    let i = choose|i: int| first_bad(tokens, vocab, i) && tokens[i] == token;
    assert(tokens[i] >= vocab);
}

/// A step runs a chunk, or what is left of the prompt: nothing is run twice,
/// nothing is skipped, and it is done once nothing is left.
pub proof fn law_a_step_leaves_less(s: &mut PrefillState, done: bool, before: usize, after: usize, ran: usize)
    requires
        old(s).wf(),
        call_ensures(PrefillState::step_chunk, (s,), done),
        call_ensures(PrefillState::tokens_remaining, (&*old(s),), before),
        call_ensures(PrefillState::tokens_remaining, (&*final(s),), after),
        call_ensures(PrefillState::tokens_processed, (&*final(s),), ran),
    ensures
        ran == old(s).processed() + (before - after),
        before - after == if before <= old(s).chunk() { before as int } else { old(s).chunk() },
        done <==> after == 0,
        final(s).tokens() == old(s).tokens(),
{
}

/// A prompt about to run has nothing behind it and all of itself before it;
/// an empty one is run as a single token.
pub proof fn law_a_prompt_starts_at_its_beginning(prompt: Vec<usize>, chunk: usize, s: PrefillState, t: PrefillState, n: usize)
    requires
        chunk > 0,
        call_ensures(PrefillState::new, (prompt, chunk), s),
        call_ensures(PrefillState::new_paged, (prompt, chunk), t),
        call_ensures(PrefillState::tokens_remaining, (&s,), n),
    ensures
        n == if prompt@.len() == 0 { 1int } else { prompt@.len() as int },
        prompt@.len() > 0 ==> s.tokens() == prompt@,
        t.tokens() == s.tokens(),
        s.processed() == 0 && t.processed() == 0,
        s.chunk() == chunk && t.chunk() == chunk,
        t.is_paged() && !s.is_paged(),
{
}

/// A job is accepted exactly when the model has all of its tokens, and keeps
/// its settings, its answer's address, its handle and its blocks.
pub proof fn law_a_job_is_accepted_as_it_is(
    vocab: usize,
    job: Job,
    chunk: usize,
    paged: bool,
    r: Result<Prefill, Reply>,
    i: int,
)
    requires
        call_ensures(accept, (vocab, job, chunk, paged), r),
        0 <= i < job.prompt_tokens@.len(),
    ensures
        job.prompt_tokens@[i] >= vocab ==> r is Err && r->Err_0.to == job.reply,
        (forall|k: int| 0 <= k < job.prompt_tokens@.len() ==> (#[trigger] job.prompt_tokens@[k]) < vocab) ==> r is Ok,
        r matches Ok(p) ==> {
            &&& p.state.tokens() == job.prompt_tokens@
            &&& p.state.processed() == 0
            &&& p.state.chunk() == chunk
            &&& p.state.is_paged() == paged
            &&& p.params == job.params
            &&& p.eos_id == job.eos_id
            &&& p.reply == job.reply
            &&& p.abort == job.abort
            &&& p.blocks == job.blocks
            &&& p.prompt_tokens == job.prompt_tokens@.len()
        },
{
}

} // verus!
