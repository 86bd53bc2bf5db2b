//! The small OpenAI-shaped endpoints: what they accept, and what they refuse
//! by name rather than drop.
use serde_json::Value;
use vstd::prelude::*;
use vstd::string::StringExecFns;
use crate::api::{
    bad_request, debug_quoted, invalid_request, quoted, unsupported_feature, ApiError, BAD_REQUEST, NOT_IMPLEMENTED,
};
use crate::generate::{find_out_of_vocab, first_bad, in_vocab, FinishReason, GenerationParams};
use crate::json::{json_items, json_text, read_text_field, text_field};
use crate::sampling::{is_baseline, SamplingParams, F32_ONE_BITS, F32_ZERO_BITS};
use crate::stats::TimedUsage;
use crate::text::{decimal, decimal_chars, same_text, text_of, texts};

verus! {

/// A prompt as a request spelled it.
#[derive(Debug)]
pub enum PromptParam {
    Text(String),
    /// A list: token ids, which are not served.
    Array,
    /// Anything else.
    Other,
}

/// Reads a prompt: a string is its text, and a list is token ids.
pub fn prompt_param(value: &Value) -> (p: PromptParam)
    ensures
        match p {
            PromptParam::Text(s) => json_text(*value) == Some(s@),
            PromptParam::Array => json_text(*value) is None && json_items(*value) is Some,
            PromptParam::Other => json_text(*value) is None && json_items(*value) is None,
        },
{
    match value.as_str() {
        Some(s) => PromptParam::Text(s.to_owned()),
        None => match value.as_array() {
            Some(_) => PromptParam::Array,
            None => PromptParam::Other,
        },
    }
}

/// Reads the `type` of a response format: nothing if it is not a string.
pub fn format_kind(format: &Value) -> (kind: Option<String>)
    ensures
        text_of(kind) == text_field(*format, "type"@),
{
    match read_text_field(format, "type") {
        Some(s) => Some(s.to_owned()),
        None => None,
    }
}

/// `stop` as a request spelled it: one string or a list.
#[derive(Debug)]
pub enum StopParam {
    One(String),
    Many(Vec<String>),
}

/// A legacy completion request. The fields that are not implemented are here
/// only to be refused by name.
#[derive(Debug)]
pub struct CompletionsRequest {
    pub prompt: PromptParam,
    pub max_tokens: usize,
    /// The bits of the f32 settings, as far as the request has them.
    pub temperature_bits: Option<u32>,
    pub top_p_bits: Option<u32>,
    pub seed: Option<u64>,
    pub stop: Option<StopParam>,
    pub has_logprobs: bool,
    pub echo: Option<bool>,
    pub suffix: Option<String>,
    pub has_logit_bias: bool,
    /// The `type` of the response format, where the request has a format:
    /// nothing if it is not a string.
    pub response_format: Option<Option<String>>,
}

/// Why a list of token ids is refused.
pub const TOKEN_ID_MESSAGE: &'static str = "token-id prompts are not implemented; send `prompt` as a string";

/// Why a response format is refused.
pub const FORMAT_MESSAGE: &'static str = "only `response_format: {\"type\": \"text\"}` is implemented on /v1/completions (see docs/API.md)";

/// The refusal of a field by its name.
pub open spec fn field_message(name: Seq<char>) -> Seq<char> {
    "`"@ + name + "` is not implemented on /v1/completions (see docs/API.md)"@
}

fn field_refusal(name: &str) -> (e: ApiError)
    ensures
        e.says(NOT_IMPLEMENTED, field_message(name@)),
{
    let mut message: String = "`".to_owned();
    message.append(name);
    message.append("` is not implemented on /v1/completions (see docs/API.md)");
    unsupported_feature(message.as_str())
}

impl CompletionsRequest {
    /// The first field that is refused, if there is one.
    pub open spec fn refused_field(&self) -> Option<Seq<char>> {
        if self.has_logprobs {
            Some("logprobs"@)
        } else if self.echo == Some(true) {
            Some("echo"@)
        } else if self.suffix is Some {
            Some("suffix"@)
        } else if self.has_logit_bias {
            Some("logit_bias"@)
        } else {
            None
        }
    }

    /// The response format is the default one, spelled out or not.
    pub open spec fn format_ok(&self) -> bool {
        match self.response_format {
            Some(kind) => kind is Some && kind->0@ == "text"@,
            None => true,
        }
    }

    /// The stop strings a request names, in order.
    pub open spec fn stop_texts(&self) -> Seq<Seq<char>> {
        match self.stop {
            Some(StopParam::One(s)) => seq![s@],
            Some(StopParam::Many(l)) => texts(l@),
            None => Seq::empty(),
        }
    }

    /// The prompt text, or a named refusal.
    pub fn prompt_text(&self) -> (r: Result<&str, ApiError>)
        ensures
            r is Ok <==> self.prompt is Text,
            r matches Ok(t) ==> self.prompt matches PromptParam::Text(s) && t@ == s@,
            r matches Err(e) ==> if self.prompt is Array {
                e.says(NOT_IMPLEMENTED, TOKEN_ID_MESSAGE@)
            } else {
                e.says_of(BAD_REQUEST, "prompt must be a string"@, "prompt"@)
            },
    {
        match &self.prompt {
            PromptParam::Text(s) => Ok(s.as_str()),
            PromptParam::Array => Err(unsupported_feature(TOKEN_ID_MESSAGE)),
            PromptParam::Other => Err(invalid_request("prompt must be a string", "prompt")),
        }
    }

    /// The stop strings, in order.
    pub fn stop_sequences(&self) -> (v: Vec<String>)
        ensures
            texts(v@) == self.stop_texts(),
    {
        let mut v: Vec<String> = Vec::new();
        match &self.stop {
            Some(StopParam::One(s)) => {
                v.push(s.clone());
                assert(texts(v@) =~= seq![s@]);
            },
            Some(StopParam::Many(l)) => {
                for i in 0usize..l.len()
                    invariant
                        v@.len() == i,
                        forall|k: int| 0 <= k < i ==> (#[trigger] v@[k])@ == l@[k]@,
                {
                    v.push(l[i].clone());
                }
                assert(texts(v@) =~= texts(l@));
            },
            None => {
                assert(texts(v@) =~= Seq::empty());
            },
        }
        v
    }

    /// The generation a request asks for: greedy where it names no
    /// temperature, seed zero where it names none, and no constraint on the
    /// text.
    pub fn generation_params(&self) -> (p: GenerationParams)
        ensures
            p.max_tokens == self.max_tokens,
            p.sampling.temperature_bits == (match self.temperature_bits {
                Some(b) => b,
                None => F32_ZERO_BITS,
            }),
            p.sampling.top_p_bits == (match self.top_p_bits {
                Some(b) => b,
                None => F32_ONE_BITS,
            }),
            is_baseline(
                SamplingParams { temperature_bits: F32_ZERO_BITS, top_p_bits: F32_ONE_BITS, ..p.sampling },
            ),
            p.seed == (match self.seed {
                Some(s) => s,
                None => 0,
            }),
            texts(p.stop@) == self.stop_texts(),
            p.stop_token_ids@.len() == 0,
            !p.json_object,
            p.grammar is None,
            p.cancel is None,
            !p.ignore_eos,
    {
        let mut sampling: SamplingParams = SamplingParams::default();
        sampling.temperature_bits = match self.temperature_bits {
            Some(b) => b,
            None => F32_ZERO_BITS,
        };
        sampling.top_p_bits = match self.top_p_bits {
            Some(b) => b,
            None => F32_ONE_BITS,
        };
        GenerationParams {
            max_tokens: self.max_tokens,
            sampling,
            seed: match self.seed {
                Some(s) => s,
                None => 0,
            },
            stop: self.stop_sequences(),
            stop_token_ids: Vec::new(),
            json_object: false,
            grammar: None,
            cancel: None,
            ignore_eos: false,
        }
    }

    /// Refuses what this server does not implement, by name.
    pub fn validate(&self) -> (r: Result<(), ApiError>)
        ensures
            r is Ok <==> self.refused_field() is None && self.format_ok(),
            r matches Err(e) ==> match self.refused_field() {
                Some(name) => e.says(NOT_IMPLEMENTED, field_message(name)),
                None => e.says(NOT_IMPLEMENTED, FORMAT_MESSAGE@),
            },
    {
        let echoes: bool = match self.echo {
            Some(e) => e,
            None => false,
        };
        if self.has_logprobs {
            return Err(field_refusal("logprobs"));
        }
        if echoes {
            return Err(field_refusal("echo"));
        }
        if self.suffix.is_some() {
            return Err(field_refusal("suffix"));
        }
        if self.has_logit_bias {
            return Err(field_refusal("logit_bias"));
        }
        if let Some(kind) = &self.response_format {
            let text: bool = match kind {
                Some(k) => same_text(k.as_str(), "text"),
                None => false,
            };
            if !text {
                return Err(unsupported_feature(FORMAT_MESSAGE));
            }
        }
        Ok(())
    }
}

/// The completion budget of a legacy request that names none: a caller
/// completing a fragment usually wants a fragment back.
pub fn default_max_tokens() -> (n: usize)
    ensures
        n == 16,
{
    16
}

/// The OpenAI name of how a generation ended.
pub fn finish_reason(finish: FinishReason) -> (s: &'static str)
    ensures
        s@ == (match finish {
            FinishReason::Stop => "stop"@,
            FinishReason::Length => "length"@,
            FinishReason::Cancelled => "cancelled"@,
        }),
{
    match finish {
        FinishReason::Stop => "stop",
        FinishReason::Length => "length",
        FinishReason::Cancelled => "cancelled",
    }
}

/// What the stats ring is told of a call: the status the caller saw, and
/// the usage of one that succeeded.
pub fn recorded(failed_with: Option<u16>, usage: Option<TimedUsage>) -> (r: (u16, Option<TimedUsage>))
    ensures
        r == (match failed_with {
            Some(status) => (status, None::<TimedUsage>),
            None => (200u16, usage),
        }),
{
    match failed_with {
        Some(status) => (status, None),
        None => (200, usage),
    }
}

/// What to embed: one text or several.
#[derive(Debug)]
pub enum EmbeddingInput {
    One(String),
    Many(Vec<String>),
}

/// How the hidden states of a text become one vector.
#[derive(Clone, Copy, Debug, PartialEq, Eq, Structural)]
pub enum Pooling {
    Mean,
    Last,
}

/// The refusal of an encoding other than floats.
pub open spec fn encoding_message(format: Seq<char>) -> Seq<char> {
    "encoding_format "@ + debug_quoted(format) + " is not supported (only \"float\")"@
}

/// The refusal of an unknown pooling.
pub open spec fn pooling_message(kind: Seq<char>) -> Seq<char> {
    "embedding_type must be \"mean\" or \"last\", got "@ + debug_quoted(kind)
}

/// The pooling of an embeddings request, or what is wrong with it.
pub fn embedding_pooling(encoding_format: Option<&str>, embedding_type: Option<&str>) -> (r: Result<Pooling, ApiError>)
    ensures
        ({
            let format_ok = encoding_format is None || encoding_format->0@ == "float"@;
            let mean = embedding_type is None || embedding_type->0@ == "mean"@;
            let last = embedding_type is Some && embedding_type->0@ == "last"@;
            &&& r is Ok <==> format_ok && (mean || last)
            &&& r is Ok ==> r->Ok_0 == if mean { Pooling::Mean } else { Pooling::Last }
            &&& r matches Err(e) ==> if !format_ok {
                e.says(BAD_REQUEST, encoding_message(encoding_format->0@))
            } else {
                e.says(BAD_REQUEST, pooling_message(embedding_type->0@))
            }
        }),
{
    if let Some(format) = encoding_format {
        if !same_text(format, "float") {
            let mut message: String = "encoding_format ".to_owned();
            message.append(quoted(format).as_str());
            message.append(" is not supported (only \"float\")");
            return Err(bad_request(message));
        }
    }
    match embedding_type {
        None => Ok(Pooling::Mean),
        Some(kind) => if same_text(kind, "mean") {
            Ok(Pooling::Mean)
        } else if same_text(kind, "last") {
            proof {
                reveal_strlit("mean");
                reveal_strlit("last");
                assert("mean"@[0] != "last"@[0]);
            }
            Ok(Pooling::Last)
        } else {
            let mut message: String = "embedding_type must be \"mean\" or \"last\", got ".to_owned();
            message.append(quoted(kind).as_str());
            Err(bad_request(message))
        },
    }
}

/// The texts to embed, or the refusal of an empty list.
pub fn embedding_inputs(input: EmbeddingInput) -> (r: Result<Vec<String>, ApiError>)
    ensures
        match input {
            EmbeddingInput::One(s) => r is Ok && r->Ok_0@ == seq![s],
            EmbeddingInput::Many(v) => if v@.len() == 0 {
                r is Err && r->Err_0.says(BAD_REQUEST, "input must be a non-empty string or array of strings"@)
            } else {
                r is Ok && r->Ok_0@ == v@
            },
        },
{
    match input {
        EmbeddingInput::One(s) => {
            let mut v: Vec<String> = Vec::new();
            v.push(s);
            assert(v@ =~= seq![s]);
            Ok(v)
        },
        EmbeddingInput::Many(v) => if v.len() == 0 {
            Err(bad_request("input must be a non-empty string or array of strings".to_owned()))
        } else {
            Ok(v)
        },
    }
}

/// Why a model is not asked for embeddings.
pub const NO_EMBEDDINGS_MESSAGE: &'static str = "embeddings engine not yet available for this model";

/// The refusal of a model that has no hidden states to give.
pub fn no_embeddings() -> (e: ApiError)
    ensures
        e.says(NOT_IMPLEMENTED, NO_EMBEDDINGS_MESSAGE@),
{
    unsupported_feature(NO_EMBEDDINGS_MESSAGE)
}

/// The refusal of a token the model does not have.
pub open spec fn vocabulary_message(token: usize, vocab: usize) -> Seq<char> {
    "token id "@ + decimal_chars(token as nat) + " is outside this model's vocabulary of "@ + decimal_chars(
        vocab as nat,
    )
}

/// Whether a text may be run through the model, as far as its vocabulary is
/// known.
pub fn check_tokens(tokens: &[usize], vocab: Option<usize>) -> (r: Result<(), ApiError>)
    ensures
        r is Ok <==> vocab is None || in_vocab(tokens@, vocab->0),
        r matches Err(e) ==> exists|i: int|
            #[trigger] first_bad(tokens@, vocab->0, i) && e.says(
                BAD_REQUEST,
                vocabulary_message(tokens@[i], vocab->0),
            ),
{
    match vocab {
        Some(v) => match find_out_of_vocab(tokens, v) {
            Some(bad) => {
                let mut message: String = "token id ".to_owned();
                message.append(decimal(bad as u64).as_str());
                message.append(" is outside this model's vocabulary of ");
                message.append(decimal(v as u64).as_str());
                Err(bad_request(message))
            },
            None => Ok(()),
        },
        None => Ok(()),
    }
}

/// Whether a text has any hidden states to pool.
pub fn check_poolable(hidden_states: usize) -> (r: Result<(), ApiError>)
    ensures
        r is Ok <==> hidden_states > 0,
        r matches Err(e) ==> e.says(
            BAD_REQUEST,
            "input encoded to zero tokens; cannot embed empty sequence"@,
        ),
{
    if hidden_states == 0 {
        Err(bad_request("input encoded to zero tokens; cannot embed empty sequence".to_owned()))
    } else {
        Ok(())
    }
}

/// A request is refused for the first of the four fields it has, and for
/// none if it has none of them.
pub proof fn law_the_first_unserved_field_is_named(req: CompletionsRequest)
    ensures
        req.has_logprobs ==> req.refused_field() == Some("logprobs"@),
        !req.has_logprobs && req.echo == Some(true) ==> req.refused_field() == Some("echo"@),
        !req.has_logprobs && req.echo != Some(true) && req.suffix is Some ==> req.refused_field() == Some("suffix"@),
        !req.has_logprobs && req.echo != Some(true) && req.suffix is None && req.has_logit_bias ==> req.refused_field()
            == Some("logit_bias"@),
        req.refused_field() is None <==> !req.has_logprobs && req.echo != Some(true) && req.suffix is None
            && !req.has_logit_bias,
{
}

/// A response format is served when it is left out or is `text`.
pub proof fn law_only_the_text_format_is_served(req: CompletionsRequest)
    ensures
        req.response_format is None ==> req.format_ok(),
        req.response_format == Some(None::<String>) ==> !req.format_ok(),
        req.response_format is Some && req.response_format->0 is Some ==> (req.format_ok() <==> req.response_format->0->0@
            == "text"@),
{
}

/// A request's stop strings are all of those it names, in its order.
pub proof fn law_every_stop_is_kept_in_order(req: CompletionsRequest, i: int)
    ensures
        req.stop is None ==> req.stop_texts() == Seq::<Seq<char>>::empty(),
        req.stop matches Some(StopParam::One(s)) ==> req.stop_texts() == seq![s@],
        req.stop matches Some(StopParam::Many(l)) ==> req.stop_texts().len() == l@.len(),
        req.stop matches Some(StopParam::Many(l)) ==> (0 <= i < l@.len() ==> req.stop_texts()[i] == l@[i]@),
{
}

/// What the refusals of these endpoints say.
pub proof fn law_the_refusals_say(name: Seq<char>, token: usize, vocab: usize)
    ensures
        field_message(name) == "`"@ + name + "` is not implemented on /v1/completions (see docs/API.md)"@,
        encoding_message(name) == "encoding_format "@ + debug_quoted(name) + " is not supported (only \"float\")"@,
        pooling_message(name) == "embedding_type must be \"mean\" or \"last\", got "@ + debug_quoted(name),
        vocabulary_message(token, vocab) == "token id "@ + decimal_chars(token as nat)
            + " is outside this model's vocabulary of "@ + decimal_chars(vocab as nat),
        TOKEN_ID_MESSAGE@ == "token-id prompts are not implemented; send `prompt` as a string"@,
        FORMAT_MESSAGE@
            == "only `response_format: {\"type\": \"text\"}` is implemented on /v1/completions (see docs/API.md)"@,
        NO_EMBEDDINGS_MESSAGE@ == "embeddings engine not yet available for this model"@,
{
}

/// A generation asks for what its request asks for.
pub proof fn law_a_completion_is_its_request(req: &CompletionsRequest, p: GenerationParams)
    requires
        call_ensures(CompletionsRequest::generation_params, (req,), p),
    ensures
        p.max_tokens == req.max_tokens,
        req.temperature_bits is Some ==> p.sampling.temperature_bits == req.temperature_bits->0,
        req.temperature_bits is None ==> p.sampling.temperature_bits == 0,
        req.top_p_bits is Some ==> p.sampling.top_p_bits == req.top_p_bits->0,
        req.top_p_bits is None ==> p.sampling.top_p_bits == 0x3f80_0000,
        p.sampling.top_k == 0 && p.sampling.min_p_bits == 0,
        p.sampling.repetition_penalty_bits == 0x3f80_0000,
        p.sampling.presence_penalty_bits == 0 && p.sampling.frequency_penalty_bits == 0,
        req.seed is Some ==> p.seed == req.seed->0,
        req.seed is None ==> p.seed == 0,
        req.stop is None ==> p.stop@.len() == 0,
        req.stop matches Some(StopParam::One(s)) ==> p.stop@.len() == 1 && p.stop@[0]@ == s@,
        req.stop matches Some(StopParam::Many(l)) ==> p.stop@.len() == l@.len() && forall|i: int|
            0 <= i < l@.len() ==> (#[trigger] p.stop@[i])@ == l@[i]@,
        p.stop_token_ids@.len() == 0,
        !p.json_object && p.grammar is None && p.cancel is None && !p.ignore_eos,
{
    let t = texts(p.stop@);
    assert(t.len() == p.stop@.len());
    assert forall|i: int| 0 <= i < p.stop@.len() implies (#[trigger] p.stop@[i])@ == t[i] by {}
    if let Some(StopParam::One(s)) = req.stop {
        assert(p.stop@[0]@ == t[0]);
    }
    if let Some(StopParam::Many(l)) = req.stop {
        assert forall|i: int| 0 <= i < l@.len() implies (#[trigger] p.stop@[i])@ == l@[i]@ by {
            assert(t[i] == texts(l@)[i]);
        }
    }
}

/// A legacy request that names no budget gets sixteen tokens; ends have their
/// names; a failed call is recorded with its status and without usage.
pub proof fn law_the_small_answers(
    n: usize,
    stop: &str,
    length: &str,
    cancelled: &str,
    status: u16,
    usage: Option<TimedUsage>,
    bad: (u16, Option<TimedUsage>),
    good: (u16, Option<TimedUsage>),
)
    requires
        call_ensures(default_max_tokens, (), n),
        call_ensures(finish_reason, (FinishReason::Stop,), stop),
        call_ensures(finish_reason, (FinishReason::Length,), length),
        call_ensures(finish_reason, (FinishReason::Cancelled,), cancelled),
        call_ensures(recorded, (Some(status), usage), bad),
        call_ensures(recorded, (None, usage), good),
    ensures
        n == 16,
        stop@ == "stop"@ && length@ == "length"@ && cancelled@ == "cancelled"@,
        bad.0 == status && bad.1 is None,
        good.0 == 200 && good.1 == usage,
{
}

/// A text is pooled by its mean unless the last state is asked for, and only
/// floats are handed out.
pub proof fn law_embeddings_are_pooled_as_asked(
    format: Option<&str>,
    kind: &str,
    named: Result<Pooling, ApiError>,
    unnamed: Result<Pooling, ApiError>,
)
    requires
        call_ensures(embedding_pooling, (format, Some(kind)), named),
        call_ensures(embedding_pooling, (format, None), unnamed),
    ensures
        ({
            let floats = format is None || format->0@ == "float"@;
            &&& unnamed is Ok <==> floats
            &&& unnamed is Ok ==> unnamed->Ok_0 == Pooling::Mean
            &&& floats && kind@ == "mean"@ ==> named == Ok::<Pooling, ApiError>(Pooling::Mean)
            &&& floats && kind@ == "last"@ ==> named == Ok::<Pooling, ApiError>(Pooling::Last)
            &&& named is Ok <==> floats && (kind@ == "mean"@ || kind@ == "last"@)
            &&& named is Err ==> named->Err_0.status == 400
        }),
{
    reveal_strlit("mean");
    reveal_strlit("last");
    assert("mean"@[0] != "last"@[0]);
}

/// What is embedded is every text that was handed in, in order; an empty list
/// and an empty text are refused.
pub proof fn law_every_input_is_embedded(
    s: String,
    v: Vec<String>,
    one: Result<Vec<String>, ApiError>,
    many: Result<Vec<String>, ApiError>,
    n: usize,
    poolable: Result<(), ApiError>,
)
    requires
        call_ensures(embedding_inputs, (EmbeddingInput::One(s),), one),
        call_ensures(embedding_inputs, (EmbeddingInput::Many(v),), many),
        call_ensures(check_poolable, (n,), poolable),
    ensures
        one is Ok && one->Ok_0@ == seq![s],
        many is Ok <==> v@.len() > 0,
        many is Ok ==> many->Ok_0@ == v@,
        poolable is Ok <==> n > 0,
{
}

/// A request is served exactly when it has none of the four fields and asks
/// for text; a refused one is told so as not implemented.
pub proof fn law_what_a_completion_may_ask(req: &CompletionsRequest, r: Result<(), ApiError>)
    requires
        call_ensures(CompletionsRequest::validate, (req,), r),
    ensures
        r is Ok <==> !req.has_logprobs && req.echo != Some(true) && req.suffix is None && !req.has_logit_bias && (
        req.response_format is None || (req.response_format->0 is Some && req.response_format->0->0@ == "text"@)),
        r matches Err(e) ==> e.status == 501 && e.param is None,
{
}

/// A prompt is its text; one that is no text is refused.
pub proof fn law_a_prompt_is_its_text(req: &CompletionsRequest, r: Result<&str, ApiError>)
    requires
        call_ensures(CompletionsRequest::prompt_text, (req,), r),
    ensures
        match req.prompt {
            PromptParam::Text(s) => r is Ok && r->Ok_0@ == s@,
            PromptParam::Array => r is Err && r->Err_0.status == 501,
            PromptParam::Other => r is Err && r->Err_0.status == 400,
        },
{
}

/// Every token has to be one of the model's where that is known; the first
/// that is not is named.
pub proof fn law_foreign_tokens_are_refused(tokens: &[usize], vocab: usize, r: Result<(), ApiError>, any: Result<(), ApiError>, i: int)
    requires
        call_ensures(check_tokens, (tokens, Some(vocab)), r),
        call_ensures(check_tokens, (tokens, None::<usize>), any),
        0 <= i < tokens@.len(),
    ensures
        any is Ok,
        (forall|k: int| 0 <= k < tokens@.len() ==> (#[trigger] tokens@[k]) < vocab) ==> r is Ok,
        tokens@[i] >= vocab ==> r is Err && r->Err_0.status == 400,
        tokens@[i] >= vocab && (forall|k: int| 0 <= k < i ==> (#[trigger] tokens@[k]) < vocab) ==> r->Err_0.message@
            == "token id "@ + decimal_chars(tokens@[i] as nat) + " is outside this model's vocabulary of "@
            + decimal_chars(vocab as nat),
{
    if r is Err {
        let k = choose|k: int| #[trigger] first_bad(tokens@, vocab, k) && r->Err_0.says(
            400,
            vocabulary_message(tokens@[k], vocab),
        );
        assert(first_bad(tokens@, vocab, k));
    }
}

} // verus!
