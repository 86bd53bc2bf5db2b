//! The Anthropic Messages surface: non-streaming text turns only, on the
//! same chat path as everything else.
use vstd::prelude::*;
use vstd::string::StringExecFns;
use crate::api::{faulty_turns, unsupported_feature, ApiError, NOT_IMPLEMENTED};
use crate::chat::ChatMessage;
use crate::chat_template::ChatTemplate;
use crate::generate::{FinishReason, GenerationParams};
use crate::sampling::{is_baseline, SamplingParams, F32_ONE_BITS, F32_ZERO_BITS};
use crate::text::same_text;

verus! {

/// One block of a message.
#[derive(Debug)]
pub struct ContentBlockIn {
    pub kind: String,
    pub text: Option<String>,
}

/// A message's content: one text, or blocks.
#[derive(Debug)]
pub enum ContentIn {
    Text(String),
    Blocks(Vec<ContentBlockIn>),
}

/// A system prompt: one text, or blocks.
#[derive(Debug)]
pub enum SystemIn {
    Text(String),
    Blocks(Vec<ContentBlockIn>),
}

/// One turn.
#[derive(Debug)]
pub struct AnthropicMessage {
    pub role: String,
    pub content: ContentIn,
}

/// A request, as far as its history and limits go.
#[derive(Debug)]
pub struct MessagesRequest {
    pub model: String,
    pub messages: Vec<AnthropicMessage>,
    pub max_tokens: usize,
    pub system: Option<SystemIn>,
    /// The bits of the f32 settings, as far as the request has them.
    pub temperature_bits: Option<u32>,
    pub top_p_bits: Option<u32>,
    pub top_k: Option<usize>,
    pub stop_sequences: Option<Vec<String>>,
    pub stream: Option<bool>,
}

/// Why a block that is not text is refused.
pub const TEXT_ONLY_MESSAGE: &'static str = "Anthropic Messages: only text content blocks are supported";

/// Why a stream is refused.
pub const NO_STREAMING_MESSAGE: &'static str = "Anthropic Messages streaming is not implemented yet; omit stream or set stream=false";

/// Every block is text.
pub open spec fn all_text(blocks: Seq<ContentBlockIn>) -> bool {
    forall|i: int| 0 <= i < blocks.len() ==> (#[trigger] blocks[i]).kind@ == "text"@
}

/// The texts of blocks, one after the other; a block without one adds
/// nothing.
pub open spec fn blocks_text(blocks: Seq<ContentBlockIn>) -> Seq<char>
    decreases blocks.len(),
{
    if blocks.len() == 0 {
        Seq::empty()
    } else {
        blocks_text(blocks.drop_last()) + match blocks.last().text {
            Some(t) => t@,
            None => Seq::empty(),
        }
    }
}

/// The text of blocks, or the refusal of one that is not text.
pub fn blocks_to_text(blocks: &[ContentBlockIn]) -> (r: Result<String, ApiError>)
    ensures
        r is Ok <==> all_text(blocks@),
        r matches Ok(t) ==> t@ == blocks_text(blocks@),
        r matches Err(e) ==> e.says(NOT_IMPLEMENTED, TEXT_ONLY_MESSAGE@),
{
    let mut out: String = String::new();
    assert(blocks@.take(0) =~= Seq::empty());
    for i in 0usize..blocks.len()
        invariant
            out@ == blocks_text(blocks@.take(i as int)),
            forall|k: int| 0 <= k < i ==> (#[trigger] blocks@[k]).kind@ == "text"@,
    {
        let b: &ContentBlockIn = &blocks[i];
        if !same_text(b.kind.as_str(), "text") {
            return Err(unsupported_feature(TEXT_ONLY_MESSAGE));
        }
        proof {
            assert(blocks@.take(i + 1).drop_last() =~= blocks@.take(i as int));
            assert(blocks@.take(i + 1).last() == blocks@[i as int]);
        }
        if let Some(t) = &b.text {
            out.append(t.as_str());
        }
        assert(out@ =~= blocks_text(blocks@.take(i + 1)));
    }
    assert(blocks@.take(blocks@.len() as int) =~= blocks@);
    Ok(out)
}

impl ContentIn {
    /// The content is text throughout.
    pub open spec fn is_text(&self) -> bool {
        *self matches ContentIn::Blocks(b) ==> all_text(b@)
    }

    /// The content's text.
    pub open spec fn said(&self) -> Seq<char> {
        match self {
            ContentIn::Text(s) => s@,
            ContentIn::Blocks(b) => blocks_text(b@),
        }
    }
}

impl SystemIn {
    /// The prompt is text throughout.
    pub open spec fn is_text(&self) -> bool {
        *self matches SystemIn::Blocks(b) ==> all_text(b@)
    }

    /// The prompt's text.
    pub open spec fn said(&self) -> Seq<char> {
        match self {
            SystemIn::Text(s) => s@,
            SystemIn::Blocks(b) => blocks_text(b@),
        }
    }
}

/// The text of a message's content.
pub fn content_to_text(content: &ContentIn) -> (r: Result<String, ApiError>)
    ensures
        r is Ok <==> content.is_text(),
        r matches Ok(t) ==> t@ == content.said(),
        r matches Err(e) ==> e.says(NOT_IMPLEMENTED, TEXT_ONLY_MESSAGE@),
{
    match content {
        ContentIn::Text(s) => Ok(s.clone()),
        ContentIn::Blocks(blocks) => blocks_to_text(blocks.as_slice()),
    }
}

/// The text of a system prompt.
pub fn system_to_text(system: &SystemIn) -> (r: Result<String, ApiError>)
    ensures
        r is Ok <==> system.is_text(),
        r matches Ok(t) ==> t@ == system.said(),
        r matches Err(e) ==> e.says(NOT_IMPLEMENTED, TEXT_ONLY_MESSAGE@),
{
    match system {
        SystemIn::Text(s) => Ok(s.clone()),
        SystemIn::Blocks(blocks) => blocks_to_text(blocks.as_slice()),
    }
}

/// A turn of one of the two roles there are.
pub open spec fn role_known(m: AnthropicMessage) -> bool {
    m.role@ == "user"@ || m.role@ == "assistant"@
}

/// The refusal of any other role.
pub open spec fn role_message(role: Seq<char>) -> Seq<char> {
    "unsupported message role '"@ + role + "' (user/assistant only)"@
}

/// `c` is a plain text message that says `text` as `role`.
pub open spec fn is_turn(c: ChatMessage, role: Seq<char>, text: Seq<char>) -> bool {
    &&& c.role@ == role
    &&& c.content is Some
    &&& c.said() == text
    &&& c.tool_calls is None
    &&& c.tool_call_id is None
}

/// A turn that can be taken over.
pub open spec fn turn_ok(m: AnthropicMessage) -> bool {
    role_known(m) && m.content.is_text()
}

impl MessagesRequest {
    /// The system prompt, where there is one, is text.
    pub open spec fn system_ok(&self) -> bool {
        self.system is Some ==> self.system->0.is_text()
    }

    /// How many messages the system prompt makes.
    pub open spec fn lead(&self) -> int {
        if self.system is Some {
            1
        } else {
            0
        }
    }
}

/// The conversation of a request: its system prompt as a message, then its
/// turns. The first thing wrong with it is refused by name.
pub fn to_chat_messages(req: &MessagesRequest) -> (r: Result<Vec<ChatMessage>, ApiError>)
    ensures
        r is Ok <==> req.system_ok() && forall|i: int|
            0 <= i < req.messages@.len() ==> turn_ok(#[trigger] req.messages@[i]),
        r matches Ok(out) ==> {
            &&& out@.len() == req.lead() + req.messages@.len()
            &&& req.system is Some ==> is_turn(out@[0], "system"@, req.system->0.said())
            &&& forall|i: int|
                0 <= i < req.messages@.len() ==> is_turn(
                    out@[req.lead() + i],
                    (#[trigger] req.messages@[i]).role@,
                    req.messages@[i].content.said(),
                )
        },
        r matches Err(e) ==> if !req.system_ok() {
            e.says(NOT_IMPLEMENTED, TEXT_ONLY_MESSAGE@)
        } else {
            exists|i: int|
                {
                    &&& 0 <= i < req.messages@.len()
                    &&& !turn_ok(#[trigger] req.messages@[i])
                    &&& forall|k: int| 0 <= k < i ==> turn_ok(#[trigger] req.messages@[k])
                    &&& if role_known(req.messages@[i]) {
                        e.says(NOT_IMPLEMENTED, TEXT_ONLY_MESSAGE@)
                    } else {
                        e.faults_turns(role_message(req.messages@[i].role@))
                    }
                }
        },
{
    let mut out: Vec<ChatMessage> = Vec::new();
    if let Some(system) = &req.system {
        match system_to_text(system) {
            Ok(text) => {
                out.push(ChatMessage::text("system", text.as_str()));
            },
            Err(e) => {
                return Err(e);
            },
        }
    }
    for i in 0usize..req.messages.len()
        invariant
            req.system_ok(),
            out@.len() == req.lead() + i,
            req.system is Some ==> is_turn(out@[0], "system"@, req.system->0.said()),
            forall|k: int| 0 <= k < i ==> turn_ok(#[trigger] req.messages@[k]),
            forall|k: int|
                0 <= k < i ==> is_turn(
                    out@[req.lead() + k],
                    (#[trigger] req.messages@[k]).role@,
                    req.messages@[k].content.said(),
                ),
    {
        let m: &AnthropicMessage = &req.messages[i];
        if !same_text(m.role.as_str(), "user") && !same_text(m.role.as_str(), "assistant") {
            let mut message: String = "unsupported message role '".to_owned();
            message.append(m.role.as_str());
            message.append("' (user/assistant only)");
            assert(!turn_ok(req.messages@[i as int]));
            return Err(faulty_turns(message));
        }
        match content_to_text(&m.content) {
            Ok(text) => {
                out.push(ChatMessage::text(m.role.as_str(), text.as_str()));
            },
            Err(e) => {
                assert(!turn_ok(req.messages@[i as int]));
                return Err(e);
            },
        }
    }
    Ok(out)
}

/// The Anthropic name of how a generation ended. A cancelled one has none.
pub fn stop_reason(finish: FinishReason) -> (s: &'static str)
    requires
        finish !is Cancelled,
    ensures
        s@ == (if finish is Stop { "end_turn"@ } else { "max_tokens"@ }),
{
    match finish {
        FinishReason::Stop => "end_turn",
        _ => "max_tokens",
    }
}

/// Refuses what this surface cannot do before anything else is looked at.
pub fn check_request(req: &MessagesRequest) -> (r: Result<(), ApiError>)
    ensures
        r is Ok <==> req.stream != Some(true) && req.max_tokens > 0,
        r matches Err(e) ==> if req.stream == Some(true) {
            e.says(NOT_IMPLEMENTED, NO_STREAMING_MESSAGE@)
        } else {
            e.faults_turns("max_tokens must be > 0"@)
        },
{
    let streams: bool = match req.stream {
        Some(s) => s,
        None => false,
    };
    if streams {
        return Err(unsupported_feature(NO_STREAMING_MESSAGE));
    }
    if req.max_tokens == 0 {
        return Err(faulty_turns("max_tokens must be > 0".to_owned()));
    }
    Ok(())
}

/// The stop strings already name the end of a Gemma turn.
pub open spec fn ends_turns(stop: Seq<String>) -> bool {
    exists|i: int| 0 <= i < stop.len() && (#[trigger] stop[i])@ == "<end_of_turn>"@
}

/// The stop strings of a request under a chat template: a Gemma turn ends at
/// its own marker whether the request says so or not.
pub fn stop_strings(requested: Option<Vec<String>>, template: ChatTemplate) -> (stop: Vec<String>)
    ensures
        ({
            let asked = asked_stops(requested);
            if template is Gemma && !ends_turns(asked) {
                &&& stop@.len() == asked.len() + 1
                &&& stop@.drop_last() == asked
                &&& stop@.last()@ == "<end_of_turn>"@
            } else {
                stop@ == asked
            }
        }),
        template is Gemma ==> ends_turns(stop@),
{
    let mut stop: Vec<String> = match requested {
        Some(v) => v,
        None => Vec::new(),
    };
    let ghost asked = stop@;
    let gemma: bool = match template {
        ChatTemplate::Gemma => true,
        _ => false,
    };
    if gemma {
        let mut found: bool = false;
        for i in 0usize..stop.len()
            invariant
                found == exists|k: int| 0 <= k < i && (#[trigger] stop@[k])@ == "<end_of_turn>"@,
        {
            if same_text(stop[i].as_str(), "<end_of_turn>") {
                found = true;
            }
        }
        if !found {
            stop.push("<end_of_turn>".to_owned());
            assert(stop@.drop_last() =~= asked);
            assert(stop@[asked.len() as int]@ == "<end_of_turn>"@);
        }
    }
    stop
}

/// The stop strings a request names.
pub open spec fn asked_stops(requested: Option<Vec<String>>) -> Seq<String> {
    match requested {
        Some(v) => v@,
        None => Seq::empty(),
    }
}

/// The generation a request asks for: greedy where it names no temperature,
/// and nothing but its own three settings off the baseline.
pub fn generation_params(req: MessagesRequest, template: ChatTemplate) -> (p: GenerationParams)
    ensures
        p.max_tokens == req.max_tokens,
        p.sampling.temperature_bits == (match req.temperature_bits {
            Some(b) => b,
            None => F32_ZERO_BITS,
        }),
        p.sampling.top_p_bits == (match req.top_p_bits {
            Some(b) => b,
            None => F32_ONE_BITS,
        }),
        p.sampling.top_k == (match req.top_k {
            Some(k) => k,
            None => 0,
        }),
        is_baseline(
            SamplingParams { temperature_bits: F32_ZERO_BITS, top_p_bits: F32_ONE_BITS, top_k: 0, ..p.sampling },
        ),
        p.seed == 0,
        if template is Gemma && !ends_turns(asked_stops(req.stop_sequences)) {
            &&& p.stop@.len() == asked_stops(req.stop_sequences).len() + 1
            &&& p.stop@.drop_last() == asked_stops(req.stop_sequences)
            &&& p.stop@.last()@ == "<end_of_turn>"@
        } else {
            p.stop@ == asked_stops(req.stop_sequences)
        },
        p.stop_token_ids@.len() == 0,
        !p.json_object,
        p.grammar is None,
        p.cancel is None,
        !p.ignore_eos,
{
    let mut sampling: SamplingParams = SamplingParams::default();
    sampling.temperature_bits = match req.temperature_bits {
        Some(b) => b,
        None => F32_ZERO_BITS,
    };
    sampling.top_p_bits = match req.top_p_bits {
        Some(b) => b,
        None => F32_ONE_BITS,
    };
    sampling.top_k = match req.top_k {
        Some(k) => k,
        None => 0,
    };
    GenerationParams {
        max_tokens: req.max_tokens,
        sampling,
        seed: 0,
        stop: stop_strings(req.stop_sequences, template),
        stop_token_ids: Vec::new(),
        json_object: false,
        grammar: None,
        cancel: None,
        ignore_eos: false,
    }
}

/// Blocks say their texts one after the other, and one more block adds its
/// own text, if it has one, behind the others. They are text as long as each
/// of them is.
pub proof fn law_blocks_say_their_texts_in_order(blocks: Seq<ContentBlockIn>, block: ContentBlockIn)
    ensures
        blocks_text(Seq::empty()) == Seq::<char>::empty(),
        block.text is Some ==> blocks_text(blocks.push(block)) == blocks_text(blocks) + block.text->0@,
        block.text is None ==> blocks_text(blocks.push(block)) == blocks_text(blocks),
        all_text(Seq::empty()),
        all_text(blocks.push(block)) <==> all_text(blocks) && block.kind@ == "text"@,
{
    let more = blocks.push(block);
    assert(more.drop_last() =~= blocks);
    assert(blocks_text(blocks) + Seq::<char>::empty() =~= blocks_text(blocks));
    if all_text(more) {
        assert(more[blocks.len() as int] == block);
        assert forall|i: int| 0 <= i < blocks.len() implies (#[trigger] blocks[i]).kind@ == "text"@ by {
            assert(more[i] == blocks[i]);
        }
    }
}

/// Content and system prompts say their one text or the texts of their
/// blocks.
pub proof fn law_content_says_its_text(text: String, blocks: Vec<ContentBlockIn>)
    ensures
        ContentIn::Text(text).is_text(),
        ContentIn::Text(text).said() == text@,
        ContentIn::Blocks(blocks).is_text() == all_text(blocks@),
        ContentIn::Blocks(blocks).said() == blocks_text(blocks@),
        SystemIn::Text(text).is_text(),
        SystemIn::Text(text).said() == text@,
        SystemIn::Blocks(blocks).is_text() == all_text(blocks@),
        SystemIn::Blocks(blocks).said() == blocks_text(blocks@),
{
}

/// A turn is taken over exactly from a user or an assistant and as text; the
/// message it becomes has that role and that text and nothing besides.
pub proof fn law_turns_are_taken_over_as_they_are(m: AnthropicMessage, c: ChatMessage, role: Seq<char>, text: Seq<char>)
    ensures
        turn_ok(m) <==> (m.role@ == "user"@ || m.role@ == "assistant"@) && m.content.is_text(),
        role_known(m) <==> m.role@ == "user"@ || m.role@ == "assistant"@,
        is_turn(c, role, text) ==> c.role@ == role && c.rendered() == text && c.tool_calls is None && c.tool_call_id
            is None,
{
    if is_turn(c, role, text) {
        assert(c.rendered() =~= text);
    }
}

/// The system prompt makes one message in front of the turns where there is
/// one, and has to be text.
pub proof fn law_a_system_prompt_leads(req: MessagesRequest)
    ensures
        req.system is None ==> req.lead() == 0 && req.system_ok(),
        req.system is Some ==> req.lead() == 1 && req.system_ok() == req.system->0.is_text(),
{
}

/// The stop strings of a request are its own, and they end turns exactly
/// when one of them is the marker of a turn's end.
pub proof fn law_stops_are_the_requests_own(stop: Vec<String>, i: int)
    ensures
        asked_stops(Some(stop)) == stop@,
        asked_stops(None) == Seq::<String>::empty(),
        0 <= i < stop@.len() && stop@[i]@ == "<end_of_turn>"@ ==> ends_turns(stop@),
        (forall|k: int| 0 <= k < stop@.len() ==> (#[trigger] stop@[k])@ != "<end_of_turn>"@) ==> !ends_turns(stop@),
{
}

/// What the refusals of this surface say.
pub proof fn law_the_turn_messages(role: Seq<char>)
    ensures
        role_message(role) == "unsupported message role '"@ + role + "' (user/assistant only)"@,
        TEXT_ONLY_MESSAGE@ == "Anthropic Messages: only text content blocks are supported"@,
        NO_STREAMING_MESSAGE@
            == "Anthropic Messages streaming is not implemented yet; omit stream or set stream=false"@,
{
}

/// A generation asks for what its request asks for: its budget, its three
/// settings or greedy decoding, its stop strings in their order and the end of
/// a turn where the convention has one; nothing masks it, cancels it or goes
/// past the end of sequence.
pub proof fn law_a_generation_is_its_request(req: MessagesRequest, template: ChatTemplate, p: GenerationParams)
    requires
        call_ensures(generation_params, (req, template), p),
    ensures
        p.max_tokens == req.max_tokens,
        req.temperature_bits is Some ==> p.sampling.temperature_bits == req.temperature_bits->0,
        req.temperature_bits is None ==> p.sampling.temperature_bits == 0,
        req.top_p_bits is Some ==> p.sampling.top_p_bits == req.top_p_bits->0,
        req.top_p_bits is None ==> p.sampling.top_p_bits == 0x3f80_0000,
        req.top_k is Some ==> p.sampling.top_k == req.top_k->0,
        req.top_k is None ==> p.sampling.top_k == 0,
        p.sampling.min_p_bits == 0,
        p.sampling.repetition_penalty_bits == 0x3f80_0000,
        p.sampling.presence_penalty_bits == 0 && p.sampling.frequency_penalty_bits == 0,
        p.seed == 0,
        req.stop_sequences is Some && template !is Gemma ==> p.stop@ == req.stop_sequences->0@,
        req.stop_sequences is None && template !is Gemma ==> p.stop@.len() == 0,
        template is Gemma ==> exists|i: int| 0 <= i < p.stop@.len() && (#[trigger] p.stop@[i])@ == "<end_of_turn>"@,
        req.stop_sequences is Some ==> p.stop@.len() >= req.stop_sequences->0@.len() && p.stop@.take(
            req.stop_sequences->0@.len() as int,
        ) == req.stop_sequences->0@,
        p.stop_token_ids@.len() == 0,
        !p.json_object && p.grammar is None && p.cancel is None && !p.ignore_eos,
{
    let asked = asked_stops(req.stop_sequences);
    if template is Gemma && !ends_turns(asked) {
        assert(p.stop@[p.stop@.len() - 1]@ == "<end_of_turn>"@);
        assert(p.stop@.take(asked.len() as int) =~= p.stop@.drop_last());
    } else {
        assert(p.stop@.take(asked.len() as int) =~= asked);
        if template is Gemma {
            let i = choose|i: int| 0 <= i < asked.len() && (#[trigger] asked[i])@ == "<end_of_turn>"@;
            assert(p.stop@[i]@ == "<end_of_turn>"@);
        }
    }
}

/// A stream and a request for no tokens are refused, the stream first; the
/// two ends of a turn have their names.
pub proof fn law_what_is_refused_at_once(req: &MessagesRequest, r: Result<(), ApiError>, stop: &str, length: &str)
    requires
        call_ensures(check_request, (req,), r),
        call_ensures(stop_reason, (FinishReason::Stop,), stop),
        call_ensures(stop_reason, (FinishReason::Length,), length),
    ensures
        r is Ok <==> req.stream != Some(true) && req.max_tokens >= 1,
        req.stream == Some(true) ==> r is Err && r->Err_0.status == 501,
        req.stream != Some(true) && req.max_tokens == 0 ==> r is Err && r->Err_0.status == 400 && r->Err_0.message@
            == "max_tokens must be > 0"@,
        stop@ == "end_turn"@,
        length@ == "max_tokens"@,
{
}

/// A conversation is handed on whole: the system prompt first where there is
/// one, then every turn in its place with its role and its text. One turn
/// that cannot be taken over refuses it all.
pub proof fn law_a_conversation_is_handed_on_whole(
    req: &MessagesRequest,
    r: Result<Vec<ChatMessage>, ApiError>,
    i: int,
)
    requires
        call_ensures(to_chat_messages, (req,), r),
        0 <= i < req.messages@.len(),
    ensures
        req.system is None && r is Ok ==> r->Ok_0@.len() == req.messages@.len() && r->Ok_0@[i].role@
            == req.messages@[i].role@ && r->Ok_0@[i].rendered() == req.messages@[i].content.said(),
        req.system is Some && r is Ok ==> {
            &&& r->Ok_0@.len() == req.messages@.len() + 1
            &&& r->Ok_0@[0].role@ == "system"@
            &&& r->Ok_0@[0].rendered() == req.system->0.said()
            &&& r->Ok_0@[i + 1].role@ == req.messages@[i].role@
            &&& r->Ok_0@[i + 1].rendered() == req.messages@[i].content.said()
        },
        req.messages@[i].role@ != "user"@ && req.messages@[i].role@ != "assistant"@ ==> r is Err,
        !req.messages@[i].content.is_text() ==> r is Err,
        req.system is Some && !req.system->0.is_text() ==> r is Err,
{
    if let Ok(out) = r {
        let m = req.messages@[i];
        law_turns_are_taken_over_as_they_are(m, out@[req.lead() + i], m.role@, m.content.said());
        assert(turn_ok(req.messages@[i]));
        if req.system is Some {
            law_turns_are_taken_over_as_they_are(m, out@[0], "system"@, req.system->0.said());
        }
    }
}

/// A text of several blocks is read to the end or not at all.
pub proof fn law_text_is_read_whole(blocks: &[ContentBlockIn], r: Result<String, ApiError>, i: int)
    requires
        call_ensures(blocks_to_text, (blocks,), r),
        0 <= i < blocks@.len(),
    ensures
        blocks@[i].kind@ != "text"@ ==> r is Err && r->Err_0.status == 501,
        (forall|k: int| 0 <= k < blocks@.len() ==> (#[trigger] blocks@[k]).kind@ == "text"@) ==> r is Ok && r->Ok_0@
            == blocks_text(blocks@),
{
    if all_text(blocks@) {
        assert(blocks@[i].kind@ == "text"@);
    }
}

} // verus!
