//! Recognizing a model's chat convention by the markers of its template,
//! and rendering a conversation in it.
use vstd::prelude::*;
use vstd::string::StringExecFns;
use vstd::utf8::encode_utf8;
use crate::chat::ChatMessage;
use crate::text::{contains, ends_with_char, law_occurring_is_being_a_part, occurs, same_text};

verus! {

/// A chat convention.
#[derive(Clone, Copy, Debug, PartialEq, Eq, Structural)]
pub enum ChatTemplate {
    /// `<|im_start|>{role}\n{content}<|im_end|>\n` per message.
    ChatMl,
    /// `<|{role}|>\n{content}</s>\n` per message.
    GenericRoleMarkers,
    /// `<|start_header_id|>{role}<|end_header_id|>\n\n{content}<|eot_id|>`
    /// per message.
    Llama3,
    /// `<start_of_turn>{role}\n{content}<end_of_turn>\n` per message, the
    /// assistant as `model`, a leading system message folded into the first
    /// user turn.
    Gemma,
    /// `{role}: {content}` lines, no special tokens.
    Plain,
}

/// The template mentions `marker`.
pub open spec fn mentions(template: Seq<char>, marker: Seq<char>) -> bool {
    occurs(encode_utf8(template), encode_utf8(marker))
}

/// The text of a template, where there is one.
pub open spec fn template_text(template: Option<&str>) -> Option<Seq<char>> {
    match template {
        Some(t) => Some(t@),
        None => None,
    }
}

/// The convention whose marker a template mentions; the first of these
/// decides.
pub open spec fn detected(template: Option<Seq<char>>) -> ChatTemplate {
    match template {
        Some(t) => if mentions(t, "<|im_start|>"@) {
            ChatTemplate::ChatMl
        } else if mentions(t, "<|start_header_id|>"@) {
            ChatTemplate::Llama3
        } else if mentions(t, "<|user|>"@) || mentions(t, "<|assistant|>"@) {
            ChatTemplate::GenericRoleMarkers
        } else if mentions(t, "<start_of_turn>"@) {
            ChatTemplate::Gemma
        } else {
            ChatTemplate::Plain
        },
        None => ChatTemplate::Plain,
    }
}

/// A ChatML turn.
pub open spec fn chatml_turn() -> spec_fn(ChatMessage) -> Seq<char> {
    |m: ChatMessage| "<|im_start|>"@ + m.role@ + "\n"@ + m.rendered() + "<|im_end|>\n"@
}

/// A turn between generic role markers.
pub open spec fn generic_turn() -> spec_fn(ChatMessage) -> Seq<char> {
    |m: ChatMessage| "<|"@ + m.role@ + "|>\n"@ + m.rendered() + "</s>\n"@
}

/// A Llama 3 turn.
pub open spec fn llama3_turn() -> spec_fn(ChatMessage) -> Seq<char> {
    |m: ChatMessage| "<|start_header_id|>"@ + m.role@ + "<|end_header_id|>\n\n"@ + m.rendered() + "<|eot_id|>"@
}

/// All turns, one after the other.
pub open spec fn turns(messages: Seq<ChatMessage>, turn: spec_fn(ChatMessage) -> Seq<char>) -> Seq<char>
    decreases messages.len(),
{
    if messages.len() == 0 {
        Seq::empty()
    } else {
        turns(messages.drop_last(), turn) + turn(messages.last())
    }
}

/// Role-labeled lines.
pub open spec fn plain_lines(messages: Seq<ChatMessage>) -> Seq<char>
    decreases messages.len(),
{
    if messages.len() == 0 {
        Seq::empty()
    } else {
        plain_lines(messages.drop_last()) + (if messages.len() == 1 {
            Seq::empty()
        } else {
            "\n"@
        }) + messages.last().role@ + ": "@ + messages.last().rendered()
    }
}

/// The assistant's turns are the model's.
pub open spec fn is_model_role(role: Seq<char>) -> bool {
    role == "assistant"@ || role == "model"@
}

/// Gemma turns; `prefix` goes in front of the first user turn.
pub open spec fn gemma_turns(messages: Seq<ChatMessage>, prefix: Seq<char>) -> Seq<char>
    decreases messages.len(),
{
    if messages.len() == 0 {
        Seq::empty()
    } else if is_model_role(messages[0].role@) {
        "<start_of_turn>model\n"@ + messages[0].rendered() + "<end_of_turn>\n"@ + gemma_turns(
            messages.skip(1),
            prefix,
        )
    } else {
        "<start_of_turn>user\n"@ + prefix + messages[0].rendered() + "<end_of_turn>\n"@ + gemma_turns(
            messages.skip(1),
            Seq::empty(),
        )
    }
}

/// System text set apart from what follows it.
pub open spec fn system_prefix(text: Seq<char>) -> Seq<char> {
    if text.len() > 0 && text.last() == '\n' {
        text
    } else {
        text + "\n\n"@
    }
}

/// A conversation in the given convention, up to the marker that makes it
/// the assistant's turn.
pub open spec fn rendering(template: ChatTemplate, messages: Seq<ChatMessage>) -> Seq<char> {
    match template {
        ChatTemplate::ChatMl => turns(messages, chatml_turn()) + "<|im_start|>assistant\n"@,
        ChatTemplate::GenericRoleMarkers => turns(messages, generic_turn()) + "<|assistant|>\n"@,
        ChatTemplate::Llama3 => turns(messages, llama3_turn())
            + "<|start_header_id|>assistant<|end_header_id|>\n\n"@,
        ChatTemplate::Gemma => if messages.len() > 0 && messages[0].role@ == "system"@ {
            gemma_turns(messages.skip(1), system_prefix(messages[0].rendered())) + "<start_of_turn>model\n"@
        } else {
            gemma_turns(messages, Seq::empty()) + "<start_of_turn>model\n"@
        },
        ChatTemplate::Plain => plain_lines(messages),
    }
}

proof fn lemma_take_step(messages: Seq<ChatMessage>, k: int)
    requires
        0 <= k < messages.len(),
    ensures
        messages.take(k + 1).drop_last() == messages.take(k),
        messages.take(k + 1).last() == messages[k],
        messages.take(k + 1).len() == k + 1,
{
    assert(messages.take(k + 1).drop_last() =~= messages.take(k));
}

/// All turns of a convention that wraps each message alike.
fn push_turns(
    out: &mut String,
    messages: &[ChatMessage],
    open: &str,
    mid: &str,
    close: &str,
    Ghost(turn): Ghost<spec_fn(ChatMessage) -> Seq<char>>,
)
    requires
        forall|m: ChatMessage| #[trigger] turn(m) == open@ + m.role@ + mid@ + m.rendered() + close@,
    ensures
        final(out)@ == old(out)@ + turns(messages@, turn),
{
    let ghost start = out@;
    assert(messages@.take(0) =~= Seq::empty());
    assert(out@ =~= start + turns(messages@.take(0), turn));
    for k in 0usize..messages.len()
        invariant
            out@ == start + turns(messages@.take(k as int), turn),
            forall|m: ChatMessage| #[trigger] turn(m) == open@ + m.role@ + mid@ + m.rendered() + close@,
    {
        let m: &ChatMessage = &messages[k];
        out.append(open);
        out.append(m.role.as_str());
        out.append(mid);
        out.append(m.rendered_content().as_str());
        out.append(close);
        proof {
            lemma_take_step(messages@, k as int);
            assert(turn(*m) == open@ + m.role@ + mid@ + m.rendered() + close@);
            assert(out@ =~= start + turns(messages@.take(k + 1), turn));
        }
    }
    assert(messages@.take(messages@.len() as int) =~= messages@);
}

/// The role-labeled lines of a conversation.
fn plain(messages: &[ChatMessage]) -> (out: String)
    ensures
        out@ == plain_lines(messages@),
{
    let mut out: String = String::new();
    assert(messages@.take(0) =~= Seq::empty());
    for k in 0usize..messages.len()
        invariant
            out@ == plain_lines(messages@.take(k as int)),
    {
        let ghost before = out@;
        let m: &ChatMessage = &messages[k];
        if k > 0 {
            out.append("\n");
        }
        out.append(m.role.as_str());
        out.append(": ");
        out.append(m.rendered_content().as_str());
        proof {
            lemma_take_step(messages@, k as int);
            if k == 0 {
                assert(before + Seq::<char>::empty() =~= before);
            }
            assert(out@ =~= plain_lines(messages@.take(k + 1)));
        }
    }
    assert(messages@.take(messages@.len() as int) =~= messages@);
    out
}

/// The Gemma turns of a conversation.
fn gemma(messages: &[ChatMessage]) -> (out: String)
    ensures
        out@ == rendering(ChatTemplate::Gemma, messages@),
{
    let mut out: String = String::new();
    let mut prefix: String = String::new();
    let mut k: usize = 0;
    if messages.len() > 0 && same_text(messages[0].role.as_str(), "system") {
        prefix = messages[0].rendered_content();
        if !ends_with_char(prefix.as_str(), '\n') {
            prefix.append("\n\n");
        }
        k = 1;
    }
    let ghost start = k as int;
    let ghost lead = prefix@;
    proof {
        assert(messages@.skip(0) =~= messages@);
        assert(prefix@ =~= if start == 1 { system_prefix(messages@[0].rendered()) } else { Seq::empty() });
        assert(out@ + gemma_turns(messages@.skip(start), prefix@) =~= gemma_turns(messages@.skip(start), lead));
    }
    while k < messages.len()
        invariant
            k <= messages@.len(),
            0 <= start <= messages@.len(),
            out@ + gemma_turns(messages@.skip(k as int), prefix@) == gemma_turns(messages@.skip(start), lead),
        decreases messages@.len() - k,
    {
        let ghost before = out@;
        let ghost had = prefix@;
        let m: &ChatMessage = &messages[k];
        proof {
            assert(messages@.skip(k as int)[0] == *m);
            assert(messages@.skip(k as int).skip(1) =~= messages@.skip(k + 1));
        }
        if same_text(m.role.as_str(), "assistant") || same_text(m.role.as_str(), "model") {
            out.append("<start_of_turn>model\n");
            out.append(m.rendered_content().as_str());
            out.append("<end_of_turn>\n");
            assert(out@ + gemma_turns(messages@.skip(k + 1), had) =~= before + gemma_turns(
                messages@.skip(k as int),
                had,
            ));
        } else {
            out.append("<start_of_turn>user\n");
            out.append(prefix.as_str());
            prefix = String::new();
            out.append(m.rendered_content().as_str());
            out.append("<end_of_turn>\n");
            assert(prefix@ =~= Seq::<char>::empty());
            assert(out@ + gemma_turns(messages@.skip(k + 1), prefix@) =~= before + gemma_turns(
                messages@.skip(k as int),
                had,
            ));
        }
        k = k + 1;
    }
    assert(out@ + Seq::<char>::empty() =~= out@);
    out.append("<start_of_turn>model\n");
    out
}

impl ChatTemplate {
    /// Sniffs a template for its distinctive markers. One that has none is
    /// rendered plain.
    pub fn detect(chat_template: Option<&str>) -> (t: ChatTemplate)
        ensures
            t == detected(template_text(chat_template)),
    {
        match chat_template {
            Some(t) => if contains(t, "<|im_start|>") {
                ChatTemplate::ChatMl
            } else if contains(t, "<|start_header_id|>") {
                ChatTemplate::Llama3
            } else if contains(t, "<|user|>") || contains(t, "<|assistant|>") {
                ChatTemplate::GenericRoleMarkers
            } else if contains(t, "<start_of_turn>") {
                ChatTemplate::Gemma
            } else {
                ChatTemplate::Plain
            },
            None => ChatTemplate::Plain,
        }
    }

    /// Like [`Self::detect`], but a real checkpoint without a template
    /// speaks ChatML; byte tokenizers and synthetic fallbacks stay plain.
    pub fn detect_for_gguf(chat_template: Option<&str>, arch: Option<&str>, byte_tokenizer: bool) -> (t: ChatTemplate)
        ensures
            t == (if chat_template is Some && chat_template->0@.len() > 0 {
                detected(template_text(chat_template))
            } else if byte_tokenizer || arch is None {
                ChatTemplate::Plain
            } else {
                ChatTemplate::ChatMl
            }),
    {
        if let Some(t) = chat_template {
            if !t.is_empty() {
                return ChatTemplate::detect(Some(t));
            }
        }
        if byte_tokenizer || arch.is_none() {
            ChatTemplate::Plain
        } else {
            ChatTemplate::ChatMl
        }
    }

    /// Renders a conversation into one prompt.
    pub fn render(&self, messages: &[ChatMessage]) -> (out: String)
        ensures
            out@ == rendering(*self, messages@),
    {
        let mut out: String = String::new();
        match self {
            ChatTemplate::ChatMl => {
                assert forall|m: ChatMessage| #[trigger] chatml_turn()(m) == "<|im_start|>"@ + m.role@ + "\n"@
                    + m.rendered() + "<|im_end|>\n"@ by {}
                push_turns(&mut out, messages, "<|im_start|>", "\n", "<|im_end|>\n", Ghost(chatml_turn()));
                out.append("<|im_start|>assistant\n");
            },
            ChatTemplate::GenericRoleMarkers => {
                push_turns(&mut out, messages, "<|", "|>\n", "</s>\n", Ghost(generic_turn()));
                out.append("<|assistant|>\n");
            },
            ChatTemplate::Llama3 => {
                push_turns(
                    &mut out,
                    messages,
                    "<|start_header_id|>",
                    "<|end_header_id|>\n\n",
                    "<|eot_id|>",
                    Ghost(llama3_turn()),
                );
                out.append("<|start_header_id|>assistant<|end_header_id|>\n\n");
            },
            ChatTemplate::Gemma => {
                out = gemma(messages);
            },
            ChatTemplate::Plain => {
                out = plain(messages);
            },
        }
        assert(out@ =~= rendering(*self, messages@));
        out
    }
}

/// The marker that makes it the assistant's turn.
pub open spec fn generation_prompt(template: ChatTemplate) -> Seq<char> {
    match template {
        ChatTemplate::ChatMl => "<|im_start|>assistant\n"@,
        ChatTemplate::GenericRoleMarkers => "<|assistant|>\n"@,
        ChatTemplate::Llama3 => "<|start_header_id|>assistant<|end_header_id|>\n\n"@,
        ChatTemplate::Gemma => "<start_of_turn>model\n"@,
        ChatTemplate::Plain => Seq::empty(),
    }
}

/// Every rendering ends with its convention's generation prompt.
pub proof fn law_rendering_ends_with_the_generation_prompt(template: ChatTemplate, messages: Seq<ChatMessage>)
    ensures
        ({
            let (all, tail) = (rendering(template, messages), generation_prompt(template));
            &&& all.len() >= tail.len()
            &&& all.subrange(all.len() - tail.len(), all.len() as int) == tail
        }),
{
    let (all, tail) = (rendering(template, messages), generation_prompt(template));
    assert(all.subrange(all.len() - tail.len(), all.len() as int) =~= tail);
}

/// A Gemma conversation that opens with a system message starts its first
/// user turn with that text.
pub proof fn law_gemma_folds_the_system_message(messages: Seq<ChatMessage>)
    requires
        messages.len() >= 2,
        messages[0].role@ == "system"@,
        !is_model_role(messages[1].role@),
    ensures
        rendering(ChatTemplate::Gemma, messages) == "<start_of_turn>user\n"@ + system_prefix(messages[0].rendered())
            + messages[1].rendered() + "<end_of_turn>\n"@ + gemma_turns(messages.skip(2), Seq::empty())
            + "<start_of_turn>model\n"@,
{
    assert(messages.skip(1).skip(1) =~= messages.skip(2));
    assert(messages.skip(1)[0] == messages[1]);
}

/// A turn says what its message says: an extended conversation keeps every
/// earlier turn as it was.
pub proof fn law_history_is_kept(messages: Seq<ChatMessage>, more: ChatMessage, turn: spec_fn(ChatMessage) -> Seq<char>)
    ensures
        turns(messages.push(more), turn) == turns(messages, turn) + turn(more),
{
    assert(messages.push(more).drop_last() =~= messages);
}

/// One more message, whatever its role, adds one ChatML turn with that role
/// and that text behind the turns there are and in front of the generation
/// prompt. An empty conversation is the prompt alone.
pub proof fn law_chatml_renders_every_message(messages: Seq<ChatMessage>, m: ChatMessage)
    ensures
        ({
            let prompt = "<|im_start|>assistant\n"@;
            let before = rendering(ChatTemplate::ChatMl, messages);
            let said = before.take(before.len() - prompt.len());
            &&& before == said + prompt
            &&& rendering(ChatTemplate::ChatMl, messages.push(m)) == said + "<|im_start|>"@ + m.role@ + "\n"@
                + m.rendered() + "<|im_end|>\n"@ + prompt
            &&& messages.len() == 0 ==> said == Seq::<char>::empty()
        }),
{
    let prompt = "<|im_start|>assistant\n"@;
    let before = rendering(ChatTemplate::ChatMl, messages);
    let said = turns(messages, chatml_turn());
    law_history_is_kept(messages, m, chatml_turn());
    assert(before.take(before.len() - prompt.len()) =~= said);
    assert(rendering(ChatTemplate::ChatMl, messages.push(m)) =~= said + "<|im_start|>"@ + m.role@ + "\n"@
        + m.rendered() + "<|im_end|>\n"@ + prompt);
}

/// One more message, whatever its role, adds one turn between generic role
/// markers behind the turns there are.
pub proof fn law_generic_renders_every_message(messages: Seq<ChatMessage>, m: ChatMessage)
    ensures
        ({
            let prompt = "<|assistant|>\n"@;
            let before = rendering(ChatTemplate::GenericRoleMarkers, messages);
            let said = before.take(before.len() - prompt.len());
            &&& before == said + prompt
            &&& rendering(ChatTemplate::GenericRoleMarkers, messages.push(m)) == said + "<|"@ + m.role@ + "|>\n"@
                + m.rendered() + "</s>\n"@ + prompt
            &&& messages.len() == 0 ==> said == Seq::<char>::empty()
        }),
{
    let prompt = "<|assistant|>\n"@;
    let before = rendering(ChatTemplate::GenericRoleMarkers, messages);
    let said = turns(messages, generic_turn());
    law_history_is_kept(messages, m, generic_turn());
    assert(before.take(before.len() - prompt.len()) =~= said);
    assert(rendering(ChatTemplate::GenericRoleMarkers, messages.push(m)) =~= said + "<|"@ + m.role@ + "|>\n"@
        + m.rendered() + "</s>\n"@ + prompt);
}

/// One more message, whatever its role, adds one Llama 3 turn behind the turns
/// there are.
pub proof fn law_llama3_renders_every_message(messages: Seq<ChatMessage>, m: ChatMessage)
    ensures
        ({
            let prompt = "<|start_header_id|>assistant<|end_header_id|>\n\n"@;
            let before = rendering(ChatTemplate::Llama3, messages);
            let said = before.take(before.len() - prompt.len());
            &&& before == said + prompt
            &&& rendering(ChatTemplate::Llama3, messages.push(m)) == said + "<|start_header_id|>"@ + m.role@ + "<|end_header_id|>\n\n"@
                + m.rendered() + "<|eot_id|>"@ + prompt
            &&& messages.len() == 0 ==> said == Seq::<char>::empty()
        }),
{
    let prompt = "<|start_header_id|>assistant<|end_header_id|>\n\n"@;
    let before = rendering(ChatTemplate::Llama3, messages);
    let said = turns(messages, llama3_turn());
    law_history_is_kept(messages, m, llama3_turn());
    assert(before.take(before.len() - prompt.len()) =~= said);
    assert(rendering(ChatTemplate::Llama3, messages.push(m)) =~= said + "<|start_header_id|>"@ + m.role@ + "<|end_header_id|>\n\n"@
        + m.rendered() + "<|eot_id|>"@ + prompt);
}

/// One more message, whatever its role, adds one line with its role and its
/// text, set off by a line break from what there is.
pub proof fn law_plain_renders_every_message(messages: Seq<ChatMessage>, m: ChatMessage)
    ensures
        messages.len() == 0 ==> rendering(ChatTemplate::Plain, messages) == Seq::<char>::empty(),
        messages.len() == 0 ==> rendering(ChatTemplate::Plain, messages.push(m)) == m.role@ + ": "@ + m.rendered(),
        messages.len() > 0 ==> rendering(ChatTemplate::Plain, messages.push(m)) == rendering(
            ChatTemplate::Plain,
            messages,
        ) + "\n"@ + m.role@ + ": "@ + m.rendered(),
{
    assert(messages.push(m).drop_last() =~= messages);
    if messages.len() == 0 {
        assert(plain_lines(messages) =~= Seq::empty());
        assert(messages.push(m).last() == m);
        assert(rendering(ChatTemplate::Plain, messages.push(m)) =~= m.role@ + ": "@ + m.rendered());
    }
}

proof fn lemma_gemma_push(messages: Seq<ChatMessage>, prefix: Seq<char>, m: ChatMessage)
    ensures
        gemma_turns(messages.push(m), prefix) == gemma_turns(messages, prefix) + (if is_model_role(m.role@) {
            "<start_of_turn>model\n"@ + m.rendered() + "<end_of_turn>\n"@
        } else {
            "<start_of_turn>user\n"@ + (if forall|i: int|
                0 <= i < messages.len() ==> is_model_role(#[trigger] messages[i].role@) {
                prefix
            } else {
                Seq::empty()
            }) + m.rendered() + "<end_of_turn>\n"@
        }),
    decreases messages.len(),
{
    let longer = messages.push(m);
    if messages.len() == 0 {
        assert(longer.skip(1) =~= Seq::empty());
        assert(longer[0] == m);
        let none = Seq::<char>::empty();
        assert(gemma_turns(longer.skip(1), prefix) =~= none && gemma_turns(longer.skip(1), none) =~= none);
    } else {
        let rest = messages.skip(1);
        assert(longer.skip(1) =~= rest.push(m));
        assert(longer[0] == messages[0]);
        if is_model_role(messages[0].role@) {
            lemma_gemma_push(rest, prefix, m);
            if forall|i: int| 0 <= i < messages.len() ==> is_model_role(#[trigger] messages[i].role@) {
                assert forall|i: int| 0 <= i < rest.len() implies is_model_role(#[trigger] rest[i].role@) by {
                    assert(rest[i] == messages[i + 1]);
                }
            } else {
                let i = choose|i: int| 0 <= i < messages.len() && !is_model_role(#[trigger] messages[i].role@);
                assert(rest[i - 1] == messages[i]);
            }
        } else {
            lemma_gemma_push(rest, Seq::empty(), m);
        }
    }
    assert(gemma_turns(longer, prefix) =~= gemma_turns(messages, prefix) + (if is_model_role(m.role@) {
        "<start_of_turn>model\n"@ + m.rendered() + "<end_of_turn>\n"@
    } else {
        "<start_of_turn>user\n"@ + (if forall|i: int|
            0 <= i < messages.len() ==> is_model_role(#[trigger] messages[i].role@) {
            prefix
        } else {
            Seq::empty()
        }) + m.rendered() + "<end_of_turn>\n"@
    }));
}

/// One more message, whatever its role, adds one Gemma turn behind the turns
/// there are: the model's for an assistant, the user's for anyone else. Only
/// a system message that opens the conversation adds no turn of its own; its
/// text, set apart by an empty line unless it ends in a line break, goes in
/// front of the first user turn.
pub proof fn law_gemma_renders_every_message(messages: Seq<ChatMessage>, m: ChatMessage)
    ensures
        ({
            let prompt = "<start_of_turn>model\n"@;
            let before = rendering(ChatTemplate::Gemma, messages);
            let said = before.take(before.len() - prompt.len());
            let pending = messages.len() > 0 && messages[0].role@ == "system"@ && forall|i: int|
                1 <= i < messages.len() ==> (#[trigger] messages[i]).role@ == "assistant"@ || messages[i].role@
                    == "model"@;
            let system = messages[0].rendered();
            let lead = if !pending {
                Seq::empty()
            } else if system.len() > 0 && system.last() == '\n' {
                system
            } else {
                system + "\n\n"@
            };
            &&& before == said + prompt
            &&& messages.len() == 0 ==> said == Seq::<char>::empty()
            &&& rendering(ChatTemplate::Gemma, messages.push(m)) == (if messages.len() == 0 && m.role@ == "system"@ {
                prompt
            } else if m.role@ == "assistant"@ || m.role@ == "model"@ {
                said + "<start_of_turn>model\n"@ + m.rendered() + "<end_of_turn>\n"@ + prompt
            } else {
                said + "<start_of_turn>user\n"@ + lead + m.rendered() + "<end_of_turn>\n"@ + prompt
            })
        }),
{
    let prompt = "<start_of_turn>model\n"@;
    let before = rendering(ChatTemplate::Gemma, messages);
    let after = rendering(ChatTemplate::Gemma, messages.push(m));
    let longer = messages.push(m);
    let none = Seq::<char>::empty();
    if messages.len() > 0 && messages[0].role@ == "system"@ {
        let rest = messages.skip(1);
        let lead = system_prefix(messages[0].rendered());
        let said = gemma_turns(rest, lead);
        assert(before.take(before.len() - prompt.len()) =~= said);
        assert(longer.skip(1) =~= rest.push(m));
        lemma_gemma_push(rest, lead, m);
        if forall|i: int|
            1 <= i < messages.len() ==> (#[trigger] messages[i]).role@ == "assistant"@ || messages[i].role@
                == "model"@ {
            assert forall|i: int| 0 <= i < rest.len() implies is_model_role(#[trigger] rest[i].role@) by {
                assert(rest[i] == messages[i + 1]);
            }
        } else {
            let i = choose|i: int|
                1 <= i < messages.len() && !((#[trigger] messages[i]).role@ == "assistant"@ || messages[i].role@
                    == "model"@);
            assert(rest[i - 1] == messages[i]);
        }
        if is_model_role(m.role@) {
            assert(after =~= said + "<start_of_turn>model\n"@ + m.rendered() + "<end_of_turn>\n"@ + prompt);
        } else if forall|i: int| 0 <= i < rest.len() ==> is_model_role(#[trigger] rest[i].role@) {
            assert(after =~= said + "<start_of_turn>user\n"@ + lead + m.rendered() + "<end_of_turn>\n"@ + prompt);
        } else {
            assert(after =~= said + "<start_of_turn>user\n"@ + none + m.rendered() + "<end_of_turn>\n"@ + prompt);
        }
    } else {
        let said = gemma_turns(messages, none);
        assert(before.take(before.len() - prompt.len()) =~= said);
        lemma_gemma_push(messages, none, m);
        if messages.len() == 0 && m.role@ == "system"@ {
            assert(longer.skip(1) =~= Seq::empty());
            assert(after =~= prompt);
        } else {
            assert(longer[0].role@ != "system"@);
            if is_model_role(m.role@) {
                assert(after =~= said + "<start_of_turn>model\n"@ + m.rendered() + "<end_of_turn>\n"@ + prompt);
            } else {
                assert(after =~= said + "<start_of_turn>user\n"@ + none + m.rendered() + "<end_of_turn>\n"@
                    + prompt);
            }
        }
    }
}

/// Which convention a template is taken for: the one whose marker stands
/// anywhere in it, ChatML before Llama 3, Llama 3 before the generic
/// markers, those before Gemma; a template with none of them is plain.
pub proof fn law_a_marker_decides_the_convention(t: Seq<char>)
    ensures
        ({
            let has = |marker: Seq<char>| exists|a: Seq<char>, b: Seq<char>| t == #[trigger] (a + marker + b);
            let chatml = has("<|im_start|>"@);
            let llama3 = has("<|start_header_id|>"@);
            let generic = has("<|user|>"@) || has("<|assistant|>"@);
            let gemma = has("<start_of_turn>"@);
            &&& chatml ==> detected(Some(t)) == ChatTemplate::ChatMl
            &&& !chatml && llama3 ==> detected(Some(t)) == ChatTemplate::Llama3
            &&& !chatml && !llama3 && generic ==> detected(Some(t)) == ChatTemplate::GenericRoleMarkers
            &&& !chatml && !llama3 && !generic && gemma ==> detected(Some(t)) == ChatTemplate::Gemma
            &&& !chatml && !llama3 && !generic && !gemma ==> detected(Some(t)) == ChatTemplate::Plain
        }),
        detected(None) == ChatTemplate::Plain,
{
    reveal_strlit("<|im_start|>");
    reveal_strlit("<|start_header_id|>");
    reveal_strlit("<|user|>");
    reveal_strlit("<|assistant|>");
    reveal_strlit("<start_of_turn>");
    law_occurring_is_being_a_part(t, "<|im_start|>"@);
    law_occurring_is_being_a_part(t, "<|start_header_id|>"@);
    law_occurring_is_being_a_part(t, "<|user|>"@);
    law_occurring_is_being_a_part(t, "<|assistant|>"@);
    law_occurring_is_being_a_part(t, "<start_of_turn>"@);
}

/// The text of a template is the text that was given.
pub proof fn law_a_template_is_its_text(t: &str)
    ensures
        template_text(Some(t)) == Some(t@),
        template_text(None) == None::<Seq<char>>,
{
}

/// Rendering a conversation of one message more, whatever its role: the
/// rendering of the shorter one, with that message's own turn in front of the
/// generation prompt.
pub proof fn law_one_message_more_is_one_turn_more(
    template: &ChatTemplate,
    messages: &[ChatMessage],
    longer: &[ChatMessage],
    m: ChatMessage,
    one: String,
    two: String,
)
    requires
        call_ensures(ChatTemplate::render, (template, messages), one),
        call_ensures(ChatTemplate::render, (template, longer), two),
        longer@ == messages@.push(m),
    ensures
        *template is ChatMl ==> {
            let prompt = "<|im_start|>assistant\n"@;
            let said = one@.take(one@.len() - prompt.len());
            &&& one@ == said + prompt
            &&& two@ == said + "<|im_start|>"@ + m.role@ + "\n"@ + m.rendered() + "<|im_end|>\n"@ + prompt
        },
        *template is GenericRoleMarkers ==> {
            let prompt = "<|assistant|>\n"@;
            let said = one@.take(one@.len() - prompt.len());
            &&& one@ == said + prompt
            &&& two@ == said + "<|"@ + m.role@ + "|>\n"@ + m.rendered() + "</s>\n"@ + prompt
        },
        *template is Llama3 ==> {
            let prompt = "<|start_header_id|>assistant<|end_header_id|>\n\n"@;
            let said = one@.take(one@.len() - prompt.len());
            &&& one@ == said + prompt
            &&& two@ == said + "<|start_header_id|>"@ + m.role@ + "<|end_header_id|>\n\n"@ + m.rendered()
                + "<|eot_id|>"@ + prompt
        },
        *template is Plain && messages@.len() > 0 ==> two@ == one@ + "\n"@ + m.role@ + ": "@ + m.rendered(),
        *template is Plain && messages@.len() == 0 ==> two@ == m.role@ + ": "@ + m.rendered(),
        *template is Gemma && (m.role@ == "assistant"@ || m.role@ == "model"@) ==> {
            let prompt = "<start_of_turn>model\n"@;
            let said = one@.take(one@.len() - prompt.len());
            &&& one@ == said + prompt
            &&& two@ == said + "<start_of_turn>model\n"@ + m.rendered() + "<end_of_turn>\n"@ + prompt
        },
{
    match *template {
        ChatTemplate::ChatMl => law_chatml_renders_every_message(messages@, m),
        ChatTemplate::GenericRoleMarkers => law_generic_renders_every_message(messages@, m),
        ChatTemplate::Llama3 => law_llama3_renders_every_message(messages@, m),
        ChatTemplate::Plain => law_plain_renders_every_message(messages@, m),
        ChatTemplate::Gemma => {
            law_gemma_renders_every_message(messages@, m);
            reveal_strlit("system");
            reveal_strlit("assistant");
            reveal_strlit("model");
            assert("system"@[0] == 's' && "assistant"@[0] == 'a' && "model"@[0] == 'm');
        },
    }
}

/// A checkpoint file speaks the convention of its own template; without one
/// it speaks ChatML if it has an architecture and a vocabulary, and plainly
/// otherwise.
pub proof fn law_a_file_speaks_its_template(t: &str, arch: Option<&str>, byte: bool, one: ChatTemplate, two: ChatTemplate)
    requires
        call_ensures(ChatTemplate::detect_for_gguf, (Some(t), arch, byte), one),
        call_ensures(ChatTemplate::detect_for_gguf, (None, arch, byte), two),
    ensures
        t@.len() > 0 ==> one == detected(Some(t@)),
        t@.len() == 0 ==> one == two,
        two == ChatTemplate::ChatMl <==> arch is Some && !byte,
        two == ChatTemplate::Plain <==> arch is None || byte,
{
}

} // verus!
