//! Which model is served, and what its own metadata says about it.
use vstd::prelude::*;
use vstd::string::{StringExecFns, StringSliceAdditionalSpecFns};
use vstd::utf8::encode_utf8;
use crate::api::{debug_quoted, quoted};
use crate::chat_template::{detected, template_text, ChatTemplate};
use crate::json::{json_parsed, parse, read_text_field, text_field};
use crate::text::{digits_value, is_unsigned, occurs_at, parse_unsigned, same_text, unsigned_digits};

verus! {

/// The expert-cache budget of streaming mode when none is spelled out.
pub const DEFAULT_SSD_STREAMING_CACHE_BYTES: u64 = 2147483648;

/// A switch is on.
pub open spec fn is_truthy(raw: Option<&str>) -> bool {
    raw is Some && (raw->0@ == "1"@ || raw->0@ == "true"@ || raw->0@ == "on"@)
}

/// Whether a switch is on.
pub fn env_truthy(raw: Option<&str>) -> (r: bool)
    ensures
        r == is_truthy(raw),
{
    match raw {
        Some(v) => same_text(v, "1") || same_text(v, "true") || same_text(v, "on"),
        None => false,
    }
}

/// What an unreadable budget is answered.
pub open spec fn cache_bytes_message(raw: Seq<char>) -> Seq<char> {
    "FERROX_EXPERT_CACHE_BYTES must be a non-negative integer, got "@ + debug_quoted(raw)
}

/// The expert-streaming cache budget: the one spelled out, or the default
/// of streaming mode; experts are resident without either.
pub fn resolve_expert_cache_bytes(ssd_streaming: Option<&str>, cache_bytes: Option<&str>) -> (r: Result<
    Option<u64>,
    String,
>)
    ensures
        r is Err <==> cache_bytes is Some && !is_unsigned(cache_bytes->0.spec_bytes(), u64::MAX as nat),
        r matches Err(e) ==> e@ == cache_bytes_message(cache_bytes->0@),
        r matches Ok(b) ==> b == (match cache_bytes {
            Some(v) => Some(digits_value(unsigned_digits(v.spec_bytes())) as u64),
            None => if is_truthy(ssd_streaming) {
                Some(DEFAULT_SSD_STREAMING_CACHE_BYTES)
            } else {
                None
            },
        }),
{
    let streaming: bool = env_truthy(ssd_streaming);
    match cache_bytes {
        Some(v) => match parse_unsigned(v, u64::MAX) {
            Some(n) => Ok(Some(n)),
            None => {
                let mut e: String = "FERROX_EXPERT_CACHE_BYTES must be a non-negative integer, got ".to_owned();
                e.append(quoted(v).as_str());
                Err(e)
            },
        },
        None => if streaming {
            Ok(Some(DEFAULT_SSD_STREAMING_CACHE_BYTES))
        } else {
            Ok(None)
        },
    }
}

/// The tokenizer a checkpoint's own metadata names.
#[derive(Clone, Copy, Debug, PartialEq, Eq, Structural)]
pub enum ServerTokenizer {
    Bpe,
    Spm,
    Unigram,
    /// Raw bytes: no real vocabulary is available.
    Byte,
}

/// The tokenizer of a metadata tag; one that is missing or unknown means raw
/// bytes.
pub fn tokenizer_from_gguf(tag: Option<&str>) -> (t: ServerTokenizer)
    ensures
        t == (if tag is Some && tag->0@ == "gpt2"@ {
            ServerTokenizer::Bpe
        } else if tag is Some && tag->0@ == "llama"@ {
            ServerTokenizer::Spm
        } else if tag is Some && tag->0@ == "t5"@ {
            ServerTokenizer::Unigram
        } else {
            ServerTokenizer::Byte
        }),
{
    match tag {
        Some(t) => if same_text(t, "gpt2") {
            ServerTokenizer::Bpe
        } else if same_text(t, "llama") {
            ServerTokenizer::Spm
        } else if same_text(t, "t5") {
            ServerTokenizer::Unigram
        } else {
            ServerTokenizer::Byte
        },
        None => ServerTokenizer::Byte,
    }
}

impl ServerTokenizer {
    /// What the tokenizer is called.
    pub fn kind(&self) -> (s: &'static str)
        ensures
            s@ == (match *self {
                ServerTokenizer::Bpe => "gguf-bpe"@,
                ServerTokenizer::Spm => "gguf-spm"@,
                ServerTokenizer::Unigram => "gguf-unigram"@,
                ServerTokenizer::Byte => "byte (no real vocabulary loaded)"@,
            }),
    {
        match self {
            ServerTokenizer::Bpe => "gguf-bpe",
            ServerTokenizer::Spm => "gguf-spm",
            ServerTokenizer::Unigram => "gguf-unigram",
            ServerTokenizer::Byte => "byte (no real vocabulary loaded)",
        }
    }
}

/// A GLM 5.2 family architecture.
pub open spec fn glm52(arch: Seq<char>) -> bool {
    arch == "glm-dsa"@ || arch == "glm4"@ || arch == "glm4moe"@
}

/// Whether an architecture is of the GLM 5.2 family.
pub fn is_glm52_arch(arch: &str) -> (r: bool)
    ensures
        r == glm52(arch@),
{
    same_text(arch, "glm-dsa") || same_text(arch, "glm4") || same_text(arch, "glm4moe")
}

/// The engine the model registry selects for an architecture, as far as it
/// selects a special one.
#[derive(Clone, Copy, Debug, PartialEq, Eq, Structural)]
pub enum SelectedEngineKind {
    Mla,
    Gemma4,
    Generic,
}

/// The engine that serves a checkpoint.
#[derive(Clone, Copy, Debug, PartialEq, Eq, Structural)]
pub enum EngineKind {
    Gguf,
    Kimi,
    Mla,
    Gemma4,
    Glm52,
}

/// The engine for a checkpoint file: the GLM family is recognized by name,
/// then the registry decides, and everything else is generic.
pub fn engine_for(arch: Option<&str>, selected: Option<SelectedEngineKind>) -> (e: EngineKind)
    ensures
        e == (match arch {
            Some(a) => if glm52(a@) {
                EngineKind::Glm52
            } else if selected == Some(SelectedEngineKind::Mla) {
                EngineKind::Mla
            } else if selected == Some(SelectedEngineKind::Gemma4) {
                EngineKind::Gemma4
            } else {
                EngineKind::Gguf
            },
            None => EngineKind::Gguf,
        }),
{
    match arch {
        Some(a) => if is_glm52_arch(a) {
            EngineKind::Glm52
        } else {
            match selected {
                Some(SelectedEngineKind::Mla) => EngineKind::Mla,
                Some(SelectedEngineKind::Gemma4) => EngineKind::Gemma4,
                _ => EngineKind::Gguf,
            }
        },
        None => EngineKind::Gguf,
    }
}

/// What a checkpoint file's metadata says.
#[derive(Debug)]
pub struct GgufMetadata<'a> {
    pub architecture: Option<&'a str>,
    pub name: Option<&'a str>,
    pub tokenizer_model: Option<&'a str>,
    pub chat_template: Option<&'a str>,
    pub eos_token_id: Option<u64>,
    pub bos_token_id: Option<u64>,
}

/// What the server knows about a loaded model besides its weights.
#[derive(Debug)]
pub struct LoadedModel {
    pub engine: EngineKind,
    pub tokenizer: ServerTokenizer,
    pub eos_id: Option<usize>,
    pub bos_id: Option<usize>,
    /// The model's own name; a generic checkpoint is named elsewhere.
    pub name: Option<String>,
    /// Random weights, not a real checkpoint.
    pub is_synthetic: bool,
    pub chat_template: ChatTemplate,
}

/// The architecture a special engine stands for when the file names none.
pub open spec fn default_arch(engine: EngineKind) -> Seq<char> {
    match engine {
        EngineKind::Glm52 => "glm-dsa"@,
        EngineKind::Mla => "mla"@,
        _ => "gemma4"@,
    }
}

/// The chat convention of a checkpoint.
pub open spec fn convention(template: Option<&str>, has_arch: bool, byte: bool) -> ChatTemplate {
    if template is Some && template->0@.len() > 0 {
        detected(template_text(template))
    } else if byte || !has_arch {
        ChatTemplate::Plain
    } else {
        ChatTemplate::ChatMl
    }
}

/// A token id as an index.
pub open spec fn token_index(id: Option<u64>) -> Option<usize> {
    match id {
        Some(v) => Some(v as usize),
        None => None,
    }
}

fn as_index(id: Option<u64>) -> (i: Option<usize>)
    ensures
        i == token_index(id),
{
    match id {
        Some(v) => Some(v as usize),
        None => None,
    }
}

/// Describes a checkpoint file from its own metadata. A special engine
/// always has an architecture; a generic one has what the file says.
pub fn describe_gguf(meta: &GgufMetadata, engine: EngineKind) -> (m: LoadedModel)
    requires
        engine !is Kimi,
    ensures
        m.engine == engine,
        !m.is_synthetic,
        m.eos_id == token_index(meta.eos_token_id),
        m.bos_id == token_index(meta.bos_token_id),
        m.tokenizer == (if meta.tokenizer_model is Some && meta.tokenizer_model->0@ == "gpt2"@ {
            ServerTokenizer::Bpe
        } else if meta.tokenizer_model is Some && meta.tokenizer_model->0@ == "llama"@ {
            ServerTokenizer::Spm
        } else if meta.tokenizer_model is Some && meta.tokenizer_model->0@ == "t5"@ {
            ServerTokenizer::Unigram
        } else {
            ServerTokenizer::Byte
        }),
        m.chat_template == convention(
            meta.chat_template,
            engine !is Gguf || meta.architecture is Some,
            m.tokenizer is Byte,
        ),
        m.name is Some <==> engine !is Gguf,
        m.name is Some ==> m.name->0@ == (match meta.name {
            Some(n) => n@,
            None => match meta.architecture {
                Some(a) => a@,
                None => default_arch(engine),
            },
        }),
{
    let tokenizer: ServerTokenizer = tokenizer_from_gguf(meta.tokenizer_model);
    let byte: bool = match tokenizer {
        ServerTokenizer::Byte => true,
        _ => false,
    };
    let default: Option<&'static str> = match engine {
        EngineKind::Gguf => None,
        EngineKind::Glm52 => Some("glm-dsa"),
        EngineKind::Mla => Some("mla"),
        _ => Some("gemma4"),
    };
    let arch: Option<&str> = match meta.architecture {
        Some(a) => Some(a),
        None => default,
    };
    let name: Option<String> = match default {
        None => None,
        Some(d) => Some(
            match meta.name {
                Some(n) => n.to_owned(),
                None => match meta.architecture {
                    Some(a) => a.to_owned(),
                    None => d.to_owned(),
                },
            },
        ),
    };
    LoadedModel {
        engine,
        tokenizer,
        eos_id: as_index(meta.eos_token_id),
        bos_id: as_index(meta.bos_token_id),
        name,
        is_synthetic: false,
        chat_template: ChatTemplate::detect_for_gguf(meta.chat_template, arch, byte),
    }
}

/// The template text a tokenizer configuration holds.
pub open spec fn config_template(config: Option<&str>) -> Option<Seq<char>> {
    match config {
        Some(text) => match json_parsed(text@) {
            Ok(v) => text_field(v, "chat_template"@),
            Err(_) => None,
        },
        None => None,
    }
}

/// The chat convention of a checkpoint directory, from the top-level
/// template of its tokenizer configuration.
pub fn kimi_chat_template(config: Option<&str>) -> (t: ChatTemplate)
    ensures
        t == detected(config_template(config)),
{
    match config {
        Some(text) => match parse(text) {
            Ok(v) => ChatTemplate::detect(read_text_field(&v, "chat_template")),
            Err(_) => ChatTemplate::detect(None),
        },
        None => ChatTemplate::detect(None),
    }
}

/// Describes a checkpoint directory: its tokenizer is its own, and the end
/// of sequence is whatever its special tokens call so.
pub fn describe_kimi(eos_token: Option<u32>, config: Option<&str>) -> (r: (Option<usize>, ChatTemplate))
    ensures
        r.0 == (match eos_token {
            Some(v) => Some(v as usize),
            None => None,
        }),
        r.1 == detected(config_template(config)),
{
    let eos_id: Option<usize> = match eos_token {
        Some(v) => Some(v as usize),
        None => None,
    };
    (eos_id, kimi_chat_template(config))
}

/// Where the model comes from.
#[derive(Clone, Copy, Debug, PartialEq, Eq, Structural)]
pub enum ModelSource {
    /// A checkpoint directory.
    KimiDirectory,
    /// A checkpoint file.
    GgufFile,
    /// Random weights of a preset.
    Synthetic,
}

/// A directory and a file are different kinds of checkpoint; without a path
/// the weights are synthetic.
pub fn model_source(has_path: bool, is_dir: bool) -> (s: ModelSource)
    ensures
        s == (if !has_path {
            ModelSource::Synthetic
        } else if is_dir {
            ModelSource::KimiDirectory
        } else {
            ModelSource::GgufFile
        }),
{
    if !has_path {
        ModelSource::Synthetic
    } else if is_dir {
        ModelSource::KimiDirectory
    } else {
        ModelSource::GgufFile
    }
}

/// The presets synthetic weights are made for.
#[derive(Clone, Copy, Debug, PartialEq, Eq, Structural)]
pub enum Preset {
    Glm52,
    DeepseekV4Pro,
    KimiK3,
}

/// What an unknown preset is answered.
pub open spec fn preset_message(preset: Seq<char>) -> Seq<char> {
    "unknown preset '"@ + preset + "'"@
}

/// The preset of a name; the default one when none is named.
pub fn preset_of(name: Option<&str>) -> (r: Result<Preset, String>)
    ensures
        match name {
            None => r == Ok::<Preset, String>(Preset::Glm52),
            Some(n) => if n@ == "glm-5.2"@ {
                r == Ok::<Preset, String>(Preset::Glm52)
            } else if n@ == "deepseek-v4-pro"@ {
                r == Ok::<Preset, String>(Preset::DeepseekV4Pro)
            } else if n@ == "kimi-k3"@ {
                r == Ok::<Preset, String>(Preset::KimiK3)
            } else {
                r is Err && r->Err_0@ == preset_message(n@)
            },
        },
{
    match name {
        None => Ok(Preset::Glm52),
        Some(n) => if same_text(n, "glm-5.2") {
            Ok(Preset::Glm52)
        } else if same_text(n, "deepseek-v4-pro") {
            Ok(Preset::DeepseekV4Pro)
        } else if same_text(n, "kimi-k3") {
            Ok(Preset::KimiK3)
        } else {
            let mut e: String = "unknown preset '".to_owned();
            e.append(n);
            e.append("'");
            Err(e)
        },
    }
}

/// The shape of synthetic weights.
#[derive(Clone, Copy, Debug, PartialEq, Eq, Structural)]
pub struct SyntheticShape {
    pub hidden_dim: usize,
    pub n_heads: usize,
    pub n_kv_heads: usize,
    pub head_dim: usize,
    pub n_experts: usize,
    pub expert_ffn_dim: usize,
    pub n_layers: usize,
    pub vocab_size: usize,
}

/// Small dimensions for any preset: the fallback shows that the server
/// runs, and at most sixteen experts are kept.
pub fn synthetic_shape(preset_experts: usize) -> (s: SyntheticShape)
    ensures
        s == (SyntheticShape {
            hidden_dim: 32,
            n_heads: 4,
            n_kv_heads: 2,
            head_dim: 8,
            n_experts: if preset_experts < 16 { preset_experts } else { 16 },
            expert_ffn_dim: 16,
            n_layers: 2,
            vocab_size: 256,
        }),
        s.hidden_dim == s.n_heads * s.head_dim,
{
    SyntheticShape {
        hidden_dim: 32,
        n_heads: 4,
        n_kv_heads: 2,
        head_dim: 8,
        n_experts: if preset_experts < 16 {
            preset_experts
        } else {
            16
        },
        expert_ffn_dim: 16,
        n_layers: 2,
        vocab_size: 256,
    }
}

/// The synthetic model's description.
pub fn describe_synthetic() -> (m: LoadedModel)
    ensures
        m.engine is Gguf,
        m.tokenizer is Byte,
        m.eos_id is None,
        m.bos_id is None,
        m.name is None,
        m.is_synthetic,
        m.chat_template is Plain,
{
    LoadedModel {
        engine: EngineKind::Gguf,
        tokenizer: ServerTokenizer::Byte,
        eos_id: None,
        bos_id: None,
        name: None,
        is_synthetic: true,
        chat_template: ChatTemplate::Plain,
    }
}

/// Whether every configuration field was read from the file itself: the
/// list of inferred ones then says so in its only entry.
pub fn all_confirmed(best_effort_fields: &[String]) -> (r: bool)
    ensures
        r == (best_effort_fields@.len() == 1 && occurs_at(
            encode_utf8(best_effort_fields@[0]@),
            encode_utf8("none --"@),
            0,
        )),
{
    if best_effort_fields.len() != 1 {
        return false;
    }
    let text: &[u8] = best_effort_fields[0].as_str().as_bytes();
    let lead: &[u8] = "none --".as_bytes();
    if text.len() < lead.len() {
        return false;
    }
    for i in 0usize..lead.len()
        invariant
            lead@.len() <= text@.len(),
            best_effort_fields@.len() == 1,
            text@ == encode_utf8(best_effort_fields@[0]@),
            lead@ == encode_utf8("none --"@),
            forall|k: int| 0 <= k < i ==> text@[k] == lead@[k],
    {
        if text[i] != lead[i] {
            assert(text@.subrange(0, lead@.len() as int)[i as int] != lead@[i as int]);
            return false;
        }
    }
    assert(text@.subrange(0, lead@.len() as int) =~= lead@);
    true
}

/// A switch is on when it reads `1`, `true` or `on`, and off in every other
/// way of writing it or not.
pub proof fn law_switches_are_on_by_three_words(raw: &str)
    ensures
        !is_truthy(None),
        raw@ == "1"@ ==> is_truthy(Some(raw)),
        raw@ == "true"@ ==> is_truthy(Some(raw)),
        raw@ == "on"@ ==> is_truthy(Some(raw)),
        raw@ != "1"@ && raw@ != "true"@ && raw@ != "on"@ ==> !is_truthy(Some(raw)),
        DEFAULT_SSD_STREAMING_CACHE_BYTES == 2 * 1024 * 1024 * 1024,
{
}

/// Three architectures are of the GLM 5.2 family, and no other is.
pub proof fn law_the_glm_family(arch: Seq<char>)
    ensures
        arch == "glm-dsa"@ ==> glm52(arch),
        arch == "glm4"@ ==> glm52(arch),
        arch == "glm4moe"@ ==> glm52(arch),
        arch != "glm-dsa"@ && arch != "glm4"@ && arch != "glm4moe"@ ==> !glm52(arch),
        default_arch(EngineKind::Glm52) == "glm-dsa"@,
        default_arch(EngineKind::Mla) == "mla"@,
        default_arch(EngineKind::Gemma4) == "gemma4"@,
{
}

/// A checkpoint speaks the convention its template shows. One without a
/// template is plain if it has no vocabulary or no architecture, and speaks
/// ChatML otherwise.
pub proof fn law_a_checkpoint_speaks_its_template(template: &str, has_arch: bool, byte: bool)
    ensures
        template@.len() > 0 ==> convention(Some(template), has_arch, byte) == detected(Some(template@)),
        template@.len() == 0 ==> convention(Some(template), has_arch, byte) == convention(None, has_arch, byte),
        convention(None, has_arch, true) == ChatTemplate::Plain,
        convention(None, false, byte) == ChatTemplate::Plain,
        convention(None, true, false) == ChatTemplate::ChatMl,
{
}

/// A token id that fits an index is that index.
pub proof fn law_a_token_id_is_its_index(id: u64)
    requires
        id <= usize::MAX,
    ensures
        token_index(None) is None,
        token_index(Some(id)) is Some,
        token_index(Some(id))->0 == id,
{
}

/// The template of a tokenizer configuration is the text under its
/// `chat_template`; a configuration that is missing, is no JSON or holds no
/// text there has none.
pub proof fn law_a_configuration_holds_its_template(config: &str)
    ensures
        config_template(None) is None,
        json_parsed(config@) is Err ==> config_template(Some(config)) is None,
        json_parsed(config@) is Ok ==> config_template(Some(config)) == text_field(
            json_parsed(config@)->Ok_0,
            "chat_template"@,
        ),
{
}

/// What an unreadable budget and an unknown preset are answered.
pub proof fn law_the_model_messages(raw: Seq<char>)
    ensures
        cache_bytes_message(raw) == "FERROX_EXPERT_CACHE_BYTES must be a non-negative integer, got "@ + debug_quoted(
            raw,
        ),
        preset_message(raw) == "unknown preset '"@ + raw + "'"@,
{
}

/// A budget that is spelled out is that number; without one, streaming mode
/// has two gibibytes and any other mode none; anything else is refused.
pub proof fn law_a_cache_budget_is_what_was_set(
    n: u64,
    text: &str,
    switch: Option<&str>,
    set: Result<Option<u64>, String>,
    unset: Result<Option<u64>, String>,
)
    requires
        text@ == crate::text::decimal_chars(n as nat),
        call_ensures(resolve_expert_cache_bytes, (switch, Some(text)), set),
        call_ensures(resolve_expert_cache_bytes, (switch, None), unset),
    ensures
        set == Ok::<Option<u64>, String>(Some(n)),
        is_truthy(switch) ==> unset == Ok::<Option<u64>, String>(Some(2147483648u64)),
        !is_truthy(switch) ==> unset == Ok::<Option<u64>, String>(None),
{
    let d = crate::text::decimal_chars(n as nat);
    crate::text::law_decimal_reads_back(n as nat);
    crate::text::lemma_digits_encode(d);
    let bytes = d.map_values(|c: char| c as u8);
    assert forall|i: int| 0 <= i < bytes.len() implies 48 <= #[trigger] bytes[i] <= 57 by {
        assert('0' <= d[i] <= '9');
    }
    crate::text::law_unsigned_text(bytes, u64::MAX as nat);
}

/// The tokenizer a tag names, and raw bytes for any other tag or none.
pub proof fn law_tags_name_their_tokenizers(tag: &str, t: ServerTokenizer, none: ServerTokenizer)
    requires
        call_ensures(tokenizer_from_gguf, (Some(tag),), t),
        call_ensures(tokenizer_from_gguf, (None,), none),
    ensures
        tag@ == "gpt2"@ ==> t == ServerTokenizer::Bpe,
        tag@ == "llama"@ ==> t == ServerTokenizer::Spm,
        tag@ == "t5"@ ==> t == ServerTokenizer::Unigram,
        tag@ != "gpt2"@ && tag@ != "llama"@ && tag@ != "t5"@ ==> t == ServerTokenizer::Byte,
        none == ServerTokenizer::Byte,
{
    reveal_strlit("gpt2");
    reveal_strlit("llama");
    reveal_strlit("t5");
    assert("gpt2"@[0] == 'g' && "llama"@[0] == 'l' && "t5"@[0] == 't');
}

/// The engine of a checkpoint: the GLM family by its name, before anything
/// the registry selects, which decides for any other architecture.
pub proof fn law_which_engine_serves(arch: &str, selected: Option<SelectedEngineKind>, e: EngineKind, none: EngineKind)
    requires
        call_ensures(engine_for, (Some(arch), selected), e),
        call_ensures(engine_for, (None, selected), none),
    ensures
        glm52(arch@) ==> e == EngineKind::Glm52,
        !glm52(arch@) && selected == Some(SelectedEngineKind::Mla) ==> e == EngineKind::Mla,
        !glm52(arch@) && selected == Some(SelectedEngineKind::Gemma4) ==> e == EngineKind::Gemma4,
        !glm52(arch@) && selected == Some(SelectedEngineKind::Generic) ==> e == EngineKind::Gguf,
        !glm52(arch@) && selected is None ==> e == EngineKind::Gguf,
        none == EngineKind::Gguf,
{
}

/// A path is a directory or a file; without one the weights are made up, from
/// the preset that is named or the default one.
pub proof fn law_where_the_weights_come_from(
    dir: bool,
    with: ModelSource,
    without: ModelSource,
    name: &str,
    p: Result<Preset, String>,
    default: Result<Preset, String>,
)
    requires
        call_ensures(model_source, (true, dir), with),
        call_ensures(model_source, (false, dir), without),
        call_ensures(preset_of, (Some(name),), p),
        call_ensures(preset_of, (None,), default),
    ensures
        dir ==> with == ModelSource::KimiDirectory,
        !dir ==> with == ModelSource::GgufFile,
        without == ModelSource::Synthetic,
        name@ == "glm-5.2"@ ==> p == Ok::<Preset, String>(Preset::Glm52),
        name@ == "deepseek-v4-pro"@ ==> p == Ok::<Preset, String>(Preset::DeepseekV4Pro),
        name@ == "kimi-k3"@ ==> p == Ok::<Preset, String>(Preset::KimiK3),
        p is Ok <==> name@ == "glm-5.2"@ || name@ == "deepseek-v4-pro"@ || name@ == "kimi-k3"@,
        p is Err ==> p->Err_0@ == "unknown preset '"@ + name@ + "'"@,
        default == Ok::<Preset, String>(Preset::Glm52),
{
    reveal_strlit("glm-5.2");
    reveal_strlit("deepseek-v4-pro");
    reveal_strlit("kimi-k3");
    assert("glm-5.2"@[0] == 'g' && "deepseek-v4-pro"@[0] == 'd' && "kimi-k3"@[0] == 'k');
}

/// Made-up weights are small: never more experts than the preset has nor
/// than sixteen, and heads that make up the hidden state.
pub proof fn law_made_up_weights_are_small(experts: usize, s: SyntheticShape, m: LoadedModel)
    requires
        call_ensures(synthetic_shape, (experts,), s),
        call_ensures(describe_synthetic, (), m),
    ensures
        s.n_experts <= experts,
        s.n_experts <= 16,
        s.n_experts == experts || s.n_experts == 16,
        s.hidden_dim == 32 && s.n_heads == 4 && s.n_kv_heads == 2 && s.head_dim == 8,
        s.expert_ffn_dim == 16 && s.n_layers == 2 && s.vocab_size == 256,
        s.n_heads * s.head_dim == s.hidden_dim,
        m.is_synthetic,
        m.tokenizer is Byte,
        m.chat_template is Plain,
        m.eos_id is None && m.bos_id is None && m.name is None,
{
}

/// A checkpoint file is described by its own metadata: its special tokens,
/// its name or its architecture's, and the convention of its template.
pub proof fn law_a_file_is_described_by_itself(meta: &GgufMetadata, engine: EngineKind, m: LoadedModel)
    requires
        engine !is Kimi,
        call_ensures(describe_gguf, (meta, engine), m),
    ensures
        m.engine == engine,
        !m.is_synthetic,
        meta.eos_token_id is None ==> m.eos_id is None,
        meta.eos_token_id is Some && meta.eos_token_id->0 <= usize::MAX ==> m.eos_id is Some && m.eos_id->0
            == meta.eos_token_id->0,
        meta.bos_token_id is None ==> m.bos_id is None,
        meta.bos_token_id is Some && meta.bos_token_id->0 <= usize::MAX ==> m.bos_id is Some && m.bos_id->0
            == meta.bos_token_id->0,
        engine is Gguf ==> m.name is None,
        engine !is Gguf && meta.name is Some ==> m.name is Some && m.name->0@ == meta.name->0@,
        engine !is Gguf && meta.name is None && meta.architecture is Some ==> m.name is Some && m.name->0@
            == meta.architecture->0@,
        meta.chat_template is Some && meta.chat_template->0@.len() > 0 ==> m.chat_template == detected(
            Some(meta.chat_template->0@),
        ),
{
}

/// Tokenizers are shown by their kinds, and a checkpoint of the other family
/// has its own end token and template.
pub proof fn law_tokenizers_are_shown_by_their_kinds(
    a: &str,
    b: &str,
    c: &str,
    d: &str,
    eos: Option<u32>,
    config: Option<&str>,
    r: (Option<usize>, ChatTemplate),
    t: ChatTemplate,
)
    requires
        call_ensures(ServerTokenizer::kind, (&ServerTokenizer::Bpe,), a),
        call_ensures(ServerTokenizer::kind, (&ServerTokenizer::Spm,), b),
        call_ensures(ServerTokenizer::kind, (&ServerTokenizer::Unigram,), c),
        call_ensures(ServerTokenizer::kind, (&ServerTokenizer::Byte,), d),
        call_ensures(describe_kimi, (eos, config), r),
        call_ensures(kimi_chat_template, (config,), t),
    ensures
        a@ == "gguf-bpe"@,
        b@ == "gguf-spm"@,
        c@ == "gguf-unigram"@,
        d@ == "byte (no real vocabulary loaded)"@,
        r.0 is Some <==> eos is Some,
        r.0 is Some ==> r.0->0 == eos->0,
        r.1 == t,
{
}

/// Everything is confirmed exactly when there is one remark and it begins
/// with the words that say so.
pub proof fn law_one_remark_confirms_everything(fields: &[String], rest: Seq<char>, r: bool)
    requires
        call_ensures(all_confirmed, (fields,), r),
    ensures
        fields@.len() != 1 ==> !r,
        fields@.len() == 1 && fields@[0]@ == "none --"@ + rest ==> r,
{
    if fields@.len() == 1 && fields@[0]@ == "none --"@ + rest {
        crate::text::lemma_encode_concat("none --"@, rest);
        let b = encode_utf8("none --"@);
        assert((b + encode_utf8(rest)).subrange(0, b.len() as int) =~= b);
    }
}

} // verus!
