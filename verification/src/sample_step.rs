//! One token, chosen under every constraint a request puts on the logits.
use vstd::prelude::*;
use crate::generate::{folds, GenerationParams};

verus! {

/// How the next token is sampled.
#[derive(Clone, Copy, Debug, PartialEq, Eq, Structural)]
pub enum SampleMode {
    /// From the logits as they are.
    Plain,
    /// From the logits with everything no JSON document may hold masked out.
    JsonMasked,
}

/// A request whose logits are masked before sampling.
pub open spec fn masks(params: GenerationParams) -> bool {
    params.json_object
}

/// How a request that asked for a JSON object, or did not, is sampled.
pub open spec fn mode_of(json_object: bool) -> SampleMode {
    if json_object {
        SampleMode::JsonMasked
    } else {
        SampleMode::Plain
    }
}

/// The one place that says how a request is sampled; both decode paths come
/// here. A masked sample needs a vocabulary of logits: a device that folded
/// the arg-max hands back one element, which is a token id.
pub(crate) fn mode_for(json_object: bool, logits_len: usize) -> (m: SampleMode)
    requires
        json_object ==> logits_len > 1,
    ensures
        m == mode_of(json_object),
{
    if json_object {
        SampleMode::JsonMasked
    } else {
        SampleMode::Plain
    }
}

/// The constraint a request samples under when it is served by itself.
pub fn sample_mode(params: &GenerationParams, logits_len: usize) -> (m: SampleMode)
    requires
        masks(*params) ==> logits_len > 1,
    ensures
        m == mode_of(masks(*params)),
{
    mode_for(params.needs_vocab_logits(), logits_len)
}

/// A request that is masked never has its arg-max folded away.
pub proof fn law_a_masked_request_is_never_folded(params: GenerationParams)
    requires
        masks(params),
    ensures
        !folds(params),
{
}

/// A request is masked exactly when it asked for a JSON object.
pub proof fn law_only_json_objects_are_masked(params: GenerationParams)
    ensures
        masks(params) == params.json_object,
        mode_of(true) == SampleMode::JsonMasked,
        mode_of(false) == SampleMode::Plain,
{
}

} // verus!
