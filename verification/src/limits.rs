//! Optional bearer-token authentication.
use vstd::prelude::*;
use vstd::string::StringExecFns;
use crate::text::same_text;

verus! {

/// What a caller without the key is told.
pub const UNAUTHORIZED_MESSAGE: &'static str = "invalid or missing API key";

/// What a caller over the rate limit is told.
pub const RATE_LIMITED_MESSAGE: &'static str = "rate limit exceeded";

/// The key every request must carry.
#[derive(Debug)]
pub struct AuthConfig {
    pub api_key: String,
}

impl AuthConfig {
    /// Whether an `Authorization` header, as far as there is a readable
    /// one, carries the configured key as a bearer token.
    pub fn accepts(&self, authorization: Option<&str>) -> (r: bool)
        ensures
            r == (authorization is Some && authorization->0@ == "Bearer "@ + self.api_key@),
    {
        match authorization {
            Some(value) => {
                let mut expected: String = "Bearer ".to_owned();
                expected.append(self.api_key.as_str());
                same_text(value, expected.as_str())
            },
            None => false,
        }
    }
}

/// What a caller is told who may not come in, or not so often.
pub proof fn law_the_limit_messages()
    ensures
        UNAUTHORIZED_MESSAGE@ == "invalid or missing API key"@,
        RATE_LIMITED_MESSAGE@ == "rate limit exceeded"@,
{
}

/// A request comes in exactly with the key as its bearer token.
pub proof fn law_only_the_key_comes_in(auth: &AuthConfig, header: &str, r: bool)
    requires
        call_ensures(AuthConfig::accepts, (auth, Some(header)), r),
    ensures
        r <==> header@ == "Bearer "@ + auth.api_key@,
{
}

} // verus!
