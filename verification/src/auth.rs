//! The values the OAuth-shaped authentication endpoints hand back: the host
//! owns the token (a generated identifier) and the HTTP plumbing; these
//! builders fix what the redirect and the token grant say.

use vstd::prelude::*;

verus! {

use vstd::string::StringExecFns;

/// The body of a token grant.
pub struct TokenResponse {
    pub token_type: String,
    pub access_token: String,
    pub refresh_token: String,
    pub expires_in: u32,
}

/// The token grant for an issued token pair: a bearer token that expires in
/// 360 seconds.
pub fn token_response(access_token: String, refresh_token: String) -> (r: TokenResponse)
    ensures
        r.token_type@ == "Bearer"@,
        r.access_token == access_token,
        r.refresh_token == refresh_token,
        r.expires_in == 360,
{
    TokenResponse { token_type: "Bearer".to_owned(), access_token, refresh_token, expires_in: 360 }
}

/// The location an authorization request is redirected to: the caller's
/// redirect target carrying the authorization code and the echoed state.
pub fn redirect_url(redirect_uri: &String, code: &String, state: &String) -> (r: String)
    ensures
        r@ == redirect_uri@ + "?code="@ + code@ + "&state="@ + state@,
{
    let mut url = redirect_uri.clone();
    url.append("?code=");
    url.append(code.as_str());
    url.append("&state=");
    url.append(state.as_str());
    url
}

} // verus!
