//! Identity sessions: a signed token carried in a cookie. The token is
//! minted and checked by an outside signer; everything around it — the
//! builder, the claims, the cookie bookkeeping — is verified here.

use vstd::prelude::*;
use vstd::utf8::encode_utf8;

use crate::ascii::{all_field_bytes, str_bytes};
use crate::names::{cookie_header_bytes, set_cookie_bytes, spec_set_cookie};
use crate::parse::field_bytes_ok;
use crate::request::Request;
use crate::server::response_writer::ResponseWriter;

verus! {

/// Error for identity handling: minting or reading the token failed.
#[derive(Debug)]
pub enum IdentityFail {
    /// The token could not be minted.
    Encode,
    /// The token could not be read or did not validate.
    Decode,
}

/// Mint a signed token for the claims `exp`, `iss`, `sub`.
///
/// Relies on `jsonwebtoken::encode` with the default (HS256) header.
/// The signer runs through the process-wide crypto provider, which the
/// host may replace, so nothing is promised of the token's value; the
/// functions around this call state what holds whatever comes back.
#[verifier::external_body]
fn jwt_encode(exp: u64, iss: &str, sub: &str, key: &str) -> (r: Option<String>) {
    let mut claims = serde_json::Map::new();
    claims.insert("exp".to_owned(), serde_json::Value::from(exp));
    claims.insert("iss".to_owned(), serde_json::Value::from(iss));
    claims.insert("sub".to_owned(), serde_json::Value::from(sub));
    let key = jsonwebtoken::EncodingKey::from_secret(key.as_bytes());
    jsonwebtoken::encode(
        &jsonwebtoken::Header::default(),
        &serde_json::Value::Object(claims),
        &key,
    ).ok()
}

/// Read a signed token back into its claims.
///
/// Relies on `jsonwebtoken::decode` with the default validation, which
/// checks the signature against the key and the expiry against the
/// clock of this machine; nothing is promised of the outcome. Two
/// caveats of that library: the expiry check aborts if the system
/// clock reads before 1970, and its provider lookup aborts if the
/// embedding build also enables its other crypto backend.
#[verifier::external_body]
fn jwt_decode(token: &str, key: &str) -> (r: Option<(u64, String, String)>) {
    let decoding_key = jsonwebtoken::DecodingKey::from_secret(key.as_bytes());
    let validation = jsonwebtoken::Validation::default();
    let data = jsonwebtoken::decode::<serde_json::Value>(token, &decoding_key, &validation).ok()?;
    let exp = data.claims.get("exp")?.as_u64()?;
    let iss = data.claims.get("iss")?.as_str()?.to_owned();
    let sub = data.claims.get("sub")?.as_str()?.to_owned();
    Some((exp, iss, sub))
}

/// The rendering the outside cookie library gives a cookie built from
/// these parts, per its display form: `name=value`, the enabled flags,
/// then the path and the age, in its fixed order.
pub open spec fn spec_cookie_render(
    name: Seq<char>,
    value: Seq<char>,
    path: Seq<char>,
    max_age_secs: u64,
    http_only: bool,
    secure: bool,
) -> Seq<char> {
    name + "="@ + value + (if http_only {
        "; HttpOnly"@
    } else {
        Seq::<char>::empty()
    }) + (if secure {
        "; Secure"@
    } else {
        Seq::<char>::empty()
    }) + "; Path="@ + path + "; Max-Age="@ + crate::ascii::dec_chars(max_age_secs as nat)
}

/// Render a cookie for a `Set-Cookie` header.
///
/// Relies on `cookie::Cookie`'s display form: `name=value`, then
/// `; HttpOnly` and `; Secure` when set, `; Path=`, and `; Max-Age=`
/// with the whole seconds, exactly as `spec_cookie_render` states.
#[verifier::external_body]
fn cookie_string(
    name: &str,
    value: &str,
    path: &str,
    max_age_secs: u64,
    http_only: bool,
    secure: bool,
) -> (r: String)
    requires
        max_age_secs <= 0x7fff_ffff_ffff_ffff,
    ensures
        r@ == spec_cookie_render(name@, value@, path@, max_age_secs, http_only, secure),
{
    let c = cookie::Cookie::build((name, value))
        .path(path.to_owned())
        .max_age(time::Duration::seconds(max_age_secs as i64))
        .http_only(http_only)
        .secure(secure)
        .build();
    c.to_string()
}

/// What an outside cookie parser reads out of one cookie pair: a
/// deterministic function of the text.
pub uninterp spec fn cookie_pair_of(s: Seq<char>) -> Option<(Seq<char>, Seq<char>)>;

/// Read one `name=value` cookie pair.
///
/// Relies on `cookie::Cookie::parse`: the pair it reads is a function
/// of the input text alone, named by `cookie_pair_of`.
#[verifier::external_body]
fn cookie_parse(s: &str) -> (r: Option<(String, String)>)
    ensures
        match r {
            Some(p) => cookie_pair_of(s@) == Some((p.0@, p.1@)),
            None => cookie_pair_of(s@) is None,
        },
{
    match cookie::Cookie::parse(s) {
        Ok(c) => Some((c.name().to_owned(), c.value().to_owned())),
        Err(_) => None,
    }
}

/// A configured identity service.
pub struct Identity {
    pub(crate) server_key: String,
    pub(crate) issuer: Option<String>,
    pub(crate) expiration_secs: u64,
    pub(crate) cookie_name: String,
    pub(crate) cookie_path: String,
    pub(crate) cookie_secure: bool,
    pub(crate) cookie_http_only: bool,
}

/// Builder for `Identity`.
pub struct IdentityBuilder {
    pub(crate) server_key: String,
    pub(crate) issuer: Option<String>,
    pub(crate) expiration_secs: u64,
    pub(crate) cookie_name: Option<String>,
    pub(crate) cookie_path: Option<String>,
    pub(crate) cookie_secure: bool,
    pub(crate) cookie_http_only: bool,
}

impl Identity {
    pub closed spec fn spec_server_key(&self) -> Seq<char> {
        self.server_key@
    }

    pub closed spec fn spec_issuer(&self) -> Option<Seq<char>> {
        match self.issuer {
            Some(ref s) => Some(s@),
            None => None,
        }
    }

    pub closed spec fn spec_expiration_secs(&self) -> u64 {
        self.expiration_secs
    }

    pub closed spec fn spec_cookie_name(&self) -> Seq<char> {
        self.cookie_name@
    }

    pub closed spec fn spec_cookie_path(&self) -> Seq<char> {
        self.cookie_path@
    }

    pub closed spec fn spec_cookie_secure(&self) -> bool {
        self.cookie_secure
    }

    pub closed spec fn spec_cookie_http_only(&self) -> bool {
        self.cookie_http_only
    }

    /// Start building an identity service around a signing key.
    pub fn build(server_key: &str) -> (r: IdentityBuilder)
        ensures
            r.spec_server_key() == server_key@,
            r.spec_issuer() is None,
            r.spec_expiration_secs() == 86400,
            r.spec_cookie_name() is None,
            r.spec_cookie_path() is None,
            r.spec_cookie_secure(),
            r.spec_cookie_http_only(),
    {
        IdentityBuilder::new(server_key)
    }

    /// Mint a token for a user: the expiry is the override or the
    /// configured lifetime from `now_secs`, the issuer and user claims
    /// default to empty. The signing itself is the outside signer's,
    /// and nothing is promised of the token's value; callers state
    /// what they do with whatever token came back.
    pub fn make_token(&self, user: Option<&str>, expiration: Option<u64>, now_secs: u64) -> (r:
        Result<String, IdentityFail>)
        requires
            expiration is None ==> self.spec_expiration_secs() + now_secs <= u64::MAX,
    {
        let exp: u64 = match expiration {
            Some(e) => e,
            None => self.expiration_secs + now_secs,
        };
        let iss: &str = match &self.issuer {
            Some(i) => i.as_str(),
            None => "",
        };
        let sub: &str = match user {
            Some(u) => u,
            None => "",
        };
        proof {
            reveal_strlit("");
            assert(""@ =~= Seq::<char>::empty());
        }
        match jwt_encode(exp, iss, sub, self.server_key.as_str()) {
            Some(t) => Ok(t),
            None => Err(IdentityFail::Encode),
        }
    }

    /// Set an authorizing cookie on the response: a `Set-Cookie` header
    /// whose value renders a cookie carrying a fresh token for the
    /// user. When the outside renderings do not fit in a header value,
    /// the response is left unchanged.
    pub fn set_auth_token(
        &self,
        user: &str,
        resp_wtr: &mut ResponseWriter,
        now_secs: u64,
    ) -> (r: Result<(), IdentityFail>)
        requires
            old(resp_wtr).wf(),
            self.spec_expiration_secs() + now_secs <= u64::MAX,
            self.spec_expiration_secs() <= 0x7fff_ffff_ffff_ffff,
        ensures
            final(resp_wtr).wf(),
            final(resp_wtr).spec_now() == old(resp_wtr).spec_now(),
            r matches Ok(()) ==> exists|token: Seq<char>|
                final(resp_wtr).spec_response().spec_headers() == (if all_field_bytes(
                    encode_utf8(
                        #[trigger] spec_cookie_render(
                            self.spec_cookie_name(),
                            token,
                            self.spec_cookie_path(),
                            self.spec_expiration_secs(),
                            self.spec_cookie_http_only(),
                            self.spec_cookie_secure(),
                        ),
                    ),
                ) {
                    old(resp_wtr).spec_response().spec_headers().push(
                        (
                            spec_set_cookie(),
                            encode_utf8(
                                spec_cookie_render(
                                    self.spec_cookie_name(),
                                    token,
                                    self.spec_cookie_path(),
                                    self.spec_expiration_secs(),
                                    self.spec_cookie_http_only(),
                                    self.spec_cookie_secure(),
                                ),
                            ),
                        ),
                    )
                } else {
                    old(resp_wtr).spec_response().spec_headers()
                }),
    {
        let token = match self.make_token(Some(user), None, now_secs) {
            Ok(t) => t,
            Err(e) => {
                return Err(e);
            },
        };
        let rendered = cookie_string(
            self.cookie_name.as_str(),
            token.as_str(),
            self.cookie_path.as_str(),
            self.expiration_secs,
            self.cookie_http_only,
            self.cookie_secure,
        );
        let value = str_bytes(rendered.as_str());
        if field_bytes_ok(value.as_slice()) {
            let name = set_cookie_bytes();
            proof {
                crate::server::decode::lemma_lower_fixpoint(spec_set_cookie());
            }
            resp_wtr.append_header(name.as_slice(), value);
        }
        proof {
            assert(rendered@ == spec_cookie_render(
                self.spec_cookie_name(),
                token@,
                self.spec_cookie_path(),
                self.spec_expiration_secs(),
                self.spec_cookie_http_only(),
                self.spec_cookie_secure(),
            ));
        }
        Ok(())
    }

    /// Set an expired, empty cookie, which logs the user out. When the
    /// outside renderings do not fit in a header value, the response is
    /// left unchanged.
    pub fn forget(&self, resp_wtr: &mut ResponseWriter, now_secs: u64) -> (r: Result<
        (),
        IdentityFail,
    >)
        requires
            old(resp_wtr).wf(),
        ensures
            final(resp_wtr).wf(),
            final(resp_wtr).spec_now() == old(resp_wtr).spec_now(),
            r matches Ok(()) ==> exists|token: Seq<char>|
                final(resp_wtr).spec_response().spec_headers() == (if all_field_bytes(
                    encode_utf8(
                        #[trigger] spec_cookie_render(
                            self.spec_cookie_name(),
                            token,
                            self.spec_cookie_path(),
                            0u64,
                            self.spec_cookie_http_only(),
                            self.spec_cookie_secure(),
                        ),
                    ),
                ) {
                    old(resp_wtr).spec_response().spec_headers().push(
                        (
                            spec_set_cookie(),
                            encode_utf8(
                                spec_cookie_render(
                                    self.spec_cookie_name(),
                                    token,
                                    self.spec_cookie_path(),
                                    0u64,
                                    self.spec_cookie_http_only(),
                                    self.spec_cookie_secure(),
                                ),
                            ),
                        ),
                    )
                } else {
                    old(resp_wtr).spec_response().spec_headers()
                }),
    {
        let token = match self.make_token(None, Some(0), now_secs) {
            Ok(t) => t,
            Err(e) => {
                return Err(e);
            },
        };
        let rendered = cookie_string(
            self.cookie_name.as_str(),
            token.as_str(),
            self.cookie_path.as_str(),
            0,
            self.cookie_http_only,
            self.cookie_secure,
        );
        let value = str_bytes(rendered.as_str());
        if field_bytes_ok(value.as_slice()) {
            let name = set_cookie_bytes();
            proof {
                crate::server::decode::lemma_lower_fixpoint(spec_set_cookie());
            }
            resp_wtr.append_header(name.as_slice(), value);
        }
        proof {
            assert(rendered@ == spec_cookie_render(
                self.spec_cookie_name(),
                token@,
                self.spec_cookie_path(),
                0u64,
                self.spec_cookie_http_only(),
                self.spec_cookie_secure(),
            ));
        }
        Ok(())
    }

    /// The user the request's cookie authorizes, if its token reads
    /// back and validates under this service's key. The expiry check is
    /// the outside validator's and follows this machine's clock.
    pub fn authorized_user(&self, req: &Request) -> (r: Option<String>) {
        let cookie_header = cookie_header_bytes();
        let raw = match req.header(cookie_header.as_slice()) {
            Some(v) => v,
            None => {
                return None;
            },
        };
        let raw_text = match crate::ascii::bytes_to_string(raw.clone()) {
            Some(s) => s,
            None => {
                return None;
            },
        };
        let (name, value) = match cookie_parse(raw_text.as_str()) {
            Some(p) => p,
            None => {
                return None;
            },
        };
        if !name.eq(&self.cookie_name) {
            return None;
        }
        match jwt_decode(value.as_str(), self.server_key.as_str()) {
            Some((_exp, _iss, sub)) => Some(sub),
            None => None,
        }
    }
}

impl IdentityBuilder {
    pub closed spec fn spec_server_key(&self) -> Seq<char> {
        self.server_key@
    }

    pub closed spec fn spec_issuer(&self) -> Option<Seq<char>> {
        match self.issuer {
            Some(ref s) => Some(s@),
            None => None,
        }
    }

    pub closed spec fn spec_expiration_secs(&self) -> u64 {
        self.expiration_secs
    }

    pub closed spec fn spec_cookie_name(&self) -> Option<Seq<char>> {
        match self.cookie_name {
            Some(ref s) => Some(s@),
            None => None,
        }
    }

    pub closed spec fn spec_cookie_path(&self) -> Option<Seq<char>> {
        match self.cookie_path {
            Some(ref s) => Some(s@),
            None => None,
        }
    }

    pub closed spec fn spec_cookie_secure(&self) -> bool {
        self.cookie_secure
    }

    pub closed spec fn spec_cookie_http_only(&self) -> bool {
        self.cookie_http_only
    }

    /// Start from a signing key: a day of validity, cookie flags on,
    /// name and path left for `finish` to default.
    pub fn new(server_key: &str) -> (r: IdentityBuilder)
        ensures
            r.spec_server_key() == server_key@,
            r.spec_issuer() is None,
            r.spec_expiration_secs() == 86400,
            r.spec_cookie_name() is None,
            r.spec_cookie_path() is None,
            r.spec_cookie_secure(),
            r.spec_cookie_http_only(),
    {
        IdentityBuilder {
            server_key: server_key.to_owned(),
            issuer: None,
            expiration_secs: 86400,
            cookie_name: None,
            cookie_path: None,
            cookie_secure: true,
            cookie_http_only: true,
        }
    }

    /// Choose the cookie's name.
    pub fn cookie_name(self, name: &str) -> (r: IdentityBuilder)
        ensures
            r.spec_cookie_name() == Some(name@),
            r.spec_server_key() == self.spec_server_key(),
            r.spec_issuer() == self.spec_issuer(),
            r.spec_expiration_secs() == self.spec_expiration_secs(),
            r.spec_cookie_path() == self.spec_cookie_path(),
            r.spec_cookie_secure() == self.spec_cookie_secure(),
            r.spec_cookie_http_only() == self.spec_cookie_http_only(),
    {
        let mut this = self;
        this.cookie_name = Some(name.to_owned());
        this
    }

    /// Choose the cookie's path.
    pub fn cookie_path(self, path: &str) -> (r: IdentityBuilder)
        ensures
            r.spec_cookie_path() == Some(path@),
            r.spec_server_key() == self.spec_server_key(),
            r.spec_issuer() == self.spec_issuer(),
            r.spec_expiration_secs() == self.spec_expiration_secs(),
            r.spec_cookie_name() == self.spec_cookie_name(),
            r.spec_cookie_secure() == self.spec_cookie_secure(),
            r.spec_cookie_http_only() == self.spec_cookie_http_only(),
    {
        let mut this = self;
        this.cookie_path = Some(path.to_owned());
        this
    }

    /// Whether the cookie is for secure transport only.
    pub fn cookie_secure(self, secure: bool) -> (r: IdentityBuilder)
        ensures
            r.spec_cookie_secure() == secure,
            r.spec_server_key() == self.spec_server_key(),
            r.spec_issuer() == self.spec_issuer(),
            r.spec_expiration_secs() == self.spec_expiration_secs(),
            r.spec_cookie_name() == self.spec_cookie_name(),
            r.spec_cookie_path() == self.spec_cookie_path(),
            r.spec_cookie_http_only() == self.spec_cookie_http_only(),
    {
        let mut this = self;
        this.cookie_secure = secure;
        this
    }

    /// Whether the cookie is kept from scripts.
    pub fn cookie_http_only(self, http_only: bool) -> (r: IdentityBuilder)
        ensures
            r.spec_cookie_http_only() == http_only,
            r.spec_server_key() == self.spec_server_key(),
            r.spec_issuer() == self.spec_issuer(),
            r.spec_expiration_secs() == self.spec_expiration_secs(),
            r.spec_cookie_name() == self.spec_cookie_name(),
            r.spec_cookie_path() == self.spec_cookie_path(),
            r.spec_cookie_secure() == self.spec_cookie_secure(),
    {
        let mut this = self;
        this.cookie_http_only = http_only;
        this
    }

    /// Set the issuer claim for minted tokens.
    pub fn issuer(self, issuer: &str) -> (r: IdentityBuilder)
        ensures
            r.spec_issuer() == Some(issuer@),
            r.spec_server_key() == self.spec_server_key(),
            r.spec_expiration_secs() == self.spec_expiration_secs(),
            r.spec_cookie_name() == self.spec_cookie_name(),
            r.spec_cookie_path() == self.spec_cookie_path(),
            r.spec_cookie_secure() == self.spec_cookie_secure(),
            r.spec_cookie_http_only() == self.spec_cookie_http_only(),
    {
        let mut this = self;
        this.issuer = Some(issuer.to_owned());
        this
    }

    /// How long a minted token stays valid, in seconds.
    pub fn expiration_time(self, expiration_secs: u64) -> (r: IdentityBuilder)
        ensures
            r.spec_expiration_secs() == expiration_secs,
            r.spec_server_key() == self.spec_server_key(),
            r.spec_issuer() == self.spec_issuer(),
            r.spec_cookie_name() == self.spec_cookie_name(),
            r.spec_cookie_path() == self.spec_cookie_path(),
            r.spec_cookie_secure() == self.spec_cookie_secure(),
            r.spec_cookie_http_only() == self.spec_cookie_http_only(),
    {
        let mut this = self;
        this.expiration_secs = expiration_secs;
        this
    }

    /// Finish: the cookie name defaults to `jwt`, its path to `/`.
    pub fn finish(self) -> (r: Identity)
        ensures
            r.spec_server_key() == self.spec_server_key(),
            r.spec_issuer() == self.spec_issuer(),
            r.spec_expiration_secs() == self.spec_expiration_secs(),
            r.spec_cookie_name() == (match self.spec_cookie_name() {
                Some(n) => n,
                None => "jwt"@,
            }),
            r.spec_cookie_path() == (match self.spec_cookie_path() {
                Some(p) => p,
                None => "/"@,
            }),
            r.spec_cookie_secure() == self.spec_cookie_secure(),
            r.spec_cookie_http_only() == self.spec_cookie_http_only(),
    {
        let cookie_name = match self.cookie_name {
            Some(n) => n,
            None => "jwt".to_owned(),
        };
        let cookie_path = match self.cookie_path {
            Some(p) => p,
            None => "/".to_owned(),
        };
        Identity {
            server_key: self.server_key,
            issuer: self.issuer,
            expiration_secs: self.expiration_secs,
            cookie_name,
            cookie_path,
            cookie_secure: self.cookie_secure,
            cookie_http_only: self.cookie_http_only,
        }
    }
}

} // verus!
