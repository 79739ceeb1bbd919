//! The configuration fixed at startup: the upstream origin, the one accepted
//! pair of credentials, and the realm shown to clients that lack them.
use vstd::prelude::*;
use vstd::string::*;
use vstd::utf8::*;

verus! {

/// Immutable settings shared by every request.
pub struct Config {
    /// Scheme of the upstream origin, `http` where the URL names none.
    pub scheme: String,
    /// Host and optional port of the upstream origin.
    pub authority: String,
    pub username: String,
    pub password: String,
    /// Shown to clients in the `WWW-Authenticate` challenge.
    pub realm: String,
}

/// Why a configuration cannot be used.
#[derive(Debug, PartialEq, Eq, Structural)]
pub enum ConfigError {
    /// The upstream origin is not a URI.
    InvalidUpstream,
    /// The upstream origin names no host.
    MissingAuthority,
    /// The realm holds bytes that no header value may carry.
    InvalidRealm,
}

/// The scheme and authority of a URI, as `http::Uri` parses it; `None` where it
/// does not parse.
pub uninterp spec fn parsed_origin(text: Seq<char>) -> Option<(Option<Seq<char>>, Option<Seq<char>>)>;

/// The characters held by an optional string.
pub open spec fn chars_of(o: Option<String>) -> Option<Seq<char>> {
    match o {
        Some(s) => Some(s@),
        None => None,
    }
}

/// Relies on `http::Uri` (through hyper): its `FromStr` parse, and the
/// `scheme_str` and `authority` of the result.
#[verifier::external_body]
fn parse_origin(text: &str) -> (r: Option<(Option<String>, Option<String>)>)
    ensures
        r is None <==> parsed_origin(text@) is None,
        r matches Some((s, a)) ==> parsed_origin(text@) == Some((chars_of(s), chars_of(a))),
{
    match text.parse::<hyper::Uri>() {
        Ok(u) => Some((u.scheme_str().map(|s| s.to_string()), u.authority().map(|a| a.as_str().to_string()))),
        Err(_) => None,
    }
}

/// A byte that a header value may carry: tab, or anything from space up but
/// DEL.
pub open spec fn is_header_value_byte(b: u8) -> bool {
    (32 <= b && b != 127) || b == 9
}

pub open spec fn is_header_value(v: Seq<u8>) -> bool {
    forall|i: int| 0 <= i < v.len() ==> is_header_value_byte(#[trigger] v[i])
}

/// The scheme used where the upstream URL names none.
pub open spec fn default_scheme() -> Seq<char> {
    "http"@
}

/// The challenge sent with a 401: `Basic realm="<realm>", charset="UTF-8"`.
pub open spec fn challenge_text(realm: Seq<char>) -> Seq<char> {
    "Basic realm=\""@ + realm + "\", charset=\"UTF-8\""@
}

/// What `Config::new` makes of its inputs.
pub open spec fn config_outcome(proxy: Seq<char>, realm: Seq<char>) -> Result<(Seq<char>, Seq<char>), ConfigError> {
    match parsed_origin(proxy) {
        None => Err(ConfigError::InvalidUpstream),
        Some((scheme, authority)) => match authority {
            None => Err(ConfigError::MissingAuthority),
            Some(a) => if a.len() == 0 {
                Err(ConfigError::MissingAuthority)
            } else if !is_header_value(encode_utf8(realm)) {
                Err(ConfigError::InvalidRealm)
            } else {
                Ok((
                    match scheme {
                        Some(s) => s,
                        None => default_scheme(),
                    },
                    a,
                ))
            },
        },
    }
}

fn header_value_bytes(v: &[u8]) -> (r: bool)
    ensures
        r == is_header_value(v@),
{
    let mut i: usize = 0;
    while i < v.len()
        invariant
            i <= v@.len(),
            forall|j: int| 0 <= j < i ==> is_header_value_byte(#[trigger] v@[j]),
        decreases v@.len() - i,
    {
        let b = v[i];
        if !((32 <= b && b != 127) || b == 9) {
            return false;
        }
        i = i + 1;
    }
    true
}

impl Config {
    /// Well formed: a non-empty authority, and a realm that fits in a header.
    pub open spec fn wf(&self) -> bool {
        &&& self.authority@.len() > 0
        &&& is_header_value(encode_utf8(self.realm@))
    }

    /// Builds the configuration from the upstream URL, the credentials and the
    /// realm. Only the scheme and authority of the URL are kept.
    pub fn new(proxy: &str, username: String, password: String, realm: String) -> (r: Result<Config, ConfigError>)
        ensures
            match config_outcome(proxy@, realm@) {
                Ok((scheme, authority)) => r matches Ok(c) && c.scheme@ == scheme && c.authority@
                    == authority && c.username@ == username@ && c.password@ == password@ && c.realm@
                    == realm@,
                Err(e) => r == Err::<Config, ConfigError>(e),
            },
            r matches Ok(c) ==> c.wf(),
    {
        let origin = parse_origin(proxy);
        let (scheme, authority) = match origin {
            None => return Err(ConfigError::InvalidUpstream),
            Some(pair) => pair,
        };
        let authority = match authority {
            None => return Err(ConfigError::MissingAuthority),
            Some(a) => a,
        };
        if authority.as_str().is_empty() {
            return Err(ConfigError::MissingAuthority);
        }
        if !header_value_bytes(realm.as_str().as_bytes()) {
            return Err(ConfigError::InvalidRealm);
        }
        let scheme = match scheme {
            Some(s) => s,
            None => String::from_str("http"),
        };
        Ok(Config { scheme, authority, username, password, realm })
    }

    /// The `WWW-Authenticate` value sent with a 401.
    pub fn challenge(&self) -> (r: String)
        ensures
            r@ == challenge_text(self.realm@),
    {
        let mut s = String::from_str("Basic realm=\"");
        s.append(self.realm.as_str());
        s.append("\", charset=\"UTF-8\"");
        s
    }
}

} // verus!
