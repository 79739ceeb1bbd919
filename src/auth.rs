//! The Basic Authentication decision.
use vstd::prelude::*;
use vstd::string::*;
use vstd::utf8::*;

use crate::config::Config;
use crate::headers::{bytes_of, first_authorization, Header};

verus! {

/// What the authenticator decides for a request.
#[derive(Debug, PartialEq, Eq, Structural)]
pub enum Verdict {
    Authorized,
    Unauthorized,
}

/// The scheme prefix `Basic ` (exact case, one space), as ASCII bytes.
pub open spec fn basic_prefix() -> Seq<u8> {
    seq![66, 97, 115, 105, 99, 32]
}

/// The ASCII byte of `:`.
pub open spec fn colon() -> u8 {
    58
}

/// A header value that reads as text: tab and the visible ASCII characters.
pub open spec fn is_visible_ascii(v: Seq<u8>) -> bool {
    forall|i: int| 0 <= i < v.len() ==> ((32 <= #[trigger] v[i] && v[i] < 127) || v[i] == 9)
}

/// The bytes that a standard Base64 text encodes; `None` where the text is no
/// valid encoding.
pub uninterp spec fn base64_decoded(text: Seq<u8>) -> Option<Seq<u8>>;

/// Relies on `base64::decode`: standard alphabet, padded. It panics only where
/// the length plus 7 overflows.
#[verifier::external_body]
fn decode_base64(text: &[u8]) -> (r: Option<Vec<u8>>)
    requires
        text@.len() + 7 <= usize::MAX,
    ensures
        bytes_of(r) == base64_decoded(text@),
{
    base64::decode(text).ok()
}

/// Relies on `std::str::from_utf8`: it accepts exactly the well-formed UTF-8.
#[verifier::external_body]
fn is_utf8(bytes: &[u8]) -> (r: bool)
    ensures
        r == valid_utf8(bytes@),
{
    std::str::from_utf8(bytes).is_ok()
}

/// The decoded credentials that a header value carries: text, the prefix
/// `Basic `, then Base64. (A value of `usize::MAX` bytes, which no allocation
/// holds, is refused before decoding.)
pub open spec fn credentials_payload(value: Seq<u8>) -> Option<Seq<u8>> {
    if is_visible_ascii(value) && 6 <= value.len() < usize::MAX && value.take(6) == basic_prefix() {
        base64_decoded(value.skip(6))
    } else {
        None
    }
}

pub open spec fn has_no_colon(s: Seq<u8>) -> bool {
    forall|i: int| 0 <= i < s.len() ==> #[trigger] s[i] != colon()
}

/// The payload is UTF-8 text whose split at the first `:` gives exactly
/// `user` and `pass`.
pub open spec fn splits_into(payload: Seq<u8>, user: Seq<u8>, pass: Seq<u8>) -> bool {
    &&& valid_utf8(payload)
    &&& has_no_colon(user)
    &&& payload == user + seq![colon()] + pass
}

/// Whether an `Authorization` value carries exactly the given credentials.
pub open spec fn accepts(value: Seq<u8>, user: Seq<char>, pass: Seq<char>) -> bool {
    match credentials_payload(value) {
        Some(p) => splits_into(p, encode_utf8(user), encode_utf8(pass)),
        None => false,
    }
}

/// Whether a request with these headers is authorized under `config`.
pub open spec fn request_authorized(headers: Seq<Header>, config: Config) -> bool {
    match first_authorization(headers) {
        Some(v) => accepts(v, config.username@, config.password@),
        None => false,
    }
}

fn visible_ascii(v: &[u8]) -> (r: bool)
    ensures
        r == is_visible_ascii(v@),
{
    let mut i: usize = 0;
    while i < v.len()
        invariant
            i <= v@.len(),
            forall|j: int| 0 <= j < i ==> ((32 <= #[trigger] v@[j] && v@[j] < 127) || v@[j] == 9),
        decreases v@.len() - i,
    {
        let b = v[i];
        if !((32 <= b && b < 127) || b == 9) {
            return false;
        }
        i = i + 1;
    }
    true
}

fn starts_with_basic(v: &[u8]) -> (r: bool)
    ensures
        r == (v@.len() >= 6 && v@.take(6) == basic_prefix()),
{
    if v.len() < 6 {
        return false;
    }
    let r = v[0] == 66 && v[1] == 97 && v[2] == 115 && v[3] == 105 && v[4] == 99 && v[5] == 32;
    proof {
        if r {
            assert(v@.take(6) =~= basic_prefix());
        } else if v@.take(6) == basic_prefix() {
            assert(v@.take(6)[0] == v@[0]);
        }
    }
    r
}

/// Whether `payload` is `user`, a `:`, then `pass`, with no `:` in `user`.
fn joined_by_colon(payload: &[u8], user: &[u8], pass: &[u8]) -> (r: bool)
    ensures
        r == (has_no_colon(user@) && payload@ == user@ + seq![colon()] + pass@),
{
    let n = user.len();
    let m = pass.len();
    if payload.len() < n || payload.len() - n < 1 || payload.len() - n - 1 != m {
        proof {
            assert(payload@.len() != (user@ + seq![colon()] + pass@).len());
        }
        return false;
    }
    let ghost whole = user@ + seq![colon()] + pass@;
    let mut i: usize = 0;
    while i < n
        invariant
            n == user@.len(),
            payload@.len() == n + 1 + m,
            whole == user@ + seq![colon()] + pass@,
            i <= n,
            forall|j: int| 0 <= j < i ==> payload@[j] == user@[j] && #[trigger] user@[j] != colon(),
        decreases n - i,
    {
        if user[i] == 58 || payload[i] != user[i] {
            proof {
                if has_no_colon(user@) && payload@ == whole {
                    assert(whole[i as int] == user@[i as int]);
                }
            }
            return false;
        }
        i = i + 1;
    }
    if payload[n] != 58 {
        proof {
            assert(whole[n as int] == colon());
        }
        return false;
    }
    let mut j: usize = 0;
    while j < m
        invariant
            n == user@.len(),
            m == pass@.len(),
            payload@.len() == n + 1 + m,
            n + 1 + m <= usize::MAX,
            whole == user@ + seq![colon()] + pass@,
            j <= m,
            forall|t: int| 0 <= t < j ==> payload@[n + 1 + t] == #[trigger] pass@[t],
        decreases m - j,
    {
        if payload[n + 1 + j] != pass[j] {
            proof {
                if payload@ == whole {
                    assert(whole[n + 1 + j] == pass@[j as int]);
                }
            }
            return false;
        }
        j = j + 1;
    }
    proof {
        assert forall|t: int| 0 <= t < payload@.len() implies payload@[t] == whole[t] by {
            if t < n {
            } else if t == n {
            } else {
                assert(payload@[n + 1 + (t - n - 1)] == pass@[t - n - 1]);
            }
        }
        assert(payload@ =~= whole);
    }
    true
}

/// Decides from the value of the request's first `Authorization` header, if
/// any, whether the request carries the configured credentials.
pub fn authenticate(authorization: &Option<Vec<u8>>, config: &Config) -> (r: Verdict)
    ensures
        (r == Verdict::Authorized) == match bytes_of(*authorization) {
            Some(v) => accepts(v, config.username@, config.password@),
            None => false,
        },
{
    let value = match authorization {
        None => return Verdict::Unauthorized,
        Some(v) => v.as_slice(),
    };
    if !visible_ascii(value) || !starts_with_basic(value) || value.len() == usize::MAX {
        return Verdict::Unauthorized;
    }
    let (_, encoded) = value.split_at(6);
    assert(encoded@ =~= value@.skip(6));
    assert(encoded@.len() + 7 <= usize::MAX);
    let payload = match decode_base64(encoded) {
        None => return Verdict::Unauthorized,
        Some(p) => p,
    };
    if !is_utf8(payload.as_slice()) {
        return Verdict::Unauthorized;
    }
    if joined_by_colon(payload.as_slice(), config.username.as_str().as_bytes(), config.password.as_str().as_bytes()) {
        Verdict::Authorized
    } else {
        Verdict::Unauthorized
    }
}

/// A request without an `Authorization` header is never authorized.
pub proof fn lemma_missing_authorization_rejected(headers: Seq<Header>, config: Config)
    requires
        first_authorization(headers) is None,
    ensures
        !request_authorized(headers, config),
{
}

/// A header value that is not text, lacks the `Basic ` prefix, is no valid
/// Base64, decodes to bytes that are not UTF-8, or decodes to text without a
/// `:`, is never accepted.
pub proof fn lemma_malformed_rejected(headers: Seq<Header>, config: Config, value: Seq<u8>)
    requires
        first_authorization(headers) == Some(value),
        match credentials_payload(value) {
            None => true,
            Some(p) => !valid_utf8(p) || has_no_colon(p),
        },
    ensures
        !request_authorized(headers, config),
{
    if let Some(p) = credentials_payload(value) {
        let user = encode_utf8(config.username@);
        let pass = encode_utf8(config.password@);
        if p == user + seq![colon()] + pass {
            assert(p[user.len() as int] == colon());
        }
    }
}

/// Splitting at the first `:` has one outcome: two joins with a `:`-free head
/// are equal only where heads and tails are.
pub proof fn lemma_split_unique(u1: Seq<u8>, t1: Seq<u8>, u2: Seq<u8>, t2: Seq<u8>)
    requires
        has_no_colon(u1),
        has_no_colon(u2),
        u1 + seq![colon()] + t1 == u2 + seq![colon()] + t2,
    ensures
        u1 == u2,
        t1 == t2,
{
    let w = u1 + seq![colon()] + t1;
    if u1.len() < u2.len() {
        assert(w[u1.len() as int] == colon());
        assert(w[u1.len() as int] == u2[u1.len() as int]);
    } else if u2.len() < u1.len() {
        assert(w[u2.len() as int] == colon());
        assert(w[u2.len() as int] == u1[u2.len() as int]);
    } else {
        assert(u1 =~= w.take(u1.len() as int));
        assert(u2 =~= w.take(u2.len() as int));
        assert(t1 =~= w.skip(u1.len() as int + 1));
        assert(t2 =~= w.skip(u2.len() as int + 1));
    }
}

/// Credentials that split into another pair than the configured one are never
/// accepted.
pub proof fn lemma_other_pair_rejected(headers: Seq<Header>, config: Config, user: Seq<u8>, pass: Seq<u8>)
    requires
        first_authorization(headers) matches Some(v) && credentials_payload(v) == Some(
            user + seq![colon()] + pass,
        ),
        has_no_colon(user),
        user != encode_utf8(config.username@) || pass != encode_utf8(config.password@),
    ensures
        !request_authorized(headers, config),
{
    let cu = encode_utf8(config.username@);
    let cp = encode_utf8(config.password@);
    if request_authorized(headers, config) {
        lemma_split_unique(user, pass, cu, cp);
    }
}

/// A request whose first `Authorization` header is `Basic ` followed by the
/// Base64 of `<user>:<pass>`, for the configured pair, is authorized, provided
/// the configured user name holds no `:` (and the value is shorter than
/// `usize::MAX` bytes).
pub proof fn lemma_configured_pair_accepted(headers: Seq<Header>, config: Config, encoded: Seq<u8>)
    requires
        first_authorization(headers) == Some(basic_prefix() + encoded),
        encoded.len() + 6 < usize::MAX,
        is_visible_ascii(encoded),
        base64_decoded(encoded) == Some(
            encode_utf8(config.username@) + seq![colon()] + encode_utf8(config.password@),
        ),
        has_no_colon(encode_utf8(config.username@)),
    ensures
        request_authorized(headers, config),
{
    let v = basic_prefix() + encoded;
    assert(v.take(6) =~= basic_prefix());
    assert(v.skip(6) =~= encoded);
    assert forall|i: int| 0 <= i < v.len() implies ((32 <= #[trigger] v[i] && v[i] < 127) || v[i] == 9) by {
        if i >= 6 {
            assert(v[i] == encoded[i - 6]);
        }
    }
    let user = encode_utf8(config.username@);
    let pass = encode_utf8(config.password@);
    let sep: Seq<u8> = seq![colon()];
    assert(valid_utf8(sep)) by {
        let b: u8 = 58;
        assert((b & 0x7f) as u32 == 58) by (bit_vector)
            requires
                b == 58,
        ;
        assert(sep[0] == b);
        assert(pop_first_scalar(sep) =~= Seq::<u8>::empty());
        assert(valid_utf8(pop_first_scalar(sep)));
    }
    encode_utf8_valid_utf8(config.username@);
    encode_utf8_valid_utf8(config.password@);
    valid_utf8_concat(user, sep);
    valid_utf8_concat(user + sep, pass);
}

} // verus!
