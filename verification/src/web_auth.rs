//! HTTP Basic authentication of the web API.
use vstd::prelude::*;
use vstd::utf8::*;

verus! {

/// The bytes of `"Basic "`, the scheme prefix of a Basic `Authorization` header.
pub open spec fn basic_prefix() -> Seq<u8> {
    seq![0x42u8, 0x61u8, 0x73u8, 0x69u8, 0x63u8, 0x20u8]
}

/// The byte of `':'`, which separates the user name from the password.
pub const COLON: u8 = 0x3a;

/// The result of decoding `input` as standard, padded base64 (RFC 4648 alphabet);
/// `None` when `input` is not such an encoding.
pub uninterp spec fn base64_standard_decode(input: Seq<u8>) -> Option<Seq<u8>>;

/// Index of the first `b` in `s`, or `s.len()` when there is none.
pub open spec fn position_of(s: Seq<u8>, b: u8) -> int
    decreases s.len(),
{
    if s.len() == 0 {
        0
    } else if s[0] == b {
        0
    } else {
        1 + position_of(s.drop_first(), b)
    }
}

/// The user name and password carried by a Basic `Authorization` header, as bytes:
/// the header starts with `"Basic "`, the rest decodes as base64 to UTF-8 text that
/// holds a `':'`, and the text is cut at its first `':'`. `None` otherwise.
pub open spec fn basic_credentials(header: Seq<u8>) -> Option<(Seq<u8>, Seq<u8>)> {
    if header.len() >= 6 && header.take(6) == basic_prefix() {
        match base64_standard_decode(header.skip(6)) {
            Some(decoded) => decoded_credentials(decoded),
            None => None,
        }
    } else {
        None
    }
}

/// The user name and password in the decoded bytes of Basic credentials: the bytes
/// are UTF-8 text that holds a `':'`, cut at its first `':'`. `None` otherwise.
pub open spec fn decoded_credentials(decoded: Seq<u8>) -> Option<(Seq<u8>, Seq<u8>)> {
    let i = position_of(decoded, COLON);
    if valid_utf8(decoded) && i < decoded.len() {
        Some((decoded.take(i), decoded.skip(i + 1)))
    } else {
        None
    }
}

/// What the web API does with a request.
#[derive(Debug, PartialEq)]
pub enum AuthStep {
    /// Serve the request.
    Allow,
    /// Answer `401 Unauthorized` with a Basic challenge.
    Reject,
    /// Look the user up and check the password, then call `finish_authorization`.
    Check { username: String, password: String },
}

/// `base64::engine::general_purpose::STANDARD.decode`: the decoded bytes, or `None`
/// where the crate reports a decoding error.
#[verifier::external_body]
fn decode_base64(input: &[u8]) -> (out: Option<Vec<u8>>)
    ensures
        match out {
            Some(v) => base64_standard_decode(input@) == Some(v@),
            None => base64_standard_decode(input@) is None,
        },
{
    match base64::Engine::decode(&base64::engine::general_purpose::STANDARD, input) {
        Ok(bytes) => Some(bytes),
        Err(_) => None,
    }
}

/// `String::from_utf8`: the text whose UTF-8 encoding is `bytes`, or `None` when
/// `bytes` is not valid UTF-8.
#[verifier::external_body]
fn string_from_utf8(bytes: Vec<u8>) -> (out: Option<String>)
    ensures
        out is Some <==> valid_utf8(bytes@),
        out matches Some(s) ==> encode_utf8(s@) == bytes@,
{
    match String::from_utf8(bytes) {
        Ok(s) => Some(s),
        Err(_) => None,
    }
}

/// Index of the first `b` in `s`, or `s.len()` when there is none.
fn find_byte(s: &[u8], b: u8) -> (i: usize)
    ensures
        i == position_of(s@, b),
        i <= s.len(),
        i < s.len() ==> s@[i as int] == b,
        forall|k: int| 0 <= k < i ==> s@[k] != b,
{
    let mut i: usize = 0;
    while i < s.len()
        invariant
            i <= s.len(),
            forall|k: int| 0 <= k < i ==> s@[k] != b,
        decreases s.len() - i,
    {
        if s[i] == b {
            proof {
                lemma_position_of(s@, b, i as int);
            }
            return i;
        }
        i += 1;
    }
    proof {
        lemma_position_of(s@, b, i as int);
    }
    i
}

/// `position_of` is the first index holding `b`, or the length.
proof fn lemma_position_of(s: Seq<u8>, b: u8, i: int)
    requires
        0 <= i <= s.len(),
        forall|k: int| 0 <= k < i ==> s[k] != b,
        i == s.len() || s[i] == b,
    ensures
        position_of(s, b) == i,
    decreases i,
{
    if i > 0 {
        assert(s[0] != b);
        assert forall|k: int| 0 <= k < i - 1 implies s.drop_first()[k] != b by {
            assert(s.drop_first()[k] == s[k + 1]);
        }
        lemma_position_of(s.drop_first(), b, i - 1);
    } else if s.len() > 0 {
        assert(s[0] == b);
    }
}

/// Whether `s` starts with the bytes of `"Basic "`.
fn starts_with_basic(s: &[u8]) -> (yes: bool)
    ensures
        yes == (s@.len() >= 6 && s@.take(6) == basic_prefix()),
{
    if s.len() < 6 {
        return false;
    }
    let yes = s[0] == 0x42 && s[1] == 0x61 && s[2] == 0x73 && s[3] == 0x69 && s[4] == 0x63
        && s[5] == 0x20;
    if yes {
        assert(s@.take(6) =~= basic_prefix());
    } else {
        assert(s@.take(6) != basic_prefix()) by {
            if s@.take(6) == basic_prefix() {
                assert(s@.take(6)[0] == s@[0]);
                assert(s@.take(6)[1] == s@[1]);
                assert(s@.take(6)[2] == s@[2]);
                assert(s@.take(6)[3] == s@[3]);
                assert(s@.take(6)[4] == s@[4]);
                assert(s@.take(6)[5] == s@[5]);
            }
        }
    }
    yes
}

/// The user name and password of a Basic `Authorization` header value.
pub fn parse_basic_auth(header: &str) -> (credentials: Option<(String, String)>)
    ensures
        match credentials {
            Some((user, password)) => basic_credentials(encode_utf8(header@)) == Some(
                (encode_utf8(user@), encode_utf8(password@)),
            ),
            None => basic_credentials(encode_utf8(header@)) is None,
        },
{
    let bytes = header.as_bytes();
    if !starts_with_basic(bytes) {
        return None;
    }
    let encoded = vstd::slice::slice_subrange(bytes, 6, bytes.len());
    assert(encoded@ =~= encode_utf8(header@).skip(6));
    let decoded = match decode_base64(encoded) {
        Some(d) => d,
        None => return None,
    };
    split_credentials(decoded)
}

/// The user name and password in the decoded bytes of Basic credentials, cut at
/// the first `':'` of the text.
pub fn split_credentials(decoded: Vec<u8>) -> (credentials: Option<(String, String)>)
    ensures
        match credentials {
            Some((user, password)) => decoded_credentials(decoded@) == Some(
                (encode_utf8(user@), encode_utf8(password@)),
            ),
            None => decoded_credentials(decoded@) is None,
        },
{
    let ghost raw = decoded@;
    let i = find_byte(decoded.as_slice(), COLON);
    let text = match string_from_utf8(decoded) {
        Some(t) => t,
        None => return None,
    };
    if i == text.as_str().as_bytes().len() {
        return None;
    }
    let text_bytes = text.as_str().as_bytes();
    assert(text_bytes@ == raw);
    proof {
        vstd::utf8::is_char_boundary_iff_is_leading_byte(raw, i as int);
        assert(raw[i as int] == COLON);
        assert(is_leading_byte_width_1(raw[i as int]));
    }
    let (user, rest) = text.as_str().split_at(i);
    proof {
        let rb = encode_utf8(rest@);
        assert(rb.len() >= 1);
        assert(rb[0] == COLON);
        vstd::utf8::encode_utf8_valid_utf8(rest@);
        assert(length_of_first_scalar(rb) == 1);
        assert(valid_utf8(rb));
        assert(is_char_boundary(pop_first_scalar(rb), 0));
        reveal_with_fuel(is_char_boundary, 2);
        assert(is_char_boundary(rb, 1));
    }
    let (_colon, password) = rest.split_at(1);
    assert(encode_utf8(password@) =~= raw.skip(i + 1));
    Some((user.to_owned(), password.to_owned()))
}

/// Decides what to do with a request to the web API. `require_auth` is the
/// configured setting, off when absent; `header` is the `Authorization` header.
pub fn authorize_request(require_auth: Option<bool>, header: Option<&str>) -> (step: AuthStep)
    ensures
        !(require_auth == Some(true)) ==> step is Allow,
        require_auth == Some(true) ==> match header {
            None => step is Reject,
            Some(h) => match basic_credentials(encode_utf8(h@)) {
                None => step is Reject,
                Some((user, password)) => step matches AuthStep::Check { username, password: pw }
                    && encode_utf8(username@) == user && encode_utf8(pw@) == password,
            },
        },
{
    let required = match require_auth {
        Some(r) => r,
        None => false,
    };
    if !required {
        return AuthStep::Allow;
    }
    match header {
        None => AuthStep::Reject,
        Some(h) => match parse_basic_auth(h) {
            None => AuthStep::Reject,
            Some((username, password)) => AuthStep::Check { username, password },
        },
    }
}

/// Decides a request after the credential check: allowed only when the check ran
/// and accepted the credentials; `None` stands for a failed check.
pub fn finish_authorization(verified: Option<bool>) -> (step: AuthStep)
    ensures
        step is Allow <==> verified == Some(true),
        step is Allow || step is Reject,
{
    match verified {
        Some(true) => AuthStep::Allow,
        _ => AuthStep::Reject,
    }
}

/// The web user created at startup: `admin` with password `admin`, when the web API
/// asks for credentials and there are no web users yet; `None` otherwise.
pub fn default_web_user(require_auth: bool, has_users: bool) -> (user: Option<(&'static str, &'static str)>)
    ensures
        user is Some <==> require_auth && !has_users,
        user matches Some((name, password)) ==> name@ == "admin"@ && password@ == "admin"@,
{
    if require_auth && !has_users {
        Some(("admin", "admin"))
    } else {
        None
    }
}

} // verus!
