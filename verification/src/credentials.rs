//! Salted password hashes in the `salt:hash` format kept in the web user table.
use vstd::prelude::*;
use vstd::utf8::*;
use crate::text::{bytes_equal, concat_bytes, join_with, push_char, split_on};

verus! {

/// The byte of `':'`, which separates the salt from the digest.
pub const COLON: u8 = 0x3a;

/// Lower-case hexadecimal digit for a value below 16.
pub open spec fn hex_digit(n: int) -> char {
    if n < 10 {
        (n + 48) as char
    } else {
        (n + 87) as char
    }
}

/// Lower-case hexadecimal text of `bytes`, two digits per byte, high nibble first.
pub open spec fn hex_lower(bytes: Seq<u8>) -> Seq<char>
    decreases bytes.len(),
{
    if bytes.len() == 0 {
        Seq::empty()
    } else {
        seq![hex_digit((bytes[0] / 16) as int), hex_digit((bytes[0] % 16) as int)] + hex_lower(bytes.drop_first())
    }
}

/// Lower-case hexadecimal text of `n` without leading zeros ("0" for zero), as `{:x}` prints it.
pub open spec fn hex_of_nat(n: nat) -> Seq<char>
    decreases n,
{
    if n < 16 {
        seq![hex_digit(n as int)]
    } else {
        hex_of_nat(n / 16).push(hex_digit((n % 16) as int))
    }
}

/// The SHA-256 digest of `data`.
pub uninterp spec fn sha256(data: Seq<u8>) -> Seq<u8>;

/// The stored form of a password: the salt, a colon, and the lower-case hex of
/// SHA-256 over the salt's bytes followed by the password's bytes.
pub open spec fn salted_hash(salt: Seq<char>, password: Seq<char>) -> Seq<char> {
    salt + seq![':'] + hex_lower(sha256(encode_utf8(salt) + encode_utf8(password)))
}

/// The digest part of `salted_hash(salt, password)`: the lower-case hex of SHA-256
/// over the salt's bytes followed by the password's bytes.
pub open spec fn digest_text(salt: Seq<char>, password: Seq<char>) -> Seq<char> {
    hex_lower(sha256(encode_utf8(salt) + encode_utf8(password)))
}

/// `hex_lower` writes two digits per byte.
proof fn lemma_hex_lower_len(bytes: Seq<u8>)
    ensures
        hex_lower(bytes).len() == 2 * bytes.len(),
    decreases bytes.len(),
{
    if bytes.len() > 0 {
        lemma_hex_lower_len(bytes.drop_first());
    }
}

/// Whether `password` matches the stored bytes `stored`: these split at `':'` into
/// exactly two pieces, salt and digest, and the digest is the lower-case hex of
/// SHA-256 over the salt followed by the password.
pub open spec fn password_matches(stored: Seq<u8>, password: Seq<u8>) -> bool {
    let parts = split_on(stored, COLON);
    &&& parts.len() == 2
    &&& encode_utf8(hex_lower(sha256(parts[0] + password))) == parts[1]
}

/// `sha2::Sha256::digest`: the 32-byte SHA-256 digest of `data`.
#[verifier::external_body]
fn sha256_digest(data: &[u8]) -> (digest: Vec<u8>)
    ensures
        digest@ == sha256(data@),
        digest@.len() == 32,
{
    <sha2::Sha256 as sha2::Digest>::digest(data).to_vec()
}

/// `hex::encode`: two lower-case hexadecimal digits per byte, high nibble first.
#[verifier::external_body]
fn hex_encode(data: &[u8]) -> (text: String)
    ensures
        text@ == hex_lower(data@),
{
    hex::encode(data)
}

/// A hexadecimal digit is never a colon.
proof fn lemma_hex_digit_not_colon(n: int)
    requires
        0 <= n < 16,
    ensures
        hex_digit(n) != ':',
        '\0' <= hex_digit(n) <= '\u{7f}',
{
}

/// The text of `hex_of_nat` holds no colon.
proof fn lemma_hex_of_nat_has_no_colon(n: nat)
    ensures
        forall|i: int| 0 <= i < hex_of_nat(n).len() ==> hex_of_nat(n)[i] != ':',
    decreases n,
{
    if n < 16 {
        lemma_hex_digit_not_colon(n as int);
    } else {
        lemma_hex_of_nat_has_no_colon(n / 16);
        lemma_hex_digit_not_colon((n % 16) as int);
        let front = hex_of_nat(n / 16);
        assert forall|i: int| 0 <= i < hex_of_nat(n).len() implies hex_of_nat(n)[i] != ':' by {
            if i < front.len() {
                assert(hex_of_nat(n)[i] == front[i]);
            }
        }
    }
}

/// The text of `hex_lower` holds no colon.
proof fn lemma_hex_lower_has_no_colon(bytes: Seq<u8>)
    ensures
        forall|i: int| 0 <= i < hex_lower(bytes).len() ==> hex_lower(bytes)[i] != ':',
    decreases bytes.len(),
{
    if bytes.len() > 0 {
        lemma_hex_digit_not_colon((bytes[0] / 16) as int);
        lemma_hex_digit_not_colon((bytes[0] % 16) as int);
        lemma_hex_lower_has_no_colon(bytes.drop_first());
        let rest = hex_lower(bytes.drop_first());
        assert forall|i: int| 0 <= i < hex_lower(bytes).len() implies hex_lower(bytes)[i] != ':' by {
            if i >= 2 {
                assert(hex_lower(bytes)[i] == rest[i - 2]);
            }
        }
    }
}

/// UTF-8 encoding distributes over concatenation.
proof fn lemma_encode_utf8_concat(a: Seq<char>, b: Seq<char>)
    ensures
        encode_utf8(a + b) == encode_utf8(a) + encode_utf8(b),
    decreases a.len(),
{
    if a.len() == 0 {
        assert(a + b =~= b);
    } else {
        assert((a + b).drop_first() =~= a.drop_first() + b);
        lemma_encode_utf8_concat(a.drop_first(), b);
        assert(encode_utf8(a + b) =~= encode_utf8(a) + encode_utf8(b));
    }
}

/// The only character whose UTF-8 encoding holds the byte of `':'` is `':'` itself.
proof fn lemma_encode_char_no_colon(c: char)
    requires
        c != ':',
    ensures
        forall|j: int|
            0 <= j < encode_scalar(c as u32).len() ==> #[trigger] encode_scalar(c as u32)[j] != COLON,
{
    let v = c as u32;
    if has_width_1_encoding(v) {
        assert(v != 58) by {
            if v == 58 {
                vstd::utf8::char_u32_cast(c, v);
            }
        }
        assert(leading_byte_width_1(v) != 0x3a) by (bit_vector)
            requires
                v <= 0x7f,
                v != 58,
        ;
    } else if has_width_2_encoding(v) {
        assert(leading_byte_width_2(v) != 0x3a && last_continuation_byte(v) != 0x3a)
            by (bit_vector);
    } else if has_width_3_encoding(v) {
        assert(leading_byte_width_3(v) != 0x3a && second_last_continuation_byte(v) != 0x3a
            && last_continuation_byte(v) != 0x3a) by (bit_vector);
    } else {
        assert(leading_byte_width_4(v) != 0x3a && third_last_continuation_byte(v) != 0x3a
            && second_last_continuation_byte(v) != 0x3a && last_continuation_byte(v) != 0x3a)
            by (bit_vector);
    }
}

/// Text without a colon encodes to bytes without the colon byte.
proof fn lemma_encode_utf8_no_colon(cs: Seq<char>)
    requires
        forall|i: int| 0 <= i < cs.len() ==> cs[i] != ':',
    ensures
        forall|j: int| 0 <= j < encode_utf8(cs).len() ==> encode_utf8(cs)[j] != COLON,
    decreases cs.len(),
{
    if cs.len() > 0 {
        lemma_encode_char_no_colon(cs[0]);
        lemma_encode_utf8_no_colon(cs.drop_first());
        let head = encode_scalar(cs[0] as u32);
        let tail = encode_utf8(cs.drop_first());
        assert forall|j: int| 0 <= j < encode_utf8(cs).len() implies encode_utf8(cs)[j] != COLON by {
            if j < head.len() {
                assert(encode_utf8(cs)[j] == head[j]);
            } else {
                assert(encode_utf8(cs)[j] == tail[j - head.len()]);
            }
        }
    }
}

/// The colon encodes to its single byte.
proof fn lemma_encode_colon()
    ensures
        encode_utf8(seq![':']) == seq![COLON],
{
    let v = ':' as u32;
    assert(v == 58);
    assert(leading_byte_width_1(v) == 0x3a) by (bit_vector)
        requires
            v == 58,
    ;
    assert(seq![':'].drop_first() =~= Seq::<char>::empty());
    assert(encode_utf8(Seq::<char>::empty()) =~= Seq::<u8>::empty());
    assert(has_width_1_encoding(v));
    assert(encode_scalar(v) =~= seq![COLON]);
    assert(encode_utf8(seq![':']) =~= seq![COLON]);
}

/// Distinct values below 16 have distinct hexadecimal digits.
proof fn lemma_hex_digit_injective(n: int, m: int)
    requires
        0 <= n < 16,
        0 <= m < 16,
        hex_digit(n) == hex_digit(m),
    ensures
        n == m,
{
    let cn = hex_digit(n);
    let cm = hex_digit(m);
    assert(cn as int == (if n < 10 { n + 48 } else { n + 87 }));
    assert(cm as int == (if m < 10 { m + 48 } else { m + 87 }));
}

/// Distinct bytes give distinct hexadecimal text.
proof fn lemma_hex_lower_injective(a: Seq<u8>, b: Seq<u8>)
    requires
        hex_lower(a) == hex_lower(b),
    ensures
        a == b,
    decreases a.len(),
{
    lemma_hex_lower_len(a);
    lemma_hex_lower_len(b);
    if a.len() > 0 {
        let ha = hex_lower(a);
        let hb = hex_lower(b);
        assert(ha[0] == hex_digit((a[0] / 16) as int));
        assert(hb[0] == hex_digit((b[0] / 16) as int));
        assert(ha[1] == hex_digit((a[0] % 16) as int));
        assert(hb[1] == hex_digit((b[0] % 16) as int));
        lemma_hex_digit_injective((a[0] / 16) as int, (b[0] / 16) as int);
        lemma_hex_digit_injective((a[0] % 16) as int, (b[0] % 16) as int);
        assert(a[0] == b[0]);
        assert(ha.skip(2) =~= hex_lower(a.drop_first()));
        assert(hb.skip(2) =~= hex_lower(b.drop_first()));
        lemma_hex_lower_injective(a.drop_first(), b.drop_first());
        assert(a =~= seq![a[0]] + a.drop_first());
        assert(b =~= seq![b[0]] + b.drop_first());
    }
}

/// The stored bytes of a password under a salt without a colon split at the colon
/// into the salt's bytes and the bytes of the digest's hexadecimal text.
proof fn lemma_split_stored_hash(salt: Seq<char>, password: Seq<char>)
    requires
        forall|i: int| 0 <= i < salt.len() ==> salt[i] != ':',
    ensures
        split_on(
            encode_utf8(salt + seq![':'] + hex_lower(sha256(encode_utf8(salt) + encode_utf8(password)))),
            COLON,
        ) == seq![encode_utf8(salt), encode_utf8(hex_lower(sha256(encode_utf8(salt) + encode_utf8(password))))],
{
    let digest = sha256(encode_utf8(salt) + encode_utf8(password));
    let hex = hex_lower(digest);
    let es = encode_utf8(salt);
    let eh = encode_utf8(hex);
    lemma_encode_utf8_concat(salt, seq![':']);
    lemma_encode_utf8_concat(salt + seq![':'], hex);
    lemma_encode_colon();
    let stored = encode_utf8(salt + seq![':'] + hex);
    assert(stored =~= es + seq![COLON] + eh);
    lemma_encode_utf8_no_colon(salt);
    lemma_hex_lower_has_no_colon(digest);
    lemma_encode_utf8_no_colon(hex);
    let pieces = seq![es, eh];
    assert(join_with(pieces, COLON) =~= stored) by {
        assert(pieces.drop_last() =~= seq![es]);
        assert(join_with(seq![es], COLON) == es);
        assert(es.push(COLON) + eh =~= es + seq![COLON] + eh);
    }
    crate::text::lemma_split_join(pieces, COLON);
}

/// A stored hash made from a salt without a colon verifies against the password it
/// was made from.
pub proof fn lemma_salted_hash_matches(salt: Seq<char>, password: Seq<char>)
    requires
        forall|i: int| 0 <= i < salt.len() ==> salt[i] != ':',
    ensures
        password_matches(encode_utf8(salted_hash(salt, password)), encode_utf8(password)),
{
    lemma_split_stored_hash(salt, password);
}

/// The stored form of `password` under a salt without a colon accepts exactly the
/// passwords `attempt` whose SHA-256 digest, over the salt's bytes followed by all of
/// the attempt's bytes, equals that of the salt followed by all of the password's
/// bytes: the stored text splits at its colon into salt and digest, and the digest is
/// compared with the one computed from the attempt.
pub proof fn law_stored_hash_accepts_same_digest(salt: Seq<char>, password: Seq<char>, attempt: Seq<char>)
    requires
        forall|i: int| 0 <= i < salt.len() ==> salt[i] != ':',
    ensures
        ({
            let stored = encode_utf8(
                salt + seq![':'] + hex_lower(sha256(encode_utf8(salt) + encode_utf8(password))),
            );
            let parts = split_on(stored, COLON);
            (parts.len() == 2 && encode_utf8(hex_lower(sha256(parts[0] + encode_utf8(attempt)))) == parts[1])
                <==> sha256(encode_utf8(salt) + encode_utf8(attempt)) == sha256(
                encode_utf8(salt) + encode_utf8(password),
            )
        }),
        password_matches(encode_utf8(salted_hash(salt, password)), encode_utf8(attempt))
            <==> sha256(encode_utf8(salt) + encode_utf8(attempt)) == sha256(encode_utf8(salt) + encode_utf8(password)),
{
    lemma_split_stored_hash(salt, password);
    let da = sha256(encode_utf8(salt) + encode_utf8(attempt));
    let dp = sha256(encode_utf8(salt) + encode_utf8(password));
    if encode_utf8(hex_lower(da)) == encode_utf8(hex_lower(dp)) {
        vstd::utf8::encode_utf8_decode_utf8(hex_lower(da));
        vstd::utf8::encode_utf8_decode_utf8(hex_lower(dp));
        lemma_hex_lower_injective(da, dp);
    }
}

/// The hexadecimal digit character for `n`.
fn hex_digit_char(n: u8) -> (c: char)
    requires
        n < 16,
    ensures
        c == hex_digit(n as int),
{
    if n < 10 {
        (n + 48) as char
    } else {
        (n + 87) as char
    }
}

/// Lower-case hexadecimal text of `n` without leading zeros.
pub fn hex_of_u128(n: u128) -> (text: String)
    ensures
        text@ == hex_of_nat(n as nat),
    decreases n,
{
    if n < 16 {
        let mut text = String::new();
        push_char(&mut text, hex_digit_char(n as u8));
        assert(text@ =~= hex_of_nat(n as nat));
        text
    } else {
        let mut text = hex_of_u128(n / 16);
        push_char(&mut text, hex_digit_char((n % 16) as u8));
        text
    }
}

/// Splits `s` at every `sep`, keeping empty pieces.
pub fn split_at_byte(s: &[u8], sep: u8) -> (parts: Vec<Vec<u8>>)
    ensures
        parts@.map_values(|p: Vec<u8>| p@) == split_on(s@, sep),
{
    let mut parts: Vec<Vec<u8>> = Vec::new();
    let mut current: Vec<u8> = Vec::new();
    let mut i: usize = 0;
    while i < s.len()
        invariant
            i <= s.len(),
            parts@.map_values(|p: Vec<u8>| p@).push(current@) == split_on(s@.take(i as int), sep),
        decreases s.len() - i,
    {
        let ghost before = s@.take(i as int);
        assert(s@.take(i + 1).drop_last() =~= before);
        let ghost old_parts = parts@.map_values(|p: Vec<u8>| p@);
        let ghost old_current = current@;
        if s[i] == sep {
            parts.push(current);
            current = Vec::new();
            assert(parts@.map_values(|p: Vec<u8>| p@) =~= old_parts.push(old_current));
            assert(parts@.map_values(|p: Vec<u8>| p@).push(current@) =~= split_on(before, sep).push(Seq::empty()));
        } else {
            current.push(s[i]);
            assert(parts@.map_values(|p: Vec<u8>| p@).push(current@) =~= split_on(before, sep).update(
                split_on(before, sep).len() - 1,
                split_on(before, sep).last().push(s@[i as int]),
            ));
        }
        i += 1;
    }
    assert(s@.take(i as int) =~= s@);
    let ghost old_parts = parts@.map_values(|p: Vec<u8>| p@);
    let ghost old_current = current@;
    parts.push(current);
    assert(parts@.map_values(|p: Vec<u8>| p@) =~= old_parts.push(old_current));
    parts
}

/// The stored form of `password` under `salt`: `salt:hex(sha256(salt ++ password))`.
pub fn hash_password_with_salt(salt: &str, password: &str) -> (stored: String)
    ensures
        stored@ == salted_hash(salt@, password@),
        stored@ == salt@ + seq![':'] + hex_lower(sha256(encode_utf8(salt@) + encode_utf8(password@))),
        digest_text(salt@, password@).len() == 64,
        stored@.len() == salt@.len() + 65,
{
    let data = concat_bytes(salt.as_bytes(), password.as_bytes());
    let digest = sha256_digest(data.as_slice());
    let hex = hex_encode(digest.as_slice());
    proof {
        lemma_hex_lower_len(digest@);
    }
    let mut stored = salt.to_owned();
    push_char(&mut stored, ':');
    stored.append(hex.as_str());
    stored
}

/// Hashes `password` under a salt made of the current time in nanoseconds since
/// 1970, printed in lower-case hexadecimal; `None` when the clock stands before 1970.
/// Whatever the clock reads, a result verifies against `password`, and its salt is
/// the distance in nanoseconds of a reading at or after 1970; which reading is the
/// clock's, and is left unsaid here.
pub fn hash_password(password: &str) -> (stored: Option<String>)
    ensures
        stored matches Some(s) ==> {
            &&& exists|nanos: u128|
                #[trigger] salted_hash(hex_of_nat(nanos as nat), password@) == s@
                    && digest_text(hex_of_nat(nanos as nat), password@).len() == 64
            &&& exists|nanos: u128|
                s@ == #[trigger] hex_of_nat(nanos as nat) + seq![':'] + hex_lower(
                    sha256(encode_utf8(hex_of_nat(nanos as nat)) + encode_utf8(password@)),
                )
            &&& exists|r: crate::clock::ClockReading|
                crate::clock::is_reading_after_epoch(r) && s@ == hex_of_nat(
                    #[trigger] crate::clock::reading_nanos(r) as nat,
                ) + seq![':'] + hex_lower(
                    sha256(encode_utf8(hex_of_nat(crate::clock::reading_nanos(r) as nat))
                        + encode_utf8(password@)),
                )
            &&& password_matches(encode_utf8(s@), encode_utf8(password@))
        },
{
    match crate::clock::now_unix_nanos() {
        None => None,
        Some(nanos) => {
            let salt = hex_of_u128(nanos);
            let stored = hash_password_with_salt(salt.as_str(), password);
            proof {
                lemma_hex_of_nat_has_no_colon(nanos as nat);
                lemma_salted_hash_matches(salt@, password@);
                assert(hex_of_nat(nanos as nat) == salt@);
                let r = choose|r: crate::clock::ClockReading|
                    crate::clock::is_reading_after_epoch(r) && #[trigger] crate::clock::reading_nanos(r) == nanos;
                assert(crate::clock::reading_nanos(r) as nat == nanos as nat);
            }
            Some(stored)
        },
    }
}

/// Whether `password` matches the stored `salt:hash` text.
pub fn verify_password(stored: &str, password: &str) -> (ok: bool)
    ensures
        ok == password_matches(encode_utf8(stored@), encode_utf8(password@)),
        ok <==> ({
            let parts = split_on(encode_utf8(stored@), COLON);
            parts.len() == 2 && encode_utf8(hex_lower(sha256(parts[0] + encode_utf8(password@)))) == parts[1]
        }),
{
    let parts = split_at_byte(stored.as_bytes(), COLON);
    if parts.len() != 2 {
        return false;
    }
    let data = concat_bytes(parts[0].as_slice(), password.as_bytes());
    let digest = sha256_digest(data.as_slice());
    let computed = hex_encode(digest.as_slice());
    proof {
        assert(parts@.map_values(|p: Vec<u8>| p@)[0] == parts[0]@);
        assert(parts@.map_values(|p: Vec<u8>| p@)[1] == parts[1]@);
    }
    bytes_equal(computed.as_str().as_bytes(), parts[1].as_slice())
}

} // verus!
