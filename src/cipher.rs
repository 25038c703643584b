//! Password-keyed, authenticated encryption of single text fields.
//!
//! A field is stored as `hex(salt):hex(nonce):hex(ciphertext)`, where the
//! key comes from Argon2 over the password and a fresh salt, and the
//! ciphertext (with its tag) from ChaCha20-Poly1305 under a fresh nonce.
use chacha20poly1305::aead::{Aead, KeyInit, OsRng};
use chacha20poly1305::{ChaCha20Poly1305, Key, Nonce};
use rand::RngCore;
use vstd::prelude::*;
use vstd::string::*;
use vstd::utf8::{
    decode_utf8, decode_utf8_encode_utf8, encode_utf8, encode_utf8_decode_utf8, encode_utf8_valid_utf8, is_ascii_chars,
    is_ascii_chars_encode_utf8, valid_utf8,
};
use zeroize::Zeroize;
use crate::hexcode::{
    ascii_bytes, decode_hex, encode_hex, hex_text, is_hex, lemma_hex_round_trip, unhex,
};

verus! {

/// Why a field could not be encrypted or decrypted.
#[derive(Debug, Clone, Copy, PartialEq, Eq, Structural)]
pub enum FieldError {
    /// Not three colon-separated parts of hexadecimal text with a salt of
    /// sixteen bytes and a nonce of twelve.
    MalformedField,
    /// The tag did not verify: wrong password or altered ciphertext.
    AuthenticationFailure,
    /// The decrypted bytes are not UTF-8.
    InvalidPlaintextEncoding,
    /// The plaintext is beyond what the cipher can encrypt under one nonce.
    PlaintextTooLong,
    /// The operating system gave no random bytes for a salt or a nonce.
    RandomnessUnavailable,
}

/// The longest password, in bytes, that the key derivation accepts.
pub const MAX_PASSWORD_BYTES: usize = 0xFFFF_FFFF;

/// A password that the key derivation accepts.
pub open spec fn password_fits(password: Seq<char>) -> bool {
    encode_utf8(password).len() <= MAX_PASSWORD_BYTES
}

/// Plaintext bytes that the cipher accepts under one nonce.
pub open spec fn plaintext_fits(bytes: Seq<u8>) -> bool {
    bytes.len() / 64 < 0xFFFF_FFFF
}

/// A text field whose bytes the cipher accepts.
pub open spec fn text_fits(text: Seq<char>) -> bool {
    plaintext_fits(encode_utf8(text))
}

/// The key that Argon2 (default parameters) derives from a password and a salt.
pub uninterp spec fn argon2_key(password: Seq<char>, salt: Seq<u8>) -> Seq<u8>;

/// What ChaCha20-Poly1305 gives for a key, a nonce and a plaintext, with no
/// associated data: the ciphertext followed by its tag.
pub uninterp spec fn chacha_seal(key: Seq<u8>, nonce: Seq<u8>, plaintext: Seq<u8>) -> Seq<u8>;

/// What ChaCha20-Poly1305 decryption gives for a key, a nonce and a
/// ciphertext with its tag: the plaintext, or nothing where the tag fails.
pub uninterp spec fn chacha_open(key: Seq<u8>, nonce: Seq<u8>, sealed: Seq<u8>) -> Option<Seq<u8>>;

/// The stored text of a field: three hexadecimal parts joined by colons.
pub open spec fn field_text(salt: Seq<u8>, nonce: Seq<u8>, sealed: Seq<u8>) -> Seq<char> {
    hex_text(salt) + seq![':'] + hex_text(nonce) + seq![':'] + hex_text(sealed)
}

/// The field that encrypting `text` under `password` gives for a salt and a nonce.
pub open spec fn sealed_field(
    salt: Seq<u8>,
    nonce: Seq<u8>,
    password: Seq<char>,
    text: Seq<char>,
) -> Seq<char> {
    field_text(salt, nonce, chacha_seal(argon2_key(password, salt), nonce, encode_utf8(text)))
}

/// `field` is an encryption of `text` under `password`, for some salt and
/// nonce of the right sizes, and it opens back to the text's bytes.
pub open spec fn is_sealed_field(field: Seq<char>, password: Seq<char>, text: Seq<char>) -> bool {
    exists|salt: Seq<u8>, nonce: Seq<u8>|
        #![trigger sealed_field(salt, nonce, password, text)]
        {
            &&& salt.len() == 16
            &&& nonce.len() == 12
            &&& field == sealed_field(salt, nonce, password, text)
            &&& chacha_open(
                argon2_key(password, salt),
                nonce,
                chacha_seal(argon2_key(password, salt), nonce, encode_utf8(text)),
            ) == Some(encode_utf8(text))
        }
}

/// The parts of a byte string between colons, in order, as `str::split` gives them.
pub open spec fn split_colon(s: Seq<u8>) -> Seq<Seq<u8>>
    decreases s.len(),
{
    if s.len() == 0 {
        seq![Seq::empty()]
    } else {
        let prev = split_colon(s.drop_last());
        if s.last() == 58 {
            prev.push(Seq::empty())
        } else {
            prev.update(prev.len() - 1, prev.last().push(s.last()))
        }
    }
}

/// Salt, nonce and sealed bytes of a stored field, where it is well formed.
pub open spec fn parse_field(bytes: Seq<u8>) -> Option<(Seq<u8>, Seq<u8>, Seq<u8>)> {
    let parts = split_colon(bytes);
    if parts.len() == 3 && is_hex(parts[0]) && is_hex(parts[1]) && is_hex(parts[2]) && unhex(
        parts[0],
    ).len() == 16 && unhex(parts[1]).len() == 12 {
        Some((unhex(parts[0]), unhex(parts[1]), unhex(parts[2])))
    } else {
        None
    }
}

/// What decrypting a stored field under a password gives.
pub open spec fn decrypt_result(field: Seq<char>, password: Seq<char>) -> Result<
    Seq<char>,
    FieldError,
> {
    match parse_field(encode_utf8(field)) {
        None => Err(FieldError::MalformedField),
        Some((salt, nonce, sealed)) => match chacha_open(argon2_key(password, salt), nonce, sealed) {
            None => Err(FieldError::AuthenticationFailure),
            Some(p) => if valid_utf8(p) {
                Ok(decode_utf8(p))
            } else {
                Err(FieldError::InvalidPlaintextEncoding)
            },
        },
    }
}

/// The stored ciphertext is exactly the sealing of `text` under the key that
/// `password` and the stored salt give.
pub open spec fn field_authentic(field: Seq<char>, password: Seq<char>, text: Seq<char>) -> bool {
    match parse_field(encode_utf8(field)) {
        None => false,
        Some((salt, nonce, sealed)) => sealed == chacha_seal(
            argon2_key(password, salt),
            nonce,
            encode_utf8(text),
        ),
    }
}

/// A decryption outcome with the text seen as characters.
pub open spec fn text_result(r: Result<String, FieldError>) -> Result<Seq<char>, FieldError> {
    match r {
        Ok(s) => Ok(s@),
        Err(e) => Err(e),
    }
}

/// Relies on argon2's `Argon2::default().hash_password_into` with a 32-byte
/// output: it fails only on a password over 2^32 - 1 bytes or a salt of
/// fewer than 8 or more than 2^32 - 1 bytes, and is otherwise a function of
/// password and salt.
#[verifier::external_body]
fn argon2_hash(password: &str, salt: &[u8]) -> (r: Option<[u8; 32]>)
    ensures
        r is Some <==> (password_fits(password@) && 8 <= salt@.len() <= 0xFFFF_FFFF),
        r matches Some(k) ==> k@ == argon2_key(password@, salt@),
{
    let mut key = [0u8; 32];
    match argon2::Argon2::default().hash_password_into(password.as_bytes(), salt, &mut key) {
        Ok(()) => Some(key),
        Err(_) => None,
    }
}

/// Relies on rand's `RngCore::try_fill_bytes` on the operating system's
/// generator (`OsRng`), which reports a failure of the source instead of
/// panicking; `false` where it failed. Nothing is known of the bytes.
#[verifier::external_body]
fn fill_random<const N: usize>(buf: &mut [u8; N]) -> (r: bool) {
    OsRng.try_fill_bytes(buf).is_ok()
}

/// Relies on zeroize's `Zeroize` for byte arrays: every byte becomes zero.
#[verifier::external_body]
fn wipe_key(key: &mut [u8; 32])
    ensures
        forall|i: int| 0 <= i < 32 ==> final(key)@[i] == 0,
{
    key.zeroize();
}

/// Relies on chacha20poly1305's `ChaCha20Poly1305::encrypt` with no
/// associated data: it fails only where the plaintext holds 2^32 - 1 or more
/// 64-byte blocks; its output is the ciphertext, as long as the plaintext,
/// followed by a 16-byte tag, and opens back to the plaintext.
#[verifier::external_body]
fn seal(key: &[u8; 32], nonce: &[u8], plaintext: &[u8]) -> (r: Option<Vec<u8>>)
    requires
        nonce@.len() == 12,
    ensures
        r is Some <==> plaintext_fits(plaintext@),
        r matches Some(c) ==> c@ == chacha_seal(key@, nonce@, plaintext@),
        r matches Some(c) ==> c@.len() == plaintext@.len() + 16,
        r matches Some(c) ==> chacha_open(key@, nonce@, c@) == Some(plaintext@),
{
    let cipher = ChaCha20Poly1305::new(Key::from_slice(key));
    cipher.encrypt(Nonce::from_slice(nonce), plaintext).ok()
}

/// Relies on chacha20poly1305's `ChaCha20Poly1305::decrypt` with no
/// associated data: where the tag verifies, the plaintext it returns seals
/// back to exactly the given bytes.
#[verifier::external_body]
fn open(key: &[u8; 32], nonce: &[u8], sealed: &[u8]) -> (r: Option<Vec<u8>>)
    requires
        nonce@.len() == 12,
    ensures
        (match r {
            Some(p) => chacha_open(key@, nonce@, sealed@) == Some(p@),
            None => chacha_open(key@, nonce@, sealed@) is None,
        }),
        r matches Some(p) ==> sealed@ == chacha_seal(key@, nonce@, p@),
{
    let cipher = ChaCha20Poly1305::new(Key::from_slice(key));
    cipher.decrypt(Nonce::from_slice(nonce), sealed).ok()
}

/// Relies on `String::from_utf8`: it accepts exactly the valid UTF-8 bytes.
#[verifier::external_body]
fn utf8_text(bytes: Vec<u8>) -> (r: Option<String>)
    ensures
        r is Some <==> valid_utf8(bytes@),
        r matches Some(s) ==> s@ == decode_utf8(bytes@),
{
    String::from_utf8(bytes).ok()
}

/// Derives a 32-byte key from a password and a salt with Argon2.
pub fn derive_key(password: &str, salt: &[u8]) -> (r: [u8; 32])
    requires
        password_fits(password@),
        8 <= salt@.len() <= 0xFFFF_FFFF,
    ensures
        r@ == argon2_key(password@, salt@),
{
    match argon2_hash(password, salt) {
        Some(k) => k,
        None => [0u8; 32],
    }
}


proof fn lemma_split_nonempty(s: Seq<u8>)
    ensures
        split_colon(s).len() >= 1,
    decreases s.len(),
{
    if s.len() > 0 {
        lemma_split_nonempty(s.drop_last());
    }
}

/// Bytes without a colon extend the last part.
proof fn lemma_split_extend(p: Seq<u8>, q: Seq<u8>)
    requires
        forall|i: int| 0 <= i < q.len() ==> q[i] != 58,
    ensures
        split_colon(p + q) == split_colon(p).update(
            split_colon(p).len() - 1,
            split_colon(p).last() + q,
        ),
    decreases q.len(),
{
    lemma_split_nonempty(p);
    if q.len() == 0 {
        assert(p + q =~= p);
        assert(split_colon(p).last() + q =~= split_colon(p).last());
        assert(split_colon(p).update(split_colon(p).len() - 1, split_colon(p).last())
            =~= split_colon(p));
    } else {
        let q0 = q.drop_last();
        lemma_split_extend(p, q0);
        assert((p + q).drop_last() =~= p + q0);
        assert((p + q).last() == q.last());
        assert(split_colon(p).last() + q0 + seq![q.last()] =~= split_colon(p).last() + q);
        assert((split_colon(p).last() + q0).push(q.last()) =~= split_colon(p).last() + q);
        assert(split_colon(p + q) =~= split_colon(p).update(
            split_colon(p).len() - 1,
            split_colon(p).last() + q,
        ));
    }
}

/// A colon starts a new, empty part.
proof fn lemma_split_colon(p: Seq<u8>)
    ensures
        split_colon(p.push(58)) == split_colon(p).push(Seq::empty()),
{
    assert(p.push(58).drop_last() =~= p);
}

proof fn lemma_hex_no_colon(b: Seq<u8>)
    ensures
        is_ascii_chars(hex_text(b)),
        forall|i: int| 0 <= i < ascii_bytes(hex_text(b)).len() ==> ascii_bytes(hex_text(b))[i] != 58,
{
    lemma_hex_round_trip(b);
    assert forall|i: int| 0 <= i < ascii_bytes(hex_text(b)).len() implies ascii_bytes(
        hex_text(b),
    )[i] != 58 by {
        assert(hex_text(b)[i] != ':');
        assert('\0' <= hex_text(b)[i] <= '\u{7f}');
    }
}

/// The bytes of a field's stored text: its three hexadecimal parts in ASCII
/// with a colon byte between each two.
proof fn lemma_field_bytes(salt: Seq<u8>, nonce: Seq<u8>, sealed: Seq<u8>)
    ensures
        is_ascii_chars(field_text(salt, nonce, sealed)),
        encode_utf8(field_text(salt, nonce, sealed)) == ascii_bytes(hex_text(salt)).push(58)
            + ascii_bytes(hex_text(nonce)).push(58) + ascii_bytes(hex_text(sealed)),
{
    let t = field_text(salt, nonce, sealed);
    let (h1, h2, h3) = (hex_text(salt), hex_text(nonce), hex_text(sealed));
    lemma_hex_no_colon(salt);
    lemma_hex_no_colon(nonce);
    lemma_hex_no_colon(sealed);
    assert forall|i: int| 0 <= i < t.len() implies '\0' <= #[trigger] t[i] <= '\u{7f}' by {
        if i < h1.len() {
            assert(t[i] == h1[i]);
        } else if i == h1.len() {
        } else if i < h1.len() + 1 + h2.len() {
            assert(t[i] == h2[i - h1.len() - 1]);
        } else if i == h1.len() + 1 + h2.len() {
        } else {
            assert(t[i] == h3[i - h1.len() - 2 - h2.len()]);
        }
    }
    is_ascii_chars_encode_utf8(t);
    let bytes = encode_utf8(t);
    let joined = ascii_bytes(h1).push(58) + ascii_bytes(h2).push(58) + ascii_bytes(h3);
    assert forall|i: int| 0 <= i < bytes.len() implies bytes[i] == joined[i] by {
        assert(t[i] as u8 == bytes[i]);
    }
    assert(bytes =~= joined);
}

/// Three colon-free parts joined by colons split back into those parts.
proof fn lemma_split_three(a: Seq<u8>, b: Seq<u8>, c: Seq<u8>)
    requires
        forall|i: int| 0 <= i < a.len() ==> a[i] != 58,
        forall|i: int| 0 <= i < b.len() ==> b[i] != 58,
        forall|i: int| 0 <= i < c.len() ==> c[i] != 58,
    ensures
        split_colon(a.push(58) + b.push(58) + c) == seq![a, b, c],
{
    let e: Seq<u8> = Seq::empty();
    lemma_split_extend(e, a);
    assert(e + a =~= a);
    assert(split_colon(e) =~= seq![e]);
    assert(split_colon(a) =~= seq![a]);
    lemma_split_colon(a);
    lemma_split_extend(a.push(58), b);
    assert(split_colon(a.push(58) + b) =~= seq![a, b]);
    lemma_split_colon(a.push(58) + b);
    assert((a.push(58) + b).push(58) =~= a.push(58) + b.push(58));
    lemma_split_extend(a.push(58) + b.push(58), c);
    assert(split_colon(a.push(58) + b.push(58) + c) =~= seq![a, b, c]);
}

/// The stored text of a field reads back as its salt, nonce and sealed bytes.
pub proof fn lemma_parse_field_text(salt: Seq<u8>, nonce: Seq<u8>, sealed: Seq<u8>)
    requires
        salt.len() == 16,
        nonce.len() == 12,
    ensures
        is_ascii_chars(field_text(salt, nonce, sealed)),
        parse_field(encode_utf8(field_text(salt, nonce, sealed))) == Some((salt, nonce, sealed)),
{
    let (a, b, c) = (
        ascii_bytes(hex_text(salt)),
        ascii_bytes(hex_text(nonce)),
        ascii_bytes(hex_text(sealed)),
    );
    lemma_field_bytes(salt, nonce, sealed);
    assert(encode_utf8(field_text(salt, nonce, sealed)) == a.push(58) + b.push(58) + c);
    assert(split_colon(a.push(58) + b.push(58) + c) == seq![a, b, c]) by {
        lemma_hex_no_colon(salt);
        lemma_hex_no_colon(nonce);
        lemma_hex_no_colon(sealed);
        lemma_split_three(a, b, c);
    }
    assert(is_hex(a) && unhex(a) == salt) by {
        lemma_hex_round_trip(salt);
    }
    assert(is_hex(b) && unhex(b) == nonce) by {
        lemma_hex_round_trip(nonce);
    }
    assert(is_hex(c) && unhex(c) == sealed) by {
        lemma_hex_round_trip(sealed);
    }
    let parts = seq![a, b, c];
    assert(parts[0] == a && parts[1] == b && parts[2] == c);
}

/// Splits bytes at each colon, as `str::split(':')` does.
fn split_at_colons(s: &[u8]) -> (r: Vec<Vec<u8>>)
    ensures
        r@.len() == split_colon(s@).len(),
        forall|j: int| 0 <= j < r@.len() ==> (#[trigger] r@[j])@ == split_colon(s@)[j],
{
    let mut parts: Vec<Vec<u8>> = Vec::new();
    let mut cur: Vec<u8> = Vec::new();
    let mut i: usize = 0;
    assert(s@.take(0) =~= Seq::<u8>::empty());
    while i < s.len()
        invariant
            i <= s@.len(),
            parts@.len() + 1 == split_colon(s@.take(i as int)).len(),
            forall|j: int| 0 <= j < parts@.len() ==> (#[trigger] parts@[j])@ == split_colon(
                s@.take(i as int),
            )[j],
            cur@ == split_colon(s@.take(i as int)).last(),
        decreases s@.len() - i,
    {
        let ghost before = s@.take(i as int);
        proof {
            assert(s@.take(i + 1).drop_last() =~= before);
            assert(s@.take(i + 1).last() == s@[i as int]);
            lemma_split_nonempty(before);
        }
        if s[i] == 58 {
            parts.push(cur);
            cur = Vec::new();
            assert(cur@ =~= Seq::<u8>::empty());
        } else {
            cur.push(s[i]);
        }
        i = i + 1;
    }
    assert(s@.take(s@.len() as int) =~= s@);
    parts.push(cur);
    parts
}

/// How many characters the stored form of `text` has: two hexadecimal
/// parts of 32 and 24 digits, two colons, and two digits per byte of the
/// ciphertext, which is the text's UTF-8 bytes and a 16-byte tag.
pub open spec fn stored_len(text: Seq<char>) -> nat {
    58 + 2 * (encode_utf8(text).len() + 16)
}

/// Encrypts one text field under a password with the given salt and nonce,
/// and gives its stored form `hex(salt):hex(nonce):hex(ciphertext)`.
pub fn seal_field(plain_text: &str, password: &str, salt: &[u8; 16], nonce: &[u8; 12]) -> (r:
    Result<String, FieldError>)
    requires
        password_fits(password@),
    ensures
        r is Ok <==> text_fits(plain_text@),
        r matches Ok(f) ==> f@ == sealed_field(salt@, nonce@, password@, plain_text@),
        r matches Ok(f) ==> f@.len() == stored_len(plain_text@),
        r matches Ok(f) ==> is_sealed_field(f@, password@, plain_text@),
        r matches Err(e) ==> e == FieldError::PlaintextTooLong,
{
    let mut key = derive_key(password, salt.as_slice());
    let sealed = seal(&key, nonce.as_slice(), plain_text.as_bytes());
    wipe_key(&mut key);
    match sealed {
        None => Err(FieldError::PlaintextTooLong),
        Some(c) => {
            let text = encode_hex(salt.as_slice()).concat(":").concat(
                encode_hex(nonce.as_slice()).as_str(),
            ).concat(":").concat(encode_hex(c.as_slice()).as_str());
            proof {
                reveal_strlit(":");
                assert(text@ =~= sealed_field(salt@, nonce@, password@, plain_text@));
            }
            Ok(text)
        },
    }
}

/// Encrypts one text field under a password, with a fresh random salt and
/// nonce, and gives its stored form `hex(salt):hex(nonce):hex(ciphertext)`.
///
/// Where the random source gives its bytes, this succeeds exactly when the
/// text is within what the cipher accepts.
pub fn encrypt_data(plain_text: &str, password: &str) -> (r: Result<String, FieldError>)
    requires
        password_fits(password@),
    ensures
        r is Ok ==> text_fits(plain_text@),
        r != Err::<String, FieldError>(FieldError::RandomnessUnavailable) ==> (r is Ok
            <==> text_fits(plain_text@)),
        r matches Ok(f) ==> is_sealed_field(f@, password@, plain_text@),
        r matches Ok(f) ==> f@.len() == stored_len(plain_text@),
        r matches Err(e) ==> e == FieldError::PlaintextTooLong || e
            == FieldError::RandomnessUnavailable,
{
    let mut salt = [0u8; 16];
    if !fill_random(&mut salt) {
        return Err(FieldError::RandomnessUnavailable);
    }
    let mut nonce = [0u8; 12];
    if !fill_random(&mut nonce) {
        return Err(FieldError::RandomnessUnavailable);
    }
    seal_field(plain_text, password, &salt, &nonce)
}

/// Decrypts a stored field under a password.
///
/// Gives `MalformedField` where the field is not three colon-separated
/// hexadecimal parts with a 16-byte salt and a 12-byte nonce,
/// `AuthenticationFailure` where the tag does not verify, and
/// `InvalidPlaintextEncoding` where the plaintext is not UTF-8. Text is only
/// returned where the stored ciphertext is exactly its sealing.
pub fn decrypt_data(encrypted_text: &str, password: &str) -> (r: Result<String, FieldError>)
    requires
        password_fits(password@),
    ensures
        text_result(r) == decrypt_result(encrypted_text@, password@),
        r matches Ok(s) ==> field_authentic(encrypted_text@, password@, s@),
{
    let parts = split_at_colons(encrypted_text.as_bytes());
    if parts.len() != 3 {
        return Err(FieldError::MalformedField);
    }
    let salt = match decode_hex(parts[0].as_slice()) {
        Some(v) => v,
        None => return Err(FieldError::MalformedField),
    };
    let nonce = match decode_hex(parts[1].as_slice()) {
        Some(v) => v,
        None => return Err(FieldError::MalformedField),
    };
    let sealed = match decode_hex(parts[2].as_slice()) {
        Some(v) => v,
        None => return Err(FieldError::MalformedField),
    };
    if salt.len() != 16 || nonce.len() != 12 {
        return Err(FieldError::MalformedField);
    }
    let mut key = derive_key(password, salt.as_slice());
    let opened = open(&key, nonce.as_slice(), sealed.as_slice());
    wipe_key(&mut key);
    match opened {
        None => Err(FieldError::AuthenticationFailure),
        Some(p) => match utf8_text(p) {
            Some(s) => {
                proof {
                    decode_utf8_encode_utf8(p@);
                }
                Ok(s)
            },
            None => Err(FieldError::InvalidPlaintextEncoding),
        },
    }
}

/// Decrypting a field that was encrypted under a password, with that same
/// password, gives back the text.
pub proof fn lemma_field_round_trip(field: Seq<char>, password: Seq<char>, text: Seq<char>)
    requires
        is_sealed_field(field, password, text),
    ensures
        decrypt_result(field, password) == Ok::<Seq<char>, FieldError>(text),
{
    let (salt, nonce) = choose|salt: Seq<u8>, nonce: Seq<u8>|
        {
            &&& salt.len() == 16
            &&& nonce.len() == 12
            &&& field == #[trigger] sealed_field(salt, nonce, password, text)
            &&& chacha_open(
                argon2_key(password, salt),
                nonce,
                chacha_seal(argon2_key(password, salt), nonce, encode_utf8(text)),
            ) == Some(encode_utf8(text))
        };
    let sealed = chacha_seal(argon2_key(password, salt), nonce, encode_utf8(text));
    lemma_parse_field_text(salt, nonce, sealed);
    encode_utf8_valid_utf8(text);
    encode_utf8_decode_utf8(text);
}

} // verus!
