//! Nonces of a content security policy: random bytes in lowercase hexadecimal.
use vstd::prelude::*;

verus! {

/// Number of random bytes per nonce, which is rendered as twice as many characters. 16 bytes are
/// 128 bits of entropy.
pub const NONCE_BYTES: usize = 16;

/// The character `0`.
const DIGIT_ZERO: u8 = 0x30;

/// The character `a`.
const LETTER_A: u8 = 0x61;

/// The nonce of one request.
#[derive(Debug)]
pub struct CspNonce(pub String);

impl View for CspNonce {
    type V = Seq<char>;

    open spec fn view(&self) -> Seq<char> {
        self.0@
    }
}

impl Clone for CspNonce {
    fn clone(&self) -> (copy: Self)
        ensures
            copy == *self,
    {
        CspNonce(self.0.clone())
    }
}

impl CspNonce {
    /// The value of the nonce: what stands in the `nonce` attribute, and after `nonce-` in the
    /// policy.
    pub fn as_str(&self) -> (text: &str)
        ensures
            text@ == self@,
    {
        self.0.as_str()
    }

    /// The nonce as it is displayed: its value.
    pub fn to_string(&self) -> (text: String)
        ensures
            text@ == self@,
    {
        self.0.clone()
    }
}

/// Why no nonce could be minted.
#[derive(Clone, Copy, Debug, PartialEq, Eq, Structural)]
pub enum NonceError {
    /// The random source of the operating system failed.
    EntropyUnavailable,
}

/// The character for the hexadecimal digit `n`.
pub open spec fn hex_char(n: int) -> char {
    if n < 10 {
        ('0' as int + n) as char
    } else {
        ('a' as int + (n - 10)) as char
    }
}

/// The bytes in hexadecimal, each as its high digit and its low digit.
pub open spec fn hex_text(bytes: Seq<u8>) -> Seq<char> {
    Seq::new(
        2 * bytes.len(),
        |i: int| hex_char(if i % 2 == 0 { bytes[i / 2] as int / 16 } else { bytes[i / 2] as int % 16 }),
    )
}

/// Whether `c` is a lowercase hexadecimal digit.
pub open spec fn is_hex_char(c: char) -> bool {
    '0' <= c <= '9' || 'a' <= c <= 'f'
}

/// Whether `text` has the form of a minted nonce.
pub open spec fn is_nonce_text(text: Seq<char>) -> bool {
    &&& text.len() == 2 * NONCE_BYTES
    &&& forall|i: int| 0 <= i < text.len() ==> is_hex_char(#[trigger] text[i])
}

/// The error of `getrandom`. Nothing is read from it.
#[verifier::external_type_specification]
#[verifier::external_body]
pub struct ExEntropyError(getrandom::Error);

/// `getrandom::getrandom` overwrites the buffer with bytes of the operating system's random
/// source, or fails; it keeps the buffer's length. Nothing is claimed of the bytes.
pub assume_specification[ getrandom::getrandom ](dest: &mut [u8]) -> (result: Result<
    (),
    getrandom::Error,
>)
    ensures
        final(dest)@.len() == old(dest)@.len(),
;

/// The character for the hexadecimal digit `nibble`.
pub fn hex_digit(nibble: u8) -> (digit: char)
    requires
        nibble <= 168,
    ensures
        digit == hex_char(nibble as int),
{
    match nibble {
        0..=9 => (DIGIT_ZERO + nibble) as char,
        _ => (LETTER_A + (nibble - 10)) as char,
    }
}

/// The bytes in lowercase hexadecimal.
pub fn encode_hex(bytes: &[u8]) -> (text: String)
    ensures
        text@ == hex_text(bytes@),
{
    let mut out: String = String::new();
    let mut i: usize = 0;
    while i < bytes.len()
        invariant
            i <= bytes@.len(),
            out@ == hex_text(bytes@.take(i as int)),
        decreases bytes@.len() - i,
    {
        let byte: u8 = bytes[i];
        assert(byte >> 4u8 == byte / 16 && byte >> 4u8 < 16) by (bit_vector);
        assert(byte & 0x0f == byte % 16) by (bit_vector);
        out.push(hex_digit(byte >> 4));
        out.push(hex_digit(byte & 0x0f));
        i = i + 1;
        assert(out@ == hex_text(bytes@.take(i as int)));
    }
    assert(bytes@.take(i as int) == bytes@);
    out
}

/// Mints a nonce from random bytes of the operating system: asks its random source to fill
/// [`NONCE_BYTES`] bytes, and renders what it wrote; if the source fails, so does the minting.
pub fn generate_nonce() -> (minted: Result<String, NonceError>)
    ensures
        exists|dest: &mut [u8], filled: Result<(), getrandom::Error>| #[trigger] call_ensures(
            getrandom::getrandom,
            (dest,),
            filled,
        ) && dest@.len() == NONCE_BYTES && match filled {
            Ok(_) => minted matches Ok(text) && text@ == hex_text(final(dest)@),
            Err(_) => minted matches Err(error) && error == NonceError::EntropyUnavailable,
        },
        minted matches Ok(text) ==> is_nonce_text(text@),
{
    let mut buffer: [u8; NONCE_BYTES] = [0u8; NONCE_BYTES];
    let filled: Result<(), getrandom::Error> = getrandom::getrandom(&mut buffer);
    proof {
        law_hex_text_is_nonce_text(buffer@);
    }
    nonce_from_entropy(filled, &buffer)
}

/// The nonce made of `bytes`, once the random source has answered whether it filled them: their
/// rendering if it did, an error if it did not.
pub fn nonce_from_entropy(filled: Result<(), getrandom::Error>, bytes: &[u8]) -> (minted: Result<
    String,
    NonceError,
>)
    ensures
        match filled {
            Ok(_) => minted matches Ok(text) && text@ == hex_text(bytes@),
            Err(_) => minted matches Err(error) && error == NonceError::EntropyUnavailable,
        },
{
    match filled {
        Ok(_) => Ok(encode_hex(bytes)),
        Err(_) => Err(NonceError::EntropyUnavailable),
    }
}

/// Sixteen bytes in hexadecimal have the form of a nonce.
pub proof fn law_hex_text_is_nonce_text(bytes: Seq<u8>)
    requires
        bytes.len() == NONCE_BYTES,
    ensures
        is_nonce_text(hex_text(bytes)),
{
}

/// Different bytes give different nonces: no entropy is lost in the rendering.
pub proof fn law_hex_text_injective(a: Seq<u8>, b: Seq<u8>)
    requires
        hex_text(a) == hex_text(b),
    ensures
        a == b,
{
    assert(hex_text(a).len() == 2 * a.len());
    assert(hex_text(b).len() == 2 * b.len());
    assert forall|i: int| 0 <= i < a.len() implies a[i] == b[i] by {
        assert(hex_text(a)[2 * i] == hex_char(a[i] as int / 16));
        assert(hex_text(b)[2 * i] == hex_char(b[i] as int / 16));
        assert(hex_text(a)[2 * i + 1] == hex_char(a[i] as int % 16));
        assert(hex_text(b)[2 * i + 1] == hex_char(b[i] as int % 16));
        assert(a[i] as int / 16 == b[i] as int / 16);
        assert(a[i] as int % 16 == b[i] as int % 16);
    }
}

/// The digits, and what follows the last of them: sixteen values have a digit each, in the order of
/// `0123456789abcdef`; larger ones go on in the alphabet.
pub proof fn law_digits_in_order(nibble: u8, digit: char)
    requires
        nibble <= 168,
        call_ensures(hex_digit, (nibble,), digit),
    ensures
        nibble < 16 ==> digit == "0123456789abcdef"@[nibble as int],
        nibble >= 10 ==> digit as int == 'a' as int + (nibble - 10),
{
    reveal_strlit("0123456789abcdef");
}

/// The rendering of bytes, digit by digit.
proof fn lemma_hex_text_digits(bytes: Seq<u8>)
    ensures
        hex_text(bytes).len() == 2 * bytes.len(),
        forall|i: int|
            #![trigger bytes[i]]
            0 <= i < bytes.len() ==> {
                &&& hex_text(bytes)[2 * i] == "0123456789abcdef"@[bytes[i] as int / 16]
                &&& hex_text(bytes)[2 * i + 1] == "0123456789abcdef"@[bytes[i] as int % 16]
            },
{
    reveal_strlit("0123456789abcdef");
}

/// Each byte is rendered in its place, as two digits: the higher one and the lower one.
pub proof fn law_each_byte_has_two_digits(bytes: &[u8], text: String)
    requires
        call_ensures(encode_hex, (bytes,), text),
    ensures
        text@.len() == 2 * bytes@.len(),
        forall|i: int|
            #![trigger bytes@[i]]
            0 <= i < bytes@.len() ==> {
                &&& text@[2 * i] == "0123456789abcdef"@[bytes@[i] as int / 16]
                &&& text@[2 * i + 1] == "0123456789abcdef"@[bytes@[i] as int % 16]
            },
{
    lemma_hex_text_digits(bytes@);
}

/// Once the random source has answered, its bytes are the nonce, digit by digit; if it failed,
/// there is none.
pub proof fn law_answer_of_the_source_decides(
    filled: Result<(), getrandom::Error>,
    bytes: &[u8],
    minted: Result<String, NonceError>,
)
    requires
        call_ensures(nonce_from_entropy, (filled, bytes), minted),
    ensures
        minted is Ok <==> filled is Ok,
        minted matches Ok(text) ==> text@.len() == 2 * bytes@.len() && forall|i: int|
            #![trigger bytes@[i]]
            0 <= i < bytes@.len() ==> {
                &&& text@[2 * i] == "0123456789abcdef"@[bytes@[i] as int / 16]
                &&& text@[2 * i + 1] == "0123456789abcdef"@[bytes@[i] as int % 16]
            },
{
    lemma_hex_text_digits(bytes@);
}

/// A minted nonce has 32 digits, and they render, byte by byte, what the random source wrote when
/// it was asked for 16 bytes. There is none exactly if the source failed.
pub proof fn law_nonce_renders_a_draw(minted: Result<String, NonceError>)
    requires
        call_ensures(generate_nonce, (), minted),
    ensures
        minted matches Ok(text) ==> text@.len() == 32,
        exists|dest: &mut [u8], filled: Result<(), getrandom::Error>| #[trigger] call_ensures(
            getrandom::getrandom,
            (dest,),
            filled,
        ) && dest@.len() == 16 && (minted is Ok <==> filled is Ok) && (minted matches Ok(text)
            ==> forall|i: int|
            #![trigger final(dest)@[i]]
            0 <= i < 16 ==> {
                &&& text@[2 * i] == "0123456789abcdef"@[final(dest)@[i] as int / 16]
                &&& text@[2 * i + 1] == "0123456789abcdef"@[final(dest)@[i] as int % 16]
            }),
{
    assert forall|bytes: Seq<u8>| #[trigger] hex_text(bytes).len() == 2 * bytes.len() && forall|
        i: int,
    |
        #![trigger bytes[i]]
        0 <= i < bytes.len() ==> {
            &&& hex_text(bytes)[2 * i] == "0123456789abcdef"@[bytes[i] as int / 16]
            &&& hex_text(bytes)[2 * i + 1] == "0123456789abcdef"@[bytes[i] as int % 16]
        } by {
        lemma_hex_text_digits(bytes);
    }
}

/// A nonce is read, displayed and copied as the text it was made of.
pub proof fn law_nonce_is_its_text(
    nonce: CspNonce,
    read: &str,
    displayed: String,
    copy: CspNonce,
)
    requires
        call_ensures(CspNonce::as_str, (&nonce,), read),
        call_ensures(CspNonce::to_string, (&nonce,), displayed),
        call_ensures(CspNonce::clone, (&nonce,), copy),
    ensures
        read@ == nonce.0@,
        displayed@ == nonce.0@,
        copy.0@ == nonce.0@,
{
}

} // verus!
