//! The headers and extensions of a message, as far as the policy layer reads and fills them.
use axum::http::{header, Extensions, HeaderMap, HeaderValue};
use vstd::prelude::*;
use vstd::utf8::encode_utf8;

use crate::nonce::CspNonce;
use crate::text::{characters, occurs_at, stands_at};

verus! {

/// Whether a header value may hold the byte: all but the control characters, and the tab.
pub open spec fn is_header_byte(b: u8) -> bool {
    b >= 32 && b != 127 || b == 9
}

/// Whether the bytes can stand as the value of a header.
pub open spec fn is_header_value(value: Seq<u8>) -> bool {
    forall|i: int| 0 <= i < value.len() ==> is_header_byte(#[trigger] value[i])
}

/// Whether the byte is a visible ASCII character, a space or a tab.
pub open spec fn is_visible_byte(b: u8) -> bool {
    32 <= b < 127 || b == 9
}

/// Whether the bytes are visible ASCII text.
pub open spec fn is_visible_text(value: Seq<u8>) -> bool {
    forall|i: int| 0 <= i < value.len() ==> is_visible_byte(#[trigger] value[i])
}

/// ASCII bytes read as characters.
pub open spec fn ascii_text(value: Seq<u8>) -> Seq<char> {
    value.map_values(|b: u8| b as char)
}

/// `text` without the spaces and tabs it begins with. Visible ASCII text holds no other
/// whitespace.
pub open spec fn trim_start(text: Seq<char>) -> Seq<char>
    decreases text.len(),
{
    if text.len() > 0 && (text[0] == ' ' || text[0] == '\t') {
        trim_start(text.skip(1))
    } else {
        text
    }
}

/// Whether the value of a `Content-Type` header declares HTML.
pub open spec fn is_html_type(value: Seq<u8>) -> bool {
    &&& is_visible_text(value)
    &&& occurs_at(trim_start(ascii_text(value)), "text/html"@, 0)
}

/// Whether headers with these values declare HTML: their first `Content-Type` does.
pub open spec fn declares_html(values: Map<Seq<char>, Seq<Seq<u8>>>) -> bool {
    &&& values.contains_key("content-type"@)
    &&& is_html_type(values["content-type"@].first())
}

/// The value of one header.
#[verifier::external_type_specification]
#[verifier::external_body]
pub struct ExHeaderValue(HeaderValue);

/// The headers of a message.
#[verifier::external_type_specification]
#[verifier::external_body]
#[verifier::reject_recursive_types(T)]
pub struct ExHeaderMap<T>(HeaderMap<T>);

/// The error of a header map that can take no further name.
#[verifier::external_type_specification]
#[verifier::external_body]
pub struct ExMaxSizeReached(header::MaxSizeReached);

/// The extensions of a request.
#[verifier::external_type_specification]
#[verifier::external_body]
pub struct ExExtensions(Extensions);

/// What a header map holds: for each name, in lower case, its values in order.
pub uninterp spec fn header_values(headers: HeaderMap<HeaderValue>) -> Map<
    Seq<char>,
    Seq<Seq<u8>>,
>;

/// The nonce that a request's extensions hold: one, or none.
pub uninterp spec fn stored_nonces(extensions: Extensions) -> Seq<Seq<char>>;

/// What a request's extensions hold besides the nonce: for each other type, by a number that stands
/// for the type, a number that stands for the value of that type.
pub uninterp spec fn other_extensions(extensions: Extensions) -> Map<int, int>;

/// `HeaderValue::from_str` takes a text whose UTF-8 bytes can all stand in a header value, holds
/// exactly those bytes, and refuses every other text.
#[verifier::external_body]
pub(crate) fn header_value(text: &str) -> (value: Option<Vec<u8>>)
    ensures
        match value {
            Some(bytes) => is_header_value(encode_utf8(text@)) && bytes@ == encode_utf8(text@),
            None => !is_header_value(encode_utf8(text@)),
        },
{
    match HeaderValue::from_str(text) {
        Ok(value) => Some(value.as_bytes().to_vec()),
        Err(_) => None,
    }
}

/// `HeaderValue::to_str` gives the text of a value that is visible ASCII throughout, and refuses
/// every other value. `HeaderValue::from_bytes`, which converts the bytes, refuses none of the
/// former.
#[verifier::external_body]
pub(crate) fn header_text(value: &[u8]) -> (text: Option<String>)
    ensures
        match text {
            Some(text) => is_visible_text(value@) && text@ == ascii_text(value@),
            None => !is_visible_text(value@),
        },
{
    match HeaderValue::from_bytes(value) {
        Ok(value) => match value.to_str() {
            Ok(text) => Some(String::from(text)),
            Err(_) => None,
        },
        Err(_) => None,
    }
}

/// `HeaderMap::get` with the name `content-type` gives the first value of that name.
#[verifier::external_body]
pub(crate) fn content_type(headers: &HeaderMap<HeaderValue>) -> (value: Option<Vec<u8>>)
    ensures
        match value {
            Some(bytes) => {
                &&& header_values(*headers).contains_key("content-type"@)
                &&& header_values(*headers)["content-type"@].len() > 0
                &&& bytes@ == header_values(*headers)["content-type"@].first()
            },
            None => !header_values(*headers).contains_key("content-type"@),
        },
{
    match headers.get(header::CONTENT_TYPE) {
        Some(value) => Some(value.as_bytes().to_vec()),
        None => None,
    }
}

/// Whether a header map surely takes one more name. Its table grows up to 32768 slots; beyond
/// that it refuses a name once three quarters of them are taken or, after too many collisions, a
/// fifth.
pub open spec fn few_names(values: Map<Seq<char>, Seq<Seq<u8>>>) -> bool {
    5 * values.dom().len() < 32768
}

/// `HeaderMap::keys_len` gives the number of names in the map.
#[verifier::external_body]
pub(crate) fn name_count(headers: &HeaderMap<HeaderValue>) -> (count: usize)
    ensures
        count == header_values(*headers).dom().len(),
{
    headers.keys_len()
}

/// Whether the headers surely take one more name, such as that of a policy.
pub fn has_few_names(headers: &HeaderMap<HeaderValue>) -> (few: bool)
    ensures
        few == few_names(header_values(*headers)),
{
    let count: usize = name_count(headers);
    count < 32768 && 5 * count < 32768
}

/// `HeaderMap::try_insert` with the name `content-security-policy` makes `value` the only value of
/// that name and keeps every other name. If it fails, the values are as before; it does not fail
/// while the map holds few names. `HeaderValue::from_bytes`, which converts the bytes, takes all
/// that can stand in a header value.
#[verifier::external_body]
pub(crate) fn insert_policy(headers: &mut HeaderMap<HeaderValue>, value: &[u8]) -> (result: Result<
    (),
    header::MaxSizeReached,
>)
    requires
        is_header_value(value@),
    ensures
        header_values(*final(headers)) == if result is Ok {
            header_values(*old(headers)).insert("content-security-policy"@, seq![value@])
        } else {
            header_values(*old(headers))
        },
        few_names(header_values(*old(headers))) ==> result is Ok,
{
    let value = HeaderValue::from_bytes(value).unwrap();
    match headers.try_insert(header::CONTENT_SECURITY_POLICY, value) {
        Ok(_) => Ok(()),
        Err(error) => Err(error),
    }
}

/// `HeaderMap::remove` with the name `content-length` takes all values of that name out and keeps
/// every other name.
#[verifier::external_body]
pub(crate) fn remove_content_length(headers: &mut HeaderMap<HeaderValue>)
    ensures
        header_values(*final(headers)) == header_values(*old(headers)).remove("content-length"@),
{
    headers.remove(header::CONTENT_LENGTH);
}

/// `Extensions::get` with the type `CspNonce` gives the nonce that was stored last.
#[verifier::external_body]
pub(crate) fn stored_nonce(extensions: &Extensions) -> (nonce: Option<String>)
    ensures
        match nonce {
            Some(text) => stored_nonces(*extensions) == seq![text@],
            None => stored_nonces(*extensions).len() == 0,
        },
{
    match extensions.get::<CspNonce>() {
        Some(nonce) => Some(nonce.0.clone()),
        None => None,
    }
}

/// `Extensions::insert` of a `CspNonce` makes it the stored nonce, and keeps the extensions of every
/// other type.
#[verifier::external_body]
pub(crate) fn store_nonce(extensions: &mut Extensions, nonce: CspNonce)
    ensures
        stored_nonces(*final(extensions)) == seq![nonce@],
        other_extensions(*final(extensions)) == other_extensions(*old(extensions)),
{
    extensions.insert(nonce);
}

/// Whether the value of a `Content-Type` header declares HTML.
pub fn declares_html_type(value: &[u8]) -> (html: bool)
    ensures
        html == is_html_type(value@),
{
    match header_text(value) {
        Some(text) => {
            let chars: Vec<char> = characters(text.as_str());
            let html: Vec<char> = characters("text/html");
            let mut i: usize = 0;
            assert(text@.skip(0) == text@);
            while i < chars.len() && (chars[i] == ' ' || chars[i] == '\t')
                invariant
                    chars@ == text@,
                    i <= chars@.len(),
                    trim_start(text@.skip(i as int)) == trim_start(text@),
                decreases chars@.len() - i,
            {
                assert(text@.skip(i as int).skip(1) == text@.skip(i + 1));
                i = i + 1;
            }
            let found: bool = stands_at(&chars, &html, i);
            proof {
                let rest = text@.skip(i as int);
                assert(trim_start(rest) == rest);
                if i + html@.len() <= chars@.len() {
                    assert(rest.subrange(0, html@.len() as int) == text@.subrange(
                        i as int,
                        i + html@.len(),
                    ));
                }
            }
            found
        },
        None => false,
    }
}

/// Whether the headers declare an HTML content type.
pub fn is_html(headers: &HeaderMap<HeaderValue>) -> (html: bool)
    ensures
        html == declares_html(header_values(*headers)),
{
    match content_type(headers) {
        Some(value) => declares_html_type(value.as_slice()),
        None => false,
    }
}

/// Blanks at the beginning are left out, and nothing else.
proof fn lemma_trim_start(text: Seq<char>, k: int)
    requires
        0 <= k <= text.len(),
        forall|j: int| 0 <= j < k ==> (#[trigger] text[j] == ' ' || text[j] == '\t'),
        k == text.len() || text[k] != ' ' && text[k] != '\t',
    ensures
        trim_start(text) == text.skip(k),
    decreases k,
{
    if k > 0 {
        assert(text[0] == ' ' || text[0] == '\t');
        let rest = text.skip(1);
        assert forall|j: int| 0 <= j < k - 1 implies (#[trigger] rest[j] == ' ' || rest[j]
            == '\t') by {
            assert(text[j + 1] == ' ' || text[j + 1] == '\t');
        }
        lemma_trim_start(rest, k - 1);
        assert(rest.skip(k - 1) == text.skip(k));
    } else {
        assert(text.skip(0) == text);
    }
}

/// How many blanks a text begins with.
proof fn lemma_blanks(text: Seq<char>) -> (k: int)
    ensures
        0 <= k <= text.len(),
        forall|j: int| 0 <= j < k ==> (#[trigger] text[j] == ' ' || text[j] == '\t'),
        k == text.len() || text[k] != ' ' && text[k] != '\t',
    decreases text.len(),
{
    if text.len() > 0 && (text[0] == ' ' || text[0] == '\t') {
        let rest = text.skip(1);
        let k = lemma_blanks(rest);
        assert forall|j: int| 0 <= j < k + 1 implies (#[trigger] text[j] == ' ' || text[j]
            == '\t') by {
            if j > 0 {
                assert(rest[j - 1] == text[j]);
            }
        }
        if k < rest.len() {
            assert(rest[k] == text[k + 1]);
        }
        k + 1
    } else {
        0
    }
}

/// A value declares HTML exactly if it is visible ASCII throughout and the bytes of `text/html`
/// stand in it after nothing but spaces and tabs.
pub proof fn law_html_follows_blanks(value: Seq<u8>)
    ensures
        is_html_type(value) <==> {
            &&& forall|i: int|
                0 <= i < value.len() ==> (32 <= #[trigger] value[i] < 127 || value[i] == 9)
            &&& exists|k: int|
                0 <= k <= value.len() - 9 && (forall|j: int|
                    0 <= j < k ==> (#[trigger] value[j] == 32 || value[j] == 9))
                    && #[trigger] value.subrange(k, k + 9)
                    == seq![116u8, 101, 120, 116, 47, 104, 116, 109, 108]
        },
{
    reveal_strlit("text/html");
    let html = seq![116u8, 101, 120, 116, 47, 104, 116, 109, 108];
    assert(html.map_values(|b: u8| b as char) =~= "text/html"@);
    let text = ascii_text(value);
    let visible = forall|i: int|
        0 <= i < value.len() ==> (32 <= #[trigger] value[i] < 127 || value[i] == 9);
    assert(is_visible_text(value) == visible) by {
        if is_visible_text(value) {
            assert forall|i: int| 0 <= i < value.len() implies (32 <= #[trigger] value[i] < 127
                || value[i] == 9) by {
                assert(is_visible_byte(value[i]));
            }
        }
    }
    if is_html_type(value) {
        let k = lemma_blanks(text);
        lemma_trim_start(text, k);
        assert(text.skip(k).subrange(0, 9) == "text/html"@);
        assert forall|j: int| 0 <= j < k implies (#[trigger] value[j] == 32 || value[j] == 9) by {
            assert(is_visible_byte(value[j]));
            assert(text[j] == ' ' || text[j] == '\t');
        }
        assert forall|j: int| 0 <= j < 9 implies value.subrange(k, k + 9)[j] == html[j] by {
            assert(is_visible_byte(value[k + j]));
            assert(text.skip(k).subrange(0, 9)[j] == text[k + j]);
            assert("text/html"@[j] == html[j] as char);
        }
        assert(value.subrange(k, k + 9) == html);
    }
    if visible && exists|k: int|
        0 <= k <= value.len() - 9 && (forall|j: int|
            0 <= j < k ==> (#[trigger] value[j] == 32 || value[j] == 9)) && #[trigger] value.subrange(
            k,
            k + 9,
        ) == html {
        let k = choose|k: int|
            0 <= k <= value.len() - 9 && (forall|j: int|
                0 <= j < k ==> (#[trigger] value[j] == 32 || value[j] == 9))
                && #[trigger] value.subrange(k, k + 9) == html;
        assert forall|j: int| 0 <= j < k implies (#[trigger] text[j] == ' ' || text[j] == '\t') by {
            assert(value[j] == 32 || value[j] == 9);
        }
        assert(value.subrange(k, k + 9)[0] == value[k]);
        lemma_trim_start(text, k);
        assert forall|j: int| 0 <= j < 9 implies text.skip(k).subrange(0, 9)[j]
            == "text/html"@[j] by {
            assert(value.subrange(k, k + 9)[j] == value[k + j]);
            assert("text/html"@[j] == html[j] as char);
        }
        assert(text.skip(k).subrange(0, 9) == "text/html"@);
        assert(occurs_at(text.skip(k), "text/html"@, 0));
    }
}

/// What [`declares_html_type`] tells of a value, byte by byte.
pub proof fn law_html_types_are_told(value: &[u8], html: bool)
    requires
        call_ensures(declares_html_type, (value,), html),
    ensures
        html <==> {
            &&& forall|i: int|
                0 <= i < value@.len() ==> (32 <= #[trigger] value@[i] < 127 || value@[i] == 9)
            &&& exists|k: int|
                0 <= k <= value@.len() - 9 && (forall|j: int|
                    0 <= j < k ==> (#[trigger] value@[j] == 32 || value@[j] == 9))
                    && #[trigger] value@.subrange(k, k + 9)
                    == seq![116u8, 101, 120, 116, 47, 104, 116, 109, 108]
        },
{
    law_html_follows_blanks(value@);
}

/// What [`is_html`] tells of headers: what their first `Content-Type` declares, if there is one.
pub proof fn law_first_content_type_decides(
    headers: HeaderMap<HeaderValue>,
    value: &[u8],
    declared: bool,
    html: bool,
)
    requires
        call_ensures(is_html, (&headers,), html),
        call_ensures(declares_html_type, (value,), declared),
    ensures
        !header_values(headers).contains_key("content-type"@) ==> !html,
        header_values(headers).contains_key("content-type"@) && header_values(
            headers,
        )["content-type"@].first() == value@ ==> html == declared,
{
}

/// What [`has_few_names`] tells of headers: that they hold no more than 6553 names.
pub proof fn law_few_names_are_told(headers: HeaderMap<HeaderValue>, few: bool)
    requires
        call_ensures(has_few_names, (&headers,), few),
    ensures
        few <==> header_values(headers).dom().len() <= 6553,
{
}

} // verus!
