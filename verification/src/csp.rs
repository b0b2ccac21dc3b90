//! The content security policy of a request, and the nonce it carries.
//!
//! For each request the layer settles on one nonce, renders the policy with it for the response's
//! `Content-Security-Policy` header, and, if asked to, swaps a fixed sentinel for it in the
//! response's HTML. What awaits the inner service and the body's frames drives these steps:
//! [`CspNonceService::open`] before the inner service is called, [`Exchange::finish_head`] when
//! its response is there, and [`Exchange::body_step`] for each event of a body to be rewritten.
use axum::http::{Extensions, HeaderMap, HeaderValue};
use vstd::prelude::*;
use vstd::utf8::{
    decode_utf8, encode_utf8, encode_utf8_decode_utf8, encode_utf8_valid_utf8,
    is_ascii_chars_encode_utf8, valid_utf8,
};

use crate::headers::{
    declares_html, few_names, header_value, header_values, insert_policy, is_header_byte,
    is_header_value, is_html, law_html_follows_blanks, other_extensions, remove_content_length,
    store_nonce, stored_nonce, stored_nonces,
};
use crate::nonce::{
    generate_nonce, hex_text, is_hex_char, is_nonce_text, law_hex_text_injective,
    law_nonce_renders_a_draw, CspNonce, NonceError,
};
use crate::text::{
    cannot_overlap, contains, law_different_replacements_differ, law_empty_text_stands_everywhere,
    law_long_texts_without_ends_cannot_overlap, law_only_occurrences_are_replaced,
    law_replace_leaves_no_occurrence, law_replacement_keeps_surroundings, occurs_at, occurs_in,
    replace, replace_all, utf8_text,
};

verus! {

/// Sentinel that [`CspNonceLayer::rewrite_html_body`] replaces with the nonce in HTML bodies.
pub const DEFAULT_SENTINEL: &'static str = "__CSP_NONCE__";

/// The token that is replaced with the nonce in a policy template.
pub const POLICY_PLACEHOLDER: &'static str = "{nonce}";

/// Upper bound, in bytes, on an HTML body that is buffered to be rewritten. A larger body is
/// passed on as it is: the policy is still sent, only the sentinel is not replaced.
pub const MAX_HTML_REWRITE: usize = 4 * 1024 * 1024;

/// Status of a response whose body broke off while it was buffered.
pub const BROKEN_BODY_STATUS: u16 = 500;

/// The text in an optional string.
pub open spec fn optional_text(text: Option<String>) -> Option<Seq<char>> {
    match text {
        Some(text) => Some(text@),
        None => None,
    }
}

/// A policy template rendered with a nonce.
pub open spec fn policy_text(template: Seq<char>, nonce: Seq<char>) -> Seq<char> {
    replace_all(template, POLICY_PLACEHOLDER@, nonce)
}

/// The header value for a template and a nonce; none, if the rendered policy cannot stand in a
/// header.
pub open spec fn policy_value(template: Seq<char>, nonce: Seq<char>) -> Option<Seq<u8>> {
    let bytes = encode_utf8(policy_text(template, nonce));
    if is_header_value(bytes) {
        Some(bytes)
    } else {
        None
    }
}

/// The text that takes the place of a complete body; none, if the body stays as it is.
pub open spec fn rewritten_body(
    body: Seq<u8>,
    sentinel: Option<Seq<char>>,
    nonce: Seq<char>,
) -> Option<Seq<char>> {
    match sentinel {
        Some(sentinel) => if body.len() <= MAX_HTML_REWRITE && valid_utf8(body) && occurs_in(
            decode_utf8(body),
            sentinel,
        ) {
            Some(replace_all(decode_utf8(body), sentinel, nonce))
        } else {
            None
        },
        None => None,
    }
}

/// Settings of the policy layer: a policy template and, where HTML bodies are rewritten, the
/// sentinel to replace in them.
pub struct CspNonceLayer {
    policy_template: String,
    rewrite_sentinel: Option<String>,
}

impl CspNonceLayer {
    /// The policy template.
    pub closed spec fn template(&self) -> Seq<char> {
        self.policy_template@
    }

    /// The sentinel to replace in HTML bodies, if they are rewritten.
    pub closed spec fn sentinel(&self) -> Option<Seq<char>> {
        optional_text(self.rewrite_sentinel)
    }

    /// A layer that renders `policy_template`, in which every `{nonce}` stands for the nonce, and
    /// leaves bodies as they are.
    pub fn new(policy_template: &str) -> (layer: Self)
        ensures
            layer.template() == policy_template@,
            layer.sentinel() is None,
    {
        CspNonceLayer { policy_template: policy_template.to_owned(), rewrite_sentinel: None }
    }

    /// The layer, replacing [`DEFAULT_SENTINEL`] in HTML bodies too.
    pub fn rewrite_html_body(self) -> (layer: Self)
        ensures
            layer.template() == self.template(),
            layer.sentinel() == Some(DEFAULT_SENTINEL@),
    {
        self.rewrite_html_body_with(DEFAULT_SENTINEL)
    }

    /// The layer, replacing `sentinel` in HTML bodies too.
    pub fn rewrite_html_body_with(self, sentinel: &str) -> (layer: Self)
        ensures
            layer.template() == self.template(),
            layer.sentinel() == Some(sentinel@),
    {
        CspNonceLayer {
            policy_template: self.policy_template,
            rewrite_sentinel: Some(sentinel.to_owned()),
        }
    }

    /// The service that applies this layer to `inner`.
    pub fn layer<S>(&self, inner: S) -> (service: CspNonceService<S>)
        ensures
            service.inner() == inner,
            service.template() == self.template(),
            service.sentinel() == self.sentinel(),
    {
        CspNonceService {
            inner,
            policy_template: self.policy_template.clone(),
            rewrite_sentinel: self.rewrite_sentinel.clone(),
        }
    }
}

impl Clone for CspNonceLayer {
    fn clone(&self) -> (copy: Self)
        ensures
            copy.template() == self.template(),
            copy.sentinel() == self.sentinel(),
    {
        CspNonceLayer {
            policy_template: self.policy_template.clone(),
            rewrite_sentinel: self.rewrite_sentinel.clone(),
        }
    }
}

/// A service under the policy layer.
pub struct CspNonceService<S> {
    inner: S,
    policy_template: String,
    rewrite_sentinel: Option<String>,
}

impl<S: Clone> Clone for CspNonceService<S> {
    fn clone(&self) -> (copy: Self)
        ensures
            cloned(self.inner(), copy.inner()),
            copy.template() == self.template(),
            copy.sentinel() == self.sentinel(),
    {
        CspNonceService {
            inner: self.inner.clone(),
            policy_template: self.policy_template.clone(),
            rewrite_sentinel: self.rewrite_sentinel.clone(),
        }
    }
}

impl<S> CspNonceService<S> {
    /// The service that answers the requests.
    pub closed spec fn inner(&self) -> S {
        self.inner
    }

    /// The policy template.
    pub closed spec fn template(&self) -> Seq<char> {
        self.policy_template@
    }

    /// The sentinel to replace in HTML bodies, if they are rewritten.
    pub closed spec fn sentinel(&self) -> Option<Seq<char>> {
        optional_text(self.rewrite_sentinel)
    }

    /// The service that answers the requests, to be driven or exchanged for another.
    pub fn inner_mut(&mut self) -> (inner: &mut S)
        ensures
            *inner == old(self).inner(),
            final(self).inner() == *final(inner),
            final(self).template() == old(self).template(),
            final(self).sentinel() == old(self).sentinel(),
    {
        &mut self.inner
    }

    /// The exchange for a request that carries `nonce`.
    pub fn exchange(&self, nonce: String) -> (exchange: Exchange)
        ensures
            exchange.carries(self.template(), self.sentinel(), nonce@),
    {
        let policy: String = replace(
            self.policy_template.as_str(),
            POLICY_PLACEHOLDER,
            nonce.as_str(),
        );
        Exchange {
            policy: header_value(policy.as_str()),
            nonce,
            sentinel: self.rewrite_sentinel.clone(),
        }
    }

    /// The exchange for a request without a nonce: stores the minted `nonce` with the request.
    pub fn adopt(&self, extensions: &mut Extensions, nonce: String) -> (exchange: Exchange)
        ensures
            exchange.carries(self.template(), self.sentinel(), nonce@),
            stored_nonces(*final(extensions)) == seq![nonce@],
            other_extensions(*final(extensions)) == other_extensions(*old(extensions)),
    {
        store_nonce(extensions, CspNonce(nonce.clone()));
        self.exchange(nonce)
    }

    /// The exchange for a request with these extensions. A nonce that a layer further out has
    /// stored is used again, so that all layers agree on one; otherwise [`generate_nonce`] mints
    /// one, which is stored.
    pub fn open(&self, extensions: &mut Extensions) -> (opened: Result<Exchange, NonceError>)
        ensures
            match opened {
                Ok(exchange) => opens(
                    self.template(),
                    self.sentinel(),
                    stored_nonces(*old(extensions)),
                    stored_nonces(*final(extensions)),
                    exchange,
                ),
                Err(_) => *final(extensions) == *old(extensions) && stored_nonces(
                    *old(extensions),
                ).len() == 0,
            },
            stored_nonces(*old(extensions)).len() > 0 ==> *final(extensions) == *old(extensions),
            other_extensions(*final(extensions)) == other_extensions(*old(extensions)),
            stored_nonces(*old(extensions)).len() == 0 ==> exists|
                minted: Result<String, NonceError>,
            | #[trigger] call_ensures(generate_nonce, (), minted) && match minted {
                Ok(text) => opened matches Ok(exchange) && exchange.nonce() == text@,
                Err(error) => opened matches Err(failure) && failure == error,
            },
    {
        match stored_nonce(extensions) {
            Some(nonce) => Ok(self.exchange(nonce)),
            None => match generate_nonce() {
                Ok(nonce) => Ok(self.adopt(extensions, nonce)),
                Err(error) => Err(error),
            },
        }
    }
}

/// How a request is opened: `before` and `after` are the nonces that its extensions hold.
pub open spec fn opens(
    template: Seq<char>,
    sentinel: Option<Seq<char>>,
    before: Seq<Seq<char>>,
    after: Seq<Seq<char>>,
    exchange: Exchange,
) -> bool {
    &&& exchange.carries(template, sentinel, exchange.nonce())
    &&& after == seq![exchange.nonce()]
    &&& before.len() > 0 ==> after == before
    &&& before.len() == 0 ==> is_nonce_text(exchange.nonce())
}

/// One request on its way through the layer.
pub struct Exchange {
    nonce: String,
    policy: Option<Vec<u8>>,
    sentinel: Option<String>,
}

/// Why the policy could not be sent.
#[derive(Clone, Copy, Debug, PartialEq, Eq, Structural)]
pub enum PolicyError {
    /// The response holds as many headers as it can.
    TooManyHeaders,
}

/// What happens next to a body that is read to be rewritten.
#[derive(Debug)]
pub enum BodyEvent {
    /// Further bytes came.
    Chunk(Vec<u8>),
    /// The body is complete.
    End,
    /// Reading failed.
    Failed,
}

/// What to do after an event of the body.
#[derive(Debug)]
pub enum BodyStep {
    /// Read on.
    More,
    /// Send what is buffered, then the rest of the body unread: it is too large to rewrite.
    PassOn,
    /// Send what is buffered.
    Keep,
    /// Send this text.
    Replace(String),
    /// Answer with this status and an empty body.
    Fail(u16),
}

impl Exchange {
    /// The nonce of the request.
    pub closed spec fn nonce(&self) -> Seq<char> {
        self.nonce@
    }

    /// The value of the policy header, if it is sent.
    pub closed spec fn policy(&self) -> Option<Seq<u8>> {
        match self.policy {
            Some(bytes) => Some(bytes@),
            None => None,
        }
    }

    /// The sentinel to replace in an HTML body, if it is rewritten.
    pub closed spec fn sentinel(&self) -> Option<Seq<char>> {
        optional_text(self.sentinel)
    }

    /// Whether this exchange carries `nonce` under the given settings.
    pub open spec fn carries(
        &self,
        template: Seq<char>,
        sentinel: Option<Seq<char>>,
        nonce: Seq<char>,
    ) -> bool {
        &&& self.nonce() == nonce
        &&& self.policy() == policy_value(template, nonce)
        &&& self.sentinel() == sentinel
    }

    #[verifier::type_invariant]
    spec fn well_formed(self) -> bool {
        self.policy matches Some(bytes) ==> is_header_value(bytes@)
    }

    /// The nonce of the request.
    pub fn nonce_str(&self) -> (nonce: &str)
        ensures
            nonce@ == self.nonce(),
    {
        self.nonce.as_str()
    }

    /// Puts the policy into the response's headers, in place of any other, and tells whether the
    /// response's body is to be rewritten: it is, if a sentinel is set and the headers declare
    /// HTML.
    pub fn finish_head(&self, headers: &mut HeaderMap<HeaderValue>) -> (finished: Result<
        bool,
        PolicyError,
    >)
        ensures
            header_values(*final(headers)) == match (self.policy(), finished) {
                (Some(value), Ok(_)) => header_values(*old(headers)).insert(
                    "content-security-policy"@,
                    seq![value],
                ),
                _ => header_values(*old(headers)),
            },
            self.policy() is None ==> *final(headers) == *old(headers),
            finished matches Ok(rewrite) ==> rewrite == (self.sentinel() is Some && declares_html(
                header_values(*old(headers)),
            )),
            self.policy() is None || few_names(header_values(*old(headers))) ==> finished is Ok,
    {
        proof {
            use_type_invariant(self);
            reveal_strlit("content-type");
            reveal_strlit("content-security-policy");
            assert("content-type"@.len() != "content-security-policy"@.len());
        }
        match &self.policy {
            Some(value) => match insert_policy(headers, value.as_slice()) {
                Ok(_) => {},
                Err(_) => {
                    return Err(PolicyError::TooManyHeaders);
                },
            },
            None => {},
        }
        Ok(self.sentinel.is_some() && is_html(headers))
    }

    /// Rewrites a complete body: where it is small enough and UTF-8 and the sentinel stands in it,
    /// every sentinel gives way to the nonce, and the stale `Content-Length` leaves the headers.
    pub fn rewrite_body(&self, headers: &mut HeaderMap<HeaderValue>, body: &[u8]) -> (step: BodyStep)
        ensures
            match rewritten_body(body@, self.sentinel(), self.nonce()) {
                Some(text) => {
                    &&& step matches BodyStep::Replace(sent) && sent@ == text
                    &&& header_values(*final(headers)) == header_values(*old(headers)).remove(
                        "content-length"@,
                    )
                },
                None => step is Keep && *final(headers) == *old(headers),
            },
    {
        if body.len() > MAX_HTML_REWRITE {
            return BodyStep::Keep;
        }
        match &self.sentinel {
            Some(sentinel) => match utf8_text(body) {
                Some(text) => if contains(text, sentinel.as_str()) {
                    let replaced: String = replace(text, sentinel.as_str(), self.nonce.as_str());
                    remove_content_length(headers);
                    BodyStep::Replace(replaced)
                } else {
                    BodyStep::Keep
                },
                None => BodyStep::Keep,
            },
            None => BodyStep::Keep,
        }
    }

    /// Takes the next event of a body that is read to be rewritten; `buffered` holds the bytes
    /// that came so far.
    pub fn body_step(
        &self,
        headers: &mut HeaderMap<HeaderValue>,
        buffered: &mut Vec<u8>,
        event: BodyEvent,
    ) -> (step: BodyStep)
        ensures
            match event {
                BodyEvent::Chunk(chunk) => {
                    &&& final(buffered)@ == old(buffered)@ + chunk@
                    &&& *final(headers) == *old(headers)
                    &&& step == if final(buffered)@.len() <= MAX_HTML_REWRITE {
                        BodyStep::More
                    } else {
                        BodyStep::PassOn
                    }
                },
                BodyEvent::End => {
                    &&& final(buffered)@ == old(buffered)@
                    &&& match rewritten_body(old(buffered)@, self.sentinel(), self.nonce()) {
                        Some(text) => {
                            &&& step matches BodyStep::Replace(sent) && sent@ == text
                            &&& header_values(*final(headers)) == header_values(
                                *old(headers),
                            ).remove("content-length"@)
                        },
                        None => step is Keep && *final(headers) == *old(headers),
                    }
                },
                BodyEvent::Failed => {
                    &&& final(buffered)@ == old(buffered)@
                    &&& step == BodyStep::Fail(BROKEN_BODY_STATUS)
                    &&& header_values(*final(headers)) == header_values(*old(headers)).remove(
                        "content-length"@,
                    )
                },
            },
    {
        match event {
            BodyEvent::Chunk(chunk) => {
                let mut chunk: Vec<u8> = chunk;
                buffered.append(&mut chunk);
                if buffered.len() <= MAX_HTML_REWRITE {
                    BodyStep::More
                } else {
                    BodyStep::PassOn
                }
            },
            BodyEvent::End => self.rewrite_body(headers, buffered.as_slice()),
            BodyEvent::Failed => {
                remove_content_length(headers);
                BodyStep::Fail(BROKEN_BODY_STATUS)
            },
        }
    }
}

/// Neither the placeholder nor the default sentinel can overlap a minted nonce.
pub proof fn law_minted_nonce_cannot_overlap(nonce: Seq<char>)
    requires
        is_nonce_text(nonce),
    ensures
        cannot_overlap(POLICY_PLACEHOLDER@, nonce),
        cannot_overlap(DEFAULT_SENTINEL@, nonce),
{
    reveal_strlit("{nonce}");
    reveal_strlit("__CSP_NONCE__");
    law_long_texts_without_ends_cannot_overlap(POLICY_PLACEHOLDER@, nonce);
    law_long_texts_without_ends_cannot_overlap(DEFAULT_SENTINEL@, nonce);
}

/// A rendered policy holds no placeholder any more, with every nonce that no placeholder can
/// overlap: every minted one is such a nonce.
pub proof fn law_policy_holds_no_placeholder(template: Seq<char>, nonce: Seq<char>)
    requires
        cannot_overlap(POLICY_PLACEHOLDER@, nonce),
    ensures
        !occurs_in(policy_text(template, nonce), POLICY_PLACEHOLDER@),
{
    reveal_strlit("{nonce}");
    law_replace_leaves_no_occurrence(template, POLICY_PLACEHOLDER@, nonce);
}

/// Where the template names the nonce as a source, so does the policy: `'nonce-{nonce}'` becomes
/// `'nonce-` with the nonce and a closing quote.
pub proof fn law_policy_names_the_nonce(template: Seq<char>, nonce: Seq<char>)
    requires
        occurs_in(template, "'nonce-"@ + POLICY_PLACEHOLDER@ + "'"@),
    ensures
        occurs_in(policy_text(template, nonce), "'nonce-"@ + nonce + "'"@),
{
    reveal_strlit("{nonce}");
    reveal_strlit("'nonce-");
    reveal_strlit("'");
    law_replacement_keeps_surroundings(
        template,
        "'nonce-"@,
        POLICY_PLACEHOLDER@,
        "'"@,
        nonce,
    );
}

/// Requests whose nonces come from different random bytes get different policies, if the template
/// names the nonce.
pub proof fn law_different_draws_give_different_policies(
    template: Seq<char>,
    a: Seq<u8>,
    b: Seq<u8>,
)
    requires
        occurs_in(template, POLICY_PLACEHOLDER@),
        a.len() == b.len(),
        a != b,
    ensures
        policy_text(template, hex_text(a)) != policy_text(template, hex_text(b)),
        policy_value(template, hex_text(a)) is Some ==> policy_value(template, hex_text(a))
            != policy_value(template, hex_text(b)),
{
    if hex_text(a) == hex_text(b) {
        law_hex_text_injective(a, b);
    }
    law_different_replacements_differ(template, POLICY_PLACEHOLDER@, hex_text(a), hex_text(b));
    encode_utf8_decode_utf8(policy_text(template, hex_text(a)));
    encode_utf8_decode_utf8(policy_text(template, hex_text(b)));
}

/// Markup whose `nonce` attribute holds the default sentinel gets the nonce in that attribute.
pub proof fn law_markup_gets_the_nonce(body: Seq<u8>, nonce: Seq<char>)
    requires
        body.len() <= MAX_HTML_REWRITE,
        valid_utf8(body),
        occurs_in(decode_utf8(body), "nonce=\""@ + DEFAULT_SENTINEL@ + "\""@),
    ensures
        rewritten_body(body, Some(DEFAULT_SENTINEL@), nonce) matches Some(text) && occurs_in(
            text,
            "nonce=\""@ + nonce + "\""@,
        ),
{
    reveal_strlit("__CSP_NONCE__");
    reveal_strlit("nonce=\"");
    reveal_strlit("\"");
    let text = decode_utf8(body);
    let whole = "nonce=\""@ + DEFAULT_SENTINEL@ + "\""@;
    let i = choose|i: int| occurs_at(text, whole, i);
    let k = "nonce=\""@.len() as int;
    let n = DEFAULT_SENTINEL@.len() as int;
    assert(text.subrange(i + k, i + k + n) == text.subrange(i, i + whole.len()).subrange(k, k + n));
    assert(whole.subrange(k, k + n) == DEFAULT_SENTINEL@);
    assert(occurs_at(text, DEFAULT_SENTINEL@, i + k));
    law_replacement_keeps_surroundings(text, "nonce=\""@, DEFAULT_SENTINEL@, "\""@, nonce);
}

/// A rewritten body holds no default sentinel any more, so a layer further out leaves it as it is,
/// whatever nonce it carries. This holds of every nonce that no sentinel can overlap: of every
/// minted one, and of every other that is not empty and has no character of the sentinel.
pub proof fn law_rewritten_body_holds_no_sentinel(
    body: Seq<u8>,
    nonce: Seq<char>,
    outer_nonce: Seq<char>,
)
    requires
        cannot_overlap(DEFAULT_SENTINEL@, nonce),
    ensures
        rewritten_body(body, Some(DEFAULT_SENTINEL@), nonce) matches Some(text) ==> !occurs_in(
            text,
            DEFAULT_SENTINEL@,
        ) && rewritten_body(encode_utf8(text), Some(DEFAULT_SENTINEL@), outer_nonce) is None,
{
    reveal_strlit("__CSP_NONCE__");
    if let Some(text) = rewritten_body(body, Some(DEFAULT_SENTINEL@), nonce) {
        law_replace_leaves_no_occurrence(decode_utf8(body), DEFAULT_SENTINEL@, nonce);
        encode_utf8_decode_utf8(text);
    }
}

/// Nested layers share one nonce: what the outer layer settled on is what the inner one carries
/// and what the request keeps.
pub proof fn law_nested_layers_share_the_nonce(
    outer_template: Seq<char>,
    outer_sentinel: Option<Seq<char>>,
    inner_template: Seq<char>,
    inner_sentinel: Option<Seq<char>>,
    before: Seq<Seq<char>>,
    between: Seq<Seq<char>>,
    after: Seq<Seq<char>>,
    outer: Exchange,
    inner: Exchange,
)
    requires
        opens(outer_template, outer_sentinel, before, between, outer),
        opens(inner_template, inner_sentinel, between, after, inner),
    ensures
        inner.nonce() == outer.nonce(),
        after == between,
{
    assert(between[0] == outer.nonce());
    assert(after[0] == inner.nonce());
}

/// The header, the markup and the request agree on one nonce: the one that is stored with the
/// request is named in the policy and stands in the markup.
pub proof fn law_header_markup_and_request_agree(
    template: Seq<char>,
    before: Seq<Seq<char>>,
    after: Seq<Seq<char>>,
    exchange: Exchange,
    body: Seq<u8>,
)
    requires
        opens(template, Some(DEFAULT_SENTINEL@), before, after, exchange),
        occurs_in(template, "'nonce-"@ + POLICY_PLACEHOLDER@ + "'"@),
        body.len() <= MAX_HTML_REWRITE,
        valid_utf8(body),
        occurs_in(decode_utf8(body), "nonce=\""@ + DEFAULT_SENTINEL@ + "\""@),
    ensures
        after.len() == 1,
        exchange.policy() matches Some(value) ==> valid_utf8(value) && occurs_in(
            decode_utf8(value),
            "'nonce-"@ + after[0] + "'"@,
        ),
        rewritten_body(body, exchange.sentinel(), exchange.nonce()) matches Some(text)
            && occurs_in(text, "nonce=\""@ + after[0] + "\""@),
{
    let nonce = exchange.nonce();
    assert(after[0] == nonce);
    law_policy_names_the_nonce(template, nonce);
    law_markup_gets_the_nonce(body, nonce);
    encode_utf8_valid_utf8(policy_text(template, nonce));
    encode_utf8_decode_utf8(policy_text(template, nonce));
}

/// Encoding a text is encoding its parts.
proof fn lemma_encode_concat(a: Seq<char>, b: Seq<char>)
    ensures
        encode_utf8(a + b) == encode_utf8(a) + encode_utf8(b),
    decreases a.len(),
{
    if a.len() == 0 {
        assert(a + b == b);
        assert(encode_utf8(a) + encode_utf8(b) == encode_utf8(b));
    } else {
        lemma_encode_concat(a.drop_first(), b);
        assert((a + b).drop_first() == a.drop_first() + b);
        assert(encode_utf8(a + b) == encode_utf8(a) + encode_utf8(b));
    }
}

/// Text is fit for a header if its parts are.
proof fn lemma_header_value_concat(a: Seq<char>, b: Seq<char>)
    ensures
        is_header_value(encode_utf8(a + b)) == (is_header_value(encode_utf8(a)) && is_header_value(
            encode_utf8(b),
        )),
{
    lemma_encode_concat(a, b);
    let x = encode_utf8(a);
    let y = encode_utf8(b);
    if is_header_value(x + y) {
        assert forall|i: int| 0 <= i < x.len() implies is_header_byte(#[trigger] x[i]) by {
            assert((x + y)[i] == x[i]);
        }
        assert forall|i: int| 0 <= i < y.len() implies is_header_byte(#[trigger] y[i]) by {
            assert((x + y)[x.len() + i] == y[i]);
        }
    }
}

/// A replacement fit for a header keeps a text fit for a header.
proof fn lemma_replaced_fits_header(text: Seq<char>, from: Seq<char>, to: Seq<char>)
    requires
        is_header_value(encode_utf8(text)),
        is_header_value(encode_utf8(to)),
    ensures
        is_header_value(encode_utf8(replace_all(text, from, to))),
    decreases text.len(),
{
    if text.len() > 0 && (from.len() == 0 || text.len() >= from.len()) {
        assert(text == seq![text[0]] + text.skip(1));
        lemma_header_value_concat(seq![text[0]], text.skip(1));
        lemma_replaced_fits_header(text.skip(1), from, to);
        let rest = replace_all(text.skip(1), from, to);
        if from.len() == 0 {
            lemma_header_value_concat(to, seq![text[0]]);
            lemma_header_value_concat(to + seq![text[0]], rest);
        } else if occurs_at(text, from, 0) {
            let n = from.len() as int;
            assert(text == text.take(n) + text.skip(n));
            lemma_header_value_concat(text.take(n), text.skip(n));
            lemma_replaced_fits_header(text.skip(n), from, to);
            lemma_header_value_concat(to, replace_all(text.skip(n), from, to));
        } else {
            lemma_header_value_concat(seq![text[0]], rest);
        }
    }
}

/// A template that could stand in a header gives a policy that is sent, with every minted nonce.
pub proof fn law_policy_is_sent(template: Seq<char>, nonce: Seq<char>)
    requires
        is_header_value(encode_utf8(template)),
        is_nonce_text(nonce),
    ensures
        policy_value(template, nonce) == Some(encode_utf8(policy_text(template, nonce))),
{
    is_ascii_chars_encode_utf8(nonce);
    let bytes = encode_utf8(nonce);
    assert forall|i: int| 0 <= i < bytes.len() implies is_header_byte(#[trigger] bytes[i]) by {
        assert(is_hex_char(nonce[i]));
        assert(bytes[i] == nonce[i] as u8);
    }
    lemma_replaced_fits_header(template, POLICY_PLACEHOLDER@, nonce);
}

/// The first chunks of a body and those after them make up the body.
proof fn lemma_chunks_split(chunks: Seq<Seq<u8>>, k: int)
    requires
        0 <= k <= chunks.len(),
    ensures
        chunks.take(k).flatten() + chunks.skip(k).flatten() == chunks.flatten(),
    decreases k,
{
    if k == 0 {
        assert(chunks.skip(0) == chunks);
        assert(chunks.take(0).flatten() + chunks.flatten() == chunks.flatten());
    } else {
        let rest = chunks.drop_first();
        lemma_chunks_split(rest, k - 1);
        assert(chunks.take(k).drop_first() == rest.take(k - 1));
        assert(chunks.skip(k) == rest.skip(k - 1));
        assert(chunks.take(k).first() == chunks.first());
        assert(chunks.take(k).flatten() + chunks.skip(k).flatten() == chunks.first() + (rest.take(
            k - 1,
        ).flatten() + rest.skip(k - 1).flatten()));
    }
}

/// One more chunk lengthens what is buffered by that chunk.
proof fn lemma_chunks_step(chunks: Seq<Seq<u8>>, k: int)
    requires
        0 <= k < chunks.len(),
    ensures
        chunks.take(k + 1).flatten() == chunks.take(k).flatten() + chunks[k],
{
    let begun = chunks.take(k + 1);
    lemma_chunks_split(begun, k);
    assert(begun.take(k) == chunks.take(k));
    assert(begun.skip(k) == seq![chunks[k]]);
    seq![chunks[k]].lemma_flatten_one_element();
}

/// However a body of acceptable size is cut into chunks, each chunk is buffered and reading goes
/// on: when it ends, what is buffered is the body.
pub proof fn law_small_body_is_buffered_whole(chunks: Seq<Seq<u8>>, k: int)
    requires
        chunks.flatten().len() <= MAX_HTML_REWRITE,
        0 <= k < chunks.len(),
    ensures
        chunks.take(k).flatten() + chunks[k] == chunks.take(k + 1).flatten(),
        chunks.take(k + 1).flatten().len() <= MAX_HTML_REWRITE,
        chunks.take(chunks.len() as int).flatten() == chunks.flatten(),
{
    lemma_chunks_step(chunks, k);
    lemma_chunks_split(chunks, k + 1);
    assert(chunks.take(chunks.len() as int) == chunks);
}

/// However a larger body is cut into chunks, there is a first chunk after which it is passed on,
/// and what is buffered by then, followed by the rest, is the body.
pub proof fn law_large_body_is_passed_on_whole(chunks: Seq<Seq<u8>>)
    requires
        chunks.flatten().len() > MAX_HTML_REWRITE,
    ensures
        exists|k: int|
            {
                &&& 0 < k <= chunks.len()
                &&& forall|j: int|
                    0 <= j < k ==> (#[trigger] chunks.take(j)).flatten().len() <= MAX_HTML_REWRITE
                &&& (#[trigger] chunks.take(k)).flatten().len() > MAX_HTML_REWRITE
                &&& chunks.take(k).flatten() + chunks.skip(k).flatten() == chunks.flatten()
            },
{
    assert(chunks.take(chunks.len() as int) == chunks);
    let k = lemma_first_excess(chunks, chunks.len() as int);
    lemma_chunks_split(chunks, k);
}

/// The first number of chunks that is too large to be buffered, if the first `n` are.
proof fn lemma_first_excess(chunks: Seq<Seq<u8>>, n: int) -> (k: int)
    requires
        0 <= n <= chunks.len(),
        chunks.take(n).flatten().len() > MAX_HTML_REWRITE,
    ensures
        0 < k <= n,
        chunks.take(k).flatten().len() > MAX_HTML_REWRITE,
        forall|j: int|
            0 <= j < k ==> (#[trigger] chunks.take(j)).flatten().len() <= MAX_HTML_REWRITE,
    decreases n,
{
    if n > 0 && chunks.take(n - 1).flatten().len() > MAX_HTML_REWRITE {
        lemma_first_excess(chunks, n - 1)
    } else {
        assert forall|j: int| 0 <= j < n implies (#[trigger] chunks.take(j)).flatten().len()
            <= MAX_HTML_REWRITE by {
            lemma_chunks_split(chunks.take(n - 1), j);
            assert(chunks.take(n - 1).take(j) == chunks.take(j));
        }
        n
    }
}

/// A text that does not hold the placeholder holds none that only begins in it either: the opening
/// brace stands nowhere else in the placeholder.
proof fn lemma_placeholder_does_not_begin_in(part: Seq<char>, k: int)
    requires
        0 <= k < part.len(),
        forall|j: int|
            0 <= j <= part.len() - 7 ==> #[trigger] part.subrange(j, j + 7) != "{nonce}"@,
    ensures
        (part + "{nonce}"@).subrange(k, k + "{nonce}"@.len()) != "{nonce}"@,
{
    reveal_strlit("{nonce}");
    let whole = part + "{nonce}"@;
    let found = whole.subrange(k, k + 7);
    if k + 7 <= part.len() {
        assert(found == part.subrange(k, k + 7));
    } else {
        let d = part.len() - k;
        assert(found[d] == whole[part.len() as int]);
        assert("{nonce}"@[d] != '{');
    }
}

/// The policy is the template with only the placeholders exchanged: where the template is made of
/// `parts` with `{nonce}` between them, the policy is made of the same parts with the nonce between
/// them. A template without a placeholder is the policy.
pub proof fn law_policy_keeps_the_template(parts: Seq<Seq<char>>, nonce: Seq<char>)
    requires
        parts.len() > 0,
        forall|i: int, j: int|
            0 <= i < parts.len() && 0 <= j <= parts[i].len() - 7 ==> #[trigger] parts[i].subrange(
                j,
                j + 7,
            ) != "{nonce}"@,
    ensures
        policy_text(
            parts[0] + parts.skip(1).map_values(|p: Seq<char>| "{nonce}"@ + p).flatten(),
            nonce,
        ) == parts[0] + parts.skip(1).map_values(|p: Seq<char>| nonce + p).flatten(),
{
    reveal_strlit("{nonce}");
    let placeholder = "{nonce}"@;
    assert forall|i: int, k: int|
        0 <= i < parts.len() - 1 && 0 <= k < parts[i].len() implies #[trigger] (parts[i]
        + placeholder).subrange(k, k + placeholder.len()) != placeholder by {
        assert forall|j: int| 0 <= j <= parts[i].len() - 7 implies #[trigger] parts[i].subrange(
            j,
            j + 7,
        ) != "{nonce}"@ by {}
        lemma_placeholder_does_not_begin_in(parts[i], k);
    }
    assert forall|k: int|
        0 <= k <= parts.last().len() - placeholder.len() implies #[trigger] parts.last().subrange(
        k,
        k + placeholder.len(),
    ) != placeholder by {
        assert(parts[parts.len() - 1].subrange(k, k + 7) != "{nonce}"@);
    }
    law_only_occurrences_are_replaced(parts, placeholder, nonce);
    assert(parts.skip(1).map_values(|p: Seq<char>| "{nonce}"@ + p) == parts.skip(1).map_values(
        |p: Seq<char>| placeholder + p,
    ));
}

/// However a request gets its nonce, the exchange carries it under the settings of the service.
proof fn lemma_request_carries_the_nonce<S>(
    service: CspNonceService<S>,
    nonce: String,
    exchange: Exchange,
)
    requires
        call_ensures(CspNonceService::<S>::exchange, (&service, nonce), exchange) || (exists|
            extensions: &mut Extensions,
        | #[trigger] call_ensures(
            CspNonceService::<S>::adopt,
            (&service, extensions, nonce),
            exchange,
        )) || exists|extensions: &mut Extensions| #[trigger] call_ensures(
            CspNonceService::<S>::open,
            (&service, extensions),
            Ok::<Exchange, NonceError>(exchange),
        ) && stored_nonces(*final(extensions)) == seq![nonce@],
    ensures
        exchange.carries(service.template(), service.sentinel(), nonce@),
{
    assert(seq![exchange.nonce()][0] == exchange.nonce());
    assert(seq![nonce@][0] == nonce@);
}

/// From the template to the header that is sent, with a nonce that is given, adopted, or stored when
/// the request is opened: every part of the template between its
/// placeholders is kept, in order, and the nonce stands for each placeholder. The header takes the
/// place of every other policy, and the other headers stay. A policy that cannot stand in a header
/// is not sent, and the headers stay as they are.
pub proof fn law_template_is_sent_with_the_nonce<S>(
    template: &str,
    plain: CspNonceLayer,
    layer: CspNonceLayer,
    inner: S,
    service: CspNonceService<S>,
    nonce: String,
    exchange: Exchange,
    headers: &mut HeaderMap<HeaderValue>,
    finished: Result<bool, PolicyError>,
    parts: Seq<Seq<char>>,
)
    requires
        call_ensures(CspNonceLayer::new, (template,), plain),
        layer == plain || call_ensures(CspNonceLayer::rewrite_html_body, (plain,), layer) || exists|
            sentinel: &str,
        | #[trigger] call_ensures(CspNonceLayer::rewrite_html_body_with, (plain, sentinel), layer),
        call_ensures(CspNonceLayer::layer::<S>, (&layer, inner), service),
        call_ensures(CspNonceService::<S>::exchange, (&service, nonce), exchange) || (exists|
            extensions: &mut Extensions,
        | #[trigger] call_ensures(
            CspNonceService::<S>::adopt,
            (&service, extensions, nonce),
            exchange,
        )) || exists|extensions: &mut Extensions| #[trigger] call_ensures(
            CspNonceService::<S>::open,
            (&service, extensions),
            Ok::<Exchange, NonceError>(exchange),
        ) && stored_nonces(*final(extensions)) == seq![nonce@],
        call_ensures(Exchange::finish_head, (&exchange, headers), finished),
        parts.len() > 0,
        template@ == parts[0] + parts.skip(1).map_values(
            |p: Seq<char>| "{nonce}"@ + p,
        ).flatten(),
        forall|i: int, j: int|
            0 <= i < parts.len() && 0 <= j <= parts[i].len() - 7 ==> #[trigger] parts[i].subrange(
                j,
                j + 7,
            ) != "{nonce}"@,
    ensures
        ({
            let policy = encode_utf8(
                parts[0] + parts.skip(1).map_values(|p: Seq<char>| nonce@ + p).flatten(),
            );
            if forall|i: int|
                0 <= i < policy.len() ==> (#[trigger] policy[i] >= 32 && policy[i] != 127
                    || policy[i] == 9) {
                &&& finished is Ok ==> header_values(*final(headers)) == header_values(
                    *old(headers),
                ).insert("content-security-policy"@, seq![policy])
                &&& finished is Err ==> header_values(*final(headers)) == header_values(
                    *old(headers),
                ) && header_values(*old(headers)).dom().len() > 6553
            } else {
                finished is Ok && *final(headers) == *old(headers)
            }
        }),
{
    lemma_request_carries_the_nonce(service, nonce, exchange);
    law_policy_keeps_the_template(parts, nonce@);
    let policy = encode_utf8(
        parts[0] + parts.skip(1).map_values(|p: Seq<char>| nonce@ + p).flatten(),
    );
    assert(is_header_value(policy) == forall|i: int|
        0 <= i < policy.len() ==> (#[trigger] policy[i] >= 32 && policy[i] != 127 || policy[i]
            == 9)) by {
        if is_header_value(policy) {
            assert forall|i: int| 0 <= i < policy.len() implies (#[trigger] policy[i] >= 32
                && policy[i] != 127 || policy[i] == 9) by {
                assert(is_header_byte(policy[i]));
            }
        }
    }
}

/// Which bodies are rewritten: none where the layer does not rewrite; otherwise those of responses
/// whose first `Content-Type` is visible ASCII and reads `text/html` after nothing but spaces and
/// tabs.
pub proof fn law_html_is_rewritten_where_asked<S>(
    template: &str,
    plain: CspNonceLayer,
    layer: CspNonceLayer,
    inner: S,
    service: CspNonceService<S>,
    nonce: String,
    exchange: Exchange,
    headers: &mut HeaderMap<HeaderValue>,
    rewrite: bool,
)
    requires
        call_ensures(CspNonceLayer::new, (template,), plain),
        call_ensures(CspNonceLayer::layer::<S>, (&layer, inner), service),
        call_ensures(CspNonceService::<S>::exchange, (&service, nonce), exchange) || (exists|
            extensions: &mut Extensions,
        | #[trigger] call_ensures(
            CspNonceService::<S>::adopt,
            (&service, extensions, nonce),
            exchange,
        )) || exists|extensions: &mut Extensions| #[trigger] call_ensures(
            CspNonceService::<S>::open,
            (&service, extensions),
            Ok::<Exchange, NonceError>(exchange),
        ) && stored_nonces(*final(extensions)) == seq![nonce@],
        call_ensures(
            Exchange::finish_head,
            (&exchange, headers),
            Ok::<bool, PolicyError>(rewrite),
        ),
    ensures
        layer == plain ==> !rewrite,
        call_ensures(CspNonceLayer::rewrite_html_body, (plain,), layer) || (exists|sentinel: &str|
         #[trigger] call_ensures(
            CspNonceLayer::rewrite_html_body_with,
            (plain, sentinel),
            layer,
        )) ==> (rewrite <==> {
            let values = header_values(*old(headers));
            let value = values["content-type"@].first();
            &&& values.contains_key("content-type"@)
            &&& forall|i: int|
                0 <= i < value.len() ==> (32 <= #[trigger] value[i] < 127 || value[i] == 9)
            &&& exists|k: int|
                0 <= k <= value.len() - 9 && (forall|j: int|
                    0 <= j < k ==> (#[trigger] value[j] == 32 || value[j] == 9))
                    && #[trigger] value.subrange(k, k + 9)
                    == seq![116u8, 101, 120, 116, 47, 104, 116, 109, 108]
        }),
{
    lemma_request_carries_the_nonce(service, nonce, exchange);
    law_html_follows_blanks(header_values(*old(headers))["content-type"@].first());
}

/// From the page to the page that is sent, with a nonce that is given, adopted, or stored when the
/// request is opened: every part of the body between its sentinels is kept,
/// in order, and the nonce stands for each sentinel. Of the headers, only `Content-Length` leaves.
pub proof fn law_page_is_sent_with_the_nonce<S>(
    template: &str,
    plain: CspNonceLayer,
    sentinel: Seq<char>,
    layer: CspNonceLayer,
    inner: S,
    service: CspNonceService<S>,
    nonce: String,
    exchange: Exchange,
    headers: &mut HeaderMap<HeaderValue>,
    body: &[u8],
    step: BodyStep,
    parts: Seq<Seq<char>>,
)
    requires
        call_ensures(CspNonceLayer::new, (template,), plain),
        sentinel == "__CSP_NONCE__"@ && call_ensures(
            CspNonceLayer::rewrite_html_body,
            (plain,),
            layer,
        ) || exists|text: &str| #[trigger] call_ensures(
            CspNonceLayer::rewrite_html_body_with,
            (plain, text),
            layer,
        ) && text@ == sentinel,
        call_ensures(CspNonceLayer::layer::<S>, (&layer, inner), service),
        call_ensures(CspNonceService::<S>::exchange, (&service, nonce), exchange) || (exists|
            extensions: &mut Extensions,
        | #[trigger] call_ensures(
            CspNonceService::<S>::adopt,
            (&service, extensions, nonce),
            exchange,
        )) || exists|extensions: &mut Extensions| #[trigger] call_ensures(
            CspNonceService::<S>::open,
            (&service, extensions),
            Ok::<Exchange, NonceError>(exchange),
        ) && stored_nonces(*final(extensions)) == seq![nonce@],
        call_ensures(Exchange::rewrite_body, (&exchange, headers, body), step),
        body@.len() <= 4194304,
        valid_utf8(body@),
        sentinel.len() > 0,
        parts.len() > 1,
        decode_utf8(body@) == parts[0] + parts.skip(1).map_values(
            |p: Seq<char>| sentinel + p,
        ).flatten(),
        forall|i: int, k: int|
            0 <= i < parts.len() - 1 && 0 <= k < parts[i].len() ==> #[trigger] (parts[i]
                + sentinel).subrange(k, k + sentinel.len()) != sentinel,
        forall|k: int|
            0 <= k <= parts.last().len() - sentinel.len() ==> #[trigger] parts.last().subrange(
                k,
                k + sentinel.len(),
            ) != sentinel,
    ensures
        step matches BodyStep::Replace(sent) && sent@ == parts[0] + parts.skip(1).map_values(
            |p: Seq<char>| nonce@ + p,
        ).flatten(),
        header_values(*final(headers)) == header_values(*old(headers)).remove("content-length"@),
{
    lemma_request_carries_the_nonce(service, nonce, exchange);
    law_only_occurrences_are_replaced(parts, sentinel, nonce@);
    let text = decode_utf8(body@);
    let at = parts[0].len() as int;
    let joined = parts.skip(1).map_values(|p: Seq<char>| sentinel + p);
    assert(joined.flatten() == joined[0] + joined.drop_first().flatten());
    assert(joined[0] == sentinel + parts[1]);
    assert(text.subrange(at, at + sentinel.len()) == sentinel);
    assert(occurs_at(text, sentinel, at));
}

/// An empty sentinel stands before each character of the page and at its end.
pub proof fn law_empty_sentinel_stands_everywhere<S>(
    template: &str,
    plain: CspNonceLayer,
    sentinel: &str,
    layer: CspNonceLayer,
    inner: S,
    service: CspNonceService<S>,
    nonce: String,
    exchange: Exchange,
    headers: &mut HeaderMap<HeaderValue>,
    body: &[u8],
    step: BodyStep,
)
    requires
        call_ensures(CspNonceLayer::new, (template,), plain),
        call_ensures(CspNonceLayer::rewrite_html_body_with, (plain, sentinel), layer),
        call_ensures(CspNonceLayer::layer::<S>, (&layer, inner), service),
        call_ensures(CspNonceService::<S>::exchange, (&service, nonce), exchange) || (exists|
            extensions: &mut Extensions,
        | #[trigger] call_ensures(
            CspNonceService::<S>::adopt,
            (&service, extensions, nonce),
            exchange,
        )) || exists|extensions: &mut Extensions| #[trigger] call_ensures(
            CspNonceService::<S>::open,
            (&service, extensions),
            Ok::<Exchange, NonceError>(exchange),
        ) && stored_nonces(*final(extensions)) == seq![nonce@],
        call_ensures(Exchange::rewrite_body, (&exchange, headers, body), step),
        body@.len() <= 4194304,
        valid_utf8(body@),
        sentinel@.len() == 0,
    ensures
        step matches BodyStep::Replace(sent) && sent@ == nonce@ + decode_utf8(body@).map_values(
            |c: char| seq![c] + nonce@,
        ).flatten(),
        header_values(*final(headers)) == header_values(*old(headers)).remove("content-length"@),
{
    lemma_request_carries_the_nonce(service, nonce, exchange);
    let text = decode_utf8(body@);
    assert(sentinel@ == Seq::<char>::empty());
    assert(text.subrange(0, 0) == sentinel@);
    assert(occurs_at(text, sentinel@, 0));
    law_empty_text_stands_everywhere(text, nonce@);
}

/// Which bodies stay as they are, with all headers: those that are too large or not UTF-8, those
/// without the sentinel, and all of them where the layer does not rewrite.
pub proof fn law_other_bodies_are_kept<S>(
    template: &str,
    plain: CspNonceLayer,
    sentinel: Seq<char>,
    layer: CspNonceLayer,
    inner: S,
    service: CspNonceService<S>,
    nonce: String,
    exchange: Exchange,
    headers: &mut HeaderMap<HeaderValue>,
    body: &[u8],
    step: BodyStep,
)
    requires
        call_ensures(CspNonceLayer::new, (template,), plain),
        layer == plain || sentinel == "__CSP_NONCE__"@ && call_ensures(
            CspNonceLayer::rewrite_html_body,
            (plain,),
            layer,
        ) || exists|text: &str| #[trigger] call_ensures(
            CspNonceLayer::rewrite_html_body_with,
            (plain, text),
            layer,
        ) && text@ == sentinel,
        call_ensures(CspNonceLayer::layer::<S>, (&layer, inner), service),
        call_ensures(CspNonceService::<S>::exchange, (&service, nonce), exchange) || (exists|
            extensions: &mut Extensions,
        | #[trigger] call_ensures(
            CspNonceService::<S>::adopt,
            (&service, extensions, nonce),
            exchange,
        )) || exists|extensions: &mut Extensions| #[trigger] call_ensures(
            CspNonceService::<S>::open,
            (&service, extensions),
            Ok::<Exchange, NonceError>(exchange),
        ) && stored_nonces(*final(extensions)) == seq![nonce@],
        call_ensures(Exchange::rewrite_body, (&exchange, headers, body), step),
        layer == plain || body@.len() > 4194304 || !valid_utf8(body@) || forall|k: int|
            0 <= k <= decode_utf8(body@).len() - sentinel.len() ==> #[trigger] decode_utf8(
                body@,
            ).subrange(k, k + sentinel.len()) != sentinel,
    ensures
        step is Keep,
        *final(headers) == *old(headers),
{
    lemma_request_carries_the_nonce(service, nonce, exchange);
    if layer != plain && body@.len() <= 4194304 && valid_utf8(body@) {
        let text = decode_utf8(body@);
        assert forall|k: int| !occurs_at(text, sentinel, k) by {
            if 0 <= k <= text.len() - sentinel.len() {
                assert(text.subrange(k, k + sentinel.len()) != sentinel);
            }
        }
        assert(!occurs_in(text, sentinel));
    }
}

/// Further bytes of a body are appended to those that came before, and reading goes on up to
/// 4 MiB; beyond that the body is passed on. The headers stay as they are.
pub proof fn law_bytes_are_collected(
    exchange: Exchange,
    headers: &mut HeaderMap<HeaderValue>,
    buffered: &mut Vec<u8>,
    chunk: Vec<u8>,
    step: BodyStep,
)
    requires
        call_ensures(
            Exchange::body_step,
            (&exchange, headers, buffered, BodyEvent::Chunk(chunk)),
            step,
        ),
    ensures
        final(buffered)@ == old(buffered)@ + chunk@,
        step is More <==> old(buffered)@.len() + chunk@.len() <= 4194304,
        step is PassOn <==> old(buffered)@.len() + chunk@.len() > 4194304,
        *final(headers) == *old(headers),
{
}

/// When a body ends, what came of it is rewritten as a complete body is.
pub proof fn law_end_rewrites_what_came(
    exchange: Exchange,
    headers: &mut HeaderMap<HeaderValue>,
    buffered: &mut Vec<u8>,
    step: BodyStep,
    same_headers: &mut HeaderMap<HeaderValue>,
    body: &[u8],
    same_step: BodyStep,
)
    requires
        call_ensures(
            Exchange::body_step,
            (&exchange, headers, buffered, BodyEvent::End),
            step,
        ),
        call_ensures(Exchange::rewrite_body, (&exchange, same_headers, body), same_step),
        *old(headers) == *old(same_headers),
        old(buffered)@ == body@,
    ensures
        final(buffered)@ == old(buffered)@,
        header_values(*final(headers)) == header_values(*final(same_headers)),
        step is Keep || step is Replace,
        step is Keep <==> same_step is Keep,
        step matches BodyStep::Replace(text) ==> same_step matches BodyStep::Replace(same_text)
            && same_text@ == text@,
{
}

/// A body that breaks off is answered with status 500, and without a `Content-Length`.
pub proof fn law_broken_body_fails(
    exchange: Exchange,
    headers: &mut HeaderMap<HeaderValue>,
    buffered: &mut Vec<u8>,
    step: BodyStep,
)
    requires
        call_ensures(
            Exchange::body_step,
            (&exchange, headers, buffered, BodyEvent::Failed),
            step,
        ),
    ensures
        step == BodyStep::Fail(500),
        final(buffered)@ == old(buffered)@,
        header_values(*final(headers)) == header_values(*old(headers)).remove("content-length"@),
{
}

/// However a request gets its nonce, it is treated alike: one that was adopted, or that was stored
/// when the request was opened, leads to the policy and the sentinel that a given one leads to. It
/// is the one that is read from the exchange, and the only one stored.
pub proof fn law_requests_with_one_nonce_are_alike<S>(
    service: CspNonceService<S>,
    nonce: String,
    exchange: Exchange,
    read: &str,
    extensions: &mut Extensions,
    adopted: Exchange,
    opened_extensions: &mut Extensions,
    opened: Exchange,
)
    requires
        call_ensures(CspNonceService::<S>::exchange, (&service, nonce), exchange),
        call_ensures(Exchange::nonce_str, (&exchange,), read),
        call_ensures(CspNonceService::<S>::adopt, (&service, extensions, nonce), adopted),
        call_ensures(
            CspNonceService::<S>::open,
            (&service, opened_extensions),
            Ok::<Exchange, NonceError>(opened),
        ),
        stored_nonces(*final(opened_extensions)) == seq![nonce@],
    ensures
        read@ == nonce@,
        adopted.nonce() == exchange.nonce(),
        adopted.policy() == exchange.policy(),
        adopted.sentinel() == exchange.sentinel(),
        stored_nonces(*final(extensions)) == seq![nonce@],
        other_extensions(*final(extensions)) == other_extensions(*old(extensions)),
        opened.nonce() == exchange.nonce(),
        opened.policy() == exchange.policy(),
        opened.sentinel() == exchange.sentinel(),
        other_extensions(*final(opened_extensions)) == other_extensions(*old(opened_extensions)),
{
    assert(seq![opened.nonce()][0] == seq![nonce@][0]);
}

/// A request keeps the nonce that is stored with it; only a request without one gets another,
/// which renders, byte by byte, what the random source wrote when it was asked for 16 bytes. If the
/// source fails, there is no exchange and the request stays as it is.
pub proof fn law_nonce_is_stored_or_drawn<S>(
    service: CspNonceService<S>,
    extensions: &mut Extensions,
    opened: Result<Exchange, NonceError>,
)
    requires
        call_ensures(CspNonceService::<S>::open, (&service, extensions), opened),
    ensures
        stored_nonces(*old(extensions)).len() > 0 ==> *final(extensions) == *old(extensions)
            && opened is Ok,
        opened matches Ok(exchange) ==> stored_nonces(*final(extensions))
            == seq![exchange.nonce()],
        opened is Err ==> *final(extensions) == *old(extensions),
        stored_nonces(*old(extensions)).len() == 0 ==> exists|
            dest: &mut [u8],
            filled: Result<(), getrandom::Error>,
        | #[trigger] call_ensures(getrandom::getrandom, (dest,), filled) && dest@.len() == 16 && (
        opened is Ok <==> filled is Ok) && (opened matches Ok(exchange) ==> exchange.nonce().len()
            == 32 && forall|i: int|
            #![trigger final(dest)@[i]]
            0 <= i < 16 ==> {
                &&& exchange.nonce()[2 * i] == "0123456789abcdef"@[final(dest)@[i] as int / 16]
                &&& exchange.nonce()[2 * i + 1] == "0123456789abcdef"@[final(dest)@[i] as int % 16]
            }),
{
    if stored_nonces(*old(extensions)).len() == 0 {
        let minted = choose|minted: Result<String, NonceError>| #[trigger] call_ensures(
            generate_nonce,
            (),
            minted,
        ) && match minted {
            Ok(text) => opened matches Ok(exchange) && exchange.nonce() == text@,
            Err(error) => opened matches Err(failure) && failure == error,
        };
        law_nonce_renders_a_draw(minted);
    }
}

/// A copy of a layer or of a service treats requests as the one it was made of does.
pub proof fn law_copies_are_alike<S: Clone>(
    layer: CspNonceLayer,
    layer_copy: CspNonceLayer,
    inner: S,
    service: CspNonceService<S>,
    copy_inner: S,
    copy_service: CspNonceService<S>,
    service_copy: CspNonceService<S>,
    nonce: String,
    one: Exchange,
    two: Exchange,
    three: Exchange,
)
    requires
        call_ensures(CspNonceLayer::clone, (&layer,), layer_copy),
        call_ensures(CspNonceLayer::layer::<S>, (&layer, inner), service),
        call_ensures(CspNonceLayer::layer::<S>, (&layer_copy, copy_inner), copy_service),
        call_ensures(CspNonceService::<S>::clone, (&service,), service_copy),
        call_ensures(CspNonceService::<S>::exchange, (&service, nonce), one),
        call_ensures(CspNonceService::<S>::exchange, (&copy_service, nonce), two),
        call_ensures(CspNonceService::<S>::exchange, (&service_copy, nonce), three),
    ensures
        two.nonce() == one.nonce(),
        two.policy() == one.policy(),
        two.sentinel() == one.sentinel(),
        three.nonce() == one.nonce(),
        three.policy() == one.policy(),
        three.sentinel() == one.sentinel(),
        cloned(inner, service_copy.inner()),
{
}

/// A service hands out the service it was put around, and treats requests as before if that one is
/// exchanged for another.
pub proof fn law_inner_service_is_handed_out<S>(
    layer: CspNonceLayer,
    inner: S,
    service: &mut CspNonceService<S>,
    handed: &mut S,
    nonce: String,
    before: Exchange,
    after: Exchange,
)
    requires
        call_ensures(CspNonceLayer::layer::<S>, (&layer, inner), *old(service)),
        call_ensures(CspNonceService::<S>::inner_mut, (service,), handed),
        call_ensures(CspNonceService::<S>::exchange, (old(service), nonce), before),
        call_ensures(CspNonceService::<S>::exchange, (&*final(service), nonce), after),
    ensures
        *old(handed) == inner,
        final(service).inner() == *final(handed),
        after.nonce() == before.nonce(),
        after.policy() == before.policy(),
        after.sentinel() == before.sentinel(),
{
}

} // verus!
