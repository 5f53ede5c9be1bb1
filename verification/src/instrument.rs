//! Source-instrumentation building blocks and interception decisions.
//!
//! The driver parses JavaScript and walks its syntax tree with an outside
//! toolchain; what it injects at each branch point, which responses it
//! rewrites, and how ids are assigned are decided here. Every instrumented
//! unit starts with one fixed prelude that creates the coverage namespace
//! if and only if it does not exist yet, so including it many times leaves
//! one namespace object.

use vstd::prelude::*;
use vstd::string::{StrSliceExecFns, StringExecFns, StringSliceAdditionalSpecFns};
use base64::Engine;

use crate::source_id::{fnv64, SourceId};
use crate::strings::{
    first_non_ws, spec_decimal, spec_first_non_ws, spec_starts_with, str_starts_with,
    u64_to_decimal,
};

verus! {

/// The page-global namespace guard: both edge arrays and the previous
/// branch tag, created only when absent.
pub open spec fn spec_prelude() -> Seq<char> {
    "window.__bombadil__ = window.__bombadil__ || { edges_previous: new Uint8Array(65536), edges_current: new Uint8Array(65536), previous: 0 };"@
}

pub fn prelude() -> (r: String)
    ensures
        r@ == spec_prelude(),
{
    String::from_str(
        "window.__bombadil__ = window.__bombadil__ || { edges_previous: new Uint8Array(65536), edges_current: new Uint8Array(65536), previous: 0 };",
    )
}

/// The two statements injected at the entry of each branch site.
pub open spec fn spec_coverage_hook(branch_id: nat) -> Seq<char> {
    "__bombadil__.edges_current[("@ + spec_decimal(branch_id)
        + " ^ __bombadil__.previous) % 65536] += 1; __bombadil__.previous = "@ + spec_decimal(
        branch_id,
    ) + " >> 1;"@
}

pub fn coverage_hook(branch_id: u64) -> (r: String)
    ensures
        r@ == spec_coverage_hook(branch_id as nat),
{
    let mut out = String::from_str("__bombadil__.edges_current[(");
    let digits = u64_to_decimal(branch_id);
    out.append(&digits);
    out.append(" ^ __bombadil__.previous) % 65536] += 1; __bombadil__.previous = ");
    let digits_again = u64_to_decimal(branch_id);
    out.append(&digits_again);
    out.append(" >> 1;");
    proof {
        assert(out@ =~= spec_coverage_hook(branch_id as nat));
    }
    out
}

/// The id of the `index`-th branch site of a source: the source id chained
/// with the site counter, in traversal order.
pub fn branch_site_id(source: SourceId, index: u64) -> (r: u64)
    ensures
        r == fnv64(
            crate::source_id::le_bytes(source.0) + crate::source_id::le_bytes(index),
        ),
{
    source.add(index).0
}

/// An instrumented unit: the fixed prelude, a separator, then the rewritten
/// source.
pub open spec fn spec_attach_prelude(code: Seq<char>) -> Seq<char> {
    spec_prelude() + "\n"@ + code
}

pub fn attach_prelude(code: &str) -> (r: String)
    ensures
        r@ == spec_attach_prelude(code@),
{
    let mut out = prelude();
    out.append("\n");
    out.append(code);
    proof {
        assert(out@ =~= spec_attach_prelude(code@));
    }
    out
}

/// Idempotent prelude: every instrumented unit begins with the same
/// namespace guard, whatever source it wraps, so concatenating units
/// repeats one guard that creates the namespace at most once.
pub proof fn lemma_prelude_identical(code_a: Seq<char>, code_b: Seq<char>)
    ensures
        spec_attach_prelude(code_a).take(spec_prelude().len() as int) == spec_attach_prelude(
            code_b,
        ).take(spec_prelude().len() as int),
        spec_attach_prelude(code_a).take(spec_prelude().len() as int) == spec_prelude(),
{
    assert(spec_attach_prelude(code_a).take(spec_prelude().len() as int) =~= spec_prelude());
    assert(spec_attach_prelude(code_b).take(spec_prelude().len() as int) =~= spec_prelude());
}

/// What the interceptor should do with one paused response.
#[derive(Clone, Copy, Debug, PartialEq, Eq, Structural)]
pub enum InterceptAction {
    /// Let the original response through untouched (non-200 upstream).
    Forward,
    /// Rewrite the body as a script.
    InstrumentScript,
    /// Rewrite the inline scripts of an HTML document.
    InstrumentHtml,
    /// A non-HTML document: fulfill with the body unchanged.
    PassThroughDocument,
}

#[derive(Clone, Copy, Debug, PartialEq, Eq, Structural)]
pub enum ResourceKind {
    Script,
    Document,
}

/// A document counts as HTML when its content type says so, or, absent a
/// content-type header, when the body does not open with an XML
/// declaration.
pub open spec fn spec_is_html_document(content_type: Option<Seq<char>>, body: Seq<char>) -> bool {
    match content_type {
        Some(value) => spec_starts_with(value, "text/html"@),
        None => !spec_starts_with(body.skip(spec_first_non_ws(body, 0)), "<?xml"@),
    }
}

/// The interception rule: any non-200 upstream response is forwarded
/// as-is; scripts are rewritten as scripts, HTML documents by their inline
/// scripts, and other documents pass through.
pub open spec fn spec_intercept_decision(
    resource: ResourceKind,
    status: Option<i64>,
    content_type: Option<Seq<char>>,
    body: Seq<char>,
) -> InterceptAction {
    if status matches Some(s) && s != 200 {
        InterceptAction::Forward
    } else if resource is Script {
        InterceptAction::InstrumentScript
    } else if spec_is_html_document(content_type, body) {
        InterceptAction::InstrumentHtml
    } else {
        InterceptAction::PassThroughDocument
    }
}

pub fn intercept_decision(
    resource: ResourceKind,
    status: Option<i64>,
    content_type: Option<&String>,
    body: &str,
) -> (r: InterceptAction)
    ensures
        r == spec_intercept_decision(
            resource,
            status,
            match content_type {
                Some(v) => Some(v@),
                None => None,
            },
            body@,
        ),
{
    if let Some(s) = status {
        if s != 200 {
            return InterceptAction::Forward;
        }
    }
    match resource {
        ResourceKind::Script => InterceptAction::InstrumentScript,
        ResourceKind::Document => {
            let is_html = match content_type {
                Some(value) => str_starts_with(value, "text/html"),
                None => {
                    let start = first_non_ws(body);
                    let trimmed = body.substring_char(start, body.unicode_len());
                    proof {
                        assert(trimmed@ =~= body@.skip(spec_first_non_ws(body@, 0)));
                    }
                    !str_starts_with(trimmed, "<?xml")
                },
            };
            if is_html {
                InterceptAction::InstrumentHtml
            } else {
                InterceptAction::PassThroughDocument
            }
        },
    }
}

/// Whether a `<script>` element's text should be rewritten: only inline
/// scripts whose type is empty, `text/javascript` or `module`.
pub open spec fn spec_instrument_inline_script(
    src_attribute: Option<Seq<char>>,
    type_attribute: Option<Seq<char>>,
) -> bool {
    src_attribute is None && match type_attribute {
        None => true,
        Some(t) => t == Seq::<char>::empty() || t == "text/javascript"@ || t == "module"@,
    }
}

pub fn instrument_inline_script(
    src_attribute: Option<&String>,
    type_attribute: Option<&String>,
) -> (r: bool)
    ensures
        r == spec_instrument_inline_script(
            match src_attribute {
                Some(v) => Some(v@),
                None => None,
            },
            match type_attribute {
                Some(v) => Some(v@),
                None => None,
            },
        ),
{
    if src_attribute.is_some() {
        return false;
    }
    match type_attribute {
        None => true,
        Some(t) => {
            let is_empty = t.unicode_len() == 0;
            proof {
                if t@.len() == 0 {
                    assert(t@ =~= Seq::<char>::empty());
                }
            }
            let is_js = crate::strings::str_eq(t, "text/javascript");
            let is_module = crate::strings::str_eq(t, "module");
            is_empty || is_js || is_module
        },
    }
}

/// The id of an intercepted source: the ETag's bytes when the response has
/// one, otherwise the body bytes.
pub fn response_source_id(etag: Option<&Vec<u8>>, body: &Vec<u8>) -> (r: SourceId)
    ensures
        r.0 == match etag {
            Some(tag) => fnv64(tag@),
            None => fnv64(body@),
        },
{
    match etag {
        Some(tag) => SourceId::hash(tag.as_slice()),
        None => SourceId::hash(body.as_slice()),
    }
}

/// The decimal form of a source id, as sent in the `etag` response header.
pub fn etag_header_value(source: SourceId) -> (r: String)
    ensures
        r@ == spec_decimal(source.0 as nat),
{
    u64_to_decimal(source.0)
}

/// What the standard base64 encoding of some bytes looks like; the result
/// depends on the bytes alone.
pub uninterp spec fn b64_of(bytes: Seq<u8>) -> Seq<char>;

/// Relies on base64's `Engine::encode` with the standard alphabet: the
/// encoding is a pure function of the input bytes.
#[verifier::external_body]
pub fn b64_encode(bytes: &Vec<u8>) -> (r: String)
    ensures
        r@ == b64_of(bytes@),
{
    base64::prelude::BASE64_STANDARD.encode(bytes.as_slice())
}

/// Relies on base64's `Engine::decode` with the standard engine: decoding
/// inverts encoding, as the crate documents for its round trip.
#[verifier::external_body]
pub fn b64_decode(text: &str) -> (r: Option<Vec<u8>>)
    ensures
        r matches Some(v) ==> (forall|bs: Seq<u8>| text@ == b64_of(bs) ==> v@ == bs),
        (exists|bs: Seq<u8>| text@ == b64_of(bs)) ==> r is Some,
{
    base64::prelude::BASE64_STANDARD.decode(text.as_bytes()).ok()
}

/// Recover the body bytes of an intercepted response: wire bodies arrive
/// base64-encoded when flagged, plain otherwise.
pub fn decode_response_body(body: &str, base64_encoded: bool) -> (r: Option<Vec<u8>>)
    ensures
        base64_encoded ==> ((r matches Some(v) ==> (forall|bs: Seq<u8>|
            body@ == b64_of(bs) ==> v@ == bs)) && ((exists|bs: Seq<u8>| body@ == b64_of(bs))
            ==> r is Some)),
        !base64_encoded ==> (r matches Some(v) && v@ == body.spec_bytes()),
{
    if base64_encoded {
        b64_decode(body)
    } else {
        Some(body.as_bytes_vec())
    }
}

} // verus!
