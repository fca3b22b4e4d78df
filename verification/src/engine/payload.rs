//! The form in which a report carries its data.

use crate::outside::digest::{
    base64, base64_bytes, base64_letter, base64_of, gunzip, gunzipped, gzip, gzipped, json_quoted,
    lemma_plain_json, quote, unbase64, unquoted_letter,
};
use crate::text::{
    after_prefix, chars_of, concat2, concat3, find, find_in, opt_view, strip_prefix, text_of,
};
use vstd::prelude::*;
use vstd::string::*;

verus! {

pub const REPORT_PAYLOAD_PREFIX: &'static str = "gzip-base64-v1:";

/// Where a template takes the data.
pub const DATA_MARK: &'static str = "/*REPORT_DATA*/null";

/// The payload of a report's JSON; none where it cannot be compressed.
pub open spec fn payload_of(json: Seq<u8>) -> Option<Seq<char>> {
    match gzipped(json) {
        Some(z) => if z.len() <= usize::MAX / 4 {
            Some(REPORT_PAYLOAD_PREFIX@ + base64_of(z))
        } else {
            None
        },
        None => None,
    }
}

/// The JSON that a payload carries; none where it is no payload.
pub open spec fn data_of(payload: Seq<char>) -> Option<Seq<u8>> {
    match after_prefix(payload, REPORT_PAYLOAD_PREFIX@) {
        Some(text) => match base64_bytes(text) {
            Some(z) => gunzipped(z),
            None => None,
        },
        None => None,
    }
}

/// Whether a text can neither end a script nor begin one: it holds none of the
/// characters that mark-up is made of.
pub open spec fn script_safe(s: Seq<char>) -> bool {
    forall|i: int| 0 <= i < s.len() ==> #[trigger] s[i] != '<' && s[i] != '>' && s[i] != '&'
}

/// Compresses a report's JSON and writes it as a text that is safe in a script.
pub fn encode_report_payload(json: &[u8]) -> (r: Option<String>)
    ensures
        opt_view(r) == payload_of(json@),
        r matches Some(s) ==> script_safe(s@) && forall|i: int|
            0 <= i < s@.len() ==> unquoted_letter(#[trigger] s@[i]),
        r matches Some(s) ==> data_of(s@) == Some(json@),
{
    let packed = match gzip(json) {
        Some(z) => z,
        None => {
            return None;
        },
    };
    if packed.len() > usize::MAX / 4 {
        return None;
    }
    let text = base64(packed.as_slice());
    proof {
        reveal_strlit("gzip-base64-v1:");
        assert forall|i: int| 0 <= i < (REPORT_PAYLOAD_PREFIX@ + text@).len() implies {
            let c = #[trigger] (REPORT_PAYLOAD_PREFIX@ + text@)[i];
            c != '<' && c != '>' && c != '&' && unquoted_letter(c)
        } by {
            let n = REPORT_PAYLOAD_PREFIX@.len();
            if i >= n {
                assert(base64_letter(text@[i - n]));
            }
        }
        let s = REPORT_PAYLOAD_PREFIX@ + text@;
        let n = REPORT_PAYLOAD_PREFIX@.len() as int;
        assert(s.subrange(0, n) =~= REPORT_PAYLOAD_PREFIX@);
        assert(s.skip(n) =~= text@);
        assert(s.subrange(n, s.len() as int) =~= text@);
    }
    Some(concat2(REPORT_PAYLOAD_PREFIX, text.as_str()))
}

/// Reads the JSON that a payload carries.
pub fn decode_report_payload(payload: &str) -> (r: Option<Vec<u8>>)
    ensures
        (match r {
            Some(v) => data_of(payload@) == Some(v@),
            None => data_of(payload@) is None,
        }),
{
    match strip_prefix(payload, REPORT_PAYLOAD_PREFIX) {
        Some(text) => match unbase64(text.as_str()) {
            Some(z) => gunzip(z.as_slice()),
            None => None,
        },
        None => None,
    }
}

/// The document that a template makes of a payload: the payload stands as a JSON
/// string where the template takes the data.
pub open spec fn document_of(template: Seq<char>, payload: Seq<char>) -> Option<Seq<char>> {
    match find(template, DATA_MARK@, 0) {
        Some(i) => Some(
            template.subrange(0, i) + json_quoted(payload) + template.subrange(
                i + DATA_MARK@.len(),
                template.len() as int,
            ),
        ),
        None => None,
    }
}

/// Puts a payload into a template; none where the template takes no data.
pub fn report_document(template: &str, payload: &str) -> (r: Option<String>)
    ensures
        opt_view(r) == document_of(template@, payload@),
{
    let c = chars_of(template);
    let d = chars_of(DATA_MARK);
    match find_in(&c, &d, 0) {
        Some(i) => {
            let head = text_of(&c, 0, i);
            let tail = text_of(&c, i + d.len(), c.len());
            let data = quote(payload);
            Some(concat3(head.as_str(), data.as_str(), tail.as_str()))
        },
        None => None,
    }
}

/// A document holds the payload of a report between quotation marks as it is, so
/// that what a reader finds there is the payload.
pub proof fn law_documents_carry_their_payload(template: Seq<char>, payload: Seq<char>, at: int)
    requires
        find(template, DATA_MARK@, 0) == Some(at),
        forall|i: int| 0 <= i < payload.len() ==> unquoted_letter(#[trigger] payload[i]),
    ensures
        document_of(template, payload) == Some(
            template.subrange(0, at) + seq!['"'] + payload + seq!['"'] + template.subrange(
                at + DATA_MARK@.len(),
                template.len() as int,
            ),
        ),
{
    lemma_plain_json(payload, payload.len() as int);
    assert(payload.take(payload.len() as int) =~= payload);
    let tail = template.subrange(at + DATA_MARK@.len(), template.len() as int);
    assert(template.subrange(0, at) + (seq!['"'] + payload + seq!['"']) + tail
        =~= template.subrange(0, at) + seq!['"'] + payload + seq!['"'] + tail);
}

} // verus!
