//! The MIME parser, as far as delivery looks at what it finds.

use vstd::prelude::*;
use mail_parser::MessageParser;

verus! {

/// What the MIME parser finds in a raw message: `None` where it finds no
/// message; else the headers of the root part in message order, each as its
/// name and, where the parser reads the value as text, that text.
pub uninterp spec fn parsed_headers(raw: Seq<u8>) -> Option<Seq<(Seq<char>, Option<Seq<char>>)>>;

/// Whether the MIME parser finds a message in `raw`.
pub open spec fn message_parses(raw: Seq<u8>) -> bool {
    parsed_headers(raw) is Some
}

/// Calls `mail_parser::MessageParser::parse` with the parser's defaults and
/// hands out the headers of the root part. The parser does not panic and
/// its result depends on the bytes alone; what it finds is not stated here,
/// only named.
#[verifier::external_body]
pub(crate) fn parse_headers(raw: &[u8]) -> (headers: Option<Vec<(String, Option<String>)>>)
    ensures
        headers.deep_view() == parsed_headers(raw@),
{
    MessageParser::new().parse(raw).map(
        |message|
            message.root_part().headers().iter().map(
                |h| (h.name().to_string(), h.value().as_text().map(|text| text.to_string())),
            ).collect(),
    )
}

/// The text of `bytes` read as UTF-8, each malformed sequence replaced by
/// U+FFFD as the standard library does it.
pub uninterp spec fn utf8_lossy(bytes: Seq<u8>) -> Seq<char>;

/// Calls `String::from_utf8_lossy`. The result depends on the bytes alone;
/// it is named, not stated.
#[verifier::external_body]
pub(crate) fn decode_utf8_lossy(bytes: &[u8]) -> (text: String)
    ensures
        text@ == utf8_lossy(bytes@),
{
    String::from_utf8_lossy(bytes).into_owned()
}

/// Whether the MIME parser finds a message in `raw`.
pub fn is_parseable(raw: &[u8]) -> (r: bool)
    ensures
        r == message_parses(raw@),
{
    parse_headers(raw).is_some()
}

} // verus!
