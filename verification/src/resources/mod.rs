//! The chat page: what a posted message becomes, which responses are
//! compressed, and how development builds serve and reload assets.

pub mod dev;

use vstd::prelude::*;

use crate::repo::streams::STREAM_MESSAGES_SUBJECT;
use crate::text::{
    bytes_eq, lemma_trim_whitespace_span, push_char, trim_whitespace, trim_whitespace_str, unicode_whitespace,
};

pub use crate::web::guards::DatastarRequest;

verus! {

/// The form signals of the chat page: the text being typed.
pub struct Signals {
    pub text: String,
}

impl Signals {
    /// The signals that clear the input after a message is sent.
    pub fn cleared() -> (r: Self)
        ensures
            r.text@.len() == 0,
    {
        Signals { text: String::new() }
    }
}

/// What posting `text` from the peer at `addr` publishes: none for text that is
/// only whitespace, and otherwise the trimmed text under the subject
/// `message.<addr>`.
pub open spec fn chat_publication(text: Seq<char>, addr: Seq<char>) -> Option<(Seq<char>, Seq<char>)> {
    if trim_whitespace(text).len() == 0 {
        None
    } else {
        Some((STREAM_MESSAGES_SUBJECT@ + seq!['.'] + addr, trim_whitespace(text)))
    }
}

/// The subject and payload to publish for a posted chat text, if any.
pub fn outgoing_chat_message(text: &str, addr: &str) -> (r: Option<(String, String)>)
    ensures
        match r {
            Some((subject, payload)) => chat_publication(text@, addr@) == Some((subject@, payload@)),
            None => chat_publication(text@, addr@) is None,
        },
{
    let message = trim_whitespace_str(text);
    if message.unicode_len() == 0 {
        return None;
    }
    let mut subject = String::from_str(STREAM_MESSAGES_SUBJECT);
    push_char(&mut subject, '.');
    subject.append(addr);
    Some((subject, message))
}

/// A header value that `HeaderValue::to_str` of the http crate accepts:
/// visible ASCII and tabs only.
pub open spec fn visible_ascii(v: Seq<u8>) -> bool {
    forall|i: int| 0 <= i < v.len() ==> (32 <= #[trigger] v[i] < 127 || v[i] == 9)
}

/// `p` occurs somewhere in `v`.
pub open spec fn contains_bytes(v: Seq<u8>, p: Seq<u8>) -> bool {
    exists|i: int| 0 <= i && i + p.len() <= v.len() && #[trigger] v.subrange(i, i + p.len()) == p
}

/// The bytes of `text/event-stream`.
pub open spec fn event_stream_type() -> Seq<u8> {
    seq![116u8, 101, 120, 116, 47, 101, 118, 101, 110, 116, 45, 115, 116, 114, 101, 97, 109]
}

/// The bytes of `br`.
pub open spec fn brotli_token() -> Seq<u8> {
    seq![98u8, 114]
}

/// Whether a response is compressed with brotli on its way out: it must be an
/// event stream that is not yet encoded, for a client whose readable
/// `accept-encoding` mentions `br`.
pub open spec fn compresses(content_type: Option<Seq<u8>>, accept_encoding: Option<Seq<u8>>, encoded: bool) -> bool {
    match (content_type, accept_encoding) {
        (Some(ct), Some(ae)) => !encoded && ct == event_stream_type() && visible_ascii(ae)
            && contains_bytes(ae, brotli_token()),
        _ => false,
    }
}

/// Whether the header value holds only visible ASCII and tabs.
fn is_visible_ascii(v: &[u8]) -> (r: bool)
    ensures
        r == visible_ascii(v@),
{
    let mut i: usize = 0;
    while i < v.len()
        invariant
            i <= v@.len(),
            forall|j: int| 0 <= j < i ==> (32 <= #[trigger] v@[j] < 127 || v@[j] == 9),
        decreases v@.len() - i,
    {
        if !(v[i] >= 32 && v[i] < 127 || v[i] == 9) {
            return false;
        }
        i = i + 1;
    }
    true
}

/// Whether `v` holds the two bytes `br` somewhere.
fn mentions_brotli(v: &[u8]) -> (r: bool)
    ensures
        r == contains_bytes(v@, brotli_token()),
{
    let mut i: usize = 0;
    while i < v.len() && i + 1 < v.len()
        invariant
            i <= v@.len(),
            forall|j: int| 0 <= j < i && j + 2 <= v@.len() ==> #[trigger] v@.subrange(j, j + 2) != brotli_token(),
        decreases v@.len() - i,
    {
        if v[i] == 98u8 && v[i + 1] == 114u8 {
            assert(v@.subrange(i as int, i + 2) == brotli_token());
            return true;
        }
        assert(v@.subrange(i as int, i + 2)[0] == v@[i as int]);
        assert(v@.subrange(i as int, i + 2)[1] == v@[i + 1]);
        i = i + 1;
    }
    proof {
        assert forall|j: int| 0 <= j && j + brotli_token().len() <= v@.len() implies #[trigger] v@.subrange(j, j + brotli_token().len()) != brotli_token() by {
            assert(j < i);
        }
    }
    false
}

/// Whether a response with these headers is compressed with brotli.
pub fn should_compress_event_stream(content_type: Option<&[u8]>, accept_encoding: Option<&[u8]>, encoded: bool) -> (r: bool)
    ensures
        r == compresses(
            match content_type { Some(c) => Some(c@), None => None },
            match accept_encoding { Some(a) => Some(a@), None => None },
            encoded,
        ),
{
    match (content_type, accept_encoding) {
        (Some(ct), Some(ae)) => {
            if encoded {
                return false;
            }
            let expected: [u8; 17] = [116u8, 101, 120, 116, 47, 101, 118, 101, 110, 116, 45, 115, 116, 114, 101, 97, 109];
            let e = expected.as_slice();
            assert(e@ == event_stream_type());
            if !bytes_eq(ct, e) {
                return false;
            }
            is_visible_ascii(ae) && mentions_brotli(ae)
        },
        _ => false,
    }
}

} // verus!

verus! {

/// A post publishes exactly when its text holds a character that is not
/// whitespace, however long it is; it then publishes the text without its
/// leading and trailing whitespace, under the subject `message.` followed by
/// the peer's address.
pub proof fn lemma_chat_publication_law(text: Seq<char>, addr: Seq<char>)
    ensures
        chat_publication(text, addr) is None <==> forall|i: int| 0 <= i < text.len() ==> unicode_whitespace(#[trigger] text[i]),
        chat_publication(text, addr) matches Some((subject, payload)) ==> subject == "message."@ + addr
            && payload == trim_whitespace(text) && payload.len() > 0,
{
    lemma_trim_whitespace_span(text);
    reveal_strlit("message");
    reveal_strlit("message.");
    assert("message"@ + seq!['.'] == "message."@);
}

/// An event stream that is not yet encoded is compressed exactly when the
/// client's `accept-encoding` is visible ASCII and tabs and holds the bytes
/// `br` anywhere; no other response is compressed.
pub proof fn lemma_compression_law(ct: Seq<u8>, ae: Seq<u8>, encoded: bool)
    ensures
        compresses(Some(ct), Some(ae), encoded) <==> {
            &&& !encoded
            &&& ct == seq![116u8, 101, 120, 116, 47, 101, 118, 101, 110, 116, 45, 115, 116, 114, 101, 97, 109]
            &&& forall|i: int| 0 <= i < ae.len() ==> (32 <= #[trigger] ae[i] < 127 || ae[i] == 9)
            &&& exists|i: int| 0 <= i && i + 1 < ae.len() && #[trigger] ae[i] == 98u8 && ae[i + 1] == 114u8
        },
        !compresses(None, Some(ae), encoded),
        !compresses(Some(ct), None, encoded),
{
    if contains_bytes(ae, brotli_token()) {
        let i = choose|i: int| 0 <= i && i + brotli_token().len() <= ae.len() && #[trigger] ae.subrange(i, i + brotli_token().len()) == brotli_token();
        assert(ae.subrange(i, i + 2)[0] == ae[i]);
        assert(ae.subrange(i, i + 2)[1] == ae[i + 1]);
    }
    if exists|i: int| 0 <= i && i + 1 < ae.len() && #[trigger] ae[i] == 98u8 && ae[i + 1] == 114u8 {
        let i = choose|i: int| 0 <= i && i + 1 < ae.len() && #[trigger] ae[i] == 98u8 && ae[i + 1] == 114u8;
        assert(ae.subrange(i, i + 2) == brotli_token());
    }
}

/// Posting the text that a post published publishes it again unchanged.
pub proof fn lemma_chat_publication_stable(text: Seq<char>, addr: Seq<char>)
    ensures
        chat_publication(text, addr) matches Some((subject, payload)) ==> chat_publication(payload, addr)
            == Some((subject, payload)),
{
    crate::text::lemma_trim_whitespace_idempotent(text);
}

} // verus!
