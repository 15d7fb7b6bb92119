//! The message stream: which messages to fetch and how a fetched message
//! becomes one that the page shows.

use vstd::prelude::*;
use vstd::utf8::{decode_utf8, valid_utf8};

use crate::error::Error;
use crate::text::string_from_utf8;

verus! {

/// Name of the stream that holds the chat messages.
pub const STREAM_MESSAGES: &'static str = "messages";

/// Subject prefix under which chat messages are published.
pub const STREAM_MESSAGES_SUBJECT: &'static str = "message";

/// How many messages a page shows at most.
pub const LATEST_MESSAGES_COUNT: u64 = 10;

/// How long after publication a message expires, in nanoseconds.
pub const DEADLINE_WINDOW_NANOS: i128 = 10_000_000_000;

/// Encoded configuration of the time crate's ISO-8601 format: date, time and
/// offset with separators, a four-digit year, calendar dates, seconds with six
/// decimal digits, offset to the minute.
pub const ISO_TIME_FORMAT_CONFIG: u128 = 0x0501_0000_0206_0100_0000_0000_0000_0000u128;

/// A chat message as the page shows it.
pub struct Message {
    pub text: String,
    pub deadline: String,
}

impl View for Message {
    type V = (Seq<char>, Seq<char>);

    open spec fn view(&self) -> (Seq<char>, Seq<char>) {
        (self.text@, self.deadline@)
    }
}

/// A message as the bus delivered it: its payload, and the publication time in
/// nanoseconds since the Unix epoch where the bus could report it.
pub struct FetchedMessage {
    pub payload: Vec<u8>,
    pub published_unix_nanos: Option<i128>,
}

/// The ISO-8601 text, with microseconds, of the UTC instant `unix_nanos`
/// nanoseconds after the Unix epoch; none where the time crate cannot represent
/// or format that instant.
pub uninterp spec fn iso8601_utc_micros(unix_nanos: int) -> Option<Seq<char>>;

/// The first instant whose ISO-8601 text has a four-digit year, 0000-01-01
/// 00:00:00 UTC, in nanoseconds since the Unix epoch.
pub const FIRST_FOUR_DIGIT_YEAR_UNIX_NANOS: i128 = -62_167_219_200_000_000_000;

/// Calls `time::OffsetDateTime::from_unix_timestamp_nanos` to turn the number
/// into the UTC instant, and its `format` with the ISO-8601 configuration above.
/// Claimed: the text depends on the number alone and is none exactly where one
/// of the two calls fails, which is outside the years 0 to 9999: the first
/// call refuses instants past the last one the crate represents, and the
/// format refuses years that do not fit in four digits.
#[verifier::external_body]
fn format_utc_iso8601(unix_nanos: i128) -> (r: Option<String>)
    ensures
        r is Some <==> FIRST_FOUR_DIGIT_YEAR_UNIX_NANOS <= unix_nanos <= LAST_INSTANT_UNIX_NANOS,
        match r {
            Some(s) => iso8601_utc_micros(unix_nanos as int) == Some(s@),
            None => iso8601_utc_micros(unix_nanos as int) is None,
        },
{
    match time::OffsetDateTime::from_unix_timestamp_nanos(unix_nanos) {
        Ok(t) => t.format(&time::format_description::well_known::Iso8601::<ISO_TIME_FORMAT_CONFIG>).ok(),
        Err(_) => None,
    }
}

/// The last instant that the time crate represents, 9999-12-31
/// 23:59:59.999999999 UTC, in nanoseconds since the Unix epoch.
pub const LAST_INSTANT_UNIX_NANOS: i128 = 253_402_300_799_999_999_999;

/// Calls `time::PlainDateTime::MAX`, taken as a UTC instant with `assume_utc`
/// and read back with `unix_timestamp_nanos`. Claimed: it is the last instant
/// the time crate represents, which the crate as built here (without its
/// `large-dates` feature) places at the end of the year 9999.
#[verifier::external_body]
fn last_instant_unix_nanos() -> (r: i128)
    ensures
        r == LAST_INSTANT_UNIX_NANOS,
{
    time::PlainDateTime::MAX.assume_utc().unix_timestamp_nanos()
}

/// The instant at which a message published at `published` expires: ten
/// seconds later, saturating at the last instant the time crate represents.
pub open spec fn deadline_instant(published: int) -> int {
    if published + DEADLINE_WINDOW_NANOS > LAST_INSTANT_UNIX_NANOS {
        LAST_INSTANT_UNIX_NANOS as int
    } else {
        published + DEADLINE_WINDOW_NANOS
    }
}

/// The first sequence number to fetch when the last message has sequence
/// number `last`: the last ten messages, and never below the first.
pub open spec fn first_sequence(last: u64) -> u64 {
    if last >= LATEST_MESSAGES_COUNT + 1 {
        (last - LATEST_MESSAGES_COUNT) as u64
    } else {
        1
    }
}

/// The first sequence number to fetch when the last message has sequence
/// number `last`.
pub fn first_sequence_to_fetch(last: u64) -> (r: u64)
    ensures
        r == first_sequence(last),
{
    let from = last.saturating_sub(LATEST_MESSAGES_COUNT);
    if from < 1 {
        1
    } else {
        from
    }
}

/// The subject filter that selects every chat message: the subject prefix
/// followed by `.>`.
pub fn message_filter_subject() -> (r: String)
    ensures
        r@ == STREAM_MESSAGES_SUBJECT@ + ".>"@,
{
    let mut s = String::from_str(STREAM_MESSAGES_SUBJECT);
    s.append(".>");
    s
}

/// The message that the page shows for a payload and a publication time:
/// none where the payload is not UTF-8, the time is missing, or its deadline
/// cannot be formatted.
pub open spec fn message_of(payload: Seq<u8>, published: Option<i128>) -> Option<(Seq<char>, Seq<char>)> {
    if !valid_utf8(payload) {
        None
    } else {
        match published {
            None => None,
            Some(p) => match iso8601_utc_micros(deadline_instant(p as int)) {
                None => None,
                Some(d) => Some((decode_utf8(payload), d)),
            },
        }
    }
}

/// The message that the page shows for a delivery; none for a failed delivery.
pub open spec fn entry_message(e: Option<FetchedMessage>) -> Option<(Seq<char>, Seq<char>)> {
    match e {
        None => None,
        Some(f) => message_of(f.payload@, f.published_unix_nanos),
    }
}

/// The messages that the page shows for a run of deliveries: those that
/// yield one, in delivery order.
pub open spec fn kept_messages(es: Seq<Option<FetchedMessage>>) -> Seq<(Seq<char>, Seq<char>)>
    decreases es.len(),
{
    if es.len() == 0 {
        Seq::empty()
    } else {
        let prev = kept_messages(es.drop_last());
        match entry_message(es.last()) {
            Some(m) => prev.push(m),
            None => prev,
        }
    }
}

/// Builds the message that the page shows for one payload and publication
/// time: there is one exactly when the payload is UTF-8, the time is known
/// and the deadline falls in a year from 0 on.
pub fn message_from_parts(payload: Vec<u8>, published_unix_nanos: Option<i128>) -> (r: Option<Message>)
    ensures
        r is Some <==> valid_utf8(payload@) && (published_unix_nanos matches Some(p)
            && FIRST_FOUR_DIGIT_YEAR_UNIX_NANOS <= deadline_instant(p as int)),
        match r {
            Some(m) => message_of(payload@, published_unix_nanos) == Some(m@),
            None => message_of(payload@, published_unix_nanos) is None,
        },
{
    let ghost bytes = payload@;
    let text = match string_from_utf8(payload) {
        Some(t) => t,
        None => return None,
    };
    let published = match published_unix_nanos {
        Some(p) => p,
        None => return None,
    };
    let last = last_instant_unix_nanos();
    let deadline_nanos = if published > last - DEADLINE_WINDOW_NANOS {
        last
    } else {
        published + DEADLINE_WINDOW_NANOS
    };
    assert(deadline_nanos as int == deadline_instant(published as int));
    match format_utc_iso8601(deadline_nanos) {
        Some(deadline) => Some(Message { text, deadline }),
        None => None,
    }
}

/// The messages that the page shows for a run of deliveries, in order; failed
/// deliveries and messages that cannot be shown are left out.
pub fn latest_messages(entries: &Vec<Option<FetchedMessage>>) -> (r: Vec<Message>)
    ensures
        r@.map_values(|m: Message| m@) == kept_messages(entries@),
{
    let mut out: Vec<Message> = Vec::new();
    let mut i: usize = 0;
    while i < entries.len()
        invariant
            i <= entries@.len(),
            out@.map_values(|m: Message| m@) == kept_messages(entries@.take(i as int)),
        decreases entries@.len() - i,
    {
        assert(entries@.take(i + 1).drop_last() == entries@.take(i as int));
        match &entries[i] {
            Some(f) => {
                let payload = f.payload.clone();
                assert(payload@ == f.payload@);
                match message_from_parts(payload, f.published_unix_nanos) {
                    Some(m) => {
                        out.push(m);
                    },
                    None => {},
                }
            },
            None => {},
        }
        i = i + 1;
        assert(out@.map_values(|m: Message| m@) == kept_messages(entries@.take(i as int)));
    }
    assert(entries@.take(entries@.len() as int) == entries@);
    out
}

/// What the last message on the stream tells: its sequence number, that the
/// stream is empty, or that the bus failed with the given message.
pub enum LastMessageLookup {
    Found(u64),
    NoMessageFound,
    Failed(String),
}

/// The next step of reading the latest messages after looking up the last one.
pub enum LatestMessagesStep {
    /// Fetch up to ten messages from this sequence number on.
    FetchFrom(u64),
    /// Nothing to fetch: the answer is known.
    Finished(Result<Vec<Message>, Error>),
}

/// Decides the next step of reading the latest messages: an empty stream
/// gives no messages, a failed lookup gives the bus error, and otherwise the
/// last ten messages are fetched.
pub fn step_after_last_message(lookup: LastMessageLookup) -> (r: LatestMessagesStep)
    ensures
        match lookup {
            LastMessageLookup::Found(last) => r == LatestMessagesStep::FetchFrom(first_sequence(last)),
            LastMessageLookup::NoMessageFound => r matches LatestMessagesStep::Finished(Ok(v)) && v@.len() == 0,
            LastMessageLookup::Failed(msg) => r matches LatestMessagesStep::Finished(Err(Error::Nats(m))) && m == msg,
        },
{
    match lookup {
        LastMessageLookup::Found(last) => LatestMessagesStep::FetchFrom(first_sequence_to_fetch(last)),
        LastMessageLookup::NoMessageFound => LatestMessagesStep::Finished(Ok(Vec::new())),
        LastMessageLookup::Failed(msg) => LatestMessagesStep::Finished(Err(Error::Nats(msg))),
    }
}

} // verus!

verus! {

/// The fetch of the latest messages never starts below the first sequence
/// number, never past the last message, and at most ten messages back.
pub proof fn lemma_fetch_window(last: u64)
    ensures
        first_sequence(last) >= 1,
        last >= 1 ==> first_sequence(last) <= last,
        last - first_sequence(last) <= LATEST_MESSAGES_COUNT,
{
}

/// The fetch of the latest messages starts ten sequence numbers before the
/// last message, or at the first sequence number where the stream holds
/// fewer: exactly the larger of 1 and `last - 10`.
pub proof fn lemma_fetch_window_is_ten_back(last: u64)
    ensures
        last >= 11 ==> first_sequence(last) == last - 10,
        last <= 11 ==> first_sequence(last) == 1,
        first_sequence(last) as int == if last as int - 10 >= 1 { last as int - 10 } else { 1 },
{
}

/// A delivery is shown with its payload decoded from UTF-8 and a deadline ten
/// seconds after its publication, or at the last instant the time crate
/// represents where that comes first; a payload that is not UTF-8, a missing
/// publication time, or a deadline that cannot be written drops it.
pub proof fn lemma_message_law(payload: Seq<u8>, published: i128)
    ensures
        message_of(payload, None) is None,
        !valid_utf8(payload) ==> message_of(payload, Some(published)) is None,
        valid_utf8(payload) ==> message_of(payload, Some(published)) == match iso8601_utc_micros(
            if published + 10_000_000_000 <= 253_402_300_799_999_999_999 {
                published + 10_000_000_000
            } else {
                253_402_300_799_999_999_999
            },
        ) {
            Some(d) => Some((decode_utf8(payload), d)),
            None => None,
        },
{
}

/// The messages of a single delivery are the one it yields, if any.
pub proof fn lemma_kept_messages_single(e: Option<FetchedMessage>)
    ensures
        kept_messages(seq![e]) == match entry_message(e) {
            Some(m) => seq![m],
            None => Seq::empty(),
        },
{
    let es = seq![e];
    assert(es.drop_last() == Seq::<Option<FetchedMessage>>::empty());
    assert(es.last() == e);
    assert(kept_messages(es.drop_last()) == Seq::<(Seq<char>, Seq<char>)>::empty());
    match entry_message(e) {
        Some(m) => {
            assert(Seq::<(Seq<char>, Seq<char>)>::empty().push(m) == seq![m]);
        },
        None => {},
    }
}

/// Keeping the showable messages of two runs of deliveries one after the
/// other gives what keeping those of the whole run gives.
pub proof fn lemma_kept_messages_concat(a: Seq<Option<FetchedMessage>>, b: Seq<Option<FetchedMessage>>)
    ensures
        kept_messages(a + b) == kept_messages(a) + kept_messages(b),
    decreases b.len(),
{
    if b.len() == 0 {
        assert(a + b == a);
    } else {
        lemma_kept_messages_concat(a, b.drop_last());
        assert((a + b).drop_last() == a + b.drop_last());
        assert((a + b).last() == b.last());
    }
}

/// No more messages are shown than were delivered.
pub proof fn lemma_kept_messages_len(es: Seq<Option<FetchedMessage>>)
    ensures
        kept_messages(es).len() <= es.len(),
    decreases es.len(),
{
    if es.len() > 0 {
        lemma_kept_messages_len(es.drop_last());
    }
}

} // verus!
