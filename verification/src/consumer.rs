//! The consumer path: from received records to lines of output.
//!
//! The path decides what is shown for each thing that the subscription hands
//! over: one line for every record, and a line on the error output for every
//! failure to receive. It never ends on its own account: after a failure the
//! next record is awaited.

use vstd::prelude::*;
use vstd::string::*;
use vstd::utf8::{decode_utf8, valid_utf8};
use crate::dispatch::Verdict;

verus! {

/// The text that `String::from_utf8_lossy` makes of `bytes`: their decoding as
/// UTF-8, with the replacement character for what does not decode.
pub uninterp spec fn lossy_text(bytes: Seq<u8>) -> Seq<char>;

/// Decodes bytes by `String::from_utf8_lossy`. The contract names the result,
/// and says what the documentation gives for valid UTF-8: the text is the
/// decoding of the bytes, no character replaced.
#[verifier::external_body]
fn decode_lossy(bytes: &[u8]) -> (text: String)
    ensures
        text@ == lossy_text(bytes@),
        valid_utf8(bytes@) ==> text@ == decode_utf8(bytes@),
{
    String::from_utf8_lossy(bytes).into_owned()
}

/// Something that the subscription handed over.
#[derive(Debug, Clone, PartialEq, Eq)]
pub enum Received {
    /// A record, with the bytes of its key and of its payload where it has them.
    Record { key: Option<Vec<u8>>, payload: Option<Vec<u8>> },
    /// A failure to receive, with its description.
    Failure(String),
}

/// What the consumer path does about something received.
#[derive(Debug, Clone, PartialEq, Eq)]
pub enum ConsumerAction {
    /// Write this line to the output.
    Print(String),
    /// Write this line to the error output.
    Report(String),
}

/// The mathematical value of a `ConsumerAction`.
pub enum Action {
    Print(Seq<char>),
    Report(Seq<char>),
}

impl View for ConsumerAction {
    type V = Action;

    open spec fn view(&self) -> Action {
        match self {
            ConsumerAction::Print(line) => Action::Print(line@),
            ConsumerAction::Report(line) => Action::Report(line@),
        }
    }
}

/// The view of optional bytes.
pub open spec fn opt_bytes(bytes: Option<Vec<u8>>) -> Option<Seq<u8>> {
    match bytes {
        Some(b) => Some(b@),
        None => None,
    }
}

/// What stands for a key that a record does not have.
pub open spec fn absent_key() -> Seq<char> {
    "None"@
}

/// How a key is shown: a present key as its decoded text, an absent one as
/// the marker `None`.
pub open spec fn key_text(key: Option<Seq<u8>>) -> Seq<char> {
    match key {
        Some(bytes) => lossy_text(bytes),
        None => absent_key(),
    }
}

/// How a payload is shown: as its decoded text, and as nothing where the
/// record has none.
pub open spec fn payload_text(payload: Option<Seq<u8>>) -> Seq<char> {
    match payload {
        Some(bytes) => lossy_text(bytes),
        None => Seq::<char>::empty(),
    }
}

/// The line for a record with the given key and payload:
/// `Key: '<key>', Payload: '<payload>'`.
pub open spec fn record_line(key: Option<Seq<u8>>, payload: Option<Seq<u8>>) -> Seq<char> {
    "Key: '"@ + key_text(key) + "', Payload: '"@ + payload_text(payload) + "'"@
}

/// The line that reports a failure to receive.
pub open spec fn failure_line(description: Seq<char>) -> Seq<char> {
    "Kafka consumer error: "@ + description
}

/// What is done about `event`: every record is printed as its line, with or
/// without a key, with or without a payload; a failure is reported.
pub open spec fn action_for(event: Received) -> Action {
    match event {
        Received::Record { key, payload } => Action::Print(
            record_line(opt_bytes(key), opt_bytes(payload)),
        ),
        Received::Failure(description) => Action::Report(failure_line(description@)),
    }
}

/// Renders one record as a line: `Key: '<key>', Payload: '<payload>'`, with
/// `None` for a key that is absent and nothing for a payload that is.
pub fn render_record(key: &Option<Vec<u8>>, payload: &Option<Vec<u8>>) -> (line: String)
    ensures
        line@ == record_line(opt_bytes(*key), opt_bytes(*payload)),
{
    let mut line = String::from_str("Key: '");
    match key {
        Some(bytes) => {
            let text = decode_lossy(bytes.as_slice());
            line.append(text.as_str());
        },
        None => {
            line.append("None");
        },
    }
    line.append("', Payload: '");
    match payload {
        Some(bytes) => {
            let text = decode_lossy(bytes.as_slice());
            line.append(text.as_str());
        },
        None => {
            assert(line@ + Seq::<char>::empty() == line@);
        },
    }
    line.append("'");
    line
}

/// Decides what to do about something received.
pub fn on_received(event: &Received) -> (action: ConsumerAction)
    ensures
        action@ == action_for(*event),
{
    match event {
        Received::Record { key, payload } => ConsumerAction::Print(render_record(key, payload)),
        Received::Failure(description) => {
            let mut line = String::from_str("Kafka consumer error: ");
            line.append(description.as_str());
            ConsumerAction::Report(line)
        },
    }
}

/// Whether the consumer path goes on after `event`: always. A failure to
/// receive does not end it.
pub fn after_receive(event: &Received) -> (verdict: Verdict)
    ensures
        verdict == Verdict::Continue,
{
    match event {
        Received::Record { .. } => Verdict::Continue,
        Received::Failure(_) => Verdict::Continue,
    }
}

} // verus!
