//! Commands and errors as text for logs and error replies.
//!
//! Nothing here is part of the protocol, and nothing reads these texts back.

use crate::command::{Command, CommandError, CommandView};
use crate::decimal::{decimal_chars, decimal_string, signed_decimal_chars, signed_decimal_string};
use crate::text::str_from_utf8;
use vstd::prelude::*;
use vstd::string::StringExecFns;
use vstd::utf8::*;

verus! {

/// A text as the standard library's `{:?}` writes it: between double quotes,
/// with quotes, backslashes and what does not print escaped.
pub uninterp spec fn quoted(text: Seq<char>) -> Seq<char>;

/// Writes `text` with `{:?}` of the standard library's formatting.
///
/// Trusted: the result depends on the characters of `text` alone; `quoted`
/// is the name of that result, and nothing more is claimed of it.
#[verifier::external_body]
fn quote(text: &str) -> (shown: String)
    ensures
        shown@ == quoted(text@),
{
    format!("{:?}", text)
}

/// The numbers of `bytes` in base 10 with `, ` between them.
pub open spec fn listed(bytes: Seq<u8>) -> Seq<char>
    decreases bytes.len(),
{
    if bytes.len() == 0 {
        Seq::empty()
    } else if bytes.len() == 1 {
        decimal_chars(bytes[0] as nat)
    } else {
        listed(bytes.drop_last()) + ", "@ + decimal_chars(bytes.last() as nat)
    }
}

/// Bytes as a list of numbers: `[104, 105]`.
pub open spec fn byte_list(bytes: Seq<u8>) -> Seq<char> {
    "["@ + listed(bytes) + "]"@
}

/// An event as it is shown: as quoted text where its bytes are text, and
/// otherwise as the list of its bytes.
pub open spec fn shown_event(event: Seq<u8>) -> Seq<char> {
    if valid_utf8(event) {
        quoted(decode_utf8(event))
    } else {
        byte_list(event)
    }
}

/// A publish command as text, from its stream and its event as they are
/// shown.
pub open spec fn shown_publish(stream: Seq<char>, event: Seq<char>) -> Seq<char> {
    "Publish { stream: "@ + stream + ", event: "@ + event + " }"@
}

/// A subscribe command as text, from its stream as it is shown and its
/// offset.
pub open spec fn shown_subscribe(stream: Seq<char>, from: i64) -> Seq<char> {
    "Subscribe { stream: "@ + stream + ", from: "@ + signed_decimal_chars(from as int) + " }"@
}

/// A command as text.
pub open spec fn description(command: CommandView) -> Seq<char> {
    match command {
        CommandView::Publish { stream, event } => shown_publish(quoted(stream), shown_event(event)),
        CommandView::Subscribe { stream, from } => shown_subscribe(quoted(stream), from),
    }
}

/// Where and how bytes stop being text, in the words that the standard
/// library's `Utf8Error` has for it.
pub open spec fn utf8_failure(valid_up_to: usize, error_len: Option<usize>) -> Seq<char> {
    match error_len {
        Some(len) => "invalid utf-8 sequence of "@ + decimal_chars(len as nat)
            + " bytes from index "@ + decimal_chars(valid_up_to as nat),
        None => "incomplete utf-8 byte sequence from index "@ + decimal_chars(valid_up_to as nat),
    }
}

/// An error as text.
pub open spec fn message_of(error: CommandError) -> Seq<char> {
    match error {
        CommandError::CommandNotFound => "command not found"@,
        CommandError::MissingCommandName => "missing command name"@,
        CommandError::InvalidNumberOfArguments { expected } => {
            "invalid number of arguments (expected "@ + decimal_chars(expected as nat) + ")"@
        },
        CommandError::InvalidUtf8String { valid_up_to, error_len } => {
            "invalid utf8 string: "@ + utf8_failure(valid_up_to, error_len)
        },
        CommandError::InvalidOffset => "invalid offset"@,
    }
}

/// Writes bytes as a list of numbers: `[104, 105]`.
pub fn byte_list_string(bytes: &[u8]) -> (text: String)
    ensures
        text@ == byte_list(bytes@),
{
    let mut text = String::from_str("[");
    let mut i: usize = 0;
    while i < bytes.len()
        invariant
            i <= bytes@.len(),
            text@ == "["@ + listed(bytes@.subrange(0, i as int)),
        decreases bytes@.len() - i,
    {
        let ghost before = bytes@.subrange(0, i as int);
        let ghost after = bytes@.subrange(0, i + 1);
        if i > 0 {
            text.append(", ");
        }
        let number = decimal_string(bytes[i] as u64);
        text.append(number.as_str());
        proof {
            assert(after.drop_last() =~= before);
            assert(after.last() == bytes@[i as int]);
            assert(text@ =~= "["@ + listed(after));
        }
        i = i + 1;
    }
    assert(bytes@.subrange(0, i as int) =~= bytes@);
    text.append("]");
    text
}

/// Writes where and how bytes stop being text.
pub fn utf8_failure_string(valid_up_to: usize, error_len: Option<usize>) -> (text: String)
    ensures
        text@ == utf8_failure(valid_up_to, error_len),
{
    let index = decimal_string(valid_up_to as u64);
    match error_len {
        Some(len) => {
            let mut text = String::from_str("invalid utf-8 sequence of ");
            let number = decimal_string(len as u64);
            text.append(number.as_str());
            text.append(" bytes from index ");
            text.append(index.as_str());
            text
        },
        None => {
            let mut text = String::from_str("incomplete utf-8 byte sequence from index ");
            text.append(index.as_str());
            text
        },
    }
}

/// Writes a publish command, from its stream and its event as they are to be
/// shown.
pub fn publish_string(stream: &str, event: &str) -> (text: String)
    ensures
        text@ == shown_publish(stream@, event@),
{
    let mut text = String::from_str("Publish { stream: ");
    text.append(stream);
    text.append(", event: ");
    text.append(event);
    text.append(" }");
    text
}

/// Writes a subscribe command, from its stream as it is to be shown and its
/// offset.
pub fn subscribe_string(stream: &str, from: i64) -> (text: String)
    ensures
        text@ == shown_subscribe(stream@, from),
{
    let mut text = String::from_str("Subscribe { stream: ");
    text.append(stream);
    text.append(", from: ");
    let number = signed_decimal_string(from);
    text.append(number.as_str());
    text.append(" }");
    text
}

impl Command {
    /// This command as text, for logs: its fields by name, the stream
    /// quoted, and the event as quoted text where it is text and as a list
    /// of bytes where it is not.
    pub fn describe(&self) -> (text: String)
        ensures
            text@ == description(self@),
    {
        match self {
            Command::Publish { stream, event } => {
                let stream = quote(stream.as_str());
                let event = match str_from_utf8(event.as_slice()) {
                    Ok(event) => quote(event),
                    Err(_) => byte_list_string(event.as_slice()),
                };
                publish_string(stream.as_str(), event.as_str())
            },
            Command::Subscribe { stream, from } => {
                let stream = quote(stream.as_str());
                subscribe_string(stream.as_str(), *from)
            },
        }
    }
}

impl CommandError {
    /// This error as text, for an error reply.
    pub fn message(&self) -> (text: String)
        ensures
            text@ == message_of(*self),
    {
        match self {
            CommandError::CommandNotFound => String::from_str("command not found"),
            CommandError::MissingCommandName => String::from_str("missing command name"),
            CommandError::InvalidNumberOfArguments { expected } => {
                let mut text = String::from_str("invalid number of arguments (expected ");
                let number = decimal_string(*expected as u64);
                text.append(number.as_str());
                text.append(")");
                text
            },
            CommandError::InvalidUtf8String { valid_up_to, error_len } => {
                let mut text = String::from_str("invalid utf8 string: ");
                let failure = utf8_failure_string(*valid_up_to, *error_len);
                text.append(failure.as_str());
                text
            },
            CommandError::InvalidOffset => String::from_str("invalid offset"),
        }
    }
}

} // verus!
