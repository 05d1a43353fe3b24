//! Typed commands, and the functions that read them from a request's
//! arguments.

use crate::arguments::contents;
use crate::decimal::parse_decimal_i64;
use crate::grammar::{fold_case, parse_command, parse_target, spells, text_of};
use crate::text::{lemma_valid_up_to_unique, str_from_utf8, string_from_utf8};
use vstd::prelude::*;
use vstd::utf8::*;

verus! {

/// The byte that parts a stream's name from an offset in a subscribe target.
pub const COLON: u8 = 0x3a;

/// The offset of a subscription that names none: start at the stream's tail.
pub const TAIL: i64 = -1;

/// What a request asks for.
#[derive(Debug, Clone, PartialEq, Eq)]
pub enum Command {
    /// Append `event` to the log of `stream`. The event is opaque bytes.
    Publish { stream: String, event: Vec<u8> },
    /// Deliver the events of `stream` from offset `from` on, or from its
    /// tail where `from` is `TAIL`.
    Subscribe { stream: String, from: i64 },
}

/// A command as a mathematical value.
pub enum CommandView {
    Publish { stream: Seq<char>, event: Seq<u8> },
    Subscribe { stream: Seq<char>, from: i64 },
}

impl View for Command {
    type V = CommandView;

    open spec fn view(&self) -> CommandView {
        match *self {
            Command::Publish { stream, event } => CommandView::Publish {
                stream: stream@,
                event: event@,
            },
            Command::Subscribe { stream, from } => CommandView::Subscribe { stream: stream@, from },
        }
    }
}

/// Why a request's arguments are no command.
#[derive(Debug, Clone, Copy, PartialEq, Eq)]
pub enum CommandError {
    /// The first argument names no command.
    CommandNotFound,
    /// There is no argument at all.
    MissingCommandName,
    /// The command got another number of arguments than it takes.
    InvalidNumberOfArguments { expected: usize },
    /// An argument that has to be text is not well-formed UTF-8. Its first
    /// `valid_up_to` bytes are, and no longer prefix is; the ill-formed
    /// sequence that follows is `error_len` bytes long, or the argument ends
    /// inside a character where that is `None`.
    InvalidUtf8String { valid_up_to: usize, error_len: Option<usize> },
    /// The offset of a subscribe target is no base-10 numeral of an `i64`.
    InvalidOffset,
}

/// What reading a command gave, as a mathematical value.
pub open spec fn outcome(result: Result<Command, CommandError>) -> Result<
    CommandView,
    CommandError,
> {
    match result {
        Ok(command) => Ok(command@),
        Err(error) => Err(error),
    }
}

/// What reading a target gave, as a mathematical value.
pub open spec fn target_outcome(result: Result<(String, i64), CommandError>) -> Result<
    (Seq<char>, i64),
    CommandError,
> {
    match result {
        Ok((stream, from)) => Ok((stream@, from)),
        Err(error) => Err(error),
    }
}

/// Whether `name` is `keyword` in some mix of upper and lower case.
fn is_keyword(name: &[u8], keyword: &str) -> (r: bool)
    requires
        is_ascii_chars(keyword@),
    ensures
        r == spells(name@, keyword@),
{
    let expected = keyword.as_bytes();
    proof {
        is_ascii_chars_encode_utf8(keyword@);
    }
    if name.len() != expected.len() {
        return false;
    }
    let mut i: usize = 0;
    while i < name.len()
        invariant
            i <= name@.len(),
            name@.len() == keyword@.len(),
            expected@.len() == keyword@.len(),
            forall|j: int| 0 <= j < keyword@.len() ==> keyword@[j] as u8 == #[trigger] expected@[j],
            forall|j: int| 0 <= j < i ==> fold_case(#[trigger] name@[j]) == keyword@[j] as u8,
        decreases name@.len() - i,
    {
        let byte: u8 = name[i];
        let folded: u8 = if 0x41 <= byte && byte <= 0x5a {
            byte + 0x20
        } else {
            byte
        };
        if folded != expected[i] {
            assert(fold_case(name@[i as int]) != keyword@[i as int] as u8);
            return false;
        }
        i = i + 1;
    }
    true
}

/// Reads `bytes` as text, taking them over without a copy.
fn into_text(bytes: Vec<u8>) -> (r: Result<String, CommandError>)
    ensures
        match r {
            Ok(text) => text_of(bytes@) == Ok::<Seq<char>, CommandError>(text@),
            Err(error) => text_of(bytes@) == Err::<Seq<char>, CommandError>(error),
        },
{
    let ghost given = bytes@;
    match string_from_utf8(bytes) {
        Ok(text) => Ok(text),
        Err(failure) => {
            proof {
                lemma_valid_up_to_unique(given, failure.valid_up_to as int);
            }
            Err(
                CommandError::InvalidUtf8String {
                    valid_up_to: failure.valid_up_to,
                    error_len: failure.error_len,
                },
            )
        },
    }
}

/// Checks that `bytes` are text, leaving them where they are.
fn check_text(bytes: &[u8]) -> (r: Result<(), CommandError>)
    ensures
        match r {
            Ok(_) => text_of(bytes@) is Ok,
            Err(error) => text_of(bytes@) == Err::<Seq<char>, CommandError>(error),
        },
{
    match str_from_utf8(bytes) {
        Ok(_) => Ok(()),
        Err(failure) => {
            proof {
                lemma_valid_up_to_unique(bytes@, failure.valid_up_to as int);
            }
            Err(
                CommandError::InvalidUtf8String {
                    valid_up_to: failure.valid_up_to,
                    error_len: failure.error_len,
                },
            )
        },
    }
}

/// The place of the first colon in `target`, if it has one.
fn find_colon(target: &[u8]) -> (r: Option<usize>)
    ensures
        match r {
            Some(colon) => colon < target@.len() <= usize::MAX && target@.index_of_first(COLON)
                == Some(colon as int),
            None => target@.index_of_first(COLON) is None,
        },
{
    let mut i: usize = 0;
    while i < target.len()
        invariant
            i <= target@.len(),
            forall|j: int| 0 <= j < i ==> target@[j] != COLON,
        decreases target@.len() - i,
    {
        if target[i] == COLON {
            proof {
                assert(target@.contains(COLON));
                target@.index_of_first_ensures(COLON);
            }
            return Some(i);
        }
        i = i + 1;
    }
    proof {
        target@.index_of_first_ensures(COLON);
    }
    None
}

/// Reads a subscribe target, `stream` or `stream:offset`, into the stream's
/// name and the offset to start from.
///
/// Only the first colon parts the two: a later one belongs to the offset,
/// which is then no numeral. No target makes this function panic.
pub fn read_target(target: Vec<u8>) -> (r: Result<(String, i64), CommandError>)
    ensures
        target_outcome(r) == parse_target(target@),
{
    let mut stream = target;
    match find_colon(stream.as_slice()) {
        Some(colon) => {
            let offset = stream.split_off(colon + 1);
            stream.pop();
            assert(stream@ =~= target@.subrange(0, colon as int));
            let stream = into_text(stream)?;
            check_text(offset.as_slice())?;
            match parse_decimal_i64(offset.as_slice()) {
                Some(from) => Ok((stream, from)),
                None => Err(CommandError::InvalidOffset),
            }
        },
        None => {
            let stream = into_text(stream)?;
            Ok((stream, TAIL))
        },
    }
}

impl Command {
    /// Reads a command from the arguments of one request.
    ///
    /// The first argument names the command, in any mix of upper and lower
    /// case; `publish` takes a stream and an event, `subscribe` one target.
    /// The result is exactly what `parse_command` gives for the bytes of
    /// `args`: the command on success, and otherwise the one error that says
    /// what is wrong. No input makes this function panic.
    pub fn from_args(args: Vec<Vec<u8>>) -> (r: Result<Command, CommandError>)
        ensures
            outcome(r) == parse_command(contents(args@)),
    {
        let ghost given = contents(args@);
        let mut args = args;
        if args.len() == 0 {
            return Err(CommandError::MissingCommandName);
        }
        check_text(args[0].as_slice())?;
        proof {
            reveal_strlit("publish");
            reveal_strlit("subscribe");
        }
        if is_keyword(args[0].as_slice(), "publish") {
            if args.len() != 3 {
                return Err(CommandError::InvalidNumberOfArguments { expected: 2 });
            }
            let event = args.pop().unwrap();
            let stream = args.pop().unwrap();
            assert(given.drop_first() =~= seq![stream@, event@]);
            let stream = into_text(stream)?;
            Ok(Command::Publish { stream, event })
        } else if is_keyword(args[0].as_slice(), "subscribe") {
            if args.len() != 2 {
                return Err(CommandError::InvalidNumberOfArguments { expected: 2 });
            }
            let target = args.pop().unwrap();
            assert(given.drop_first() =~= seq![target@]);
            let (stream, from) = read_target(target)?;
            Ok(Command::Subscribe { stream, from })
        } else {
            Err(CommandError::CommandNotFound)
        }
    }
}

} // verus!
