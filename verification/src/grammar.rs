//! The grammar of requests, as mathematics: what a list of arguments means.
//!
//! The functions of `command` that read arguments are proved to compute
//! exactly these meanings.

use crate::command::{CommandError, CommandView, COLON, TAIL};
use crate::decimal::{is_digit, numeral_digits, parse_i64};
use crate::text::{
    is_valid_up_to, lemma_valid_up_to_exists, lemma_valid_up_to_unique, utf8_error_len,
    valid_up_to,
};
use vstd::prelude::*;
use vstd::utf8::*;

verus! {

/// The lowercase form of an ASCII capital letter; any other byte unchanged.
pub open spec fn fold_case(byte: u8) -> u8 {
    if 0x41 <= byte <= 0x5a {
        (byte + 0x20) as u8
    } else {
        byte
    }
}

/// `name` is `keyword` in some mix of upper and lower case. The keyword is
/// written in lowercase ASCII letters.
///
/// No character outside ASCII has a lowercase form among those letters but
/// the Kelvin sign, and no keyword of this protocol has a `k`: folding the
/// ASCII capitals alone accepts what full Unicode lowercasing would.
pub open spec fn spells(name: Seq<u8>, keyword: Seq<char>) -> bool {
    &&& name.len() == keyword.len()
    &&& forall|i: int| 0 <= i < name.len() ==> fold_case(#[trigger] name[i]) == keyword[i] as u8
}

/// The text that `bytes` encode, or the error for bytes that encode none.
pub open spec fn text_of(bytes: Seq<u8>) -> Result<Seq<char>, CommandError> {
    if valid_utf8(bytes) {
        Ok(decode_utf8(bytes))
    } else {
        Err(
            CommandError::InvalidUtf8String {
                valid_up_to: valid_up_to(bytes) as usize,
                error_len: utf8_error_len(bytes),
            },
        )
    }
}

/// The meaning of the two sides of the colon in a subscribe target: both
/// have to be text, the name first; the offset then has to be a numeral.
pub open spec fn parse_parts(name: Seq<u8>, offset: Seq<u8>) -> Result<
    (Seq<char>, i64),
    CommandError,
> {
    match text_of(name) {
        Err(error) => Err(error),
        Ok(stream) => match text_of(offset) {
            Err(error) => Err(error),
            Ok(_) => match parse_i64(offset) {
                Some(from) => Ok((stream, from)),
                None => Err(CommandError::InvalidOffset),
            },
        },
    }
}

/// The meaning of a subscribe target, `stream` or `stream:offset`.
///
/// The first colon, and only the first, parts the stream's name from the
/// offset. Without a colon the whole target is the name and the offset is
/// `TAIL`.
pub open spec fn parse_target(target: Seq<u8>) -> Result<(Seq<char>, i64), CommandError> {
    match target.index_of_first(COLON) {
        Some(colon) => parse_parts(
            target.subrange(0, colon),
            target.subrange(colon + 1, target.len() as int),
        ),
        None => match text_of(target) {
            Err(error) => Err(error),
            Ok(stream) => Ok((stream, TAIL)),
        },
    }
}

/// The meaning of what follows the name `publish`: a stream and an event.
pub open spec fn parse_publish(rest: Seq<Seq<u8>>) -> Result<CommandView, CommandError> {
    if rest.len() != 2 {
        Err(CommandError::InvalidNumberOfArguments { expected: 2 })
    } else {
        match text_of(rest[0]) {
            Err(error) => Err(error),
            Ok(stream) => Ok(CommandView::Publish { stream, event: rest[1] }),
        }
    }
}

/// The meaning of what follows the name `subscribe`: one target.
///
/// A wrong count is reported with `expected: 2`, the same figure as for
/// `publish`, although one target is read: the error does not tell the two
/// commands apart.
pub open spec fn parse_subscribe(rest: Seq<Seq<u8>>) -> Result<CommandView, CommandError> {
    if rest.len() != 1 {
        Err(CommandError::InvalidNumberOfArguments { expected: 2 })
    } else {
        match parse_target(rest[0]) {
            Err(error) => Err(error),
            Ok((stream, from)) => Ok(CommandView::Subscribe { stream, from }),
        }
    }
}

/// The meaning of a request's arguments: the first names the command, in any
/// mix of case, and the others are read as that command has them.
pub open spec fn parse_command(args: Seq<Seq<u8>>) -> Result<CommandView, CommandError> {
    if args.len() == 0 {
        Err(CommandError::MissingCommandName)
    } else {
        match text_of(args[0]) {
            Err(error) => Err(error),
            Ok(_) => if spells(args[0], "publish"@) {
                parse_publish(args.drop_first())
            } else if spells(args[0], "subscribe"@) {
                parse_subscribe(args.drop_first())
            } else {
                Err(CommandError::CommandNotFound)
            },
        }
    }
}

/// Where the first colon stands: after a prefix that has none.
pub proof fn lemma_first_colon(name: Seq<u8>, rest: Seq<u8>)
    requires
        !name.contains(COLON),
    ensures
        (name + seq![COLON] + rest).index_of_first(COLON) == Some(name.len() as int),
{
    let target = name + seq![COLON] + rest;
    let at = name.len() as int;
    assert(target[at] == COLON);
    assert(target.contains(COLON));
    target.index_of_first_ensures(COLON);
    let found = target.index_of_first(COLON).unwrap();
    if found < at {
        assert(name[found] == target[found]);
        assert(name.contains(COLON));
    }
}

/// Only the first colon of a target is a delimiter. A name without a colon,
/// a colon, and then any bytes at all, further colons among them, are read as
/// that name and as those bytes for the offset.
pub proof fn lemma_target_parts_at_first_colon(name: Seq<u8>, offset: Seq<u8>)
    requires
        !name.contains(COLON),
    ensures
        parse_target(name + seq![COLON] + offset) == parse_parts(name, offset),
{
    let target = name + seq![COLON] + offset;
    lemma_first_colon(name, offset);
    assert(target.subrange(0, name.len() as int) =~= name);
    assert(target.subrange(name.len() as int + 1, target.len() as int) =~= offset);
}

/// An offset with a colon in it is no numeral.
pub proof fn lemma_colon_is_no_digit(offset: Seq<u8>)
    requires
        offset.contains(COLON),
    ensures
        parse_i64(offset) is None,
{
    let i = choose|i: int| 0 <= i < offset.len() && offset[i] == COLON;
    let digits = numeral_digits(offset);
    if digits.len() == offset.len() {
        assert(!is_digit(digits[i]));
    } else {
        assert(i > 0);
        assert(!is_digit(digits[i - 1]));
    }
}

/// A colon after the first never parts anything: it belongs to the offset,
/// and a target with two colons is rejected whatever else it holds.
pub proof fn lemma_second_colon_is_rejected(name: Seq<u8>, offset: Seq<u8>)
    requires
        !name.contains(COLON),
        offset.contains(COLON),
    ensures
        parse_target(name + seq![COLON] + offset) is Err,
{
    lemma_target_parts_at_first_colon(name, offset);
    lemma_colon_is_no_digit(offset);
}

/// The length of the longest well-formed prefix that an outcome reports,
/// where it is the error for bytes that are no text.
pub open spec fn invalid_at<T>(outcome: Result<T, CommandError>) -> Option<usize> {
    match outcome {
        Err(CommandError::InvalidUtf8String { valid_up_to, .. }) => Some(valid_up_to),
        _ => None,
    }
}

/// `a` and `b` are the same bytes but for the case of ASCII letters.
pub open spec fn same_ignoring_case(a: Seq<u8>, b: Seq<u8>) -> bool {
    &&& a.len() == b.len()
    &&& forall|i: int| 0 <= i < a.len() ==> fold_case(#[trigger] a[i]) == fold_case(b[i])
}

/// The number of an ASCII byte, as a one-byte encoding denotes it, is no
/// surrogate.
proof fn lemma_ascii_codepoint(byte: u8)
    by (bit_vector)
    requires
        byte <= 0x7f,
    ensures
        (byte & 0x7F) as u32 <= 0x7f,
{
}

/// Changing the case of ASCII letters changes no byte of an encoding of a
/// character that is not ASCII, so it leaves well-formed what is well-formed.
pub proof fn lemma_case_keeps_validity(a: Seq<u8>, b: Seq<u8>)
    requires
        same_ignoring_case(a, b),
    ensures
        valid_utf8(a) == valid_utf8(b),
    decreases a.len(),
{
    if a.len() > 0 {
        assert forall|i: int| 0 <= i < a.len() implies (a[i] >= 0x80 ==> b[i] == a[i]) && (a[i]
            < 0x80 ==> b[i] < 0x80) by {
            assert(fold_case(a[i]) == fold_case(b[i]));
        }
        if a[0] < 0x80 {
            lemma_ascii_codepoint(a[0]);
            lemma_ascii_codepoint(b[0]);
            assert(valid_first_scalar(a));
            assert(valid_first_scalar(b));
        } else {
            assert(valid_first_scalar(a) == valid_first_scalar(b));
        }
        if valid_first_scalar(a) {
            let rest_a = pop_first_scalar(a);
            let rest_b = pop_first_scalar(b);
            assert(same_ignoring_case(rest_a, rest_b)) by {
                let k = length_of_first_scalar(a);
                assert(k == length_of_first_scalar(b));
                assert forall|i: int| 0 <= i < rest_a.len() implies fold_case(
                    #[trigger] rest_a[i],
                ) == fold_case(rest_b[i]) by {
                    assert(rest_a[i] == a[i + k]);
                    assert(rest_b[i] == b[i + k]);
                }
            }
            lemma_case_keeps_validity(rest_a, rest_b);
        }
    }
}

/// Changing the case of ASCII letters does not change whether bytes are
/// text, nor how far they are.
pub proof fn lemma_case_keeps_text(a: Seq<u8>, b: Seq<u8>)
    requires
        same_ignoring_case(a, b),
    ensures
        valid_utf8(a) == valid_utf8(b),
        valid_up_to(a) == valid_up_to(b),
{
    lemma_case_keeps_validity(a, b);
    lemma_valid_up_to_exists(a);
    let n = valid_up_to(a);
    assert forall|m: int| 0 <= m <= a.len() implies valid_utf8(#[trigger] a.subrange(0, m))
        == valid_utf8(b.subrange(0, m)) by {
        assert(same_ignoring_case(a.subrange(0, m), b.subrange(0, m)));
        lemma_case_keeps_validity(a.subrange(0, m), b.subrange(0, m));
    }
    assert(is_valid_up_to(b, n)) by {
        assert(valid_utf8(a.subrange(0, n)));
        assert forall|m: int| n < m <= b.len() implies !valid_utf8(
            #[trigger] b.subrange(0, m),
        ) by {
            assert(!valid_utf8(a.subrange(0, m)));
        }
    }
    lemma_valid_up_to_unique(b, n);
}

/// Two names that differ in case alone spell the same keywords.
pub proof fn lemma_same_case_spells(a: Seq<u8>, b: Seq<u8>, keyword: Seq<char>)
    requires
        same_ignoring_case(a, b),
    ensures
        spells(a, keyword) == spells(b, keyword),
{
    if spells(a, keyword) {
        assert forall|i: int| 0 <= i < b.len() implies fold_case(#[trigger] b[i])
            == keyword[i] as u8 by {
            assert(fold_case(a[i]) == fold_case(b[i]));
        }
    }
    if spells(b, keyword) {
        assert forall|i: int| 0 <= i < a.len() implies fold_case(#[trigger] a[i])
            == keyword[i] as u8 by {
            assert(fold_case(a[i]) == fold_case(b[i]));
        }
    }
}

/// The name of a command is matched whatever the case of its letters: with
/// the first argument replaced by any other mix of upper and lower case of
/// the same letters, the arguments are read as before. Where the first
/// argument is not text, neither is the other, and both are refused for it
/// at the same place.
pub proof fn lemma_command_name_ignores_case(args: Seq<Seq<u8>>, name: Seq<u8>)
    requires
        args.len() > 0,
        same_ignoring_case(args[0], name),
    ensures
        valid_utf8(args[0]) ==> parse_command(args.update(0, name)) == parse_command(args),
        !valid_utf8(args[0]) ==> invalid_at(parse_command(args)) is Some && invalid_at(
            parse_command(args.update(0, name)),
        ) == invalid_at(parse_command(args)),
{
    let other = args.update(0, name);
    lemma_case_keeps_text(args[0], name);
    assert(other.drop_first() =~= args.drop_first());
    assert(spells(args[0], "publish"@) == spells(name, "publish"@)) by {
        lemma_same_case_spells(args[0], name, "publish"@);
    }
    assert(spells(args[0], "subscribe"@) == spells(name, "subscribe"@)) by {
        lemma_same_case_spells(args[0], name, "subscribe"@);
    }
}

/// A name that spells an ASCII keyword is ASCII, and so is text.
pub proof fn lemma_keyword_is_text(name: Seq<u8>, keyword: Seq<char>)
    requires
        is_ascii_chars(keyword),
        spells(name, keyword),
    ensures
        valid_utf8(name),
{
    assert forall|i: int| 0 <= i < name.len() implies #[trigger] is_leading_byte_width_1(
        name[i],
    ) by {
        assert(fold_case(name[i]) == keyword[i] as u8);
    }
    assert(name.subrange(0, 0) =~= Seq::<u8>::empty());
    assert(partial_valid_utf8(name, 0));
    partial_valid_utf8_extend_ascii_block(name, 0, name.len() as int);
    assert(name.subrange(0, name.len() as int) =~= name);
}

/// Every mix of upper and lower case of `publish` names that command.
pub proof fn lemma_publish_in_any_case(args: Seq<Seq<u8>>)
    requires
        args.len() > 0,
        spells(args[0], "publish"@),
    ensures
        parse_command(args) == parse_publish(args.drop_first()),
{
    reveal_strlit("publish");
    lemma_keyword_is_text(args[0], "publish"@);
}

/// Every mix of upper and lower case of `subscribe` names that command.
pub proof fn lemma_subscribe_in_any_case(args: Seq<Seq<u8>>)
    requires
        args.len() > 0,
        spells(args[0], "subscribe"@),
    ensures
        parse_command(args) == parse_subscribe(args.drop_first()),
{
    reveal_strlit("publish");
    reveal_strlit("subscribe");
    lemma_keyword_is_text(args[0], "subscribe"@);
}

} // verus!
