//! How a client writes a command down as arguments, and the proofs that
//! reading what was written gives the command back.

use crate::command::{CommandError, CommandView, COLON, TAIL};
use crate::decimal::{
    decimal_chars, decimal_digits, is_digit, lemma_decimal_digits, lemma_parse_decimal_digits,
};
use crate::grammar::{lemma_target_parts_at_first_colon, parse_command, spells};
use vstd::prelude::*;
use vstd::utf8::*;

verus! {

/// The arguments of a request to publish `event` on `stream`.
pub open spec fn encode_publish(stream: Seq<char>, event: Seq<u8>) -> Seq<Seq<u8>> {
    seq![encode_utf8("publish"@), encode_utf8(stream), event]
}

/// The target `stream:from` of a subscription from a given offset.
pub open spec fn encode_target(stream: Seq<char>, from: nat) -> Seq<u8> {
    encode_utf8(stream + seq![':'] + decimal_chars(from))
}

/// The arguments of a request to subscribe to `stream` from offset `from`.
pub open spec fn encode_subscribe(stream: Seq<char>, from: nat) -> Seq<Seq<u8>> {
    seq![encode_utf8("subscribe"@), encode_target(stream, from)]
}

/// The arguments of a request to subscribe to `stream` from its tail.
pub open spec fn encode_subscribe_tail(stream: Seq<char>) -> Seq<Seq<u8>> {
    seq![encode_utf8("subscribe"@), encode_utf8(stream)]
}

/// The encoding of two texts in a row is the two encodings in a row.
pub proof fn lemma_encode_concat(a: Seq<char>, b: Seq<char>)
    ensures
        encode_utf8(a + b) == encode_utf8(a) + encode_utf8(b),
    decreases a.len(),
{
    if a.len() == 0 {
        assert(a + b =~= b);
        assert(encode_utf8(a) + encode_utf8(b) =~= encode_utf8(b));
    } else {
        lemma_encode_concat(a.drop_first(), b);
        assert((a + b).drop_first() =~= a.drop_first() + b);
        assert(encode_scalar(a[0] as u32) + (encode_utf8(a.drop_first()) + encode_utf8(b))
            =~= (encode_scalar(a[0] as u32) + encode_utf8(a.drop_first())) + encode_utf8(b));
    }
}

/// No byte of the encoding of a character that is not ASCII is an ASCII byte.
proof fn lemma_wide_scalar_bytes(scalar: u32)
    by (bit_vector)
    requires
        0x80 <= scalar <= 0x10FFFF,
    ensures
        0xC0u8 | ((scalar >> 6) & 0x1F) as u8 >= 0x80,
        0xE0u8 | ((scalar >> 12) & 0x0F) as u8 >= 0x80,
        0xF0u8 | ((scalar >> 18) & 0x7) as u8 >= 0x80,
        0x80u8 | (scalar & 0x3F) as u8 >= 0x80,
        0x80u8 | ((scalar >> 6) & 0x3F) as u8 >= 0x80,
        0x80u8 | ((scalar >> 12) & 0x3F) as u8 >= 0x80,
{
}

/// The one byte of the encoding of an ASCII character is its number.
proof fn lemma_narrow_scalar_byte(scalar: u32)
    by (bit_vector)
    requires
        scalar <= 0x7F,
    ensures
        (scalar & 0x7F) as u8 == scalar,
{
}

/// A text without a colon has none in its encoding.
pub proof fn lemma_encoding_without_colon(text: Seq<char>)
    requires
        !text.contains(':'),
    ensures
        !encode_utf8(text).contains(COLON),
    decreases text.len(),
{
    if text.len() > 0 {
        let first = text[0];
        let scalar = first as u32;
        let head = encode_scalar(scalar);
        let tail = encode_utf8(text.drop_first());
        assert(text.contains(first));
        assert forall|c: char| text.drop_first().contains(c) implies text.contains(c) by {
            let i = choose|i: int| 0 <= i < text.drop_first().len() && text.drop_first()[i] == c;
            assert(text[i + 1] == c);
        }
        lemma_encoding_without_colon(text.drop_first());
        char_is_scalar(first);
        assert(first != ':');
        assert(':' as u32 == 0x3a);
        assert(scalar != 0x3a) by {
            char_u32_cast(first, scalar);
            char_u32_cast(':', 0x3a);
        }
        if scalar <= 0x7F {
            lemma_narrow_scalar_byte(scalar);
        } else {
            lemma_wide_scalar_bytes(scalar);
        }
        assert forall|i: int| 0 <= i < head.len() implies head[i] != COLON by {}
        assert forall|i: int| 0 <= i < (head + tail).len() implies (head + tail)[i] != COLON by {
            if i >= head.len() {
                assert(tail.contains((head + tail)[i]));
            }
        }
    }
}

/// The two command names, written in lowercase, spell themselves and not
/// each other, and are text.
pub proof fn lemma_names_spell_themselves()
    ensures
        spells(encode_utf8("publish"@), "publish"@),
        spells(encode_utf8("subscribe"@), "subscribe"@),
        !spells(encode_utf8("subscribe"@), "publish"@),
        valid_utf8(encode_utf8("publish"@)),
        valid_utf8(encode_utf8("subscribe"@)),
{
    reveal_strlit("publish");
    reveal_strlit("subscribe");
    is_ascii_chars_encode_utf8("publish"@);
    is_ascii_chars_encode_utf8("subscribe"@);
    encode_utf8_valid_utf8("publish"@);
    encode_utf8_valid_utf8("subscribe"@);
}

/// The digits of a number, as text, are encoded as those digits.
pub proof fn lemma_encode_decimal(n: nat)
    ensures
        encode_utf8(decimal_chars(n)) == decimal_digits(n),
{
    lemma_decimal_digits(n);
    let chars = decimal_chars(n);
    let digits = decimal_digits(n);
    assert forall|i: int| 0 <= i < chars.len() implies '\0' <= #[trigger] chars[i] <= '\u{7f}' by {
        assert(is_digit(digits[i]));
    }
    is_ascii_chars_encode_utf8(chars);
    assert forall|i: int| 0 <= i < digits.len() implies encode_utf8(chars)[i] == digits[i] by {
        assert(is_digit(digits[i]));
        assert(chars[i] as u8 == encode_utf8(chars)[i]);
    }
    assert(encode_utf8(chars) =~= digits);
}

/// Publishing round trip: the arguments written for a stream and an event
/// are read as the command to publish that event on that stream.
pub proof fn lemma_publish_round_trip(stream: Seq<char>, event: Seq<u8>)
    ensures
        parse_command(encode_publish(stream, event)) == Ok::<CommandView, CommandError>(
            CommandView::Publish { stream, event },
        ),
{
    let args = encode_publish(stream, event);
    lemma_names_spell_themselves();
    encode_utf8_valid_utf8(stream);
    encode_utf8_decode_utf8(stream);
    assert(args.drop_first() =~= seq![encode_utf8(stream), event]);
}

/// Subscribing round trip: the arguments written for a stream without a
/// colon in its name and an offset that is not negative are read as the
/// command to subscribe to that stream from that offset.
///
/// A stream with a colon in its name cannot be subscribed to at all: the
/// target would part at that colon.
pub proof fn lemma_subscribe_round_trip(stream: Seq<char>, from: i64)
    requires
        from >= 0,
        !stream.contains(':'),
    ensures
        parse_command(encode_subscribe(stream, from as nat)) == Ok::<CommandView, CommandError>(
            CommandView::Subscribe { stream, from },
        ),
{
    let n = from as nat;
    let args = encode_subscribe(stream, n);
    let name = encode_utf8(stream);
    let offset = decimal_digits(n);
    lemma_names_spell_themselves();
    assert(args.drop_first() =~= seq![encode_target(stream, n)]);
    assert(encode_target(stream, n) == name + seq![COLON] + offset) by {
        lemma_encode_concat(stream + seq![':'], decimal_chars(n));
        lemma_encode_concat(stream, seq![':']);
        lemma_encode_decimal(n);
        assert(encode_utf8(seq![':']) =~= seq![COLON]) by {
            is_ascii_chars_encode_utf8(seq![':']);
        }
    }
    lemma_encoding_without_colon(stream);
    lemma_target_parts_at_first_colon(name, offset);
    encode_utf8_valid_utf8(stream);
    encode_utf8_decode_utf8(stream);
    assert(valid_utf8(offset)) by {
        lemma_encode_decimal(n);
        encode_utf8_valid_utf8(decimal_chars(n));
    }
    lemma_parse_decimal_digits(n);
}

/// Subscribing to the tail: the arguments written for a stream without a
/// colon in its name, with no offset, are read as the command to subscribe
/// to that stream from its tail.
pub proof fn lemma_subscribe_tail_round_trip(stream: Seq<char>)
    requires
        !stream.contains(':'),
    ensures
        parse_command(encode_subscribe_tail(stream)) == Ok::<CommandView, CommandError>(
            CommandView::Subscribe { stream, from: TAIL },
        ),
{
    let args = encode_subscribe_tail(stream);
    lemma_names_spell_themselves();
    assert(args.drop_first() =~= seq![encode_utf8(stream)]);
    lemma_encoding_without_colon(stream);
    encode_utf8(stream).index_of_first_ensures(COLON);
    encode_utf8_valid_utf8(stream);
    encode_utf8_decode_utf8(stream);
}

} // verus!
