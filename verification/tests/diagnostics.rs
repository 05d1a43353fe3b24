use meilies::command::{Command, CommandError};
use meilies::decimal::{decimal_string, parse_decimal_i64, signed_decimal_string};
use meilies::diagnostics::{
    byte_list_string, publish_string, subscribe_string, utf8_failure_string,
};

#[test]
fn publish_with_a_text_event_is_described_with_the_text() {
    let command = Command::Publish { stream: "orders".to_string(), event: b"hello".to_vec() };
    assert_eq!(command.describe(), "Publish { stream: \"orders\", event: \"hello\" }");
}

#[test]
fn publish_with_a_binary_event_is_described_with_the_bytes() {
    let command = Command::Publish { stream: "orders".to_string(), event: vec![255, 0, 104] };
    assert_eq!(command.describe(), "Publish { stream: \"orders\", event: [255, 0, 104] }");
}

#[test]
fn publish_with_an_empty_event() {
    let command = Command::Publish { stream: String::new(), event: Vec::new() };
    assert_eq!(command.describe(), "Publish { stream: \"\", event: \"\" }");
}

#[test]
fn subscribe_is_described_with_its_offset() {
    let tail = Command::Subscribe { stream: "orders".to_string(), from: -1 };
    assert_eq!(tail.describe(), "Subscribe { stream: \"orders\", from: -1 }");
    let from = Command::Subscribe { stream: "orders".to_string(), from: 42 };
    assert_eq!(from.describe(), "Subscribe { stream: \"orders\", from: 42 }");
}

#[test]
fn quotes_and_line_breaks_are_escaped() {
    let command = Command::Subscribe { stream: "a\"b\n".to_string(), from: 0 };
    assert_eq!(command.describe(), "Subscribe { stream: \"a\\\"b\\n\", from: 0 }");
}

#[test]
fn description_is_the_derived_one_but_for_the_event() {
    let command = Command::Subscribe { stream: "caf\u{e9}\t".to_string(), from: i64::MIN };
    assert_eq!(command.describe(), format!("{:?}", command));
}

#[test]
fn commands_from_their_shown_parts() {
    assert_eq!(publish_string("<s>", "<e>"), "Publish { stream: <s>, event: <e> }");
    assert_eq!(subscribe_string("<s>", 7), "Subscribe { stream: <s>, from: 7 }");
    assert_eq!(subscribe_string("", -7), "Subscribe { stream: , from: -7 }");
}

#[test]
fn byte_lists() {
    assert_eq!(byte_list_string(&[]), "[]");
    assert_eq!(byte_list_string(&[0]), "[0]");
    assert_eq!(byte_list_string(&[1, 20, 255]), "[1, 20, 255]");
    assert_eq!(byte_list_string(&[9, 10, 99, 100]), format!("{:?}", [9u8, 10, 99, 100]));
}

#[test]
fn error_messages() {
    assert_eq!(CommandError::CommandNotFound.message(), "command not found");
    assert_eq!(CommandError::MissingCommandName.message(), "missing command name");
    assert_eq!(
        CommandError::InvalidNumberOfArguments { expected: 2 }.message(),
        "invalid number of arguments (expected 2)"
    );
    assert_eq!(
        CommandError::InvalidNumberOfArguments { expected: 120 }.message(),
        "invalid number of arguments (expected 120)"
    );
    assert_eq!(
        CommandError::InvalidUtf8String { valid_up_to: 3, error_len: Some(1) }.message(),
        "invalid utf8 string: invalid utf-8 sequence of 1 bytes from index 3"
    );
    assert_eq!(
        CommandError::InvalidUtf8String { valid_up_to: 12, error_len: Some(3) }.message(),
        "invalid utf8 string: invalid utf-8 sequence of 3 bytes from index 12"
    );
    assert_eq!(
        CommandError::InvalidUtf8String { valid_up_to: 0, error_len: None }.message(),
        "invalid utf8 string: incomplete utf-8 byte sequence from index 0"
    );
    assert_eq!(CommandError::InvalidOffset.message(), "invalid offset");
}

#[test]
fn message_of_a_failed_request() {
    let error = Command::from_args(vec![b"publish".to_vec(), b"a\xffb".to_vec(), Vec::new()]);
    assert_eq!(
        error.unwrap_err().message(),
        "invalid utf8 string: invalid utf-8 sequence of 1 bytes from index 1"
    );
    let cut_short = Command::from_args(vec![b"subscribe".to_vec(), b"caf\xc3".to_vec()]);
    assert_eq!(
        cut_short.unwrap_err().message(),
        "invalid utf8 string: incomplete utf-8 byte sequence from index 3"
    );
}

#[test]
fn utf8_failures_in_the_words_of_the_standard_library() {
    let samples: [&[u8]; 6] = [
        b"\xff",
        b"a\xc3",
        b"ab\xe2\x28\xa1",
        b"\xf0\x9f\x98",
        b"\xed\xa0\x80",
        b"0123456789\xf4\x90\x80\x80",
    ];
    for sample in samples {
        let cause = std::str::from_utf8(sample).unwrap_err();
        assert_eq!(
            utf8_failure_string(cause.valid_up_to(), cause.error_len()),
            format!("{}", cause)
        );
        let error = Command::from_args(vec![sample.to_vec()]).unwrap_err();
        assert_eq!(error.message(), format!("invalid utf8 string: {}", cause));
    }
}

#[test]
fn numbers_in_base_ten() {
    assert_eq!(decimal_string(0), "0");
    assert_eq!(decimal_string(7), "7");
    assert_eq!(decimal_string(10), "10");
    assert_eq!(decimal_string(1234567890), "1234567890");
    assert_eq!(decimal_string(u64::MAX), "18446744073709551615");
    assert_eq!(signed_decimal_string(0), "0");
    assert_eq!(signed_decimal_string(-1), "-1");
    assert_eq!(signed_decimal_string(305), "305");
    assert_eq!(signed_decimal_string(i64::MAX), "9223372036854775807");
    assert_eq!(signed_decimal_string(i64::MIN), "-9223372036854775808");
}

#[test]
fn numerals_are_read() {
    assert_eq!(parse_decimal_i64(b"0"), Some(0));
    assert_eq!(parse_decimal_i64(b"42"), Some(42));
    assert_eq!(parse_decimal_i64(b"+42"), Some(42));
    assert_eq!(parse_decimal_i64(b"-42"), Some(-42));
    assert_eq!(parse_decimal_i64(b"-0"), Some(0));
    assert_eq!(parse_decimal_i64(b"0000000000000000000000012"), Some(12));
    assert_eq!(parse_decimal_i64(b"9223372036854775807"), Some(i64::MAX));
    assert_eq!(parse_decimal_i64(b"-9223372036854775808"), Some(i64::MIN));
}

#[test]
fn what_is_no_numeral_is_not_read() {
    assert_eq!(parse_decimal_i64(b""), None);
    assert_eq!(parse_decimal_i64(b"+"), None);
    assert_eq!(parse_decimal_i64(b"-"), None);
    assert_eq!(parse_decimal_i64(b"+-1"), None);
    assert_eq!(parse_decimal_i64(b"1+"), None);
    assert_eq!(parse_decimal_i64(b"12a"), None);
    assert_eq!(parse_decimal_i64(b"a12"), None);
    assert_eq!(parse_decimal_i64(b"/"), None);
    assert_eq!(parse_decimal_i64(b":"), None);
    assert_eq!(parse_decimal_i64(b" 1"), None);
    assert_eq!(parse_decimal_i64("\u{661}".as_bytes()), None);
    assert_eq!(parse_decimal_i64(b"9223372036854775808"), None);
    assert_eq!(parse_decimal_i64(b"-9223372036854775809"), None);
    assert_eq!(parse_decimal_i64(b"92233720368547758070"), None);
    assert_eq!(parse_decimal_i64(b"9223372036854775808x"), None);
}

#[test]
fn numerals_are_read_as_the_standard_library_reads_them() {
    let samples: [&str; 14] = [
        "", "+", "-", "0", "-0", "+0", "007", "12", "-12", "+12", "1_0", "1e3",
        "9223372036854775807", "9223372036854775808",
    ];
    for sample in samples {
        assert_eq!(parse_decimal_i64(sample.as_bytes()), i64::from_str_radix(sample, 10).ok());
    }
}

#[test]
fn what_is_written_is_read_back() {
    for n in [0i64, 1, 9, 10, 99, 100, 4096, i64::MAX] {
        assert_eq!(parse_decimal_i64(signed_decimal_string(n).as_bytes()), Some(n));
        let target = format!("orders:{}", decimal_string(n as u64));
        assert_eq!(
            Command::from_args(vec![b"subscribe".to_vec(), target.into_bytes()]),
            Ok(Command::Subscribe { stream: "orders".to_string(), from: n })
        );
    }
    for n in [-1i64, -10, i64::MIN] {
        assert_eq!(parse_decimal_i64(signed_decimal_string(n).as_bytes()), Some(n));
    }
}

#[test]
fn publish_round_trip() {
    let samples =
        [("orders", &b"hello"[..]), ("", b""), ("a:b", b"\xff\x00"), ("\u{1f600}", b":")];
    for (stream, event) in samples {
        let written = vec![b"publish".to_vec(), stream.as_bytes().to_vec(), event.to_vec()];
        assert_eq!(
            Command::from_args(written),
            Ok(Command::Publish { stream: stream.to_string(), event: event.to_vec() })
        );
    }
}
