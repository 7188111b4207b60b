use chat::msg::{ClientMessageParseError, FromClient};
use chat::room_id::{RoomId, RoomIdParseError};
use chat::room_name::RoomName;

#[test]
fn join_reads_the_identifier_in_hex() {
    assert_eq!(FromClient::from_str("!join 1a"), Ok(FromClient::Join(RoomId::new(26))));
    assert_eq!(FromClient::from_str("!join   FF  "), Ok(FromClient::Join(RoomId::new(255))));
    assert_eq!(FromClient::from_str("!join1a"), Ok(FromClient::Join(RoomId::new(26))));
}

#[test]
fn join_with_a_bad_identifier_is_an_error() {
    let bad = Err(ClientMessageParseError::RoomIdParseError(RoomIdParseError));
    assert_eq!(FromClient::from_str("!join zz"), bad);
    assert_eq!(FromClient::from_str("!join"), bad);
    assert_eq!(FromClient::from_str("!join 1 a"), bad);
    assert_eq!(FromClient::from_str("!join 100000000"), bad);
}

#[test]
fn leave_takes_no_argument() {
    assert_eq!(FromClient::from_str("!leave"), Ok(FromClient::Leave));
    assert_eq!(FromClient::from_str("!leave   "), Ok(FromClient::Leave));
    assert_eq!(
        FromClient::from_str("!leave extra"),
        Err(ClientMessageParseError::TooManyArgs)
    );
    assert_eq!(FromClient::from_str("!leaves"), Err(ClientMessageParseError::TooManyArgs));
}

#[test]
fn plain_and_escaped_lines_are_messages() {
    assert_eq!(FromClient::from_str("hello"), Ok(FromClient::Message("hello".to_string())));
    assert_eq!(FromClient::from_str("!!bang"), Ok(FromClient::Message("bang".to_string())));
    assert_eq!(FromClient::from_str(""), Ok(FromClient::Message(String::new())));
    assert_eq!(FromClient::from_str("!!"), Ok(FromClient::Message(String::new())));
    assert_eq!(FromClient::from_str("!!!x"), Ok(FromClient::Message("!x".to_string())));
    assert_eq!(
        FromClient::from_str("  padded  "),
        Ok(FromClient::Message("  padded  ".to_string()))
    );
    assert_eq!(FromClient::from_str(" !join 1"), Ok(FromClient::Message(" !join 1".to_string())));
}

#[test]
fn create_carries_the_trimmed_name() {
    assert_eq!(
        FromClient::from_str("!create Lobby"),
        Ok(FromClient::Create(RoomName::from("Lobby")))
    );
    assert_eq!(
        FromClient::from_str("!create   The Lobby \t"),
        Ok(FromClient::Create(RoomName::from("The Lobby")))
    );
}

#[test]
fn create_without_a_name_generates_one() {
    for line in ["!create", "!create ", "!create \t \u{a0}"] {
        match FromClient::from_str(line) {
            Ok(FromClient::Create(name)) => {
                let text = name.to_string();
                assert!(text.starts_with("room-"));
                assert!(text.len() > "room-".len());
            }
            other => panic!("{:?}", other),
        }
        assert_eq!(
            FromClient::from_str_with(line, 42),
            Ok(FromClient::Create(RoomName::with_fallback("", 42)))
        );
    }
    assert_eq!(
        FromClient::from_str_with("!create", 42),
        Ok(FromClient::Create(RoomName::from("room-42")))
    );
}

#[test]
fn name_carries_the_trimmed_name() {
    assert_eq!(FromClient::from_str("!name bob"), Ok(FromClient::Name("bob".to_string())));
    assert_eq!(FromClient::from_str("!name   bob b  "), Ok(FromClient::Name("bob b".to_string())));
    assert_eq!(FromClient::from_str("!name"), Ok(FromClient::Name(String::new())));
}

#[test]
fn other_words_are_unknown() {
    assert_eq!(FromClient::from_str("!"), Err(ClientMessageParseError::Unknown));
    assert_eq!(FromClient::from_str("!quit"), Err(ClientMessageParseError::Unknown));
    assert_eq!(FromClient::from_str("! join 1"), Err(ClientMessageParseError::Unknown));
    assert_eq!(FromClient::from_str("!Join 1"), Err(ClientMessageParseError::Unknown));
    assert_eq!(FromClient::from_str("!creat"), Err(ClientMessageParseError::Unknown));
}

#[test]
fn arguments_are_trimmed_as_the_standard_library_trims() {
    let paddings = ["", " ", "\t", "\n", "\r\n", "\u{b}", "\u{c}", "\u{85}", "\u{a0}", "\u{1680}",
        "\u{2000}", "\u{200a}", "\u{2028}", "\u{2029}", "\u{202f}", "\u{205f}", "\u{3000}",
        "\u{200b}", "\u{feff}", "\u{180e}", "x"];
    for left in paddings {
        for right in paddings {
            let arg = format!("{}a b{}", left, right);
            let line = format!("!name{}", arg);
            assert_eq!(
                FromClient::from_str(&line),
                Ok(FromClient::Name(arg.trim().to_string())),
                "{:?}",
                line
            );
        }
    }
}

#[test]
fn errors_read_as_sentences() {
    assert_eq!(ClientMessageParseError::Unknown.to_string(), "Unknown command");
    assert_eq!(
        ClientMessageParseError::RoomIdParseError(RoomIdParseError).to_string(),
        "Invalid room id"
    );
    assert_eq!(ClientMessageParseError::TooManyArgs.to_string(), "Too many arguments");
}

#[test]
fn a_copy_of_a_message_equals_it() {
    let messages = [
        FromClient::Name("bob".to_string()),
        FromClient::Message("hi".to_string()),
        FromClient::Create(RoomName::from("Lobby")),
        FromClient::Join(RoomId::new(26)),
        FromClient::Leave,
    ];
    for m in messages.iter() {
        assert_eq!(&m.clone(), m);
    }
}
