use chat::room_id::{RoomId, RoomIdParseError};

#[test]
fn hex_text_reads_as_number() {
    assert_eq!(RoomId::from_str("1a"), Ok(RoomId::new(26)));
    assert_eq!(RoomId::from_str("1A"), Ok(RoomId::new(26)));
    assert_eq!(RoomId::from_str("0"), Ok(RoomId::new(0)));
    assert_eq!(RoomId::from_str("ffffffff"), Ok(RoomId::new(u32::MAX)));
    assert_eq!(RoomId::from_str("+ff"), Ok(RoomId::new(255)));
    assert_eq!(RoomId::from_str("000000000010"), Ok(RoomId::new(16)));
}

#[test]
fn invalid_text_is_rejected() {
    assert_eq!(RoomId::from_str("zz"), Err(RoomIdParseError));
    assert_eq!(RoomId::from_str(""), Err(RoomIdParseError));
    assert_eq!(RoomId::from_str("+"), Err(RoomIdParseError));
    assert_eq!(RoomId::from_str("-1"), Err(RoomIdParseError));
    assert_eq!(RoomId::from_str(" 1a"), Err(RoomIdParseError));
    assert_eq!(RoomId::from_str("1a "), Err(RoomIdParseError));
    assert_eq!(RoomId::from_str("0x1a"), Err(RoomIdParseError));
    assert_eq!(RoomId::from_str("1_a"), Err(RoomIdParseError));
    assert_eq!(RoomId::from_str("100000000"), Err(RoomIdParseError));
}

#[test]
fn reading_agrees_with_the_standard_radix_parser() {
    let samples = [
        "", "+", "-", "++1", "+-1", "0", "00", "+0", "-0", "a", "A", "g", "G", "f", "F", "1a", "1A",
        "zz", "7fffffff", "80000000", "ffffffff", "FFFFFFFF", "100000000", "0ffffffff",
        "00000000000000000001", "fffffffff", "deadbeef", "DeAdBeEf", " 1", "1 ", "1\n", "\t1",
        "0x10", "1_0", "1.0", "１", "٣", "é", "1é", "+ffffffff", "+100000000", "123456789",
        "12345678", "abcdefab", "abcdefg",
    ];
    for s in samples {
        let expected = u32::from_str_radix(s, 16).ok();
        let got = RoomId::from_str(s).ok().map(|id| id.as_u32());
        assert_eq!(got, expected, "{:?}", s);
    }
}

#[test]
fn text_form_is_lower_case_hex_without_padding() {
    assert_eq!(RoomId::new(26).to_string(), "1a");
    assert_eq!(RoomId::new(0).to_string(), "0");
    assert_eq!(RoomId::new(16).to_string(), "10");
    assert_eq!(RoomId::new(255).to_string(), "ff");
    assert_eq!(RoomId::new(0xdead_beef).to_string(), "deadbeef");
    assert_eq!(RoomId::new(u32::MAX).to_string(), "ffffffff");
}

#[test]
fn text_form_reads_back() {
    let mut n: u32 = 1;
    for _ in 0..2000 {
        let id = RoomId::new(n);
        assert_eq!(id.to_string(), format!("{:x}", n));
        assert_eq!(RoomId::from_str(&id.to_string()), Ok(id));
        n = n.wrapping_mul(2_654_435_761).wrapping_add(12345);
    }
}

#[test]
fn identifier_keeps_its_number() {
    assert_eq!(RoomId::new(26).as_u32(), 26);
    assert_eq!(RoomId::new(26), RoomId::new(26));
    assert_ne!(RoomId::new(26), RoomId::new(27));
}
