use vibrato_server::address::{resolve_feature, EntryAddress, FeatureError, OriginClass};
use vibrato_server::offsets::{chars_of, utf8_width};
use vibrato_server::projection::{project_tokens, EngineToken, ProjectionError};

fn engine(id: u32, origin: OriginClass, chars: [usize; 2], bytes: [usize; 2]) -> EngineToken {
    EngineToken {
        address: EntryAddress { id, origin },
        char_start: chars[0],
        char_end: chars[1],
        byte_start: bytes[0],
        byte_end: bytes[1],
    }
}

#[test]
fn project_copies_surfaces_and_codes() {
    let text = "héllo";
    let raw = vec![
        engine(4, OriginClass::System, [0, 2], [0, 3]),
        engine(9, OriginClass::User, [2, 5], [3, 6]),
    ];
    let tokens = project_tokens(text, &raw).unwrap();
    assert_eq!(tokens.len(), 2);
    assert_eq!(tokens[0].surface, "hé");
    assert_eq!(tokens[0].id, 4);
    assert_eq!(tokens[0].lex_type, 1);
    assert_eq!(tokens[0].range_char, [0, 2]);
    assert_eq!(tokens[0].range_byte, [0, 3]);
    assert_eq!(tokens[1].surface, "llo");
    assert_eq!(tokens[1].lex_type, 2);
    assert_eq!(tokens[1].range_byte, [3, 6]);
}

#[test]
fn project_empty_text() {
    assert_eq!(project_tokens("", &vec![]).unwrap().len(), 0);
    let raw = vec![engine(0, OriginClass::Unknown, [0, 0], [0, 0])];
    assert_eq!(project_tokens("", &raw).unwrap_err(), ProjectionError::NotTiling);
}

#[test]
fn project_rejects_gap() {
    let raw = vec![
        engine(0, OriginClass::System, [0, 1], [0, 1]),
        engine(1, OriginClass::System, [2, 3], [2, 3]),
    ];
    assert_eq!(project_tokens("abc", &raw).unwrap_err(), ProjectionError::NotTiling);
}

#[test]
fn project_rejects_overlap_and_short_cover() {
    let overlap = vec![
        engine(0, OriginClass::System, [0, 2], [0, 2]),
        engine(1, OriginClass::System, [1, 3], [1, 3]),
    ];
    assert_eq!(project_tokens("abc", &overlap).unwrap_err(), ProjectionError::NotTiling);
    let short = vec![engine(0, OriginClass::System, [0, 2], [0, 2])];
    assert_eq!(project_tokens("abc", &short).unwrap_err(), ProjectionError::NotTiling);
    assert_eq!(project_tokens("abc", &vec![]).unwrap_err(), ProjectionError::NotTiling);
}

#[test]
fn project_rejects_wrong_byte_span() {
    let raw = vec![
        engine(0, OriginClass::System, [0, 2], [0, 2]),
        engine(1, OriginClass::System, [2, 5], [2, 6]),
    ];
    assert_eq!(project_tokens("héllo", &raw).unwrap_err(), ProjectionError::ByteSpanMismatch);
    let start = vec![engine(0, OriginClass::System, [0, 1], [1, 4])];
    assert_eq!(project_tokens("東", &start).unwrap_err(), ProjectionError::ByteSpanMismatch);
}

#[test]
fn widths_follow_utf8() {
    assert_eq!(utf8_width('a'), 1);
    assert_eq!(utf8_width('é'), 2);
    assert_eq!(utf8_width('東'), 3);
    assert_eq!(utf8_width('😀'), 4);
    assert_eq!(chars_of("a東😀"), vec!['a', '東', '😀']);
}

#[test]
fn origin_codes() {
    assert_eq!(OriginClass::Unknown.code(), 0);
    assert_eq!(OriginClass::System.code(), 1);
    assert_eq!(OriginClass::User.code(), 2);
}

#[test]
fn feature_selector_defaults_to_system() {
    let a = EntryAddress::from_request(0, None);
    assert_eq!(a, EntryAddress { id: 0, origin: OriginClass::System });
    assert_eq!(EntryAddress::from_request(5, Some(1)).origin, OriginClass::System);
    assert_eq!(EntryAddress::from_request(5, Some(2)).origin, OriginClass::User);
    assert_eq!(EntryAddress::from_request(5, Some(0)).origin, OriginClass::Unknown);
}

#[test]
fn feature_selector_unrecognised_is_unknown() {
    let a = EntryAddress::from_request(99, Some(99));
    assert_eq!(a.origin, OriginClass::Unknown);
    assert_eq!(a.id, 99);
    assert_eq!(resolve_feature(a, None), Err(FeatureError::UnknownAddress(a)));
}

#[test]
fn feature_found_is_returned_unchanged() {
    let a = EntryAddress::from_request(0, None);
    assert_eq!(resolve_feature(a, Some("noun,*".to_string())), Ok("noun,*".to_string()));
    assert_eq!(resolve_feature(a, Some(String::new())), Ok(String::new()));
}
