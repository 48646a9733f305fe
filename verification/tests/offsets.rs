use message_entities::entity::{MessageEntity, MessageEntityKind};
use message_entities::resolve::{InvalidOffset, MessageEntityRef};

fn ranges(text: &str, entities: &[MessageEntity]) -> Vec<(usize, usize)> {
    MessageEntityRef::parse(text, entities)
        .unwrap()
        .iter()
        .map(|e| (e.start(), e.end()))
        .collect()
}

#[test]
fn hello_bold_whole_text() {
    let entities = [MessageEntity::bold(0, 5)];
    let parsed = MessageEntityRef::parse("hello", &entities).unwrap();
    assert_eq!(parsed.len(), 1);
    assert_eq!(parsed[0].text(), "hello");
    assert_eq!(parsed[0].range(), 0..5);
    assert_eq!(parsed[0].kind(), &MessageEntityKind::Bold);
}

#[test]
fn cyrillic_byte_ranges() {
    let entities = [
        MessageEntity::strikethrough(0, 1),
        MessageEntity::bold(1, 1),
        MessageEntity::italic(2, 1),
        MessageEntity::code(3, 1),
    ];
    assert_eq!(
        ranges("быба", &entities),
        vec![(0, 2), (2, 4), (4, 6), (6, 8)]
    );
}

#[test]
fn three_byte_letter_before_hashtag() {
    let entities = [MessageEntity::new(MessageEntityKind::Hashtag, 5, 3)];
    assert_eq!(ranges("xx আ #tt", &entities), vec![(7, 10)]);
}

#[test]
fn surrogate_pair_counts_two_units_and_four_bytes() {
    let text = "a😀b";
    let entities = [
        MessageEntity::bold(0, 1),
        MessageEntity::italic(1, 2),
        MessageEntity::code(3, 1),
        MessageEntity::underline(0, 4),
    ];
    let parsed = MessageEntityRef::parse(text, &entities).unwrap();
    assert_eq!(parsed[0].text(), "a");
    assert_eq!(parsed[1].text(), "😀");
    assert_eq!(parsed[1].range(), 1..5);
    assert_eq!(parsed[2].text(), "b");
    assert_eq!(parsed[2].range(), 5..6);
    assert_eq!(parsed[3].text(), text);
    assert_eq!(parsed[3].range(), 0..6);
}

#[test]
fn offset_inside_surrogate_pair_is_rejected() {
    let start_inside = [MessageEntity::bold(2, 1)];
    assert_eq!(
        MessageEntityRef::parse("a😀b", &start_inside),
        Err(InvalidOffset)
    );
    let end_inside = [MessageEntity::bold(0, 2)];
    assert_eq!(
        MessageEntityRef::parse("a😀b", &end_inside),
        Err(InvalidOffset)
    );
}

#[test]
fn offset_past_the_end_is_rejected() {
    let end_past = [MessageEntity::bold(0, 6)];
    assert_eq!(
        MessageEntityRef::parse("hello", &end_past),
        Err(InvalidOffset)
    );
    let start_past = [MessageEntity::bold(9, 0)];
    assert_eq!(
        MessageEntityRef::parse("hello", &start_past),
        Err(InvalidOffset)
    );
    let on_empty = [MessageEntity::bold(0, 1)];
    assert_eq!(MessageEntityRef::parse("", &on_empty), Err(InvalidOffset));
}

#[test]
fn one_bad_entity_fails_the_whole_call() {
    let entities = [
        MessageEntity::bold(0, 1),
        MessageEntity::italic(4, 9),
        MessageEntity::code(1, 1),
    ];
    assert_eq!(
        MessageEntityRef::parse("hello", &entities),
        Err(InvalidOffset)
    );
}

#[test]
fn span_whose_end_exceeds_the_machine_range_is_rejected() {
    let entities = [MessageEntity::bold(1, usize::MAX)];
    assert_eq!(
        MessageEntityRef::parse("hello", &entities),
        Err(InvalidOffset)
    );
}

#[test]
fn span_touching_the_end() {
    let entities = [MessageEntity::bold(3, 2), MessageEntity::italic(5, 0)];
    let parsed = MessageEntityRef::parse("héllo", &entities).unwrap();
    assert_eq!(parsed[0].text(), "lo");
    assert_eq!(parsed[0].range(), 4..6);
    assert_eq!(parsed[1].text(), "");
    assert_eq!(parsed[1].range(), 6..6);
}

#[test]
fn zero_length_span_in_the_middle() {
    let entities = [MessageEntity::bold(2, 0)];
    let parsed = MessageEntityRef::parse("быба", &entities).unwrap();
    assert_eq!(parsed[0].text(), "");
    assert_eq!(parsed[0].range(), 4..4);
    assert_eq!(parsed[0].len(), 0);
}

#[test]
fn order_and_kinds_are_kept() {
    let entities = [
        MessageEntity::code(4, 1),
        MessageEntity::bold(0, 1),
        MessageEntity::spoiler(2, 2),
        MessageEntity::pre(Some("rust".to_string()), 1, 1),
    ];
    let parsed = MessageEntityRef::parse("hello", &entities).unwrap();
    assert_eq!(parsed.len(), entities.len());
    for (entity, resolved) in entities.iter().zip(parsed.iter()) {
        assert_eq!(resolved.kind(), &entity.kind);
        assert_eq!(resolved.message_text(), "hello");
    }
    assert_eq!(
        ranges("hello", &entities),
        vec![(4, 5), (0, 1), (2, 4), (1, 2)]
    );
}

#[test]
fn ends_are_character_boundaries() {
    let text = "a😀быআ z";
    let entities = [
        MessageEntity::bold(0, 3),
        MessageEntity::italic(1, 4),
        MessageEntity::code(3, 3),
        MessageEntity::underline(6, 2),
    ];
    for resolved in MessageEntityRef::parse(text, &entities).unwrap() {
        assert!(text.is_char_boundary(resolved.start()));
        assert!(text.is_char_boundary(resolved.end()));
        assert!(resolved.start() <= resolved.end());
        assert_eq!(resolved.text(), &text[resolved.range()]);
    }
}

#[test]
fn resolved_text_has_the_declared_length() {
    let text = "a😀быআ z";
    let entities = [
        MessageEntity::bold(0, 3),
        MessageEntity::italic(1, 4),
        MessageEntity::code(3, 3),
        MessageEntity::underline(6, 2),
    ];
    let parsed = MessageEntityRef::parse(text, &entities).unwrap();
    for (entity, resolved) in entities.iter().zip(parsed.iter()) {
        assert_eq!(resolved.text().encode_utf16().count(), entity.length);
        assert_eq!(resolved.text().len(), resolved.len());
        assert_eq!(resolved.len(), resolved.end() - resolved.start());
    }
    assert_eq!(parsed[1].text(), "😀бы");
    assert_eq!(parsed[1].len(), 8);
}

#[test]
fn overlapping_spans_stay_overlapping() {
    let entities = [MessageEntity::bold(0, 3), MessageEntity::italic(2, 3)];
    let parsed = MessageEntityRef::parse("быба!", &entities).unwrap();
    assert_eq!(parsed.len(), 2);
    assert_eq!(parsed[0].range(), 0..6);
    assert_eq!(parsed[1].range(), 4..9);
    assert!(parsed[0].start() < parsed[1].end());
    assert!(parsed[1].start() < parsed[0].end());
}

#[test]
fn equal_spans_resolve_alike() {
    let entities = [
        MessageEntity::bold(1, 2),
        MessageEntity::italic(1, 2),
        MessageEntity::code(1, 2),
    ];
    assert_eq!(ranges("быба", &entities), vec![(2, 6), (2, 6), (2, 6)]);
}

#[test]
fn ascii_offsets_are_byte_offsets() {
    let text = "plain ascii text";
    let entities = [
        MessageEntity::bold(0, 5),
        MessageEntity::italic(6, 5),
        MessageEntity::code(12, 4),
        MessageEntity::underline(0, 16),
        MessageEntity::spoiler(16, 0),
    ];
    let parsed = MessageEntityRef::parse(text, &entities).unwrap();
    for (entity, resolved) in entities.iter().zip(parsed.iter()) {
        assert_eq!(resolved.start(), entity.offset);
        assert_eq!(resolved.end(), entity.offset + entity.length);
    }
    assert_eq!(parsed[1].text(), "ascii");
}

#[test]
fn resolved_entity_can_be_cloned() {
    let entities = [MessageEntity::bold(1, 1)];
    let parsed = MessageEntityRef::parse("быба", &entities).unwrap();
    let copy = parsed[0].clone();
    assert_eq!(copy, parsed[0]);
    assert_eq!(copy.text(), "ы");
}
