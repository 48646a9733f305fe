use message_entities::entity::MessageEntityKind::{Bold, Code, Hashtag, Italic, Strikethrough};
use message_entities::entity::MessageEntity;
use message_entities::resolve::MessageEntityRef;

#[test]
fn parse_byba() {
    let entities = [
        MessageEntity {
            kind: Strikethrough,
            offset: 0,
            length: 1,
        },
        MessageEntity {
            kind: Bold,
            offset: 1,
            length: 1,
        },
        MessageEntity {
            kind: Italic,
            offset: 2,
            length: 1,
        },
        MessageEntity {
            kind: Code,
            offset: 3,
            length: 1,
        },
    ];
    let parsed = MessageEntityRef::parse("быба", &entities).unwrap();

    assert_eq!(parsed.len(), 4);
    assert!(parsed[0].text() == "б" && parsed[0].kind() == &Strikethrough);
    assert!(parsed[1].text() == "ы" && parsed[1].kind() == &Bold);
    assert!(parsed[2].text() == "б" && parsed[2].kind() == &Italic);
    assert!(parsed[3].text() == "а" && parsed[3].kind() == &Code);
}

#[test]
fn parse_symbol_24bit() {
    let entities = [MessageEntity {
        kind: Hashtag,
        offset: 5,
        length: 3,
    }];
    let parsed = MessageEntityRef::parse("xx আ #tt", &entities).unwrap();

    assert_eq!(parsed.len(), 1);
    assert!(parsed[0].text() == "#tt" && parsed[0].kind() == &Hashtag);
}

#[test]
fn parse_enclosed() {
    let entities = [
        MessageEntity {
            kind: Bold,
            offset: 0,
            length: 2,
        },
        MessageEntity {
            kind: Bold,
            offset: 2,
            length: 3,
        },
        MessageEntity {
            kind: Italic,
            offset: 2,
            length: 1,
        },
    ];
    let parsed = MessageEntityRef::parse("b i b", &entities).unwrap();

    assert_eq!(parsed.len(), 3);
    assert!(parsed[0].text() == "b " && parsed[0].kind() == &Bold);
    assert!(parsed[1].text() == "i b" && parsed[1].kind() == &Bold);
    assert!(parsed[2].text() == "i" && parsed[2].kind() == &Italic);
}

#[test]
fn parse_nothing() {
    let parsed = MessageEntityRef::parse("a", &[]).unwrap();
    assert_eq!(parsed, []);
}

#[test]
fn parse_empty() {
    let entities = [
        MessageEntity {
            kind: Bold,
            offset: 0,
            length: 0,
        },
        MessageEntity {
            kind: Italic,
            offset: 0,
            length: 0,
        },
    ];
    let parsed = MessageEntityRef::parse("", &entities).unwrap();

    assert_eq!(parsed.len(), 2);
    assert!(parsed[0].text() == "" && parsed[0].kind() == &Bold);
    assert!(parsed[1].text() == "" && parsed[1].kind() == &Italic);
}
