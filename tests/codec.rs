use marsipan::codec::{parse, DecodeError, Message, MessageBody, SubMessage};
use marsipan::event::{EType, Event};
use marsipan::framing::DamnCodec;
use marsipan::text::decoded_or_raw;

#[test]
fn parse_basic() {
    assert_eq!(
        parse(b"foo bar\nbaz=qux\n\nthis is the body\0"),
        Ok(Message {
            name: b"foo".to_vec(),
            argument: Some(b"bar".to_vec()),
            attrs: vec![(b"baz".to_vec(), String::from("qux"))].into_iter().collect(),
            body: Some(MessageBody(b"this is the body\0".to_vec())),
        })
    );
}

#[test]
fn parse_no_body() {
    assert_eq!(
        parse(b"foo bar\nbaz=qux\n\0"),
        Ok(Message {
            name: b"foo".to_vec(),
            argument: Some(b"bar".to_vec()),
            attrs: vec![(b"baz".to_vec(), String::from("qux"))].into_iter().collect(),
            body: None,
        })
    );
}

#[test]
fn parse_empty_attr() {
    assert_eq!(
        parse(b"foo\nbaz=\n\0"),
        Ok(Message {
            name: b"foo".to_vec(),
            argument: None,
            attrs: vec![(b"baz".to_vec(), String::from(""))].into_iter().collect(),
            body: None,
        })
    )
}

#[test]
fn parse_no_attrs() {
    assert_eq!(
        parse(b"foo bar\n\0"),
        Ok(Message {
            name: b"foo".to_vec(),
            argument: Some(b"bar".to_vec()),
            attrs: Vec::new(),
            body: None,
        })
    );
}

#[test]
fn parse_no_arg() {
    assert_eq!(
        parse(b"foo\n\0"),
        Ok(Message { name: b"foo".to_vec(), argument: None, attrs: Vec::new(), body: None })
    );
}

#[test]
fn parse_sub() {
    let msg = parse(b"foo\n\na=b\nc=d\n\0").unwrap().body.expect("no body");
    assert_eq!(
        msg.submessage(),
        Ok(SubMessage {
            name: None,
            argument: None,
            attrs: vec![
                (b"a".to_vec(), String::from("b")),
                (b"c".to_vec(), String::from("d"))
            ]
            .into_iter()
            .collect(),
            body: None,
        })
    )
}

#[test]
fn parse_server_greeting() {
    assert_eq!(
        parse(b"dAmnServer\npk=123\n\0"),
        Ok(Message {
            name: b"dAmnServer".to_vec(),
            argument: None,
            attrs: vec![(b"pk".to_vec(), String::from("123"))],
            body: None,
        })
    );
}

#[test]
fn parse_recv_and_classify() {
    let msg = parse(b"recv chat:x\n\nmsg main\nfrom=bob\n\nhello\0").unwrap();
    assert_eq!(msg.name, b"recv".to_vec());
    assert_eq!(msg.argument, Some(b"chat:x".to_vec()));
    let sub = msg.submessage().expect("a submessage");
    assert_eq!(
        sub,
        SubMessage {
            name: Some(b"msg".to_vec()),
            argument: Some(b"main".to_vec()),
            attrs: vec![(b"from".to_vec(), String::from("bob"))],
            body: Some(MessageBody(b"hello\0".to_vec())),
        }
    );
    assert_eq!(sub.body.unwrap().to_string(), "hello");
    let ev = Event::classify(&msg, b"participle").expect("an event");
    assert_eq!(ev.ty, EType::Message);
    assert_eq!(ev.chatroom, b"chat:x".to_vec());
    assert_eq!(ev.sender, b"bob".to_vec());
    assert_eq!(ev.message, "hello");
}

#[test]
fn recv_with_second_nul_is_two_frames() {
    let raw = b"recv chat:x\n\nmsg main\nfrom=bob\n\nhello\0\0";
    assert_eq!(parse(raw), Err(DecodeError::Trailing));
    let mut buf = raw.to_vec();
    let mut codec = DamnCodec;
    let first = codec.decode(&mut buf).unwrap().unwrap();
    assert_eq!(first.name, b"recv".to_vec());
    assert_eq!(buf, b"\0".to_vec());
    assert_eq!(codec.decode(&mut buf), Err(DecodeError::Malformed));
    assert!(buf.is_empty());
}

#[test]
fn framing_waits_for_nul() {
    let mut buf = b"foo bar\n".to_vec();
    let mut codec = DamnCodec;
    assert_eq!(codec.decode(&mut buf), Ok(None));
    assert_eq!(buf, b"foo bar\n".to_vec());
    buf.extend_from_slice(b"\0ping\n\0");
    let m = codec.decode(&mut buf).unwrap().unwrap();
    assert_eq!(m.argument, Some(b"bar".to_vec()));
    assert_eq!(buf, b"ping\n\0".to_vec());
    let mut out = Vec::new();
    codec.encode(m, &mut out);
    assert_eq!(out, b"foo bar\n\0".to_vec());
}

#[test]
fn classify_join_part_and_drops() {
    let join = parse(b"recv chat:x\n\njoin alice\npc=Guests\n\0").unwrap();
    let ev = Event::classify(&join, b"participle").unwrap();
    assert_eq!(ev.ty, EType::Join);
    assert_eq!(ev.sender, b"alice".to_vec());
    assert_eq!(ev.message, "");
    let part = parse(b"recv chat:x\n\npart alice\n\0").unwrap();
    assert_eq!(Event::classify(&part, b"participle").unwrap().ty, EType::Part);
    let own = parse(b"recv chat:x\n\nmsg main\nfrom=participle\n\nhi\0").unwrap();
    assert!(Event::classify(&own, b"participle").is_none());
    let other = parse(b"recv chat:x\n\nkicked bob\nby=carol\n\0").unwrap();
    assert!(Event::classify(&other, b"participle").is_none());
    let action = parse(b"recv chat:x\n\naction main\nfrom=bob\n\n&i\twaves&/i\t\0").unwrap();
    let ev = Event::classify(&action, b"participle").unwrap();
    assert_eq!(ev.ty, EType::Action);
    assert_eq!(ev.message, "<i>waves</i>");
    let no_room = parse(b"recv\n\nmsg main\nfrom=bob\n\nhi\0").unwrap();
    assert!(Event::classify(&no_room, b"participle").is_none());
    let no_sender = parse(b"recv chat:x\n\nmsg main\n\nhi\0").unwrap();
    assert!(Event::classify(&no_sender, b"participle").is_none());
}

#[test]
fn round_trip_keeps_message() {
    let frame = b"recv chat:x\nb=2\na=1\n\nmsg main\nfrom=bob\n\nhello\0";
    let first = parse(frame).unwrap();
    let bytes = first.as_bytes();
    assert_eq!(bytes, frame.to_vec());
    assert_eq!(parse(&bytes), Ok(first));
}

#[test]
fn equality_ignores_attribute_order() {
    let a = parse(b"x\na=1\nb=2\n\0").unwrap();
    let b = parse(b"x\nb=2\na=1\n\0").unwrap();
    assert_eq!(a, b);
    let c = parse(b"x\na=1\nb=3\n\0").unwrap();
    assert_ne!(a, c);
    let d = parse(b"x\na=0\nb=2\na=1\n\0").unwrap();
    assert_eq!(a, d);
    assert_eq!(d.get_attr(b"a"), Some("1"));
}

#[test]
fn malformed_frames_fail() {
    assert_eq!(parse(b"foo bar\n"), Err(DecodeError::Malformed));
    assert_eq!(parse(b"foo\nbaz=qux\n"), Err(DecodeError::Malformed));
    assert_eq!(parse(b""), Err(DecodeError::Malformed));
    assert_eq!(parse(b"\0"), Err(DecodeError::Malformed));
    assert_eq!(parse(b"foo\nX\0"), Err(DecodeError::Malformed));
    assert_eq!(parse(b"foo\n\0x"), Err(DecodeError::Trailing));
    assert_eq!(parse(b"foo\n\nbody\0more"), Err(DecodeError::Trailing));
}

#[test]
fn attribute_values_are_decoded() {
    let m = parse(b"x\nt=a &amp; b\nu=&bogus;\n\0").unwrap();
    assert_eq!(m.get_attr(b"t"), Some("a & b"));
    assert_eq!(m.get_attr(b"u"), Some("&bogus;"));
    assert!(m.has_attr(b"t"));
    assert!(!m.has_attr(b"v"));
    assert!(m.has_attr_of(b"t", "a & b"));
    assert!(!m.has_attr_of(b"t", "a &amp; b"));
}

#[test]
fn body_text_is_trimmed_and_decoded() {
    assert_eq!(MessageBody(b"hi &lt;3\n\0".to_vec()).to_string(), "hi <3");
    assert_eq!(MessageBody(b"hi\0".to_vec()).to_string(), "hi");
    assert_eq!(MessageBody(b"hi".to_vec()).to_string(), "hi");
    assert_eq!(MessageBody(Vec::new()).to_string(), "");
    assert_eq!(
        MessageBody(b"plain &b\ttext&/b\tmore\0".to_vec()).to_string(),
        "plain <b>text</b>more"
    );
}

#[test]
fn submessage_errors() {
    assert_eq!(MessageBody(b"a=b\nzz\0".to_vec()).submessage(), Err(DecodeError::Malformed));
    assert_eq!(MessageBody(b"a=b\n\0x".to_vec()).submessage(), Err(DecodeError::Trailing));
    let m = parse(b"foo\n\n!!\0").unwrap();
    assert!(m.submessage().is_none());
}

#[test]
fn decoder_result_or_raw_text() {
    assert_eq!(decoded_or_raw("a&x;".to_string(), None), "a&x;");
    assert_eq!(decoded_or_raw("a&amp;".to_string(), Some("a&".to_string())), "a&");
}

#[test]
fn latin1_values_round_trip() {
    let frame = b"x\na=caf\xe9\n\0";
    let m = parse(frame).unwrap();
    assert_eq!(m.get_attr(b"a"), Some("caf\u{e9}"));
    assert_eq!(m.as_bytes(), frame.to_vec());
    assert_eq!(parse(&m.as_bytes()), Ok(m));
    let wide = Message {
        name: b"x".to_vec(),
        argument: None,
        attrs: vec![(b"a".to_vec(), String::from("\u{263a}"))],
        body: None,
    };
    assert_eq!(wide.as_bytes(), b"x\na=\xe2\x98\xba\n\0".to_vec());
}
