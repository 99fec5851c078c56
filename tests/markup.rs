use marsipan::tablumps::{collapse, notamp, render, tablumps, Either, Tablump};

fn show(s: &[u8]) -> String {
    render(tablumps(s))
}

#[test]
fn tablump_bold() {
    assert_eq!(show(b"plain &b\ttext&/b\tmore"), "plain <b>text</b>more");
}

#[test]
fn tablump_links() {
    assert_eq!(show(b"&link\thttp://x\t&\t"), "http://x");
    assert_eq!(show(b"&link\thttp://x\tX\t&\t"), "http://x (X)");
    assert_eq!(show(b"&link\thttp://x\tX\tno"), "&link\thttp://x\tX\tno");
}

#[test]
fn tablump_arguments() {
    assert_eq!(show(b"&a\thttp://x\tT\tgo&/a\t"), "<a href=\"http://x\" title=\"T\">go</a>");
    assert_eq!(show(b"&avatar\tbob\t1\t"), ":iconbob:");
    assert_eq!(show(b"&dev\t~\tbob\t"), ":devbob:");
    assert_eq!(show(b"&emote\t:)\t15\t15\tsmile\tx.gif\t"), ":)");
    assert_eq!(show(b"&thumb\t42\ta\tb\tc\td\te\t"), ":thumb42:");
    assert_eq!(show(b"&img\tsrc.png\ta\tb\t"), "<img src=\"src.png\" />");
    assert_eq!(show(b"&abbr\tT\tx&/abbr\t"), "<abbr title=\"T\">x</abbr>");
    assert_eq!(show(b"&br\t"), "<br/>");
}

#[test]
fn tablump_lone_ampersand() {
    assert_eq!(show(b"a & b"), "a & b");
    assert_eq!(show(b"&zz\tq"), "&zz\tq");
    assert_eq!(show(b"&b"), "&b");
    assert_eq!(show(b"&amp;&lt;"), "&<");
    assert_eq!(show(b""), "");
}

#[test]
fn tablump_runs_joined() {
    let t = tablumps(b"a&b&c");
    assert_eq!(t.len(), 1);
    match &t[0] {
        Either::A(v) => assert_eq!(v, &b"a&b&c".to_vec()),
        Either::B(_) => panic!("a run"),
    }
    let t = tablumps(b"a&b&/b\tc");
    assert_eq!(t.len(), 3);
    match &t[0] {
        Either::A(v) => assert_eq!(v, &b"a&b".to_vec()),
        Either::B(_) => panic!("a run"),
    }
    assert!(matches!(t[1], Either::B(Tablump::C_B)));
    let t = collapse(vec![
        Either::A(b"x".to_vec()),
        Either::A(Vec::new()),
        Either::A(b"y".to_vec()),
        Either::B(Tablump::Br),
        Either::A(b"z".to_vec()),
    ]);
    assert_eq!(t.len(), 3);
    assert!(notamp(b'x'));
    assert!(!notamp(b'&'));
    assert_eq!(Tablump::Link(b"h".to_vec(), Some(b"t".to_vec())).as_string(), "h (t)");
}
