use terminus_rooms::envelope::{assemble, Parts};
use terminus_rooms::json::JsonValue;
use terminus_rooms::op::{build_op, build_op_of_values, decode_op};
use terminus_rooms::{decode_envelope, encode_envelope, OpEnvelope, RoomOp, ENVELOPE_VERSION};

fn read(text: &str) -> Option<OpEnvelope> {
    decode_envelope(text.as_bytes())
}

fn post(text: &str) -> RoomOp {
    RoomOp::ChatPost { text: text.into(), nick: None }
}

fn written(op: RoomOp) -> String {
    String::from_utf8(encode_envelope(&OpEnvelope::main(op))).unwrap()
}

#[test]
fn every_op_is_read_back() {
    let ops = vec![
        RoomOp::SetTitle { title: "t \"quoted\" \\ \n \u{1} é 😀".into() },
        RoomOp::SetApp { app: "chat".into() },
        RoomOp::Checkpoint,
        RoomOp::BranchCreate { name: "dev".into() },
        RoomOp::ChatSetNick { nick: "".into() },
        post("hi"),
        RoomOp::ChatPost { text: "hi".into(), nick: Some("al".into()) },
        RoomOp::TodoAdd { id: "1".into(), title: "milk".into() },
        RoomOp::TodoSetDone { id: "1".into(), done: true },
        RoomOp::TodoSetDone { id: "1".into(), done: false },
        RoomOp::TodoRetitle { id: "1".into(), title: "oat milk".into() },
        RoomOp::TodoRemove { id: "1".into() },
        RoomOp::FsWrite { path: "/a".into(), content: "x".into() },
        RoomOp::FsMkdir { path: "/a".into() },
        RoomOp::FsRemove { path: "/a".into() },
        RoomOp::FsMove { from: "/a".into(), to: "/b".into() },
    ];
    for op in ops {
        let env = OpEnvelope::new("some branch \"x\"", op);
        assert_eq!(decode_envelope(&encode_envelope(&env)), Some(env));
    }
}

#[test]
fn bytes_are_exact() {
    assert_eq!(
        written(post("hi")),
        r#"{"v":1,"branch":"main","op":{"kind":"chat.post","text":"hi"}}"#
    );
    assert_eq!(
        written(RoomOp::ChatPost { text: "a\"b\\c\n\u{1f}é".into(), nick: Some("n".into()) }),
        "{\"v\":1,\"branch\":\"main\",\"op\":{\"kind\":\"chat.post\",\"text\":\"a\\\"b\\\\c\\n\\u001fé\",\"nick\":\"n\"}}"
    );
    assert_eq!(written(RoomOp::Checkpoint), r#"{"v":1,"branch":"main","op":{"kind":"meta.checkpoint"}}"#);
    assert_eq!(
        written(RoomOp::TodoSetDone { id: "a".into(), done: true }),
        r#"{"v":1,"branch":"main","op":{"kind":"todo.set_done","id":"a","done":true}}"#
    );
    assert_eq!(
        written(RoomOp::FsMove { from: "/a".into(), to: "/b".into() }),
        r#"{"v":1,"branch":"main","op":{"kind":"fs.move","from":"/a","to":"/b"}}"#
    );
    let old = OpEnvelope { v: 0, branch: "b".into(), op: RoomOp::SetApp { app: "fs".into() } };
    assert_eq!(
        encode_envelope(&old),
        br#"{"v":0,"branch":"b","op":{"kind":"meta.set_app","app":"fs"}}"#.to_vec()
    );
}

#[test]
fn kinds_are_the_dotted_names() {
    let kinds = vec![
        (RoomOp::SetTitle { title: "".into() }, "meta.set_title"),
        (RoomOp::SetApp { app: "".into() }, "meta.set_app"),
        (RoomOp::Checkpoint, "meta.checkpoint"),
        (RoomOp::BranchCreate { name: "".into() }, "branch.create"),
        (RoomOp::ChatSetNick { nick: "".into() }, "chat.set_nick"),
        (post(""), "chat.post"),
        (RoomOp::TodoAdd { id: "".into(), title: "".into() }, "todo.add"),
        (RoomOp::TodoSetDone { id: "".into(), done: false }, "todo.set_done"),
        (RoomOp::TodoRetitle { id: "".into(), title: "".into() }, "todo.retitle"),
        (RoomOp::TodoRemove { id: "".into() }, "todo.remove"),
        (RoomOp::FsWrite { path: "".into(), content: "".into() }, "fs.write"),
        (RoomOp::FsMkdir { path: "".into() }, "fs.mkdir"),
        (RoomOp::FsRemove { path: "".into() }, "fs.remove"),
        (RoomOp::FsMove { from: "".into(), to: "".into() }, "fs.move"),
    ];
    for (op, kind) in kinds {
        let v: serde_json::Value = serde_json::from_str(&written(op)).unwrap();
        assert_eq!(v["op"]["kind"], kind);
        assert_eq!(v["v"], ENVELOPE_VERSION);
    }
}

#[test]
fn versions_up_to_the_current_one_are_understood() {
    assert!(read(r#"{"v":0,"op":{"kind":"chat.post","text":"x"}}"#).is_some());
    assert!(read(r#"{"v":1,"op":{"kind":"chat.post","text":"x"}}"#).is_some());
    assert!(read(r#"{"v":2,"op":{"kind":"chat.post","text":"x"}}"#).is_none());
    assert!(read(r#"{"v":1.0,"op":{"kind":"chat.post","text":"x"}}"#).is_none());
    assert!(read(r#"{"v":-1,"op":{"kind":"chat.post","text":"x"}}"#).is_none());
    assert!(read(r#"{"v":4294967296,"op":{"kind":"chat.post","text":"x"}}"#).is_none());
    assert!(read(r#"{"v":"1","op":{"kind":"chat.post","text":"x"}}"#).is_none());
    let future = OpEnvelope { v: 2, branch: "main".into(), op: RoomOp::Checkpoint };
    assert_eq!(decode_envelope(&encode_envelope(&future)), None);
}

#[test]
fn members_come_in_any_order_with_blanks_between() {
    let text = " {\n\t\"op\" : { \"text\" : \"x\" , \"kind\" : \"chat.post\" } ,\r\n \"branch\" : \"dev\" , \"v\" : 1 } \n";
    assert_eq!(read(text), Some(OpEnvelope::new("dev", post("x"))));
    assert_eq!(read(r#"{"v":1,"op":{"kind":"chat.post","text":"x"}} x"#), None);
    assert_eq!(read(r#"{"v":1,"op":{"kind":"chat.post","text":"x"},}"#), None);
    assert_eq!(read(r#"{"v":1 "op":{"kind":"chat.post","text":"x"}}"#), None);
    assert_eq!(read(r#"{"v":1,"op":{"kind":"chat.post","text":"x"}"#), None);
    assert_eq!(read(""), None);
}

#[test]
fn what_is_missing_or_double_is_refused() {
    assert_eq!(read(r#"{"branch":"main","op":{"kind":"chat.post","text":"x"}}"#), None);
    assert_eq!(read(r#"{"v":1,"branch":"main"}"#), None);
    assert_eq!(read(r#"{"v":1,"v":1,"op":{"kind":"chat.post","text":"x"}}"#), None);
    assert_eq!(read(r#"{"v":1,"branch":"a","branch":"a","op":{"kind":"chat.post","text":"x"}}"#), None);
    assert_eq!(read(r#"{"v":1,"op":{"kind":"chat.post","kind":"chat.post","text":"x"}}"#), None);
    assert_eq!(read(r#"{"v":1,"op":{"kind":"chat.post","text":"x","text":"y"}}"#), None);
    assert_eq!(read(r#"{"v":1,"op":{"kind":"chat.post"}}"#), None);
    assert_eq!(read(r#"{"v":1,"op":{"text":"x"}}"#), None);
    assert_eq!(read(r#"{"v":1,"op":{"kind":"chat.post","text":null}}"#), None);
    assert_eq!(read(r#"{"v":1,"op":{"kind":"todo.set_done","id":"a","done":1}}"#), None);
    assert_eq!(read(r#"{"v":1,"branch":null,"op":{"kind":"chat.post","text":"x"}}"#), None);
    assert_eq!(read(r#"{"v":1,"op":null}"#), None);
}

#[test]
fn what_is_unknown_is_passed_over() {
    let env = Some(OpEnvelope::main(post("x")));
    assert_eq!(read(r#"{"v":1,"z":[1,{"a":null}],"op":{"kind":"chat.post","text":"x"}}"#), env);
    assert_eq!(read(r#"{"v":1,"op":{"kind":"chat.post","z":{"a":[true,1.5]},"text":"x"}}"#), env);
    assert_eq!(read(r#"{"v":1,"op":{"z":1,"z":2,"kind":"chat.post","text":"x"}}"#), env);
    assert_eq!(
        read(r#"{"v":1,"op":{"kind":"meta.checkpoint","why":"anchor"}}"#),
        Some(OpEnvelope::main(RoomOp::Checkpoint))
    );
    assert_eq!(read(r#"{"v":1,"op":{"kind":"chat.post","text":"x","nick":null}}"#), env);
}

#[test]
fn a_member_that_is_passed_over_need_not_be_utf8() {
    let mut bytes = br#"{"v":1,"z":""#.to_vec();
    bytes.push(0xff);
    bytes.extend_from_slice(br#"","op":{"kind":"chat.post","text":"x"}}"#);
    assert_eq!(decode_envelope(&bytes), Some(OpEnvelope::main(post("x"))));
    let mut broken = br#"{"v":1,"op":{"kind":"chat.post","text":""#.to_vec();
    broken.push(0xff);
    broken.extend_from_slice(br#""}}"#);
    assert_eq!(decode_envelope(&broken), None);
}

#[test]
fn the_array_forms_are_understood() {
    let env = Some(OpEnvelope::new("dev", post("x")));
    assert_eq!(read(r#"[1,"dev",{"kind":"chat.post","text":"x"}]"#), env);
    assert_eq!(read(r#"[1,"dev",["chat.post","x"]]"#), env);
    assert_eq!(read(r#"[1,"dev",["chat.post","x",null]]"#), env);
    assert_eq!(read(r#"[1,"dev"]"#), None);
    assert_eq!(read(r#"[1,"dev",["chat.post","x",null,1]]"#), None);
    assert_eq!(read(r#"[1,"dev",{"kind":"chat.post","text":"x"},4]"#), None);
    assert_eq!(read(r#"[]"#), None);
}

#[test]
fn nesting_has_a_limit() {
    let nested = |n: usize| {
        let open: String = vec!["["; n].concat();
        let close: String = vec!["]"; n].concat();
        format!(r#"{{"v":1,"op":{{"kind":"chat.post","text":"x","z":{open}{close}}}}}"#)
    };
    assert!(read(&nested(100)).is_some());
    assert!(read(&nested(125)).is_some());
    assert!(read(&nested(126)).is_none());
    assert!(read(&nested(1000)).is_none());
}

#[test]
fn escapes_are_undone() {
    assert_eq!(
        read(r#"{"v":1,"op":{"kind":"chat.post","text":"\u00e9\ud83d\ude00\n"}}"#),
        Some(OpEnvelope::main(post("\u{e9}\u{1f600}\n")))
    );
    assert_eq!(read(r#"{"v":1,"op":{"kind":"chat.post","text":"\ud800"}}"#), None);
}

#[test]
fn an_op_alone_is_read_too() {
    assert_eq!(decode_op(br#" {"kind":"chat.post","text":"x"} "#), Some(post("x")));
    assert_eq!(
        decode_op(br#"{"kind":"chat.post","text":"x","nick":"n"}"#),
        Some(RoomOp::ChatPost { text: "x".into(), nick: Some("n".into()) })
    );
    assert_eq!(decode_op(br#"{"kind":"chat.post","text":"x"} x"#), None);
    assert_eq!(decode_op(b"null"), None);
    assert_eq!(decode_op(br#"{"kind":"nope"}"#), None);
}

#[test]
fn ops_are_built_of_fields() {
    let text = |s: &str| JsonValue::Text(s.to_string());
    let field = |name: &str, value: JsonValue| (name.to_string(), value);
    assert_eq!(build_op("chat.post", &vec![field("text", text("x"))]), Some(post("x")));
    assert_eq!(
        build_op("chat.post", &vec![field("nick", text("n")), field("z", JsonValue::Nested), field("text", text("x"))]),
        Some(RoomOp::ChatPost { text: "x".into(), nick: Some("n".into()) })
    );
    assert_eq!(build_op("chat.post", &vec![field("text", text("x")), field("nick", JsonValue::Number)]), None);
    assert_eq!(build_op("chat.post", &vec![field("text", text("x")), field("text", text("x"))]), None);
    assert_eq!(
        build_op("todo.set_done", &vec![field("id", text("a")), field("done", JsonValue::Bool(true))]),
        Some(RoomOp::TodoSetDone { id: "a".into(), done: true })
    );
    assert_eq!(build_op("meta.checkpoint", &vec![field("z", JsonValue::Null)]), Some(RoomOp::Checkpoint));
    assert_eq!(build_op("nope", &vec![]), None);
    assert_eq!(
        build_op_of_values("fs.move", vec![text("/a"), text("/b")]),
        Some(RoomOp::FsMove { from: "/a".into(), to: "/b".into() })
    );
    assert_eq!(build_op_of_values("fs.move", vec![text("/a")]), None);
    assert_eq!(build_op_of_values("meta.checkpoint", vec![text("/a")]), None);
}

#[test]
fn envelopes_are_put_together() {
    let parts = |v, branch: Option<&str>, op| Parts { v, branch: branch.map(str::to_string), op };
    assert_eq!(
        assemble(parts(Some(1), Some("dev"), Some(post("x")))),
        Some(OpEnvelope::new("dev", post("x")))
    );
    assert_eq!(assemble(parts(Some(1), None, Some(post("x")))), Some(OpEnvelope::main(post("x"))));
    assert_eq!(assemble(parts(Some(2), None, Some(post("x")))), None);
    assert_eq!(assemble(parts(None, None, Some(post("x")))), None);
    assert_eq!(assemble(parts(Some(0), Some("dev"), None)), None);
}

#[test]
fn every_control_character_is_escaped() {
    for c in (0u8..0x80).map(char::from).chain(['\u{80}', '\u{2028}', '\u{ffff}', '\u{10ffff}']) {
        let title = format!("a{c}b");
        let written = written(RoomOp::SetTitle { title: title.clone() });
        let inside = match c {
            '"' => "\\\"".to_string(),
            '\\' => "\\\\".to_string(),
            '\u{8}' => "\\b".to_string(),
            '\t' => "\\t".to_string(),
            '\n' => "\\n".to_string(),
            '\u{c}' => "\\f".to_string(),
            '\r' => "\\r".to_string(),
            c if c < ' ' => format!("\\u{:04x}", c as u32),
            c => c.to_string(),
        };
        assert_eq!(
            written,
            format!("{{\"v\":1,\"branch\":\"main\",\"op\":{{\"kind\":\"meta.set_title\",\"title\":\"a{inside}b\"}}}}")
        );
        assert_eq!(read(&written), Some(OpEnvelope::main(RoomOp::SetTitle { title })));
    }
}
