use chat_client::codec::{decode_reply, decode_request, encode_reply, encode_request};
use chat_client::message::{InboundReply, OutboundRequest};

fn join(group: &str) -> OutboundRequest {
    OutboundRequest::Join { group_name: group.to_string() }
}

fn post(group: &str, message: &str) -> OutboundRequest {
    OutboundRequest::Post { group_name: group.to_string(), message: message.to_string() }
}

fn message(group: &str, text: &str) -> InboundReply {
    InboundReply::Message { group_name: group.to_string(), message: text.to_string() }
}

fn error(detail: &str) -> InboundReply {
    InboundReply::Error { detail: detail.to_string() }
}

#[test]
fn join_is_written_as_one_line() {
    assert_eq!(encode_request(&join("lobby")), "{\"Join\":{\"group_name\":\"lobby\"}}\n");
}

#[test]
fn post_is_written_as_one_line() {
    assert_eq!(
        encode_request(&post("lobby", "hello world")),
        "{\"Post\":{\"group_name\":\"lobby\",\"message\":\"hello world\"}}\n"
    );
}

#[test]
fn message_is_written_as_one_line() {
    assert_eq!(
        encode_reply(&message("lobby", "hi")),
        "{\"Message\":{\"group_name\":\"lobby\",\"message\":\"hi\"}}\n"
    );
}

#[test]
fn error_is_written_as_one_line() {
    assert_eq!(encode_reply(&error("no such group")), "{\"Error\":\"no such group\"}\n");
}

#[test]
fn empty_texts_are_written_as_empty_literals() {
    assert_eq!(
        encode_request(&post("", "")),
        "{\"Post\":{\"group_name\":\"\",\"message\":\"\"}}\n"
    );
    assert_eq!(encode_reply(&error("")), "{\"Error\":\"\"}\n");
}

#[test]
fn quotes_and_backslashes_are_escaped() {
    assert_eq!(encode_reply(&error("say \"hi\" \\ bye")), "{\"Error\":\"say \\\"hi\\\" \\\\ bye\"}\n");
}

#[test]
fn control_characters_are_escaped() {
    assert_eq!(
        encode_reply(&error("a\nb\rc\td\u{8}e\u{c}f")),
        "{\"Error\":\"a\\nb\\rc\\td\\be\\ff\"}\n"
    );
    assert_eq!(
        encode_reply(&error("\u{0}\u{1}\u{b}\u{1b}\u{1f}")),
        "{\"Error\":\"\\u0000\\u0001\\u000b\\u001b\\u001f\"}\n"
    );
}

#[test]
fn other_characters_are_written_as_they_are() {
    assert_eq!(
        encode_reply(&error("/ \u{7f} \u{e9} \u{2028} \u{1f600}")),
        "{\"Error\":\"/ \u{7f} \u{e9} \u{2028} \u{1f600}\"}\n"
    );
}

#[test]
fn a_line_holds_one_line_feed_at_its_end() {
    let line = encode_request(&post("a\nb", "c\n\nd\n"));
    assert_eq!(line.matches('\n').count(), 1);
    assert!(line.ends_with('\n'));
}

#[test]
fn message_is_read() {
    assert_eq!(
        decode_reply("{\"Message\":{\"group_name\":\"lobby\",\"message\":\"hi\"}}"),
        Some(message("lobby", "hi"))
    );
}

#[test]
fn error_is_read() {
    assert_eq!(decode_reply("{\"Error\":\"no such group\"}"), Some(error("no such group")));
}

#[test]
fn requests_are_read() {
    assert_eq!(decode_request("{\"Join\":{\"group_name\":\"lobby\"}}"), Some(join("lobby")));
    assert_eq!(
        decode_request("{\"Post\":{\"group_name\":\"lobby\",\"message\":\"hello world\"}}"),
        Some(post("lobby", "hello world"))
    );
}

#[test]
fn whitespace_between_tokens_is_skipped() {
    assert_eq!(
        decode_reply(" { \"Message\" :\t{ \"group_name\" : \"lobby\" ,\r\n \"message\" : \"hi\" } } \n"),
        Some(message("lobby", "hi"))
    );
    assert_eq!(decode_reply("{\"Error\":\" kept \"}\r\n"), Some(error(" kept ")));
}

#[test]
fn fields_are_read_in_either_order() {
    assert_eq!(
        decode_reply("{\"Message\":{\"message\":\"hi\",\"group_name\":\"lobby\"}}"),
        Some(message("lobby", "hi"))
    );
    assert_eq!(
        decode_request("{\"Post\":{\"message\":\"m\",\"group_name\":\"g\"}}"),
        Some(post("g", "m"))
    );
}

#[test]
fn every_escape_is_read() {
    assert_eq!(
        decode_reply("{\"Error\":\"\\\" \\\\ \\/ \\b \\f \\n \\r \\t\"}"),
        Some(error("\" \\ / \u{8} \u{c} \n \r \t"))
    );
}

#[test]
fn unicode_escapes_are_read() {
    assert_eq!(decode_reply("{\"Error\":\"\\u0041\\u00e9\\u00E9\\u2028\"}"), Some(error("A\u{e9}\u{e9}\u{2028}")));
    assert_eq!(decode_reply("{\"Error\":\"\\u0000\\uffff\\uD7FF\\ue000\"}"), Some(error("\u{0}\u{ffff}\u{d7ff}\u{e000}")));
    assert_eq!(decode_reply("{\"\\u0045rror\":\"x\"}"), Some(error("x")));
}

#[test]
fn surrogate_pairs_are_read() {
    assert_eq!(decode_reply("{\"Error\":\"\\ud83d\\ude00\"}"), Some(error("\u{1f600}")));
    assert_eq!(decode_reply("{\"Error\":\"\\uD800\\uDC00\"}"), Some(error("\u{10000}")));
    assert_eq!(decode_reply("{\"Error\":\"\\uDBFF\\uDFFF!\"}"), Some(error("\u{10ffff}!")));
}

#[test]
fn lone_surrogates_are_refused() {
    assert_eq!(decode_reply("{\"Error\":\"\\ud83d\"}"), None);
    assert_eq!(decode_reply("{\"Error\":\"\\ude00\"}"), None);
    assert_eq!(decode_reply("{\"Error\":\"\\ud83d\\u0041\"}"), None);
    assert_eq!(decode_reply("{\"Error\":\"\\ud83dx\"}"), None);
    assert_eq!(decode_reply("{\"Error\":\"\\ud83d\\ud83d\"}"), None);
}

#[test]
fn bad_escapes_are_refused() {
    assert_eq!(decode_reply("{\"Error\":\"\\x\"}"), None);
    assert_eq!(decode_reply("{\"Error\":\"\\u12\"}"), None);
    assert_eq!(decode_reply("{\"Error\":\"\\u12g4\"}"), None);
    assert_eq!(decode_reply("{\"Error\":\"\\"), None);
    assert_eq!(decode_reply("{\"Error\":\"\\u"), None);
}

#[test]
fn raw_control_characters_are_refused() {
    assert_eq!(decode_reply("{\"Error\":\"a\nb\"}"), None);
    assert_eq!(decode_reply("{\"Error\":\"a\tb\"}"), None);
    assert_eq!(decode_reply("{\"Error\":\"a\u{1f}b\"}"), None);
    assert_eq!(decode_reply("{\"Error\":\"a\u{7f}b\"}"), Some(error("a\u{7f}b")));
}

#[test]
fn unknown_tags_are_refused() {
    assert_eq!(decode_reply("{\"Notice\":\"x\"}"), None);
    assert_eq!(decode_reply("{\"message\":{\"group_name\":\"g\",\"message\":\"m\"}}"), None);
    assert_eq!(decode_reply("{\"Join\":{\"group_name\":\"lobby\"}}"), None);
    assert_eq!(decode_request("{\"Error\":\"x\"}"), None);
    assert_eq!(decode_request("{\"Leave\":{\"group_name\":\"lobby\"}}"), None);
}

#[test]
fn wrong_fields_are_refused() {
    assert_eq!(decode_reply("{\"Message\":{\"group_name\":\"g\"}}"), None);
    assert_eq!(decode_reply("{\"Message\":{\"group_name\":\"g\",\"group_name\":\"h\"}}"), None);
    assert_eq!(decode_reply("{\"Message\":{\"message\":\"g\",\"message\":\"h\"}}"), None);
    assert_eq!(decode_reply("{\"Message\":{\"group\":\"g\",\"message\":\"m\"}}"), None);
    assert_eq!(decode_reply("{\"Message\":{\"group_name\":\"g\",\"message\":\"m\",\"more\":\"x\"}}"), None);
    assert_eq!(decode_reply("{\"Message\":\"text\"}"), None);
    assert_eq!(decode_reply("{\"Error\":{\"detail\":\"x\"}}"), None);
    assert_eq!(decode_request("{\"Join\":{\"name\":\"lobby\"}}"), None);
    assert_eq!(decode_request("{\"Join\":{\"group_name\":\"g\",\"message\":\"m\"}}"), None);
    assert_eq!(decode_request("{\"Post\":{\"group_name\":\"g\"}}"), None);
}

#[test]
fn broken_records_are_refused() {
    assert_eq!(decode_reply(""), None);
    assert_eq!(decode_reply("   "), None);
    assert_eq!(decode_reply("{"), None);
    assert_eq!(decode_reply("{}"), None);
    assert_eq!(decode_reply("\"Error\""), None);
    assert_eq!(decode_reply("{\"Error\"}"), None);
    assert_eq!(decode_reply("{\"Error\":}"), None);
    assert_eq!(decode_reply("{\"Error\":\"x\""), None);
    assert_eq!(decode_reply("{\"Error\":\"x}"), None);
    assert_eq!(decode_reply("{\"Error\" \"x\"}"), None);
    assert_eq!(decode_reply("{\"Error\":\"x\"}}"), None);
    assert_eq!(decode_reply("{\"Error\":\"x\"} x"), None);
    assert_eq!(decode_reply("{\"Error\":\"x\"}{\"Error\":\"y\"}"), None);
    assert_eq!(decode_reply("{\"Error\":\"x\",}"), None);
    assert_eq!(decode_reply("{\"Error\":12}"), None);
    assert_eq!(decode_reply("{\"Message\":{\"group_name\":\"g\" \"message\":\"m\"}}"), None);
    assert_eq!(decode_reply("{\"Message\":{\"group_name\":\"g\",\"message\":\"m\"}"), None);
    assert_eq!(decode_reply("{\u{a0}\"Error\":\"x\"}"), None);
}

#[test]
fn requests_come_back_from_their_lines() {
    let texts = ["", "lobby", "hello world", "a\"b\\c", "\n\r\t\u{8}\u{c}", "\u{0}\u{1}\u{1f}",
        " spaced ", "{\"Join\":{}}", "\u{e9}\u{65e5}\u{1f600}\u{10ffff}", "\\u0041", "/"];
    for group in texts {
        let request = join(group);
        assert_eq!(decode_request(&encode_request(&request)), Some(request));
        for text in texts {
            let request = post(group, text);
            let line = encode_request(&request);
            assert_eq!(decode_request(&line), Some(request.clone()));
            assert_eq!(decode_request(line.trim_end()), Some(request));
        }
    }
}

#[test]
fn replies_come_back_from_their_lines() {
    let texts = ["", "lobby", "hello world", "a\"b\\c", "\n\r\t\u{8}\u{c}", "\u{0}\u{1}\u{1f}",
        " spaced ", "{\"Error\":\"x\"}", "\u{e9}\u{65e5}\u{1f600}\u{10ffff}", "\\n", "/"];
    for group in texts {
        let reply = error(group);
        assert_eq!(decode_reply(&encode_reply(&reply)), Some(reply));
        for text in texts {
            let reply = message(group, text);
            let line = encode_reply(&reply);
            assert_eq!(decode_reply(&line), Some(reply.clone()));
            assert_eq!(decode_reply(line.trim_end()), Some(reply));
        }
    }
}

#[test]
fn every_character_comes_back() {
    let mut n: u32 = 0;
    while n < 0x3000 {
        if let Some(c) = char::from_u32(n) {
            let reply = error(&format!("<{}>", c));
            assert_eq!(decode_reply(&encode_reply(&reply)), Some(reply));
        }
        n += 1;
    }
}
