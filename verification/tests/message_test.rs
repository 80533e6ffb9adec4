use wxwork_robot::message::{
    decode_msg_events, find_msg_encrypt, get_msg_encrypt_from_bytes, get_msg_from_str,
};
use wxwork_robot::xml::XmlEvent;

const WXWORKROBOT_TEST_MSG: &str = "<xml><From><UserId><![CDATA[T56650002A]]></UserId><Name><![CDATA[欧文韬]]></Name><Alias><![CDATA[owentou]]></Alias></From><WebhookUrl><![CDATA[http://in.qyapi.weixin.qq.com/cgi-bin/webhook/send?key=xxxxxxxxxxxx]]></WebhookUrl><ChatId><![CDATA[fakechatid]]></ChatId><GetChatInfoUrl><![CDATA[http://in.qyapi.weixin.qq.com/cgi-bin/webhook/get_chat_info?code=VcgjNN2bHMhatXwG8aZbHvj_RZmLF0OSS5_sVGxYUGk]]></GetChatInfoUrl><MsgId><![CDATA[CIGABBCOgP3qBRiR4vm7goCAAyAY]]></MsgId><ChatType><![CDATA[group]]></ChatType><MsgType><![CDATA[text]]></MsgType><Text><Content><![CDATA[@fa机器人 help]]></Content></Text></xml>";
const WXWORKROBOT_TEST_MSG_WITH_KNOWN_DATA: &str = "<xml><unknown_field1><![CDATA[blablabla]]></unknown_field1><From><UserId><![CDATA[T56650002A]]></UserId><Name><![CDATA[欧文韬]]></Name><Alias><![CDATA[owentou]]></Alias></From><WebhookUrl><![CDATA[http://in.qyapi.weixin.qq.com/cgi-bin/webhook/send?key=xxxxxxxxxxxx]]></WebhookUrl><ChatId><![CDATA[fakechatid]]></ChatId><unknown_field2>test_message</unknown_field2><GetChatInfoUrl><![CDATA[http://in.qyapi.weixin.qq.com/cgi-bin/webhook/get_chat_info?code=VcgjNN2bHMhatXwG8aZbHvj_RZmLF0OSS5_sVGxYUGk]]></GetChatInfoUrl><MsgId><![CDATA[CIGABBCOgP3qBRiR4vm7goCAAyAY]]></MsgId><ChatType><![CDATA[group]]></ChatType><MsgType><![CDATA[text]]></MsgType><Text><Content><![CDATA[@fa机器人 help]]></Content></Text></xml>";

#[test]
fn decode_wxwork_robot_msg() {
    let decode_res = get_msg_from_str(WXWORKROBOT_TEST_MSG);
    assert!(decode_res.is_some());
    if let Some(msg) = decode_res {
        assert_eq!(msg.content, "@fa机器人 help");
        assert_eq!(msg.from.user_id, "T56650002A");
        assert_eq!(msg.from.name, "欧文韬");
        assert_eq!(msg.from.alias, "owentou");
        assert_eq!(msg.msg_id, "CIGABBCOgP3qBRiR4vm7goCAAyAY");
        assert_eq!(msg.msg_type, "text");
        assert_eq!(msg.chat_id, "fakechatid");
        assert_eq!(msg.chat_type, "group");
    }
}

#[test]
fn decode_wxwork_robot_msg_with_known_fields() {
    let decode_res = get_msg_from_str(WXWORKROBOT_TEST_MSG_WITH_KNOWN_DATA);
    assert!(decode_res.is_some());
    if let Some(msg) = decode_res {
        assert_eq!(msg.content, "@fa机器人 help");
        assert_eq!(msg.from.user_id, "T56650002A");
        assert_eq!(msg.from.name, "欧文韬");
        assert_eq!(msg.from.alias, "owentou");
        assert_eq!(msg.msg_id, "CIGABBCOgP3qBRiR4vm7goCAAyAY");
        assert_eq!(msg.msg_type, "text");
        assert_eq!(msg.chat_id, "fakechatid");
        assert_eq!(msg.chat_type, "group");
    }
}

#[test]
fn decode_reads_webhook_key_and_urls() {
    let msg = get_msg_from_str(WXWORKROBOT_TEST_MSG).unwrap();
    assert_eq!(msg.web_hook_key, "xxxxxxxxxxxx");
    assert_eq!(
        msg.web_hook_url,
        "http://in.qyapi.weixin.qq.com/cgi-bin/webhook/send?key=xxxxxxxxxxxx"
    );
    assert_eq!(
        msg.get_chat_info_url,
        "http://in.qyapi.weixin.qq.com/cgi-bin/webhook/get_chat_info?code=VcgjNN2bHMhatXwG8aZbHvj_RZmLF0OSS5_sVGxYUGk"
    );
}

#[test]
fn decode_webhook_key_stops_at_other_characters() {
    let msg = get_msg_from_str(
        "<xml><WebhookUrl><![CDATA[http://h/send?key=ab-c_9#x=1]]></WebhookUrl></xml>",
    )
    .unwrap();
    assert_eq!(msg.web_hook_key, "ab-c_9");
}

#[test]
fn decode_drops_cdata_with_bare_ampersand() {
    let msg = get_msg_from_str(
        "<xml><WebhookUrl><![CDATA[http://h/send?key=ab&x=1]]></WebhookUrl></xml>",
    )
    .unwrap();
    assert_eq!(msg.web_hook_url, "");
    assert_eq!(msg.web_hook_key, "");
}

#[test]
fn decode_without_key_gives_empty_key() {
    let msg = get_msg_from_str("<xml><WebhookUrl><![CDATA[http://h/send]]></WebhookUrl></xml>")
        .unwrap();
    assert_eq!(msg.web_hook_key, "");
    assert_eq!(msg.web_hook_url, "http://h/send");
}

#[test]
fn decode_empty_input_gives_empty_message() {
    let msg = get_msg_from_str("").unwrap();
    assert_eq!(msg.content, "");
    assert_eq!(msg.msg_type, "");
    assert_eq!(msg.web_hook_key, "");
    assert_eq!(msg.from.user_id, "");
}

#[test]
fn decode_reads_plain_text_and_unescapes_it() {
    let msg = get_msg_from_str(
        "<xml><MsgType>  text </MsgType><Markdown><Content>a &amp; &lt;b&gt;</Content></Markdown></xml>",
    )
    .unwrap();
    assert_eq!(msg.msg_type, "text");
    assert_eq!(msg.content, "a & <b>");
}

#[test]
fn decode_unescapes_cdata_too() {
    let msg = get_msg_from_str("<xml><ChatId><![CDATA[a&amp;b]]></ChatId></xml>").unwrap();
    assert_eq!(msg.chat_id, "a&b");
}

#[test]
fn decode_drops_data_with_bad_entity() {
    let msg = get_msg_from_str("<xml><ChatId>first</ChatId><ChatId>a &bogus; b</ChatId></xml>")
        .unwrap();
    assert_eq!(msg.chat_id, "first");
}

#[test]
fn decode_sender_fields_only_inside_from() {
    let msg = get_msg_from_str("<xml><UserId>u1</UserId><Name>n1</Name><Alias>a1</Alias></xml>")
        .unwrap();
    assert_eq!(msg.from.user_id, "");
    assert_eq!(msg.from.name, "");
    assert_eq!(msg.from.alias, "");
}

#[test]
fn decode_later_element_replaces_earlier() {
    let msg = get_msg_from_str("<xml><MsgId>1</MsgId><MsgId>2</MsgId></xml>").unwrap();
    assert_eq!(msg.msg_id, "2");
}

#[test]
fn decode_data_outside_fields_is_ignored() {
    let msg = get_msg_from_str("<xml>stray<MsgType>text</MsgType>more</xml>").unwrap();
    assert_eq!(msg.msg_type, "text");
    assert_eq!(msg.content, "");
}

#[test]
fn decode_stops_reading_at_malformed_markup() {
    let msg = get_msg_from_str("<xml><MsgId>1</MsgId></wrong><ChatId>c</ChatId></xml>").unwrap();
    assert_eq!(msg.msg_id, "1");
    assert_eq!(msg.chat_id, "");
}

#[test]
fn decode_events_directly() {
    let events = vec![
        XmlEvent::Start(b"xml".to_vec()),
        XmlEvent::Start(b"unknown".to_vec()),
        XmlEvent::CData(b"ignored".to_vec()),
        XmlEvent::End(b"unknown".to_vec()),
        XmlEvent::Start(b"ChatType".to_vec()),
        XmlEvent::CData(b"single".to_vec()),
        XmlEvent::End(b"ChatType".to_vec()),
        XmlEvent::Start(b"WebhookUrl".to_vec()),
        XmlEvent::Text(b"u?key=k1".to_vec()),
        XmlEvent::End(b"WebhookUrl".to_vec()),
        XmlEvent::Eof,
        XmlEvent::Start(b"MsgId".to_vec()),
        XmlEvent::CData(b"after end".to_vec()),
    ];
    let msg = decode_msg_events(&events);
    assert_eq!(msg.chat_type, "single");
    assert_eq!(msg.web_hook_url, "u?key=k1");
    assert_eq!(msg.web_hook_key, "k1");
    assert_eq!(msg.msg_id, "");
}

#[test]
fn decode_events_error_event_is_skipped() {
    let events = vec![
        XmlEvent::Start(b"MsgType".to_vec()),
        XmlEvent::Error,
        XmlEvent::Other,
        XmlEvent::CData(b"image".to_vec()),
        XmlEvent::End(b"MsgType".to_vec()),
    ];
    let msg = decode_msg_events(&events);
    assert_eq!(msg.msg_type, "image");
}

#[test]
fn encrypt_is_read_from_cdata() {
    let doc = b"<xml><ToUserName><![CDATA[robot]]></ToUserName><Encrypt><![CDATA[abc+/=]]></Encrypt><AgentID><![CDATA[1]]></AgentID></xml>";
    assert_eq!(get_msg_encrypt_from_bytes(doc), Some(String::from("abc+/=")));
}

#[test]
fn encrypt_missing_gives_none() {
    let doc = b"<xml><ToUserName><![CDATA[robot]]></ToUserName></xml>";
    assert_eq!(get_msg_encrypt_from_bytes(doc), None);
    assert_eq!(get_msg_encrypt_from_bytes(b""), None);
}

#[test]
fn encrypt_plain_text_does_not_count() {
    let doc = b"<xml><Encrypt>plain</Encrypt></xml>";
    assert_eq!(get_msg_encrypt_from_bytes(doc), None);
}

#[test]
fn encrypt_last_cdata_wins_and_is_unescaped() {
    let doc = b"<xml><Encrypt><![CDATA[one]]><![CDATA[t&amp;wo]]></Encrypt></xml>";
    assert_eq!(get_msg_encrypt_from_bytes(doc), Some(String::from("t&wo")));
}

#[test]
fn encrypt_invalid_utf8_is_dropped() {
    let mut doc = b"<xml><Encrypt><![CDATA[ok]]><![CDATA[".to_vec();
    doc.push(0xff);
    doc.extend_from_slice(b"]]></Encrypt></xml>");
    assert_eq!(get_msg_encrypt_from_bytes(&doc), Some(String::from("ok")));
}

#[test]
fn encrypt_events_directly() {
    let events = vec![
        XmlEvent::CData(b"outside".to_vec()),
        XmlEvent::Start(b"Encrypt".to_vec()),
        XmlEvent::Text(b"text".to_vec()),
        XmlEvent::CData(b"inside".to_vec()),
        XmlEvent::End(b"Encrypt".to_vec()),
        XmlEvent::CData(b"after".to_vec()),
    ];
    assert_eq!(find_msg_encrypt(&events), Some(String::from("inside")));
}

#[test]
fn decode_unknown_child_anywhere_under_root_is_ignored() {
    let base = "<xml><MsgType><![CDATA[text]]></MsgType><From><UserId>u</UserId></From><ChatId>c</ChatId></xml>";
    let expected = get_msg_from_str(base).unwrap();
    for doc in [
        "<xml><Extra>x</Extra><MsgType><![CDATA[text]]></MsgType><From><UserId>u</UserId></From><ChatId>c</ChatId></xml>",
        "<xml><MsgType><![CDATA[text]]></MsgType><Extra><![CDATA[x]]></Extra><From><UserId>u</UserId></From><ChatId>c</ChatId></xml>",
        "<xml><MsgType><![CDATA[text]]></MsgType><From><UserId>u</UserId></From><ChatId>c</ChatId><Extra>x</Extra></xml>",
    ] {
        let msg = get_msg_from_str(doc).unwrap();
        assert_eq!(msg.msg_type, expected.msg_type);
        assert_eq!(msg.from.user_id, expected.from.user_id);
        assert_eq!(msg.chat_id, expected.chat_id);
        assert_eq!(msg.content, expected.content);
        assert_eq!(msg.web_hook_url, expected.web_hook_url);
    }
    assert_eq!(expected.msg_type, "text");
    assert_eq!(expected.from.user_id, "u");
    assert_eq!(expected.chat_id, "c");
}
