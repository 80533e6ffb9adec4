use wxwork_robot::base64::base64_encode;
use wxwork_robot::message::{
    WXWorkMessageImageRsp, WXWorkMessageMarkdownRsp, WXWorkMessageTextRsp,
};
use wxwork_robot::reply::{
    get_robot_response_access_deny, get_robot_response_access_deny_content, pack_image_message,
    pack_image_message_with_digest, pack_markdown_message, pack_message_response,
    pack_text_message,
};
use wxwork_robot::text::{bytes_eq, decimal_string, decode_text};

#[test]
fn text_message_is_packed() {
    let msg = WXWorkMessageTextRsp {
        content: String::from("hello"),
        mentioned_list: vec![String::from("alice"), String::from("@all")],
        mentioned_mobile_list: vec![13800000000, 7],
    };
    assert_eq!(
        pack_text_message(msg),
        Ok(String::from(
            "<xml><MsgType><![CDATA[text]]></MsgType><Text><Content><![CDATA[hello]]></Content><MentionedList><Item><![CDATA[alice]]></Item><Item><![CDATA[@all]]></Item></MentionedList><MentionedMobileList><Item><![CDATA[13800000000]]></Item><Item><![CDATA[7]]></Item></MentionedMobileList></Text></xml>"
        ))
    );
}

#[test]
fn text_message_with_empty_lists() {
    let msg = WXWorkMessageTextRsp {
        content: String::new(),
        mentioned_list: vec![],
        mentioned_mobile_list: vec![],
    };
    assert_eq!(
        pack_text_message(msg),
        Ok(String::from(
            "<xml><MsgType><![CDATA[text]]></MsgType><Text><Content><![CDATA[]]></Content><MentionedList></MentionedList><MentionedMobileList></MentionedMobileList></Text></xml>"
        ))
    );
}

#[test]
fn text_message_content_is_escaped() {
    let msg = WXWorkMessageTextRsp {
        content: String::from("a<b>&'\"]]>中"),
        mentioned_list: vec![String::from("x&y")],
        mentioned_mobile_list: vec![],
    };
    let packed = pack_text_message(msg).unwrap();
    assert!(packed.contains("<Content><![CDATA[a&lt;b&gt;&amp;&apos;&quot;]]&gt;中]]></Content>"));
    assert!(packed.contains("<Item><![CDATA[x&amp;y]]></Item>"));
}

#[test]
fn markdown_message_is_packed_unescaped() {
    let msg = WXWorkMessageMarkdownRsp { content: String::from("**bold** & <font>") };
    assert_eq!(
        pack_markdown_message(msg),
        Ok(String::from(
            "<xml><MsgType><![CDATA[markdown]]></MsgType><Markdown><Content><![CDATA[**bold** & <font>]]></Content></Markdown></xml>"
        ))
    );
}

#[test]
fn image_message_is_packed_with_md5() {
    let msg = WXWorkMessageImageRsp { content: b"hello".to_vec() };
    assert_eq!(
        pack_image_message(msg),
        Ok(String::from(
            "<xml><MsgType><![CDATA[image]]></MsgType><Image><Base64><![CDATA[aGVsbG8=]]></Base64><Md5><![CDATA[5d41402abc4b2a76b9719d911017c592]]></Md5></Image></xml>"
        ))
    );
}

#[test]
fn image_message_of_empty_content() {
    let msg = WXWorkMessageImageRsp { content: vec![] };
    assert_eq!(
        pack_image_message(msg),
        Ok(String::from(
            "<xml><MsgType><![CDATA[image]]></MsgType><Image><Base64><![CDATA[]]></Base64><Md5><![CDATA[d41d8cd98f00b204e9800998ecf8427e]]></Md5></Image></xml>"
        ))
    );
}

#[test]
fn image_message_with_given_digest() {
    let msg = WXWorkMessageImageRsp { content: vec![0xff, 0x00] };
    assert_eq!(
        pack_image_message_with_digest(msg.clone(), Some(vec![0x0a, 0xbc])),
        Ok(String::from(
            "<xml><MsgType><![CDATA[image]]></MsgType><Image><Base64><![CDATA[/wA=]]></Base64><Md5><![CDATA[0abc]]></Md5></Image></xml>"
        ))
    );
    assert_eq!(
        pack_image_message_with_digest(msg, None),
        Ok(String::from(
            "<xml><MsgType><![CDATA[image]]></MsgType><Image><Base64><![CDATA[/wA=]]></Base64></Image></xml>"
        ))
    );
}

#[test]
fn message_response_is_packed() {
    assert_eq!(
        pack_message_response(
            String::from("enc+/="),
            String::from("sig"),
            String::from("1409659813"),
            String::from("nonce<1>"),
        ),
        Ok(String::from(
            "<xml><Encrypt><![CDATA[enc+/=]]></Encrypt><MsgSignature><![CDATA[sig]]></MsgSignature><TimeStamp>1409659813</TimeStamp><Nonce><![CDATA[nonce&lt;1&gt;]]></Nonce></xml>"
        ))
    );
}

#[test]
fn message_response_timestamp_text_is_escaped() {
    let packed = pack_message_response(
        String::new(),
        String::new(),
        String::from("1 & 2"),
        String::new(),
    )
    .unwrap();
    assert!(packed.contains("<TimeStamp>1 &amp; 2</TimeStamp>"));
}

#[test]
fn access_deny_is_packed() {
    assert_eq!(
        get_robot_response_access_deny_content("robot not found"),
        "<xml><message><![CDATA[robot not found]]></message><code>Access Deny</code></xml>"
    );
    assert_eq!(
        get_robot_response_access_deny(String::from("a<b")),
        "<xml><message><![CDATA[a&lt;b]]></message><code>Access Deny</code></xml>"
    );
}

#[test]
fn escaped_reply_text_has_no_angle_brackets() {
    let packed = get_robot_response_access_deny_content("<evil>]]></message>");
    let inner = packed
        .strip_prefix("<xml><message><![CDATA[")
        .unwrap()
        .strip_suffix("]]></message><code>Access Deny</code></xml>")
        .unwrap();
    assert!(!inner.contains('<'));
    assert!(!inner.contains('>'));
}

#[test]
fn base64_encodes_standard_with_padding() {
    assert_eq!(base64_encode(b""), "");
    assert_eq!(base64_encode(b"f"), "Zg==");
    assert_eq!(base64_encode(b"fo"), "Zm8=");
    assert_eq!(base64_encode(b"foo"), "Zm9v");
    assert_eq!(base64_encode(b"foob"), "Zm9vYg==");
    assert_eq!(base64_encode(b"fooba"), "Zm9vYmE=");
    assert_eq!(base64_encode(b"foobar"), "Zm9vYmFy");
    assert_eq!(base64_encode(&[0xfb, 0xff, 0xbf]), "+/+/");
}

#[test]
fn base64_length_is_four_per_started_group() {
    for n in 0..20usize {
        let data = vec![7u8; n];
        assert_eq!(base64_encode(&data).len(), 4 * ((n + 2) / 3));
    }
}

#[test]
fn decimal_string_writes_numbers() {
    assert_eq!(decimal_string(0), "0");
    assert_eq!(decimal_string(9), "9");
    assert_eq!(decimal_string(10), "10");
    assert_eq!(decimal_string(18446744073709551615), "18446744073709551615");
}

#[test]
fn decode_text_unescapes_and_checks_utf8() {
    assert_eq!(decode_text(b"&lt;x&gt; &#x41;&#66;"), Some(String::from("<x> AB")));
    assert_eq!(decode_text(b"plain"), Some(String::from("plain")));
    assert_eq!(decode_text(b"&bogus;"), None);
    assert_eq!(decode_text(b"a & b"), None);
    assert_eq!(decode_text(&[0xff]), None);
}

#[test]
fn bytes_eq_compares() {
    assert!(bytes_eq(b"abc", b"abc"));
    assert!(!bytes_eq(b"abc", b"abd"));
    assert!(!bytes_eq(b"abc", b"ab"));
    assert!(bytes_eq(b"", b""));
}

#[test]
fn packed_text_reply_reads_back() {
    let content = String::from("a<b> & 'c' \"d\" 中");
    let packed = pack_text_message(WXWorkMessageTextRsp {
        content: content.clone(),
        mentioned_list: vec![],
        mentioned_mobile_list: vec![],
    })
    .unwrap();
    let msg = wxwork_robot::message::get_msg_from_str(&packed).unwrap();
    assert_eq!(msg.msg_type, "text");
    assert_eq!(msg.content, content);
    assert_eq!(msg.chat_id, "");
    assert_eq!(msg.web_hook_url, "");
    assert_eq!(msg.web_hook_key, "");
}

#[test]
fn packed_encrypted_reply_reads_back() {
    let packed = pack_message_response(
        String::from("QUJD+/=="),
        String::from("sig"),
        String::from("12"),
        String::from("n"),
    )
    .unwrap();
    assert_eq!(
        wxwork_robot::message::get_msg_encrypt_from_bytes(packed.as_bytes()),
        Some(String::from("QUJD+/=="))
    );
}

#[test]
fn escaped_text_decodes_back() {
    assert_eq!(decode_text(b"a&amp;b"), Some(String::from("a&b")));
    assert_eq!(
        decode_text(b"&lt;&gt;&apos;&quot;&amp;;"),
        Some(String::from("<>'\"&;"))
    );
}
