use vstd::prelude::*;
use vstd::utf8::*;
use crate::document::{
    has_no_markup, lemma_escape_chars_plain, xml_escape_chars,
    xml_out_chars, XmlBuilder,
};
use crate::base64::{base64_chars, base64_encode};
use crate::digest::{hex_encode, hex_lower, md5, md5_digest};
use crate::message::{WXWorkMessageImageRsp, WXWorkMessageMarkdownRsp, WXWorkMessageTextRsp};
use crate::xml::bytes_opt;
use crate::text::{decimal_chars, decimal_string, string_from_utf8};
use crate::xml::XmlOut;

verus! {

/// An element `<name>body</name>`.
pub open spec fn xml_element(name: Seq<char>, body: Seq<char>) -> Seq<char> {
    "<"@ + name + ">"@ + body + "</"@ + name + ">"@
}

/// A CDATA section holding the escaped text.
pub open spec fn xml_cdata(t: Seq<char>) -> Seq<char> {
    "<![CDATA["@ + xml_escape_chars(t) + "]]>"@
}

/// A CDATA section holding the text as it is.
pub open spec fn xml_raw_cdata(t: Seq<char>) -> Seq<char> {
    "<![CDATA["@ + t + "]]>"@
}

/// `<Item>` elements, one per text, in order.
#[verifier::opaque]
pub open spec fn xml_items(list: Seq<Seq<char>>) -> Seq<char>
    decreases list.len(),
{
    if list.len() == 0 {
        Seq::empty()
    } else {
        xml_items(list.drop_last()) + xml_element("Item"@, xml_cdata(list.last()))
    }
}

/// The texts of a list of strings.
pub open spec fn texts(list: Seq<String>) -> Seq<Seq<char>> {
    list.map_values(|s: String| s@)
}

/// The decimal texts of a list of numbers.
pub open spec fn decimal_texts(list: Seq<u64>) -> Seq<Seq<char>> {
    list.map_values(|v: u64| decimal_chars(v as nat))
}

/// The document of a text reply.
pub open spec fn text_message_xml(
    content: Seq<char>,
    mentioned: Seq<Seq<char>>,
    mentioned_mobiles: Seq<Seq<char>>,
) -> Seq<char> {
    xml_element(
        "xml"@,
        xml_element("MsgType"@, xml_cdata("text"@)) + xml_element(
            "Text"@,
            xml_element("Content"@, xml_cdata(content)) + xml_element(
                "MentionedList"@,
                xml_items(mentioned),
            ) + xml_element("MentionedMobileList"@, xml_items(mentioned_mobiles)),
        ),
    )
}

/// The document of a markdown reply: the content goes into CDATA unescaped.
pub open spec fn markdown_message_xml(content: Seq<char>) -> Seq<char> {
    xml_element(
        "xml"@,
        xml_element("MsgType"@, xml_cdata("markdown"@)) + xml_element(
            "Markdown"@,
            xml_element("Content"@, xml_raw_cdata(content)),
        ),
    )
}

/// The document of an image reply: the image in Base64 and, where a digest
/// is given, its MD5 digest in lowercase hexadecimal.
pub open spec fn image_message_xml(content: Seq<u8>, md5: Option<Seq<u8>>) -> Seq<char> {
    xml_element(
        "xml"@,
        xml_element("MsgType"@, xml_cdata("image"@)) + xml_element(
            "Image"@,
            xml_element("Base64"@, xml_raw_cdata(base64_chars(content))) + match md5 {
                Some(d) => xml_element("Md5"@, xml_raw_cdata(hex_lower(d))),
                None => Seq::empty(),
            },
        ),
    )
}

/// The document that carries an encrypted reply.
pub open spec fn message_response_xml(
    encrypt: Seq<char>,
    msg_signature: Seq<char>,
    timestamp: Seq<char>,
    nonce: Seq<char>,
) -> Seq<char> {
    xml_element(
        "xml"@,
        xml_element("Encrypt"@, xml_cdata(encrypt)) + xml_element(
            "MsgSignature"@,
            xml_cdata(msg_signature),
        ) + xml_element("TimeStamp"@, xml_escape_chars(timestamp)) + xml_element(
            "Nonce"@,
            xml_cdata(nonce),
        ),
    )
}

/// The document that refuses a request.
pub open spec fn access_deny_xml(msg: Seq<char>) -> Seq<char> {
    xml_element(
        "xml"@,
        xml_element("message"@, xml_cdata(msg)) + xml_element(
            "code"@,
            xml_escape_chars("Access Deny"@),
        ),
    )
}

/// Hands out the document as a `String`; it always is valid UTF-8.
fn finish(writer: XmlBuilder) -> (r: Result<String, String>)
    requires
        writer.wf(),
    ensures
        r matches Ok(s) && s@ == writer.text(),
{
    proof {
        encode_utf8_valid_utf8(writer.text());
        encode_utf8_decode_utf8(writer.text());
    }
    let r = string_from_utf8(writer.into_bytes());
    assert(r is Ok);
    r
}

/// Writes an element `<name>` holding one event.
fn write_leaf(writer: &mut XmlBuilder, name: &str, data: XmlOut)
    requires
        old(writer).wf(),
    ensures
        final(writer).wf(),
        final(writer).text() == old(writer).text() + xml_element(name@, xml_out_chars(data)),
{
    let ghost start = writer.text();
    let ghost data_chars = xml_out_chars(data);
    if let Ok(_) = writer.write_event(XmlOut::Start(name)) {
        let _ = writer.write_event(data);
        let _ = writer.write_event(XmlOut::End(name));
    }
    assert(writer.text() =~= start + xml_element(name@, data_chars));
}

/// Writes `<Item>` elements for the texts.
fn write_items(writer: &mut XmlBuilder, list: &Vec<String>)
    requires
        old(writer).wf(),
    ensures
        final(writer).wf(),
        final(writer).text() == old(writer).text() + xml_items(texts(list@)),
{
    let ghost start = writer.text();
    let ghost all = texts(list@);
    let mut i: usize = 0;
    assert(all.take(0) =~= Seq::<Seq<char>>::empty());
    assert(xml_items(all.take(0)) == Seq::<char>::empty()) by {
        reveal(xml_items);
    }
    assert(writer.text() =~= start + xml_items(all.take(0)));
    while i < list.len()
        invariant
            i <= list@.len(),
            all == texts(list@),
            writer.wf(),
            writer.text() == start + xml_items(all.take(i as int)),
        decreases list@.len() - i,
    {
        write_leaf(writer, "Item", XmlOut::CData(list[i].as_str()));
        proof {
            assert(all.take(i + 1).drop_last() =~= all.take(i as int));
            reveal(xml_items);
            assert(all.take(i + 1).last() == list@[i as int]@);
            assert(writer.text() =~= start + xml_items(all.take(i + 1)));
        }
        i = i + 1;
    }
    assert(all.take(list@.len() as int) =~= all);
}

/// Writes `<Item>` elements for the numbers, in decimal.
fn write_number_items(writer: &mut XmlBuilder, list: &Vec<u64>)
    requires
        old(writer).wf(),
    ensures
        final(writer).wf(),
        final(writer).text() == old(writer).text() + xml_items(decimal_texts(list@)),
{
    let ghost start = writer.text();
    let ghost all = decimal_texts(list@);
    let mut i: usize = 0;
    assert(all.take(0) =~= Seq::<Seq<char>>::empty());
    assert(xml_items(all.take(0)) == Seq::<char>::empty()) by {
        reveal(xml_items);
    }
    assert(writer.text() =~= start + xml_items(all.take(0)));
    while i < list.len()
        invariant
            i <= list@.len(),
            all == decimal_texts(list@),
            writer.wf(),
            writer.text() == start + xml_items(all.take(i as int)),
        decreases list@.len() - i,
    {
        let v = decimal_string(list[i]);
        write_leaf(writer, "Item", XmlOut::CData(v.as_str()));
        proof {
            assert(all.take(i + 1).drop_last() =~= all.take(i as int));
            reveal(xml_items);
            assert(all.take(i + 1).last() == decimal_chars(list@[i as int] as nat));
            assert(writer.text() =~= start + xml_items(all.take(i + 1)));
        }
        i = i + 1;
    }
    assert(all.take(list@.len() as int) =~= all);
}

/// Writes the `<Text>` element of a text reply.
fn write_text_body(writer: &mut XmlBuilder, msg: &WXWorkMessageTextRsp)
    requires
        old(writer).wf(),
    ensures
        final(writer).wf(),
        final(writer).text() == old(writer).text() + xml_element(
            "Text"@,
            xml_element("Content"@, xml_cdata(msg.content@)) + xml_element(
                "MentionedList"@,
                xml_items(texts(msg.mentioned_list@)),
            ) + xml_element(
                "MentionedMobileList"@,
                xml_items(decimal_texts(msg.mentioned_mobile_list@)),
            ),
        ),
{
    let ghost t0 = writer.text();
    let ghost mentioned = xml_items(texts(msg.mentioned_list@));
    let ghost mobiles = xml_items(decimal_texts(msg.mentioned_mobile_list@));
    if let Ok(_) = writer.write_event(XmlOut::Start("Text")) {
        write_leaf(writer, "Content", XmlOut::CData(msg.content.as_str()));
        let ghost t2 = writer.text();
        if let Ok(_) = writer.write_event(XmlOut::Start("MentionedList")) {
            write_items(writer, &msg.mentioned_list);
            let _ = writer.write_event(XmlOut::End("MentionedList"));
        }
        assert(writer.text() =~= t2 + xml_element("MentionedList"@, mentioned));
        let ghost t3 = writer.text();
        if let Ok(_) = writer.write_event(XmlOut::Start("MentionedMobileList")) {
            write_number_items(writer, &msg.mentioned_mobile_list);
            let _ = writer.write_event(XmlOut::End("MentionedMobileList"));
        }
        assert(writer.text() =~= t3 + xml_element("MentionedMobileList"@, mobiles));
        let _ = writer.write_event(XmlOut::End("Text"));
    }
    assert(writer.text() =~= t0 + xml_element(
        "Text"@,
        xml_element("Content"@, xml_cdata(msg.content@)) + xml_element(
            "MentionedList"@,
            mentioned,
        ) + xml_element("MentionedMobileList"@, mobiles),
    ));
}

/// Packs a text reply, with the users and mobile numbers it mentions.
pub fn pack_text_message(msg: WXWorkMessageTextRsp) -> (r: Result<String, String>)
    ensures
        r matches Ok(s) && s@ == text_message_xml(
            msg.content@,
            texts(msg.mentioned_list@),
            decimal_texts(msg.mentioned_mobile_list@),
        ),
{
    let mut writer = XmlBuilder::new();

    if let Ok(_) = writer.write_event(XmlOut::Start("xml")) {
        write_leaf(&mut writer, "MsgType", XmlOut::CData("text"));
        write_text_body(&mut writer, &msg);
        let _ = writer.write_event(XmlOut::End("xml"));
    }
    assert(writer.text() =~= text_message_xml(
        msg.content@,
        texts(msg.mentioned_list@),
        decimal_texts(msg.mentioned_mobile_list@),
    ));
    finish(writer)
}

/// Packs a markdown reply.
pub fn pack_markdown_message(msg: WXWorkMessageMarkdownRsp) -> (r: Result<String, String>)
    ensures
        r matches Ok(s) && s@ == markdown_message_xml(msg.content@),
{
    let mut writer = XmlBuilder::new();

    if let Ok(_) = writer.write_event(XmlOut::Start("xml")) {
        write_leaf(&mut writer, "MsgType", XmlOut::CData("markdown"));
        let ghost t1 = writer.text();
        if let Ok(_) = writer.write_event(XmlOut::Start("Markdown")) {
            write_leaf(&mut writer, "Content", XmlOut::RawCData(msg.content.as_str()));
            let _ = writer.write_event(XmlOut::End("Markdown"));
        }
        assert(writer.text() =~= t1 + xml_element(
            "Markdown"@,
            xml_element("Content"@, xml_raw_cdata(msg.content@)),
        ));
        let _ = writer.write_event(XmlOut::End("xml"));
    }
    assert(writer.text() =~= markdown_message_xml(msg.content@));
    finish(writer)
}

/// Writes the `<Image>` element of an image reply.
fn write_image_body(writer: &mut XmlBuilder, content: &[u8], digest: &Option<Vec<u8>>)
    requires
        old(writer).wf(),
    ensures
        final(writer).wf(),
        final(writer).text() == old(writer).text() + xml_element(
            "Image"@,
            xml_element("Base64"@, xml_raw_cdata(base64_chars(content@))) + match bytes_opt(
                *digest,
            ) {
                Some(d) => xml_element("Md5"@, xml_raw_cdata(hex_lower(d))),
                None => Seq::empty(),
            },
        ),
{
    let ghost t0 = writer.text();
    let ghost b64 = xml_element("Base64"@, xml_raw_cdata(base64_chars(content@)));
    let ghost md5_part = match bytes_opt(*digest) {
        Some(d) => xml_element("Md5"@, xml_raw_cdata(hex_lower(d))),
        None => Seq::<char>::empty(),
    };
    if let Ok(_) = writer.write_event(XmlOut::Start("Image")) {
        let encoded = base64_encode(content);
        write_leaf(writer, "Base64", XmlOut::RawCData(encoded.as_str()));
        let ghost t2 = writer.text();
        match digest {
            Some(x) => {
                let hex = hex_encode(x.as_slice());
                write_leaf(writer, "Md5", XmlOut::RawCData(hex.as_str()));
            },
            None => {},
        }
        assert(writer.text() =~= t2 + md5_part);
        let _ = writer.write_event(XmlOut::End("Image"));
    }
    assert(writer.text() =~= t0 + xml_element("Image"@, b64 + md5_part));
}

/// Packs an image reply whose MD5 digest, where there is one, is `digest`.
pub fn pack_image_message_with_digest(msg: WXWorkMessageImageRsp, digest: Option<Vec<u8>>) -> (r:
    Result<String, String>)
    ensures
        r matches Ok(s) && s@ == image_message_xml(msg.content@, bytes_opt(digest)),
{
    let mut writer = XmlBuilder::new();

    if let Ok(_) = writer.write_event(XmlOut::Start("xml")) {
        write_leaf(&mut writer, "MsgType", XmlOut::CData("image"));
        write_image_body(&mut writer, msg.content.as_slice(), &digest);
        let _ = writer.write_event(XmlOut::End("xml"));
    }
    assert(writer.text() =~= image_message_xml(msg.content@, bytes_opt(digest)));
    finish(writer)
}

/// Packs an image reply: the image in Base64 and its MD5 digest, which is left
/// out where OpenSSL cannot compute it.
pub fn pack_image_message(msg: WXWorkMessageImageRsp) -> (r: Result<String, String>)
    ensures
        r matches Ok(s) && (s@ == image_message_xml(msg.content@, Some(md5_digest(msg.content@)))
            || s@ == image_message_xml(msg.content@, None)),
{
    let digest = md5(msg.content.as_slice());
    pack_image_message_with_digest(msg, digest)
}

/// Packs an encrypted reply with its signature, timestamp and nonce.
pub fn pack_message_response(
    encrypt: String,
    msg_signature: String,
    timestamp: String,
    nonce: String,
) -> (r: Result<String, String>)
    ensures
        r matches Ok(s) && s@ == message_response_xml(
            encrypt@,
            msg_signature@,
            timestamp@,
            nonce@,
        ),
{
    let mut writer = XmlBuilder::new();

    if let Ok(_) = writer.write_event(XmlOut::Start("xml")) {
        write_leaf(&mut writer, "Encrypt", XmlOut::CData(encrypt.as_str()));
        write_leaf(&mut writer, "MsgSignature", XmlOut::CData(msg_signature.as_str()));
        write_leaf(&mut writer, "TimeStamp", XmlOut::Text(timestamp.as_str()));
        write_leaf(&mut writer, "Nonce", XmlOut::CData(nonce.as_str()));
        let _ = writer.write_event(XmlOut::End("xml"));
    }
    assert(writer.text() =~= message_response_xml(
        encrypt@,
        msg_signature@,
        timestamp@,
        nonce@,
    ));
    finish(writer)
}

/// The document that refuses a request, with the reason in `<message>` and the
/// code `Access Deny`.
pub fn get_robot_response_access_deny_content(msg: &str) -> (r: String)
    ensures
        r@ == access_deny_xml(msg@),
{
    let mut writer = XmlBuilder::new();

    if let Ok(_) = writer.write_event(XmlOut::Start("xml")) {
        write_leaf(&mut writer, "message", XmlOut::CData(msg));
        write_leaf(&mut writer, "code", XmlOut::Text("Access Deny"));
        let _ = writer.write_event(XmlOut::End("xml"));
    }
    assert(writer.text() =~= access_deny_xml(msg@));
    match finish(writer) {
        Ok(ret) => ret,
        Err(e) => e,
    }
}

/// The document that refuses a request, for an owned reason.
pub fn get_robot_response_access_deny(msg: String) -> (r: String)
    ensures
        r@ == access_deny_xml(msg@),
{
    get_robot_response_access_deny_content(msg.as_str())
}

proof fn lemma_markdown_frame()
    ensures
        open_tag("xml"@) + xml_element("MsgType"@, xml_cdata("markdown"@)) + (open_tag(
            "Markdown"@,
        ) + (open_tag("Content"@) + "<![CDATA["@))
            == "<xml><MsgType><![CDATA[markdown]]></MsgType><Markdown><Content><![CDATA["@,
        ("]]>"@ + close_tag("Content"@) + close_tag("Markdown"@)) + close_tag("xml"@)
            == "]]></Content></Markdown></xml>"@,
        "<xml><MsgType><![CDATA[markdown]]></MsgType><Markdown><Content><![CDATA["@.len() == 72,
        "]]></Content></Markdown></xml>"@.len() == 30,
{
    lemma_escape_literal_markdown();
    reveal_strlit("<");
    reveal_strlit(">");
    reveal_strlit("</");
    reveal_strlit("xml");
    reveal_strlit("MsgType");
    reveal_strlit("Markdown");
    reveal_strlit("markdown");
    reveal_strlit("Content");
    reveal_strlit("<![CDATA[");
    reveal_strlit("]]>");
    reveal_strlit("<xml><MsgType><![CDATA[markdown]]></MsgType><Markdown><Content><![CDATA[");
    reveal_strlit("]]></Content></Markdown></xml>");
    assert(open_tag("xml"@) + xml_element("MsgType"@, xml_cdata("markdown"@)) + (open_tag(
        "Markdown"@,
    ) + (open_tag("Content"@) + "<![CDATA["@))
        =~= "<xml><MsgType><![CDATA[markdown]]></MsgType><Markdown><Content><![CDATA["@);
    assert(("]]>"@ + close_tag("Content"@) + close_tag("Markdown"@)) + close_tag("xml"@)
        =~= "]]></Content></Markdown></xml>"@);
}

proof fn lemma_wrap2(o: Seq<char>, m: Seq<char>, a: Seq<char>, t: Seq<char>, b: Seq<char>, c: Seq<
    char,
>)
    ensures
        o + (m + (a + t + b)) + c == (o + m + a) + t + (b + c),
{
    assert(o + (m + (a + t + b)) + c =~= (o + m + a) + t + (b + c));
}

proof fn lemma_markdown_doc(c: Seq<char>)
    ensures
        markdown_message_xml(c)
            == "<xml><MsgType><![CDATA[markdown]]></MsgType><Markdown><Content><![CDATA["@ + c
            + "]]></Content></Markdown></xml>"@,
{
    let m = xml_element("MsgType"@, xml_cdata("markdown"@));
    let a = open_tag("Content"@) + "<![CDATA["@;
    let b = "]]>"@ + close_tag("Content"@);
    lemma_element("Content"@, xml_raw_cdata(c));
    lemma_wrap(open_tag("Content"@), "<![CDATA["@, c, "]]>"@, close_tag("Content"@));
    lemma_element("Markdown"@, a + c + b);
    lemma_wrap(open_tag("Markdown"@), a, c, b, close_tag("Markdown"@));
    let a2 = open_tag("Markdown"@) + a;
    let b2 = b + close_tag("Markdown"@);
    lemma_element("xml"@, m + (a2 + c + b2));
    lemma_wrap2(open_tag("xml"@), m, a2, c, b2, close_tag("xml"@));
    lemma_markdown_frame();
}

proof fn lemma_escape_literal_markdown()
    ensures
        xml_escape_chars("markdown"@) == "markdown"@,
{
    reveal_strlit("markdown");
    lemma_escape_chars_plain("markdown"@);
}

/// A markdown reply carries the content verbatim, whatever its length: the
/// document is the fixed markdown frame with the content's characters,
/// unchanged, inside the CDATA section of `<Content>`.
pub proof fn law_markdown_content_verbatim(msg: WXWorkMessageMarkdownRsp, r: Result<String, String>)
    requires
        call_ensures(pack_markdown_message, (msg,), r),
    ensures
        r matches Ok(s) && s@ == "<xml><MsgType><![CDATA[markdown]]></MsgType><Markdown><Content><![CDATA["@
            + msg.content@ + "]]></Content></Markdown></xml>"@,
        r matches Ok(s) && s@.len() == msg.content@.len() + 102 && s@.subrange(
            72,
            72 + msg.content@.len() as int,
        ) == msg.content@,
{
    let c = msg.content@;
    lemma_markdown_doc(c);
    lemma_markdown_frame();
    let s = r->Ok_0@;
    assert(s.subrange(72, 72 + c.len() as int) =~= c);
}

/// The tag that opens an element.
pub open spec fn open_tag(name: Seq<char>) -> Seq<char> {
    "<"@ + name + ">"@
}

/// The tag that closes an element.
pub open spec fn close_tag(name: Seq<char>) -> Seq<char> {
    "</"@ + name + ">"@
}

proof fn lemma_element(name: Seq<char>, body: Seq<char>)
    ensures
        xml_element(name, body) == open_tag(name) + body + close_tag(name),
{
    assert(xml_element(name, body) =~= open_tag(name) + body + close_tag(name));
}

proof fn lemma_wrap(o: Seq<char>, a: Seq<char>, t: Seq<char>, b: Seq<char>, c: Seq<char>)
    ensures
        o + (a + t + b) + c == (o + a) + t + (b + c),
{
    assert(o + (a + t + b) + c =~= (o + a) + t + (b + c));
}

/// A CDATA element, with its text escaped, between its fixed parts.
proof fn lemma_cdata_element(name: Seq<char>, t: Seq<char>)
    ensures
        xml_element(name, xml_cdata(t)) == (open_tag(name) + "<![CDATA["@) + xml_escape_chars(t)
            + ("]]>"@ + close_tag(name)),
{
    lemma_element(name, xml_cdata(t));
    lemma_wrap(open_tag(name), "<![CDATA["@, xml_escape_chars(t), "]]>"@, close_tag(name));
}

proof fn lemma_cat4(
    o: Seq<char>,
    a0: Seq<char>,
    t0: Seq<char>,
    b0: Seq<char>,
    a1: Seq<char>,
    t1: Seq<char>,
    b1: Seq<char>,
    a2: Seq<char>,
    t2: Seq<char>,
    b2: Seq<char>,
    a3: Seq<char>,
    t3: Seq<char>,
    b3: Seq<char>,
    c: Seq<char>,
)
    ensures
        o + ((a0 + t0 + b0) + (a1 + t1 + b1) + (a2 + t2 + b2) + (a3 + t3 + b3)) + c == (o + a0)
            + t0 + (b0 + a1) + t1 + (b1 + a2) + t2 + (b2 + a3) + t3 + (b3 + c),
{
    assert(o + ((a0 + t0 + b0) + (a1 + t1 + b1) + (a2 + t2 + b2) + (a3 + t3 + b3)) + c =~= (o
        + a0) + t0 + (b0 + a1) + t1 + (b1 + a2) + t2 + (b2 + a3) + t3 + (b3 + c));
}

proof fn lemma_response_frame()
    ensures
        open_tag("xml"@) + (open_tag("Encrypt"@) + "<![CDATA["@) == "<xml><Encrypt><![CDATA["@,
        ("]]>"@ + close_tag("Encrypt"@)) + (open_tag("MsgSignature"@) + "<![CDATA["@)
            == "]]></Encrypt><MsgSignature><![CDATA["@,
        ("]]>"@ + close_tag("MsgSignature"@)) + open_tag("TimeStamp"@)
            == "]]></MsgSignature><TimeStamp>"@,
        close_tag("TimeStamp"@) + (open_tag("Nonce"@) + "<![CDATA["@)
            == "</TimeStamp><Nonce><![CDATA["@,
        ("]]>"@ + close_tag("Nonce"@)) + close_tag("xml"@) == "]]></Nonce></xml>"@,
{
    reveal_strlit("<");
    reveal_strlit(">");
    reveal_strlit("</");
    reveal_strlit("xml");
    reveal_strlit("Encrypt");
    reveal_strlit("MsgSignature");
    reveal_strlit("TimeStamp");
    reveal_strlit("Nonce");
    reveal_strlit("<![CDATA[");
    reveal_strlit("]]>");
    reveal_strlit("<xml><Encrypt><![CDATA[");
    reveal_strlit("]]></Encrypt><MsgSignature><![CDATA[");
    reveal_strlit("]]></MsgSignature><TimeStamp>");
    reveal_strlit("</TimeStamp><Nonce><![CDATA[");
    reveal_strlit("]]></Nonce></xml>");
    assert(open_tag("xml"@) + (open_tag("Encrypt"@) + "<![CDATA["@) =~= "<xml><Encrypt><![CDATA["@);
    assert(("]]>"@ + close_tag("Encrypt"@)) + (open_tag("MsgSignature"@) + "<![CDATA["@)
        =~= "]]></Encrypt><MsgSignature><![CDATA["@);
    assert(("]]>"@ + close_tag("MsgSignature"@)) + open_tag("TimeStamp"@)
        =~= "]]></MsgSignature><TimeStamp>"@);
    assert(close_tag("TimeStamp"@) + (open_tag("Nonce"@) + "<![CDATA["@)
        =~= "</TimeStamp><Nonce><![CDATA["@);
    assert(("]]>"@ + close_tag("Nonce"@)) + close_tag("xml"@) =~= "]]></Nonce></xml>"@);
}

/// The encrypted reply's document, written out: each field in its own element,
/// the timestamp as escaped text and the others escaped in CDATA.
proof fn lemma_response_doc(e: Seq<char>, sig: Seq<char>, ts: Seq<char>, n: Seq<char>)
    ensures
        message_response_xml(e, sig, ts, n) == "<xml><Encrypt><![CDATA["@ + xml_escape_chars(e)
            + "]]></Encrypt><MsgSignature><![CDATA["@ + xml_escape_chars(sig)
            + "]]></MsgSignature><TimeStamp>"@ + xml_escape_chars(ts)
            + "</TimeStamp><Nonce><![CDATA["@ + xml_escape_chars(n) + "]]></Nonce></xml>"@,
{
    let body = xml_element("Encrypt"@, xml_cdata(e)) + xml_element("MsgSignature"@, xml_cdata(sig))
        + xml_element("TimeStamp"@, xml_escape_chars(ts)) + xml_element("Nonce"@, xml_cdata(n));
    lemma_element("xml"@, body);
    lemma_cdata_element("Encrypt"@, e);
    lemma_cdata_element("MsgSignature"@, sig);
    lemma_element("TimeStamp"@, xml_escape_chars(ts));
    lemma_cdata_element("Nonce"@, n);
    lemma_cat4(
        open_tag("xml"@),
        open_tag("Encrypt"@) + "<![CDATA["@,
        xml_escape_chars(e),
        "]]>"@ + close_tag("Encrypt"@),
        open_tag("MsgSignature"@) + "<![CDATA["@,
        xml_escape_chars(sig),
        "]]>"@ + close_tag("MsgSignature"@),
        open_tag("TimeStamp"@),
        xml_escape_chars(ts),
        close_tag("TimeStamp"@),
        open_tag("Nonce"@) + "<![CDATA["@,
        xml_escape_chars(n),
        "]]>"@ + close_tag("Nonce"@),
        close_tag("xml"@),
    );
    lemma_response_frame();
}

/// The encrypted reply holds each of its four fields whole, whatever their
/// lengths: `Encrypt`, `MsgSignature` and `Nonce` escaped in CDATA, `TimeStamp`
/// as escaped text, in this order and nothing else.
pub proof fn law_response_fields_whole(
    encrypt: String,
    msg_signature: String,
    timestamp: String,
    nonce: String,
    r: Result<String, String>,
)
    requires
        call_ensures(pack_message_response, (encrypt, msg_signature, timestamp, nonce), r),
    ensures
        r matches Ok(s) && s@ == "<xml><Encrypt><![CDATA["@ + xml_escape_chars(encrypt@)
            + "]]></Encrypt><MsgSignature><![CDATA["@ + xml_escape_chars(msg_signature@)
            + "]]></MsgSignature><TimeStamp>"@ + xml_escape_chars(timestamp@)
            + "</TimeStamp><Nonce><![CDATA["@ + xml_escape_chars(nonce@) + "]]></Nonce></xml>"@,
{
    lemma_response_doc(encrypt@, msg_signature@, timestamp@, nonce@);
}

/// A signature without markup characters stands in the encrypted reply as it
/// is, whole, as the CDATA section of `<MsgSignature>`.
pub proof fn law_response_plain_signature_verbatim(
    encrypt: String,
    msg_signature: String,
    timestamp: String,
    nonce: String,
    r: Result<String, String>,
)
    requires
        call_ensures(pack_message_response, (encrypt, msg_signature, timestamp, nonce), r),
        has_no_markup(msg_signature@),
    ensures
        r matches Ok(s) && exists|x: Seq<char>, y: Seq<char>|
            s@ == x + "<MsgSignature><![CDATA["@ + msg_signature@ + "]]></MsgSignature>"@ + y,
{
    lemma_response_doc(encrypt@, msg_signature@, timestamp@, nonce@);
    lemma_escape_chars_plain(msg_signature@);
    lemma_response_signature_frame();
    let x = "<xml><Encrypt><![CDATA["@ + xml_escape_chars(encrypt@) + "]]></Encrypt>"@;
    let y = "<TimeStamp>"@ + xml_escape_chars(timestamp@) + "</TimeStamp><Nonce><![CDATA["@
        + xml_escape_chars(nonce@) + "]]></Nonce></xml>"@;
    assert(r->Ok_0@ =~= x + "<MsgSignature><![CDATA["@ + msg_signature@ + "]]></MsgSignature>"@
        + y);
}

proof fn lemma_response_signature_frame()
    ensures
        "]]></Encrypt>"@ + "<MsgSignature><![CDATA["@ == "]]></Encrypt><MsgSignature><![CDATA["@,
        "]]></MsgSignature>"@ + "<TimeStamp>"@ == "]]></MsgSignature><TimeStamp>"@,
{
    reveal_strlit("]]></Encrypt>");
    reveal_strlit("<MsgSignature><![CDATA[");
    reveal_strlit("]]></Encrypt><MsgSignature><![CDATA[");
    reveal_strlit("]]></MsgSignature>");
    reveal_strlit("<TimeStamp>");
    reveal_strlit("]]></MsgSignature><TimeStamp>");
    assert("]]></Encrypt>"@ + "<MsgSignature><![CDATA["@ =~= "]]></Encrypt><MsgSignature><![CDATA["@);
    assert("]]></MsgSignature>"@ + "<TimeStamp>"@ =~= "]]></MsgSignature><TimeStamp>"@);
}

proof fn lemma_regroup(
    x0: Seq<char>,
    x1: Seq<char>,
    x2: Seq<char>,
    t: Seq<char>,
    y0: Seq<char>,
    y1: Seq<char>,
    y2: Seq<char>,
    y3: Seq<char>,
    y4: Seq<char>,
)
    ensures
        x0 + x1 + x2 + t + y0 + y1 + y2 + y3 + y4 == (x0 + x1 + x2) + t + (y0 + y1 + y2 + y3 + y4),
{
    assert(x0 + x1 + x2 + t + y0 + y1 + y2 + y3 + y4 =~= (x0 + x1 + x2) + t + (y0 + y1 + y2 + y3
        + y4));
}

/// Two encrypted replies that differ only in the signature differ only in the
/// place of the signature, which holds each signature whole and escaped.
pub proof fn law_response_signature_alone(
    encrypt: String,
    sig1: String,
    sig2: String,
    timestamp: String,
    nonce: String,
    r1: Result<String, String>,
    r2: Result<String, String>,
)
    requires
        call_ensures(pack_message_response, (encrypt, sig1, timestamp, nonce), r1),
        call_ensures(pack_message_response, (encrypt, sig2, timestamp, nonce), r2),
    ensures
        r1 is Ok && r2 is Ok,
        exists|x: Seq<char>, y: Seq<char>|
            r1->Ok_0@ == x + xml_escape_chars(sig1@) + y && r2->Ok_0@ == x + xml_escape_chars(
                sig2@,
            ) + y,
{
    lemma_response_doc(encrypt@, sig1@, timestamp@, nonce@);
    lemma_response_doc(encrypt@, sig2@, timestamp@, nonce@);
    let e = xml_escape_chars(encrypt@);
    let t = xml_escape_chars(timestamp@);
    let n = xml_escape_chars(nonce@);
    let x0 = "<xml><Encrypt><![CDATA["@;
    let x2 = "]]></Encrypt><MsgSignature><![CDATA["@;
    let y0 = "]]></MsgSignature><TimeStamp>"@;
    let y2 = "</TimeStamp><Nonce><![CDATA["@;
    let y4 = "]]></Nonce></xml>"@;
    lemma_regroup(x0, e, x2, xml_escape_chars(sig1@), y0, t, y2, n, y4);
    lemma_regroup(x0, e, x2, xml_escape_chars(sig2@), y0, t, y2, n, y4);
    assert(r1->Ok_0@ == (x0 + e + x2) + xml_escape_chars(sig1@) + (y0 + t + y2 + n + y4));
}

/// No texts give no `<Item>` element.
pub proof fn law_items_empty()
    ensures
        xml_items(Seq::empty()) == Seq::<char>::empty(),
{
    reveal(xml_items);
}

proof fn lemma_item_frame()
    ensures
        open_tag("Item"@) + "<![CDATA["@ == "<Item><![CDATA["@,
        "]]>"@ + close_tag("Item"@) == "]]></Item>"@,
{
    reveal_strlit("<");
    reveal_strlit(">");
    reveal_strlit("</");
    reveal_strlit("Item");
    reveal_strlit("<![CDATA[");
    reveal_strlit("]]>");
    reveal_strlit("<Item><![CDATA[");
    reveal_strlit("]]></Item>");
    assert(open_tag("Item"@) + "<![CDATA["@ =~= "<Item><![CDATA["@);
    assert("]]>"@ + close_tag("Item"@) =~= "]]></Item>"@);
}

/// One `<Item>` element holding the text escaped in CDATA.
proof fn lemma_item(u: Seq<char>)
    ensures
        xml_element("Item"@, xml_cdata(u)) == "<Item><![CDATA["@ + xml_escape_chars(u)
            + "]]></Item>"@,
{
    lemma_cdata_element("Item"@, u);
    lemma_item_frame();
}

/// One more text at the end of the list gives one more `<Item>` at the end,
/// holding that text escaped in CDATA, and leaves the others as they were.
pub proof fn law_items_push(l: Seq<Seq<char>>, u: Seq<char>)
    ensures
        xml_items(l.push(u)) == xml_items(l) + ("<Item><![CDATA["@ + xml_escape_chars(u)
            + "]]></Item>"@),
{
    reveal(xml_items);
    assert(l.push(u).drop_last() =~= l);
    lemma_item(u);
}

/// The `<Item>` elements of two lists one after the other are those of the
/// joined list.
pub proof fn law_items_concat(a: Seq<Seq<char>>, b: Seq<Seq<char>>)
    ensures
        xml_items(a + b) == xml_items(a) + xml_items(b),
    decreases b.len(),
{
    if b.len() == 0 {
        assert(a + b =~= a);
        assert(b =~= Seq::<Seq<char>>::empty());
        law_items_empty();
        assert(xml_items(a) + xml_items(b) =~= xml_items(a));
    } else {
        let b0 = b.drop_last();
        let u = b.last();
        assert(a + b =~= (a + b0).push(u));
        assert(b =~= b0.push(u));
        law_items_concat(a, b0);
        law_items_push(a + b0, u);
        law_items_push(b0, u);
        let it = "<Item><![CDATA["@ + xml_escape_chars(u) + "]]></Item>"@;
        assert(xml_items(a) + xml_items(b0) + it =~= xml_items(a) + (xml_items(b0) + it));
    }
}

/// The `i`-th text of a list stands, escaped in CDATA, in the `i`-th `<Item>`:
/// after the elements of the texts before it and before those of the texts
/// after it.
pub proof fn law_items_at(l: Seq<Seq<char>>, i: int)
    requires
        0 <= i < l.len(),
    ensures
        xml_items(l) == xml_items(l.take(i)) + ("<Item><![CDATA["@ + xml_escape_chars(l[i])
            + "]]></Item>"@) + xml_items(l.skip(i + 1)),
{
    assert(l =~= l.take(i).push(l[i]) + l.skip(i + 1));
    law_items_concat(l.take(i).push(l[i]), l.skip(i + 1));
    law_items_push(l.take(i), l[i]);
}

proof fn lemma_text_frame()
    ensures
        open_tag("xml"@) + xml_element("MsgType"@, xml_cdata("text"@)) + open_tag("Text"@) + (
        open_tag("Content"@) + "<![CDATA["@)
            == "<xml><MsgType><![CDATA[text]]></MsgType><Text><Content><![CDATA["@,
        ("]]>"@ + close_tag("Content"@)) + open_tag("MentionedList"@)
            == "]]></Content><MentionedList>"@,
        close_tag("MentionedList"@) + open_tag("MentionedMobileList"@)
            == "</MentionedList><MentionedMobileList>"@,
        close_tag("MentionedMobileList"@) + close_tag("Text"@) + close_tag("xml"@)
            == "</MentionedMobileList></Text></xml>"@,
{
    lemma_escape_literal_text();
    reveal_strlit("<");
    reveal_strlit(">");
    reveal_strlit("</");
    reveal_strlit("xml");
    reveal_strlit("MsgType");
    reveal_strlit("text");
    reveal_strlit("Text");
    reveal_strlit("Content");
    reveal_strlit("MentionedList");
    reveal_strlit("MentionedMobileList");
    reveal_strlit("<![CDATA[");
    reveal_strlit("]]>");
    reveal_strlit("<xml><MsgType><![CDATA[text]]></MsgType><Text><Content><![CDATA[");
    reveal_strlit("]]></Content><MentionedList>");
    reveal_strlit("</MentionedList><MentionedMobileList>");
    reveal_strlit("</MentionedMobileList></Text></xml>");
    assert(open_tag("xml"@) + xml_element("MsgType"@, xml_cdata("text"@)) + open_tag("Text"@) + (
    open_tag("Content"@) + "<![CDATA["@)
        =~= "<xml><MsgType><![CDATA[text]]></MsgType><Text><Content><![CDATA["@);
    assert(("]]>"@ + close_tag("Content"@)) + open_tag("MentionedList"@)
        =~= "]]></Content><MentionedList>"@);
    assert(close_tag("MentionedList"@) + open_tag("MentionedMobileList"@)
        =~= "</MentionedList><MentionedMobileList>"@);
    assert(close_tag("MentionedMobileList"@) + close_tag("Text"@) + close_tag("xml"@)
        =~= "</MentionedMobileList></Text></xml>"@);
}

proof fn lemma_escape_literal_text()
    ensures
        xml_escape_chars("text"@) == "text"@,
{
    reveal_strlit("text");
    lemma_escape_chars_plain("text"@);
}

proof fn lemma_cat3_nested(
    o: Seq<char>,
    m: Seq<char>,
    ot: Seq<char>,
    a0: Seq<char>,
    t0: Seq<char>,
    b0: Seq<char>,
    a1: Seq<char>,
    t1: Seq<char>,
    b1: Seq<char>,
    a2: Seq<char>,
    t2: Seq<char>,
    b2: Seq<char>,
    ct: Seq<char>,
    c: Seq<char>,
)
    ensures
        o + (m + (ot + ((a0 + t0 + b0) + (a1 + t1 + b1) + (a2 + t2 + b2)) + ct)) + c == (o + m + ot
            + a0) + t0 + (b0 + a1) + t1 + (b1 + a2) + t2 + (b2 + ct + c),
{
    assert(o + (m + (ot + ((a0 + t0 + b0) + (a1 + t1 + b1) + (a2 + t2 + b2)) + ct)) + c =~= (o + m
        + ot + a0) + t0 + (b0 + a1) + t1 + (b1 + a2) + t2 + (b2 + ct + c));
}

/// The text reply's document, written out.
proof fn lemma_text_doc(c: Seq<char>, l: Seq<Seq<char>>, m: Seq<Seq<char>>)
    ensures
        text_message_xml(c, l, m)
            == "<xml><MsgType><![CDATA[text]]></MsgType><Text><Content><![CDATA["@
            + xml_escape_chars(c) + "]]></Content><MentionedList>"@ + xml_items(l)
            + "</MentionedList><MentionedMobileList>"@ + xml_items(m)
            + "</MentionedMobileList></Text></xml>"@,
{
    let mt = xml_element("MsgType"@, xml_cdata("text"@));
    let body = xml_element("Content"@, xml_cdata(c)) + xml_element("MentionedList"@, xml_items(l))
        + xml_element("MentionedMobileList"@, xml_items(m));
    lemma_element("xml"@, mt + xml_element("Text"@, body));
    lemma_element("Text"@, body);
    lemma_cdata_element("Content"@, c);
    lemma_element("MentionedList"@, xml_items(l));
    lemma_element("MentionedMobileList"@, xml_items(m));
    lemma_cat3_nested(
        open_tag("xml"@),
        mt,
        open_tag("Text"@),
        open_tag("Content"@) + "<![CDATA["@,
        xml_escape_chars(c),
        "]]>"@ + close_tag("Content"@),
        open_tag("MentionedList"@),
        xml_items(l),
        close_tag("MentionedList"@),
        open_tag("MentionedMobileList"@),
        xml_items(m),
        close_tag("MentionedMobileList"@),
        close_tag("Text"@),
        close_tag("xml"@),
    );
    lemma_text_frame();
}

/// A text reply holds the content escaped in CDATA, then in
/// `<MentionedList>` the `<Item>` elements of the mentioned users, then in
/// `<MentionedMobileList>` those of the mobile numbers in decimal, for lists
/// of any length.
pub proof fn law_text_reply_layout(msg: WXWorkMessageTextRsp, r: Result<String, String>)
    requires
        call_ensures(pack_text_message, (msg,), r),
    ensures
        r matches Ok(s) && s@
            == "<xml><MsgType><![CDATA[text]]></MsgType><Text><Content><![CDATA["@
            + xml_escape_chars(msg.content@) + "]]></Content><MentionedList>"@ + xml_items(
            texts(msg.mentioned_list@),
        ) + "</MentionedList><MentionedMobileList>"@ + xml_items(
            decimal_texts(msg.mentioned_mobile_list@),
        ) + "</MentionedMobileList></Text></xml>"@,
{
    lemma_text_doc(
        msg.content@,
        texts(msg.mentioned_list@),
        decimal_texts(msg.mentioned_mobile_list@),
    );
}

/// In a text reply, the `i`-th mentioned user stands, escaped in CDATA, in the
/// `i`-th `<Item>` of `<MentionedList>`, after the elements of the users before
/// it and before those of the users after it.
pub proof fn law_text_reply_mentions_in_order(
    msg: WXWorkMessageTextRsp,
    r: Result<String, String>,
    i: int,
)
    requires
        call_ensures(pack_text_message, (msg,), r),
        0 <= i < msg.mentioned_list@.len(),
    ensures
        r matches Ok(s) && s@
            == "<xml><MsgType><![CDATA[text]]></MsgType><Text><Content><![CDATA["@
            + xml_escape_chars(msg.content@) + "]]></Content><MentionedList>"@ + xml_items(
            texts(msg.mentioned_list@.take(i)),
        ) + ("<Item><![CDATA["@ + xml_escape_chars(msg.mentioned_list@[i]@) + "]]></Item>"@)
            + xml_items(texts(msg.mentioned_list@.skip(i + 1)))
            + "</MentionedList><MentionedMobileList>"@ + xml_items(
            decimal_texts(msg.mentioned_mobile_list@),
        ) + "</MentionedMobileList></Text></xml>"@,
{
    let l = texts(msg.mentioned_list@);
    law_text_reply_layout(msg, r);
    law_items_at(l, i);
    assert(l.take(i) =~= texts(msg.mentioned_list@.take(i)));
    assert(l.skip(i + 1) =~= texts(msg.mentioned_list@.skip(i + 1)));
}

proof fn lemma_list_close_frame()
    ensures
        "</MentionedList>"@ + "<MentionedMobileList>"@ == "</MentionedList><MentionedMobileList>"@,
        "</MentionedMobileList>"@ + "</Text></xml>"@ == "</MentionedMobileList></Text></xml>"@,
{
    reveal_strlit("</MentionedList>");
    reveal_strlit("<MentionedMobileList>");
    reveal_strlit("</MentionedList><MentionedMobileList>");
    reveal_strlit("</MentionedMobileList>");
    reveal_strlit("</Text></xml>");
    reveal_strlit("</MentionedMobileList></Text></xml>");
    assert("</MentionedList>"@ + "<MentionedMobileList>"@
        =~= "</MentionedList><MentionedMobileList>"@);
    assert("</MentionedMobileList>"@ + "</Text></xml>"@
        =~= "</MentionedMobileList></Text></xml>"@);
}

proof fn lemma_regroup_text(
    x0: Seq<char>,
    c: Seq<char>,
    x1: Seq<char>,
    l: Seq<char>,
    a: Seq<char>,
    b: Seq<char>,
    m: Seq<char>,
    x3: Seq<char>,
    u: Seq<char>,
)
    ensures
        x0 + c + x1 + l + (a + b) + m + x3 == (x0 + c + x1 + l) + a + (b + m + x3),
        x0 + c + x1 + (l + u) + (a + b) + m + x3 == (x0 + c + x1 + l) + u + a + (b + m + x3),
{
    assert(x0 + c + x1 + l + (a + b) + m + x3 =~= (x0 + c + x1 + l) + a + (b + m + x3));
    assert(x0 + c + x1 + (l + u) + (a + b) + m + x3 =~= (x0 + c + x1 + l) + u + a + (b + m
        + x3));
}

/// Mentioning one more user, at the end of the list, adds exactly one
/// `<Item>` holding that user escaped in CDATA, at the end of
/// `<MentionedList>`, and changes nothing else in the text reply.
pub proof fn law_text_reply_mention_one_more(
    msg1: WXWorkMessageTextRsp,
    msg2: WXWorkMessageTextRsp,
    r1: Result<String, String>,
    r2: Result<String, String>,
)
    requires
        call_ensures(pack_text_message, (msg1,), r1),
        call_ensures(pack_text_message, (msg2,), r2),
        msg2.content@ == msg1.content@,
        msg2.mentioned_list@.len() == msg1.mentioned_list@.len() + 1,
        forall|i: int|
            0 <= i < msg1.mentioned_list@.len() ==> #[trigger] msg2.mentioned_list@[i]@
                == msg1.mentioned_list@[i]@,
        msg2.mentioned_mobile_list@ == msg1.mentioned_mobile_list@,
    ensures
        r1 is Ok && r2 is Ok,
        exists|x: Seq<char>, y: Seq<char>|
            r1->Ok_0@ == x + "</MentionedList>"@ + y && r2->Ok_0@ == x + ("<Item><![CDATA["@
                + xml_escape_chars(msg2.mentioned_list@.last()@) + "]]></Item>"@)
                + "</MentionedList>"@ + y,
{
    let l1 = texts(msg1.mentioned_list@);
    let u = msg2.mentioned_list@.last()@;
    assert(texts(msg2.mentioned_list@) =~= l1.push(u));
    let item = "<Item><![CDATA["@ + xml_escape_chars(u) + "]]></Item>"@;
    law_items_push(l1, u);
    law_text_reply_layout(msg1, r1);
    law_text_reply_layout(msg2, r2);
    lemma_list_close_frame();
    let x0 = "<xml><MsgType><![CDATA[text]]></MsgType><Text><Content><![CDATA["@;
    let c = xml_escape_chars(msg1.content@);
    let x1 = "]]></Content><MentionedList>"@;
    let m = xml_items(decimal_texts(msg1.mentioned_mobile_list@));
    let x3 = "</MentionedMobileList></Text></xml>"@;
    lemma_regroup_text(
        x0,
        c,
        x1,
        xml_items(l1),
        "</MentionedList>"@,
        "<MentionedMobileList>"@,
        m,
        x3,
        item,
    );
    let x = x0 + c + x1 + xml_items(l1);
    let y = "<MentionedMobileList>"@ + m + x3;
    assert(r1->Ok_0@ == x + "</MentionedList>"@ + y);
    assert(r2->Ok_0@ == x + item + "</MentionedList>"@ + y);
}

proof fn lemma_empty_list_frame()
    ensures
        "]]></Content><MentionedList>"@ + Seq::<char>::empty()
            + "</MentionedList><MentionedMobileList>"@ == "]]></Content>"@
            + "<MentionedList></MentionedList>"@ + "<MentionedMobileList>"@,
{
    reveal_strlit("]]></Content><MentionedList>");
    reveal_strlit("</MentionedList><MentionedMobileList>");
    reveal_strlit("]]></Content>");
    reveal_strlit("<MentionedList></MentionedList>");
    reveal_strlit("<MentionedMobileList>");
    assert("]]></Content><MentionedList>"@ + Seq::<char>::empty()
        + "</MentionedList><MentionedMobileList>"@ =~= "]]></Content>"@
        + "<MentionedList></MentionedList>"@ + "<MentionedMobileList>"@);
}

proof fn lemma_regroup_empty(
    x0: Seq<char>,
    c: Seq<char>,
    a: Seq<char>,
    b: Seq<char>,
    d: Seq<char>,
    m: Seq<char>,
    x3: Seq<char>,
)
    ensures
        x0 + c + (a + b + d) + m + x3 == (x0 + c + a) + b + (d + m + x3),
{
    assert(x0 + c + (a + b + d) + m + x3 =~= (x0 + c + a) + b + (d + m + x3));
}

/// A text reply that mentions nobody has an empty `<MentionedList>`.
pub proof fn law_text_reply_no_mentions(msg: WXWorkMessageTextRsp, r: Result<String, String>)
    requires
        call_ensures(pack_text_message, (msg,), r),
        msg.mentioned_list@.len() == 0,
    ensures
        r matches Ok(s) && exists|x: Seq<char>, y: Seq<char>|
            s@ == x + "<MentionedList></MentionedList>"@ + y,
{
    law_text_reply_layout(msg, r);
    assert(texts(msg.mentioned_list@) =~= Seq::<Seq<char>>::empty());
    law_items_empty();
    lemma_empty_list_frame();
    let x0 = "<xml><MsgType><![CDATA[text]]></MsgType><Text><Content><![CDATA["@;
    let c = xml_escape_chars(msg.content@);
    let m = xml_items(decimal_texts(msg.mentioned_mobile_list@));
    let x3 = "</MentionedMobileList></Text></xml>"@;
    lemma_regroup_empty(
        x0,
        c,
        "]]></Content>"@,
        "<MentionedList></MentionedList>"@,
        "<MentionedMobileList>"@,
        m,
        x3,
    );
    assert(r->Ok_0@ == (x0 + c + "]]></Content>"@) + "<MentionedList></MentionedList>"@ + (
    "<MentionedMobileList>"@ + m + x3));
}

/// A CDATA element, with its text as it is, between its fixed parts.
proof fn lemma_raw_cdata_element(name: Seq<char>, t: Seq<char>)
    ensures
        xml_element(name, xml_raw_cdata(t)) == (open_tag(name) + "<![CDATA["@) + t + ("]]>"@
            + close_tag(name)),
{
    lemma_element(name, xml_raw_cdata(t));
    lemma_wrap(open_tag(name), "<![CDATA["@, t, "]]>"@, close_tag(name));
}

proof fn lemma_escape_literal_image()
    ensures
        xml_escape_chars("image"@) == "image"@,
{
    reveal_strlit("image");
    lemma_escape_chars_plain("image"@);
}

proof fn lemma_image_frame()
    ensures
        open_tag("xml"@) + xml_element("MsgType"@, xml_cdata("image"@)) + open_tag("Image"@) + (
        open_tag("Base64"@) + "<![CDATA["@)
            == "<xml><MsgType><![CDATA[image]]></MsgType><Image><Base64><![CDATA["@,
        "]]>"@ + close_tag("Base64"@) == "]]></Base64>"@,
        open_tag("Md5"@) + "<![CDATA["@ == "<Md5><![CDATA["@,
        "]]>"@ + close_tag("Md5"@) == "]]></Md5>"@,
        close_tag("Image"@) + close_tag("xml"@) == "</Image></xml>"@,
{
    lemma_escape_literal_image();
    reveal_strlit("<");
    reveal_strlit(">");
    reveal_strlit("</");
    reveal_strlit("xml");
    reveal_strlit("MsgType");
    reveal_strlit("image");
    reveal_strlit("Image");
    reveal_strlit("Base64");
    reveal_strlit("Md5");
    reveal_strlit("<![CDATA[");
    reveal_strlit("]]>");
    reveal_strlit("<xml><MsgType><![CDATA[image]]></MsgType><Image><Base64><![CDATA[");
    reveal_strlit("]]></Base64>");
    reveal_strlit("<Md5><![CDATA[");
    reveal_strlit("]]></Md5>");
    reveal_strlit("</Image></xml>");
    assert(open_tag("xml"@) + xml_element("MsgType"@, xml_cdata("image"@)) + open_tag("Image"@) + (
    open_tag("Base64"@) + "<![CDATA["@)
        =~= "<xml><MsgType><![CDATA[image]]></MsgType><Image><Base64><![CDATA["@);
    assert("]]>"@ + close_tag("Base64"@) =~= "]]></Base64>"@);
    assert(open_tag("Md5"@) + "<![CDATA["@ =~= "<Md5><![CDATA["@);
    assert("]]>"@ + close_tag("Md5"@) =~= "]]></Md5>"@);
    assert(close_tag("Image"@) + close_tag("xml"@) =~= "</Image></xml>"@);
}

proof fn lemma_image_nest(
    o: Seq<char>,
    m: Seq<char>,
    oi: Seq<char>,
    a: Seq<char>,
    t: Seq<char>,
    b: Seq<char>,
    p: Seq<char>,
    ci: Seq<char>,
    c: Seq<char>,
)
    ensures
        o + (m + (oi + ((a + t + b) + p) + ci)) + c == (o + m + oi + a) + t + b + p + (ci + c),
{
    assert(o + (m + (oi + ((a + t + b) + p) + ci)) + c =~= (o + m + oi + a) + t + b + p + (ci + c));
}

/// The Md5 part of an image reply, written out.
pub open spec fn md5_part(md5: Option<Seq<u8>>) -> Seq<char> {
    match md5 {
        Some(d) => "<Md5><![CDATA["@ + hex_lower(d) + "]]></Md5>"@,
        None => Seq::empty(),
    }
}

/// The image reply's document, written out.
proof fn lemma_image_doc(content: Seq<u8>, md5: Option<Seq<u8>>)
    ensures
        image_message_xml(content, md5)
            == "<xml><MsgType><![CDATA[image]]></MsgType><Image><Base64><![CDATA["@ + base64_chars(
            content,
        ) + "]]></Base64>"@ + md5_part(md5) + "</Image></xml>"@,
{
    let mt = xml_element("MsgType"@, xml_cdata("image"@));
    let b64 = base64_chars(content);
    let p = match md5 {
        Some(d) => xml_element("Md5"@, xml_raw_cdata(hex_lower(d))),
        None => Seq::<char>::empty(),
    };
    let body = xml_element("Base64"@, xml_raw_cdata(b64)) + p;
    lemma_element("xml"@, mt + xml_element("Image"@, body));
    lemma_element("Image"@, body);
    lemma_raw_cdata_element("Base64"@, b64);
    if let Some(d) = md5 {
        lemma_raw_cdata_element("Md5"@, hex_lower(d));
    }
    lemma_image_frame();
    lemma_image_nest(
        open_tag("xml"@),
        mt,
        open_tag("Image"@),
        open_tag("Base64"@) + "<![CDATA["@,
        b64,
        "]]>"@ + close_tag("Base64"@),
        p,
        close_tag("Image"@),
        close_tag("xml"@),
    );
}

/// An image reply holds the whole image in Base64 and, where a digest is
/// given, that digest in lowercase hexadecimal in `<Md5>`; with no digest there
/// is no `<Md5>` element. This holds for images of any size.
pub proof fn law_image_reply_layout(
    msg: WXWorkMessageImageRsp,
    digest: Option<Vec<u8>>,
    r: Result<String, String>,
)
    requires
        call_ensures(pack_image_message_with_digest, (msg, digest), r),
    ensures
        r matches Ok(s) && s@
            == "<xml><MsgType><![CDATA[image]]></MsgType><Image><Base64><![CDATA["@ + base64_chars(
            msg.content@,
        ) + "]]></Base64>"@ + md5_part(bytes_opt(digest)) + "</Image></xml>"@,
{
    lemma_image_doc(msg.content@, bytes_opt(digest));
}

/// An image reply packed with its own digest holds the image in Base64 and
/// `<Md5>` with the MD5 digest of the image in lowercase hexadecimal, or, where
/// OpenSSL did not compute the digest, no `<Md5>` element; nothing else.
pub proof fn law_image_reply_digest(msg: WXWorkMessageImageRsp, r: Result<String, String>)
    requires
        call_ensures(pack_image_message, (msg,), r),
    ensures
        r matches Ok(s) && (s@
            == "<xml><MsgType><![CDATA[image]]></MsgType><Image><Base64><![CDATA["@ + base64_chars(
            msg.content@,
        ) + "]]></Base64><Md5><![CDATA["@ + hex_lower(md5_digest(msg.content@))
            + "]]></Md5></Image></xml>"@ || s@
            == "<xml><MsgType><![CDATA[image]]></MsgType><Image><Base64><![CDATA["@ + base64_chars(
            msg.content@,
        ) + "]]></Base64></Image></xml>"@),
{
    let c = msg.content@;
    lemma_image_doc(c, Some(md5_digest(c)));
    lemma_image_doc(c, None);
    lemma_image_tail_frame();
    let x = "<xml><MsgType><![CDATA[image]]></MsgType><Image><Base64><![CDATA["@ + base64_chars(c);
    let h = hex_lower(md5_digest(c));
    assert(x + "]]></Base64>"@ + md5_part(Some(md5_digest(c))) + "</Image></xml>"@ =~= x
        + "]]></Base64><Md5><![CDATA["@ + h + "]]></Md5></Image></xml>"@);
    assert(x + "]]></Base64>"@ + md5_part(None) + "</Image></xml>"@ =~= x
        + "]]></Base64></Image></xml>"@);
}

proof fn lemma_image_tail_frame()
    ensures
        "]]></Base64>"@ + "<Md5><![CDATA["@ == "]]></Base64><Md5><![CDATA["@,
        "]]></Md5>"@ + "</Image></xml>"@ == "]]></Md5></Image></xml>"@,
        "]]></Base64>"@ + "</Image></xml>"@ == "]]></Base64></Image></xml>"@,
{
    reveal_strlit("]]></Base64>");
    reveal_strlit("<Md5><![CDATA[");
    reveal_strlit("]]></Base64><Md5><![CDATA[");
    reveal_strlit("]]></Md5>");
    reveal_strlit("</Image></xml>");
    reveal_strlit("]]></Md5></Image></xml>");
    reveal_strlit("]]></Base64></Image></xml>");
    assert("]]></Base64>"@ + "<Md5><![CDATA["@ =~= "]]></Base64><Md5><![CDATA["@);
    assert("]]></Md5>"@ + "</Image></xml>"@ =~= "]]></Md5></Image></xml>"@);
    assert("]]></Base64>"@ + "</Image></xml>"@ =~= "]]></Base64></Image></xml>"@);
}

proof fn lemma_regroup_tail(
    x0: Seq<char>,
    c: Seq<char>,
    x1: Seq<char>,
    l: Seq<char>,
    x2: Seq<char>,
    m: Seq<char>,
    a: Seq<char>,
    b: Seq<char>,
    u: Seq<char>,
)
    ensures
        x0 + c + x1 + l + x2 + m + (a + b) == (x0 + c + x1 + l + x2 + m) + a + b,
        x0 + c + x1 + l + x2 + (m + u) + (a + b) == (x0 + c + x1 + l + x2 + m) + u + a + b,
{
    assert(x0 + c + x1 + l + x2 + m + (a + b) =~= (x0 + c + x1 + l + x2 + m) + a + b);
    assert(x0 + c + x1 + l + x2 + (m + u) + (a + b) =~= (x0 + c + x1 + l + x2 + m) + u + a + b);
}

/// Mentioning one more mobile number, at the end of the list, adds exactly one
/// `<Item>` holding that number in decimal, in CDATA, at the end of
/// `<MentionedMobileList>`, and changes nothing else in the text reply.
pub proof fn law_text_reply_mobile_one_more(
    msg1: WXWorkMessageTextRsp,
    msg2: WXWorkMessageTextRsp,
    r1: Result<String, String>,
    r2: Result<String, String>,
)
    requires
        call_ensures(pack_text_message, (msg1,), r1),
        call_ensures(pack_text_message, (msg2,), r2),
        msg2.content@ == msg1.content@,
        msg2.mentioned_list@.len() == msg1.mentioned_list@.len(),
        forall|i: int|
            0 <= i < msg1.mentioned_list@.len() ==> #[trigger] msg2.mentioned_list@[i]@
                == msg1.mentioned_list@[i]@,
        msg2.mentioned_mobile_list@.len() > 0,
        msg2.mentioned_mobile_list@.drop_last() == msg1.mentioned_mobile_list@,
    ensures
        r1 is Ok && r2 is Ok,
        exists|x: Seq<char>, y: Seq<char>|
            r1->Ok_0@ == x + "</MentionedMobileList>"@ + y && r2->Ok_0@ == x + ("<Item><![CDATA["@
                + xml_escape_chars(decimal_chars(msg2.mentioned_mobile_list@.last() as nat))
                + "]]></Item>"@) + "</MentionedMobileList>"@ + y,
{
    let m1 = decimal_texts(msg1.mentioned_mobile_list@);
    let u = decimal_chars(msg2.mentioned_mobile_list@.last() as nat);
    assert(decimal_texts(msg2.mentioned_mobile_list@) =~= m1.push(u));
    assert(texts(msg2.mentioned_list@) =~= texts(msg1.mentioned_list@));
    let item = "<Item><![CDATA["@ + xml_escape_chars(u) + "]]></Item>"@;
    law_items_push(m1, u);
    law_text_reply_layout(msg1, r1);
    law_text_reply_layout(msg2, r2);
    lemma_list_close_frame();
    let x0 = "<xml><MsgType><![CDATA[text]]></MsgType><Text><Content><![CDATA["@;
    let c = xml_escape_chars(msg1.content@);
    let x1 = "]]></Content><MentionedList>"@;
    let l = xml_items(texts(msg1.mentioned_list@));
    let x2 = "</MentionedList><MentionedMobileList>"@;
    lemma_regroup_tail(
        x0,
        c,
        x1,
        l,
        x2,
        xml_items(m1),
        "</MentionedMobileList>"@,
        "</Text></xml>"@,
        item,
    );
    let x = x0 + c + x1 + l + x2 + xml_items(m1);
    let y = "</Text></xml>"@;
    assert(r1->Ok_0@ == x + "</MentionedMobileList>"@ + y);
    assert(r2->Ok_0@ == x + item + "</MentionedMobileList>"@ + y);
}

proof fn lemma_access_deny_frame()
    ensures
        open_tag("xml"@) + (open_tag("message"@) + "<![CDATA["@) == "<xml><message><![CDATA["@,
        ("]]>"@ + close_tag("message"@)) + xml_element("code"@, xml_escape_chars("Access Deny"@))
            + close_tag("xml"@) == "]]></message><code>Access Deny</code></xml>"@,
{
    reveal_strlit("Access Deny");
    lemma_escape_chars_plain("Access Deny"@);
    reveal_strlit("<");
    reveal_strlit(">");
    reveal_strlit("</");
    reveal_strlit("xml");
    reveal_strlit("message");
    reveal_strlit("code");
    reveal_strlit("<![CDATA[");
    reveal_strlit("]]>");
    reveal_strlit("<xml><message><![CDATA[");
    reveal_strlit("]]></message><code>Access Deny</code></xml>");
    assert(open_tag("xml"@) + (open_tag("message"@) + "<![CDATA["@) =~= "<xml><message><![CDATA["@);
    assert(("]]>"@ + close_tag("message"@)) + xml_element("code"@, xml_escape_chars("Access Deny"@))
        + close_tag("xml"@) =~= "]]></message><code>Access Deny</code></xml>"@);
}

/// The refusal of a request holds the reason, escaped in CDATA, in
/// `<message>`, and the code `Access Deny` in `<code>`, whatever the reason.
pub proof fn law_access_deny_layout(msg: &str, r: String)
    requires
        call_ensures(get_robot_response_access_deny_content, (msg,), r),
    ensures
        r@ == "<xml><message><![CDATA["@ + xml_escape_chars(msg@)
            + "]]></message><code>Access Deny</code></xml>"@,
{
    let code = xml_element("code"@, xml_escape_chars("Access Deny"@));
    lemma_element("xml"@, xml_element("message"@, xml_cdata(msg@)) + code);
    lemma_cdata_element("message"@, msg@);
    lemma_access_deny_frame();
    let o = open_tag("xml"@);
    let a = open_tag("message"@) + "<![CDATA["@;
    let b = "]]>"@ + close_tag("message"@);
    assert(o + ((a + xml_escape_chars(msg@) + b) + code) + close_tag("xml"@) =~= (o + a)
        + xml_escape_chars(msg@) + (b + code + close_tag("xml"@)));
}

} // verus!
