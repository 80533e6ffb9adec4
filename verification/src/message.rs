use vstd::prelude::*;
use vstd::string::StringSliceAdditionalSpecFns;
use vstd::utf8::{encode_utf8, encode_utf8_decode_utf8};
use crate::pattern::{is_key_char, key_marker, key_split, named_capture, regex_named_capture, string_opt};
use crate::text::{bytes_eq, decode_text, decoded_text};
pub use crate::reply::{
    get_robot_response_access_deny, get_robot_response_access_deny_content, pack_image_message,
    pack_markdown_message, pack_message_response, pack_text_message,
};
use crate::xml::{forest_events, read_xml_events, tree_events, xml_document_events, XmlEvent, XmlToken, XmlTree};

verus! {

/// A decrypted message and the id of the robot it was sent to.
#[derive(Debug, Clone)]
pub struct WXWorkMessageDec {
    pub content: String,
    pub receiveid: String,
}

/// The sender of a notification.
#[derive(Debug, Clone)]
pub struct WXWorkMessageFrom {
    pub user_id: String,
    pub name: String,
    pub alias: String,
}

/// A notification that the robot received.
#[derive(Debug, Clone)]
pub struct WXWorkMessageNtf {
    pub web_hook_key: String,
    pub web_hook_url: String,
    pub from: WXWorkMessageFrom,
    pub msg_type: String,
    pub content: String,
    pub msg_id: String,
    pub chat_id: String,
    pub chat_type: String,
    pub get_chat_info_url: String,
}

/// A text reply.
#[derive(Debug, Clone)]
pub struct WXWorkMessageTextRsp {
    pub content: String,
    pub mentioned_list: Vec<String>,
    pub mentioned_mobile_list: Vec<u64>,
}

/// A markdown reply.
#[derive(Debug, Clone)]
pub struct WXWorkMessageMarkdownRsp {
    pub content: String,
}

/// An image reply.
#[derive(Debug, Clone)]
pub struct WXWorkMessageImageRsp {
    pub content: Vec<u8>,
}

/// The field of a notification whose character data is being read.
#[allow(non_camel_case_types)]
#[derive(Debug, Clone, Copy, PartialEq, Eq, Structural)]
pub enum WXWorkMsgField {
    NONE,
    WebHookUrl,
    FromUserId,
    FromName,
    FromAlias,
    MsgType,
    Content,
    MsgId,
    GetChatInfoUrl,
    ChatId,
    ChatType,
}

/// The pattern that picks the robot's key out of its webhook url.
pub const WEBHOOK_KEY_PATTERN: &'static str = "key=(?P<KEY>[\\d\\w\\-_]+)";

/// The name of the capture group of `WEBHOOK_KEY_PATTERN` that holds the key.
pub const WEBHOOK_KEY_GROUP: &'static str = "KEY";

/// The robot's key in a webhook url: the `KEY` group of the first match of
/// `WEBHOOK_KEY_PATTERN`, or empty where there is none.
pub open spec fn webhook_key(url: Seq<char>) -> Seq<char> {
    match regex_named_capture(WEBHOOK_KEY_PATTERN@, url, WEBHOOK_KEY_GROUP@) {
        Some(k) => k,
        None => Seq::empty(),
    }
}

/// The state of reading a notification: the fields read so far, whether the
/// reader is inside `<From>`, and which field character data goes to.
pub struct NtfState {
    pub web_hook_url: Seq<char>,
    pub from_user_id: Seq<char>,
    pub from_name: Seq<char>,
    pub from_alias: Seq<char>,
    pub msg_type: Seq<char>,
    pub content: Seq<char>,
    pub msg_id: Seq<char>,
    pub chat_id: Seq<char>,
    pub chat_type: Seq<char>,
    pub get_chat_info_url: Seq<char>,
    pub is_in_from: bool,
    pub field_mode: WXWorkMsgField,
}

/// The state before the first event.
pub open spec fn ntf_initial() -> NtfState {
    NtfState {
        web_hook_url: Seq::empty(),
        from_user_id: Seq::empty(),
        from_name: Seq::empty(),
        from_alias: Seq::empty(),
        msg_type: Seq::empty(),
        content: Seq::empty(),
        msg_id: Seq::empty(),
        chat_id: Seq::empty(),
        chat_type: Seq::empty(),
        get_chat_info_url: Seq::empty(),
        is_in_from: false,
        field_mode: WXWorkMsgField::NONE,
    }
}

pub open spec fn ntf_with_mode(st: NtfState, m: WXWorkMsgField) -> NtfState {
    NtfState { field_mode: m, ..st }
}

pub open spec fn ntf_with_in_from(st: NtfState, b: bool) -> NtfState {
    NtfState { is_in_from: b, ..st }
}

/// Whether `name` is one of the element names that a notification is read by.
pub open spec fn is_ntf_tag(name: Seq<u8>) -> bool {
    ||| name == "WebhookUrl".spec_bytes()
    ||| name == "From".spec_bytes()
    ||| name == "UserId".spec_bytes()
    ||| name == "Name".spec_bytes()
    ||| name == "Alias".spec_bytes()
    ||| name == "MsgType".spec_bytes()
    ||| name == "Text".spec_bytes()
    ||| name == "Markdown".spec_bytes()
    ||| name == "MsgId".spec_bytes()
    ||| name == "GetChatInfoUrl".spec_bytes()
    ||| name == "ChatId".spec_bytes()
    ||| name == "ChatType".spec_bytes()
}

/// An opening tag selects the field its data goes to; `<From>` opens the sender,
/// whose `UserId`, `Name` and `Alias` count only inside it.
pub open spec fn ntf_on_start(st: NtfState, name: Seq<u8>) -> NtfState {
    if name == "WebhookUrl".spec_bytes() {
        ntf_with_mode(st, WXWorkMsgField::WebHookUrl)
    } else if name == "From".spec_bytes() {
        ntf_with_in_from(st, true)
    } else if name == "UserId".spec_bytes() {
        if st.is_in_from { ntf_with_mode(st, WXWorkMsgField::FromUserId) } else { st }
    } else if name == "Name".spec_bytes() {
        if st.is_in_from { ntf_with_mode(st, WXWorkMsgField::FromName) } else { st }
    } else if name == "Alias".spec_bytes() {
        if st.is_in_from { ntf_with_mode(st, WXWorkMsgField::FromAlias) } else { st }
    } else if name == "MsgType".spec_bytes() {
        ntf_with_mode(st, WXWorkMsgField::MsgType)
    } else if name == "Text".spec_bytes() || name == "Markdown".spec_bytes() {
        ntf_with_mode(st, WXWorkMsgField::Content)
    } else if name == "MsgId".spec_bytes() {
        ntf_with_mode(st, WXWorkMsgField::MsgId)
    } else if name == "GetChatInfoUrl".spec_bytes() {
        ntf_with_mode(st, WXWorkMsgField::GetChatInfoUrl)
    } else if name == "ChatId".spec_bytes() {
        ntf_with_mode(st, WXWorkMsgField::ChatId)
    } else if name == "ChatType".spec_bytes() {
        ntf_with_mode(st, WXWorkMsgField::ChatType)
    } else {
        st
    }
}

/// Closing the tag of the selected field deselects it; `</From>` leaves the sender.
pub open spec fn ntf_close(st: NtfState, m: WXWorkMsgField) -> NtfState {
    if st.field_mode == m { ntf_with_mode(st, WXWorkMsgField::NONE) } else { st }
}

pub open spec fn ntf_on_end(st: NtfState, name: Seq<u8>) -> NtfState {
    if name == "WebhookUrl".spec_bytes() {
        ntf_close(st, WXWorkMsgField::WebHookUrl)
    } else if name == "From".spec_bytes() {
        ntf_with_in_from(st, false)
    } else if name == "UserId".spec_bytes() {
        if st.is_in_from { ntf_close(st, WXWorkMsgField::FromUserId) } else { st }
    } else if name == "Name".spec_bytes() {
        if st.is_in_from { ntf_close(st, WXWorkMsgField::FromName) } else { st }
    } else if name == "Alias".spec_bytes() {
        if st.is_in_from { ntf_close(st, WXWorkMsgField::FromAlias) } else { st }
    } else if name == "MsgType".spec_bytes() {
        ntf_close(st, WXWorkMsgField::MsgType)
    } else if name == "Text".spec_bytes() || name == "Markdown".spec_bytes() {
        ntf_close(st, WXWorkMsgField::Content)
    } else if name == "MsgId".spec_bytes() {
        ntf_close(st, WXWorkMsgField::MsgId)
    } else if name == "GetChatInfoUrl".spec_bytes() {
        ntf_close(st, WXWorkMsgField::GetChatInfoUrl)
    } else if name == "ChatId".spec_bytes() {
        ntf_close(st, WXWorkMsgField::ChatId)
    } else if name == "ChatType".spec_bytes() {
        ntf_close(st, WXWorkMsgField::ChatType)
    } else {
        st
    }
}

/// Stores `s` in the selected field.
pub open spec fn ntf_store(st: NtfState, s: Seq<char>) -> NtfState {
    match st.field_mode {
        WXWorkMsgField::NONE => st,
        WXWorkMsgField::WebHookUrl => NtfState { web_hook_url: s, ..st },
        WXWorkMsgField::FromUserId => NtfState { from_user_id: s, ..st },
        WXWorkMsgField::FromName => NtfState { from_name: s, ..st },
        WXWorkMsgField::FromAlias => NtfState { from_alias: s, ..st },
        WXWorkMsgField::MsgType => NtfState { msg_type: s, ..st },
        WXWorkMsgField::Content => NtfState { content: s, ..st },
        WXWorkMsgField::MsgId => NtfState { msg_id: s, ..st },
        WXWorkMsgField::GetChatInfoUrl => NtfState { get_chat_info_url: s, ..st },
        WXWorkMsgField::ChatId => NtfState { chat_id: s, ..st },
        WXWorkMsgField::ChatType => NtfState { chat_type: s, ..st },
    }
}

/// Character data goes to the selected field, replacing what it held, when it
/// unescapes to UTF-8; otherwise it is dropped.
pub open spec fn ntf_on_data(st: NtfState, raw: Seq<u8>) -> NtfState {
    if st.field_mode == WXWorkMsgField::NONE {
        st
    } else {
        match decoded_text(raw) {
            Some(s) => ntf_store(st, s),
            None => st,
        }
    }
}

/// One step of reading a notification.
pub open spec fn ntf_step(st: NtfState, ev: XmlToken) -> NtfState {
    match ev {
        XmlToken::Start(n) => ntf_on_start(st, n),
        XmlToken::End(n) => ntf_on_end(st, n),
        XmlToken::Text(d) => ntf_on_data(st, d),
        XmlToken::CData(d) => ntf_on_data(st, d),
        _ => st,
    }
}

/// Reads the events in order, stopping at the end of the document.
pub open spec fn ntf_fold(st: NtfState, evs: Seq<XmlToken>) -> NtfState
    decreases evs.len(),
{
    if evs.len() == 0 {
        st
    } else if evs[0] == XmlToken::Eof {
        st
    } else {
        ntf_fold(ntf_step(st, evs[0]), evs.drop_first())
    }
}

/// A notification as plain values.
pub struct NtfModel {
    pub web_hook_key: Seq<char>,
    pub web_hook_url: Seq<char>,
    pub from_user_id: Seq<char>,
    pub from_name: Seq<char>,
    pub from_alias: Seq<char>,
    pub msg_type: Seq<char>,
    pub content: Seq<char>,
    pub msg_id: Seq<char>,
    pub chat_id: Seq<char>,
    pub chat_type: Seq<char>,
    pub get_chat_info_url: Seq<char>,
}

impl View for WXWorkMessageNtf {
    type V = NtfModel;

    open spec fn view(&self) -> NtfModel {
        NtfModel {
            web_hook_key: self.web_hook_key@,
            web_hook_url: self.web_hook_url@,
            from_user_id: self.from.user_id@,
            from_name: self.from.name@,
            from_alias: self.from.alias@,
            msg_type: self.msg_type@,
            content: self.content@,
            msg_id: self.msg_id@,
            chat_id: self.chat_id@,
            chat_type: self.chat_type@,
            get_chat_info_url: self.get_chat_info_url@,
        }
    }
}

/// The notification made of a final reading state: its fields, and the key
/// found in its webhook url.
pub open spec fn ntf_model(st: NtfState) -> NtfModel {
    NtfModel {
        web_hook_key: webhook_key(st.web_hook_url),
        web_hook_url: st.web_hook_url,
        from_user_id: st.from_user_id,
        from_name: st.from_name,
        from_alias: st.from_alias,
        msg_type: st.msg_type,
        content: st.content,
        msg_id: st.msg_id,
        chat_id: st.chat_id,
        chat_type: st.chat_type,
        get_chat_info_url: st.get_chat_info_url,
    }
}

/// The notification that the events `evs` of a document describe.
pub open spec fn ntf_of_events(evs: Seq<XmlToken>) -> NtfModel {
    ntf_model(ntf_fold(ntf_initial(), evs))
}

/// The running state of reading a notification.
struct NtfReader {
    web_hook_url: String,
    from_user_id: String,
    from_name: String,
    from_alias: String,
    msg_type: String,
    content: String,
    msg_id: String,
    chat_id: String,
    chat_type: String,
    get_chat_info_url: String,
    is_in_from: bool,
    field_mode: WXWorkMsgField,
}

impl View for NtfReader {
    type V = NtfState;

    closed spec fn view(&self) -> NtfState {
        NtfState {
            web_hook_url: self.web_hook_url@,
            from_user_id: self.from_user_id@,
            from_name: self.from_name@,
            from_alias: self.from_alias@,
            msg_type: self.msg_type@,
            content: self.content@,
            msg_id: self.msg_id@,
            chat_id: self.chat_id@,
            chat_type: self.chat_type@,
            get_chat_info_url: self.get_chat_info_url@,
            is_in_from: self.is_in_from,
            field_mode: self.field_mode,
        }
    }
}

impl NtfReader {
    fn new() -> (r: NtfReader)
        ensures
            r@ == ntf_initial(),
    {
        NtfReader {
            web_hook_url: String::new(),
            from_user_id: String::new(),
            from_name: String::new(),
            from_alias: String::new(),
            msg_type: String::new(),
            content: String::new(),
            msg_id: String::new(),
            chat_id: String::new(),
            chat_type: String::new(),
            get_chat_info_url: String::new(),
            is_in_from: false,
            field_mode: WXWorkMsgField::NONE,
        }
    }

    fn on_start(&mut self, name: &[u8])
        ensures
            final(self)@ == ntf_on_start(old(self)@, name@),
    {
        if bytes_eq(name, "WebhookUrl".as_bytes()) {
            self.field_mode = WXWorkMsgField::WebHookUrl;
        } else if bytes_eq(name, "From".as_bytes()) {
            self.is_in_from = true;
        } else if bytes_eq(name, "UserId".as_bytes()) {
            if self.is_in_from {
                self.field_mode = WXWorkMsgField::FromUserId;
            }
        } else if bytes_eq(name, "Name".as_bytes()) {
            if self.is_in_from {
                self.field_mode = WXWorkMsgField::FromName;
            }
        } else if bytes_eq(name, "Alias".as_bytes()) {
            if self.is_in_from {
                self.field_mode = WXWorkMsgField::FromAlias;
            }
        } else if bytes_eq(name, "MsgType".as_bytes()) {
            self.field_mode = WXWorkMsgField::MsgType;
        } else if bytes_eq(name, "Text".as_bytes()) || bytes_eq(name, "Markdown".as_bytes()) {
            self.field_mode = WXWorkMsgField::Content;
        } else if bytes_eq(name, "MsgId".as_bytes()) {
            self.field_mode = WXWorkMsgField::MsgId;
        } else if bytes_eq(name, "GetChatInfoUrl".as_bytes()) {
            self.field_mode = WXWorkMsgField::GetChatInfoUrl;
        } else if bytes_eq(name, "ChatId".as_bytes()) {
            self.field_mode = WXWorkMsgField::ChatId;
        } else if bytes_eq(name, "ChatType".as_bytes()) {
            self.field_mode = WXWorkMsgField::ChatType;
        }
    }

    fn close(&mut self, m: WXWorkMsgField)
        ensures
            final(self)@ == ntf_close(old(self)@, m),
    {
        if self.field_mode == m {
            self.field_mode = WXWorkMsgField::NONE;
        }
    }

    fn on_end(&mut self, name: &[u8])
        ensures
            final(self)@ == ntf_on_end(old(self)@, name@),
    {
        if bytes_eq(name, "WebhookUrl".as_bytes()) {
            self.close(WXWorkMsgField::WebHookUrl);
        } else if bytes_eq(name, "From".as_bytes()) {
            self.is_in_from = false;
        } else if bytes_eq(name, "UserId".as_bytes()) {
            if self.is_in_from {
                self.close(WXWorkMsgField::FromUserId);
            }
        } else if bytes_eq(name, "Name".as_bytes()) {
            if self.is_in_from {
                self.close(WXWorkMsgField::FromName);
            }
        } else if bytes_eq(name, "Alias".as_bytes()) {
            if self.is_in_from {
                self.close(WXWorkMsgField::FromAlias);
            }
        } else if bytes_eq(name, "MsgType".as_bytes()) {
            self.close(WXWorkMsgField::MsgType);
        } else if bytes_eq(name, "Text".as_bytes()) || bytes_eq(name, "Markdown".as_bytes()) {
            self.close(WXWorkMsgField::Content);
        } else if bytes_eq(name, "MsgId".as_bytes()) {
            self.close(WXWorkMsgField::MsgId);
        } else if bytes_eq(name, "GetChatInfoUrl".as_bytes()) {
            self.close(WXWorkMsgField::GetChatInfoUrl);
        } else if bytes_eq(name, "ChatId".as_bytes()) {
            self.close(WXWorkMsgField::ChatId);
        } else if bytes_eq(name, "ChatType".as_bytes()) {
            self.close(WXWorkMsgField::ChatType);
        }
    }

    fn on_data(&mut self, raw: &[u8])
        ensures
            final(self)@ == ntf_on_data(old(self)@, raw@),
    {
        if self.field_mode == WXWorkMsgField::NONE {
            return;
        }
        let data_str = match decode_text(raw) {
            Some(s) => s,
            None => return,
        };
        match self.field_mode {
            WXWorkMsgField::WebHookUrl => self.web_hook_url = data_str,
            WXWorkMsgField::FromUserId => self.from_user_id = data_str,
            WXWorkMsgField::FromName => self.from_name = data_str,
            WXWorkMsgField::FromAlias => self.from_alias = data_str,
            WXWorkMsgField::MsgType => self.msg_type = data_str,
            WXWorkMsgField::Content => self.content = data_str,
            WXWorkMsgField::MsgId => self.msg_id = data_str,
            WXWorkMsgField::GetChatInfoUrl => self.get_chat_info_url = data_str,
            WXWorkMsgField::ChatId => self.chat_id = data_str,
            WXWorkMsgField::ChatType => self.chat_type = data_str,
            WXWorkMsgField::NONE => {},
        }
    }

    fn step(&mut self, ev: &XmlEvent)
        ensures
            final(self)@ == ntf_step(old(self)@, ev@),
    {
        match ev {
            XmlEvent::Start(n) => self.on_start(n.as_slice()),
            XmlEvent::End(n) => self.on_end(n.as_slice()),
            XmlEvent::Text(d) => self.on_data(d.as_slice()),
            XmlEvent::CData(d) => self.on_data(d.as_slice()),
            _ => {},
        }
    }

    fn finish(self) -> (r: WXWorkMessageNtf)
        ensures
            r@ == ntf_model(self@),
            forall|p: Seq<char>, k: Seq<char>, rest: Seq<char>|
                #[trigger] key_split(r.web_hook_url@, p, k, rest) ==> r.web_hook_key@ == k,
    {
        let web_hook_key = match named_capture(
            WEBHOOK_KEY_PATTERN,
            self.web_hook_url.as_str(),
            WEBHOOK_KEY_GROUP,
        ) {
            Some(k) => k,
            None => String::new(),
        };
        WXWorkMessageNtf {
            web_hook_key: web_hook_key,
            web_hook_url: self.web_hook_url,
            from: WXWorkMessageFrom {
                user_id: self.from_user_id,
                name: self.from_name,
                alias: self.from_alias,
            },
            msg_type: self.msg_type,
            content: self.content,
            msg_id: self.msg_id,
            chat_id: self.chat_id,
            chat_type: self.chat_type,
            get_chat_info_url: self.get_chat_info_url,
        }
    }
}

/// Reads a notification out of the events of its document, up to the first
/// end-of-document event.
pub fn decode_msg_events(events: &[XmlEvent]) -> (r: WXWorkMessageNtf)
    ensures
        r@ == ntf_of_events(events@.map_values(|e: XmlEvent| e@)),
        forall|p: Seq<char>, k: Seq<char>, rest: Seq<char>|
            #[trigger] key_split(r.web_hook_url@, p, k, rest) ==> r.web_hook_key@ == k,
{
    let ghost evs = events@.map_values(|e: XmlEvent| e@);
    let mut st = NtfReader::new();
    let mut i: usize = 0;
    assert(evs.skip(0) =~= evs);
    while i < events.len()
        invariant
            i <= events@.len(),
            evs == events@.map_values(|e: XmlEvent| e@),
            ntf_fold(ntf_initial(), evs) == ntf_fold(st@, evs.skip(i as int)),
        ensures
            ntf_fold(ntf_initial(), evs) == st@,
        decreases events@.len() - i,
    {
        assert(evs.skip(i as int)[0] == events@[i as int]@);
        if let XmlEvent::Eof = &events[i] {
            break;
        }
        st.step(&events[i]);
        assert(evs.skip(i as int).drop_first() =~= evs.skip(i + 1));
        i = i + 1;
    }
    st.finish()
}

/// Reads a notification out of its XML document. Every input gives a
/// notification: parts of the document that cannot be read are skipped, and
/// fields that do not occur stay empty.
pub fn get_msg_from_str(input: &str) -> (r: Option<WXWorkMessageNtf>)
    ensures
        r matches Some(m) && m@ == ntf_of_events(xml_document_events(input.spec_bytes())),
        r is Some && forall|p: Seq<char>, k: Seq<char>, rest: Seq<char>|
            #[trigger] key_split(r->0.web_hook_url@, p, k, rest) ==> r->0.web_hook_key@ == k,
{
    let events = read_xml_events(input.as_bytes());
    Some(decode_msg_events(events.as_slice()))
}

/// The robot key of a notification is the whole run of key characters (ASCII
/// letters and digits, `_` and `-`) right after the first `key=` of its
/// webhook url, whatever the run's length: where the url is
/// `p + "key=" + k + rest`, with no earlier `key=`, `k` made of key characters
/// and `rest` empty or starting with an ASCII character that is not one, the
/// key is `k`.
pub proof fn law_webhook_key_whole_run(
    input: &str,
    r: Option<WXWorkMessageNtf>,
    p: Seq<char>,
    k: Seq<char>,
    rest: Seq<char>,
)
    requires
        call_ensures(get_msg_from_str, (input,), r),
        r matches Some(m) && m.web_hook_url@ == p + "key="@ + k + rest,
        k.len() > 0,
        forall|i: int| 0 <= i < k.len() ==> is_key_char(#[trigger] k[i]),
        rest.len() == 0 || ((rest[0] as u32) < 128 && !is_key_char(rest[0])),
        forall|i: int|
            0 <= i < p.len() ==> #[trigger] (p + "key="@).subrange(i, i + 4) != "key="@,
    ensures
        r matches Some(m) && m.web_hook_key@ == k,
{
    lemma_key_marker();
    assert(key_split(r->0.web_hook_url@, p, k, rest));
}

proof fn lemma_key_marker()
    ensures
        "key="@ == key_marker(),
{
    reveal_strlit("key=");
    assert("key="@ =~= key_marker());
}

/// An element that notifications are not read by, met while no field is
/// selected, leaves the reading as it was, whatever character data it holds.
pub proof fn lemma_unknown_element_ignored(
    st: NtfState,
    name: Seq<u8>,
    data: XmlToken,
    rest: Seq<XmlToken>,
)
    requires
        st.field_mode == WXWorkMsgField::NONE,
        !is_ntf_tag(name),
        data is Text || data is CData,
    ensures
        ntf_fold(st, seq![XmlToken::Start(name), data, XmlToken::End(name)] + rest) == ntf_fold(
            st,
            rest,
        ),
{
    let evs = seq![XmlToken::Start(name), data, XmlToken::End(name)] + rest;
    assert(evs[0] == XmlToken::Start(name));
    assert(ntf_step(st, evs[0]) == st);
    let e1 = evs.drop_first();
    assert(e1[0] == data);
    assert(ntf_step(st, e1[0]) == st);
    let e2 = e1.drop_first();
    assert(e2[0] == XmlToken::End(name));
    assert(ntf_step(st, e2[0]) == st);
    assert(e2.drop_first() =~= rest);
    assert(ntf_fold(st, e2) == ntf_fold(st, rest));
    assert(ntf_fold(st, e1) == ntf_fold(st, e2));
    assert(ntf_fold(st, evs) == ntf_fold(st, e1));
}

/// The element names that notifications are read by.
pub open spec fn ntf_tags() -> Seq<Seq<u8>> {
    seq![
        "WebhookUrl".spec_bytes(),
        "From".spec_bytes(),
        "UserId".spec_bytes(),
        "Name".spec_bytes(),
        "Alias".spec_bytes(),
        "MsgType".spec_bytes(),
        "Text".spec_bytes(),
        "Markdown".spec_bytes(),
        "MsgId".spec_bytes(),
        "GetChatInfoUrl".spec_bytes(),
        "ChatId".spec_bytes(),
        "ChatType".spec_bytes(),
    ]
}

/// The element names that notifications are read by, one by one, are all
/// different.
pub proof fn lemma_ntf_tags_distinct()
    ensures
        ntf_tags()[0] == "WebhookUrl".spec_bytes(),
        ntf_tags()[1] == "From".spec_bytes(),
        ntf_tags()[2] == "UserId".spec_bytes(),
        ntf_tags()[3] == "Name".spec_bytes(),
        ntf_tags()[4] == "Alias".spec_bytes(),
        ntf_tags()[5] == "MsgType".spec_bytes(),
        ntf_tags()[6] == "Text".spec_bytes(),
        ntf_tags()[7] == "Markdown".spec_bytes(),
        ntf_tags()[8] == "MsgId".spec_bytes(),
        ntf_tags()[9] == "GetChatInfoUrl".spec_bytes(),
        ntf_tags()[10] == "ChatId".spec_bytes(),
        ntf_tags()[11] == "ChatType".spec_bytes(),
        forall|i: int, j: int|
            0 <= i < ntf_tags().len() && 0 <= j < ntf_tags().len() && i != j ==> ntf_tags()[i]
                != ntf_tags()[j],
{
    let names = seq![
        "WebhookUrl"@,
        "From"@,
        "UserId"@,
        "Name"@,
        "Alias"@,
        "MsgType"@,
        "Text"@,
        "Markdown"@,
        "MsgId"@,
        "GetChatInfoUrl"@,
        "ChatId"@,
        "ChatType"@,
    ];
    reveal_strlit("WebhookUrl");
    reveal_strlit("From");
    reveal_strlit("UserId");
    reveal_strlit("Name");
    reveal_strlit("Alias");
    reveal_strlit("MsgType");
    reveal_strlit("Text");
    reveal_strlit("Markdown");
    reveal_strlit("MsgId");
    reveal_strlit("GetChatInfoUrl");
    reveal_strlit("ChatId");
    reveal_strlit("ChatType");
    assert forall|i: int, j: int|
        0 <= i < names.len() && 0 <= j < names.len() && i != j implies names[i] != names[j] by {
        if names[i].len() == names[j].len() {
            assert(names[i][0] != names[j][0]);
        }
    }
    assert forall|i: int| 0 <= i < names.len() implies ntf_tags()[i] == encode_utf8(
        #[trigger] names[i],
    ) by {}
    assert forall|i: int, j: int|
        0 <= i < ntf_tags().len() && 0 <= j < ntf_tags().len() && i != j implies ntf_tags()[i]
            != ntf_tags()[j] by {
        encode_utf8_decode_utf8(names[i]);
        encode_utf8_decode_utf8(names[j]);
    }
}

/// The field that a top-level element of a notification fills, or `NONE` for
/// any other name.
pub open spec fn ntf_field_of(name: Seq<u8>) -> WXWorkMsgField {
    if name == "WebhookUrl".spec_bytes() {
        WXWorkMsgField::WebHookUrl
    } else if name == "MsgType".spec_bytes() {
        WXWorkMsgField::MsgType
    } else if name == "Text".spec_bytes() || name == "Markdown".spec_bytes() {
        WXWorkMsgField::Content
    } else if name == "MsgId".spec_bytes() {
        WXWorkMsgField::MsgId
    } else if name == "GetChatInfoUrl".spec_bytes() {
        WXWorkMsgField::GetChatInfoUrl
    } else if name == "ChatId".spec_bytes() {
        WXWorkMsgField::ChatId
    } else if name == "ChatType".spec_bytes() {
        WXWorkMsgField::ChatType
    } else {
        WXWorkMsgField::NONE
    }
}

/// A top-level field element met while no field is selected stores its
/// character data in its field, when that data unescapes to UTF-8, and changes
/// nothing else; data that cannot be read leaves the reading as it was.
pub proof fn lemma_field_element_stores(
    st: NtfState,
    name: Seq<u8>,
    raw: Seq<u8>,
    data: XmlToken,
    rest: Seq<XmlToken>,
)
    requires
        st.field_mode == WXWorkMsgField::NONE,
        ntf_field_of(name) != WXWorkMsgField::NONE,
        data == XmlToken::CData(raw) || data == XmlToken::Text(raw),
    ensures
        ntf_fold(st, seq![XmlToken::Start(name), data, XmlToken::End(name)] + rest) == ntf_fold(
            match decoded_text(raw) {
                Some(s) => ntf_with_mode(
                    ntf_store(ntf_with_mode(st, ntf_field_of(name)), s),
                    WXWorkMsgField::NONE,
                ),
                None => st,
            },
            rest,
        ),
{
    lemma_ntf_tags_distinct();
    let f = ntf_field_of(name);
    let s1 = ntf_with_mode(st, f);
    assert(ntf_on_start(st, name) == s1);
    let s2 = ntf_on_data(s1, raw);
    assert(ntf_step(s1, data) == s2);
    assert(s2.field_mode == f);
    assert(ntf_on_end(s2, name) == ntf_close(s2, f));
    let s3 = ntf_close(s2, f);
    assert(s3 == match decoded_text(raw) {
        Some(s) => ntf_with_mode(ntf_store(s1, s), WXWorkMsgField::NONE),
        None => st,
    });
    let evs = seq![XmlToken::Start(name), data, XmlToken::End(name)] + rest;
    let e1 = evs.drop_first();
    let e2 = e1.drop_first();
    assert(evs[0] == XmlToken::Start(name));
    assert(e1[0] == data);
    assert(e2[0] == XmlToken::End(name));
    assert(e2.drop_first() =~= rest);
    assert(ntf_fold(s2, e2) == ntf_fold(s3, rest));
    assert(ntf_fold(s1, e1) == ntf_fold(s2, e2));
    assert(ntf_fold(st, evs) == ntf_fold(s1, e1));
}

/// Whether `name` names one of the sender's fields.
pub open spec fn is_sender_tag(name: Seq<u8>) -> bool {
    ||| name == "UserId".spec_bytes()
    ||| name == "Name".spec_bytes()
    ||| name == "Alias".spec_bytes()
}

/// The sender's fields count only inside `<From>`: met outside it, while no
/// field is selected, such an element leaves the reading as it was.
pub proof fn lemma_sender_element_outside_from_ignored(
    st: NtfState,
    name: Seq<u8>,
    data: XmlToken,
    rest: Seq<XmlToken>,
)
    requires
        st.field_mode == WXWorkMsgField::NONE,
        !st.is_in_from,
        is_sender_tag(name),
        data is Text || data is CData,
    ensures
        ntf_fold(st, seq![XmlToken::Start(name), data, XmlToken::End(name)] + rest) == ntf_fold(
            st,
            rest,
        ),
{
    lemma_ntf_tags_distinct();
    let evs = seq![XmlToken::Start(name), data, XmlToken::End(name)] + rest;
    let e1 = evs.drop_first();
    let e2 = e1.drop_first();
    assert(evs[0] == XmlToken::Start(name));
    assert(ntf_step(st, evs[0]) == st);
    assert(e1[0] == data);
    assert(ntf_step(st, e1[0]) == st);
    assert(e2[0] == XmlToken::End(name));
    assert(ntf_step(st, e2[0]) == st);
    assert(e2.drop_first() =~= rest);
    assert(ntf_fold(st, e2) == ntf_fold(st, rest));
    assert(ntf_fold(st, e1) == ntf_fold(st, e2));
    assert(ntf_fold(st, evs) == ntf_fold(st, e1));
}

/// Whether the events hold no end of the document.
pub open spec fn has_no_eof(evs: Seq<XmlToken>) -> bool {
    forall|i: int| 0 <= i < evs.len() ==> evs[i] != XmlToken::Eof
}

/// Reading events one part after the other is reading them all at once.
pub proof fn lemma_ntf_fold_append(st: NtfState, a: Seq<XmlToken>, b: Seq<XmlToken>)
    requires
        has_no_eof(a),
    ensures
        ntf_fold(st, a + b) == ntf_fold(ntf_fold(st, a), b),
    decreases a.len(),
{
    if a.len() == 0 {
        assert(a + b =~= b);
    } else {
        assert((a + b)[0] == a[0]);
        assert((a + b).drop_first() =~= a.drop_first() + b);
        assert(has_no_eof(a.drop_first())) by {
            assert forall|i: int| 0 <= i < a.drop_first().len() implies a.drop_first()[i]
                != XmlToken::Eof by {
                assert(a.drop_first()[i] == a[i + 1]);
            }
        }
        lemma_ntf_fold_append(ntf_step(st, a[0]), a.drop_first(), b);
    }
}

proof fn lemma_ntf_fold_one(st: NtfState, e: XmlToken)
    requires
        e != XmlToken::Eof,
    ensures
        ntf_fold(st, seq![e]) == ntf_step(st, e),
{
    let one = seq![e];
    assert(one.len() == 1 && one[0] == e);
    assert(one.drop_first() =~= Seq::<XmlToken>::empty());
    assert(ntf_fold(ntf_step(st, e), one.drop_first()) == ntf_step(st, e));
}

/// The events of a tree hold no end of the document.
pub proof fn lemma_tree_no_eof(t: XmlTree)
    ensures
        has_no_eof(tree_events(t)),
    decreases t, 1int,
{
    match t {
        XmlTree::Element(n, cs) => {
            lemma_forest_no_eof(cs);
            let evs = seq![XmlToken::Start(n)] + forest_events(cs) + seq![XmlToken::End(n)];
            assert forall|i: int| 0 <= i < evs.len() implies evs[i] != XmlToken::Eof by {
                if i > 0 && i < evs.len() - 1 {
                    assert(evs[i] == forest_events(cs)[i - 1]);
                }
            }
        },
        _ => {},
    }
}

/// The events of a sequence of trees hold no end of the document.
pub proof fn lemma_forest_no_eof(ts: Seq<XmlTree>)
    ensures
        has_no_eof(forest_events(ts)),
    decreases ts, 0int,
{
    if ts.len() > 0 {
        vstd::seq::axiom_seq_index_decreases(ts, ts.len() - 1);
        vstd::seq::axiom_seq_subrange_decreases(ts, 0, ts.len() - 1);
        let a = forest_events(ts.subrange(0, ts.len() - 1));
        let b = tree_events(ts[ts.len() - 1]);
        lemma_forest_no_eof(ts.subrange(0, ts.len() - 1));
        lemma_tree_no_eof(ts[ts.len() - 1]);
        assert forall|i: int| 0 <= i < (a + b).len() implies (a + b)[i] != XmlToken::Eof by {
            if i >= a.len() {
                assert((a + b)[i] == b[i - a.len()]);
            }
        }
    }
}

/// The events of two sequences of trees, one after the other.
pub proof fn lemma_forest_concat(a: Seq<XmlTree>, b: Seq<XmlTree>)
    ensures
        forest_events(a + b) == forest_events(a) + forest_events(b),
    decreases b.len(),
{
    if b.len() == 0 {
        assert(a + b =~= a);
        assert(forest_events(a) + forest_events(b) =~= forest_events(a));
    } else {
        let ab = a + b;
        assert(ab.subrange(0, ab.len() - 1) =~= a + b.subrange(0, b.len() - 1));
        assert(ab[ab.len() - 1] == b[b.len() - 1]);
        lemma_forest_concat(a, b.subrange(0, b.len() - 1));
        assert(forest_events(ab) =~= forest_events(a) + forest_events(b));
    }
}

/// Whether a tree holds a `<From>` element, itself included.
pub open spec fn tree_has_from(t: XmlTree) -> bool
    decreases t, 1int,
{
    match t {
        XmlTree::Element(n, cs) => n == "From".spec_bytes() || forest_has_from(cs),
        _ => false,
    }
}

/// Whether a sequence of trees holds a `<From>` element.
pub open spec fn forest_has_from(ts: Seq<XmlTree>) -> bool
    decreases ts, 0int,
{
    if ts.len() == 0 {
        false
    } else {
        proof {
            vstd::seq::axiom_seq_index_decreases(ts, ts.len() - 1);
            vstd::seq::axiom_seq_subrange_decreases(ts, 0, ts.len() - 1);
        }
        forest_has_from(ts.subrange(0, ts.len() - 1)) || tree_has_from(ts[ts.len() - 1])
    }
}

/// Whether no sender field (`UserId`, `Name`, `Alias`) anywhere in the tree
/// holds a `<From>` element.
pub open spec fn tree_senders_plain(t: XmlTree) -> bool
    decreases t, 1int,
{
    match t {
        XmlTree::Element(n, cs) => (is_sender_tag(n) ==> !forest_has_from(cs))
            && forest_senders_plain(cs),
        _ => true,
    }
}

/// Whether no sender field anywhere in the trees holds a `<From>` element.
pub open spec fn forest_senders_plain(ts: Seq<XmlTree>) -> bool
    decreases ts, 0int,
{
    if ts.len() == 0 {
        true
    } else {
        proof {
            vstd::seq::axiom_seq_index_decreases(ts, ts.len() - 1);
            vstd::seq::axiom_seq_subrange_decreases(ts, 0, ts.len() - 1);
        }
        forest_senders_plain(ts.subrange(0, ts.len() - 1)) && tree_senders_plain(
            ts[ts.len() - 1],
        )
    }
}

/// The field of the sender that a sender element fills.
pub open spec fn sender_field_of(name: Seq<u8>) -> WXWorkMsgField {
    if name == "UserId".spec_bytes() {
        WXWorkMsgField::FromUserId
    } else if name == "Name".spec_bytes() {
        WXWorkMsgField::FromName
    } else {
        WXWorkMsgField::FromAlias
    }
}

/// What opening and closing an element do, by the kind of its name.
proof fn lemma_tag_dispatch(st: NtfState, n: Seq<u8>)
    ensures
        ntf_field_of(n) != WXWorkMsgField::NONE ==> ntf_on_start(st, n) == ntf_with_mode(
            st,
            ntf_field_of(n),
        ) && ntf_on_end(st, n) == ntf_close(st, ntf_field_of(n)),
        n == "From".spec_bytes() ==> ntf_on_start(st, n) == ntf_with_in_from(st, true)
            && ntf_on_end(st, n) == ntf_with_in_from(st, false),
        is_sender_tag(n) ==> ntf_on_start(st, n) == (if st.is_in_from {
            ntf_with_mode(st, sender_field_of(n))
        } else {
            st
        }) && ntf_on_end(st, n) == (if st.is_in_from {
            ntf_close(st, sender_field_of(n))
        } else {
            st
        }),
        !is_ntf_tag(n) ==> ntf_on_start(st, n) == st && ntf_on_end(st, n) == st,
        ntf_field_of(n) != WXWorkMsgField::NONE ==> n != "From".spec_bytes() && !is_sender_tag(
            n,
        ),
        is_sender_tag(n) ==> n != "From".spec_bytes(),
{
    lemma_ntf_tags_distinct();
}

/// Only `<From>` elements change whether the reader is inside the sender: a
/// tree without one leaves that as it was.
pub proof fn lemma_tree_keeps_in_from(st: NtfState, t: XmlTree)
    requires
        !tree_has_from(t),
    ensures
        ntf_fold(st, tree_events(t)).is_in_from == st.is_in_from,
    decreases t, 1int,
{
    lemma_tree_no_eof(t);
    match t {
        XmlTree::Element(n, cs) => {
            lemma_tag_dispatch(st, n);
            let s1 = ntf_on_start(st, n);
            lemma_ntf_fold_one(st, XmlToken::Start(n));
            lemma_forest_no_eof(cs);
            lemma_forest_keeps_in_from(s1, cs);
            let s2 = ntf_fold(s1, forest_events(cs));
            lemma_tag_dispatch(s2, n);
            lemma_ntf_fold_one(s2, XmlToken::End(n));
            let x = seq![XmlToken::Start(n)];
            let f = forest_events(cs);
            let y = seq![XmlToken::End(n)];
            assert(has_no_eof(x + f)) by {
                assert forall|i: int| 0 <= i < (x + f).len() implies (x + f)[i]
                    != XmlToken::Eof by {
                    if i > 0 {
                        assert((x + f)[i] == f[i - 1]);
                    }
                }
            }
            lemma_ntf_fold_append(st, x + f, y);
            lemma_ntf_fold_append(st, x, f);
        },
        XmlTree::Text(d) => {
            lemma_ntf_fold_one(st, XmlToken::Text(d));
        },
        XmlTree::CData(d) => {
            lemma_ntf_fold_one(st, XmlToken::CData(d));
        },
    }
}

/// A sequence of trees without `<From>` leaves whether the reader is inside the
/// sender as it was.
pub proof fn lemma_forest_keeps_in_from(st: NtfState, ts: Seq<XmlTree>)
    requires
        !forest_has_from(ts),
    ensures
        ntf_fold(st, forest_events(ts)).is_in_from == st.is_in_from,
    decreases ts, 0int,
{
    if ts.len() == 0 {
    } else {
        vstd::seq::axiom_seq_index_decreases(ts, ts.len() - 1);
        vstd::seq::axiom_seq_subrange_decreases(ts, 0, ts.len() - 1);
        let sub = ts.subrange(0, ts.len() - 1);
        let last = ts[ts.len() - 1];
        lemma_forest_no_eof(sub);
        lemma_ntf_fold_append(st, forest_events(sub), tree_events(last));
        lemma_forest_keeps_in_from(st, sub);
        lemma_tree_keeps_in_from(ntf_fold(st, forest_events(sub)), last);
    }
}

/// A whole element leaves the selected field as it was or deselects it, as
/// long as no sender field in it holds a `<From>` element.
pub proof fn lemma_tree_mode(st: NtfState, t: XmlTree)
    requires
        tree_senders_plain(t),
    ensures
        ntf_fold(st, tree_events(t)).field_mode == st.field_mode || ntf_fold(
            st,
            tree_events(t),
        ).field_mode == WXWorkMsgField::NONE,
    decreases t, 1int,
{
    lemma_tree_no_eof(t);
    match t {
        XmlTree::Element(n, cs) => {
            lemma_tag_dispatch(st, n);
            let s1 = ntf_on_start(st, n);
            lemma_ntf_fold_one(st, XmlToken::Start(n));
            lemma_forest_no_eof(cs);
            lemma_forest_mode(s1, cs);
            if is_sender_tag(n) {
                lemma_forest_keeps_in_from(s1, cs);
            }
            let s2 = ntf_fold(s1, forest_events(cs));
            lemma_tag_dispatch(s2, n);
            lemma_ntf_fold_one(s2, XmlToken::End(n));
            let x = seq![XmlToken::Start(n)];
            let f = forest_events(cs);
            let y = seq![XmlToken::End(n)];
            assert(has_no_eof(x + f)) by {
                assert forall|i: int| 0 <= i < (x + f).len() implies (x + f)[i]
                    != XmlToken::Eof by {
                    if i > 0 {
                        assert((x + f)[i] == f[i - 1]);
                    }
                }
            }
            lemma_ntf_fold_append(st, x + f, y);
            lemma_ntf_fold_append(st, x, f);
        },
        XmlTree::Text(d) => {
            lemma_ntf_fold_one(st, XmlToken::Text(d));
        },
        XmlTree::CData(d) => {
            lemma_ntf_fold_one(st, XmlToken::CData(d));
        },
    }
}

/// A sequence of elements leaves the selected field as it was or deselects it,
/// as long as no sender field in them holds a `<From>` element.
pub proof fn lemma_forest_mode(st: NtfState, ts: Seq<XmlTree>)
    requires
        forest_senders_plain(ts),
    ensures
        ntf_fold(st, forest_events(ts)).field_mode == st.field_mode || ntf_fold(
            st,
            forest_events(ts),
        ).field_mode == WXWorkMsgField::NONE,
    decreases ts, 0int,
{
    if ts.len() == 0 {
    } else {
        vstd::seq::axiom_seq_index_decreases(ts, ts.len() - 1);
        vstd::seq::axiom_seq_subrange_decreases(ts, 0, ts.len() - 1);
        let sub = ts.subrange(0, ts.len() - 1);
        let last = ts[ts.len() - 1];
        lemma_forest_no_eof(sub);
        lemma_ntf_fold_append(st, forest_events(sub), tree_events(last));
        lemma_forest_mode(st, sub);
        lemma_tree_mode(ntf_fold(st, forest_events(sub)), last);
    }
}

/// Whether no sender field holds a `<From>` element is a property of each part.
proof fn lemma_forest_senders_plain_concat(a: Seq<XmlTree>, b: Seq<XmlTree>)
    ensures
        forest_senders_plain(a + b) == (forest_senders_plain(a) && forest_senders_plain(b)),
    decreases b.len(),
{
    if b.len() == 0 {
        assert(a + b =~= a);
    } else {
        let ab = a + b;
        assert(ab.subrange(0, ab.len() - 1) =~= a + b.subrange(0, b.len() - 1));
        assert(ab[ab.len() - 1] == b[b.len() - 1]);
        lemma_forest_senders_plain_concat(a, b.subrange(0, b.len() - 1));
    }
}

/// An element that notifications are not read by, holding only character
/// data, inserted directly under the root of a document (before, between or
/// after its children) changes nothing that is read from the document; this
/// holds where the root does not itself select a field (any root but
/// `WebhookUrl`, `MsgType`, `Text`, `Markdown`, `MsgId`, `GetChatInfoUrl`,
/// `ChatId` and `ChatType`), and no sender field (`UserId`, `Name`, `Alias`)
/// holds a `<From>` element.
pub proof fn lemma_unknown_child_ignored(
    root: Seq<u8>,
    children: Seq<XmlTree>,
    k: int,
    name: Seq<u8>,
    data: XmlTree,
)
    requires
        ntf_field_of(root) == WXWorkMsgField::NONE,
        forest_senders_plain(children),
        0 <= k <= children.len(),
        !is_ntf_tag(name),
        data is Text || data is CData,
    ensures
        ntf_of_events(
            tree_events(
                XmlTree::Element(root, children.insert(k, XmlTree::Element(name, seq![data]))),
            ),
        ) == ntf_of_events(tree_events(XmlTree::Element(root, children))),
{
    let init = ntf_initial();
    let u = XmlTree::Element(name, seq![data]);
    let pre = children.subrange(0, k);
    let post = children.subrange(k, children.len() as int);
    let ins = children.insert(k, u);
    assert(children =~= pre + post);
    assert(ins =~= (pre + seq![u]) + post);
    lemma_forest_concat(pre, post);
    lemma_forest_concat(pre + seq![u], post);
    lemma_forest_concat(pre, seq![u]);
    lemma_forest_senders_plain_concat(pre, post);
    let tok = match data {
        XmlTree::Text(d) => XmlToken::Text(d),
        XmlTree::CData(d) => XmlToken::CData(d),
        XmlTree::Element(_, _) => XmlToken::Other,
    };
    let one = seq![u];
    assert(one.subrange(0, 0) =~= Seq::<XmlTree>::empty());
    let d1 = seq![data];
    assert(d1.subrange(0, 0) =~= Seq::<XmlTree>::empty());
    assert(d1[0] == data);
    assert(tree_events(data) =~= seq![tok]);
    assert(forest_events(Seq::<XmlTree>::empty()) =~= Seq::<XmlToken>::empty());
    assert(forest_events(d1) == forest_events(d1.subrange(0, 0)) + tree_events(d1[0]));
    assert(forest_events(d1) =~= seq![tok]);
    assert(one[0] == u);
    assert(tree_events(u) =~= seq![XmlToken::Start(name), tok, XmlToken::End(name)]);
    assert(forest_events(one) == forest_events(one.subrange(0, 0)) + tree_events(one[0]));
    assert(forest_events(one) =~= seq![XmlToken::Start(name), tok, XmlToken::End(name)]);
    let head = seq![XmlToken::Start(root)] + forest_events(pre);
    let tail = forest_events(post) + seq![XmlToken::End(root)];
    let mid = seq![XmlToken::Start(name), tok, XmlToken::End(name)];
    assert(tree_events(XmlTree::Element(root, children)) =~= head + tail);
    assert(tree_events(XmlTree::Element(root, ins)) =~= head + (mid + tail));
    // The head leaves no field selected.
    lemma_forest_no_eof(pre);
    assert(has_no_eof(head)) by {
        assert forall|i: int| 0 <= i < head.len() implies head[i] != XmlToken::Eof by {
            if i > 0 {
                assert(head[i] == forest_events(pre)[i - 1]);
            }
        }
    }
    lemma_tag_dispatch(init, root);
    lemma_ntf_tags_distinct();
    let s1 = ntf_on_start(init, root);
    assert(s1.field_mode == WXWorkMsgField::NONE);
    lemma_ntf_fold_one(init, XmlToken::Start(root));
    lemma_ntf_fold_append(init, seq![XmlToken::Start(root)], forest_events(pre));
    lemma_forest_mode(s1, pre);
    let st = ntf_fold(init, head);
    assert(st.field_mode == WXWorkMsgField::NONE);
    lemma_ntf_fold_append(init, head, tail);
    lemma_ntf_fold_append(init, head, mid + tail);
    lemma_unknown_element_ignored(st, name, tok, tail);
}

/// The state of looking for the encrypted payload of a message: whether the
/// reader is inside `<Encrypt>`, and the payload found so far.
pub struct EncryptState {
    pub is_msg_field: bool,
    pub ret: Option<Seq<char>>,
}

/// One step of looking for the payload: `<Encrypt>` opens it, `</Encrypt>`
/// closes it, and a CDATA section inside it that unescapes to UTF-8 becomes
/// the payload (a later one replaces an earlier one).
pub open spec fn encrypt_step(st: EncryptState, ev: XmlToken) -> EncryptState {
    match ev {
        XmlToken::Start(n) => if n == "Encrypt".spec_bytes() {
            EncryptState { is_msg_field: true, ..st }
        } else {
            st
        },
        XmlToken::End(n) => if n == "Encrypt".spec_bytes() {
            EncryptState { is_msg_field: false, ..st }
        } else {
            st
        },
        XmlToken::CData(d) => if st.is_msg_field {
            match decoded_text(d) {
                Some(s) => EncryptState { ret: Some(s), ..st },
                None => st,
            }
        } else {
            st
        },
        _ => st,
    }
}

pub open spec fn encrypt_fold(st: EncryptState, evs: Seq<XmlToken>) -> EncryptState
    decreases evs.len(),
{
    if evs.len() == 0 {
        st
    } else if evs[0] == XmlToken::Eof {
        st
    } else {
        encrypt_fold(encrypt_step(st, evs[0]), evs.drop_first())
    }
}

/// The encrypted payload that the events `evs` of a document carry.
pub open spec fn encrypt_of_events(evs: Seq<XmlToken>) -> Option<Seq<char>> {
    encrypt_fold(EncryptState { is_msg_field: false, ret: None }, evs).ret
}

/// An `<Encrypt>` element holding one CDATA section sets the payload to that
/// section's text when it unescapes to UTF-8, and otherwise keeps the payload.
pub proof fn lemma_encrypt_element_sets_payload(
    st: EncryptState,
    raw: Seq<u8>,
    rest: Seq<XmlToken>,
)
    requires
        !st.is_msg_field,
    ensures
        encrypt_fold(
            st,
            seq![
                XmlToken::Start("Encrypt".spec_bytes()),
                XmlToken::CData(raw),
                XmlToken::End("Encrypt".spec_bytes()),
            ] + rest,
        ) == encrypt_fold(
            match decoded_text(raw) {
                Some(s) => EncryptState { is_msg_field: false, ret: Some(s) },
                None => st,
            },
            rest,
        ),
{
    let evs = seq![
        XmlToken::Start("Encrypt".spec_bytes()),
        XmlToken::CData(raw),
        XmlToken::End("Encrypt".spec_bytes()),
    ] + rest;
    let s1 = EncryptState { is_msg_field: true, ..st };
    let s2 = encrypt_step(s1, XmlToken::CData(raw));
    let s3 = encrypt_step(s2, XmlToken::End("Encrypt".spec_bytes()));
    let e1 = evs.drop_first();
    let e2 = e1.drop_first();
    assert(evs[0] == XmlToken::Start("Encrypt".spec_bytes()));
    assert(e1[0] == XmlToken::CData(raw));
    assert(e2[0] == XmlToken::End("Encrypt".spec_bytes()));
    assert(e2.drop_first() =~= rest);
    assert(encrypt_fold(s2, e2) == encrypt_fold(s3, rest));
    assert(encrypt_fold(s1, e1) == encrypt_fold(s2, e2));
    assert(encrypt_fold(st, evs) == encrypt_fold(s1, e1));
}

struct EncryptReader {
    is_msg_field: bool,
    ret: Option<String>,
}

impl View for EncryptReader {
    type V = EncryptState;

    closed spec fn view(&self) -> EncryptState {
        EncryptState { is_msg_field: self.is_msg_field, ret: string_opt(self.ret) }
    }
}

impl EncryptReader {
    fn step(&mut self, ev: &XmlEvent)
        ensures
            final(self)@ == encrypt_step(old(self)@, ev@),
    {
        match ev {
            XmlEvent::Start(n) => {
                if bytes_eq(n.as_slice(), "Encrypt".as_bytes()) {
                    self.is_msg_field = true;
                }
            },
            XmlEvent::End(n) => {
                if bytes_eq(n.as_slice(), "Encrypt".as_bytes()) {
                    self.is_msg_field = false;
                }
            },
            XmlEvent::CData(d) => {
                if self.is_msg_field {
                    if let Some(s) = decode_text(d.as_slice()) {
                        self.ret = Some(s);
                    }
                }
            },
            _ => {},
        }
    }
}

/// Finds the encrypted payload (the CDATA inside `<Encrypt>`) among the events
/// of a document, up to the first end-of-document event.
pub fn find_msg_encrypt(events: &[XmlEvent]) -> (r: Option<String>)
    ensures
        string_opt(r) == encrypt_of_events(events@.map_values(|e: XmlEvent| e@)),
{
    let ghost evs = events@.map_values(|e: XmlEvent| e@);
    let ghost init = EncryptState { is_msg_field: false, ret: None };
    let mut st = EncryptReader { is_msg_field: false, ret: None };
    let mut i: usize = 0;
    assert(evs.skip(0) =~= evs);
    while i < events.len()
        invariant
            i <= events@.len(),
            evs == events@.map_values(|e: XmlEvent| e@),
            encrypt_fold(init, evs) == encrypt_fold(st@, evs.skip(i as int)),
        ensures
            encrypt_fold(init, evs) == st@,
        decreases events@.len() - i,
    {
        assert(evs.skip(i as int)[0] == events@[i as int]@);
        if let XmlEvent::Eof = &events[i] {
            break;
        }
        st.step(&events[i]);
        assert(evs.skip(i as int).drop_first() =~= evs.skip(i + 1));
        i = i + 1;
    }
    st.ret
}

/// Reads the encrypted payload of a message: the last CDATA section inside an
/// `<Encrypt>` element that unescapes to UTF-8, if there is one.
pub fn get_msg_encrypt_from_bytes(bytes: &[u8]) -> (r: Option<String>)
    ensures
        string_opt(r) == encrypt_of_events(xml_document_events(bytes@)),
{
    let events = read_xml_events(bytes);
    find_msg_encrypt(events.as_slice())
}

} // verus!
