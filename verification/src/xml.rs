use vstd::prelude::*;
use quick_xml::events::{BytesEnd, BytesStart, BytesText, Event};
use vstd::string::StringSliceAdditionalSpecFns;

verus! {

/// A `quick_xml::Reader` over a byte slice. Verus cannot take the reader's
/// declaration (its `BufRead` bound is unknown to it), so the reader is held here,
/// out of Verus's sight, and described by `pending_xml_events`.
#[verifier::external_body]
pub struct XmlReader<'a> {
    inner: quick_xml::Reader<&'a [u8]>,
}

/// One event of an XML document, as this library reads it: element names and
/// character data are the raw (still escaped) bytes of the document.
pub enum XmlToken {
    Start(Seq<u8>),
    End(Seq<u8>),
    Text(Seq<u8>),
    CData(Seq<u8>),
    Eof,
    Error,
    Other,
}

/// A well-formed XML element, or character data, as a tree.
pub enum XmlTree {
    /// An element: its name and its children.
    Element(Seq<u8>, Seq<XmlTree>),
    /// Character data.
    Text(Seq<u8>),
    /// A CDATA section.
    CData(Seq<u8>),
}

/// The events of a tree, in document order.
pub open spec fn tree_events(t: XmlTree) -> Seq<XmlToken>
    decreases t, 1int,
{
    match t {
        XmlTree::Element(n, cs) => seq![XmlToken::Start(n)] + forest_events(cs) + seq![
            XmlToken::End(n),
        ],
        XmlTree::Text(d) => seq![XmlToken::Text(d)],
        XmlTree::CData(d) => seq![XmlToken::CData(d)],
    }
}

/// The events of a sequence of trees, one after the other.
pub open spec fn forest_events(ts: Seq<XmlTree>) -> Seq<XmlToken>
    decreases ts, 0int,
{
    if ts.len() == 0 {
        Seq::empty()
    } else {
        proof {
            vstd::seq::axiom_seq_index_decreases(ts, ts.len() - 1);
            vstd::seq::axiom_seq_subrange_decreases(ts, 0, ts.len() - 1);
        }
        forest_events(ts.subrange(0, ts.len() - 1)) + tree_events(ts[ts.len() - 1])
    }
}

/// An event read from an XML document.
#[derive(Debug)]
pub enum XmlEvent {
    /// An opening tag `<name ...>`; holds the element name.
    Start(Vec<u8>),
    /// A closing tag `</name>`; holds the element name.
    End(Vec<u8>),
    /// Character data between tags, trimmed of surrounding whitespace, still escaped.
    Text(Vec<u8>),
    /// The content of a `<![CDATA[...]]>` section.
    CData(Vec<u8>),
    /// The end of the document.
    Eof,
    /// A malformed part of the document.
    Error,
    /// Any other event (empty elements, comments, declarations, ...).
    Other,
}

impl View for XmlEvent {
    type V = XmlToken;

    open spec fn view(&self) -> XmlToken {
        match self {
            XmlEvent::Start(n) => XmlToken::Start(n@),
            XmlEvent::End(n) => XmlToken::End(n@),
            XmlEvent::Text(t) => XmlToken::Text(t@),
            XmlEvent::CData(t) => XmlToken::CData(t@),
            XmlEvent::Eof => XmlToken::Eof,
            XmlEvent::Error => XmlToken::Error,
            XmlEvent::Other => XmlToken::Other,
        }
    }
}

/// The events that a reader over `input`, with text trimming switched on,
/// hands out before it reports the end of the document.
pub uninterp spec fn xml_document_events(input: Seq<u8>) -> Seq<XmlToken>;

/// The events that `reader` has not handed out yet, up to the end of its document.
pub uninterp spec fn pending_xml_events(reader: XmlReader) -> Seq<XmlToken>;

/// Opens a `quick_xml::Reader` over `input` (`Reader::from_reader`) and switches
/// on `trim_text`, as every reader of this library does. Claimed: the reader
/// will hand out exactly the events of `input`.
#[verifier::external_body]
pub(crate) fn new_reader<'a>(input: &'a [u8]) -> (r: XmlReader<'a>)
    ensures
        pending_xml_events(r) == xml_document_events(input@),
{
    let mut r = quick_xml::Reader::from_reader(input);
    r.trim_text(true);
    XmlReader { inner: r }
}

/// Reads the next event with `quick_xml::Reader::read_event`. Claimed: while
/// events are pending, the first of them comes out and is removed (it is never
/// the end of the document); afterwards the reader reports the end of the
/// document and stays there (its source switches to that state after an end or
/// an error).
#[verifier::external_body]
pub(crate) fn read_xml_event(reader: &mut XmlReader) -> (e: XmlEvent)
    ensures
        pending_xml_events(*old(reader)).len() == 0 ==> {
            &&& e@ == XmlToken::Eof
            &&& pending_xml_events(*final(reader)) == pending_xml_events(*old(reader))
        },
        pending_xml_events(*old(reader)).len() > 0 ==> {
            &&& e@ == pending_xml_events(*old(reader))[0]
            &&& e@ != XmlToken::Eof
            &&& pending_xml_events(*final(reader)) == pending_xml_events(*old(reader)).drop_first()
        },
{
    let mut buf = Vec::new();
    match reader.inner.read_event(&mut buf) {
        Ok(Event::Start(e)) => XmlEvent::Start(e.name().to_vec()),
        Ok(Event::End(e)) => XmlEvent::End(e.name().to_vec()),
        Ok(Event::Text(t)) => XmlEvent::Text(t.escaped().to_vec()),
        Ok(Event::CData(t)) => XmlEvent::CData(t.escaped().to_vec()),
        Ok(Event::Eof) => XmlEvent::Eof,
        Ok(_) => XmlEvent::Other,
        Err(_) => XmlEvent::Error,
    }
}

} // verus!

verus! {

/// The tokens of a list of events.
pub open spec fn xml_tokens(events: Seq<XmlEvent>) -> Seq<XmlToken> {
    events.map_values(|e: XmlEvent| e@)
}

/// Reads all events of a document, up to (not including) its end.
pub fn read_xml_events(input: &[u8]) -> (events: Vec<XmlEvent>)
    ensures
        xml_tokens(events@) == xml_document_events(input@),
{
    let mut reader = new_reader(input);
    let ghost doc = xml_document_events(input@);
    let mut events: Vec<XmlEvent> = Vec::new();
    assert(xml_tokens(events@) + pending_xml_events(reader) =~= doc);
    loop
        invariant_except_break
            xml_tokens(events@) + pending_xml_events(reader) == doc,
        ensures
            xml_tokens(events@) == doc,
        decreases pending_xml_events(reader).len(),
    {
        let ghost before = pending_xml_events(reader);
        let ev = read_xml_event(&mut reader);
        if let XmlEvent::Eof = ev {
            assert(xml_tokens(events@) =~= doc);
            break;
        }
        proof {
            assert(xml_tokens(events@.push(ev)) =~= xml_tokens(events@).push(ev@));
            assert(xml_tokens(events@).push(ev@) + before.drop_first() =~= xml_tokens(events@)
                + before);
        }
        events.push(ev);
    }
    events
}

/// The bytes held by an optional byte vector.
pub open spec fn bytes_opt(v: Option<Vec<u8>>) -> Option<Seq<u8>> {
    match v {
        Some(b) => Some(b@),
        None => None,
    }
}

/// What `quick_xml::events::BytesText::unescaped` gives for the escaped bytes
/// `raw`: the bytes with every entity (`&lt;`, `&#x30;`, ...) replaced, or
/// `None` where an entity is malformed.
pub uninterp spec fn xml_unescape(raw: Seq<u8>) -> Option<Seq<u8>>;

/// Unescapes character data with `BytesText::from_escaped(raw).unescaped()`.
/// Claimed: the result is `xml_unescape(raw)`; and, as the source shows,
/// bytes without any `&` come back unchanged (`unescape` only acts at a `&`),
/// and bytes that `escape` produced come back as they were before escaping
/// (each of the five entities `escape` writes is read back as its character,
/// and the `;` that ends it is the first `&` or `;` after its `&`).
#[verifier::external_body]
pub(crate) fn unescape(raw: &[u8]) -> (r: Option<Vec<u8>>)
    ensures
        bytes_opt(r) == xml_unescape(raw@),
        !raw@.contains(38u8) ==> bytes_opt(r) == Some(raw@),
        forall|b: Seq<u8>| #[trigger] xml_escape(b) == raw@ ==> bytes_opt(r) == Some(b),
{
    match quick_xml::events::BytesText::from_escaped(raw).unescaped() {
        Ok(u) => Some(u.to_vec()),
        Err(_) => None,
    }
}

} // verus!

verus! {

#[verifier::external_type_specification]
#[verifier::external_body]
pub struct ExXmlError(quick_xml::Error);

/// A `quick_xml::Writer` that writes into a `Cursor<Vec<u8>>`. Verus cannot take
/// the writer's declaration (its `Write` bound is unknown to it), so the writer
/// is held here, out of Verus's sight, and described by `xml_writer_output`.
#[verifier::external_body]
pub struct XmlWriter {
    inner: quick_xml::Writer<std::io::Cursor<Vec<u8>>>,
}

/// The bytes written so far by `writer`.
pub uninterp spec fn xml_writer_output(writer: XmlWriter) -> Seq<u8>;

/// An event to write into an XML document.
pub enum XmlOut<'a> {
    /// An opening tag `<name>`.
    Start(&'a str),
    /// A closing tag `</name>`.
    End(&'a str),
    /// A CDATA section holding the text, escaped (`BytesText::from_plain_str`).
    CData(&'a str),
    /// A CDATA section holding the text as it is (`BytesText::from_escaped_str`).
    RawCData(&'a str),
    /// Character data holding the text, escaped (`BytesText::from_plain_str`).
    Text(&'a str),
}

/// What `quick_xml`'s `escape` makes of one byte: the five XML special
/// characters become entities, every other byte stays.
pub open spec fn xml_escape_byte(b: u8) -> Seq<u8> {
    if b == '<' as u8 {
        "&lt;".spec_bytes()
    } else if b == '>' as u8 {
        "&gt;".spec_bytes()
    } else if b == '\'' as u8 {
        "&apos;".spec_bytes()
    } else if b == '&' as u8 {
        "&amp;".spec_bytes()
    } else if b == '"' as u8 {
        "&quot;".spec_bytes()
    } else {
        seq![b]
    }
}

/// What `quick_xml`'s `escape` makes of a byte string.
pub open spec fn xml_escape(bytes: Seq<u8>) -> Seq<u8>
    decreases bytes.len(),
{
    if bytes.len() == 0 {
        Seq::empty()
    } else {
        xml_escape_byte(bytes[0]) + xml_escape(bytes.drop_first())
    }
}

/// The bytes that `quick_xml::Writer::write_event` writes for an event.
pub open spec fn xml_out_bytes(ev: XmlOut) -> Seq<u8> {
    match ev {
        XmlOut::Start(n) => "<".spec_bytes() + n.spec_bytes() + ">".spec_bytes(),
        XmlOut::End(n) => "</".spec_bytes() + n.spec_bytes() + ">".spec_bytes(),
        XmlOut::CData(t) => "<![CDATA[".spec_bytes() + xml_escape(t.spec_bytes())
            + "]]>".spec_bytes(),
        XmlOut::RawCData(t) => "<![CDATA[".spec_bytes() + t.spec_bytes() + "]]>".spec_bytes(),
        XmlOut::Text(t) => xml_escape(t.spec_bytes()),
    }
}

/// Makes a writer over an empty `Cursor<Vec<u8>>` (`quick_xml::Writer::new`,
/// without indentation). Claimed: nothing is written yet.
#[verifier::external_body]
pub(crate) fn new_xml_writer() -> (w: XmlWriter)
    ensures
        xml_writer_output(w) == Seq::<u8>::empty(),
{
    XmlWriter { inner: quick_xml::Writer::new(std::io::Cursor::new(Vec::new())) }
}

/// Writes one event with `quick_xml::Writer::write_event`, building the event
/// with `BytesStart::borrowed_name`, `BytesEnd::borrowed` and
/// `BytesText::from_plain_str` / `from_escaped_str`. Claimed, as the source of
/// `write_event` and `escape` shows: the bytes of `xml_out_bytes(ev)` are
/// appended, and since a `Cursor` over a `Vec` takes every write in full, the
/// result is `Ok`. Running out of memory is not modelled (as in vstd's own
/// specifications of `Vec`).
#[verifier::external_body]
pub(crate) fn write_xml(w: &mut XmlWriter, ev: XmlOut) -> (r: Result<usize, quick_xml::Error>)
    ensures
        xml_writer_output(*final(w)) == xml_writer_output(*old(w)) + xml_out_bytes(ev),
        r is Ok,
{
    let event = match ev {
        XmlOut::Start(n) => Event::Start(BytesStart::borrowed_name(n.as_bytes())),
        XmlOut::End(n) => Event::End(BytesEnd::borrowed(n.as_bytes())),
        XmlOut::CData(t) => Event::CData(BytesText::from_plain_str(t)),
        XmlOut::RawCData(t) => Event::CData(BytesText::from_escaped_str(t)),
        XmlOut::Text(t) => Event::Text(BytesText::from_plain_str(t)),
    };
    w.inner.write_event(event)
}

/// Takes the written bytes out of the writer (`into_inner` of the writer, then
/// of the cursor). Claimed: they are the bytes written.
#[verifier::external_body]
pub(crate) fn xml_writer_into_bytes(w: XmlWriter) -> (b: Vec<u8>)
    ensures
        b@ == xml_writer_output(w),
{
    w.inner.into_inner().into_inner()
}

} // verus!
