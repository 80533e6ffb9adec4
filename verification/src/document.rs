use vstd::prelude::*;
use vstd::string::StringSliceAdditionalSpecFns;
use vstd::utf8::*;
use crate::xml::{
    new_xml_writer, write_xml, xml_escape, xml_escape_byte, xml_out_bytes, xml_writer_into_bytes,
    xml_writer_output, XmlOut, XmlWriter,
};

verus! {

/// XML escaping of one character: the five XML special characters become
/// entities, every other character stays.
pub open spec fn xml_escape_char(c: char) -> Seq<char> {
    if c == '<' {
        "&lt;"@
    } else if c == '>' {
        "&gt;"@
    } else if c == '\'' {
        "&apos;"@
    } else if c == '&' {
        "&amp;"@
    } else if c == '"' {
        "&quot;"@
    } else {
        seq![c]
    }
}

/// XML escaping of a text.
#[verifier::opaque]
pub open spec fn xml_escape_chars(s: Seq<char>) -> Seq<char>
    decreases s.len(),
{
    if s.len() == 0 {
        Seq::empty()
    } else {
        xml_escape_char(s[0]) + xml_escape_chars(s.drop_first())
    }
}

/// The text that writing an event adds to a document.
pub open spec fn xml_out_chars(ev: XmlOut) -> Seq<char> {
    match ev {
        XmlOut::Start(n) => "<"@ + n@ + ">"@,
        XmlOut::End(n) => "</"@ + n@ + ">"@,
        XmlOut::CData(t) => "<![CDATA["@ + xml_escape_chars(t@) + "]]>"@,
        XmlOut::RawCData(t) => "<![CDATA["@ + t@ + "]]>"@,
        XmlOut::Text(t) => xml_escape_chars(t@),
    }
}

/// UTF-8 encoding distributes over concatenation.
pub proof fn lemma_encode_utf8_concat(a: Seq<char>, b: Seq<char>)
    ensures
        encode_utf8(a + b) == encode_utf8(a) + encode_utf8(b),
    decreases a.len(),
{
    if a.len() == 0 {
        assert(a + b =~= b);
        assert(encode_utf8(a) =~= Seq::<u8>::empty());
        assert(encode_utf8(a) + encode_utf8(b) =~= encode_utf8(b));
    } else {
        assert((a + b)[0] == a[0]);
        assert((a + b).drop_first() =~= a.drop_first() + b);
        lemma_encode_utf8_concat(a.drop_first(), b);
        assert(encode_utf8(a + b) =~= encode_scalar(a[0] as u32) + (encode_utf8(a.drop_first())
            + encode_utf8(b)));
    }
}

/// Escaping distributes over concatenation.
pub proof fn lemma_escape_concat(a: Seq<u8>, b: Seq<u8>)
    ensures
        xml_escape(a + b) == xml_escape(a) + xml_escape(b),
    decreases a.len(),
{
    if a.len() == 0 {
        assert(a + b =~= b);
        assert(xml_escape(a) + xml_escape(b) =~= xml_escape(b));
    } else {
        assert((a + b)[0] == a[0]);
        assert((a + b).drop_first() =~= a.drop_first() + b);
        lemma_escape_concat(a.drop_first(), b);
        assert(xml_escape(a + b) =~= xml_escape_byte(a[0]) + (xml_escape(a.drop_first())
            + xml_escape(b)));
    }
}

/// Bytes that escaping leaves alone are left alone as a whole.
proof fn lemma_escape_plain(x: Seq<u8>)
    requires
        forall|i: int| 0 <= i < x.len() ==> xml_escape_byte(#[trigger] x[i]) == seq![x[i]],
    ensures
        xml_escape(x) == x,
    decreases x.len(),
{
    if x.len() > 0 {
        assert forall|i: int| 0 <= i < x.drop_first().len() implies xml_escape_byte(
            #[trigger] x.drop_first()[i],
        ) == seq![x.drop_first()[i]] by {
            assert(x.drop_first()[i] == x[i + 1]);
        }
        lemma_escape_plain(x.drop_first());
        assert(xml_escape(x) =~= seq![x[0]] + x.drop_first());
    }
}

proof fn lemma_width1_byte(s: u32)
    requires
        s <= 0x7f,
    ensures
        ((s & 0x7F) as u8) as u32 == s,
{
    assert(((s & 0x7F) as u8) as u32 == s) by (bit_vector)
        requires
            s <= 0x7f,
    ;
}

proof fn lemma_high_bytes(s: u32)
    ensures
        0xC0 | ((s >> 6) & 0x1F) as u8 >= 0x80,
        0xE0 | ((s >> 12) & 0x0F) as u8 >= 0x80,
        0xF0 | ((s >> 18) & 0x7) as u8 >= 0x80,
        0x80 | (s & 0x3F) as u8 >= 0x80,
        0x80 | ((s >> 6) & 0x3F) as u8 >= 0x80,
        0x80 | ((s >> 12) & 0x3F) as u8 >= 0x80,
{
    assert(0xC0 | ((s >> 6) & 0x1F) as u8 >= 0x80) by (bit_vector);
    assert(0xE0 | ((s >> 12) & 0x0F) as u8 >= 0x80) by (bit_vector);
    assert(0xF0 | ((s >> 18) & 0x7) as u8 >= 0x80) by (bit_vector);
    assert(0x80 | (s & 0x3F) as u8 >= 0x80) by (bit_vector);
    assert(0x80 | ((s >> 6) & 0x3F) as u8 >= 0x80) by (bit_vector);
    assert(0x80 | ((s >> 12) & 0x3F) as u8 >= 0x80) by (bit_vector);
}

/// Escaping the encoding of one character is encoding its escape.
proof fn lemma_escape_scalar(c: char)
    ensures
        xml_escape(encode_scalar(c as u32)) == encode_utf8(xml_escape_char(c)),
{
    let s = c as u32;
    broadcast use char_is_scalar;

    lemma_high_bytes(s);
    let e = encode_scalar(s);
    if has_width_1_encoding(s) {
        lemma_width1_byte(s);
        assert(e == seq![(s & 0x7F) as u8]);
        let b = e[0];
        assert(b as u32 == s);
        assert(xml_escape(e) =~= xml_escape_byte(b) + xml_escape(e.drop_first()));
        assert(e.drop_first() =~= Seq::<u8>::empty());
        assert(xml_escape(e) =~= xml_escape_byte(b));
        if c == '<' || c == '>' || c == '\'' || c == '&' || c == '"' {
        } else {
            assert(xml_escape_byte(b) == seq![b]);
            assert(seq![c].drop_first() =~= Seq::<char>::empty());
            assert(encode_utf8(seq![c]) =~= encode_scalar(s) + encode_utf8(Seq::<char>::empty()));
            assert(encode_utf8(seq![c]) =~= e);
        }
    } else {
        assert forall|i: int| 0 <= i < e.len() implies xml_escape_byte(#[trigger] e[i])
            == seq![e[i]] by {
            assert(e[i] >= 0x80);
        }
        lemma_escape_plain(e);
        assert(xml_escape_char(c) == seq![c]);
        assert(seq![c].drop_first() =~= Seq::<char>::empty());
        assert(encode_utf8(seq![c]) =~= encode_scalar(s) + encode_utf8(Seq::<char>::empty()));
        assert(encode_utf8(seq![c]) =~= e);
    }
}

/// Escaping the encoding of a text is encoding its escape.
pub proof fn lemma_escape_encode(s: Seq<char>)
    ensures
        xml_escape(encode_utf8(s)) == encode_utf8(xml_escape_chars(s)),
    decreases s.len(),
{
    reveal(xml_escape_chars);
    if s.len() > 0 {
        lemma_escape_concat(encode_scalar(s[0] as u32), encode_utf8(s.drop_first()));
        lemma_escape_scalar(s[0]);
        lemma_escape_encode(s.drop_first());
        lemma_encode_utf8_concat(xml_escape_char(s[0]), xml_escape_chars(s.drop_first()));
    }
}

/// The bytes written for an event encode the text it adds.
pub proof fn lemma_out_bytes(ev: XmlOut)
    ensures
        xml_out_bytes(ev) == encode_utf8(xml_out_chars(ev)),
{
    match ev {
        XmlOut::Start(n) => {
            lemma_encode_utf8_concat("<"@, n@);
            lemma_encode_utf8_concat("<"@ + n@, ">"@);
        },
        XmlOut::End(n) => {
            lemma_encode_utf8_concat("</"@, n@);
            lemma_encode_utf8_concat("</"@ + n@, ">"@);
        },
        XmlOut::CData(t) => {
            lemma_escape_encode(t@);
            lemma_encode_utf8_concat("<![CDATA["@, xml_escape_chars(t@));
            lemma_encode_utf8_concat("<![CDATA["@ + xml_escape_chars(t@), "]]>"@);
        },
        XmlOut::RawCData(t) => {
            lemma_encode_utf8_concat("<![CDATA["@, t@);
            lemma_encode_utf8_concat("<![CDATA["@ + t@, "]]>"@);
        },
        XmlOut::Text(t) => {
            lemma_escape_encode(t@);
        },
    }
}

/// Whether a text holds no `<` and no `>`.
pub open spec fn has_no_angle_brackets(s: Seq<char>) -> bool {
    forall|i: int| 0 <= i < s.len() ==> s[i] != '<' && s[i] != '>'
}

/// Escaped text holds no `<` and no `>`: text packed into a reply can neither
/// open nor close markup, nor end the CDATA section it stands in.
pub proof fn lemma_escaped_has_no_angle_brackets(s: Seq<char>)
    ensures
        has_no_angle_brackets(xml_escape_chars(s)),
    decreases s.len(),
{
    reveal(xml_escape_chars);
    if s.len() > 0 {
        lemma_escaped_has_no_angle_brackets(s.drop_first());
        reveal_strlit("&lt;");
        reveal_strlit("&gt;");
        reveal_strlit("&apos;");
        reveal_strlit("&amp;");
        reveal_strlit("&quot;");
        let h = xml_escape_char(s[0]);
        let t = xml_escape_chars(s.drop_first());
        assert(has_no_angle_brackets(h));
        assert(xml_escape_chars(s) == h + t);
        assert forall|i: int| 0 <= i < (h + t).len() implies (h + t)[i] != '<' && (h + t)[i]
            != '>' by {
            if i < h.len() {
                assert((h + t)[i] == h[i]);
            } else {
                assert((h + t)[i] == t[i - h.len()]);
            }
        }
    }
}

/// Whether a text holds none of the characters that escaping replaces.
pub open spec fn has_no_markup(s: Seq<char>) -> bool {
    forall|i: int|
        0 <= i < s.len() ==> s[i] != '<' && s[i] != '>' && s[i] != '&' && s[i] != '\'' && s[i]
            != '"'
}

/// A text that holds none of the characters that escaping replaces is its own
/// escape.
pub proof fn lemma_escape_chars_plain(s: Seq<char>)
    requires
        has_no_markup(s),
    ensures
        xml_escape_chars(s) == s,
    decreases s.len(),
{
    reveal(xml_escape_chars);
    if s.len() > 0 {
        assert(has_no_markup(s.drop_first()));
        lemma_escape_chars_plain(s.drop_first());
        assert(xml_escape_chars(s) =~= seq![s[0]] + s.drop_first());
    }
}

/// An XML document being written, with the text written so far.
pub struct XmlBuilder {
    writer: XmlWriter,
    text: Ghost<Seq<char>>,
}

impl XmlBuilder {
    /// The text written so far.
    pub closed spec fn text(&self) -> Seq<char> {
        self.text@
    }

    /// The writer holds the UTF-8 encoding of the text.
    pub closed spec fn wf(&self) -> bool {
        xml_writer_output(self.writer) == encode_utf8(self.text@)
    }

    /// Starts an empty document.
    pub fn new() -> (b: XmlBuilder)
        ensures
            b.wf(),
            b.text() == Seq::<char>::empty(),
    {
        let b = XmlBuilder { writer: new_xml_writer(), text: Ghost(Seq::empty()) };
        assert(encode_utf8(Seq::<char>::empty()) =~= Seq::<u8>::empty());
        b
    }

    /// Writes one event; writing never fails.
    pub fn write_event(&mut self, ev: XmlOut) -> (r: Result<usize, quick_xml::Error>)
        requires
            old(self).wf(),
        ensures
            final(self).wf(),
            final(self).text() == old(self).text() + xml_out_chars(ev),
            r is Ok,
    {
        proof {
            lemma_out_bytes(ev);
            lemma_encode_utf8_concat(self.text@, xml_out_chars(ev));
        }
        let r = write_xml(&mut self.writer, ev);
        self.text = Ghost(self.text@ + xml_out_chars(ev));
        r
    }

    /// The bytes of the document: the UTF-8 encoding of its text.
    pub fn into_bytes(self) -> (b: Vec<u8>)
        requires
            self.wf(),
        ensures
            b@ == encode_utf8(self.text()),
    {
        xml_writer_into_bytes(self.writer)
    }
}

} // verus!
