# wxwork_robot

Message handling for a WeChat Work (WXWork) group robot, verified with Verus.

- `src/message.rs` reads the XML notifications the robot receives
  (`get_msg_from_str`, `decode_msg_events`) and the encrypted payload of a
  request (`get_msg_encrypt_from_bytes`, `find_msg_encrypt`), as a state machine
  over XML events whose every step has a specification. Documents are read into
  events first (`xml::read_xml_events`), then the event-taking functions decide.
  Laws about reading, over documents given as trees of elements
  (`xml::XmlTree`), stand beside them.
- `src/reply.rs` packs the XML replies (text, markdown, image, encrypted
  reply, access refusal); each contract gives the exact document, except that
  of `pack_image_message`, which allows the document with the MD5 digest and,
  where OpenSSL cannot compute it, the one without (`pack_image_message_with_digest`
  is exact for every digest).
- `src/xml.rs` holds the trusted boundary to `quick-xml` (reading events,
  unescaping, writing events); `src/document.rs` builds documents on top of it
  and proves that the written bytes are the UTF-8 encoding of the specified text.
- `src/base64.rs`, `src/text.rs` (UTF-8, decimal numbers), `src/digest.rs`
  (MD5 through OpenSSL, hexadecimal through `hex`) and `src/pattern.rs`
  (named capture through `regex`) are the helpers.
- `app/` holds the HTTP edge: the `actix-web` responses.
