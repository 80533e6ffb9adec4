use vstd::prelude::*;

verus! {

/// The characters held by an optional string.
pub open spec fn string_opt(v: Option<String>) -> Option<Seq<char>> {
    match v {
        Some(s) => Some(s@),
        None => None,
    }
}

/// What the `regex` crate reports for the capture group `group` of the first
/// match of `pattern` in `text` (`Regex::captures`, then `Captures::name`):
/// `None` where the pattern does not compile, nothing matches, or the group
/// takes no part in the match.
pub uninterp spec fn regex_named_capture(pattern: Seq<char>, text: Seq<char>, group: Seq<char>) -> Option<Seq<char>>;

/// A character of a robot key: an ASCII letter or digit, `_` or `-`.
pub open spec fn is_key_char(c: char) -> bool {
    ||| '0' <= c <= '9'
    ||| 'a' <= c <= 'z'
    ||| 'A' <= c <= 'Z'
    ||| c == '_'
    ||| c == '-'
}

/// The text `key=`.
pub open spec fn key_marker() -> Seq<char> {
    seq!['k', 'e', 'y', '=']
}

/// `text` is `p + "key=" + k + rest`, where this `key=` is the first one in
/// `text`, `k` is a non-empty run of key characters, and `rest` is empty or
/// starts with an ASCII character that is not a key character.
pub open spec fn key_split(text: Seq<char>, p: Seq<char>, k: Seq<char>, rest: Seq<char>) -> bool {
    &&& text == p + key_marker() + k + rest
    &&& k.len() > 0
    &&& forall|i: int| 0 <= i < k.len() ==> is_key_char(#[trigger] k[i])
    &&& (rest.len() == 0 || ((rest[0] as u32) < 128 && !is_key_char(rest[0])))
    &&& forall|i: int|
        0 <= i < p.len() ==> #[trigger] (p + key_marker()).subrange(i, i + 4) != key_marker()
}

/// Compiles `pattern` with `regex::RegexBuilder` (case sensitive) and returns the
/// text of the named group `group` in the first match in `text`. Claimed: the
/// result is `regex_named_capture(pattern, text, group)`. Claimed too, for the
/// pattern `key=(?P<KEY>[\d\w\-_]+)` and its group `KEY`: where `text` is
/// `p + "key=" + k + rest` as `key_split` describes, the group is `k`. The
/// regex crate documents leftmost-first matching with greedy repetition; the
/// leftmost match starts at the first `key=` followed by a key character, and
/// `+` takes the longest run of class characters, which for ASCII are exactly
/// the key characters (`\d` and `\w` take no other ASCII character).
#[verifier::external_body]
pub(crate) fn named_capture(pattern: &str, text: &str, group: &str) -> (r: Option<String>)
    ensures
        string_opt(r) == regex_named_capture(pattern@, text@, group@),
        pattern@ == "key=(?P<KEY>[\\d\\w\\-_]+)"@ && group@ == "KEY"@ ==> forall|
            p: Seq<char>,
            k: Seq<char>,
            rest: Seq<char>,
        | #[trigger] key_split(text@, p, k, rest) ==> string_opt(r) == Some(k),
{
    match regex::RegexBuilder::new(pattern).case_insensitive(false).build() {
        Ok(re) => match re.captures(text) {
            Some(caps) => match caps.name(group) {
                Some(m) => Some(m.as_str().to_string()),
                None => None,
            },
            None => None,
        },
        Err(_) => None,
    }
}

} // verus!
