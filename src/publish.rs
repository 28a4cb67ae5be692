//! The events the agent publishes about itself: the one-time service
//! announcement and its follow list, and the correlation suffix that marks
//! the announcement.
use vstd::prelude::*;

use crate::event::{KIND_CONTACT_LIST, KIND_SERVICE_ANNOUNCEMENT};
use crate::ident::{hex_digits, hex_of};
use crate::reply::{ref_tag, tag_views, RefKind, Reference, Tag};

verus! {

/// Length, in characters, of the correlation suffix.
pub const SUFFIX_LEN: usize = 20;

/// How JSON writes character `c` inside a string literal.
pub open spec fn json_escaped_char(c: char) -> Seq<char> {
    if c == '"' {
        seq!['\\', '"']
    } else if c == '\\' {
        seq!['\\', '\\']
    } else if c == '\u{8}' {
        seq!['\\', 'b']
    } else if c == '\t' {
        seq!['\\', 't']
    } else if c == '\n' {
        seq!['\\', 'n']
    } else if c == '\u{c}' {
        seq!['\\', 'f']
    } else if c == '\r' {
        seq!['\\', 'r']
    } else if (c as u32) < 32 {
        seq![
            '\\',
            'u',
            '0',
            '0',
            hex_digits()[(c as u32 / 16) as int],
            hex_digits()[(c as u32 % 16) as int],
        ]
    } else {
        seq![c]
    }
}

/// The characters of `s`, each escaped as JSON writes it.
pub open spec fn json_escaped(s: Seq<char>) -> Seq<char>
    decreases s.len(),
{
    if s.len() == 0 {
        Seq::empty()
    } else {
        json_escaped(s.drop_last()) + json_escaped_char(s.last())
    }
}

/// `s` as a JSON string literal.
pub open spec fn json_string(s: Seq<char>) -> Seq<char> {
    seq!['"'] + json_escaped(s) + seq!['"']
}

/// Relies on serde_json's `Display` for `Value::String`: the compact
/// serializer writes the text between double quotes, escaping `"` and `\`,
/// backspace, tab, line feed, form feed and carriage return by a letter and
/// other control characters below 0x20 as `\u00` and two lower-case hex digits.
#[verifier::external_body]
fn json_string_literal(s: &str) -> (r: String)
    ensures
        r@ == json_string(s@),
{
    serde_json::Value::String(s.to_string()).to_string()
}

/// The announcement payload: a JSON object with the service's name and
/// description, and no encryption support, in the key order JSON maps keep.
pub open spec fn announcement_text(name: Seq<char>, about: Seq<char>) -> Seq<char> {
    "{\"about\":"@ + json_string(about) + ",\"encryptionSupported\":false,\"name\":"@ + json_string(
        name,
    ) + "}"@
}

/// The tags of the announcement: the kind of request served, and the
/// correlation suffix.
pub open spec fn announcement_tags(suffix: Seq<char>) -> Seq<(Seq<char>, Seq<char>)> {
    seq![("k"@, "5300"@), ("d"@, suffix)]
}

/// An event to publish: its kind, payload and tags.
pub struct Publication {
    pub kind: u16,
    pub content: String,
    pub tags: Vec<Tag>,
}

/// The one-time announcement of the service.
pub fn announcement(name: &str, about: &str, suffix: &str) -> (r: Publication)
    ensures
        r.kind == KIND_SERVICE_ANNOUNCEMENT,
        r.content@ == announcement_text(name@, about@),
        tag_views(r.tags@) == announcement_tags(suffix@),
{
    let mut content = String::from_str("{\"about\":");
    let about_json = json_string_literal(about);
    content.append(about_json.as_str());
    content.append(",\"encryptionSupported\":false,\"name\":");
    let name_json = json_string_literal(name);
    content.append(name_json.as_str());
    content.append("}");
    let mut tags: Vec<Tag> = Vec::new();
    tags.push(Tag { name: String::from_str("k"), value: String::from_str("5300") });
    tags.push(Tag { name: String::from_str("d"), value: String::from_str(suffix) });
    assert(tag_views(tags@) =~= announcement_tags(suffix@));
    assert(content@ =~= announcement_text(name@, about@));
    Publication { kind: KIND_SERVICE_ANNOUNCEMENT, content, tags }
}

/// The follow list's tags: one public-key reference for each key, in order.
pub open spec fn follow_tags(keys: Seq<[u8; 32]>) -> Seq<(Seq<char>, Seq<char>)> {
    keys.map_values(|k: [u8; 32]| ref_tag(Reference { kind: RefKind::Pubkey, target: k }))
}

/// The follow list: an empty payload and a reference to each followed key.
pub fn follow_list(keys: &Vec<[u8; 32]>) -> (r: Publication)
    ensures
        r.kind == KIND_CONTACT_LIST,
        r.content@ == Seq::<char>::empty(),
        tag_views(r.tags@) == follow_tags(keys@),
{
    let mut tags: Vec<Tag> = Vec::new();
    let mut i: usize = 0;
    while i < keys.len()
        invariant
            i <= keys@.len(),
            tag_views(tags@) == follow_tags(keys@.take(i as int)),
        decreases keys@.len() - i,
    {
        let p = Reference { kind: RefKind::Pubkey, target: keys[i] };
        let ghost prev = tags@;
        let t = p.to_tag();
        tags.push(t);
        assert(tag_views(tags@) =~= tag_views(prev).push(t@));
        assert(keys@.take(i + 1) =~= keys@.take(i as int).push(keys@[i as int]));
        assert(follow_tags(keys@.take(i + 1)) =~= follow_tags(keys@.take(i as int)).push(t@));
        i = i + 1;
    }
    assert(keys@.take(i as int) =~= keys@);
    Publication { kind: KIND_CONTACT_LIST, content: String::new(), tags }
}

/// The human-readable prefix of an encoded public key.
pub open spec fn npub_chars() -> Seq<char> {
    seq!['n', 'p', 'u', 'b']
}

/// `s` with every occurrence of `npub` removed, scanning left to right.
pub open spec fn without_npub(s: Seq<char>) -> Seq<char>
    decreases s.len(),
{
    if s.len() >= 4 && s.take(4) == npub_chars() {
        without_npub(s.skip(4))
    } else if s.len() == 0 {
        s
    } else {
        seq![s[0]] + without_npub(s.skip(1))
    }
}

/// The correlation suffix made from an encoded public key: the key without
/// its `npub` prefix, cut to its first twenty characters.
pub open spec fn suffix_of(s: Seq<char>) -> Seq<char> {
    let t = without_npub(s);
    if t.len() > SUFFIX_LEN {
        t.take(SUFFIX_LEN as int)
    } else {
        t
    }
}

/// The correlation suffix made from the encoded public key `encoded`.
pub fn correlation_suffix(encoded: &str) -> (r: String)
    ensures
        r@ == suffix_of(encoded@),
{
    let n = encoded.unicode_len();
    let mut out = String::new();
    let mut i: usize = 0;
    assert(encoded@.skip(0) =~= encoded@);
    assert(out@ + without_npub(encoded@) =~= without_npub(encoded@));
    while i < n
        invariant
            n == encoded@.len(),
            i <= n,
            out@ + without_npub(encoded@.skip(i as int)) == without_npub(encoded@),
        decreases n - i,
    {
        let ghost t = encoded@.skip(i as int);
        let at_npub = n - i >= 4 && encoded.get_char(i) == 'n' && encoded.get_char(i + 1) == 'p'
            && encoded.get_char(i + 2) == 'u' && encoded.get_char(i + 3) == 'b';
        if at_npub {
            assert(t.take(4) =~= npub_chars());
            assert(t.skip(4) =~= encoded@.skip(i + 4));
            i = i + 4;
        } else {
            assert(!(t.len() >= 4 && t.take(4) == npub_chars())) by {
                if t.len() >= 4 && t.take(4) == npub_chars() {
                    assert(t.take(4)[0] == 'n' && t.take(4)[1] == 'p');
                    assert(t.take(4)[2] == 'u' && t.take(4)[3] == 'b');
                }
            }
            let c = encoded.substring_char(i, i + 1);
            out.append(c);
            assert(t.skip(1) =~= encoded@.skip(i + 1));
            assert(c@ =~= seq![t[0]]);
            assert(out@ + without_npub(encoded@.skip(i + 1)) =~= without_npub(encoded@));
            i = i + 1;
        }
    }
    assert(encoded@.skip(n as int).len() == 0);
    let ghost full = out@;
    assert(full == without_npub(encoded@));
    if out.unicode_len() > SUFFIX_LEN {
        let cut = out.as_str().substring_char(0, SUFFIX_LEN);
        String::from_str(cut)
    } else {
        out
    }
}

} // verus!
