//! Replies to service requests: correlation tags that reference the request
//! and its author, and a payload that lists the history's members in order.
use vstd::prelude::*;

use crate::event::{Event, KIND_SERVICE_RESULT};
use crate::history::{ids_of, HistoryBuffer};
use crate::ident::{hex_of, push_hex, to_hex};

verus! {

/// What a reference points at.
#[derive(Clone, Copy, Debug, PartialEq, Eq, Structural)]
pub enum RefKind {
    /// Another event, by its identifier.
    Event,
    /// A participant, by public key.
    Pubkey,
}

/// A structured reference: a kind and the identifier it targets.
#[derive(Clone, Copy, Debug)]
pub struct Reference {
    pub kind: RefKind,
    pub target: [u8; 32],
}

/// A tag as sent on the network: a name and one value.
pub struct Tag {
    pub name: String,
    pub value: String,
}

impl View for Tag {
    type V = (Seq<char>, Seq<char>);

    open spec fn view(&self) -> (Seq<char>, Seq<char>) {
        (self.name@, self.value@)
    }
}

/// The tag name that marks a reference of kind `k`.
pub open spec fn ref_name(k: RefKind) -> Seq<char> {
    match k {
        RefKind::Event => "e"@,
        RefKind::Pubkey => "p"@,
    }
}

/// The tag that carries reference `r`.
pub open spec fn ref_tag(r: Reference) -> (Seq<char>, Seq<char>) {
    (ref_name(r.kind), hex_of(r.target@))
}

/// The four correlation tags of the reply to request `id` from `author`.
pub open spec fn reply_tags(id: [u8; 32], author: [u8; 32]) -> Seq<(Seq<char>, Seq<char>)> {
    seq![
        ref_tag(Reference { kind: RefKind::Event, target: id }),
        ref_tag(Reference { kind: RefKind::Pubkey, target: author }),
        ("status"@, "success"@),
        ("alt"@, "MN DVM Result"@),
    ]
}

/// The views of a list of tags.
pub open spec fn tag_views(tags: Seq<Tag>) -> Seq<(Seq<char>, Seq<char>)> {
    tags.map_values(|t: Tag| t@)
}

/// One payload entry: `["e", "<hex id>"]`.
pub open spec fn entry_text(id: [u8; 32]) -> Seq<char> {
    "[\"e\", \""@ + hex_of(id@) + "\"]"@
}

/// The entries of `ids`, in order, separated by commas.
pub open spec fn entries_text(ids: Seq<[u8; 32]>) -> Seq<char>
    decreases ids.len(),
{
    if ids.len() == 0 {
        Seq::empty()
    } else if ids.len() == 1 {
        entry_text(ids[0])
    } else {
        entries_text(ids.drop_last()) + ","@ + entry_text(ids.last())
    }
}

/// The reply payload: the entries of `ids` as one array of references.
pub open spec fn payload_text(ids: Seq<[u8; 32]>) -> Seq<char> {
    "["@ + entries_text(ids) + "]"@
}

/// A reply to one service request.
pub struct Reply {
    /// Kind of the reply event.
    pub kind: u16,
    /// Identifier of the request answered.
    pub request_id: [u8; 32],
    /// Public key of the requester.
    pub requester: [u8; 32],
    /// The history's member identifiers when the request was handled.
    pub members: Vec<[u8; 32]>,
    /// The payload listing `members`.
    pub content: String,
    /// The correlation tags.
    pub tags: Vec<Tag>,
}

impl Reference {
    /// The tag that carries this reference.
    pub fn to_tag(&self) -> (r: Tag)
        ensures
            r@ == ref_tag(*self),
    {
        let name = match self.kind {
            RefKind::Event => String::from_str("e"),
            RefKind::Pubkey => String::from_str("p"),
        };
        Tag { name, value: to_hex(&self.target) }
    }
}

/// The payload that lists `ids` in order.
pub fn encode_members(ids: &Vec<[u8; 32]>) -> (r: String)
    ensures
        r@ == payload_text(ids@),
{
    let mut out = String::from_str("[");
    let mut i: usize = 0;
    while i < ids.len()
        invariant
            i <= ids@.len(),
            out@ == "["@ + entries_text(ids@.take(i as int)),
        decreases ids@.len() - i,
    {
        let ghost before = out@;
        let ghost prev = ids@.take(i as int);
        assert(ids@.take(i + 1).drop_last() =~= prev);
        if i > 0 {
            out.append(",");
        }
        out.append("[\"e\", \"");
        push_hex(&mut out, &ids[i]);
        out.append("\"]");
        proof {
            if i == 0 {
                assert(out@ =~= "["@ + entry_text(ids@[0]));
            } else {
                assert(out@ =~= before + ","@ + entry_text(ids@[i as int]));
            }
        }
        i = i + 1;
    }
    assert(ids@.take(i as int) =~= ids@);
    out.append("]");
    out
}

/// The reply to `request`, listing `members` in the order given.
pub fn build_reply(request: &Event, members: Vec<[u8; 32]>) -> (r: Reply)
    ensures
        r.kind == KIND_SERVICE_RESULT,
        r.request_id == request.id,
        r.requester == request.author,
        r.members@ == members@,
        r.content@ == payload_text(members@),
        tag_views(r.tags@) == reply_tags(request.id, request.author),
{
    let content = encode_members(&members);
    let e = Reference { kind: RefKind::Event, target: request.id };
    let p = Reference { kind: RefKind::Pubkey, target: request.author };
    let mut tags: Vec<Tag> = Vec::new();
    tags.push(e.to_tag());
    tags.push(p.to_tag());
    tags.push(Tag { name: String::from_str("status"), value: String::from_str("success") });
    tags.push(Tag { name: String::from_str("alt"), value: String::from_str("MN DVM Result") });
    assert(tag_views(tags@) =~= reply_tags(request.id, request.author));
    Reply {
        kind: KIND_SERVICE_RESULT,
        request_id: request.id,
        requester: request.author,
        members,
        content,
        tags,
    }
}

/// The reply to `request` from a snapshot of `history` taken now.
pub fn respond(history: &HistoryBuffer, request: &Event) -> (r: Reply)
    ensures
        r.kind == KIND_SERVICE_RESULT,
        r.request_id == request.id,
        r.requester == request.author,
        r.members@ == ids_of(history@),
        r.content@ == payload_text(ids_of(history@)),
        tag_views(r.tags@) == reply_tags(request.id, request.author),
{
    build_reply(request, history.snapshot())
}

} // verus!
