//! The dispatcher: the single writer of the history. It takes one inbound
//! event at a time, classifies it and routes it: notes into the history,
//! service requests to a reply built from the history as it stands, direct
//! messages to a handler that does nothing yet, everything else away.
use vstd::prelude::*;

use crate::event::{category_of, classify, Category, Event, KIND_SERVICE_RESULT};
use crate::history::{ids_of, inserted, well_formed, HistoryBuffer};
use crate::reply::{payload_text, reply_tags, respond, tag_views, Reply};

verus! {

/// What handling one inbound event produced.
pub enum Outcome {
    /// A note, offered to the history.
    Stored,
    /// A service request, answered with this reply.
    Replied(Reply),
    /// A direct message; its handling is not implemented and does nothing.
    NotImplemented,
    /// Any other event, dropped.
    Dropped,
}

/// `reply` answers `request` with the members of `history`, in order.
pub open spec fn answers(reply: Reply, history: Seq<Event>, request: Event) -> bool {
    &&& reply.kind == KIND_SERVICE_RESULT
    &&& reply.request_id == request.id
    &&& reply.requester == request.author
    &&& reply.members@ == ids_of(history)
    &&& reply.content@ == payload_text(ids_of(history))
    &&& tag_views(reply.tags@) == reply_tags(request.id, request.author)
}

/// The history after event `ev` was handled: only a note changes it.
pub open spec fn next_history(s: Seq<Event>, cap: nat, ev: Event) -> Seq<Event> {
    if category_of(ev.kind) == Category::Note {
        inserted(s, cap, ev)
    } else {
        s
    }
}

/// The history after the events `evs` were handled in turn, starting from `s`.
pub open spec fn run(s: Seq<Event>, cap: nat, evs: Seq<Event>) -> Seq<Event>
    decreases evs.len(),
{
    if evs.len() == 0 {
        s
    } else {
        next_history(run(s, cap, evs.drop_last()), cap, evs.last())
    }
}

/// The event loop's state: the history it alone writes.
pub struct Dispatcher {
    history: HistoryBuffer,
}

impl View for Dispatcher {
    type V = Seq<Event>;

    closed spec fn view(&self) -> Seq<Event> {
        self.history@
    }
}

impl Dispatcher {
    /// The history's capacity.
    pub closed spec fn limit(&self) -> nat {
        self.history.limit()
    }

    pub open spec fn wf(&self) -> bool {
        well_formed(self@, self.limit())
    }

    /// A dispatcher with an empty history of the agent's capacity.
    pub fn new() -> (r: Self)
        ensures
            r.wf(),
            r@ == Seq::<Event>::empty(),
            r.limit() == crate::history::HISTORY_CAPACITY,
    {
        Dispatcher { history: HistoryBuffer::new() }
    }

    /// A dispatcher with an empty history that keeps at most `capacity` notes.
    pub fn with_capacity(capacity: usize) -> (r: Self)
        ensures
            r.wf(),
            r@ == Seq::<Event>::empty(),
            r.limit() == capacity,
    {
        Dispatcher { history: HistoryBuffer::with_capacity(capacity) }
    }

    /// The history as it stands.
    pub fn history(&self) -> (r: &HistoryBuffer)
        ensures
            r@ == self@,
            r.limit() == self.limit(),
    {
        &self.history
    }

    /// Handles one inbound event to completion.
    pub fn handle(&mut self, event: Event) -> (r: Outcome)
        requires
            old(self).wf(),
        ensures
            final(self).wf(),
            final(self).limit() == old(self).limit(),
            final(self)@ == next_history(old(self)@, old(self).limit(), event),
            (r is Stored) == (category_of(event.kind) == Category::Note),
            (r is Replied) == (category_of(event.kind) == Category::ServiceRequest),
            (r is NotImplemented) == (category_of(event.kind) == Category::DirectMessage),
            (r is Dropped) == (category_of(event.kind) == Category::Other),
            r is Replied ==> answers(r->Replied_0, old(self)@, event),
    {
        match classify(&event) {
            Category::Note => {
                self.history.insert(event);
                Outcome::Stored
            },
            Category::ServiceRequest => Outcome::Replied(respond(&self.history, &event)),
            Category::DirectMessage => Outcome::NotImplemented,
            Category::Other => Outcome::Dropped,
        }
    }
}

/// Two service requests handled back to back, with no note between them,
/// leave the history as it was and are answered with the same payload.
pub proof fn law_back_to_back_requests(s: Seq<Event>, cap: nat, first: Event, second: Event)
    requires
        category_of(first.kind) == Category::ServiceRequest,
        category_of(second.kind) == Category::ServiceRequest,
    ensures
        next_history(s, cap, first) == s,
        next_history(next_history(s, cap, first), cap, second) == s,
        payload_text(ids_of(next_history(s, cap, first))) == payload_text(ids_of(s)),
        forall|a: Reply, b: Reply|
            answers(a, s, first) && answers(b, next_history(s, cap, first), second) ==> {
                &&& a.content@ == b.content@
                &&& a.members@ == b.members@
            },
{
}

/// An event of no known category leaves the history as it was.
pub proof fn law_unknown_leaves_history(s: Seq<Event>, cap: nat, ev: Event)
    requires
        category_of(ev.kind) == Category::Other,
    ensures
        next_history(s, cap, ev) == s,
{
}

/// Dropping an event of no known category from a stream does not change
/// what the events after it do: the history ends the same either way.
pub proof fn law_unknown_event_transparent(
    s: Seq<Event>,
    cap: nat,
    before: Seq<Event>,
    ev: Event,
    after: Seq<Event>,
)
    requires
        category_of(ev.kind) == Category::Other,
    ensures
        run(s, cap, before.push(ev) + after) == run(s, cap, before + after),
    decreases after.len(),
{
    if after.len() == 0 {
        assert(before.push(ev) + after =~= before.push(ev));
        assert(before + after =~= before);
        assert(before.push(ev).drop_last() =~= before);
    } else {
        law_unknown_event_transparent(s, cap, before, ev, after.drop_last());
        assert((before.push(ev) + after).drop_last() =~= before.push(ev) + after.drop_last());
        assert((before + after).drop_last() =~= before + after.drop_last());
    }
}

} // verus!
