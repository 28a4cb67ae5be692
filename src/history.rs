//! The history buffer: a bounded, deduplicated sequence of notes kept in one
//! fixed total order (newest first; equal times by ascending identifier).
//! When an insertion overfills it, the members at the end of that order go.
use vstd::prelude::*;

use crate::event::Event;
use crate::ident::{
    bytes_lt, id_less, lemma_bytes_lt_asymmetric, lemma_bytes_lt_irreflexive,
    lemma_bytes_lt_total, lemma_bytes_lt_transitive, same_id,
};

verus! {

/// The capacity the agent runs with.
pub const HISTORY_CAPACITY: usize = 200;

/// `a` sorts before `b`: the later creation time first, equal times by
/// ascending identifier.
pub open spec fn precedes(a: Event, b: Event) -> bool {
    a.created_at > b.created_at || (a.created_at == b.created_at && bytes_lt(a.id@, b.id@))
}

/// Every earlier member precedes every later one.
pub open spec fn ordered(s: Seq<Event>) -> bool {
    forall|i: int, j: int| 0 <= i < j < s.len() ==> precedes(#[trigger] s[i], #[trigger] s[j])
}

/// No two members share an identifier.
pub open spec fn distinct_ids(s: Seq<Event>) -> bool {
    forall|i: int, j: int| 0 <= i < j < s.len() ==> (#[trigger] s[i]).id@ != (#[trigger] s[j]).id@
}

/// Some member carries identifier `id`.
pub open spec fn has_id(s: Seq<Event>, id: Seq<u8>) -> bool {
    exists|i: int| 0 <= i < s.len() && (#[trigger] s[i]).id@ == id
}

/// The number of members that precede `e`: where `e` goes in the order.
pub open spec fn slot(s: Seq<Event>, e: Event) -> int
    decreases s.len(),
{
    if s.len() == 0 {
        0
    } else {
        slot(s.drop_last(), e) + if precedes(s.last(), e) {
            1int
        } else {
            0int
        }
    }
}

/// `s` with `e` put in its place in the order.
pub open spec fn placed(s: Seq<Event>, e: Event) -> Seq<Event> {
    s.insert(slot(s, e), e)
}

/// The buffer `s` of capacity `cap` after `e` is offered to it: unchanged when
/// a member already has `e`'s identifier; else `e` in its place, and the tail
/// of the order cut so that at most `cap` members stay.
pub open spec fn inserted(s: Seq<Event>, cap: nat, e: Event) -> Seq<Event> {
    if has_id(s, e.id@) {
        s
    } else if placed(s, e).len() > cap {
        placed(s, e).take(cap as int)
    } else {
        placed(s, e)
    }
}

/// The buffer of capacity `cap` after the notes `evs` were offered, in turn,
/// to an empty one.
pub open spec fn fed(cap: nat, evs: Seq<Event>) -> Seq<Event>
    decreases evs.len(),
{
    if evs.len() == 0 {
        Seq::empty()
    } else {
        inserted(fed(cap, evs.drop_last()), cap, evs.last())
    }
}

/// The members' identifiers, in order.
pub open spec fn ids_of(s: Seq<Event>) -> Seq<[u8; 32]> {
    s.map_values(|e: Event| e.id)
}

/// What the buffer must hold at every observation point.
pub open spec fn well_formed(s: Seq<Event>, cap: nat) -> bool {
    &&& s.len() <= cap
    &&& ordered(s)
    &&& distinct_ids(s)
}

pub proof fn lemma_precedes_irreflexive(a: Event)
    ensures
        !precedes(a, a),
{
    lemma_bytes_lt_irreflexive(a.id@);
}

pub proof fn lemma_precedes_asymmetric(a: Event, b: Event)
    ensures
        !(precedes(a, b) && precedes(b, a)),
{
    lemma_bytes_lt_asymmetric(a.id@, b.id@);
}

pub proof fn lemma_precedes_transitive(a: Event, b: Event, c: Event)
    requires
        precedes(a, b),
        precedes(b, c),
    ensures
        precedes(a, c),
{
    if a.created_at == b.created_at && b.created_at == c.created_at {
        lemma_bytes_lt_transitive(a.id@, b.id@, c.id@);
    }
}

/// Events with distinct identifiers are ordered one way or the other.
pub proof fn lemma_precedes_total(a: Event, b: Event)
    requires
        a.id@ != b.id@,
    ensures
        precedes(a, b) || precedes(b, a),
{
    lemma_bytes_lt_total(a.id@, b.id@);
}

pub proof fn lemma_slot_range(s: Seq<Event>, e: Event)
    ensures
        0 <= slot(s, e) <= s.len(),
    decreases s.len(),
{
    if s.len() > 0 {
        lemma_slot_range(s.drop_last(), e);
    }
}

/// In an ordered buffer without `e`'s identifier, the members before `e`'s
/// slot precede it and the others follow it.
pub proof fn lemma_slot_split(s: Seq<Event>, e: Event)
    requires
        ordered(s),
        !has_id(s, e.id@),
    ensures
        0 <= slot(s, e) <= s.len(),
        forall|i: int| 0 <= i < slot(s, e) ==> precedes(#[trigger] s[i], e),
        forall|i: int| slot(s, e) <= i < s.len() ==> precedes(e, #[trigger] s[i]),
    decreases s.len(),
{
    lemma_slot_range(s, e);
    if s.len() > 0 {
        let t = s.drop_last();
        let l = s.last();
        assert forall|i: int| 0 <= i < t.len() implies t[i] == s[i] by {}
        assert(!has_id(t, e.id@)) by {
            if has_id(t, e.id@) {
                let i = choose|i: int| 0 <= i < t.len() && (#[trigger] t[i]).id@ == e.id@;
                assert(s[i].id@ == e.id@);
            }
        }
        lemma_slot_split(t, e);
        let k = slot(t, e);
        assert(s[s.len() - 1] == l);
        lemma_precedes_total(l, e);
        if precedes(l, e) {
            if k < t.len() {
                assert(precedes(e, s[k]));
                assert(precedes(s[k], s[s.len() - 1]));
                lemma_precedes_transitive(e, s[k], l);
                lemma_precedes_asymmetric(e, l);
            }
        }
    }
}

/// Offering a note keeps a buffer well formed.
pub proof fn lemma_inserted_well_formed(s: Seq<Event>, cap: nat, e: Event)
    requires
        well_formed(s, cap),
    ensures
        well_formed(inserted(s, cap, e), cap),
{
    if !has_id(s, e.id@) {
        lemma_slot_split(s, e);
        let k = slot(s, e);
        let p = placed(s, e);
        assert(p.len() == s.len() + 1);
        assert forall|i: int| 0 <= i < p.len() implies #[trigger] p[i] == (if i < k {
            s[i]
        } else if i == k {
            e
        } else {
            s[i - 1]
        }) by {}
        assert forall|i: int, j: int| 0 <= i < j < p.len() implies precedes(
            #[trigger] p[i],
            #[trigger] p[j],
        ) && p[i].id@ != p[j].id@ by {
            if i < k && j == k {
                assert(precedes(s[i], e));
            } else if i < k && j > k {
                assert(precedes(s[i], e));
                assert(precedes(e, s[j - 1]));
                lemma_precedes_transitive(s[i], e, s[j - 1]);
            } else if i == k {
                assert(precedes(e, s[j - 1]));
            }
            if j <= k || i > k {
            } else if i == k {
                assert(s[j - 1].id@ != e.id@);
            } else {
                assert(s[i].id@ != e.id@);
            }
            lemma_precedes_irreflexive(p[i]);
            if p[i].id@ == p[j].id@ {
                if i < k && j > k {
                    assert(s[i].id@ != s[j - 1].id@);
                }
            }
        }
        let r = inserted(s, cap, e);
        assert forall|i: int| 0 <= i < r.len() implies #[trigger] r[i] == p[i] by {}
    }
}

/// Whatever notes are offered, in whatever order and with whatever repeats,
/// the buffer holds no identifier twice.
pub proof fn law_no_duplicate_ids(cap: nat, evs: Seq<Event>)
    ensures
        distinct_ids(fed(cap, evs)),
{
    law_fed_well_formed(cap, evs);
}

/// Whatever notes are offered, the buffer never holds more than its capacity.
pub proof fn law_size_bounded(cap: nat, evs: Seq<Event>)
    ensures
        fed(cap, evs).len() <= cap,
{
    law_fed_well_formed(cap, evs);
}

/// Whatever notes are offered, any two members stand in the order of
/// `precedes`: later creation time first, ties by ascending identifier.
pub proof fn law_members_ordered(cap: nat, evs: Seq<Event>)
    ensures
        forall|i: int, j: int|
            0 <= i < j < fed(cap, evs).len() ==> precedes(
                #[trigger] fed(cap, evs)[i],
                #[trigger] fed(cap, evs)[j],
            ),
{
    law_fed_well_formed(cap, evs);
}

/// After any sequence of offered notes the buffer is well formed.
pub proof fn law_fed_well_formed(cap: nat, evs: Seq<Event>)
    ensures
        well_formed(fed(cap, evs), cap),
    decreases evs.len(),
{
    if evs.len() > 0 {
        law_fed_well_formed(cap, evs.drop_last());
        lemma_inserted_well_formed(fed(cap, evs.drop_last()), cap, evs.last());
    }
}

/// Offering the same note twice leaves the buffer as offering it once does.
pub proof fn law_insert_idempotent(s: Seq<Event>, cap: nat, e: Event)
    requires
        well_formed(s, cap),
    ensures
        inserted(inserted(s, cap, e), cap, e) == inserted(s, cap, e),
{
    if !has_id(s, e.id@) {
        lemma_slot_range(s, e);
        let k = slot(s, e);
        let r = inserted(s, cap, e);
        if k < cap {
            assert(r[k] == e);
            assert(has_id(r, e.id@));
        } else {
            assert(r =~= s);
        }
    }
}

/// A full buffer offered a new note loses exactly one member: when the note
/// precedes the last member, that last member goes and the note takes its
/// place in the order; otherwise the note itself is the tail and the buffer
/// stays as it was.
pub proof fn law_full_buffer_evicts_one(s: Seq<Event>, cap: nat, e: Event)
    requires
        well_formed(s, cap),
        s.len() == cap,
        cap > 0,
        !has_id(s, e.id@),
    ensures
        inserted(s, cap, e).len() == cap,
        precedes(e, s.last()) ==> {
            &&& inserted(s, cap, e) == placed(s.drop_last(), e)
            &&& has_id(inserted(s, cap, e), e.id@)
            &&& !has_id(inserted(s, cap, e), s.last().id@)
            &&& forall|i: int|
                0 <= i < cap - 1 ==> has_id(inserted(s, cap, e), (#[trigger] s[i]).id@)
        },
        !precedes(e, s.last()) ==> inserted(s, cap, e) == s,
{
    lemma_slot_split(s, e);
    let k = slot(s, e);
    let t = s.drop_last();
    let l = s.last();
    assert(s[s.len() - 1] == l);
    let r = inserted(s, cap, e);
    if precedes(e, l) {
        lemma_precedes_asymmetric(e, l);
        assert(k < s.len());
        assert(slot(t, e) == k);
        assert(r =~= placed(t, e));
        assert(r[k] == e);
        assert forall|i: int| 0 <= i < r.len() implies #[trigger] r[i] == (if i < k {
            s[i]
        } else if i == k {
            e
        } else {
            s[i - 1]
        }) by {}
        assert(!has_id(r, l.id@)) by {
            if has_id(r, l.id@) {
                let i = choose|i: int| 0 <= i < r.len() && (#[trigger] r[i]).id@ == l.id@;
                if i < k {
                    assert(s[i].id@ != s[s.len() - 1].id@);
                } else if i > k {
                    assert(s[i - 1].id@ != s[s.len() - 1].id@);
                }
            }
        }
        assert forall|i: int| 0 <= i < cap - 1 implies has_id(r, (#[trigger] s[i]).id@) by {
            if i < k {
                assert(r[i] == s[i]);
            } else {
                assert(r[i + 1] == s[i]);
            }
        }
    } else {
        lemma_precedes_total(e, l);
        if k < s.len() {
            assert(precedes(e, s[s.len() - 1]));
        }
        assert(r =~= s);
    }
}

/// Whether `a` sorts before `b` in the buffer's order.
pub fn event_precedes(a: &Event, b: &Event) -> (r: bool)
    ensures
        r == precedes(*a, *b),
{
    if a.created_at != b.created_at {
        a.created_at > b.created_at
    } else {
        id_less(&a.id, &b.id)
    }
}

/// A bounded, deduplicated, ordered buffer of notes, owned by one writer.
pub struct HistoryBuffer {
    items: Vec<Event>,
    capacity: usize,
}

impl View for HistoryBuffer {
    type V = Seq<Event>;

    closed spec fn view(&self) -> Seq<Event> {
        self.items@
    }
}

impl HistoryBuffer {
    /// The bound on the number of members.
    pub closed spec fn limit(&self) -> nat {
        self.capacity as nat
    }

    pub open spec fn wf(&self) -> bool {
        well_formed(self@, self.limit())
    }

    /// An empty buffer with the agent's capacity.
    pub fn new() -> (r: Self)
        ensures
            r.wf(),
            r@ == Seq::<Event>::empty(),
            r.limit() == HISTORY_CAPACITY,
    {
        Self::with_capacity(HISTORY_CAPACITY)
    }

    /// An empty buffer that keeps at most `capacity` members.
    pub fn with_capacity(capacity: usize) -> (r: Self)
        ensures
            r.wf(),
            r@ == Seq::<Event>::empty(),
            r.limit() == capacity,
    {
        HistoryBuffer { items: Vec::new(), capacity }
    }

    /// The bound on the number of members.
    pub fn capacity(&self) -> (r: usize)
        ensures
            r == self.limit(),
    {
        self.capacity
    }

    /// The number of members.
    pub fn len(&self) -> (r: usize)
        ensures
            r == self@.len(),
    {
        self.items.len()
    }

    /// Whether a member carries identifier `id`.
    pub fn contains(&self, id: &[u8; 32]) -> (r: bool)
        ensures
            r == has_id(self@, id@),
    {
        let mut i: usize = 0;
        while i < self.items.len()
            invariant
                i <= self.items@.len(),
                forall|j: int| 0 <= j < i ==> (#[trigger] self.items@[j]).id@ != id@,
            decreases self.items@.len() - i,
        {
            if same_id(&self.items[i].id, id) {
                return true;
            }
            i = i + 1;
        }
        false
    }

    /// Offers a note: nothing changes when a member already has its
    /// identifier; otherwise it goes in its place in the order, and the tail
    /// of the order is cut back to the capacity.
    pub fn insert(&mut self, event: Event)
        requires
            old(self).wf(),
        ensures
            final(self).wf(),
            final(self).limit() == old(self).limit(),
            final(self)@ == inserted(old(self)@, old(self).limit(), event),
    {
        proof {
            lemma_inserted_well_formed(self@, self.limit(), event);
        }
        if self.contains(&event.id) {
            return;
        }
        let mut k: usize = 0;
        let mut i: usize = 0;
        while i < self.items.len()
            invariant
                i <= self.items@.len(),
                k == slot(self.items@.take(i as int), event),
                k <= i,
            decreases self.items@.len() - i,
        {
            assert(self.items@.take(i + 1).drop_last() =~= self.items@.take(i as int));
            if event_precedes(&self.items[i], &event) {
                k = k + 1;
            }
            i = i + 1;
        }
        assert(self.items@.take(i as int) =~= self.items@);
        self.items.insert(k, event);
        if self.items.len() > self.capacity {
            self.items.truncate(self.capacity);
        }
    }

    /// The members' identifiers in the buffer's order, as an independent copy.
    pub fn snapshot(&self) -> (r: Vec<[u8; 32]>)
        ensures
            r@ == ids_of(self@),
    {
        let mut r: Vec<[u8; 32]> = Vec::new();
        let mut i: usize = 0;
        while i < self.items.len()
            invariant
                i <= self.items@.len(),
                r@ == ids_of(self@.take(i as int)),
            decreases self.items@.len() - i,
        {
            r.push(self.items[i].id);
            assert(ids_of(self@.take(i + 1)) =~= ids_of(self@.take(i as int)).push(self@[i as int].id));
            i = i + 1;
        }
        assert(self@.take(i as int) =~= self@);
        r
    }
}

} // verus!
