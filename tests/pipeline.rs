use dvm_history::dispatch::{Dispatcher, Outcome};
use dvm_history::event::{
    classify, Category, Event, KIND_CONTACT_LIST, KIND_ENCRYPTED_DIRECT_MESSAGE,
    KIND_PRIVATE_DIRECT_MESSAGE, KIND_SERVICE_ANNOUNCEMENT, KIND_SERVICE_REQUEST,
    KIND_SERVICE_RESULT, KIND_TEXT_NOTE,
};
use dvm_history::history::{event_precedes, HistoryBuffer, HISTORY_CAPACITY};
use dvm_history::ident::{id_less, same_id, to_hex};
use dvm_history::publish::{announcement, correlation_suffix, follow_list};
use dvm_history::reply::{build_reply, encode_members, respond, RefKind, Reference, Reply};

fn note(created_at: u64, id: u8) -> Event {
    Event {
        id: [id; 32],
        author: [0xAA; 32],
        kind: KIND_TEXT_NOTE,
        created_at,
        content: String::from("hello"),
    }
}

fn request(id: u8, author: u8) -> Event {
    Event {
        id: [id; 32],
        author: [author; 32],
        kind: KIND_SERVICE_REQUEST,
        created_at: 1_000,
        content: String::new(),
    }
}

fn entry(id: u8) -> String {
    format!("[\"e\", \"{}\"]", format!("{:02x}", id).repeat(32))
}

fn tag_pairs(reply: &Reply) -> Vec<(String, String)> {
    reply.tags.iter().map(|t| (t.name.clone(), t.value.clone())).collect()
}

#[test]
fn capacity_two_keeps_the_two_newest() {
    let mut h = HistoryBuffer::with_capacity(2);
    h.insert(note(10, b'x'));
    h.insert(note(20, b'y'));
    h.insert(note(30, b'z'));
    assert_eq!(h.snapshot(), vec![[b'z'; 32], [b'y'; 32]]);
    assert!(!h.contains(&[b'x'; 32]));
}

#[test]
fn older_note_at_capacity_is_not_kept() {
    let mut h = HistoryBuffer::with_capacity(2);
    h.insert(note(20, b'y'));
    h.insert(note(30, b'z'));
    h.insert(note(10, b'x'));
    assert_eq!(h.snapshot(), vec![[b'z'; 32], [b'y'; 32]]);
}

#[test]
fn repeated_note_is_stored_once() {
    let mut h = HistoryBuffer::new();
    h.insert(note(10, 1));
    h.insert(note(10, 1));
    h.insert(note(20, 2));
    h.insert(note(10, 1));
    assert_eq!(h.len(), 2);
    assert_eq!(h.snapshot(), vec![[2; 32], [1; 32]]);
}

#[test]
fn same_identifier_with_other_time_is_a_duplicate() {
    let mut h = HistoryBuffer::new();
    h.insert(note(10, 1));
    h.insert(note(99, 1));
    assert_eq!(h.snapshot(), vec![[1; 32]]);
}

#[test]
fn inserting_twice_equals_inserting_once() {
    let mut once = HistoryBuffer::with_capacity(3);
    let mut twice = HistoryBuffer::with_capacity(3);
    for (t, id) in [(5u64, 9u8), (7, 3), (6, 4)] {
        once.insert(note(t, id));
        twice.insert(note(t, id));
    }
    once.insert(note(8, 1));
    twice.insert(note(8, 1));
    twice.insert(note(8, 1));
    assert_eq!(once.snapshot(), twice.snapshot());
    assert_eq!(once.snapshot(), vec![[1; 32], [3; 32], [4; 32]]);
}

#[test]
fn size_never_exceeds_capacity() {
    let mut h = HistoryBuffer::with_capacity(3);
    for i in 0..10u8 {
        h.insert(note(i as u64, i));
        assert!(h.len() <= 3);
    }
    assert_eq!(h.len(), 3);
    assert_eq!(h.snapshot(), vec![[9; 32], [8; 32], [7; 32]]);
}

#[test]
fn full_buffer_evicts_exactly_one() {
    let mut h = HistoryBuffer::with_capacity(3);
    h.insert(note(10, 1));
    h.insert(note(30, 3));
    h.insert(note(20, 2));
    h.insert(note(25, 4));
    assert_eq!(h.snapshot(), vec![[3; 32], [4; 32], [2; 32]]);
}

#[test]
fn default_capacity_is_two_hundred() {
    let mut h = HistoryBuffer::new();
    assert_eq!(h.capacity(), HISTORY_CAPACITY);
    assert_eq!(HISTORY_CAPACITY, 200);
    for i in 0..250u32 {
        let mut e = note(i as u64, 0);
        e.id[0] = (i / 256) as u8;
        e.id[1] = (i % 256) as u8;
        h.insert(e);
    }
    assert_eq!(h.len(), 200);
    let snap = h.snapshot();
    assert_eq!(snap[0][1], 249);
    assert_eq!(snap[199][1], 50);
}

#[test]
fn zero_capacity_keeps_nothing() {
    let mut h = HistoryBuffer::with_capacity(0);
    h.insert(note(1, 1));
    assert_eq!(h.len(), 0);
}

#[test]
fn equal_times_order_by_ascending_identifier() {
    let mut h = HistoryBuffer::new();
    h.insert(note(50, 7));
    h.insert(note(50, 2));
    h.insert(note(60, 9));
    h.insert(note(50, 5));
    assert_eq!(h.snapshot(), vec![[9; 32], [2; 32], [5; 32], [7; 32]]);
}

#[test]
fn identifier_order_is_lexicographic() {
    let mut a = [0u8; 32];
    let mut b = [0u8; 32];
    a[3] = 1;
    b[3] = 1;
    b[31] = 1;
    assert!(id_less(&a, &b));
    assert!(!id_less(&b, &a));
    assert!(!id_less(&a, &a));
    assert!(same_id(&a, &a));
    assert!(!same_id(&a, &b));
    let mut c = [0u8; 32];
    c[0] = 1;
    assert!(id_less(&b, &c));
    assert!(event_precedes(&note(5, 9), &note(4, 1)));
    assert!(event_precedes(&note(5, 1), &note(5, 9)));
    assert!(!event_precedes(&note(5, 9), &note(5, 1)));
}

#[test]
fn hex_is_lower_case_two_digits_per_byte() {
    let mut id = [0u8; 32];
    id[0] = 0xAB;
    id[1] = 0x05;
    id[31] = 0xF0;
    let hex = to_hex(&id);
    assert_eq!(hex.len(), 64);
    assert!(hex.starts_with("ab05"));
    assert!(hex.ends_with("f0"));
}

#[test]
fn classification_by_kind() {
    assert_eq!(classify(&note(1, 1)), Category::Note);
    assert_eq!(classify(&request(1, 2)), Category::ServiceRequest);
    let mut dm = note(1, 1);
    dm.kind = KIND_PRIVATE_DIRECT_MESSAGE;
    assert_eq!(classify(&dm), Category::DirectMessage);
    dm.kind = KIND_ENCRYPTED_DIRECT_MESSAGE;
    assert_eq!(classify(&dm), Category::DirectMessage);
    dm.kind = 7;
    assert_eq!(classify(&dm), Category::Other);
    dm.kind = KIND_SERVICE_RESULT;
    assert_eq!(classify(&dm), Category::Other);
}

#[test]
fn reply_lists_members_in_order() {
    let mut h = HistoryBuffer::new();
    h.insert(note(10, 0xc));
    h.insert(note(30, 0xa));
    h.insert(note(20, 0xb));
    let reply = respond(&h, &request(0x11, 0x22));
    assert_eq!(reply.kind, KIND_SERVICE_RESULT);
    assert_eq!(reply.members, vec![[0xa; 32], [0xb; 32], [0xc; 32]]);
    assert_eq!(
        reply.content,
        format!("[{},{},{}]", entry(0xa), entry(0xb), entry(0xc))
    );
    assert_eq!(reply.request_id, [0x11; 32]);
    assert_eq!(reply.requester, [0x22; 32]);
    assert_eq!(
        tag_pairs(&reply),
        vec![
            ("e".to_string(), "11".repeat(32)),
            ("p".to_string(), "22".repeat(32)),
            ("status".to_string(), "success".to_string()),
            ("alt".to_string(), "MN DVM Result".to_string()),
        ]
    );
}

#[test]
fn reply_to_empty_history_is_empty_list() {
    let reply = build_reply(&request(1, 2), Vec::new());
    assert_eq!(reply.content, "[]");
    assert_eq!(encode_members(&vec![[0x0f; 32]]), format!("[{}]", entry(0x0f)));
}

#[test]
fn references_render_as_tags() {
    let r = Reference { kind: RefKind::Event, target: [0x01; 32] };
    let t = r.to_tag();
    assert_eq!(t.name, "e");
    assert_eq!(t.value, "01".repeat(32));
    let r = Reference { kind: RefKind::Pubkey, target: [0xfe; 32] };
    let t = r.to_tag();
    assert_eq!(t.name, "p");
    assert_eq!(t.value, "fe".repeat(32));
}

#[test]
fn dispatcher_routes_each_category() {
    let mut d = Dispatcher::with_capacity(5);
    assert!(matches!(d.handle(note(10, 1)), Outcome::Stored));
    match d.handle(request(9, 8)) {
        Outcome::Replied(r) => {
            assert_eq!(r.members, vec![[1; 32]]);
            assert_eq!(r.request_id, [9; 32]);
        }
        _ => panic!("a service request is answered"),
    }
    let mut dm = note(11, 2);
    dm.kind = KIND_PRIVATE_DIRECT_MESSAGE;
    assert!(matches!(d.handle(dm), Outcome::NotImplemented));
    assert_eq!(d.history().snapshot(), vec![[1; 32]]);
}

#[test]
fn back_to_back_requests_get_identical_payloads() {
    let mut d = Dispatcher::new();
    d.handle(note(10, 1));
    d.handle(note(20, 2));
    let first = match d.handle(request(5, 6)) {
        Outcome::Replied(r) => r,
        _ => panic!("a service request is answered"),
    };
    let second = match d.handle(request(7, 8)) {
        Outcome::Replied(r) => r,
        _ => panic!("a service request is answered"),
    };
    assert_eq!(first.content, second.content);
    assert_eq!(first.members, second.members);
    assert_eq!(first.members, vec![[2; 32], [1; 32]]);
    assert_eq!(second.request_id, [7; 32]);
}

#[test]
fn unknown_kind_is_dropped_and_processing_goes_on() {
    let mut d = Dispatcher::new();
    d.handle(note(10, 1));
    let mut odd = note(50, 3);
    odd.kind = 30023;
    assert!(matches!(d.handle(odd), Outcome::Dropped));
    assert_eq!(d.history().snapshot(), vec![[1; 32]]);
    assert!(matches!(d.handle(note(20, 2)), Outcome::Stored));
    assert_eq!(d.history().snapshot(), vec![[2; 32], [1; 32]]);
}

#[test]
fn announcement_content_and_tags() {
    let a = announcement("Bot \"one\"", "line\nback\\slash\u{1}", "abc123");
    assert_eq!(a.kind, KIND_SERVICE_ANNOUNCEMENT);
    assert_eq!(
        a.content,
        "{\"about\":\"line\\nback\\\\slash\\u0001\",\"encryptionSupported\":false,\"name\":\"Bot \\\"one\\\"\"}"
    );
    assert_eq!(a.tags.len(), 2);
    assert_eq!((a.tags[0].name.as_str(), a.tags[0].value.as_str()), ("k", "5300"));
    assert_eq!((a.tags[1].name.as_str(), a.tags[1].value.as_str()), ("d", "abc123"));
}

#[test]
fn follow_list_references_each_key() {
    let f = follow_list(&vec![[0x01; 32], [0x02; 32]]);
    assert_eq!(f.kind, KIND_CONTACT_LIST);
    assert_eq!(f.content, "");
    assert_eq!(f.tags.len(), 2);
    assert_eq!(f.tags[0].name, "p");
    assert_eq!(f.tags[0].value, "01".repeat(32));
    assert_eq!(f.tags[1].value, "02".repeat(32));
}

#[test]
fn correlation_suffix_strips_prefix_and_cuts() {
    let s = correlation_suffix("npub1qqqsyqcyq5rqwzqfpg9scrgwpugpzysnzs23v9ccrydpk8qarc0jqxyzabc");
    assert_eq!(s, "1qqqsyqcyq5rqwzqfpg9");
    assert_eq!(correlation_suffix("npub1abc"), "1abc");
    assert_eq!(correlation_suffix("xnpubynpub"), "xy");
    assert_eq!(correlation_suffix(""), "");
}
