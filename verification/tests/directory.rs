use signal_room::directory::{
    DeliveryStatus, Directory, GatewayResponse, HttpMethod, JoinOutcome,
};
use signal_room::protocol::{ClientMessage, Envelope, PeerMessage};

fn s(t: &str) -> String {
    t.to_string()
}

fn you(u: &str) -> Envelope {
    Envelope { to: s(u), message: ClientMessage::You { url: s(u) } }
}

fn add(to: &str, u: &str) -> Envelope {
    Envelope { to: s(to), message: ClientMessage::Add { url: s(u) } }
}

fn remove(to: &str, u: &str) -> Envelope {
    Envelope { to: s(to), message: ClientMessage::Remove { url: s(u) } }
}

#[test]
fn first_join_sends_you_and_no_add() {
    let mut d = Directory::new();
    let x = s("https://x/cb");
    assert_eq!(d.join(&x, &s("room1")), JoinOutcome::Joined);
    assert_eq!(d.member_list(&s("room1")), vec![x.clone()]);
    assert_eq!(d.room_lookup(&x), Some(s("room1")));
    assert_eq!(d.next_outgoing(), Some(you("https://x/cb")));
    assert_eq!(d.next_outgoing(), None);
}

#[test]
fn second_join_broadcasts_add_to_first() {
    let mut d = Directory::new();
    let x = s("https://x/cb");
    let y = s("https://y/cb");
    d.join(&x, &s("room1"));
    assert_eq!(d.next_outgoing(), Some(you("https://x/cb")));
    assert_eq!(d.join(&y, &s("room1")), JoinOutcome::Joined);
    assert_eq!(d.member_list(&s("room1")), vec![x.clone(), y.clone()]);
    assert_eq!(d.next_outgoing(), Some(you("https://y/cb")));
    assert_eq!(d.next_outgoing(), Some(add("https://x/cb", "https://y/cb")));
    assert_eq!(d.next_outgoing(), None);
}

#[test]
fn empty_room_name_is_a_no_op() {
    let mut d = Directory::new();
    let x = s("https://x/cb");
    assert_eq!(d.join(&x, &s("")), JoinOutcome::EmptyRoom);
    assert_eq!(d.room_lookup(&x), None);
    assert_eq!(d.next_outgoing(), None);
}

#[test]
fn rejoining_before_leave_sends_no_second_you() {
    let mut d = Directory::new();
    let x = s("https://x/cb");
    d.join(&x, &s("room1"));
    assert_eq!(d.next_outgoing(), Some(you("https://x/cb")));
    assert_eq!(d.join(&x, &s("room1")), JoinOutcome::AlreadyJoined);
    assert_eq!(d.join(&x, &s("room2")), JoinOutcome::AlreadyJoined);
    assert_eq!(d.next_outgoing(), None);
    assert_eq!(d.member_list(&s("room1")), vec![x.clone()]);
    assert_eq!(d.member_list(&s("room2")), Vec::<String>::new());
}

#[test]
fn leave_broadcasts_remove_to_remaining() {
    let mut d = Directory::new();
    let x = s("https://x/cb");
    let y = s("https://y/cb");
    d.join(&x, &s("room1"));
    d.join(&y, &s("room1"));
    while d.next_outgoing().is_some() {}
    assert_eq!(d.leave(&x), Some(s("room1")));
    assert_eq!(d.member_list(&s("room1")), vec![y.clone()]);
    assert_eq!(d.room_lookup(&x), None);
    assert_eq!(d.next_outgoing(), Some(remove("https://y/cb", "https://x/cb")));
    assert_eq!(d.next_outgoing(), None);
}

#[test]
fn leave_without_room_emits_nothing() {
    let mut d = Directory::new();
    let x = s("https://x/cb");
    assert_eq!(d.leave(&x), None);
    assert_eq!(d.next_outgoing(), None);
}

#[test]
fn last_leave_deletes_the_room() {
    let mut d = Directory::new();
    let x = s("https://x/cb");
    d.join(&x, &s("room1"));
    while d.next_outgoing().is_some() {}
    assert_eq!(d.leave(&x), Some(s("room1")));
    assert_eq!(d.member_list(&s("room1")), Vec::<String>::new());
    assert_eq!(d.next_outgoing(), None);
}

#[test]
fn not_found_delivery_evicts_the_peer() {
    let mut d = Directory::new();
    let p = s("https://p/cb");
    let q = s("https://q/cb");
    d.join(&p, &s("r"));
    d.join(&q, &s("r"));
    while d.next_outgoing().is_some() {}
    assert_eq!(d.report_delivery(&p, DeliveryStatus::NotFound), Some(s("r")));
    assert_eq!(d.member_list(&s("r")), vec![q.clone()]);
    assert_eq!(d.next_outgoing(), Some(remove("https://q/cb", "https://p/cb")));
    assert_eq!(d.next_outgoing(), None);
}

#[test]
fn other_delivery_failures_change_nothing() {
    let mut d = Directory::new();
    let p = s("https://p/cb");
    d.join(&p, &s("r"));
    while d.next_outgoing().is_some() {}
    assert_eq!(d.report_delivery(&p, DeliveryStatus::Delivered), None);
    assert_eq!(d.report_delivery(&p, DeliveryStatus::ChannelError), None);
    assert_eq!(d.member_list(&s("r")), vec![p.clone()]);
    assert_eq!(d.next_outgoing(), None);
}

#[test]
fn eviction_during_fan_out_is_isolated() {
    let mut d = Directory::new();
    let a = s("https://a/cb");
    let b = s("https://b/cb");
    let c = s("https://c/cb");
    let newcomer = s("https://d/cb");
    d.join(&a, &s("r"));
    d.join(&b, &s("r"));
    d.join(&c, &s("r"));
    while d.next_outgoing().is_some() {}
    d.join(&newcomer, &s("r"));
    assert_eq!(d.next_outgoing(), Some(you("https://d/cb")));
    // a's copy of the Add goes out first and arrives
    assert_eq!(d.next_outgoing(), Some(add("https://a/cb", "https://d/cb")));
    d.report_delivery(&a, DeliveryStatus::Delivered);
    // b's copy reports the peer gone: b alone is evicted
    assert_eq!(d.next_outgoing(), Some(add("https://b/cb", "https://d/cb")));
    d.report_delivery(&b, DeliveryStatus::NotFound);
    assert_eq!(d.member_list(&s("r")), vec![a.clone(), c.clone(), newcomer.clone()]);
    // c still receives its copy of the Add
    assert_eq!(d.next_outgoing(), Some(add("https://c/cb", "https://d/cb")));
    // and the eviction broadcast reaches the remaining members
    assert_eq!(d.next_outgoing(), Some(remove("https://a/cb", "https://b/cb")));
    assert_eq!(d.next_outgoing(), Some(remove("https://c/cb", "https://b/cb")));
    assert_eq!(d.next_outgoing(), Some(remove("https://d/cb", "https://b/cb")));
    assert_eq!(d.next_outgoing(), None);
}

#[test]
fn relay_forwards_the_payload_verbatim() {
    let mut d = Directory::new();
    let x = s("https://x/cb");
    let y = s("https://y/cb");
    d.relay(&x, &y, PeerMessage::Offer { sdp: s("v=0") });
    assert_eq!(
        d.next_outgoing(),
        Some(Envelope {
            to: y.clone(),
            message: ClientMessage::Peer { url: x.clone(), message: PeerMessage::Offer { sdp: s("v=0") } },
        })
    );
    // the relay path never touches membership
    assert_eq!(d.room_lookup(&x), None);
    assert_eq!(d.room_lookup(&y), None);
}

#[test]
fn gateway_routes_frame_and_disconnect() {
    let mut d = Directory::new();
    let x = s("https://x/cb");
    let r = d.handle_request(
        &HttpMethod::Post,
        &s("/frame"),
        Some(&x),
        Some(&s("{\"type\":\"room\",\"name\":\"room1\"}")),
    );
    assert_eq!(r, GatewayResponse::NoContent);
    assert_eq!(d.member_list(&s("room1")), vec![x.clone()]);
    let r = d.handle_request(&HttpMethod::Post, &s("/frame"), Some(&x), Some(&s("{\"type\":\"ping\"}")));
    assert_eq!(r, GatewayResponse::NoContent);
    let r = d.handle_request(&HttpMethod::Post, &s("/disconnect"), Some(&x), None);
    assert_eq!(r, GatewayResponse::NoContent);
    assert_eq!(d.member_list(&s("room1")), Vec::<String>::new());
}

#[test]
fn gateway_refuses_bad_requests_untouched() {
    let mut d = Directory::new();
    let x = s("https://x/cb");
    assert_eq!(
        d.handle_request(&HttpMethod::Post, &s("/frame"), Some(&x), Some(&s("not json"))),
        GatewayResponse::BadRequest
    );
    assert_eq!(
        d.handle_request(&HttpMethod::Post, &s("/frame"), None, Some(&s("{\"type\":\"ping\"}"))),
        GatewayResponse::BadRequest
    );
    assert_eq!(
        d.handle_request(&HttpMethod::Post, &s("/elsewhere"), Some(&x), None),
        GatewayResponse::BadRequest
    );
    assert_eq!(
        d.handle_request(&HttpMethod::Other, &s("/frame"), Some(&x), None),
        GatewayResponse::BadRequest
    );
    assert_eq!(d.room_lookup(&x), None);
    assert_eq!(d.next_outgoing(), None);
    assert_eq!(
        d.handle_request(&HttpMethod::Get, &s("/style.css"), None, None),
        GatewayResponse::Asset { path: s("/style.css") }
    );
}
