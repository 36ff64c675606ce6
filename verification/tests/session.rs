use signal_room::peer::{stun_servers, LinkPhase, PeerLink};
use signal_room::protocol::{ClientMessage, PeerMessage};
use signal_room::session::{
    websocket_url, AddOutcome, ChatSource, RelayOutcome, Session, SessionError,
};

fn s(t: &str) -> String {
    t.to_string()
}

#[test]
fn offer_then_answer_connects() {
    let mut l = PeerLink::new_link();
    assert_eq!(l.current_phase(), LinkPhase::New);
    let offer = l.start_offer(&s("sdp-o"));
    assert_eq!(offer, Some(PeerMessage::Offer { sdp: s("sdp-o") }));
    assert_eq!(l.current_phase(), LinkPhase::OfferSent);
    assert!(l.accept_answer());
    assert_eq!(l.current_phase(), LinkPhase::Connected);
}

#[test]
fn answer_without_an_offer_is_dropped() {
    let mut l = PeerLink::new_link();
    assert!(!l.accept_answer());
    assert_eq!(l.current_phase(), LinkPhase::New);
    let answer = l.accept_offer(&s("sdp-a"));
    assert_eq!(answer, Some(PeerMessage::Answer { sdp: s("sdp-a") }));
    assert_eq!(l.current_phase(), LinkPhase::AnswerSent);
    // an answer while not in OfferSent is still dropped
    assert!(!l.accept_answer());
    assert_eq!(l.current_phase(), LinkPhase::AnswerSent);
}

#[test]
fn candidates_apply_until_closed() {
    let mut l = PeerLink::new_link();
    assert!(l.accepts_candidate());
    l.start_offer(&s("o"));
    assert!(l.accepts_candidate());
    assert!(l.close());
    assert!(!l.accepts_candidate());
    // closing is idempotent: the handle is released exactly once
    assert!(!l.close());
    assert_eq!(l.current_phase(), LinkPhase::Closed);
}

#[test]
fn negotiation_between_two_sessions() {
    let x = s("https://x/cb");
    let y = s("https://y/cb");
    let mut sx = Session::new_session();
    let mut sy = Session::new_session();
    sx.on_you(&x).unwrap();
    sy.on_you(&y).unwrap();

    // x, already in the room, sees Add{y}: it offers
    let env = match sx.on_add(&y, &s("offer-sdp")) {
        AddOutcome::Offer(env) => env,
        other => panic!("expected an offer, got {:?}", other),
    };
    assert_eq!(env.to, y);
    assert_eq!(
        env.message,
        ClientMessage::Peer { url: x.clone(), message: PeerMessage::Offer { sdp: s("offer-sdp") } }
    );
    assert_eq!(sx.link_phase(&y), Some(LinkPhase::OfferSent));

    // y receives the relayed offer from an unknown url: entry made lazily
    let reply = match sy.on_peer_offer(&x, &s("answer-sdp")) {
        RelayOutcome::Reply(env) => env,
        other => panic!("expected a reply, got {:?}", other),
    };
    assert_eq!(reply.to, x);
    assert_eq!(
        reply.message,
        ClientMessage::Peer { url: y.clone(), message: PeerMessage::Answer { sdp: s("answer-sdp") } }
    );
    assert_eq!(sy.link_phase(&x), Some(LinkPhase::AnswerSent));

    // x receives the relayed answer and connects
    assert!(sx.on_peer_answer(&y));
    assert_eq!(sx.link_phase(&y), Some(LinkPhase::Connected));

    // candidates trickle both ways
    assert!(sx.on_peer_candidate(&y));
    assert!(sy.on_peer_candidate(&x));

    // Remove tears the machine down
    assert!(sy.on_remove(&x));
    assert_eq!(sy.link_phase(&x), None);
    assert!(!sy.on_remove(&x));
}

#[test]
fn identity_is_set_exactly_once() {
    let mut se = Session::new_session();
    assert_eq!(se.identity(), None);
    se.on_you(&s("https://me/cb")).unwrap();
    assert_eq!(se.identity(), Some(s("https://me/cb")));
    assert_eq!(se.on_you(&s("https://me2/cb")), Err(SessionError::RedundantYou));
    assert_eq!(se.identity(), Some(s("https://me/cb")));
}

#[test]
fn relay_before_identity_is_refused() {
    let mut se = Session::new_session();
    match se.on_add(&s("https://p/cb"), &s("o")) {
        AddOutcome::MissingIdentity => {},
        other => panic!("expected a missing identity, got {:?}", other),
    }
    // the entry still exists, pending
    assert_eq!(se.link_phase(&s("https://p/cb")), Some(LinkPhase::OfferSent));
    assert_eq!(
        se.candidate_envelope(&s("https://p/cb"), &s("cand"), &None, None),
        Err(SessionError::MissingYou)
    );
}

#[test]
fn duplicate_add_is_dropped() {
    let mut se = Session::new_session();
    se.on_you(&s("https://me/cb")).unwrap();
    match se.on_add(&s("https://p/cb"), &s("o1")) {
        AddOutcome::Offer(_) => {},
        other => panic!("expected an offer, got {:?}", other),
    }
    assert_eq!(se.on_add(&s("https://p/cb"), &s("o2")), AddOutcome::AlreadyKnown);
    assert_eq!(se.peer_count(), 1);
}

#[test]
fn offer_out_of_turn_is_dropped() {
    let mut se = Session::new_session();
    se.on_you(&s("https://me/cb")).unwrap();
    se.on_add(&s("https://p/cb"), &s("o"));
    assert_eq!(se.on_peer_offer(&s("https://p/cb"), &s("a")), RelayOutcome::Dropped);
    assert_eq!(se.link_phase(&s("https://p/cb")), Some(LinkPhase::OfferSent));
}

#[test]
fn answer_from_unknown_peer_is_dropped_but_tracked() {
    let mut se = Session::new_session();
    se.on_you(&s("https://me/cb")).unwrap();
    assert!(!se.on_peer_answer(&s("https://p/cb")));
    assert_eq!(se.link_phase(&s("https://p/cb")), Some(LinkPhase::New));
}

#[test]
fn candidate_envelope_carries_the_fields() {
    let mut se = Session::new_session();
    se.on_you(&s("https://me/cb")).unwrap();
    let env = se
        .candidate_envelope(&s("https://p/cb"), &s("cand-line"), &Some(s("0")), Some(3))
        .unwrap();
    assert_eq!(env.to, s("https://p/cb"));
    assert_eq!(
        env.message,
        ClientMessage::Peer {
            url: s("https://me/cb"),
            message: PeerMessage::Candidate {
                candidate: s("cand-line"),
                sdp_mid: Some(s("0")),
                sdp_m_line_index: Some(3),
            },
        }
    );
}

#[test]
fn chat_fans_out_and_is_logged() {
    let mut se = Session::new_session();
    se.on_you(&s("https://me/cb")).unwrap();
    se.on_add(&s("https://p/cb"), &s("o"));
    se.on_add(&s("https://q/cb"), &s("o"));
    let envs = se.send_chat(&s("hello")).unwrap();
    assert_eq!(envs.len(), 2);
    assert_eq!(envs[0].to, s("https://p/cb"));
    assert_eq!(envs[1].to, s("https://q/cb"));
    assert_eq!(
        envs[0].message,
        ClientMessage::Peer { url: s("https://me/cb"), message: PeerMessage::Chat { message: s("hello") } }
    );
    se.on_peer_chat(&s("https://p/cb"), &s("hi back"));
    let records = se.chat().records();
    assert_eq!(records.len(), 2);
    assert_eq!(records[0].0, 0);
    assert_eq!(records[0].1.source, ChatSource::Me);
    assert_eq!(records[0].1.message, s("hello"));
    assert_eq!(records[1].0, 1);
    assert_eq!(records[1].1.source, ChatSource::SomeoneElse);
    assert_eq!(records[1].1.message, s("hi back"));
}

#[test]
fn blank_chat_is_ignored_whole() {
    let mut se = Session::new_session();
    se.on_you(&s("https://me/cb")).unwrap();
    let envs = se.send_chat(&s(" \t\r\n ")).unwrap();
    assert!(envs.is_empty());
    assert_eq!(se.chat().records().len(), 0);
}

#[test]
fn blank_check_matches_trim() {
    // vertical tab, form feed, next line, no-break space, em space: all
    // whitespace that trimming drops
    let line = "\u{b}\u{c}\u{85}\u{a0}\u{2003}";
    assert_eq!(line.trim(), "");
    let mut se = Session::new_session();
    se.on_you(&s("https://me/cb")).unwrap();
    se.on_add(&s("https://p/cb"), &s("o"));
    let envs = se.send_chat(&s(line)).unwrap();
    assert!(envs.is_empty());
    assert_eq!(se.chat().records().len(), 0);
    // a single visible character among the whitespace is enough to send
    let envs = se.send_chat(&s("\u{b} a \u{c}")).unwrap();
    assert_eq!(envs.len(), 1);
    assert_eq!(se.chat().records().len(), 1);
}

#[test]
fn chat_without_identity_is_logged_but_not_sent() {
    let mut se = Session::new_session();
    se.on_peer_chat(&s("https://p/cb"), &s("early"));
    assert_eq!(se.send_chat(&s("mine")), Err(SessionError::MissingYou));
    let records = se.chat().records();
    assert_eq!(records.len(), 2);
    assert_eq!(records[1].1.source, ChatSource::Me);
}

#[test]
fn websocket_url_names_both_callbacks() {
    assert_eq!(
        websocket_url("bridge.example", "app.example", "8443"),
        "wss://bridge.example/connect?f=https://app.example:8443/frame&d=https://app.example:8443/disconnect"
    );
    assert_eq!(
        websocket_url("bridge.example", "app.example", ""),
        "wss://bridge.example/connect?f=https://app.example/frame&d=https://app.example/disconnect"
    );
}

#[test]
fn remote_track_is_noted_once() {
    let mut se = Session::new_session();
    se.on_you(&s("https://me/cb")).unwrap();
    se.on_add(&s("https://p/cb"), &s("o"));
    assert!(se.on_remote_track(&s("https://p/cb")));
    assert!(!se.on_remote_track(&s("https://p/cb")));
    assert!(!se.on_remote_track(&s("https://unknown/cb")));
}

#[test]
fn peer_summaries_list_ids_and_media() {
    let mut se = Session::new_session();
    se.on_you(&s("https://me/cb")).unwrap();
    se.on_add(&s("https://p/cb"), &s("o"));
    se.on_add(&s("https://q/cb"), &s("o"));
    se.on_remote_track(&s("https://q/cb"));
    assert_eq!(
        se.peer_summaries(),
        vec![(s("https://p/cb"), 0, false), (s("https://q/cb"), 1, true)]
    );
    se.on_remove(&s("https://p/cb"));
    assert_eq!(se.peer_summaries(), vec![(s("https://q/cb"), 1, true)]);
}

#[test]
fn stun_servers_are_the_two_known_ones() {
    assert_eq!(
        stun_servers(),
        vec![s("stun:stun.services.mozilla.com"), s("stun:stun.l.google.com:19302")]
    );
}
