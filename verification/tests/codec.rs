use signal_room::assets::{asset_choice, content_type};
use signal_room::codec::{decode_client, decode_server, encode_client, encode_peer, encode_server};
use signal_room::protocol::{ClientMessage, PeerMessage, ServerMessage};

fn s(t: &str) -> String {
    t.to_string()
}

#[test]
fn client_messages_encode_to_the_wire_shapes() {
    assert_eq!(
        encode_client(&ClientMessage::You { url: s("https://x/cb") }),
        "{\"type\":\"you\",\"url\":\"https://x/cb\"}"
    );
    assert_eq!(
        encode_client(&ClientMessage::Add { url: s("https://y/cb") }),
        "{\"type\":\"add\",\"url\":\"https://y/cb\"}"
    );
    assert_eq!(
        encode_client(&ClientMessage::Remove { url: s("https://y/cb") }),
        "{\"type\":\"remove\",\"url\":\"https://y/cb\"}"
    );
    assert_eq!(
        encode_client(
            &ClientMessage::Peer {
                url: s("https://x/cb"),
                message: PeerMessage::Offer { sdp: s("v=0") },
            }
        ),
        "{\"type\":\"peer\",\"url\":\"https://x/cb\",\"message\":{\"type\":\"offer\",\"sdp\":\"v=0\"}}"
    );
}

#[test]
fn negotiation_messages_encode_to_the_wire_shapes() {
    assert_eq!(
        encode_peer(&PeerMessage::Answer { sdp: s("v=0") }),
        "{\"type\":\"answer\",\"sdp\":\"v=0\"}"
    );
    assert_eq!(
        encode_peer(
            &PeerMessage::Candidate {
                candidate: s("candidate:1"),
                sdp_mid: Some(s("0")),
                sdp_m_line_index: Some(5),
            }
        ),
        "{\"type\":\"candidate\",\"candidate\":\"candidate:1\",\"sdp_mid\":\"0\",\"sdp_m_line_index\":5}"
    );
    assert_eq!(
        encode_peer(
            &PeerMessage::Candidate {
                candidate: s("c"),
                sdp_mid: None,
                sdp_m_line_index: None,
            }
        ),
        "{\"type\":\"candidate\",\"candidate\":\"c\",\"sdp_mid\":null,\"sdp_m_line_index\":null}"
    );
    assert_eq!(
        encode_peer(&PeerMessage::Chat { message: s("hello") }),
        "{\"type\":\"chat\",\"message\":\"hello\"}"
    );
}

#[test]
fn server_messages_encode_to_the_wire_shapes() {
    assert_eq!(
        encode_server(&ServerMessage::Room { name: s("room1") }),
        "{\"type\":\"room\",\"name\":\"room1\"}"
    );
    assert_eq!(encode_server(&ServerMessage::Ping), "{\"type\":\"ping\"}");
}

#[test]
fn strings_are_escaped_as_json_demands() {
    let m = ClientMessage::You { url: s("a\"b\\c\nd\re\tf") };
    let text = encode_client(&m);
    assert_eq!(text, "{\"type\":\"you\",\"url\":\"a\\\"b\\\\c\\nd\\re\\tf\"}");
    assert_eq!(decode_client(&text), Some(m));
    let m = PeerMessage::Chat { message: s("\u{1}x") };
    assert_eq!(encode_peer(&m), "{\"type\":\"chat\",\"message\":\"\\u0001x\"}");
}

#[test]
fn decoding_undoes_encoding() {
    let messages = vec![
        ClientMessage::You { url: s("https://x/cb") },
        ClientMessage::Add { url: s("https://y/cb") },
        ClientMessage::Remove { url: s("") },
        ClientMessage::Peer {
            url: s("https://x/cb"),
            message: PeerMessage::Candidate {
                candidate: s("candidate:1 2 udp"),
                sdp_mid: Some(s("mid\"0\"")),
                sdp_m_line_index: Some(65535),
            },
        },
        ClientMessage::Peer {
            url: s("https://x/cb"),
            message: PeerMessage::Answer { sdp: s("v=0\r\no=x") },
        },
        ClientMessage::Peer {
            url: s("https://x/cb"),
            message: PeerMessage::Chat { message: s("hi there") },
        },
    ];
    for m in messages {
        assert_eq!(decode_client(&encode_client(&m)), Some(m));
    }
    let m = ServerMessage::Room { name: s("https://host/room/abc") };
    assert_eq!(decode_server(&encode_server(&m)), Some(m));
    assert_eq!(decode_server("{\"type\":\"ping\"}"), Some(ServerMessage::Ping));
}

#[test]
fn unicode_escapes_decode_by_code() {
    assert_eq!(
        decode_client("{\"type\":\"you\",\"url\":\"\\u0041\\u000a\"}"),
        Some(ClientMessage::You { url: s("A\n") })
    );
}

#[test]
fn alternate_escape_spellings_decode() {
    // the \b and \f short escapes, as other writers of this format spell
    // backspace and form feed
    assert_eq!(
        decode_client("{\"type\":\"you\",\"url\":\"a\\bb\\fc\"}"),
        Some(ClientMessage::You { url: s("a\u{8}b\u{c}c") })
    );
    // uppercase hexadecimal digits in the \u00.. form
    assert_eq!(
        decode_client("{\"type\":\"you\",\"url\":\"\\u001F\\u00Ff\"}"),
        Some(ClientMessage::You { url: s("\u{1f}\u{ff}") })
    );
    // this library still emits the canonical lowercase \u00.. form
    assert_eq!(
        encode_client(&ClientMessage::You { url: s("\u{8}\u{c}") }),
        "{\"type\":\"you\",\"url\":\"\\u0008\\u000c\"}"
    );
}

#[test]
fn malformed_texts_are_refused() {
    assert_eq!(decode_client(""), None);
    assert_eq!(decode_client("not json"), None);
    assert_eq!(decode_client("{\"type\":\"you\"}"), None);
    assert_eq!(decode_client("{\"type\":\"you\",\"url\":\"x\"} "), None);
    assert_eq!(decode_client("{\"type\":\"you\",\"url\":\"x"), None);
    assert_eq!(decode_client("{\"type\":\"you\",\"url\":\"\\q\"}"), None);
    assert_eq!(
        decode_client(
            "{\"type\":\"peer\",\"url\":\"x\",\"message\":{\"type\":\"candidate\",\"candidate\":\"c\",\"sdp_mid\":null,\"sdp_m_line_index\":70000}}"
        ),
        None
    );
    assert_eq!(decode_server("{\"type\":\"room\"}"), None);
    assert_eq!(decode_server("{\"type\":\"ping\"} "), None);
}

#[test]
fn asset_types_follow_the_extension() {
    assert_eq!(content_type("index.html"), "text/html;charset=UTF-8");
    assert_eq!(content_type("a/b/style.css"), "text/css;charset=UTF-8");
    assert_eq!(content_type("app.js"), "text/javascript;charset=UTF-8");
    assert_eq!(content_type("mod.wasm"), "application/wasm");
    assert_eq!(content_type("archive.tar.gz"), "application/octet-stream");
    assert_eq!(content_type("noextension"), "application/octet-stream");
    assert_eq!(content_type("trailing."), "application/octet-stream");
    assert_eq!(content_type(""), "application/octet-stream");
}

#[test]
fn unreadable_assets_fall_back_to_the_index() {
    let (serve, mt) = asset_choice(true, &s("app.js"));
    assert_eq!(serve, "app.js");
    assert_eq!(mt, "text/javascript;charset=UTF-8");
    let (serve, mt) = asset_choice(false, &s("missing.png"));
    assert_eq!(serve, "index.html");
    assert_eq!(mt, "text/html;charset=UTF-8");
}
