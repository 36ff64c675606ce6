//! The wire codec: the JSON text of each message family, produced and read
//! by the library itself. The encoding is the canonical one — the tag field
//! first, fields in declaration order, strings escaped as JSON demands.
//! The decoder reads the canonical texts, allowing in string literals the
//! alternate spellings other writers of this wire format use — the `\b`
//! and `\f` short escapes and uppercase hexadecimal in `\u00..` — and
//! rejects everything else.

use vstd::prelude::*;

use crate::protocol::{
    ClientMessage, ClientMessageModel, PeerMessage, PeerMessageModel, ServerMessage,
    ServerMessageModel,
};
use crate::text::{chars_of, string_of};

verus! {

/// The hexadecimal digit for a value below sixteen.
pub open spec fn hex_digit(n: int) -> char {
    if n == 0 {
        '0'
    } else if n == 1 {
        '1'
    } else if n == 2 {
        '2'
    } else if n == 3 {
        '3'
    } else if n == 4 {
        '4'
    } else if n == 5 {
        '5'
    } else if n == 6 {
        '6'
    } else if n == 7 {
        '7'
    } else if n == 8 {
        '8'
    } else if n == 9 {
        '9'
    } else if n == 10 {
        'a'
    } else if n == 11 {
        'b'
    } else if n == 12 {
        'c'
    } else if n == 13 {
        'd'
    } else if n == 14 {
        'e'
    } else {
        'f'
    }
}

/// The escape of one character inside a JSON string: quote, backslash and
/// the named control characters get their short escapes, other control
/// characters the `\u00..` form, everything else stands as itself.
pub open spec fn esc_char(c: char) -> Seq<char> {
    if c == '"' {
        seq!['\\', '"']
    } else if c == '\\' {
        seq!['\\', '\\']
    } else if c == '\n' {
        seq!['\\', 'n']
    } else if c == '\r' {
        seq!['\\', 'r']
    } else if c == '\t' {
        seq!['\\', 't']
    } else if (c as u32) < 32 {
        seq!['\\', 'u', '0', '0', hex_digit((c as u32) as int / 16), hex_digit((c as u32) as int % 16)]
    } else {
        seq![c]
    }
}

/// The escaped body of a JSON string.
pub open spec fn esc_string(s: Seq<char>) -> Seq<char>
    decreases s.len(),
{
    if s.len() == 0 {
        Seq::empty()
    } else {
        esc_char(s[0]) + esc_string(s.drop_first())
    }
}

/// A JSON string literal: quotes around the escaped body.
pub open spec fn jstr(s: Seq<char>) -> Seq<char> {
    seq!['"'] + esc_string(s) + seq!['"']
}

/// The decimal digit for a value below ten.
pub open spec fn digit_char(n: int) -> char {
    if n == 0 {
        '0'
    } else if n == 1 {
        '1'
    } else if n == 2 {
        '2'
    } else if n == 3 {
        '3'
    } else if n == 4 {
        '4'
    } else if n == 5 {
        '5'
    } else if n == 6 {
        '6'
    } else if n == 7 {
        '7'
    } else if n == 8 {
        '8'
    } else {
        '9'
    }
}

/// The canonical decimal digits of a number: no sign, no leading zero.
pub open spec fn dec_digits(n: nat) -> Seq<char>
    decreases n,
{
    if n < 10 {
        seq![digit_char(n as int)]
    } else {
        dec_digits(n / 10).push(digit_char((n % 10) as int))
    }
}

/// An optional string field: `null` or a JSON string.
pub open spec fn enc_opt_str(o: Option<Seq<char>>) -> Seq<char> {
    match o {
        None => "null"@,
        Some(s) => jstr(s),
    }
}

/// An optional number field: `null` or canonical decimal digits.
pub open spec fn enc_opt_num(o: Option<u16>) -> Seq<char> {
    match o {
        None => "null"@,
        Some(n) => dec_digits(n as nat),
    }
}

/// The text of a negotiation message.
pub open spec fn enc_peer(m: PeerMessageModel) -> Seq<char> {
    match m {
        PeerMessageModel::Candidate { candidate, sdp_mid, sdp_m_line_index } => {
            "{\"type\":\"candidate\",\"candidate\":"@ + jstr(candidate) + ",\"sdp_mid\":"@
                + enc_opt_str(sdp_mid) + ",\"sdp_m_line_index\":"@ + enc_opt_num(sdp_m_line_index)
                + "}"@
        },
        PeerMessageModel::Offer { sdp } => "{\"type\":\"offer\",\"sdp\":"@ + jstr(sdp) + "}"@,
        PeerMessageModel::Answer { sdp } => "{\"type\":\"answer\",\"sdp\":"@ + jstr(sdp) + "}"@,
        PeerMessageModel::Chat { message } => "{\"type\":\"chat\",\"message\":"@ + jstr(message)
            + "}"@,
    }
}

/// The text of a directory-to-client message.
pub open spec fn enc_client(m: ClientMessageModel) -> Seq<char> {
    match m {
        ClientMessageModel::You { url } => "{\"type\":\"you\",\"url\":"@ + jstr(url) + "}"@,
        ClientMessageModel::Add { url } => "{\"type\":\"add\",\"url\":"@ + jstr(url) + "}"@,
        ClientMessageModel::Remove { url } => "{\"type\":\"remove\",\"url\":"@ + jstr(url) + "}"@,
        ClientMessageModel::Peer { url, message } => "{\"type\":\"peer\",\"url\":"@ + jstr(url)
            + ",\"message\":"@ + enc_peer(message) + "}"@,
    }
}

/// The text of a client-to-directory message.
pub open spec fn enc_server(m: ServerMessageModel) -> Seq<char> {
    match m {
        ServerMessageModel::Room { name } => "{\"type\":\"room\",\"name\":"@ + jstr(name) + "}"@,
        ServerMessageModel::Ping => "{\"type\":\"ping\"}"@,
    }
}

/// Escaping distributes over concatenation.
proof fn lemma_esc_concat(a: Seq<char>, b: Seq<char>)
    ensures
        esc_string(a + b) == esc_string(a) + esc_string(b),
    decreases a.len(),
{
    if a.len() == 0 {
        assert(a + b =~= b);
        assert(esc_string(a) + esc_string(b) =~= esc_string(b));
    } else {
        assert((a + b).len() > 0);
        assert((a + b)[0] == a[0]);
        assert((a + b).drop_first() =~= a.drop_first() + b);
        lemma_esc_concat(a.drop_first(), b);
        assert(esc_char(a[0]) + (esc_string(a.drop_first()) + esc_string(b)) =~= (esc_char(a[0])
            + esc_string(a.drop_first())) + esc_string(b));
    }
}

proof fn lemma_esc_snoc(s: Seq<char>, i: int)
    requires
        0 <= i < s.len(),
    ensures
        esc_string(s.take(i + 1)) == esc_string(s.take(i)) + esc_char(s[i]),
{
    assert(s.take(i + 1) =~= s.take(i) + seq![s[i]]);
    lemma_esc_concat(s.take(i), seq![s[i]]);
    assert(seq![s[i]].drop_first() =~= Seq::<char>::empty());
    assert(esc_string(Seq::<char>::empty()) == Seq::<char>::empty());
    assert(esc_string(seq![s[i]]) == esc_char(s[i]) + esc_string(Seq::<char>::empty()));
    assert(esc_char(s[i]) + Seq::<char>::empty() =~= esc_char(s[i]));
}

fn hex_char(n: u32) -> (c: char)
    requires
        n < 16,
    ensures
        c == hex_digit(n as int),
{
    match n {
        0 => '0',
        1 => '1',
        2 => '2',
        3 => '3',
        4 => '4',
        5 => '5',
        6 => '6',
        7 => '7',
        8 => '8',
        9 => '9',
        10 => 'a',
        11 => 'b',
        12 => 'c',
        13 => 'd',
        14 => 'e',
        _ => 'f',
    }
}

fn dec_char(n: u16) -> (c: char)
    requires
        n < 10,
    ensures
        c == digit_char(n as int),
{
    match n {
        0 => '0',
        1 => '1',
        2 => '2',
        3 => '3',
        4 => '4',
        5 => '5',
        6 => '6',
        7 => '7',
        8 => '8',
        _ => '9',
    }
}

fn push_lit(out: &mut Vec<char>, lit: &str)
    ensures
        final(out)@ == old(out)@ + lit@,
{
    let mut v = chars_of(lit);
    out.append(&mut v);
}

fn push_escaped(out: &mut Vec<char>, s: &str)
    ensures
        final(out)@ == old(out)@ + esc_string(s@),
{
    let cs = chars_of(s);
    let mut i: usize = 0;
    while i < cs.len()
        invariant
            i <= cs@.len(),
            cs@ == s@,
            out@ == old(out)@ + esc_string(s@.take(i as int)),
        decreases cs@.len() - i,
    {
        let c = cs[i];
        let ghost before = out@;
        if c == '"' {
            out.push('\\');
            out.push('"');
        } else if c == '\\' {
            out.push('\\');
            out.push('\\');
        } else if c == '\n' {
            out.push('\\');
            out.push('n');
        } else if c == '\r' {
            out.push('\\');
            out.push('r');
        } else if c == '\t' {
            out.push('\\');
            out.push('t');
        } else if (c as u32) < 32 {
            out.push('\\');
            out.push('u');
            out.push('0');
            out.push('0');
            out.push(hex_char((c as u32) / 16));
            out.push(hex_char((c as u32) % 16));
        } else {
            out.push(c);
        }
        proof {
            assert(out@ =~= before + esc_char(s@[i as int]));
            lemma_esc_snoc(s@, i as int);
            assert(out@ =~= old(out)@ + esc_string(s@.take(i as int + 1)));
        }
        i = i + 1;
    }
    proof {
        assert(s@.take(s@.len() as int) =~= s@);
    }
}

fn push_jstr(out: &mut Vec<char>, s: &str)
    ensures
        final(out)@ == old(out)@ + jstr(s@),
{
    out.push('"');
    push_escaped(out, s);
    out.push('"');
    proof {
        assert(out@ =~= old(out)@ + jstr(s@));
    }
}

fn push_u16(out: &mut Vec<char>, n: u16)
    ensures
        final(out)@ == old(out)@ + dec_digits(n as nat),
    decreases n,
{
    if n >= 10 {
        push_u16(out, n / 10);
    }
    out.push(dec_char(n % 10));
    proof {
        assert(out@ =~= old(out)@ + dec_digits(n as nat));
    }
}

fn push_peer(out: &mut Vec<char>, m: &PeerMessage)
    ensures
        final(out)@ == old(out)@ + enc_peer(m@),
{
    match m {
        PeerMessage::Candidate { candidate, sdp_mid, sdp_m_line_index } => {
            push_lit(out, "{\"type\":\"candidate\",\"candidate\":");
            push_jstr(out, candidate.as_str());
            push_lit(out, ",\"sdp_mid\":");
            match sdp_mid {
                Some(mid) => push_jstr(out, mid.as_str()),
                None => push_lit(out, "null"),
            }
            push_lit(out, ",\"sdp_m_line_index\":");
            match sdp_m_line_index {
                Some(ix) => push_u16(out, *ix),
                None => push_lit(out, "null"),
            }
            push_lit(out, "}");
            proof {
                assert(out@ =~= old(out)@ + enc_peer(m@));
            }
        },
        PeerMessage::Offer { sdp } => {
            push_lit(out, "{\"type\":\"offer\",\"sdp\":");
            push_jstr(out, sdp.as_str());
            push_lit(out, "}");
            proof {
                assert(out@ =~= old(out)@ + enc_peer(m@));
            }
        },
        PeerMessage::Answer { sdp } => {
            push_lit(out, "{\"type\":\"answer\",\"sdp\":");
            push_jstr(out, sdp.as_str());
            push_lit(out, "}");
            proof {
                assert(out@ =~= old(out)@ + enc_peer(m@));
            }
        },
        PeerMessage::Chat { message } => {
            push_lit(out, "{\"type\":\"chat\",\"message\":");
            push_jstr(out, message.as_str());
            push_lit(out, "}");
            proof {
                assert(out@ =~= old(out)@ + enc_peer(m@));
            }
        },
    }
}

/// The canonical text of a negotiation message.
pub fn encode_peer(m: &PeerMessage) -> (r: String)
    ensures
        r@ == enc_peer(m@),
{
    let mut out: Vec<char> = Vec::new();
    push_peer(&mut out, m);
    proof {
        assert(out@ =~= enc_peer(m@));
    }
    string_of(&out)
}

/// The canonical text of a directory-to-client message.
pub fn encode_client(m: &ClientMessage) -> (r: String)
    ensures
        r@ == enc_client(m@),
{
    let mut out: Vec<char> = Vec::new();
    match m {
        ClientMessage::You { url } => {
            push_lit(&mut out, "{\"type\":\"you\",\"url\":");
            push_jstr(&mut out, url.as_str());
            push_lit(&mut out, "}");
        },
        ClientMessage::Add { url } => {
            push_lit(&mut out, "{\"type\":\"add\",\"url\":");
            push_jstr(&mut out, url.as_str());
            push_lit(&mut out, "}");
        },
        ClientMessage::Remove { url } => {
            push_lit(&mut out, "{\"type\":\"remove\",\"url\":");
            push_jstr(&mut out, url.as_str());
            push_lit(&mut out, "}");
        },
        ClientMessage::Peer { url, message } => {
            push_lit(&mut out, "{\"type\":\"peer\",\"url\":");
            push_jstr(&mut out, url.as_str());
            push_lit(&mut out, ",\"message\":");
            push_peer(&mut out, message);
            push_lit(&mut out, "}");
        },
    }
    proof {
        assert(out@ =~= enc_client(m@));
    }
    string_of(&out)
}

/// The value of a hexadecimal digit, or sixteen for any other character.
pub open spec fn hex_val(c: char) -> int {
    if c == '0' {
        0
    } else if c == '1' {
        1
    } else if c == '2' {
        2
    } else if c == '3' {
        3
    } else if c == '4' {
        4
    } else if c == '5' {
        5
    } else if c == '6' {
        6
    } else if c == '7' {
        7
    } else if c == '8' {
        8
    } else if c == '9' {
        9
    } else if c == 'a' || c == 'A' {
        10
    } else if c == 'b' || c == 'B' {
        11
    } else if c == 'c' || c == 'C' {
        12
    } else if c == 'd' || c == 'D' {
        13
    } else if c == 'e' || c == 'E' {
        14
    } else if c == 'f' || c == 'F' {
        15
    } else {
        16
    }
}

/// A hexadecimal digit, either case.
pub open spec fn is_hex(c: char) -> bool {
    hex_val(c) < 16
}

/// The value of a decimal digit, or ten for any other character.
pub open spec fn dec_val(c: char) -> int {
    if c == '0' {
        0
    } else if c == '1' {
        1
    } else if c == '2' {
        2
    } else if c == '3' {
        3
    } else if c == '4' {
        4
    } else if c == '5' {
        5
    } else if c == '6' {
        6
    } else if c == '7' {
        7
    } else if c == '8' {
        8
    } else if c == '9' {
        9
    } else {
        10
    }
}

/// A decimal digit.
pub open spec fn is_digit(c: char) -> bool {
    dec_val(c) < 10
}

/// The character a short escape stands for. Meaningful for the named
/// escapes only.
pub open spec fn unesc_char(e: char) -> char {
    if e == '"' {
        '"'
    } else if e == '\\' {
        '\\'
    } else if e == 'b' {
        '\u{8}'
    } else if e == 'f' {
        '\u{c}'
    } else if e == 'n' {
        '\n'
    } else if e == 'r' {
        '\r'
    } else {
        '\t'
    }
}

/// The character with a given code below 256.
pub open spec fn code_char(n: int) -> char {
    (n as u8) as char
}

/// Reading a JSON string body from after the opening quote through the
/// closing quote: the unescaped value and the rest of the text.
pub open spec fn parse_jstr_body(s: Seq<char>) -> Option<(Seq<char>, Seq<char>)>
    decreases s.len(),
{
    if s.len() == 0 {
        None
    } else if s[0] == '"' {
        Some((Seq::empty(), s.drop_first()))
    } else if s[0] == '\\' {
        if s.len() < 2 {
            None
        } else {
            let e = s[1];
            if e == '"' || e == '\\' || e == 'b' || e == 'f' || e == 'n' || e == 'r' || e == 't' {
                match parse_jstr_body(s.skip(2)) {
                    Some(p) => Some((seq![unesc_char(e)] + p.0, p.1)),
                    None => None,
                }
            } else if e == 'u' {
                if s.len() >= 6 && s[2] == '0' && s[3] == '0' && is_hex(s[4]) && is_hex(s[5]) {
                    match parse_jstr_body(s.skip(6)) {
                        Some(p) => Some(
                            (seq![code_char(hex_val(s[4]) * 16 + hex_val(s[5]))] + p.0, p.1),
                        ),
                        None => None,
                    }
                } else {
                    None
                }
            } else {
                None
            }
        }
    } else {
        match parse_jstr_body(s.drop_first()) {
            Some(p) => Some((seq![s[0]] + p.0, p.1)),
            None => None,
        }
    }
}

/// Reading a JSON string where one is expected: an opening quote, then the
/// body.
pub open spec fn parse_jstr_at(s: Seq<char>) -> Option<(Seq<char>, Seq<char>)> {
    if s.len() > 0 && s[0] == '"' {
        parse_jstr_body(s.drop_first())
    } else {
        None
    }
}

/// How many decimal digits the text starts with.
pub open spec fn digits_prefix_len(s: Seq<char>) -> int
    decreases s.len(),
{
    if s.len() == 0 || !is_digit(s[0]) {
        0
    } else {
        1 + digits_prefix_len(s.drop_first())
    }
}

/// The value of a run of decimal digits.
pub open spec fn num_val(ds: Seq<char>) -> int
    decreases ds.len(),
{
    if ds.len() == 0 {
        0
    } else {
        num_val(ds.drop_last()) * 10 + dec_val(ds.last())
    }
}

/// Reading a number where one is expected: at most five digits, fitting a
/// sixteen-bit value.
pub open spec fn parse_num(s: Seq<char>) -> Option<(u16, Seq<char>)> {
    let k = digits_prefix_len(s);
    if k == 0 || k > 5 {
        None
    } else if num_val(s.take(k)) > 65535 {
        None
    } else {
        Some((num_val(s.take(k)) as u16, s.skip(k)))
    }
}

/// Whether the text starts with the given prefix.
pub open spec fn has_prefix(s: Seq<char>, p: Seq<char>) -> bool {
    p.len() <= s.len() && s.take(p.len() as int) == p
}

/// Reading an optional string field: `null` or a JSON string.
pub open spec fn parse_opt_str(s: Seq<char>) -> Option<(Option<Seq<char>>, Seq<char>)> {
    if has_prefix(s, "null"@) {
        Some((None, s.skip("null"@.len() as int)))
    } else {
        match parse_jstr_at(s) {
            Some(p) => Some((Some(p.0), p.1)),
            None => None,
        }
    }
}

/// Reading an optional number field: `null` or digits.
pub open spec fn parse_opt_num(s: Seq<char>) -> Option<(Option<u16>, Seq<char>)> {
    if has_prefix(s, "null"@) {
        Some((None, s.skip("null"@.len() as int)))
    } else {
        match parse_num(s) {
            Some(p) => Some((Some(p.0), p.1)),
            None => None,
        }
    }
}

/// Reading one negotiation message object and returning the rest of the
/// text after its closing brace.
pub open spec fn dec_peer_part(s: Seq<char>) -> Option<(PeerMessageModel, Seq<char>)> {
    let pc = "{\"type\":\"candidate\",\"candidate\":"@;
    let po = "{\"type\":\"offer\",\"sdp\":"@;
    let pa = "{\"type\":\"answer\",\"sdp\":"@;
    let ph = "{\"type\":\"chat\",\"message\":"@;
    if has_prefix(s, pc) {
        match parse_jstr_at(s.skip(pc.len() as int)) {
            Some(p1) => {
                let pm = ",\"sdp_mid\":"@;
                if has_prefix(p1.1, pm) {
                    match parse_opt_str(p1.1.skip(pm.len() as int)) {
                        Some(p2) => {
                            let px = ",\"sdp_m_line_index\":"@;
                            if has_prefix(p2.1, px) {
                                match parse_opt_num(p2.1.skip(px.len() as int)) {
                                    Some(p3) => {
                                        if p3.1.len() >= 1 && p3.1[0] == '}' {
                                            Some(
                                                (
                                                    PeerMessageModel::Candidate {
                                                        candidate: p1.0,
                                                        sdp_mid: p2.0,
                                                        sdp_m_line_index: p3.0,
                                                    },
                                                    p3.1.skip(1),
                                                ),
                                            )
                                        } else {
                                            None
                                        }
                                    },
                                    None => None,
                                }
                            } else {
                                None
                            }
                        },
                        None => None,
                    }
                } else {
                    None
                }
            },
            None => None,
        }
    } else if has_prefix(s, po) {
        match parse_jstr_at(s.skip(po.len() as int)) {
            Some(p) => {
                if p.1.len() >= 1 && p.1[0] == '}' {
                    Some((PeerMessageModel::Offer { sdp: p.0 }, p.1.skip(1)))
                } else {
                    None
                }
            },
            None => None,
        }
    } else if has_prefix(s, pa) {
        match parse_jstr_at(s.skip(pa.len() as int)) {
            Some(p) => {
                if p.1.len() >= 1 && p.1[0] == '}' {
                    Some((PeerMessageModel::Answer { sdp: p.0 }, p.1.skip(1)))
                } else {
                    None
                }
            },
            None => None,
        }
    } else if has_prefix(s, ph) {
        match parse_jstr_at(s.skip(ph.len() as int)) {
            Some(p) => {
                if p.1.len() >= 1 && p.1[0] == '}' {
                    Some((PeerMessageModel::Chat { message: p.0 }, p.1.skip(1)))
                } else {
                    None
                }
            },
            None => None,
        }
    } else {
        None
    }
}

/// Reading a whole directory-to-client message.
pub open spec fn dec_client(s: Seq<char>) -> Option<ClientMessageModel> {
    let py = "{\"type\":\"you\",\"url\":"@;
    let pd = "{\"type\":\"add\",\"url\":"@;
    let pr = "{\"type\":\"remove\",\"url\":"@;
    let pp = "{\"type\":\"peer\",\"url\":"@;
    if has_prefix(s, py) {
        match parse_jstr_at(s.skip(py.len() as int)) {
            Some(p) => {
                if p.1 == "}"@ {
                    Some(ClientMessageModel::You { url: p.0 })
                } else {
                    None
                }
            },
            None => None,
        }
    } else if has_prefix(s, pd) {
        match parse_jstr_at(s.skip(pd.len() as int)) {
            Some(p) => {
                if p.1 == "}"@ {
                    Some(ClientMessageModel::Add { url: p.0 })
                } else {
                    None
                }
            },
            None => None,
        }
    } else if has_prefix(s, pr) {
        match parse_jstr_at(s.skip(pr.len() as int)) {
            Some(p) => {
                if p.1 == "}"@ {
                    Some(ClientMessageModel::Remove { url: p.0 })
                } else {
                    None
                }
            },
            None => None,
        }
    } else if has_prefix(s, pp) {
        match parse_jstr_at(s.skip(pp.len() as int)) {
            Some(p) => {
                let pm = ",\"message\":"@;
                if has_prefix(p.1, pm) {
                    match dec_peer_part(p.1.skip(pm.len() as int)) {
                        Some(q) => {
                            if q.1 == "}"@ {
                                Some(ClientMessageModel::Peer { url: p.0, message: q.0 })
                            } else {
                                None
                            }
                        },
                        None => None,
                    }
                } else {
                    None
                }
            },
            None => None,
        }
    } else {
        None
    }
}

/// Reading a whole client-to-directory message.
pub open spec fn dec_server(s: Seq<char>) -> Option<ServerMessageModel> {
    let pg = "{\"type\":\"ping\"}"@;
    let pr = "{\"type\":\"room\",\"name\":"@;
    if s == pg {
        Some(ServerMessageModel::Ping)
    } else if has_prefix(s, pr) {
        match parse_jstr_at(s.skip(pr.len() as int)) {
            Some(p) => {
                if p.1 == "}"@ {
                    Some(ServerMessageModel::Room { name: p.0 })
                } else {
                    None
                }
            },
            None => None,
        }
    } else {
        None
    }
}

/// The canonical text of a client-to-directory message.
pub fn encode_server(m: &ServerMessage) -> (r: String)
    ensures
        r@ == enc_server(m@),
{
    let mut out: Vec<char> = Vec::new();
    match m {
        ServerMessage::Room { name } => {
            push_lit(&mut out, "{\"type\":\"room\",\"name\":");
            push_jstr(&mut out, name.as_str());
            push_lit(&mut out, "}");
        },
        ServerMessage::Ping => {
            push_lit(&mut out, "{\"type\":\"ping\"}");
        },
    }
    proof {
        assert(out@ =~= enc_server(m@));
    }
    string_of(&out)
}

fn hex_val_x(c: char) -> (n: u32)
    ensures
        n == hex_val(c),
{
    if c == '0' {
        0
    } else if c == '1' {
        1
    } else if c == '2' {
        2
    } else if c == '3' {
        3
    } else if c == '4' {
        4
    } else if c == '5' {
        5
    } else if c == '6' {
        6
    } else if c == '7' {
        7
    } else if c == '8' {
        8
    } else if c == '9' {
        9
    } else if c == 'a' || c == 'A' {
        10
    } else if c == 'b' || c == 'B' {
        11
    } else if c == 'c' || c == 'C' {
        12
    } else if c == 'd' || c == 'D' {
        13
    } else if c == 'e' || c == 'E' {
        14
    } else if c == 'f' || c == 'F' {
        15
    } else {
        16
    }
}

fn dec_val_x(c: char) -> (n: u32)
    ensures
        n == dec_val(c),
{
    if c == '0' {
        0
    } else if c == '1' {
        1
    } else if c == '2' {
        2
    } else if c == '3' {
        3
    } else if c == '4' {
        4
    } else if c == '5' {
        5
    } else if c == '6' {
        6
    } else if c == '7' {
        7
    } else if c == '8' {
        8
    } else if c == '9' {
        9
    } else {
        10
    }
}

#[verifier::loop_isolation(false)]
fn starts_with_at(v: &Vec<char>, pos: usize, lit: &str) -> (r: bool)
    requires
        pos <= v@.len(),
    ensures
        r == has_prefix(v@.skip(pos as int), lit@),
{
    proof {
        assert(v.len() == v@.len());
    }
    let l = chars_of(lit);
    if v.len() - pos < l.len() {
        proof {
            assert(v@.skip(pos as int).len() < lit@.len());
        }
        return false;
    }
    let mut i: usize = 0;
    while i < l.len()
        invariant
            i <= l@.len(),
            l@ == lit@,
            pos + l@.len() <= v@.len(),
            forall|k: int| 0 <= k < i ==> v@[pos + k] == lit@[k],
        decreases l@.len() - i,
    {
        if v[pos + i] != l[i] {
            proof {
                assert(v@.skip(pos as int).take(lit@.len() as int)[i as int] != lit@[i as int]);
            }
            return false;
        }
        i = i + 1;
    }
    proof {
        assert(v@.skip(pos as int).take(lit@.len() as int) =~= lit@);
    }
    true
}

#[verifier::loop_isolation(false)]
fn parse_string(v: &Vec<char>, pos: usize) -> (r: Option<(Vec<char>, usize)>)
    requires
        pos <= v@.len(),
    ensures
        match r {
            Some(p) => pos < p.1 <= v@.len() && parse_jstr_at(v@.skip(pos as int)) == Some(
                (p.0@, v@.skip(p.1 as int)),
            ),
            None => parse_jstr_at(v@.skip(pos as int)) is None,
        },
{
    if pos >= v.len() || v[pos] != '"' {
        return None;
    }
    proof {
        assert(v.len() == v@.len());
        assert(v@.skip(pos as int)[0] == v@[pos as int]);
        assert(v@.skip(pos as int).drop_first() =~= v@.skip(pos as int + 1));
    }
    let mut out: Vec<char> = Vec::new();
    let mut j: usize = pos + 1;
    while j < v.len()
        invariant
            pos + 1 <= j <= v@.len(),
            pos < v@.len(),
            v@[pos as int] == '"',
            match parse_jstr_body(v@.skip(j as int)) {
                Some(p) => parse_jstr_body(v@.skip(pos as int + 1)) == Some((out@ + p.0, p.1)),
                None => parse_jstr_body(v@.skip(pos as int + 1)) is None,
            },
        decreases v@.len() - j,
    {
        let ghost s = v@.skip(j as int);
        proof {
            assert(s.len() == v@.len() - j);
            assert(s[0] == v@[j as int]);
        }
        let c = v[j];
        if c == '"' {
            proof {
                assert(s.drop_first() =~= v@.skip(j as int + 1));
                assert(parse_jstr_body(s) == Some(
                    (Seq::<char>::empty(), v@.skip(j as int + 1)),
                ));
                assert(out@ + Seq::<char>::empty() =~= out@);
            }
            return Some((out, j + 1));
        } else if c == '\\' {
            if j + 1 >= v.len() {
                proof {
                    assert(parse_jstr_body(s) is None);
                }
                return None;
            }
            let e = v[j + 1];
            proof {
                assert(s[1] == v@[j as int + 1]);
            }
            if e == '"' || e == '\\' || e == 'b' || e == 'f' || e == 'n' || e == 'r' || e == 't' {
                let ghost before = out@;
                if e == '"' {
                    out.push('"');
                } else if e == '\\' {
                    out.push('\\');
                } else if e == 'b' {
                    out.push('\u{8}');
                } else if e == 'f' {
                    out.push('\u{c}');
                } else if e == 'n' {
                    out.push('\n');
                } else if e == 'r' {
                    out.push('\r');
                } else {
                    out.push('\t');
                }
                proof {
                    assert(out@ =~= before + seq![unesc_char(s[1])]);
                    assert(s.skip(2) =~= v@.skip(j as int + 2));
                    match parse_jstr_body(v@.skip(j as int + 2)) {
                        Some(p) => {
                            assert(parse_jstr_body(s) == Some(
                                (seq![unesc_char(s[1])] + p.0, p.1),
                            ));
                            assert(out@ + p.0 =~= before + (seq![unesc_char(s[1])] + p.0));
                        },
                        None => {
                            assert(parse_jstr_body(s) is None);
                        },
                    }
                }
                j = j + 2;
            } else if e == 'u' {
                if v.len() - j < 6 {
                    proof {
                        assert(s.len() < 6);
                        assert(parse_jstr_body(s) is None);
                    }
                    return None;
                }
                let c2 = v[j + 2];
                let c3 = v[j + 3];
                let h1 = hex_val_x(v[j + 4]);
                let h2 = hex_val_x(v[j + 5]);
                proof {
                    assert(s[2] == v@[j as int + 2]);
                    assert(s[3] == v@[j as int + 3]);
                    assert(s[4] == v@[j as int + 4]);
                    assert(s[5] == v@[j as int + 5]);
                }
                if !(c2 == '0' && c3 == '0' && h1 < 16 && h2 < 16) {
                    proof {
                        assert(parse_jstr_body(s) is None);
                    }
                    return None;
                }
                let code = h1 * 16 + h2;
                let ghost before = out@;
                out.push((code as u8) as char);
                proof {
                    assert(code_char(hex_val(s[4]) * 16 + hex_val(s[5])) == ((code as u8) as char));
                    assert(out@ =~= before + seq![code_char(hex_val(s[4]) * 16 + hex_val(s[5]))]);
                    assert(s.skip(6) =~= v@.skip(j as int + 6));
                    match parse_jstr_body(v@.skip(j as int + 6)) {
                        Some(p) => {
                            assert(parse_jstr_body(s) == Some(
                                (seq![code_char(hex_val(s[4]) * 16 + hex_val(s[5]))] + p.0, p.1),
                            ));
                            assert(out@ + p.0 =~= before + (seq![code_char(
                                hex_val(s[4]) * 16 + hex_val(s[5]),
                            )] + p.0));
                        },
                        None => {
                            assert(parse_jstr_body(s) is None);
                        },
                    }
                }
                j = j + 6;
            } else {
                proof {
                    assert(parse_jstr_body(s) is None);
                }
                return None;
            }
        } else {
            let ghost before = out@;
            out.push(c);
            proof {
                assert(out@ =~= before + seq![s[0]]);
                assert(s.drop_first() =~= v@.skip(j as int + 1));
                match parse_jstr_body(v@.skip(j as int + 1)) {
                    Some(p) => {
                        assert(parse_jstr_body(s) == Some((seq![s[0]] + p.0, p.1)));
                        assert(out@ + p.0 =~= before + (seq![s[0]] + p.0));
                    },
                    None => {
                        assert(parse_jstr_body(s) is None);
                    },
                }
            }
            j = j + 1;
        }
    }
    proof {
        assert(v@.skip(j as int).len() == 0);
        assert(parse_jstr_body(v@.skip(j as int)) is None);
    }
    None
}

proof fn lemma_digits_prefix(s: Seq<char>, k: int)
    requires
        0 <= k <= s.len(),
        forall|l: int| 0 <= l < k ==> is_digit(#[trigger] s[l]),
        k == s.len() || !is_digit(s[k]),
    ensures
        digits_prefix_len(s) == k,
    decreases k,
{
    if k == 0 {
    } else {
        assert(is_digit(s[0]));
        lemma_digits_prefix(s.drop_first(), k - 1);
    }
}

/// A run of digits is worth less than one followed by another digit place.
proof fn lemma_num_val_bound(ds: Seq<char>, b: int)
    requires
        forall|l: int| 0 <= l < ds.len() ==> is_digit(#[trigger] ds[l]),
        ds.len() <= b <= 5,
    ensures
        0 <= num_val(ds) < pow10(b),
    decreases ds.len(),
{
    if ds.len() == 0 {
        assert(pow10(b) >= 1) by {
            lemma_pow10_pos(b);
        }
    } else {
        lemma_num_val_bound(ds.drop_last(), b - 1);
        assert(dec_val(ds.last()) <= 9);
        assert(num_val(ds.drop_last()) * 10 <= (pow10(b - 1) - 1) * 10);
    }
}

spec fn pow10(k: int) -> int
    decreases k,
{
    if k <= 0 {
        1
    } else {
        10 * pow10(k - 1)
    }
}

proof fn lemma_pow10_pos(k: int)
    ensures
        pow10(k) >= 1,
    decreases k,
{
    if k > 0 {
        lemma_pow10_pos(k - 1);
    }
}

#[verifier::loop_isolation(false)]
fn parse_number_at(v: &Vec<char>, pos: usize) -> (r: Option<(u16, usize)>)
    requires
        pos <= v@.len(),
    ensures
        match r {
            Some(p) => pos < p.1 <= v@.len() && parse_num(v@.skip(pos as int)) == Some(
                (p.0, v@.skip(p.1 as int)),
            ),
            None => parse_num(v@.skip(pos as int)) is None,
        },
{
    proof {
        assert(v.len() == v@.len());
    }
    let ghost s = v@.skip(pos as int);
    let mut k: usize = 0;
    while pos + k < v.len() && dec_val_x(v[pos + k]) < 10
        invariant
            pos + k <= v@.len(),
            forall|l: int| 0 <= l < k ==> is_digit(#[trigger] s[l]),
        decreases v@.len() - pos - k,
    {
        proof {
            assert(s[k as int] == v@[pos + k]);
        }
        k = k + 1;
    }
    proof {
        if pos + k < v@.len() {
            assert(s[k as int] == v@[pos + k]);
        }
        lemma_digits_prefix(s, k as int);
    }
    if k == 0 || k > 5 {
        return None;
    }
    let mut acc: u32 = 0;
    let mut l: usize = 0;
    while l < k
        invariant
            l <= k <= 5,
            pos + k <= v@.len(),
            forall|l2: int| 0 <= l2 < k ==> is_digit(#[trigger] s[l2]),
            acc == num_val(s.take(l as int)),
            acc < 100000,
        decreases k - l,
    {
        let d = dec_val_x(v[pos + l]);
        proof {
            assert(s[l as int] == v@[pos + l]);
            assert(s.take(l as int + 1).drop_last() =~= s.take(l as int));
            assert(s.take(l as int + 1).last() == s[l as int]);
            assert(forall|l2: int|
                0 <= l2 < s.take(l as int + 1).len() ==> is_digit(
                    #[trigger] s.take(l as int + 1)[l2],
                ));
            lemma_num_val_bound(s.take(l as int + 1), 5);
            assert(pow10(0) == 1);
            assert(pow10(1) == 10);
            assert(pow10(2) == 100);
            assert(pow10(3) == 1000);
            assert(pow10(4) == 10000);
            assert(pow10(5) == 100000);
        }
        acc = acc * 10 + d;
        l = l + 1;
    }
    proof {
        assert(s.take(k as int).len() == k);
    }
    if acc > 65535 {
        return None;
    }
    proof {
        assert(v@.skip(pos as int + k as int) =~= s.skip(k as int));
    }
    Some((acc as u16, pos + k))
}

fn parse_opt_string_at(v: &Vec<char>, pos: usize) -> (r: Option<(Option<Vec<char>>, usize)>)
    requires
        pos <= v@.len(),
    ensures
        match r {
            Some(p) => p.1 <= v@.len() && parse_opt_str(v@.skip(pos as int)) == Some(
                (
                    match p.0 {
                        Some(w) => Some(w@),
                        None => None,
                    },
                    v@.skip(p.1 as int),
                ),
            ),
            None => parse_opt_str(v@.skip(pos as int)) is None,
        },
{
    if starts_with_at(v, pos, "null") {
        let four = chars_of("null");
        proof {
            assert(v.len() == v@.len());
            assert("null"@.len() <= v@.len() - pos);
            assert(v@.skip(pos as int).skip("null"@.len() as int) =~= v@.skip(
                pos as int + "null"@.len() as int,
            ));
        }
        Some((None, pos + four.len()))
    } else {
        match parse_string(v, pos) {
            Some((w, end)) => Some((Some(w), end)),
            None => None,
        }
    }
}

fn parse_opt_number_at(v: &Vec<char>, pos: usize) -> (r: Option<(Option<u16>, usize)>)
    requires
        pos <= v@.len(),
    ensures
        match r {
            Some(p) => p.1 <= v@.len() && parse_opt_num(v@.skip(pos as int)) == Some(
                (p.0, v@.skip(p.1 as int)),
            ),
            None => parse_opt_num(v@.skip(pos as int)) is None,
        },
{
    if starts_with_at(v, pos, "null") {
        let four = chars_of("null");
        proof {
            assert(v.len() == v@.len());
            assert("null"@.len() <= v@.len() - pos);
            assert(v@.skip(pos as int).skip("null"@.len() as int) =~= v@.skip(
                pos as int + "null"@.len() as int,
            ));
        }
        Some((None, pos + four.len()))
    } else {
        match parse_number_at(v, pos) {
            Some((n, end)) => Some((Some(n), end)),
            None => None,
        }
    }
}

#[verifier::rlimit(60)]
fn parse_peer_at(v: &Vec<char>, pos: usize) -> (r: Option<(PeerMessage, usize)>)
    requires
        pos <= v@.len(),
    ensures
        match r {
            Some(p) => p.1 <= v@.len() && dec_peer_part(v@.skip(pos as int)) == Some(
                (p.0@, v@.skip(p.1 as int)),
            ),
            None => dec_peer_part(v@.skip(pos as int)) is None,
        },
{
    let ghost s = v@.skip(pos as int);
    if starts_with_at(v, pos, "{\"type\":\"candidate\",\"candidate\":") {
        let pre = chars_of("{\"type\":\"candidate\",\"candidate\":");
        proof {
            assert(v.len() == v@.len());
            assert(pre@.len() <= v@.len() - pos);
            assert(s.skip(pre@.len() as int) =~= v@.skip(pos as int + pre@.len() as int));
        }
        match parse_string(v, pos + pre.len()) {
            Some((cand, e1)) => {
                if starts_with_at(v, e1, ",\"sdp_mid\":") {
                    let pm = chars_of(",\"sdp_mid\":");
                    proof {
                        assert(v.len() == v@.len());
                        assert(pm@.len() <= v@.len() - e1);
                        assert(v@.skip(e1 as int).skip(pm@.len() as int) =~= v@.skip(
                            e1 as int + pm@.len() as int,
                        ));
                    }
                    match parse_opt_string_at(v, e1 + pm.len()) {
                        Some((mid, e2)) => {
                            if starts_with_at(v, e2, ",\"sdp_m_line_index\":") {
                                let px = chars_of(",\"sdp_m_line_index\":");
                                proof {
                                    assert(v.len() == v@.len());
                                    assert(px@.len() <= v@.len() - e2);
                                    assert(v@.skip(e2 as int).skip(px@.len() as int) =~= v@.skip(
                                        e2 as int + px@.len() as int,
                                    ));
                                }
                                match parse_opt_number_at(v, e2 + px.len()) {
                                    Some((ix, e3)) => {
                                        if e3 < v.len() && v[e3] == '}' {
                                            proof {
                                                assert(v@.skip(e3 as int)[0] == v@[e3 as int]);
                                                assert(v@.skip(e3 as int).skip(1) =~= v@.skip(
                                                    e3 as int + 1,
                                                ));
                                            }
                                            let m = PeerMessage::Candidate {
                                                candidate: string_of(&cand),
                                                sdp_mid: match &mid {
                                                    Some(w) => Some(string_of(w)),
                                                    None => None,
                                                },
                                                sdp_m_line_index: ix,
                                            };
                                            Some((m, e3 + 1))
                                        } else {
                                            proof {
                                                if v@.skip(e3 as int).len() >= 1 {
                                                    assert(v@.skip(e3 as int)[0] == v@[e3 as int]);
                                                }
                                            }
                                            None
                                        }
                                    },
                                    None => None,
                                }
                            } else {
                                None
                            }
                        },
                        None => None,
                    }
                } else {
                    None
                }
            },
            None => None,
        }
    } else if starts_with_at(v, pos, "{\"type\":\"offer\",\"sdp\":") {
        let pre = chars_of("{\"type\":\"offer\",\"sdp\":");
        proof {
            assert(v.len() == v@.len());
            assert(pre@.len() <= v@.len() - pos);
            assert(s.skip(pre@.len() as int) =~= v@.skip(pos as int + pre@.len() as int));
        }
        match parse_string(v, pos + pre.len()) {
            Some((sdp, e1)) => {
                if e1 < v.len() && v[e1] == '}' {
                    proof {
                        assert(v@.skip(e1 as int)[0] == v@[e1 as int]);
                        assert(v@.skip(e1 as int).skip(1) =~= v@.skip(e1 as int + 1));
                    }
                    Some((PeerMessage::Offer { sdp: string_of(&sdp) }, e1 + 1))
                } else {
                    proof {
                        if v@.skip(e1 as int).len() >= 1 {
                            assert(v@.skip(e1 as int)[0] == v@[e1 as int]);
                        }
                    }
                    None
                }
            },
            None => None,
        }
    } else if starts_with_at(v, pos, "{\"type\":\"answer\",\"sdp\":") {
        let pre = chars_of("{\"type\":\"answer\",\"sdp\":");
        proof {
            assert(v.len() == v@.len());
            assert(pre@.len() <= v@.len() - pos);
            assert(s.skip(pre@.len() as int) =~= v@.skip(pos as int + pre@.len() as int));
        }
        match parse_string(v, pos + pre.len()) {
            Some((sdp, e1)) => {
                if e1 < v.len() && v[e1] == '}' {
                    proof {
                        assert(v@.skip(e1 as int)[0] == v@[e1 as int]);
                        assert(v@.skip(e1 as int).skip(1) =~= v@.skip(e1 as int + 1));
                    }
                    Some((PeerMessage::Answer { sdp: string_of(&sdp) }, e1 + 1))
                } else {
                    proof {
                        if v@.skip(e1 as int).len() >= 1 {
                            assert(v@.skip(e1 as int)[0] == v@[e1 as int]);
                        }
                    }
                    None
                }
            },
            None => None,
        }
    } else if starts_with_at(v, pos, "{\"type\":\"chat\",\"message\":") {
        let pre = chars_of("{\"type\":\"chat\",\"message\":");
        proof {
            assert(v.len() == v@.len());
            assert(pre@.len() <= v@.len() - pos);
            assert(s.skip(pre@.len() as int) =~= v@.skip(pos as int + pre@.len() as int));
        }
        match parse_string(v, pos + pre.len()) {
            Some((msg, e1)) => {
                if e1 < v.len() && v[e1] == '}' {
                    proof {
                        assert(v@.skip(e1 as int)[0] == v@[e1 as int]);
                        assert(v@.skip(e1 as int).skip(1) =~= v@.skip(e1 as int + 1));
                    }
                    Some((PeerMessage::Chat { message: string_of(&msg) }, e1 + 1))
                } else {
                    proof {
                        if v@.skip(e1 as int).len() >= 1 {
                            assert(v@.skip(e1 as int)[0] == v@[e1 as int]);
                        }
                    }
                    None
                }
            },
            None => None,
        }
    } else {
        None
    }
}

/// Read a directory-to-client message; everything but the canonical texts
/// is refused.
#[verifier::rlimit(60)]
pub fn decode_client(s: &str) -> (r: Option<ClientMessage>)
    ensures
        match r {
            Some(m) => dec_client(s@) == Some(m@),
            None => dec_client(s@) is None,
        },
{
    let v = chars_of(s);
    proof {
        assert(v@.skip(0) =~= s@);
    }
    if starts_with_at(&v, 0, "{\"type\":\"you\",\"url\":") {
        let pre = chars_of("{\"type\":\"you\",\"url\":");
        proof {
            assert(s@.skip(pre@.len() as int) =~= v@.skip(0 + pre@.len() as int));
        }
        match parse_string(&v, pre.len()) {
            Some((url, end)) => {
                if starts_with_at(&v, end, "}") && v.len() - end == 1 {
                    proof {
                        reveal_strlit("}");
                        assert(v@.skip(end as int) =~= "}"@);
                    }
                    Some(ClientMessage::You { url: string_of(&url) })
                } else {
                    proof {
                        reveal_strlit("}");
                        if v@.skip(end as int) == "}"@ {
                            assert(v@.skip(end as int).take("}"@.len() as int) =~= "}"@);
                        }
                    }
                    None
                }
            },
            None => None,
        }
    } else if starts_with_at(&v, 0, "{\"type\":\"add\",\"url\":") {
        let pre = chars_of("{\"type\":\"add\",\"url\":");
        proof {
            assert(s@.skip(pre@.len() as int) =~= v@.skip(0 + pre@.len() as int));
        }
        match parse_string(&v, pre.len()) {
            Some((url, end)) => {
                if starts_with_at(&v, end, "}") && v.len() - end == 1 {
                    proof {
                        reveal_strlit("}");
                        assert(v@.skip(end as int) =~= "}"@);
                    }
                    Some(ClientMessage::Add { url: string_of(&url) })
                } else {
                    proof {
                        reveal_strlit("}");
                        if v@.skip(end as int) == "}"@ {
                            assert(v@.skip(end as int).take("}"@.len() as int) =~= "}"@);
                        }
                    }
                    None
                }
            },
            None => None,
        }
    } else if starts_with_at(&v, 0, "{\"type\":\"remove\",\"url\":") {
        let pre = chars_of("{\"type\":\"remove\",\"url\":");
        proof {
            assert(s@.skip(pre@.len() as int) =~= v@.skip(0 + pre@.len() as int));
        }
        match parse_string(&v, pre.len()) {
            Some((url, end)) => {
                if starts_with_at(&v, end, "}") && v.len() - end == 1 {
                    proof {
                        reveal_strlit("}");
                        assert(v@.skip(end as int) =~= "}"@);
                    }
                    Some(ClientMessage::Remove { url: string_of(&url) })
                } else {
                    proof {
                        reveal_strlit("}");
                        if v@.skip(end as int) == "}"@ {
                            assert(v@.skip(end as int).take("}"@.len() as int) =~= "}"@);
                        }
                    }
                    None
                }
            },
            None => None,
        }
    } else if starts_with_at(&v, 0, "{\"type\":\"peer\",\"url\":") {
        let pre = chars_of("{\"type\":\"peer\",\"url\":");
        proof {
            assert(s@.skip(pre@.len() as int) =~= v@.skip(0 + pre@.len() as int));
        }
        match parse_string(&v, pre.len()) {
            Some((url, e1)) => {
                if starts_with_at(&v, e1, ",\"message\":") {
                    let pm = chars_of(",\"message\":");
                    proof {
                        assert(v.len() == v@.len());
                        assert(pm@.len() <= v@.len() - e1);
                        assert(v@.skip(e1 as int).skip(pm@.len() as int) =~= v@.skip(
                            e1 as int + pm@.len() as int,
                        ));
                    }
                    match parse_peer_at(&v, e1 + pm.len()) {
                        Some((msg, e2)) => {
                            if starts_with_at(&v, e2, "}") && v.len() - e2 == 1 {
                                proof {
                                    reveal_strlit("}");
                                    assert(v@.skip(e2 as int) =~= "}"@);
                                }
                                Some(ClientMessage::Peer { url: string_of(&url), message: msg })
                            } else {
                                proof {
                                    reveal_strlit("}");
                                    if v@.skip(e2 as int) == "}"@ {
                                        assert(v@.skip(e2 as int).take("}"@.len() as int)
                                            =~= "}"@);
                                    }
                                }
                                None
                            }
                        },
                        None => None,
                    }
                } else {
                    None
                }
            },
            None => None,
        }
    } else {
        None
    }
}

/// Read a client-to-directory message; everything but the canonical texts
/// is refused.
#[verifier::rlimit(60)]
pub fn decode_server(s: &str) -> (r: Option<ServerMessage>)
    ensures
        match r {
            Some(m) => dec_server(s@) == Some(m@),
            None => dec_server(s@) is None,
        },
{
    let v = chars_of(s);
    proof {
        assert(v@.skip(0) =~= s@);
    }
    if starts_with_at(&v, 0, "{\"type\":\"ping\"}") {
        let pg = chars_of("{\"type\":\"ping\"}");
        if v.len() == pg.len() {
            proof {
                assert(s@.take("{\"type\":\"ping\"}"@.len() as int) =~= s@);
            }
            return Some(ServerMessage::Ping);
        }
    }
    proof {
        if s@ == "{\"type\":\"ping\"}"@ {
            assert(s@.take("{\"type\":\"ping\"}"@.len() as int) =~= "{\"type\":\"ping\"}"@);
        }
    }
    if starts_with_at(&v, 0, "{\"type\":\"room\",\"name\":") {
        let pre = chars_of("{\"type\":\"room\",\"name\":");
        proof {
            assert(s@.skip(pre@.len() as int) =~= v@.skip(0 + pre@.len() as int));
        }
        match parse_string(&v, pre.len()) {
            Some((name, end)) => {
                if starts_with_at(&v, end, "}") && v.len() - end == 1 {
                    proof {
                        reveal_strlit("}");
                        assert(v@.skip(end as int) =~= "}"@);
                    }
                    Some(ServerMessage::Room { name: string_of(&name) })
                } else {
                    proof {
                        reveal_strlit("}");
                        if v@.skip(end as int) == "}"@ {
                            assert(v@.skip(end as int).take("}"@.len() as int) =~= "}"@);
                        }
                    }
                    None
                }
            },
            None => None,
        }
    } else {
        None
    }
}

proof fn lemma_hex_digit_val(k: int)
    requires
        0 <= k < 16,
    ensures
        hex_val(hex_digit(k)) == k,
{
}

proof fn lemma_digit_char_val(k: int)
    requires
        0 <= k < 10,
    ensures
        dec_val(digit_char(k)) == k,
{
}

/// Unescaping a string body undoes escaping it, leaving the rest of the
/// text untouched.
proof fn lemma_unesc_esc(sv: Seq<char>, rest: Seq<char>)
    ensures
        parse_jstr_body(esc_string(sv) + seq!['"'] + rest) == Some((sv, rest)),
    decreases sv.len(),
{
    let t = esc_string(sv) + seq!['"'] + rest;
    if sv.len() == 0 {
        assert(t =~= seq!['"'] + rest);
        assert(t[0] == '"');
        assert(t.drop_first() =~= rest);
        assert(sv =~= Seq::<char>::empty());
    } else {
        let c = sv[0];
        let sv2 = sv.drop_first();
        let t2 = esc_string(sv2) + seq!['"'] + rest;
        assert(t =~= esc_char(c) + t2);
        lemma_unesc_esc(sv2, rest);
        if c == '"' || c == '\\' || c == '\n' || c == '\r' || c == '\t' {
            assert(esc_char(c).len() == 2);
            assert(t[0] == '\\');
            let e = t[1];
            assert(e == esc_char(c)[1]);
            assert(t.skip(2) =~= t2);
            assert(unesc_char(e) == c);
            assert(parse_jstr_body(t) == Some((seq![c] + sv2, rest)));
            assert(seq![c] + sv2 =~= sv);
        } else if (c as u32) < 32 {
            let code = (c as u32) as int;
            assert(esc_char(c) == seq![
                '\\',
                'u',
                '0',
                '0',
                hex_digit(code / 16),
                hex_digit(code % 16),
            ]);
            assert(t[0] == '\\');
            assert(t[1] == 'u');
            assert(t[2] == '0');
            assert(t[3] == '0');
            assert(t[4] == hex_digit(code / 16));
            assert(t[5] == hex_digit(code % 16));
            lemma_hex_digit_val(code / 16);
            lemma_hex_digit_val(code % 16);
            assert(is_hex(t[4]) && is_hex(t[5]));
            assert(t.skip(6) =~= t2);
            assert(hex_val(t[4]) * 16 + hex_val(t[5]) == code);
            vstd::utf8::char_u32_cast(c, c as u32);
            assert(code_char(code) == c);
            assert(parse_jstr_body(t) == Some((seq![c] + sv2, rest)));
            assert(seq![c] + sv2 =~= sv);
        } else {
            assert(esc_char(c) == seq![c]);
            assert(t[0] == c);
            assert(t[0] != '"' && t[0] != '\\');
            assert(t.drop_first() =~= t2);
            assert(parse_jstr_body(t) == Some((seq![c] + sv2, rest)));
            assert(seq![c] + sv2 =~= sv);
        }
    }
}

/// Reading a JSON string undoes writing one.
proof fn lemma_parse_jstr(vv: Seq<char>, tail: Seq<char>)
    ensures
        parse_jstr_at(jstr(vv) + tail) == Some((vv, tail)),
{
    let t = jstr(vv) + tail;
    assert(t[0] == '"');
    assert(t.drop_first() =~= esc_string(vv) + seq!['"'] + tail);
    lemma_unesc_esc(vv, tail);
}

/// The canonical digits of a sixteen-bit value: digits only, short, worth
/// the value itself.
proof fn lemma_dec_digits_props(n: nat)
    ensures
        forall|i: int| 0 <= i < dec_digits(n).len() ==> is_digit(#[trigger] dec_digits(n)[i]),
        num_val(dec_digits(n)) == n,
        dec_digits(n).len() >= 1,
        n < 10 ==> dec_digits(n).len() <= 1,
        n < 100 ==> dec_digits(n).len() <= 2,
        n < 1000 ==> dec_digits(n).len() <= 3,
        n < 10000 ==> dec_digits(n).len() <= 4,
        n < 100000 ==> dec_digits(n).len() <= 5,
    decreases n,
{
    if n < 10 {
        lemma_digit_char_val(n as int);
        let ds = dec_digits(n);
        assert(ds == seq![digit_char(n as int)]);
        assert(ds.drop_last() =~= Seq::<char>::empty());
        assert(num_val(ds) == num_val(Seq::<char>::empty()) * 10 + dec_val(ds.last()));
    } else {
        lemma_dec_digits_props(n / 10);
        lemma_digit_char_val((n % 10) as int);
        let ds = dec_digits(n);
        assert(ds == dec_digits(n / 10).push(digit_char((n % 10) as int)));
        assert(ds.drop_last() =~= dec_digits(n / 10));
        assert(ds.last() == digit_char((n % 10) as int));
        assert(num_val(ds) == (n / 10) * 10 + (n % 10));
        assert forall|i: int| 0 <= i < ds.len() implies is_digit(#[trigger] ds[i]) by {
            if i < ds.len() - 1 {
                assert(ds[i] == dec_digits(n / 10)[i]);
            }
        }
    }
}

/// Reading a number undoes writing one, when what follows starts with no
/// digit.
proof fn lemma_parse_num(n: u16, tail: Seq<char>)
    requires
        tail.len() == 0 || !is_digit(tail[0]),
    ensures
        parse_num(dec_digits(n as nat) + tail) == Some((n, tail)),
{
    let ds = dec_digits(n as nat);
    let t = ds + tail;
    lemma_dec_digits_props(n as nat);
    assert forall|l: int| 0 <= l < ds.len() implies is_digit(#[trigger] t[l]) by {
        assert(t[l] == ds[l]);
    }
    if tail.len() > 0 {
        assert(t[ds.len() as int] == tail[0]);
    }
    lemma_digits_prefix(t, ds.len() as int);
    assert(t.take(ds.len() as int) =~= ds);
    assert(t.skip(ds.len() as int) =~= tail);
}

/// Reading an optional string field undoes writing one.
proof fn lemma_parse_opt_str(o: Option<Seq<char>>, tail: Seq<char>)
    ensures
        parse_opt_str(enc_opt_str(o) + tail) == Some((o, tail)),
{
    reveal_strlit("null");
    let t = enc_opt_str(o) + tail;
    match o {
        None => {
            assert(t.take("null"@.len() as int) =~= "null"@);
            assert(t.skip("null"@.len() as int) =~= tail);
        },
        Some(v) => {
            assert(t[0] == '"');
            if has_prefix(t, "null"@) {
                assert(t.take("null"@.len() as int)[0] == 'n');
            }
            lemma_parse_jstr(v, tail);
            assert(jstr(v) + tail =~= t);
        },
    }
}

/// Reading an optional number field undoes writing one, when what follows
/// starts with no digit.
proof fn lemma_parse_opt_num(o: Option<u16>, tail: Seq<char>)
    requires
        tail.len() == 0 || !is_digit(tail[0]),
    ensures
        parse_opt_num(enc_opt_num(o) + tail) == Some((o, tail)),
{
    reveal_strlit("null");
    let t = enc_opt_num(o) + tail;
    match o {
        None => {
            assert(t.take("null"@.len() as int) =~= "null"@);
            assert(t.skip("null"@.len() as int) =~= tail);
        },
        Some(n) => {
            lemma_dec_digits_props(n as nat);
            assert(t[0] == dec_digits(n as nat)[0]);
            assert(is_digit(t[0]));
            if has_prefix(t, "null"@) {
                assert(t.take("null"@.len() as int)[0] == 'n');
                assert(dec_val('n') == 10);
            }
            lemma_parse_num(n, tail);
            assert(dec_digits(n as nat) + tail =~= t);
        },
    }
}

/// Reading a negotiation message undoes writing one, leaving the rest of
/// the text untouched.
#[verifier::rlimit(100)]
pub proof fn lemma_peer_round_trip(m: PeerMessageModel, tail: Seq<char>)
    ensures
        dec_peer_part(enc_peer(m) + tail) == Some((m, tail)),
{
    reveal_strlit("{\"type\":\"candidate\",\"candidate\":");
    reveal_strlit("{\"type\":\"offer\",\"sdp\":");
    reveal_strlit("{\"type\":\"answer\",\"sdp\":");
    reveal_strlit("{\"type\":\"chat\",\"message\":");
    reveal_strlit(",\"sdp_mid\":");
    reveal_strlit(",\"sdp_m_line_index\":");
    reveal_strlit("}");
    let pc = "{\"type\":\"candidate\",\"candidate\":"@;
    let po = "{\"type\":\"offer\",\"sdp\":"@;
    let pa = "{\"type\":\"answer\",\"sdp\":"@;
    let ph = "{\"type\":\"chat\",\"message\":"@;
    let t = enc_peer(m) + tail;
    match m {
        PeerMessageModel::Candidate { candidate, sdp_mid, sdp_m_line_index } => {
            let rest3 = "}"@ + tail;
            let rest2 = ",\"sdp_m_line_index\":"@ + enc_opt_num(sdp_m_line_index) + rest3;
            let rest1 = ",\"sdp_mid\":"@ + enc_opt_str(sdp_mid) + rest2;
            assert(t =~= pc + (jstr(candidate) + rest1));
            assert(t.take(pc.len() as int) =~= pc);
            assert(t.skip(pc.len() as int) =~= jstr(candidate) + rest1);
            lemma_parse_jstr(candidate, rest1);
            assert(rest1.take(",\"sdp_mid\":"@.len() as int) =~= ",\"sdp_mid\":"@);
            assert(rest1.skip(",\"sdp_mid\":"@.len() as int) =~= enc_opt_str(sdp_mid) + rest2);
            lemma_parse_opt_str(sdp_mid, rest2);
            assert(rest2.take(",\"sdp_m_line_index\":"@.len() as int)
                =~= ",\"sdp_m_line_index\":"@);
            assert(rest2.skip(",\"sdp_m_line_index\":"@.len() as int) =~= enc_opt_num(
                sdp_m_line_index,
            ) + rest3);
            assert(rest3[0] == '}');
            assert(!is_digit('}'));
            lemma_parse_opt_num(sdp_m_line_index, rest3);
            assert(rest3.skip(1) =~= tail);
        },
        PeerMessageModel::Offer { sdp } => {
            let rest = "}"@ + tail;
            assert(t =~= po + (jstr(sdp) + rest));
            if has_prefix(t, pc) {
                assert(t.take(pc.len() as int)[9] == pc[9]);
                assert(t[9] == po[9]);
            }
            assert(t.take(po.len() as int) =~= po);
            assert(t.skip(po.len() as int) =~= jstr(sdp) + rest);
            lemma_parse_jstr(sdp, rest);
            assert(rest[0] == '}');
            assert(rest.skip(1) =~= tail);
        },
        PeerMessageModel::Answer { sdp } => {
            let rest = "}"@ + tail;
            assert(t =~= pa + (jstr(sdp) + rest));
            if has_prefix(t, pc) {
                assert(t.take(pc.len() as int)[9] == pc[9]);
                assert(t[9] == pa[9]);
            }
            if has_prefix(t, po) {
                assert(t.take(po.len() as int)[9] == po[9]);
                assert(t[9] == pa[9]);
            }
            assert(t.take(pa.len() as int) =~= pa);
            assert(t.skip(pa.len() as int) =~= jstr(sdp) + rest);
            lemma_parse_jstr(sdp, rest);
            assert(rest[0] == '}');
            assert(rest.skip(1) =~= tail);
        },
        PeerMessageModel::Chat { message } => {
            let rest = "}"@ + tail;
            assert(t =~= ph + (jstr(message) + rest));
            if has_prefix(t, pc) {
                assert(t.take(pc.len() as int)[9] == pc[9]);
                assert(t[9] == ph[9]);
            }
            if has_prefix(t, po) {
                assert(t.take(po.len() as int)[9] == po[9]);
                assert(t[9] == ph[9]);
            }
            if has_prefix(t, pa) {
                assert(t.take(pa.len() as int)[9] == pa[9]);
                assert(t[9] == ph[9]);
            }
            assert(t.take(ph.len() as int) =~= ph);
            assert(t.skip(ph.len() as int) =~= jstr(message) + rest);
            lemma_parse_jstr(message, rest);
            assert(rest[0] == '}');
            assert(rest.skip(1) =~= tail);
        },
    }
}

/// Reading a directory-to-client message undoes writing one.
#[verifier::rlimit(100)]
pub proof fn lemma_client_round_trip(m: ClientMessageModel)
    ensures
        dec_client(enc_client(m)) == Some(m),
{
    reveal_strlit("{\"type\":\"you\",\"url\":");
    reveal_strlit("{\"type\":\"add\",\"url\":");
    reveal_strlit("{\"type\":\"remove\",\"url\":");
    reveal_strlit("{\"type\":\"peer\",\"url\":");
    reveal_strlit(",\"message\":");
    reveal_strlit("}");
    let py = "{\"type\":\"you\",\"url\":"@;
    let pd = "{\"type\":\"add\",\"url\":"@;
    let pr = "{\"type\":\"remove\",\"url\":"@;
    let pp = "{\"type\":\"peer\",\"url\":"@;
    let t = enc_client(m);
    match m {
        ClientMessageModel::You { url } => {
            assert(t =~= py + (jstr(url) + "}"@));
            assert(t.take(py.len() as int) =~= py);
            assert(t.skip(py.len() as int) =~= jstr(url) + "}"@);
            lemma_parse_jstr(url, "}"@);
        },
        ClientMessageModel::Add { url } => {
            assert(t =~= pd + (jstr(url) + "}"@));
            if has_prefix(t, py) {
                assert(t.take(py.len() as int)[9] == py[9]);
                assert(t[9] == pd[9]);
            }
            assert(t.take(pd.len() as int) =~= pd);
            assert(t.skip(pd.len() as int) =~= jstr(url) + "}"@);
            lemma_parse_jstr(url, "}"@);
        },
        ClientMessageModel::Remove { url } => {
            assert(t =~= pr + (jstr(url) + "}"@));
            if has_prefix(t, py) {
                assert(t.take(py.len() as int)[9] == py[9]);
                assert(t[9] == pr[9]);
            }
            if has_prefix(t, pd) {
                assert(t.take(pd.len() as int)[9] == pd[9]);
                assert(t[9] == pr[9]);
            }
            assert(t.take(pr.len() as int) =~= pr);
            assert(t.skip(pr.len() as int) =~= jstr(url) + "}"@);
            lemma_parse_jstr(url, "}"@);
        },
        ClientMessageModel::Peer { url, message } => {
            let rest1 = ",\"message\":"@ + enc_peer(message) + "}"@;
            assert(t =~= pp + (jstr(url) + rest1));
            if has_prefix(t, py) {
                assert(t.take(py.len() as int)[9] == py[9]);
                assert(t[9] == pp[9]);
            }
            if has_prefix(t, pd) {
                assert(t.take(pd.len() as int)[9] == pd[9]);
                assert(t[9] == pp[9]);
            }
            if has_prefix(t, pr) {
                assert(t.take(pr.len() as int)[9] == pr[9]);
                assert(t[9] == pp[9]);
            }
            assert(t.take(pp.len() as int) =~= pp);
            assert(t.skip(pp.len() as int) =~= jstr(url) + rest1);
            lemma_parse_jstr(url, rest1);
            assert(rest1.take(",\"message\":"@.len() as int) =~= ",\"message\":"@);
            assert(rest1.skip(",\"message\":"@.len() as int) =~= enc_peer(message) + "}"@);
            lemma_peer_round_trip(message, "}"@);
        },
    }
}

/// Reading a client-to-directory message undoes writing one.
pub proof fn lemma_server_round_trip(m: ServerMessageModel)
    ensures
        dec_server(enc_server(m)) == Some(m),
{
    reveal_strlit("{\"type\":\"ping\"}");
    reveal_strlit("{\"type\":\"room\",\"name\":");
    reveal_strlit("}");
    let pg = "{\"type\":\"ping\"}"@;
    let pr = "{\"type\":\"room\",\"name\":"@;
    let t = enc_server(m);
    match m {
        ServerMessageModel::Room { name } => {
            assert(t =~= pr + (jstr(name) + "}"@));
            if t == pg {
                assert(t[9] == pg[9]);
                assert(t[9] == pr[9]);
            }
            assert(t.take(pr.len() as int) =~= pr);
            assert(t.skip(pr.len() as int) =~= jstr(name) + "}"@);
            lemma_parse_jstr(name, "}"@);
        },
        ServerMessageModel::Ping => {
        },
    }
}

} // verus!
