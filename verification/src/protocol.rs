//! The wire-level message families: what the directory pushes to clients,
//! what a client sends to the directory, and the negotiation payload a relay
//! envelope carries between peers. Each family is a closed tagged union;
//! every boundary matches on it exhaustively.

use vstd::prelude::*;

verus! {

/// The negotiation payload inside a relay envelope. The directory never
/// inspects it; only the peer connection state machine (and, for `Chat`,
/// the session controller) interprets it.
#[derive(Debug, PartialEq, Eq)]
pub enum PeerMessage {
    Candidate { candidate: String, sdp_mid: Option<String>, sdp_m_line_index: Option<u16> },
    Offer { sdp: String },
    Answer { sdp: String },
    Chat { message: String },
}

/// A directory-to-client message: identity assignment, membership events,
/// and the relay envelope `Peer` that forwards a negotiation payload
/// verbatim to one peer.
#[derive(Debug, PartialEq, Eq)]
pub enum ClientMessage {
    You { url: String },
    Add { url: String },
    Remove { url: String },
    Peer { url: String, message: PeerMessage },
}

/// A client-to-directory control message: a room-join notification, or a
/// periodic keepalive that only refreshes the push channel.
#[derive(Debug, PartialEq, Eq)]
pub enum ServerMessage {
    Room { name: String },
    Ping,
}

/// The mathematical value of a `PeerMessage`: the same shape over character
/// sequences.
pub enum PeerMessageModel {
    Candidate { candidate: Seq<char>, sdp_mid: Option<Seq<char>>, sdp_m_line_index: Option<u16> },
    Offer { sdp: Seq<char> },
    Answer { sdp: Seq<char> },
    Chat { message: Seq<char> },
}

/// The mathematical value of a `ClientMessage`.
pub enum ClientMessageModel {
    You { url: Seq<char> },
    Add { url: Seq<char> },
    Remove { url: Seq<char> },
    Peer { url: Seq<char>, message: PeerMessageModel },
}

/// The mathematical value of a `ServerMessage`.
pub enum ServerMessageModel {
    Room { name: Seq<char> },
    Ping,
}

impl View for PeerMessage {
    type V = PeerMessageModel;

    open spec fn view(&self) -> PeerMessageModel {
        match self {
            PeerMessage::Candidate { candidate, sdp_mid, sdp_m_line_index } => {
                PeerMessageModel::Candidate {
                    candidate: candidate@,
                    sdp_mid: match sdp_mid {
                        Some(m) => Some(m@),
                        None => None,
                    },
                    sdp_m_line_index: *sdp_m_line_index,
                }
            },
            PeerMessage::Offer { sdp } => PeerMessageModel::Offer { sdp: sdp@ },
            PeerMessage::Answer { sdp } => PeerMessageModel::Answer { sdp: sdp@ },
            PeerMessage::Chat { message } => PeerMessageModel::Chat { message: message@ },
        }
    }
}

impl View for ClientMessage {
    type V = ClientMessageModel;

    open spec fn view(&self) -> ClientMessageModel {
        match self {
            ClientMessage::You { url } => ClientMessageModel::You { url: url@ },
            ClientMessage::Add { url } => ClientMessageModel::Add { url: url@ },
            ClientMessage::Remove { url } => ClientMessageModel::Remove { url: url@ },
            ClientMessage::Peer { url, message } => ClientMessageModel::Peer {
                url: url@,
                message: message@,
            },
        }
    }
}

impl View for ServerMessage {
    type V = ServerMessageModel;

    open spec fn view(&self) -> ServerMessageModel {
        match self {
            ServerMessage::Room { name } => ServerMessageModel::Room { name: name@ },
            ServerMessage::Ping => ServerMessageModel::Ping,
        }
    }
}

/// One pending push: a directory-to-client message addressed to a peer's
/// callback url.
#[derive(Debug, PartialEq, Eq)]
pub struct Envelope {
    pub to: String,
    pub message: ClientMessage,
}

/// The mathematical value of an `Envelope`.
pub struct EnvelopeModel {
    pub to: Seq<char>,
    pub message: ClientMessageModel,
}

impl View for Envelope {
    type V = EnvelopeModel;

    open spec fn view(&self) -> EnvelopeModel {
        EnvelopeModel { to: self.to@, message: self.message@ }
    }
}

/// The model of a sequence of envelopes, element by element.
pub open spec fn envelopes_model(v: Seq<Envelope>) -> Seq<EnvelopeModel> {
    v.map(|i: int, e: Envelope| e@)
}

} // verus!
