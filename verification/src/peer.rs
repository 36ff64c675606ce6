//! The per-peer connection negotiation state machine. One instance runs for
//! each remote peer; it turns directory events and relayed negotiation
//! messages into phase changes and into the messages to relay back. The
//! engine work itself (applying descriptions, producing offers and answers)
//! is the collaborator's; its results come in as plain values.

use vstd::prelude::*;

use crate::protocol::{PeerMessage, PeerMessageModel};

verus! {

/// The negotiation phases. The offering side walks `New` to `OfferSent` to
/// `Connected`; the answering side walks `New` to `AnswerSent`; `Closed` is
/// terminal and reachable from anywhere.
#[derive(Debug, Clone, Copy, PartialEq, Eq, Structural)]
pub enum LinkPhase {
    New,
    OfferSent,
    AnswerSent,
    Connected,
    Closed,
}

/// The local "peer added" trigger: a fresh link sends its offer; on any
/// other phase the trigger is dropped.
pub open spec fn phase_after_offer_trigger(p: LinkPhase) -> LinkPhase {
    if p is New {
        LinkPhase::OfferSent
    } else {
        p
    }
}

/// A remote offer: a fresh link answers it; on any other phase the message
/// is dropped.
pub open spec fn phase_after_remote_offer(p: LinkPhase) -> LinkPhase {
    if p is New {
        LinkPhase::AnswerSent
    } else {
        p
    }
}

/// A remote answer: it completes an offer this side sent; on any other
/// phase the message is dropped.
pub open spec fn phase_after_remote_answer(p: LinkPhase) -> LinkPhase {
    if p is OfferSent {
        LinkPhase::Connected
    } else {
        p
    }
}

pub struct PeerLink {
    phase: LinkPhase,
}

impl PeerLink {
    /// The phase the link is in.
    pub closed spec fn phase(self) -> LinkPhase {
        self.phase
    }

    /// A fresh link for a peer just seen.
    pub fn new_link() -> (l: PeerLink)
        ensures
            l.phase() == LinkPhase::New,
    {
        PeerLink { phase: LinkPhase::New }
    }

    /// The phase, readable at run time.
    pub fn current_phase(&self) -> (p: LinkPhase)
        ensures
            p == self.phase(),
    {
        self.phase
    }

    /// The local "peer added" trigger, with the offer the engine produced:
    /// a fresh link moves to `OfferSent` and hands back the `Offer` to
    /// relay; any other phase drops the trigger.
    pub fn start_offer(&mut self, sdp: &String) -> (r: Option<PeerMessage>)
        ensures
            final(self).phase() == phase_after_offer_trigger(old(self).phase()),
            match r {
                Some(m) => old(self).phase() is New && m@ == (PeerMessageModel::Offer {
                    sdp: sdp@,
                }),
                None => !(old(self).phase() is New),
            },
    {
        match self.phase {
            LinkPhase::New => {
                self.phase = LinkPhase::OfferSent;
                Some(PeerMessage::Offer { sdp: sdp.clone() })
            },
            _ => None,
        }
    }

    /// A remote offer, with the answer the engine produced for it: a fresh
    /// link moves to `AnswerSent` and hands back the `Answer` to relay; any
    /// other phase drops the offer.
    pub fn accept_offer(&mut self, answer_sdp: &String) -> (r: Option<PeerMessage>)
        ensures
            final(self).phase() == phase_after_remote_offer(old(self).phase()),
            match r {
                Some(m) => old(self).phase() is New && m@ == (PeerMessageModel::Answer {
                    sdp: answer_sdp@,
                }),
                None => !(old(self).phase() is New),
            },
    {
        match self.phase {
            LinkPhase::New => {
                self.phase = LinkPhase::AnswerSent;
                Some(PeerMessage::Answer { sdp: answer_sdp.clone() })
            },
            _ => None,
        }
    }

    /// A remote answer: only a link that sent the offer connects; any other
    /// phase drops the message unchanged. The result says whether to apply
    /// the answer to the engine.
    pub fn accept_answer(&mut self) -> (r: bool)
        ensures
            final(self).phase() == phase_after_remote_answer(old(self).phase()),
            r == (old(self).phase() is OfferSent),
    {
        match self.phase {
            LinkPhase::OfferSent => {
                self.phase = LinkPhase::Connected;
                true
            },
            _ => false,
        }
    }

    /// Whether a trickled candidate is applied: in every phase but
    /// `Closed`, since candidates move independently of the descriptions.
    pub fn accepts_candidate(&self) -> (r: bool)
        ensures
            r == !(self.phase() is Closed),
    {
        match self.phase {
            LinkPhase::Closed => false,
            _ => true,
        }
    }

    /// Close the link. Idempotent: the result says whether the engine
    /// handle is still held and must be released now, so a second close
    /// never releases twice.
    pub fn close(&mut self) -> (release: bool)
        ensures
            final(self).phase() is Closed,
            release == !(old(self).phase() is Closed),
    {
        match self.phase {
            LinkPhase::Closed => false,
            _ => {
                self.phase = LinkPhase::Closed;
                true
            },
        }
    }
}

/// The STUN servers the engine configuration is built with, in the order
/// they are handed over.
pub fn stun_servers() -> (v: Vec<String>)
    ensures
        v@.len() == 2,
        v@[0]@ == "stun:stun.services.mozilla.com"@,
        v@[1]@ == "stun:stun.l.google.com:19302"@,
{
    let mut v: Vec<String> = Vec::new();
    v.push(String::from_str("stun:stun.services.mozilla.com"));
    v.push(String::from_str("stun:stun.l.google.com:19302"));
    v
}

/// Completing the exchange connects: a fresh link that sends its offer and
/// then receives the answer ends in `Connected`.
pub proof fn lemma_offer_then_answer_connects()
    ensures
        phase_after_remote_answer(phase_after_offer_trigger(LinkPhase::New))
            == LinkPhase::Connected,
{
}

/// An answer out of turn changes nothing: in every phase but `OfferSent`
/// the message is dropped and the phase kept.
pub proof fn lemma_stray_answer_ignored(p: LinkPhase)
    requires
        !(p is OfferSent),
    ensures
        phase_after_remote_answer(p) == p,
{
}

} // verus!
