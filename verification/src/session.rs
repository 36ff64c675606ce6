//! The session controller: one per client. It owns the map from remote url
//! to peer link, creating entries lazily on first reference, the self
//! identity set exactly once by `You`, and the chat log. Every outbound
//! relay envelope is stamped with the self identity and refused with a
//! missing-identity error before it is assigned.

use vstd::prelude::*;

use crate::peer::{
    phase_after_remote_answer, phase_after_remote_offer, LinkPhase, PeerLink,
};
use crate::protocol::{
    envelopes_model, ClientMessage, ClientMessageModel, Envelope, EnvelopeModel, PeerMessage,
    PeerMessageModel,
};
use crate::text::chars_of;

verus! {

/// A protocol violation the session reports and survives.
#[derive(Debug, Clone, Copy, PartialEq, Eq)]
pub enum SessionError {
    /// A second `You` arrived; the identity is set exactly once.
    RedundantYou,
    /// An outbound relay was attempted before the identity arrived.
    MissingYou,
}

/// Who wrote a chat line.
#[derive(Debug, Clone, Copy, PartialEq, Eq)]
pub enum ChatSource {
    Me,
    SomeoneElse,
}

/// One chat line.
#[derive(Debug, PartialEq, Eq)]
pub struct ChatMessage {
    pub source: ChatSource,
    pub message: String,
}

/// The mathematical value of one chat record.
pub struct ChatRecordModel {
    pub id: u64,
    pub source: ChatSource,
    pub text: Seq<char>,
}

/// The model of the raw chat entries.
pub open spec fn chat_records_model(v: Seq<(u64, ChatMessage)>) -> Seq<ChatRecordModel> {
    v.map(
        |i: int, p: (u64, ChatMessage)|
            ChatRecordModel { id: p.0, source: p.1.source, text: p.1.message@ },
    )
}

/// The chat log: lines under an incrementing display id.
pub struct ChatLog {
    next_id: u64,
    log: Vec<(u64, ChatMessage)>,
}

impl ChatLog {
    /// The recorded lines, oldest first.
    pub closed spec fn model(self) -> Seq<ChatRecordModel> {
        chat_records_model(self.log@)
    }

    /// The next id is always the number of lines recorded so far.
    pub closed spec fn wf(self) -> bool {
        self.next_id == self.log@.len()
    }

    /// An empty log.
    pub fn new() -> (l: ChatLog)
        ensures
            l.wf(),
            l.model() == Seq::<ChatRecordModel>::empty(),
    {
        let l = ChatLog { next_id: 0, log: Vec::new() };
        proof {
            assert(l.model() =~= Seq::<ChatRecordModel>::empty());
        }
        l
    }

    /// Append a line under the next display id.
    pub fn add(&mut self, message: ChatMessage)
        requires
            old(self).wf(),
        ensures
            final(self).wf(),
            final(self).model() == old(self).model().push(
                ChatRecordModel {
                    id: old(self).model().len() as u64,
                    source: message.source,
                    text: message.message@,
                },
            ),
    {
        let ghost pre = self.model();
        let id = self.next_id;
        let ghost src = message.source;
        let ghost txt = message.message@;
        self.log.push((id, message));
        self.next_id = self.log.len() as u64;
        proof {
            assert(self.log@.len() <= u64::MAX);
            assert(self.model() =~= pre.push(ChatRecordModel { id, source: src, text: txt }));
        }
    }

    /// The raw entries, for rendering.
    pub fn records(&self) -> (r: &Vec<(u64, ChatMessage)>)
        ensures
            chat_records_model(r@) == self.model(),
    {
        &self.log
    }
}

/// One tracked remote peer: its callback url, a display id for stable
/// ordering, the negotiation link, and whether inbound media has arrived.
pub struct PeerEntry {
    pub url: String,
    pub id: u64,
    pub link: PeerLink,
    pub has_media: bool,
}

/// The mathematical value of one peer entry.
pub struct PeerEntryModel {
    pub url: Seq<char>,
    pub id: u64,
    pub phase: LinkPhase,
    pub has_media: bool,
}

impl View for PeerEntry {
    type V = PeerEntryModel;

    open spec fn view(&self) -> PeerEntryModel {
        PeerEntryModel {
            url: self.url@,
            id: self.id,
            phase: self.link.phase(),
            has_media: self.has_media,
        }
    }
}

/// The model of the peer map, in creation order.
pub open spec fn entries_model(v: Seq<PeerEntry>) -> Seq<PeerEntryModel> {
    v.map(|i: int, e: PeerEntry| e@)
}

/// The model reads entry by entry.
pub broadcast proof fn lemma_entries_model_index(v: Seq<PeerEntry>, i: int)
    requires
        0 <= i < v.len(),
    ensures
        #[trigger] entries_model(v)[i] == v[i]@,
{
}

/// The model keeps the length.
pub broadcast proof fn lemma_entries_model_len(v: Seq<PeerEntry>)
    ensures
        #[trigger] entries_model(v).len() == v.len(),
{
}

/// The display id counter after one assignment.
pub open spec fn bumped(n: u64) -> u64 {
    if n < u64::MAX {
        (n + 1) as u64
    } else {
        n
    }
}

/// Whether every character of `s` is whitespace, so that trimming would
/// leave nothing.
pub open spec fn is_blank(s: Seq<char>) -> bool {
    forall|i: int| 0 <= i < s.len() ==> is_space_char(#[trigger] s[i])
}

/// A whitespace character: the characters with the Unicode `White_Space`
/// property, the set `char::is_whitespace` counts.
pub open spec fn is_space_char(c: char) -> bool {
    let n = c as u32;
    ||| n == 0x09
    ||| n == 0x0A
    ||| n == 0x0B
    ||| n == 0x0C
    ||| n == 0x0D
    ||| n == 0x20
    ||| n == 0x85
    ||| n == 0xA0
    ||| n == 0x1680
    ||| (0x2000 <= n && n <= 0x200A)
    ||| n == 0x2028
    ||| n == 0x2029
    ||| n == 0x202F
    ||| n == 0x205F
    ||| n == 0x3000
}

/// The whitespace test, at run time.
fn space_char(c: char) -> (r: bool)
    ensures
        r == is_space_char(c),
{
    let n = c as u32;
    n == 0x09 || n == 0x0A || n == 0x0B || n == 0x0C || n == 0x0D || n == 0x20 || n == 0x85
        || n == 0xA0 || n == 0x1680 || (0x2000 <= n && n <= 0x200A) || n == 0x2028 || n == 0x2029
        || n == 0x202F || n == 0x205F || n == 0x3000
}

pub struct Session {
    me: Option<String>,
    peers: Vec<PeerEntry>,
    next_id: u64,
    chat: ChatLog,
}

/// Identity, peer map, display counter and chat all read the same.
pub open spec fn session_unchanged(pre: Session, post: Session) -> bool {
    &&& post.me_model() == pre.me_model()
    &&& post.peers_model() == pre.peers_model()
    &&& post.next_display_id() == pre.next_display_id()
    &&& post.chat_model() == pre.chat_model()
}

/// A fresh entry for `u` was appended in phase `phase` under the next
/// display id; identity and chat are untouched.
pub open spec fn appended_entry(
    pre: Session,
    post: Session,
    u: Seq<char>,
    phase: LinkPhase,
) -> bool {
    &&& post.peers_model() == pre.peers_model().push(
        PeerEntryModel { url: u, id: pre.next_display_id(), phase, has_media: false },
    )
    &&& post.next_display_id() == bumped(pre.next_display_id())
    &&& post.me_model() == pre.me_model()
    &&& post.chat_model() == pre.chat_model()
}

/// The relay envelope answering an offer from `from`.
pub open spec fn answer_env(me: Seq<char>, from: Seq<char>, sdp: Seq<char>) -> EnvelopeModel {
    EnvelopeModel {
        to: from,
        message: ClientMessageModel::Peer { url: me, message: PeerMessageModel::Answer { sdp } },
    }
}

/// The relay envelope offering to a peer just added.
pub open spec fn offer_env(me: Seq<char>, to: Seq<char>, sdp: Seq<char>) -> EnvelopeModel {
    EnvelopeModel {
        to,
        message: ClientMessageModel::Peer { url: me, message: PeerMessageModel::Offer { sdp } },
    }
}

/// The chat fan-out: one relay envelope per tracked peer, in map order.
pub open spec fn chat_envs(
    peers: Seq<PeerEntryModel>,
    me: Seq<char>,
    text: Seq<char>,
) -> Seq<EnvelopeModel> {
    peers.map(
        |i: int, e: PeerEntryModel|
            EnvelopeModel {
                to: e.url,
                message: ClientMessageModel::Peer {
                    url: me,
                    message: PeerMessageModel::Chat { message: text },
                },
            },
    )
}

/// What handling `Add` produced.
#[derive(Debug, PartialEq, Eq)]
pub enum AddOutcome {
    /// The url is already tracked; the event is dropped.
    AlreadyKnown,
    /// The offer could not be relayed: no identity yet.
    MissingIdentity,
    /// The offer to deliver to the new peer.
    Offer(Envelope),
}

/// What handling a relayed negotiation message produced.
#[derive(Debug, PartialEq, Eq)]
pub enum RelayOutcome {
    /// The reply to deliver.
    Reply(Envelope),
    /// The message was out of turn and dropped, the link untouched.
    Dropped,
    /// The reply could not be relayed: no identity yet.
    MissingIdentity,
}

/// What handling `Add` does: a url already tracked is dropped; an
/// untracked url is appended in `OfferSent` and the offer relayed to it —
/// the relay refused with missing-identity before `You` has arrived.
pub open spec fn add_effect(
    pre: Session,
    post: Session,
    url: Seq<char>,
    offer_sdp: Seq<char>,
    r: AddOutcome,
) -> bool {
    match r {
        AddOutcome::AlreadyKnown => {
            &&& pre.has_peer(url)
            &&& session_unchanged(pre, post)
        },
        AddOutcome::MissingIdentity => {
            &&& !pre.has_peer(url)
            &&& pre.me_model() is None
            &&& appended_entry(pre, post, url, LinkPhase::OfferSent)
        },
        AddOutcome::Offer(env) => {
            &&& !pre.has_peer(url)
            &&& pre.me_model() is Some
            &&& appended_entry(pre, post, url, LinkPhase::OfferSent)
            &&& env@ == offer_env(
                match pre.me_model() {
                    Some(m) => m,
                    None => Seq::empty(),
                },
                url,
                offer_sdp,
            )
        },
    }
}

/// What handling a relayed `Offer` does: a url in phase `New`, created
/// lazily when untracked, moves to `AnswerSent` and the answer is relayed
/// back — refused with missing-identity before `You` — while any other
/// phase drops the message unchanged.
pub open spec fn offer_effect(
    pre: Session,
    post: Session,
    from: Seq<char>,
    answer_sdp: Seq<char>,
    r: RelayOutcome,
) -> bool {
    &&& post.me_model() == pre.me_model()
    &&& post.chat_model() == pre.chat_model()
    &&& if pre.has_peer(from) {
        if pre.phase_of(from) is New {
            &&& post.peers_model() == pre.peers_model().update(
                pre.peer_index(from),
                PeerEntryModel {
                    phase: LinkPhase::AnswerSent,
                    ..pre.peers_model()[pre.peer_index(from)]
                },
            )
            &&& post.next_display_id() == pre.next_display_id()
        } else {
            &&& r == RelayOutcome::Dropped
            &&& session_unchanged(pre, post)
        }
    } else {
        appended_entry(pre, post, from, LinkPhase::AnswerSent)
    }
    &&& match r {
        RelayOutcome::Reply(env) => {
            &&& pre.me_model() is Some
            &&& (!pre.has_peer(from) || pre.phase_of(from) is New)
            &&& env@ == answer_env(
                match pre.me_model() {
                    Some(m) => m,
                    None => Seq::empty(),
                },
                from,
                answer_sdp,
            )
        },
        RelayOutcome::MissingIdentity => {
            &&& pre.me_model() is None
            &&& (!pre.has_peer(from) || pre.phase_of(from) is New)
        },
        RelayOutcome::Dropped => {
            &&& pre.has_peer(from)
            &&& !(pre.phase_of(from) is New)
        },
    }
}

impl Session {
    /// The self identity, once assigned.
    pub closed spec fn me_model(self) -> Option<Seq<char>> {
        match self.me {
            Some(u) => Some(u@),
            None => None,
        }
    }

    /// The tracked peers, in creation order.
    pub closed spec fn peers_model(self) -> Seq<PeerEntryModel> {
        entries_model(self.peers@)
    }

    /// The chat lines.
    pub closed spec fn chat_model(self) -> Seq<ChatRecordModel> {
        self.chat.model()
    }

    /// The display id the next new peer will get.
    pub closed spec fn next_display_id(self) -> u64 {
        self.next_id
    }

    /// Whether a url is tracked.
    pub open spec fn has_peer(self, u: Seq<char>) -> bool {
        exists|i: int|
            0 <= i < self.peers_model().len() && (#[trigger] self.peers_model()[i]).url == u
    }

    /// The index of a tracked url.
    pub open spec fn peer_index(self, u: Seq<char>) -> int {
        choose|i: int|
            0 <= i < self.peers_model().len() && (#[trigger] self.peers_model()[i]).url == u
    }

    /// The link phase of a tracked url.
    pub open spec fn phase_of(self, u: Seq<char>) -> LinkPhase {
        self.peers_model()[self.peer_index(u)].phase
    }

    /// Well-formedness: tracked urls are distinct and the chat log counter
    /// agrees with its length.
    pub closed spec fn wf(self) -> bool {
        &&& forall|i: int, j: int|
            0 <= i < j < self.peers_model().len() ==> (#[trigger] self.peers_model()[i]).url != (
            #[trigger] self.peers_model()[j]).url
        &&& self.chat.wf()
    }

    /// Tracked urls never repeat: each url names at most one entry, so
    /// `peer_index` and `phase_of` denote the entry a handler touched.
    pub proof fn lemma_peers_distinct(self)
        requires
            self.wf(),
        ensures
            forall|i: int, j: int|
                0 <= i < j < self.peers_model().len() ==> (#[trigger] self.peers_model()[i]).url
                    != (#[trigger] self.peers_model()[j]).url,
    {
    }

    proof fn lemma_peer_index_is(self, u: Seq<char>, i: int)
        requires
            self.wf(),
            0 <= i < self.peers_model().len(),
            self.peers_model()[i].url == u,
        ensures
            self.has_peer(u),
            self.peer_index(u) == i,
    {
        assert(self.has_peer(u));
        let i2 = self.peer_index(u);
        if i2 < i {
            assert(self.peers_model()[i2].url != self.peers_model()[i].url);
        } else if i2 > i {
            assert(self.peers_model()[i].url != self.peers_model()[i2].url);
        }
    }

    /// A fresh session: no identity, no peers, no chat.
    pub fn new_session() -> (s: Session)
        ensures
            s.wf(),
            s.me_model() is None,
            s.peers_model() == Seq::<PeerEntryModel>::empty(),
            s.next_display_id() == 0,
            s.chat_model() == Seq::<ChatRecordModel>::empty(),
    {
        let s = Session { me: None, peers: Vec::new(), next_id: 0, chat: ChatLog::new() };
        proof {
            assert(s.peers_model() =~= Seq::<PeerEntryModel>::empty());
        }
        s
    }

    /// The assigned identity, for the caller's own use.
    pub fn identity(&self) -> (r: Option<String>)
        ensures
            match r {
                Some(u) => self.me_model() == Some(u@),
                None => self.me_model() is None,
            },
    {
        match &self.me {
            Some(u) => Some(u.clone()),
            None => None,
        }
    }

    /// The chat log.
    pub fn chat(&self) -> (r: &ChatLog)
        ensures
            r.model() == self.chat_model(),
    {
        &self.chat
    }

    /// How many peers are tracked.
    pub fn peer_count(&self) -> (n: usize)
        ensures
            n == self.peers_model().len(),
    {
        proof {
            broadcast use lemma_entries_model_len;

        }
        self.peers.len()
    }

    /// Each tracked peer's url, display id and whether inbound media has
    /// arrived, in creation order — what a renderer needs to rebuild its
    /// tiles.
    pub fn peer_summaries(&self) -> (v: Vec<(String, u64, bool)>)
        ensures
            v@.len() == self.peers_model().len(),
            forall|i: int|
                0 <= i < v@.len() ==> {
                    let e = #[trigger] v@[i];
                    &&& e.0@ == self.peers_model()[i].url
                    &&& e.1 == self.peers_model()[i].id
                    &&& e.2 == self.peers_model()[i].has_media
                },
    {
        broadcast use lemma_entries_model_index, lemma_entries_model_len;

        let mut out: Vec<(String, u64, bool)> = Vec::new();
        let mut i: usize = 0;
        while i < self.peers.len()
            invariant
                i <= self.peers@.len(),
                out@.len() == i,
                forall|l: int|
                    0 <= l < i ==> {
                        let e = #[trigger] out@[l];
                        &&& e.0@ == self.peers_model()[l].url
                        &&& e.1 == self.peers_model()[l].id
                        &&& e.2 == self.peers_model()[l].has_media
                    },
            decreases self.peers@.len() - i,
        {
            proof {
                broadcast use lemma_entries_model_index, lemma_entries_model_len;

            }
            out.push((self.peers[i].url.clone(), self.peers[i].id, self.peers[i].has_media));
            i = i + 1;
        }
        out
    }

    /// The link phase of a tracked url, or `None`.
    pub fn link_phase(&self, url: &String) -> (r: Option<LinkPhase>)
        requires
            self.wf(),
        ensures
            match r {
                Some(p) => self.has_peer(url@) && p == self.phase_of(url@),
                None => !self.has_peer(url@),
            },
    {
        broadcast use lemma_entries_model_index, lemma_entries_model_len;

        match self.find_peer(url) {
            Some(i) => {
                proof {
                    self.lemma_peer_index_is(url@, i as int);
                }
                Some(self.peers[i].link.current_phase())
            },
            None => None,
        }
    }

    fn find_peer(&self, url: &String) -> (r: Option<usize>)
        ensures
            match r {
                Some(i) => i < self.peers_model().len() && i < self.peers@.len()
                    && self.peers_model()[i as int].url == url@,
                None => !self.has_peer(url@),
            },
    {
        broadcast use lemma_entries_model_index, lemma_entries_model_len;

        let mut i: usize = 0;
        while i < self.peers.len()
            invariant
                i <= self.peers@.len(),
                forall|l: int| 0 <= l < i ==> (#[trigger] self.peers_model()[l]).url != url@,
            decreases self.peers@.len() - i,
        {
            proof {
                broadcast use lemma_entries_model_index, lemma_entries_model_len;

            }
            if self.peers[i].url == *url {
                return Some(i);
            }
            i = i + 1;
        }
        None
    }

    fn push_new_entry(&mut self, url: &String)
        requires
            old(self).wf(),
            !old(self).has_peer(url@),
        ensures
            final(self).wf(),
            appended_entry(*old(self), *final(self), url@, LinkPhase::New),
    {
        broadcast use lemma_entries_model_index, lemma_entries_model_len;

        let id = self.next_id;
        if self.next_id < u64::MAX {
            self.next_id = self.next_id + 1;
        }
        self.peers.push(
            PeerEntry { url: url.clone(), id, link: PeerLink::new_link(), has_media: false },
        );
        proof {
            assert(self.peers_model() =~= old(self).peers_model().push(
                PeerEntryModel { url: url@, id, phase: LinkPhase::New, has_media: false },
            ));
        }
    }

    /// The index of `url`'s entry, created lazily in phase `New` when the
    /// url was not yet tracked.
    fn ensure_peer(&mut self, url: &String) -> (i: usize)
        requires
            old(self).wf(),
        ensures
            final(self).wf(),
            i < final(self).peers@.len(),
            final(self).peers@.len() == final(self).peers_model().len(),
            final(self).peers_model()[i as int].url == url@,
            final(self).peer_index(url@) == i as int,
            final(self).has_peer(url@),
            if old(self).has_peer(url@) {
                &&& i == old(self).peer_index(url@)
                &&& session_unchanged(*old(self), *final(self))
            } else {
                &&& i == old(self).peers_model().len()
                &&& appended_entry(*old(self), *final(self), url@, LinkPhase::New)
            },
    {
        broadcast use lemma_entries_model_index, lemma_entries_model_len;

        match self.find_peer(url) {
            Some(i) => {
                proof {
                    self.lemma_peer_index_is(url@, i as int);
                }
                i
            },
            None => {
                let ghost pre = *self;
                self.push_new_entry(url);
                proof {
                    assert(self.peers_model().len() == pre.peers_model().len() + 1);
                    assert(self.peers_model()[pre.peers_model().len() as int].url == url@);
                    self.lemma_peer_index_is(url@, pre.peers_model().len() as int);
                }
                let n = self.peers.len() - 1;
                n
            },
        }
    }

    /// `You`: set the identity, exactly once; a second assignment is the
    /// redundant-identity violation and changes nothing.
    pub fn on_you(&mut self, url: &String) -> (r: Result<(), SessionError>)
        requires
            old(self).wf(),
        ensures
            final(self).wf(),
            match r {
                Ok(()) => {
                    &&& old(self).me_model() is None
                    &&& final(self).me_model() == Some(url@)
                    &&& final(self).peers_model() == old(self).peers_model()
                    &&& final(self).next_display_id() == old(self).next_display_id()
                    &&& final(self).chat_model() == old(self).chat_model()
                },
                Err(e) => {
                    &&& e == SessionError::RedundantYou
                    &&& old(self).me_model() is Some
                    &&& session_unchanged(*old(self), *final(self))
                },
            },
    {
        match &self.me {
            Some(_) => Err(SessionError::RedundantYou),
            None => {
                self.me = Some(url.clone());
                Ok(())
            },
        }
    }

    /// `Add`: a url not yet tracked gets a fresh entry, its link sends the
    /// offer the engine produced, and the offer is relayed to it; a url
    /// already tracked is dropped. Without an identity the entry still
    /// appears, but the relay fails with the missing-identity violation.
    pub fn on_add(&mut self, url: &String, offer_sdp: &String) -> (r: AddOutcome)
        requires
            old(self).wf(),
        ensures
            final(self).wf(),
            add_effect(*old(self), *final(self), url@, offer_sdp@, r),
    {
        broadcast use lemma_entries_model_index, lemma_entries_model_len;

        match self.find_peer(url) {
            Some(i) => {
                proof {
                    self.lemma_peer_index_is(url@, i as int);
                }
                AddOutcome::AlreadyKnown
            },
            None => {
                let ghost pre = *self;
                self.push_new_entry(url);
                proof {
                    assert(self.peers_model().len() == pre.peers_model().len() + 1);
                }
                let ghost v1 = self.peers@;
                let n = self.peers.len() - 1;
                let mut entry = self.peers.remove(n);
                let msg = entry.link.start_offer(offer_sdp);
                let ghost e2 = entry;
                self.peers.insert(n, entry);
                proof {
                    assert(self.peers@ =~= v1.update(n as int, e2));
                    assert(entries_model(v1)[n as int] == v1[n as int]@);
                    assert(e2@ == PeerEntryModel {
                        url: url@,
                        id: pre.next_display_id(),
                        phase: LinkPhase::OfferSent,
                        has_media: false,
                    });
                    let m2 = PeerEntryModel {
                        url: url@,
                        id: pre.next_display_id(),
                        phase: LinkPhase::OfferSent,
                        has_media: false,
                    };
                    assert forall|l: int|
                        0 <= l < self.peers@.len() implies entries_model(self.peers@)[l]
                        == pre.peers_model().push(m2)[l] by {
                        assert(entries_model(v1)[l] == v1[l]@);
                        if l < n as int {
                            assert(self.peers@[l] == v1[l]);
                        } else {
                            assert(self.peers@[l] == e2);
                        }
                    }
                    assert(self.peers_model() =~= pre.peers_model().push(m2));
                }
                match msg {
                    Some(m) => match &self.me {
                        Some(me) => AddOutcome::Offer(
                            Envelope {
                                to: url.clone(),
                                message: ClientMessage::Peer { url: me.clone(), message: m },
                            },
                        ),
                        None => AddOutcome::MissingIdentity,
                    },
                    None => AddOutcome::MissingIdentity,
                }
            },
        }
    }

    /// `Remove`: close the url's link and drop its entry; an unknown url
    /// changes nothing. The result says whether an entry was dropped, so
    /// the caller releases the engine handle exactly once.
    pub fn on_remove(&mut self, url: &String) -> (r: bool)
        requires
            old(self).wf(),
        ensures
            final(self).wf(),
            r == old(self).has_peer(url@),
            final(self).me_model() == old(self).me_model(),
            final(self).next_display_id() == old(self).next_display_id(),
            final(self).chat_model() == old(self).chat_model(),
            if old(self).has_peer(url@) {
                final(self).peers_model() == old(self).peers_model().remove(
                    old(self).peer_index(url@),
                )
            } else {
                final(self).peers_model() == old(self).peers_model()
            },
    {
        broadcast use lemma_entries_model_index, lemma_entries_model_len;

        match self.find_peer(url) {
            Some(i) => {
                proof {
                    self.lemma_peer_index_is(url@, i as int);
                }
                let mut entry = self.peers.remove(i);
                entry.link.close();
                proof {
                    assert(self.peers_model() =~= old(self).peers_model().remove(i as int));
                }
                true
            },
            None => false,
        }
    }

    /// A relayed `Offer`, with the answer the engine produced: a url in
    /// phase `New` (created lazily when unknown) moves to `AnswerSent` and
    /// the answer is relayed back; any other phase drops the offer.
    pub fn on_peer_offer(&mut self, from: &String, answer_sdp: &String) -> (r: RelayOutcome)
        requires
            old(self).wf(),
        ensures
            final(self).wf(),
            offer_effect(*old(self), *final(self), from@, answer_sdp@, r),
    {
        broadcast use lemma_entries_model_index, lemma_entries_model_len;

        let ghost pre = *self;
        let i = self.ensure_peer(from);
        let ghost mid = *self;
        let mut entry = self.peers.remove(i);
        let msg = entry.link.accept_offer(answer_sdp);
        self.peers.insert(i, entry);
        proof {
            assert(self.peers_model() =~= mid.peers_model().update(
                i as int,
                PeerEntryModel {
                    phase: phase_after_remote_offer(mid.peers_model()[i as int].phase),
                    ..mid.peers_model()[i as int]
                },
            ));
            if pre.has_peer(from@) {
                if pre.phase_of(from@) is New {
                } else {
                    assert(self.peers_model() =~= pre.peers_model());
                }
            } else {
                assert(self.peers_model() =~= pre.peers_model().push(
                    PeerEntryModel {
                        url: from@,
                        id: pre.next_display_id(),
                        phase: LinkPhase::AnswerSent,
                        has_media: false,
                    },
                ));
            }
        }
        match msg {
            Some(m) => match &self.me {
                Some(me) => RelayOutcome::Reply(
                    Envelope {
                        to: from.clone(),
                        message: ClientMessage::Peer { url: me.clone(), message: m },
                    },
                ),
                None => RelayOutcome::MissingIdentity,
            },
            None => RelayOutcome::Dropped,
        }
    }

    /// A relayed `Answer`: only the link that sent the offer connects, and
    /// the result tells the caller to apply the answer to the engine; any
    /// other phase (including a lazily created unknown url) drops it.
    pub fn on_peer_answer(&mut self, from: &String) -> (r: bool)
        requires
            old(self).wf(),
        ensures
            final(self).wf(),
            final(self).me_model() == old(self).me_model(),
            final(self).chat_model() == old(self).chat_model(),
            r == (old(self).has_peer(from@) && old(self).phase_of(from@) is OfferSent),
            if old(self).has_peer(from@) {
                &&& final(self).peers_model() == old(self).peers_model().update(
                    old(self).peer_index(from@),
                    PeerEntryModel {
                        phase: phase_after_remote_answer(old(self).phase_of(from@)),
                        ..old(self).peers_model()[old(self).peer_index(from@)]
                    },
                )
                &&& final(self).next_display_id() == old(self).next_display_id()
            } else {
                appended_entry(*old(self), *final(self), from@, LinkPhase::New)
            },
    {
        broadcast use lemma_entries_model_index, lemma_entries_model_len;

        let ghost pre = *self;
        let i = self.ensure_peer(from);
        let ghost mid = *self;
        let mut entry = self.peers.remove(i);
        let apply = entry.link.accept_answer();
        self.peers.insert(i, entry);
        proof {
            assert(self.peers_model() =~= mid.peers_model().update(
                i as int,
                PeerEntryModel {
                    phase: phase_after_remote_answer(mid.peers_model()[i as int].phase),
                    ..mid.peers_model()[i as int]
                },
            ));
            if pre.has_peer(from@) {
            } else {
                assert(self.peers_model() =~= pre.peers_model().push(
                    PeerEntryModel {
                        url: from@,
                        id: pre.next_display_id(),
                        phase: LinkPhase::New,
                        has_media: false,
                    },
                ));
            }
        }
        apply
    }

    /// A relayed `Candidate`: applied in every phase but `Closed`, since
    /// candidates trickle independently of the descriptions; an unknown url
    /// gets its entry lazily and accepts. The result says whether to apply
    /// the candidate to the engine.
    pub fn on_peer_candidate(&mut self, from: &String) -> (r: bool)
        requires
            old(self).wf(),
        ensures
            final(self).wf(),
            final(self).me_model() == old(self).me_model(),
            final(self).chat_model() == old(self).chat_model(),
            if old(self).has_peer(from@) {
                &&& r == !(old(self).phase_of(from@) is Closed)
                &&& session_unchanged(*old(self), *final(self))
            } else {
                &&& r == true
                &&& appended_entry(*old(self), *final(self), from@, LinkPhase::New)
            },
    {
        broadcast use lemma_entries_model_index, lemma_entries_model_len;

        let i = self.ensure_peer(from);
        let r = self.peers[i].link.accepts_candidate();
        r
    }

    /// A relayed `Chat` line from a peer: recorded as theirs; the sender
    /// gets its entry lazily like any other first reference.
    pub fn on_peer_chat(&mut self, from: &String, text: &String)
        requires
            old(self).wf(),
        ensures
            final(self).wf(),
            final(self).me_model() == old(self).me_model(),
            final(self).chat_model() == old(self).chat_model().push(
                ChatRecordModel {
                    id: old(self).chat_model().len() as u64,
                    source: ChatSource::SomeoneElse,
                    text: text@,
                },
            ),
            if old(self).has_peer(from@) {
                &&& final(self).peers_model() == old(self).peers_model()
                &&& final(self).next_display_id() == old(self).next_display_id()
            } else {
                &&& final(self).peers_model() == old(self).peers_model().push(
                    PeerEntryModel {
                        url: from@,
                        id: old(self).next_display_id(),
                        phase: LinkPhase::New,
                        has_media: false,
                    },
                )
                &&& final(self).next_display_id() == bumped(old(self).next_display_id())
            },
    {
        broadcast use lemma_entries_model_index, lemma_entries_model_len;

        match self.find_peer(from) {
            Some(i) => {
                proof {
                    self.lemma_peer_index_is(from@, i as int);
                }
            },
            None => {
                self.push_new_entry(from);
            },
        }
        self.chat.add(ChatMessage { source: ChatSource::SomeoneElse, message: text.clone() });
    }

    /// Inbound media arrived for a url: note it, and say whether it is new,
    /// so the caller refreshes its rendering only then.
    pub fn on_remote_track(&mut self, url: &String) -> (r: bool)
        requires
            old(self).wf(),
        ensures
            final(self).wf(),
            final(self).me_model() == old(self).me_model(),
            final(self).chat_model() == old(self).chat_model(),
            final(self).next_display_id() == old(self).next_display_id(),
            if old(self).has_peer(url@) {
                &&& r == !old(self).peers_model()[old(self).peer_index(url@)].has_media
                &&& final(self).peers_model() == old(self).peers_model().update(
                    old(self).peer_index(url@),
                    PeerEntryModel {
                        has_media: true,
                        ..old(self).peers_model()[old(self).peer_index(url@)]
                    },
                )
            } else {
                &&& r == false
                &&& final(self).peers_model() == old(self).peers_model()
            },
    {
        broadcast use lemma_entries_model_index, lemma_entries_model_len;

        match self.find_peer(url) {
            Some(i) => {
                proof {
                    self.lemma_peer_index_is(url@, i as int);
                }
                let mut entry = self.peers.remove(i);
                let fresh = !entry.has_media;
                entry.has_media = true;
                self.peers.insert(i, entry);
                proof {
                    assert(self.peers_model() =~= old(self).peers_model().update(
                        i as int,
                        PeerEntryModel {
                            has_media: true,
                            ..old(self).peers_model()[i as int]
                        },
                    ));
                }
                fresh
            },
            None => false,
        }
    }

    /// A local candidate event from the engine: the relay envelope for it,
    /// or the missing-identity violation before `You` arrived.
    pub fn candidate_envelope(
        &self,
        to: &String,
        candidate: &String,
        sdp_mid: &Option<String>,
        sdp_m_line_index: Option<u16>,
    ) -> (r: Result<Envelope, SessionError>)
        ensures
            match r {
                Ok(env) => self.me_model() is Some && env@ == (EnvelopeModel {
                    to: to@,
                    message: ClientMessageModel::Peer {
                        url: match self.me_model() {
                            Some(m) => m,
                            None => Seq::empty(),
                        },
                        message: PeerMessageModel::Candidate {
                            candidate: candidate@,
                            sdp_mid: match sdp_mid {
                                Some(m) => Some(m@),
                                None => None,
                            },
                            sdp_m_line_index,
                        },
                    },
                }),
                Err(e) => e == SessionError::MissingYou && self.me_model() is None,
            },
    {
        match &self.me {
            None => Err(SessionError::MissingYou),
            Some(me) => {
                let mid = match sdp_mid {
                    Some(m) => Some(m.clone()),
                    None => None,
                };
                Ok(
                    Envelope {
                        to: to.clone(),
                        message: ClientMessage::Peer {
                            url: me.clone(),
                            message: PeerMessage::Candidate {
                                candidate: candidate.clone(),
                                sdp_mid: mid,
                                sdp_m_line_index,
                            },
                        },
                    },
                )
            },
        }
    }

    /// A locally typed chat line: a blank line is ignored whole; otherwise
    /// the line is logged as mine and fanned out to every tracked peer.
    /// Before the identity arrives the fan-out fails with missing-identity,
    /// though the line still reaches the local log.
    pub fn send_chat(&mut self, text: &String) -> (r: Result<Vec<Envelope>, SessionError>)
        requires
            old(self).wf(),
        ensures
            final(self).wf(),
            final(self).me_model() == old(self).me_model(),
            final(self).peers_model() == old(self).peers_model(),
            final(self).next_display_id() == old(self).next_display_id(),
            if is_blank(text@) {
                &&& r matches Ok(envs) && envs@.len() == 0
                &&& final(self).chat_model() == old(self).chat_model()
            } else {
                &&& final(self).chat_model() == old(self).chat_model().push(
                    ChatRecordModel {
                        id: old(self).chat_model().len() as u64,
                        source: ChatSource::Me,
                        text: text@,
                    },
                )
                &&& match r {
                    Ok(envs) => old(self).me_model() is Some && envelopes_model(envs@)
                        == chat_envs(
                        old(self).peers_model(),
                        match old(self).me_model() {
                            Some(m) => m,
                            None => Seq::empty(),
                        },
                        text@,
                    ),
                    Err(e) => e == SessionError::MissingYou && old(self).me_model() is None,
                }
            },
    {
        broadcast use lemma_entries_model_index, lemma_entries_model_len;

        let chars = chars_of(text.as_str());
        let mut bi: usize = 0;
        let mut blank = true;
        while bi < chars.len()
            invariant
                bi <= chars@.len(),
                chars@ == text@,
                blank == (forall|l: int| 0 <= l < bi ==> is_space_char(#[trigger] chars@[l])),
            decreases chars@.len() - bi,
        {
            let c = chars[bi];
            if !space_char(c) {
                blank = false;
            }
            bi = bi + 1;
        }
        if blank {
            proof {
                assert(is_blank(text@));
            }
            return Ok(Vec::new());
        }
        self.chat.add(ChatMessage { source: ChatSource::Me, message: text.clone() });
        let me = match &self.me {
            None => {
                return Err(SessionError::MissingYou);
            },
            Some(me) => me.clone(),
        };
        let mut envs: Vec<Envelope> = Vec::new();
        let ghost peers_snap = self.peers_model();
        let mut i: usize = 0;
        while i < self.peers.len()
            invariant
                i <= self.peers@.len(),
                self.peers_model() == peers_snap,
                self.peers@.len() == peers_snap.len(),
                me@ == (match old(self).me_model() {
                    Some(m) => m,
                    None => Seq::<char>::empty(),
                }),
                envelopes_model(envs@) == chat_envs(peers_snap, me@, text@).take(i as int),
            decreases self.peers@.len() - i,
        {
            proof {
                broadcast use lemma_entries_model_index, lemma_entries_model_len;

            }
            let ghost em = envelopes_model(envs@);
            envs.push(
                Envelope {
                    to: self.peers[i].url.clone(),
                    message: ClientMessage::Peer {
                        url: me.clone(),
                        message: PeerMessage::Chat { message: text.clone() },
                    },
                },
            );
            proof {
                assert(envelopes_model(envs@) =~= em.push(
                    EnvelopeModel {
                        to: peers_snap[i as int].url,
                        message: ClientMessageModel::Peer {
                            url: me@,
                            message: PeerMessageModel::Chat { message: text@ },
                        },
                    },
                ));
                assert(envelopes_model(envs@) =~= chat_envs(peers_snap, me@, text@).take(
                    i as int + 1,
                ));
            }
            i = i + 1;
        }
        proof {
            assert(chat_envs(peers_snap, me@, text@).take(peers_snap.len() as int) =~= chat_envs(
                peers_snap,
                me@,
                text@,
            ));
        }
        Ok(envs)
    }
}

/// The offer/answer exchange, in general. A session with its identity
/// assigned that sees an untracked url added moves that link to
/// `OfferSent` and relays exactly the offer; the answering session, its
/// link fresh, moves to `AnswerSent` and relays exactly the answer; and by
/// the machine's transition the offering link connects when that answer
/// comes back.
pub proof fn lemma_offer_exchange(
    sx0: Session,
    sx1: Session,
    sy0: Session,
    sy1: Session,
    x: Seq<char>,
    y: Seq<char>,
    offer_sdp: Seq<char>,
    answer_sdp: Seq<char>,
    rx: AddOutcome,
    ry: RelayOutcome,
)
    requires
        sx1.wf(),
        sy1.wf(),
        sx0.me_model() == Some(x),
        sy0.me_model() == Some(y),
        !sx0.has_peer(y),
        add_effect(sx0, sx1, y, offer_sdp, rx),
        !sy0.has_peer(x) || sy0.phase_of(x) is New,
        offer_effect(sy0, sy1, x, answer_sdp, ry),
    ensures
        rx matches AddOutcome::Offer(env) && env@ == offer_env(x, y, offer_sdp),
        sx1.has_peer(y) && sx1.phase_of(y) == LinkPhase::OfferSent,
        ry matches RelayOutcome::Reply(env2) && env2@ == answer_env(y, x, answer_sdp),
        sy1.has_peer(x) && sy1.phase_of(x) == LinkPhase::AnswerSent,
        phase_after_remote_answer(sx1.phase_of(y)) == LinkPhase::Connected,
{
    let n = sx0.peers_model().len();
    assert(sx1.peers_model()[n as int].url == y);
    sx1.lemma_peer_index_is(y, n as int);
    if sy0.has_peer(x) {
        let i = sy0.peer_index(x);
        assert(sy1.peers_model()[i].url == x);
        sy1.lemma_peer_index_is(x, i);
    } else {
        let m = sy0.peers_model().len();
        assert(sy1.peers_model()[m as int].url == x);
        sy1.lemma_peer_index_is(x, m as int);
    }
}

/// The base a client is reachable under: its scheme and host, with the
/// port only when one is given.
pub open spec fn client_base(hostname: Seq<char>, port: Seq<char>) -> Seq<char> {
    if port.len() == 0 {
        "https://"@ + hostname
    } else {
        "https://"@ + hostname + ":"@ + port
    }
}

/// The push-bridge address a session connects to, naming its own frame and
/// disconnect callbacks.
pub open spec fn websocket_url_of(
    bridge_host: Seq<char>,
    hostname: Seq<char>,
    port: Seq<char>,
) -> Seq<char> {
    "wss://"@ + bridge_host + "/connect?f="@ + client_base(hostname, port) + "/frame&d="@
        + client_base(hostname, port) + "/disconnect"@
}

/// The address of the push bridge for a client at `hostname` and `port`
/// (empty for the default), connecting through `bridge_host`.
pub fn websocket_url(bridge_host: &str, hostname: &str, port: &str) -> (r: String)
    ensures
        r@ == websocket_url_of(bridge_host@, hostname@, port@),
{
    let mut base = String::new();
    base.append("https://");
    base.append(hostname);
    if !port.is_empty() {
        base.append(":");
        base.append(port);
    }
    proof {
        assert(base@ =~= client_base(hostname@, port@));
    }
    let mut out = String::new();
    out.append("wss://");
    out.append(bridge_host);
    out.append("/connect?f=");
    out.append(base.as_str());
    out.append("/frame&d=");
    out.append(base.as_str());
    out.append("/disconnect");
    proof {
        assert(out@ =~= websocket_url_of(bridge_host@, hostname@, port@));
    }
    out
}

} // verus!
