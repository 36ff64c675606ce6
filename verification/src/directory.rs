//! The presence directory: join, leave and relay atop the membership store,
//! with self-healing eviction. The directory never pushes a message itself;
//! it queues envelopes in a first-in-first-out outbox, the caller attempts
//! each delivery, and a delivery that reports the peer gone evicts the peer,
//! which queues the matching `Remove` broadcast in turn.

use vstd::prelude::*;

use crate::codec::{dec_server, decode_server};
use crate::protocol::{
    envelopes_model, ClientMessage, ClientMessageModel, Envelope, EnvelopeModel, PeerMessage,
    ServerMessage, ServerMessageModel,
};
use crate::store::{names_model, remove_one, MembershipStore};

verus! {

/// How a join request was disposed of.
#[derive(Debug, Clone, Copy, PartialEq, Eq)]
pub enum JoinOutcome {
    /// The url was registered and the room told.
    Joined,
    /// The url is already registered in a room; membership may not be
    /// duplicated, so the request is refused untouched.
    AlreadyJoined,
    /// An empty room name is the caller's "not ready yet" sentinel.
    EmptyRoom,
}

/// What the push transport reported for one delivery attempt.
#[derive(Debug, Clone, Copy, PartialEq, Eq)]
pub enum DeliveryStatus {
    Delivered,
    /// The peer's push channel is gone: the peer is evicted.
    NotFound,
    /// Any other transport failure: the send is dropped, nothing else.
    ChannelError,
}

/// The identity assignment a joining peer receives.
pub open spec fn you_env(u: Seq<char>) -> EnvelopeModel {
    EnvelopeModel { to: u, message: ClientMessageModel::You { url: u } }
}

/// The `Add` broadcast: one envelope per prior member, in member order.
pub open spec fn add_envs(u: Seq<char>, members: Seq<Seq<char>>) -> Seq<EnvelopeModel> {
    members.map(
        |i: int, m: Seq<char>| EnvelopeModel { to: m, message: ClientMessageModel::Add { url: u } },
    )
}

/// The `Remove` broadcast: one envelope per remaining member, in member
/// order.
pub open spec fn remove_envs(u: Seq<char>, members: Seq<Seq<char>>) -> Seq<EnvelopeModel> {
    members.map(
        |i: int, m: Seq<char>|
            EnvelopeModel { to: m, message: ClientMessageModel::Remove { url: u } },
    )
}

/// Everything a successful join queues: the identity assignment first, then
/// the `Add` broadcast to the members the room had before.
pub open spec fn join_msgs(u: Seq<char>, members: Seq<Seq<char>>) -> Seq<EnvelopeModel> {
    seq![you_env(u)] + add_envs(u, members)
}

/// The relay envelope: the payload forwarded verbatim to `to`, stamped with
/// the sender.
pub open spec fn peer_env(
    from: Seq<char>,
    to: Seq<char>,
    m: crate::protocol::PeerMessageModel,
) -> EnvelopeModel {
    EnvelopeModel { to, message: ClientMessageModel::Peer { url: from, message: m } }
}

pub struct Directory {
    store: MembershipStore,
    outbox: Vec<Envelope>,
}

/// Both indexes read the same in `pre` and `post`.
pub open spec fn membership_unchanged(pre: Directory, post: Directory) -> bool {
    &&& forall|u: Seq<char>| #[trigger] post.room_of(u) == pre.room_of(u)
    &&& forall|r: Seq<char>| #[trigger] post.members_of(r) == pre.members_of(r)
}

/// Nothing observable changed: membership and outbox alike.
pub open spec fn dir_unchanged(pre: Directory, post: Directory) -> bool {
    &&& membership_unchanged(pre, post)
    &&& post.outbox_model() == pre.outbox_model()
}

/// What `join` does: nothing on the empty-room sentinel; nothing when the
/// url is already registered; otherwise the url is appended to the room,
/// every other index entry is untouched, and the outbox gains the identity
/// assignment followed by the `Add` broadcast to the prior members.
pub open spec fn join_effect(
    pre: Directory,
    post: Directory,
    u: Seq<char>,
    room: Seq<char>,
    r: JoinOutcome,
) -> bool {
    if room.len() == 0 {
        r == JoinOutcome::EmptyRoom && dir_unchanged(pre, post)
    } else if pre.room_of(u) is Some {
        r == JoinOutcome::AlreadyJoined && dir_unchanged(pre, post)
    } else {
        &&& r == JoinOutcome::Joined
        &&& post.room_of(u) == Some(room)
        &&& forall|u2: Seq<char>| u2 != u ==> #[trigger] post.room_of(u2) == pre.room_of(u2)
        &&& post.members_of(room) == pre.members_of(room).push(u)
        &&& forall|r2: Seq<char>|
            r2 != room ==> #[trigger] post.members_of(r2) == pre.members_of(r2)
        &&& post.outbox_model() == pre.outbox_model() + join_msgs(u, pre.members_of(room))
    }
}

/// What `leave` does: nothing when the url has no room (no broadcast
/// either); otherwise both index entries are cleared, every other entry is
/// untouched, and the outbox gains the `Remove` broadcast to the remaining
/// members.
pub open spec fn leave_effect(
    pre: Directory,
    post: Directory,
    u: Seq<char>,
    r: Option<Seq<char>>,
) -> bool {
    match r {
        None => pre.room_of(u) is None && dir_unchanged(pre, post),
        Some(room) => {
            &&& pre.room_of(u) == Some(room)
            &&& post.room_of(u) is None
            &&& forall|u2: Seq<char>| u2 != u ==> #[trigger] post.room_of(u2) == pre.room_of(u2)
            &&& post.members_of(room) == remove_one(pre.members_of(room), u)
            &&& forall|r2: Seq<char>|
                r2 != room ==> #[trigger] post.members_of(r2) == pre.members_of(r2)
            &&& post.outbox_model() == pre.outbox_model() + remove_envs(
                u,
                post.members_of(room),
            )
        },
    }
}

impl Directory {
    /// The room a url is registered in, by the reverse index.
    pub closed spec fn room_of(self, u: Seq<char>) -> Option<Seq<char>> {
        self.store.room_of(u)
    }

    /// The member urls of a room, in join order.
    pub closed spec fn members_of(self, r: Seq<char>) -> Seq<Seq<char>> {
        self.store.members_of(r)
    }

    /// Whether a url appears in a room's member set.
    pub open spec fn in_room(self, r: Seq<char>, u: Seq<char>) -> bool {
        self.members_of(r).contains(u)
    }

    /// The queued envelopes, oldest first.
    pub closed spec fn outbox_model(self) -> Seq<EnvelopeModel> {
        envelopes_model(self.outbox@)
    }

    /// Well-formedness of the underlying store.
    pub closed spec fn wf(self) -> bool {
        self.store.wf()
    }

    /// The consistency of the two indexes: a url stands in room `r`'s member
    /// set exactly when the reverse index maps it to `r`.
    pub proof fn lemma_indexes_consistent(self, r: Seq<char>, u: Seq<char>)
        requires
            self.wf(),
        ensures
            self.in_room(r, u) <==> self.room_of(u) == Some(r),
    {
        self.store.lemma_indexes_consistent(r, u);
    }

    /// The members of a room never repeat a url.
    pub proof fn lemma_members_distinct(self, r: Seq<char>)
        requires
            self.wf(),
        ensures
            forall|j: int, k: int|
                0 <= j < k < self.members_of(r).len() ==> self.members_of(r)[j]
                    != self.members_of(r)[k],
    {
        self.store.lemma_members_distinct(r);
    }

    /// An empty directory: no member anywhere, nothing queued.
    pub fn new() -> (d: Directory)
        ensures
            d.wf(),
            forall|u: Seq<char>| #[trigger] d.room_of(u) is None,
            forall|r: Seq<char>| #[trigger] d.members_of(r) == Seq::<Seq<char>>::empty(),
            d.outbox_model() == Seq::<EnvelopeModel>::empty(),
    {
        let d = Directory { store: MembershipStore::new(), outbox: Vec::new() };
        proof {
            assert(envelopes_model(d.outbox@) =~= Seq::<EnvelopeModel>::empty());
        }
        d
    }

    /// The room a url is registered in, or `None`.
    pub fn room_lookup(&self, url: &String) -> (r: Option<String>)
        requires
            self.wf(),
        ensures
            match r {
                Some(rm) => self.room_of(url@) == Some(rm@),
                None => self.room_of(url@) is None,
            },
    {
        self.store.room_lookup(url)
    }

    /// A copy of a room's member list, in join order.
    pub fn member_list(&self, room: &String) -> (v: Vec<String>)
        requires
            self.wf(),
        ensures
            names_model(v@) == self.members_of(room@),
    {
        self.store.members(room)
    }

    /// Register `url` in `room` and queue the identity assignment and the
    /// `Add` broadcast; refuse the empty-room sentinel and a url that is
    /// already registered somewhere.
    #[verifier::loop_isolation(false)]
    pub fn join(&mut self, url: &String, room: &String) -> (r: JoinOutcome)
        requires
            old(self).wf(),
        ensures
            final(self).wf(),
            join_effect(*old(self), *final(self), url@, room@, r),
    {
        if room.as_str().is_empty() {
            return JoinOutcome::EmptyRoom;
        }
        match self.store.room_lookup(url) {
            Some(_) => {
                return JoinOutcome::AlreadyJoined;
            },
            None => {},
        }
        let ghost pre_outbox = self.outbox_model();
        let ghost pre_members = self.store.members_of(room@);
        self.outbox.push(
            Envelope { to: url.clone(), message: ClientMessage::You { url: url.clone() } },
        );
        proof {
            assert(self.outbox_model() =~= pre_outbox.push(you_env(url@)));
        }
        let members = self.store.members(room);
        self.store.insert(url, room);
        let ghost mid_outbox = self.outbox_model();
        let ghost store_after = self.store;
        let mut mi: usize = 0;
        while mi < members.len()
            invariant
                mi <= members@.len(),
                self.store == store_after,
                self.outbox_model() == mid_outbox + add_envs(url@, pre_members.take(mi as int)),
            decreases members@.len() - mi,
        {
            let ghost ob = self.outbox_model();
            self.outbox.push(
                Envelope {
                    to: members[mi].clone(),
                    message: ClientMessage::Add { url: url.clone() },
                },
            );
            proof {
                assert(self.outbox_model() =~= ob.push(
                    EnvelopeModel {
                        to: pre_members[mi as int],
                        message: ClientMessageModel::Add { url: url@ },
                    },
                ));
                assert(self.outbox_model() =~= mid_outbox + add_envs(
                    url@,
                    pre_members.take(mi as int + 1),
                ));
            }
            mi = mi + 1;
        }
        proof {
            assert(pre_members.take(pre_members.len() as int) =~= pre_members);
            assert(self.outbox_model() =~= pre_outbox + join_msgs(url@, pre_members));
        }
        JoinOutcome::Joined
    }

    /// Clear `url`'s registration and queue the `Remove` broadcast to the
    /// remaining members; a url with no room is a no-op with no broadcast.
    #[verifier::loop_isolation(false)]
    pub fn leave(&mut self, url: &String) -> (r: Option<String>)
        requires
            old(self).wf(),
        ensures
            final(self).wf(),
            leave_effect(
                *old(self),
                *final(self),
                url@,
                match r {
                    Some(rm) => Some(rm@),
                    None => None,
                },
            ),
    {
        let room = match self.store.remove(url) {
            None => {
                return None;
            },
            Some(room) => room,
        };
        let ghost pre_outbox = self.outbox_model();
        let ghost remaining = self.store.members_of(room@);
        let members = self.store.members(&room);
        let ghost store_after = self.store;
        let mut mi: usize = 0;
        while mi < members.len()
            invariant
                mi <= members@.len(),
                self.store == store_after,
                self.outbox_model() == pre_outbox + remove_envs(url@, remaining.take(mi as int)),
            decreases members@.len() - mi,
        {
            let ghost ob = self.outbox_model();
            self.outbox.push(
                Envelope {
                    to: members[mi].clone(),
                    message: ClientMessage::Remove { url: url.clone() },
                },
            );
            proof {
                assert(self.outbox_model() =~= ob.push(
                    EnvelopeModel {
                        to: remaining[mi as int],
                        message: ClientMessageModel::Remove { url: url@ },
                    },
                ));
                assert(self.outbox_model() =~= pre_outbox + remove_envs(
                    url@,
                    remaining.take(mi as int + 1),
                ));
            }
            mi = mi + 1;
        }
        proof {
            assert(remaining.take(remaining.len() as int) =~= remaining);
        }
        Some(room)
    }

    /// Queue the relay envelope: the payload is forwarded verbatim to `to`,
    /// never inspected, never stored in the indexes.
    pub fn relay(&mut self, from: &String, to: &String, message: PeerMessage)
        requires
            old(self).wf(),
        ensures
            final(self).wf(),
            membership_unchanged(*old(self), *final(self)),
            final(self).outbox_model() == old(self).outbox_model().push(
                peer_env(from@, to@, message@),
            ),
    {
        let ghost ob = self.outbox_model();
        self.outbox.push(
            Envelope {
                to: to.clone(),
                message: ClientMessage::Peer { url: from.clone(), message },
            },
        );
        proof {
            assert(self.outbox_model() =~= ob.push(peer_env(from@, to@, message@)));
        }
    }

    /// Hand out the oldest queued envelope, so each member's own stream
    /// keeps send order.
    pub fn next_outgoing(&mut self) -> (r: Option<Envelope>)
        requires
            old(self).wf(),
        ensures
            final(self).wf(),
            membership_unchanged(*old(self), *final(self)),
            match r {
                None => {
                    &&& old(self).outbox_model().len() == 0
                    &&& final(self).outbox_model() == old(self).outbox_model()
                },
                Some(e) => {
                    &&& old(self).outbox_model().len() > 0
                    &&& e@ == old(self).outbox_model()[0]
                    &&& final(self).outbox_model() == old(self).outbox_model().drop_first()
                },
            },
    {
        if self.outbox.len() == 0 {
            None
        } else {
            let e = self.outbox.remove(0);
            proof {
                assert(self.outbox_model() =~= old(self).outbox_model().drop_first());
            }
            Some(e)
        }
    }

    /// Take the transport's verdict on one delivery back. A peer whose
    /// channel reports not-found is evicted on the spot; any other failure
    /// drops that one send and touches nothing.
    pub fn report_delivery(&mut self, url: &String, status: DeliveryStatus) -> (r: Option<String>)
        requires
            old(self).wf(),
        ensures
            final(self).wf(),
            match status {
                DeliveryStatus::NotFound => leave_effect(
                    *old(self),
                    *final(self),
                    url@,
                    match r {
                        Some(rm) => Some(rm@),
                        None => None,
                    },
                ),
                _ => r is None && dir_unchanged(*old(self), *final(self)),
            },
    {
        match status {
            DeliveryStatus::NotFound => self.leave(url),
            _ => None,
        }
    }
}

/// The shape of a request at the directory's push surface, as far as the
/// routing cares.
#[derive(Debug, Clone, Copy, PartialEq, Eq)]
pub enum HttpMethod {
    Get,
    Post,
    Other,
}

/// What the directory answers: an empty success, a static asset to serve,
/// or a client error.
#[derive(Debug, Clone, PartialEq, Eq)]
pub enum GatewayResponse {
    NoContent,
    Asset { path: String },
    BadRequest,
}

/// The outcome a join request is bound to have, read off the state.
pub open spec fn join_outcome(pre: Directory, u: Seq<char>, room: Seq<char>) -> JoinOutcome {
    if room.len() == 0 {
        JoinOutcome::EmptyRoom
    } else if pre.room_of(u) is Some {
        JoinOutcome::AlreadyJoined
    } else {
        JoinOutcome::Joined
    }
}

/// What one request does to the directory. A join notification joins, a
/// keepalive does nothing, a disconnect leaves; a missing identity header
/// or an unreadable body is refused without touching any state; a read
/// serves the asset at the path.
pub open spec fn request_effect(
    pre: Directory,
    post: Directory,
    method: HttpMethod,
    path: Seq<char>,
    sender: Option<Seq<char>>,
    body: Option<Seq<char>>,
    r: GatewayResponse,
) -> bool {
    match method {
        HttpMethod::Post => {
            if path == "/frame"@ {
                match (sender, body) {
                    (Some(u), Some(b)) => match dec_server(b) {
                        Some(ServerMessageModel::Room { name }) => {
                            &&& join_effect(pre, post, u, name, join_outcome(pre, u, name))
                            &&& r == GatewayResponse::NoContent
                        },
                        Some(ServerMessageModel::Ping) => dir_unchanged(pre, post) && r
                            == GatewayResponse::NoContent,
                        None => dir_unchanged(pre, post) && r == GatewayResponse::BadRequest,
                    },
                    _ => dir_unchanged(pre, post) && r == GatewayResponse::BadRequest,
                }
            } else if path == "/disconnect"@ {
                match sender {
                    Some(u) => leave_effect(pre, post, u, pre.room_of(u)) && r
                        == GatewayResponse::NoContent,
                    None => dir_unchanged(pre, post) && r == GatewayResponse::BadRequest,
                }
            } else {
                dir_unchanged(pre, post) && r == GatewayResponse::BadRequest
            }
        },
        HttpMethod::Get => dir_unchanged(pre, post) && (match r {
            GatewayResponse::Asset { path: rp } => rp@ == path,
            _ => false,
        }),
        HttpMethod::Other => dir_unchanged(pre, post) && r == GatewayResponse::BadRequest,
    }
}

impl Directory {
    /// Serve one request at the directory's surface: `Post /frame` takes a
    /// room-join notification or a keepalive, `Post /disconnect` clears the
    /// caller's registration, a read serves the asset at the path, and
    /// anything else — a missing identity, an unreadable body, an unknown
    /// route — is refused without touching the indexes.
    pub fn handle_request(
        &mut self,
        method: &HttpMethod,
        path: &String,
        sender: Option<&String>,
        body: Option<&String>,
    ) -> (r: GatewayResponse)
        requires
            old(self).wf(),
        ensures
            final(self).wf(),
            request_effect(
                *old(self),
                *final(self),
                *method,
                path@,
                match sender {
                    Some(u) => Some(u@),
                    None => None,
                },
                match body {
                    Some(b) => Some(b@),
                    None => None,
                },
                r,
            ),
    {
        match method {
            HttpMethod::Post => {
                if *path == String::from_str("/frame") {
                    match (sender, body) {
                        (Some(u), Some(b)) => match decode_server(b.as_str()) {
                            Some(ServerMessage::Room { name }) => {
                                self.join(u, &name);
                                GatewayResponse::NoContent
                            },
                            Some(ServerMessage::Ping) => GatewayResponse::NoContent,
                            None => GatewayResponse::BadRequest,
                        },
                        _ => GatewayResponse::BadRequest,
                    }
                } else if *path == String::from_str("/disconnect") {
                    match sender {
                        Some(u) => {
                            self.leave(u);
                            GatewayResponse::NoContent
                        },
                        None => GatewayResponse::BadRequest,
                    }
                } else {
                    GatewayResponse::BadRequest
                }
            },
            HttpMethod::Get => GatewayResponse::Asset { path: path.clone() },
            HttpMethod::Other => GatewayResponse::BadRequest,
        }
    }
}

/// How many envelopes of `envs` assign peer `u` its identity.
pub open spec fn you_count(envs: Seq<EnvelopeModel>, u: Seq<char>) -> nat
    decreases envs.len(),
{
    if envs.len() == 0 {
        0
    } else {
        (if envs[0].to == u && envs[0].message == (ClientMessageModel::You { url: u }) {
            1nat
        } else {
            0nat
        }) + you_count(envs.drop_first(), u)
    }
}

proof fn lemma_you_count_concat(a: Seq<EnvelopeModel>, b: Seq<EnvelopeModel>, u: Seq<char>)
    ensures
        you_count(a + b, u) == you_count(a, u) + you_count(b, u),
    decreases a.len(),
{
    if a.len() == 0 {
        assert(a + b =~= b);
    } else {
        assert((a + b).drop_first() =~= a.drop_first() + b);
        lemma_you_count_concat(a.drop_first(), b, u);
    }
}

proof fn lemma_you_count_add_envs(u2: Seq<char>, members: Seq<Seq<char>>, u: Seq<char>)
    ensures
        you_count(add_envs(u2, members), u) == 0,
    decreases members.len(),
{
    if members.len() > 0 {
        assert(add_envs(u2, members).drop_first() =~= add_envs(u2, members.drop_first()));
        lemma_you_count_add_envs(u2, members.drop_first(), u);
    }
}

/// A peer receives its identity exactly once: a join that succeeds queues
/// one `You` for the joining url, and a second join for the same url before
/// a leave queues nothing at all.
pub proof fn lemma_join_single_identity(
    d0: Directory,
    d1: Directory,
    d2: Directory,
    u: Seq<char>,
    room: Seq<char>,
    room2: Seq<char>,
    r2: JoinOutcome,
)
    requires
        join_effect(d0, d1, u, room, JoinOutcome::Joined),
        join_effect(d1, d2, u, room2, r2),
    ensures
        you_count(d1.outbox_model(), u) == you_count(d0.outbox_model(), u) + 1,
        d2.outbox_model() == d1.outbox_model(),
{
    let msgs = join_msgs(u, d0.members_of(room));
    lemma_you_count_concat(d0.outbox_model(), msgs, u);
    assert(msgs.drop_first() =~= add_envs(u, d0.members_of(room)));
    lemma_you_count_add_envs(u, d0.members_of(room), u);
}

/// A join writes both halves of the membership in one logical operation:
/// afterwards the url stands in the room's member set, the reverse index
/// maps it there, and the two indexes agree everywhere. A url already
/// registered is refused instead of inserted, so the premise leaves that
/// input out.
pub proof fn lemma_join_restores_consistency(
    pre: Directory,
    post: Directory,
    u: Seq<char>,
    room: Seq<char>,
)
    requires
        pre.wf(),
        post.wf(),
        join_effect(pre, post, u, room, JoinOutcome::Joined),
    ensures
        post.in_room(room, u),
        post.room_of(u) == Some(room),
        forall|r2: Seq<char>, u2: Seq<char>|
            #[trigger] post.in_room(r2, u2) <==> post.room_of(u2) == Some(r2),
{
    let ms = post.members_of(room);
    assert(ms[ms.len() - 1] == u);
    assert(ms.contains(u));
    assert forall|r2: Seq<char>, u2: Seq<char>| #[trigger] post.in_room(r2, u2) <==> post.room_of(
        u2,
    ) == Some(r2) by {
        post.lemma_indexes_consistent(r2, u2);
    }
}

/// The first join of a room: the member set becomes just the joining url,
/// exactly one identity assignment is queued for it, and no `Add` goes to
/// anyone, there being no other member.
pub proof fn lemma_first_join_sends_you_only(
    pre: Directory,
    post: Directory,
    u: Seq<char>,
    room: Seq<char>,
)
    requires
        join_effect(pre, post, u, room, JoinOutcome::Joined),
        pre.members_of(room).len() == 0,
    ensures
        post.members_of(room) == seq![u],
        post.outbox_model() == pre.outbox_model() + seq![you_env(u)],
        you_count(post.outbox_model(), u) == you_count(pre.outbox_model(), u) + 1,
{
    assert(post.members_of(room) =~= seq![u]);
    assert(add_envs(u, pre.members_of(room)) =~= Seq::<EnvelopeModel>::empty());
    assert(join_msgs(u, pre.members_of(room)) =~= seq![you_env(u)]);
    lemma_you_count_concat(pre.outbox_model(), seq![you_env(u)], u);
    assert(seq![you_env(u)].drop_first() =~= Seq::<EnvelopeModel>::empty());
    assert(you_count(Seq::<EnvelopeModel>::empty(), u) == 0);
    assert(you_count(seq![you_env(u)], u) == 1);
}

/// The second join of a room: with one prior member the set becomes the
/// pair in join order, the newcomer is assigned its identity once, the
/// prior member alone receives the `Add`, and the newcomer — distinct from
/// the prior member, being unregistered — receives no `Add` of itself.
pub proof fn lemma_second_join_adds_to_first(
    pre: Directory,
    post: Directory,
    x: Seq<char>,
    u: Seq<char>,
    room: Seq<char>,
)
    requires
        pre.wf(),
        join_effect(pre, post, u, room, JoinOutcome::Joined),
        pre.members_of(room) == seq![x],
    ensures
        post.members_of(room) == seq![x, u],
        post.outbox_model() == pre.outbox_model() + seq![
            you_env(u),
            EnvelopeModel { to: x, message: ClientMessageModel::Add { url: u } },
        ],
        x != u,
{
    assert(post.members_of(room) =~= seq![x, u]);
    let ex = EnvelopeModel { to: x, message: ClientMessageModel::Add { url: u } };
    assert(add_envs(u, seq![x])[0] == ex);
    assert(add_envs(u, seq![x]) =~= seq![ex]);
    assert(join_msgs(u, seq![x]) =~= seq![you_env(u), ex]);
    pre.lemma_indexes_consistent(room, x);
    assert(pre.members_of(room)[0] == x);
    assert(pre.members_of(room).contains(x));
}

/// Leaving with no room registered is a no-op: nothing is queued, nothing
/// changes.
pub proof fn lemma_leave_without_room_is_noop(pre: Directory, post: Directory, u: Seq<char>)
    requires
        leave_effect(pre, post, u, None),
    ensures
        dir_unchanged(pre, post),
{
}

proof fn lemma_remove_one_no_residue(s: Seq<Seq<char>>, x: Seq<char>)
    requires
        forall|j: int, k: int| 0 <= j < k < s.len() ==> s[j] != s[k],
    ensures
        !remove_one(s, x).contains(x),
    decreases s.len(),
{
    if s.len() == 0 {
    } else if s[0] == x {
        if remove_one(s, x).contains(x) {
            let l = choose|l: int|
                0 <= l < s.drop_first().len() && s.drop_first()[l] == x;
            assert(s[0] == s[l + 1]);
        }
    } else {
        lemma_remove_one_no_residue(s.drop_first(), x);
        let r = seq![s[0]] + remove_one(s.drop_first(), x);
        if r.contains(x) {
            let l = choose|l: int| 0 <= l < r.len() && r[l] == x;
            assert(l != 0);
            assert(remove_one(s.drop_first(), x)[l - 1] == x);
            assert(remove_one(s.drop_first(), x).contains(x));
        }
    }
}

proof fn lemma_remove_one_keeps_others(s: Seq<Seq<char>>, x: Seq<char>, u: Seq<char>)
    requires
        u != x,
    ensures
        remove_one(s, x).contains(u) <==> s.contains(u),
    decreases s.len(),
{
    if s.len() == 0 {
    } else if s[0] == x {
        if s.contains(u) {
            let l = choose|l: int| 0 <= l < s.len() && s[l] == u;
            assert(l != 0);
            assert(s.drop_first()[l - 1] == u);
        }
        if s.drop_first().contains(u) {
            let l = choose|l: int| 0 <= l < s.drop_first().len() && s.drop_first()[l] == u;
            assert(s[l + 1] == u);
        }
    } else {
        lemma_remove_one_keeps_others(s.drop_first(), x, u);
        let r = seq![s[0]] + remove_one(s.drop_first(), x);
        if s.contains(u) {
            let l = choose|l: int| 0 <= l < s.len() && s[l] == u;
            if l == 0 {
                assert(r[0] == u);
            } else {
                assert(s.drop_first()[l - 1] == u);
                assert(s.drop_first().contains(u));
                let l2 = choose|l2: int|
                    0 <= l2 < remove_one(s.drop_first(), x).len() && remove_one(
                        s.drop_first(),
                        x,
                    )[l2] == u;
                assert(r[l2 + 1] == u);
            }
            assert(r.contains(u));
        }
        if r.contains(u) {
            let l = choose|l: int| 0 <= l < r.len() && r[l] == u;
            if l == 0 {
                assert(s[0] == u);
            } else {
                assert(remove_one(s.drop_first(), x)[l - 1] == u);
                assert(remove_one(s.drop_first(), x).contains(u));
                let l2 = choose|l2: int|
                    0 <= l2 < s.drop_first().len() && s.drop_first()[l2] == u;
                assert(s[l2 + 1] == u);
            }
            assert(s.contains(u));
        }
    }
}

/// Eviction: a peer whose delivery reported not-found is out of its room,
/// and every remaining member has a `Remove` envelope for it queued.
pub proof fn lemma_eviction(pre: Directory, post: Directory, p: Seq<char>, room: Seq<char>)
    requires
        pre.wf(),
        leave_effect(pre, post, p, Some(room)),
    ensures
        post.room_of(p) is None,
        !post.in_room(room, p),
        forall|m: Seq<char>|
            post.members_of(room).contains(m) ==> #[trigger] post.outbox_model().contains(
                EnvelopeModel { to: m, message: ClientMessageModel::Remove { url: p } },
            ),
{
    pre.lemma_members_distinct(room);
    lemma_remove_one_no_residue(pre.members_of(room), p);
    let remaining = post.members_of(room);
    assert forall|m: Seq<char>| remaining.contains(m) implies #[trigger] post.outbox_model()
        .contains(
        EnvelopeModel { to: m, message: ClientMessageModel::Remove { url: p } },
    ) by {
        let l = choose|l: int| 0 <= l < remaining.len() && remaining[l] == m;
        let e = EnvelopeModel { to: m, message: ClientMessageModel::Remove { url: p } };
        assert(post.outbox_model()[pre.outbox_model().len() + l] == e);
        assert(post.outbox_model().contains(e));
    }
}

/// Fan-out isolation: evicting one member neither disturbs envelopes
/// already queued for the others nor removes anyone else from the room.
pub proof fn lemma_eviction_isolated(
    pre: Directory,
    post: Directory,
    b: Seq<char>,
    room: Seq<char>,
    idx: int,
)
    requires
        pre.wf(),
        leave_effect(pre, post, b, Some(room)),
        0 <= idx < pre.outbox_model().len(),
    ensures
        post.outbox_model()[idx] == pre.outbox_model()[idx],
        forall|u: Seq<char>|
            u != b ==> (#[trigger] post.in_room(room, u) <==> pre.in_room(room, u)),
        !post.in_room(room, b),
{
    pre.lemma_members_distinct(room);
    lemma_remove_one_no_residue(pre.members_of(room), b);
    assert forall|u: Seq<char>| u != b implies (#[trigger] post.in_room(room, u)
        <==> pre.in_room(room, u)) by {
        lemma_remove_one_keeps_others(pre.members_of(room), b, u);
    }
}

} // verus!

