//! The membership store: the forward index from room name to member urls and
//! the reverse index from url to room name, kept consistent with each other.
//! Its only mutators are `insert` and `remove`, so no caller can update one
//! half of the pair without the other.

use vstd::prelude::*;

verus! {

/// The mathematical value of a list of urls: its character sequences, in
/// order.
pub open spec fn names_model(v: Seq<String>) -> Seq<Seq<char>> {
    v.map(|i: int, s: String| s@)
}

/// Whether the reverse index holds an entry mapping `u` to `r`.
pub open spec fn url_entry(urls: Seq<(String, String)>, u: Seq<char>, r: Seq<char>) -> bool {
    exists|k: int| 0 <= k < urls.len() && (#[trigger] urls[k]).0@ == u && urls[k].1@ == r
}

spec fn urls_has(urls: Seq<(String, String)>, u: Seq<char>) -> bool {
    exists|k: int| 0 <= k < urls.len() && (#[trigger] urls[k]).0@ == u
}

spec fn urls_at(urls: Seq<(String, String)>, u: Seq<char>) -> int {
    choose|k: int| 0 <= k < urls.len() && (#[trigger] urls[k]).0@ == u
}

spec fn rooms_has(rooms: Seq<(String, Vec<String>)>, r: Seq<char>) -> bool {
    exists|i: int| 0 <= i < rooms.len() && (#[trigger] rooms[i]).0@ == r
}

spec fn rooms_at(rooms: Seq<(String, Vec<String>)>, r: Seq<char>) -> int {
    choose|i: int| 0 <= i < rooms.len() && (#[trigger] rooms[i]).0@ == r
}

/// Whether a member list holds `u`.
pub open spec fn mem_has(ms: Seq<String>, u: Seq<char>) -> bool {
    exists|j: int| 0 <= j < ms.len() && (#[trigger] ms[j])@ == u
}

/// Whether the forward index has a room `r` whose member list holds `u`.
pub open spec fn room_entry(rooms: Seq<(String, Vec<String>)>, u: Seq<char>, r: Seq<char>) -> bool {
    exists|i: int| 0 <= i < rooms.len() && (#[trigger] rooms[i]).0@ == r && mem_has(rooms[i].1@, u)
}

/// `s` with the first occurrence of `x` taken out, the order of the rest
/// kept.
pub open spec fn remove_one(s: Seq<Seq<char>>, x: Seq<char>) -> Seq<Seq<char>>
    decreases s.len(),
{
    if s.len() == 0 {
        s
    } else if s[0] == x {
        s.drop_first()
    } else {
        seq![s[0]] + remove_one(s.drop_first(), x)
    }
}

/// Taking out the first occurrence, when it stands at `j` and nothing before
/// it matches, is removal at `j`.
pub proof fn lemma_remove_one_at(s: Seq<Seq<char>>, x: Seq<char>, j: int)
    requires
        0 <= j < s.len(),
        s[j] == x,
        forall|l: int| 0 <= l < j ==> s[l] != x,
    ensures
        remove_one(s, x) == s.remove(j),
    decreases j,
{
    if j == 0 {
        assert(remove_one(s, x) =~= s.remove(0));
    } else {
        lemma_remove_one_at(s.drop_first(), x, j - 1);
        assert(seq![s[0]] + s.drop_first().remove(j - 1) =~= s.remove(j));
    }
}

pub struct MembershipStore {
    rooms: Vec<(String, Vec<String>)>,
    urls: Vec<(String, String)>,
}

impl MembershipStore {
    /// The room a url is registered in, by the reverse index.
    pub closed spec fn room_of(self, u: Seq<char>) -> Option<Seq<char>> {
        if urls_has(self.urls@, u) {
            Some(self.urls@[urls_at(self.urls@, u)].1@)
        } else {
            None
        }
    }

    /// The member urls of a room, in insertion order, by the forward index;
    /// empty when the room does not exist.
    pub closed spec fn members_of(self, r: Seq<char>) -> Seq<Seq<char>> {
        if rooms_has(self.rooms@, r) {
            names_model(self.rooms@[rooms_at(self.rooms@, r)].1@)
        } else {
            Seq::empty()
        }
    }

    /// Whether a url appears in a room's member set.
    pub open spec fn in_room(self, r: Seq<char>, u: Seq<char>) -> bool {
        self.members_of(r).contains(u)
    }

    /// Whether a url is registered at all.
    pub open spec fn registered(self, u: Seq<char>) -> bool {
        self.room_of(u) is Some
    }

    spec fn rooms_distinct(self) -> bool {
        forall|i: int, j: int|
            0 <= i < j < self.rooms@.len() ==> (#[trigger] self.rooms@[i]).0@ != (
            #[trigger] self.rooms@[j]).0@
    }

    spec fn urls_distinct(self) -> bool {
        forall|k: int, l: int|
            0 <= k < l < self.urls@.len() ==> (#[trigger] self.urls@[k]).0@ != (
            #[trigger] self.urls@[l]).0@
    }

    spec fn rooms_wf(self) -> bool {
        forall|i: int|
            0 <= i < self.rooms@.len() ==> {
                let ms = (#[trigger] self.rooms@[i]).1@;
                ms.len() > 0 && (forall|j: int, k: int|
                    0 <= j < k < ms.len() ==> (#[trigger] ms[j])@ != (#[trigger] ms[k])@)
            }
    }

    spec fn forward_in_reverse(self) -> bool {
        forall|i: int, j: int|
            0 <= i < self.rooms@.len() && 0 <= j < (#[trigger] self.rooms@[i]).1@.len()
                ==> url_entry(self.urls@, (#[trigger] self.rooms@[i].1@[j])@, self.rooms@[i].0@)
    }

    spec fn reverse_in_forward(self) -> bool {
        forall|k: int|
            0 <= k < self.urls@.len() ==> room_entry(
                self.rooms@,
                (#[trigger] self.urls@[k]).0@,
                self.urls@[k].1@,
            )
    }

    /// Well-formedness: distinct keys in each index, no empty room, no
    /// repeated member, and the two indexes consistent with each other.
    pub closed spec fn wf(self) -> bool {
        &&& self.rooms_distinct()
        &&& self.urls_distinct()
        &&& self.rooms_wf()
        &&& self.forward_in_reverse()
        &&& self.reverse_in_forward()
    }

    proof fn lemma_rooms_at_is(self, r: Seq<char>, i: int)
        requires
            self.rooms_distinct(),
            0 <= i < self.rooms@.len(),
            self.rooms@[i].0@ == r,
        ensures
            rooms_has(self.rooms@, r),
            rooms_at(self.rooms@, r) == i,
    {
        assert(rooms_has(self.rooms@, r));
        let i2 = rooms_at(self.rooms@, r);
        if i2 < i {
            assert(self.rooms@[i2].0@ != self.rooms@[i].0@);
        } else if i2 > i {
            assert(self.rooms@[i].0@ != self.rooms@[i2].0@);
        }
    }

    proof fn lemma_urls_at_is(self, u: Seq<char>, k: int)
        requires
            self.urls_distinct(),
            0 <= k < self.urls@.len(),
            self.urls@[k].0@ == u,
        ensures
            urls_has(self.urls@, u),
            urls_at(self.urls@, u) == k,
    {
        assert(urls_has(self.urls@, u));
        let k2 = urls_at(self.urls@, u);
        if k2 < k {
            assert(self.urls@[k2].0@ != self.urls@[k].0@);
        } else if k2 > k {
            assert(self.urls@[k].0@ != self.urls@[k2].0@);
        }
    }

    /// The consistency of the two indexes: a url stands in room `r`'s member
    /// set exactly when the reverse index maps it to `r`.
    pub proof fn lemma_indexes_consistent(self, r: Seq<char>, u: Seq<char>)
        requires
            self.wf(),
        ensures
            self.in_room(r, u) <==> self.room_of(u) == Some(r),
    {
        if self.in_room(r, u) {
            let ms = self.members_of(r);
            let j = choose|j: int| 0 <= j < ms.len() && ms[j] == u;
            let i = rooms_at(self.rooms@, r);
            assert(self.rooms@[i].1@[j]@ == u);
            assert(url_entry(self.urls@, u, r));
            let k = choose|k: int|
                0 <= k < self.urls@.len() && (#[trigger] self.urls@[k]).0@ == u && self.urls@[k].1@
                    == r;
            self.lemma_urls_at_is(u, k);
        }
        if self.room_of(u) == Some(r) {
            let k = urls_at(self.urls@, u);
            assert(room_entry(self.rooms@, u, r));
            let i = choose|i: int|
                0 <= i < self.rooms@.len() && (#[trigger] self.rooms@[i]).0@ == r && mem_has(
                    self.rooms@[i].1@,
                    u,
                );
            self.lemma_rooms_at_is(r, i);
            let ms = self.rooms@[i].1@;
            let j = choose|j: int| 0 <= j < ms.len() && (#[trigger] ms[j])@ == u;
            assert(names_model(ms)[j] == u);
            assert(self.members_of(r).contains(u));
        }
    }

    /// The members of a room never repeat a url.
    pub proof fn lemma_members_distinct(self, r: Seq<char>)
        requires
            self.wf(),
        ensures
            forall|j: int, k: int|
                0 <= j < k < self.members_of(r).len() ==> self.members_of(r)[j]
                    != self.members_of(r)[k],
    {
        if rooms_has(self.rooms@, r) {
            let i = rooms_at(self.rooms@, r);
            let ms = self.rooms@[i].1@;
            assert forall|j: int, k: int| 0 <= j < k < self.members_of(r).len() implies self
                .members_of(r)[j] != self.members_of(r)[k] by {
                assert(ms[j]@ != ms[k]@);
            }
        }
    }

    /// An empty store: no room, no registered url.
    pub fn new() -> (s: Self)
        ensures
            s.wf(),
            forall|u: Seq<char>| #[trigger] s.room_of(u) is None,
            forall|r: Seq<char>| #[trigger] s.members_of(r) == Seq::<Seq<char>>::empty(),
    {
        MembershipStore { rooms: Vec::new(), urls: Vec::new() }
    }

    fn find_room(&self, room: &String) -> (r: Option<usize>)
        ensures
            match r {
                Some(i) => i < self.rooms@.len() && self.rooms@[i as int].0@ == room@,
                None => !rooms_has(self.rooms@, room@),
            },
    {
        let mut i: usize = 0;
        while i < self.rooms.len()
            invariant
                i <= self.rooms@.len(),
                forall|l: int| 0 <= l < i ==> (#[trigger] self.rooms@[l]).0@ != room@,
            decreases self.rooms@.len() - i,
        {
            if self.rooms[i].0 == *room {
                return Some(i);
            }
            i = i + 1;
        }
        None
    }

    fn find_url(&self, url: &String) -> (r: Option<usize>)
        ensures
            match r {
                Some(k) => k < self.urls@.len() && self.urls@[k as int].0@ == url@,
                None => !urls_has(self.urls@, url@),
            },
    {
        let mut k: usize = 0;
        while k < self.urls.len()
            invariant
                k <= self.urls@.len(),
                forall|l: int| 0 <= l < k ==> (#[trigger] self.urls@[l]).0@ != url@,
            decreases self.urls@.len() - k,
        {
            if self.urls[k].0 == *url {
                return Some(k);
            }
            k = k + 1;
        }
        None
    }

    fn find_member(ms: &Vec<String>, url: &String) -> (r: Option<usize>)
        ensures
            match r {
                Some(j) => j < ms@.len() && ms@[j as int]@ == url@ && (forall|l: int|
                    0 <= l < j ==> (#[trigger] ms@[l])@ != url@),
                None => !mem_has(ms@, url@),
            },
    {
        let mut j: usize = 0;
        while j < ms.len()
            invariant
                j <= ms@.len(),
                forall|l: int| 0 <= l < j ==> (#[trigger] ms@[l])@ != url@,
            decreases ms@.len() - j,
        {
            if ms[j] == *url {
                return Some(j);
            }
            j = j + 1;
        }
        None
    }

    /// The room a url is registered in, or `None`.
    pub fn room_lookup(&self, url: &String) -> (r: Option<String>)
        requires
            self.wf(),
        ensures
            match r {
                Some(rm) => self.room_of(url@) == Some(rm@),
                None => self.room_of(url@) is None,
            },
    {
        match self.find_url(url) {
            Some(k) => {
                proof {
                    self.lemma_urls_at_is(url@, k as int);
                }
                Some(self.urls[k].1.clone())
            },
            None => None,
        }
    }

    /// A copy of a room's member list, in insertion order.
    pub fn members(&self, room: &String) -> (v: Vec<String>)
        requires
            self.wf(),
        ensures
            names_model(v@) == self.members_of(room@),
    {
        match self.find_room(room) {
            Some(i) => {
                let mut out: Vec<String> = Vec::new();
                let mut j: usize = 0;
                while j < self.rooms[i].1.len()
                    invariant
                        i < self.rooms@.len(),
                        j <= self.rooms@[i as int].1@.len(),
                        out@.len() == j,
                        forall|l: int| 0 <= l < j ==> (#[trigger] out@[l]) == self.rooms@[
                            i as int
                        ].1@[l],
                    decreases self.rooms@[i as int].1@.len() - j,
                {
                    out.push(self.rooms[i].1[j].clone());
                    j = j + 1;
                }
                proof {
                    assert(out@ =~= self.rooms@[i as int].1@);
                    self.lemma_rooms_at_is(room@, i as int);
                    assert(names_model(out@) =~= self.members_of(room@));
                }
                out
            },
            None => {
                let out: Vec<String> = Vec::new();
                proof {
                    assert(names_model(out@) =~= Seq::<Seq<char>>::empty());
                }
                out
            },
        }
    }

    proof fn lemma_no_url_among_members(self, u: Seq<char>)
        requires
            self.wf(),
            !self.registered(u),
        ensures
            forall|i: int, j: int|
                0 <= i < self.rooms@.len() && 0 <= j < (#[trigger] self.rooms@[i]).1@.len() ==> (
                #[trigger] self.rooms@[i].1@[j])@ != u,
    {
        assert forall|i: int, j: int|
            0 <= i < self.rooms@.len() && 0 <= j < (#[trigger] self.rooms@[i]).1@.len() implies (
        #[trigger] self.rooms@[i].1@[j])@ != u by {
            if self.rooms@[i].1@[j]@ == u {
                assert(url_entry(self.urls@, u, self.rooms@[i].0@));
                let k = choose|k: int|
                    0 <= k < self.urls@.len() && (#[trigger] self.urls@[k]).0@ == u
                        && self.urls@[k].1@ == self.rooms@[i].0@;
                assert(urls_has(self.urls@, u));
            }
        }
    }

    /// Register `url` in `room`: append it to the room's member list, the
    /// room itself created on first join, and set the reverse entry.
    pub fn insert(&mut self, url: &String, room: &String)
        requires
            old(self).wf(),
            !old(self).registered(url@),
        ensures
            final(self).wf(),
            final(self).room_of(url@) == Some(room@),
            forall|u: Seq<char>|
                u != url@ ==> #[trigger] final(self).room_of(u) == old(self).room_of(u),
            final(self).members_of(room@) == old(self).members_of(room@).push(url@),
            forall|r: Seq<char>|
                r != room@ ==> #[trigger] final(self).members_of(r) == old(self).members_of(r),
    {
        let ghost r0 = old(self).rooms@;
        let ghost u0 = old(self).urls@;
        proof {
            old(self).lemma_no_url_among_members(url@);
        }
        let found = self.find_room(room);
        let ghost iwit: int = match found {
            Some(i) => i as int,
            None => r0.len() as int,
        };
        match found {
            Some(i) => {
                let (name, mut ms) = self.rooms.remove(i);
                ms.push(url.clone());
                self.rooms.insert(i, (name, ms));
                proof {
                    assert(self.rooms@ =~= r0.update(
                        i as int,
                        (r0[i as int].0, self.rooms@[i as int].1),
                    ));
                    assert(self.rooms@[i as int].1@ =~= r0[i as int].1@.push(*url));
                }
            },
            None => {
                let mut ms: Vec<String> = Vec::new();
                ms.push(url.clone());
                self.rooms.push((room.clone(), ms));
                proof {
                    assert(self.rooms@[r0.len() as int].1@ =~= seq![*url]);
                }
            },
        }
        self.urls.push((url.clone(), room.clone()));
        proof {
            let r1 = self.rooms@;
            let u1 = self.urls@;
            assert(u1 =~= u0.push((*url, *room)));
            // names and all other entries of the forward index are unchanged
            assert(forall|l: int|
                0 <= l < r1.len() ==> (#[trigger] r1[l]).0@ == if l < r0.len() {
                    r0[l].0@
                } else {
                    room@
                });
            assert(forall|l: int| 0 <= l < r1.len() && l != iwit ==> r1[l] == r0[l]);
            assert(r1[iwit].0@ == room@);

            // distinctness of both indexes
            assert(self.rooms_distinct());
            assert forall|k: int, l: int| 0 <= k < l < u1.len() implies (#[trigger] u1[k]).0@ != (
            #[trigger] u1[l]).0@ by {
                if l == u0.len() {
                    assert(u1[k].0@ == u0[k].0@);
                    if u0[k].0@ == url@ {
                        assert(urls_has(u0, url@));
                    }
                }
            }

            // member lists stay nonempty and distinct
            assert forall|i2: int| 0 <= i2 < r1.len() implies {
                let ms2 = (#[trigger] r1[i2]).1@;
                ms2.len() > 0 && (forall|j: int, k: int|
                    0 <= j < k < ms2.len() ==> (#[trigger] ms2[j])@ != (#[trigger] ms2[k])@)
            } by {
                let ms2 = r1[i2].1@;
                if i2 == iwit {
                    assert forall|j: int, k: int| 0 <= j < k < ms2.len() implies (
                    #[trigger] ms2[j])@ != (#[trigger] ms2[k])@ by {
                        if iwit < r0.len() {
                            if k < ms2.len() - 1 {
                                assert(r0[i2].1@[j]@ != r0[i2].1@[k]@);
                            } else {
                                assert(r0[i2].1@[j]@ != url@);
                            }
                        }
                    }
                }
            }

            // every member has its reverse entry
            assert forall|i2: int, j2: int|
                0 <= i2 < r1.len() && 0 <= j2 < (#[trigger] r1[i2]).1@.len() implies url_entry(
                u1,
                (#[trigger] r1[i2].1@[j2])@,
                r1[i2].0@,
            ) by {
                if i2 == iwit && j2 == r1[i2].1@.len() - 1 {
                    assert(u1[u0.len() as int].0@ == url@ && u1[u0.len() as int].1@ == room@);
                } else {
                    assert(url_entry(u0, r0[i2].1@[j2]@, r0[i2].0@));
                    let k = choose|k: int|
                        0 <= k < u0.len() && (#[trigger] u0[k]).0@ == r0[i2].1@[j2]@ && u0[k].1@
                            == r0[i2].0@;
                    assert(u1[k] == u0[k]);
                }
            }

            // every reverse entry has its member
            assert forall|k: int| 0 <= k < u1.len() implies room_entry(
                r1,
                (#[trigger] u1[k]).0@,
                u1[k].1@,
            ) by {
                if k < u0.len() {
                    assert(room_entry(r0, u0[k].0@, u0[k].1@));
                    let i2 = choose|i2: int|
                        0 <= i2 < r0.len() && (#[trigger] r0[i2]).0@ == u0[k].1@ && mem_has(
                            r0[i2].1@,
                            u0[k].0@,
                        );
                    let j2 = choose|j2: int|
                        0 <= j2 < r0[i2].1@.len() && (#[trigger] r0[i2].1@[j2])@ == u0[k].0@;
                    assert(r1[i2].1@[j2]@ == u0[k].0@);
                    assert(mem_has(r1[i2].1@, u0[k].0@));
                } else {
                    let last = r1[iwit].1@.len() - 1;
                    assert(r1[iwit].1@[last]@ == url@);
                    assert(mem_has(r1[iwit].1@, url@));
                }
            }
            assert(self.wf());

            // the reverse lookup of the new url
            self.lemma_urls_at_is(url@, u0.len() as int);

            // reverse lookups of other urls are unchanged
            assert forall|u: Seq<char>| u != url@ implies #[trigger] self.room_of(u) == old(
                self,
            ).room_of(u) by {
                if urls_has(u0, u) {
                    let k = urls_at(u0, u);
                    old(self).lemma_urls_at_is(u, k);
                    self.lemma_urls_at_is(u, k);
                } else {
                    assert forall|l: int| 0 <= l < u1.len() implies (#[trigger] u1[l]).0@ != u by {
                        if l < u0.len() {
                            assert(urls_has(u0, u0[l].0@));
                        }
                    }
                }
            }

            // the member list of the joined room gains exactly the new url
            self.lemma_rooms_at_is(room@, iwit);
            if iwit < r0.len() {
                old(self).lemma_rooms_at_is(room@, iwit);
                assert(names_model(r1[iwit].1@) =~= names_model(r0[iwit].1@).push(url@));
            } else {
                assert(!rooms_has(r0, room@));
                assert(names_model(r1[iwit].1@) =~= Seq::<Seq<char>>::empty().push(url@));
            }

            // member lists of other rooms are unchanged
            assert forall|r: Seq<char>| r != room@ implies #[trigger] self.members_of(r) == old(
                self,
            ).members_of(r) by {
                if rooms_has(r0, r) {
                    let i2 = rooms_at(r0, r);
                    old(self).lemma_rooms_at_is(r, i2);
                    assert(r1[i2] == r0[i2]);
                    self.lemma_rooms_at_is(r, i2);
                } else {
                    assert forall|l: int| 0 <= l < r1.len() implies (#[trigger] r1[l]).0@ != r by {
                        if l < r0.len() {
                            assert(rooms_has(r0, r0[l].0@));
                        }
                    }
                }
            }
        }
    }

    /// Unregister `url`: clear its reverse entry and take it out of its
    /// room's member list, the room itself deleted when its member set
    /// becomes empty. Returns the room the url was registered in.
    pub fn remove(&mut self, url: &String) -> (r: Option<String>)
        requires
            old(self).wf(),
        ensures
            final(self).wf(),
            match r {
                None => {
                    &&& old(self).room_of(url@) is None
                    &&& forall|u: Seq<char>|
                        #[trigger] final(self).room_of(u) == old(self).room_of(u)
                    &&& forall|rm: Seq<char>|
                        #[trigger] final(self).members_of(rm) == old(self).members_of(rm)
                },
                Some(room) => {
                    &&& old(self).room_of(url@) == Some(room@)
                    &&& final(self).room_of(url@) is None
                    &&& forall|u: Seq<char>|
                        u != url@ ==> #[trigger] final(self).room_of(u) == old(self).room_of(u)
                    &&& final(self).members_of(room@) == remove_one(
                        old(self).members_of(room@),
                        url@,
                    )
                    &&& forall|rm: Seq<char>|
                        rm != room@ ==> #[trigger] final(self).members_of(rm) == old(
                            self,
                        ).members_of(rm)
                },
            },
    {
        let ghost r0 = old(self).rooms@;
        let ghost u0 = old(self).urls@;
        let found = self.find_url(url);
        let k = match found {
            None => {
                return None;
            },
            Some(k) => k,
        };
        let room = self.urls[k].1.clone();
        proof {
            old(self).lemma_urls_at_is(url@, k as int);
        }
        self.urls.remove(k);
        let fr = self.find_room(&room);
        let i = match fr {
            None => {
                proof {
                    assert(room_entry(r0, url@, room@));
                    let i2 = choose|i2: int|
                        0 <= i2 < r0.len() && (#[trigger] r0[i2]).0@ == room@ && mem_has(
                            r0[i2].1@,
                            url@,
                        );
                    assert(rooms_has(r0, room@));
                    assert(false);
                }
                return None;
            },
            Some(i) => i,
        };
        let (name, mut ms) = self.rooms.remove(i);
        let fm = Self::find_member(&ms, url);
        let j = match fm {
            None => {
                proof {
                    assert(room_entry(r0, url@, room@));
                    let i2 = choose|i2: int|
                        0 <= i2 < r0.len() && (#[trigger] r0[i2]).0@ == room@ && mem_has(
                            r0[i2].1@,
                            url@,
                        );
                    old(self).lemma_rooms_at_is(room@, i2);
                    old(self).lemma_rooms_at_is(room@, i as int);
                    assert(mem_has(ms@, url@));
                    assert(false);
                }
                return None;
            },
            Some(j) => j,
        };
        ms.remove(j);
        let kept = ms.len() > 0;
        if kept {
            self.rooms.insert(i, (name, ms));
        }
        proof {
            let ii = i as int;
            let jj = j as int;
            let kk = k as int;
            let r1 = self.rooms@;
            let u1 = self.urls@;
            assert(u1 =~= u0.remove(kk));
            if kept {
                assert(r1 =~= r0.update(ii, (r0[ii].0, r1[ii].1)));
                assert(r1[ii].1@ =~= r0[ii].1@.remove(jj));
            } else {
                assert(r1 =~= r0.remove(ii));
                assert(r0[ii].1@.len() == 1);
            }
            // the url is a member of no room but room i, and there only at j
            assert forall|l: int, j2: int|
                0 <= l < r0.len() && 0 <= j2 < (#[trigger] r0[l]).1@.len() && !(l == ii && j2 == jj)
                    implies (#[trigger] r0[l].1@[j2])@ != url@ by {
                if r0[l].1@[j2]@ == url@ {
                    assert(url_entry(u0, url@, r0[l].0@));
                    let k2 = choose|k2: int|
                        0 <= k2 < u0.len() && (#[trigger] u0[k2]).0@ == url@ && u0[k2].1@
                            == r0[l].0@;
                    if k2 < kk {
                        assert(u0[k2].0@ != u0[kk].0@);
                    } else if k2 > kk {
                        assert(u0[kk].0@ != u0[k2].0@);
                    }
                    assert(r0[l].0@ == room@);
                    if l < ii {
                        assert(r0[l].0@ != r0[ii].0@);
                    } else if l > ii {
                        assert(r0[ii].0@ != r0[l].0@);
                    }
                    // so l == ii, and within room i the url stands only at j
                    if j2 < jj {
                        assert(r0[ii].1@[j2]@ != url@);
                    } else {
                        assert(r0[ii].1@[jj]@ != r0[ii].1@[j2]@);
                    }
                }
            }
            // no entry of the new reverse index holds the url
            assert forall|l: int| 0 <= l < u1.len() implies (#[trigger] u1[l]).0@ != url@ by {
                if l < kk {
                    assert(u0[l].0@ != u0[kk].0@);
                } else {
                    assert(u0[kk].0@ != u0[l + 1].0@);
                }
            }

            // distinctness of both indexes
            assert forall|l: int, l2: int| 0 <= l < l2 < r1.len() implies (#[trigger] r1[l]).0@ != (
            #[trigger] r1[l2]).0@ by {
                if kept {
                    assert(r1[l].0@ == r0[l].0@ && r1[l2].0@ == r0[l2].0@);
                } else {
                    let a: int = if l < ii {
                        l
                    } else {
                        l + 1
                    };
                    let b: int = if l2 < ii {
                        l2
                    } else {
                        l2 + 1
                    };
                    assert(r1[l].0@ == r0[a].0@ && r1[l2].0@ == r0[b].0@);
                }
            }
            assert(self.rooms_distinct());
            assert forall|l: int, l2: int| 0 <= l < l2 < u1.len() implies (#[trigger] u1[l]).0@ != (
            #[trigger] u1[l2]).0@ by {
                let a: int = if l < kk {
                    l
                } else {
                    l + 1
                };
                let b: int = if l2 < kk {
                    l2
                } else {
                    l2 + 1
                };
                assert(u1[l].0@ == u0[a].0@ && u1[l2].0@ == u0[b].0@);
            }
            assert(self.urls_distinct());

            // member lists stay nonempty and distinct
            assert forall|l: int| 0 <= l < r1.len() implies {
                let ms2 = (#[trigger] r1[l]).1@;
                ms2.len() > 0 && (forall|a: int, b: int|
                    0 <= a < b < ms2.len() ==> (#[trigger] ms2[a])@ != (#[trigger] ms2[b])@)
            } by {
                let ms2 = r1[l].1@;
                if kept && l == ii {
                    assert forall|a: int, b: int| 0 <= a < b < ms2.len() implies (
                    #[trigger] ms2[a])@ != (#[trigger] ms2[b])@ by {
                        let a2: int = if a < jj {
                            a
                        } else {
                            a + 1
                        };
                        let b2: int = if b < jj {
                            b
                        } else {
                            b + 1
                        };
                        assert(ms2[a]@ == r0[ii].1@[a2]@ && ms2[b]@ == r0[ii].1@[b2]@);
                    }
                } else {
                    let l2: int = if kept || l < ii {
                        l
                    } else {
                        l + 1
                    };
                    assert(r1[l] == r0[l2]);
                }
            }
            assert(self.rooms_wf());

            // every member of the new forward index has its reverse entry
            assert forall|l: int, j2: int|
                0 <= l < r1.len() && 0 <= j2 < (#[trigger] r1[l]).1@.len() implies url_entry(
                u1,
                (#[trigger] r1[l].1@[j2])@,
                r1[l].0@,
            ) by {
                let l2: int = if kept || l < ii {
                    l
                } else {
                    l + 1
                };
                let j3: int = if kept && l == ii && j2 >= jj {
                    j2 + 1
                } else {
                    j2
                };
                assert(r1[l].0@ == r0[l2].0@);
                assert(r1[l].1@[j2]@ == r0[l2].1@[j3]@);
                let m = r0[l2].1@[j3]@;
                assert(m != url@);
                assert(url_entry(u0, m, r0[l2].0@));
                let k2 = choose|k2: int|
                    0 <= k2 < u0.len() && (#[trigger] u0[k2]).0@ == m && u0[k2].1@ == r0[l2].0@;
                if k2 == kk {
                    assert(false);
                }
                let k3: int = if k2 < kk {
                    k2
                } else {
                    k2 - 1
                };
                assert(u1[k3] == u0[k2]);
                assert(url_entry(u1, m, r1[l].0@));
            }
            assert(self.forward_in_reverse());

            // every entry of the new reverse index has its member
            assert forall|l: int| 0 <= l < u1.len() implies room_entry(
                r1,
                (#[trigger] u1[l]).0@,
                u1[l].1@,
            ) by {
                let k2: int = if l < kk {
                    l
                } else {
                    l + 1
                };
                assert(u1[l] == u0[k2]);
                let u = u0[k2].0@;
                let rm = u0[k2].1@;
                assert(u != url@);
                assert(room_entry(r0, u, rm));
                let i2 = choose|i2: int|
                    0 <= i2 < r0.len() && (#[trigger] r0[i2]).0@ == rm && mem_has(r0[i2].1@, u);
                let j2 = choose|j2: int|
                    0 <= j2 < r0[i2].1@.len() && (#[trigger] r0[i2].1@[j2])@ == u;
                if i2 == ii {
                    // the url's own room: the member stands at some j2 != j
                    assert(j2 != jj);
                    assert(kept);
                    let j3: int = if j2 < jj {
                        j2
                    } else {
                        j2 - 1
                    };
                    assert(r1[ii].1@[j3]@ == u);
                    assert(mem_has(r1[ii].1@, u));
                    assert(room_entry(r1, u, rm));
                } else {
                    let i3: int = if kept || i2 < ii {
                        i2
                    } else {
                        i2 - 1
                    };
                    assert(r1[i3] == r0[i2]);
                    assert(mem_has(r1[i3].1@, u));
                    assert(room_entry(r1, u, rm));
                }
            }
            assert(self.reverse_in_forward());
            assert(self.wf());

            // reverse lookups: the url is gone, the rest are unchanged
            assert(!urls_has(u1, url@));
            assert forall|u: Seq<char>| u != url@ implies #[trigger] self.room_of(u) == old(
                self,
            ).room_of(u) by {
                if urls_has(u0, u) {
                    let k2 = urls_at(u0, u);
                    old(self).lemma_urls_at_is(u, k2);
                    let k3: int = if k2 < kk {
                        k2
                    } else {
                        k2 - 1
                    };
                    assert(u1[k3] == u0[k2]);
                    self.lemma_urls_at_is(u, k3);
                } else {
                    assert forall|l: int| 0 <= l < u1.len() implies (#[trigger] u1[l]).0@ != u by {
                        let k2: int = if l < kk {
                            l
                        } else {
                            l + 1
                        };
                        assert(urls_has(u0, u0[k2].0@));
                    }
                }
            }

            // the member list of the left room loses exactly the url
            old(self).lemma_rooms_at_is(room@, ii);
            lemma_remove_one_at(names_model(r0[ii].1@), url@, jj);
            if kept {
                self.lemma_rooms_at_is(room@, ii);
                assert(names_model(r1[ii].1@) =~= names_model(r0[ii].1@).remove(jj));
            } else {
                assert forall|l: int| 0 <= l < r1.len() implies (#[trigger] r1[l]).0@ != room@ by {
                    let l2: int = if l < ii {
                        l
                    } else {
                        l + 1
                    };
                    if l2 < ii {
                        assert(r0[l2].0@ != r0[ii].0@);
                    } else {
                        assert(r0[ii].0@ != r0[l2].0@);
                    }
                }
                assert(!rooms_has(r1, room@));
                assert(names_model(r0[ii].1@).remove(jj) =~= Seq::<Seq<char>>::empty());
            }

            // member lists of other rooms are unchanged
            assert forall|rm: Seq<char>| rm != room@ implies #[trigger] self.members_of(rm) == old(
                self,
            ).members_of(rm) by {
                if rooms_has(r0, rm) {
                    let i2 = rooms_at(r0, rm);
                    old(self).lemma_rooms_at_is(rm, i2);
                    assert(i2 != ii);
                    let i3: int = if kept || i2 < ii {
                        i2
                    } else {
                        i2 - 1
                    };
                    assert(r1[i3] == r0[i2]);
                    self.lemma_rooms_at_is(rm, i3);
                } else {
                    assert forall|l: int| 0 <= l < r1.len() implies (#[trigger] r1[l]).0@ != rm by {
                        let l2: int = if kept || l < ii {
                            l
                        } else {
                            l + 1
                        };
                        assert(rooms_has(r0, r0[l2].0@));
                    }
                }
            }
        }
        Some(room)
    }
}

} // verus!
