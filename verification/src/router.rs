//! The topic router: room membership for the subscriber transport. Rooms
//! are created lazily on first join; the reserved topic `*` moves a
//! session out of every room and into the wildcard room `__all__`; a
//! publish to a topic goes to the topic's room and to the wildcard room.

use crate::models::string_eq;
use vstd::prelude::*;

verus! {

/// Ghost image of one room.
#[verifier::ext_equal]
pub struct RoomV {
    pub name: Seq<char>,
    pub members: Seq<Seq<char>>,
}

/// One room: its name and the session ids joined to it.
#[derive(Debug, PartialEq, Eq)]
pub struct Room {
    pub name: String,
    pub members: Vec<String>,
}

impl View for Room {
    type V = RoomV;

    open spec fn view(&self) -> RoomV {
        RoomV { name: self.name@, members: self.members.deep_view() }
    }
}

impl DeepView for Room {
    type V = RoomV;

    open spec fn deep_view(&self) -> RoomV {
        self.view()
    }
}

/// The wildcard topic a subscriber sends.
pub open spec fn wildcard_topic() -> Seq<char> {
    "*"@
}

/// The room that receives every publish.
pub open spec fn wildcard_room() -> Seq<char> {
    "__all__"@
}

/// Holds when a room named `name` exists.
pub open spec fn room_has(s: Seq<RoomV>, name: Seq<char>) -> bool {
    exists|i: int| 0 <= i < s.len() && s[i].name == name
}

/// The index of the room named `name`; meaningful under `rooms_wf`.
pub open spec fn room_index_of(s: Seq<RoomV>, name: Seq<char>) -> int {
    choose|i: int| 0 <= i < s.len() && s[i].name == name
}

/// Holds when `sid` appears in the member list `ms`.
pub open spec fn member_listed(ms: Seq<Seq<char>>, sid: Seq<char>) -> bool {
    exists|i: int| 0 <= i < ms.len() && ms[i] == sid
}

/// Room names are unique and no room lists a member twice.
pub open spec fn rooms_wf(s: Seq<RoomV>) -> bool {
    &&& forall|i: int, j: int|
        0 <= i < j < s.len() ==> (#[trigger] s[i]).name != (#[trigger] s[j]).name
    &&& forall|i: int| 0 <= i < s.len() ==> members_distinct((#[trigger] s[i]).members)
}

/// A member list holds no session twice.
pub open spec fn members_distinct(ms: Seq<Seq<char>>) -> bool {
    forall|i: int, j: int| 0 <= i < j < ms.len() ==> (#[trigger] ms[i]) != (#[trigger] ms[j])
}

/// The rooms after `sid` joins `room`: the room is created on first join,
/// and joining again changes nothing.
pub open spec fn rooms_join(s: Seq<RoomV>, room: Seq<char>, sid: Seq<char>) -> Seq<RoomV> {
    if room_has(s, room) {
        let i = room_index_of(s, room);
        if member_listed(s[i].members, sid) {
            s
        } else {
            s.update(i, RoomV { name: s[i].name, members: s[i].members.push(sid) })
        }
    } else {
        s.push(RoomV { name: room, members: seq![sid] })
    }
}

/// Keeping every member other than `sid`.
pub open spec fn not_sid(sid: Seq<char>) -> spec_fn(Seq<char>) -> bool {
    |m: Seq<char>| m != sid
}

/// The rooms after `sid` leaves every room.
pub open spec fn rooms_leave_all(s: Seq<RoomV>, sid: Seq<char>) -> Seq<RoomV> {
    s.map_values(|r: RoomV| RoomV { name: r.name, members: r.members.filter(not_sid(sid)) })
}

/// The rooms after one subscribe of `sid` to `topic`: the wildcard topic
/// leaves every room and joins the wildcard room, any other topic joins
/// the room of that name.
pub open spec fn rooms_subscribe(s: Seq<RoomV>, sid: Seq<char>, topic: Seq<char>) -> Seq<RoomV> {
    if topic == wildcard_topic() {
        rooms_join(rooms_leave_all(s, sid), wildcard_room(), sid)
    } else {
        rooms_join(s, topic, sid)
    }
}

/// The members of the room named `name`, none if it does not exist.
pub open spec fn members_of(s: Seq<RoomV>, name: Seq<char>) -> Seq<Seq<char>> {
    if room_has(s, name) {
        s[room_index_of(s, name)].members
    } else {
        Seq::empty()
    }
}

/// The sessions a publish to `topic` reaches: the topic's room and the
/// wildcard room, in that order.
pub open spec fn deliver_targets(s: Seq<RoomV>, topic: Seq<char>) -> Seq<Seq<char>> {
    members_of(s, topic) + members_of(s, wildcard_room())
}

/// The topic router.
pub struct Router {
    rooms: Vec<Room>,
}

impl View for Router {
    type V = Seq<RoomV>;

    closed spec fn view(&self) -> Seq<RoomV> {
        self.rooms.deep_view()
    }
}

impl Router {
    /// Well-formedness of the room table.
    pub open spec fn wf(&self) -> bool {
        rooms_wf(self@)
    }

    /// A router with no rooms.
    pub fn new() -> (r: Router)
        ensures
            r@ == Seq::<RoomV>::empty(),
            r.wf(),
    {
        let r = Router { rooms: Vec::new() };
        proof {
            assert(r@ =~= Seq::<RoomV>::empty());
        }
        r
    }

    /// The index of the room named `name`, if it exists.
    fn find_room(&self, name: &String) -> (r: Option<usize>)
        ensures
            match r {
                Some(i) => 0 <= i < self@.len() && self@[i as int].name == name@,
                None => !room_has(self@, name@),
            },
    {
        let mut i: usize = 0;
        while i < self.rooms.len()
            invariant
                0 <= i <= self@.len(),
                self@.len() == self.rooms.len(),
                forall|k: int| 0 <= k < i ==> (#[trigger] self@[k]).name != name@,
            decreases self.rooms.len() - i,
        {
            if self.rooms[i].name == *name {
                return Some(i);
            }
            i += 1;
        }
        None
    }

    /// Whether `sid` is listed in `ms`.
    fn members_contain(ms: &Vec<String>, sid: &String) -> (r: bool)
        ensures
            r == member_listed(ms.deep_view(), sid@),
    {
        let mut i: usize = 0;
        while i < ms.len()
            invariant
                0 <= i <= ms.len(),
                forall|k: int| 0 <= k < i ==> ms.deep_view()[k] != sid@,
            decreases ms.len() - i,
        {
            if ms[i] == *sid {
                assert(ms.deep_view()[i as int] == sid@);
                return true;
            }
            i += 1;
        }
        false
    }

    /// Join `sid` to the room named `room`, creating the room on first
    /// use; joining a room twice changes nothing.
    pub fn join(&mut self, room: &String, sid: &String)
        requires
            old(self).wf(),
        ensures
            final(self).wf(),
            final(self)@ == rooms_join(old(self)@, room@, sid@),
    {
        let ghost s0 = self@;
        match self.find_room(room) {
            Some(i) => {
                proof {
                    let w = room_index_of(s0, room@);
                    assert(0 <= w < s0.len() && s0[w].name == room@);
                    if w != i {
                        assert(s0[w].name != s0[i as int].name);
                    }
                }
                if Self::members_contain(&self.rooms[i].members, sid) {
                    proof {
                        assert(self@ =~= rooms_join(s0, room@, sid@));
                    }
                } else {
                    let mut r = self.rooms.remove(i);
                    r.members.push(sid.clone());
                    self.rooms.insert(i, r);
                    proof {
                        let target = rooms_join(s0, room@, sid@);
                        assert forall|k: int| 0 <= k < self@.len() implies self@[k] == target[k] by {
                            if k == i {
                                assert(self@[k].members =~= s0[i as int].members.push(sid@));
                                assert(self@[k] =~= target[k]);
                            }
                        }
                        assert(self@ =~= target);
                        assert forall|a: int| 0 <= a < self@.len() implies members_distinct(
                            (#[trigger] self@[a]).members,
                        ) by {
                            if a == i {
                                assert(!member_listed(s0[a].members, sid@));
                                assert forall|x: int, y: int|
                                    0 <= x < y < self@[a].members.len() implies (#[trigger] self@[a].members[x])
                                    != (#[trigger] self@[a].members[y]) by {
                                    if y == self@[a].members.len() - 1 {
                                        assert(self@[a].members[x] == s0[a].members[x]);
                                        assert(member_listed(s0[a].members, sid@) || s0[a].members[x]
                                            != sid@);
                                    }
                                }
                            }
                        }
                    }
                }
            },
            None => {
                let mut members: Vec<String> = Vec::new();
                members.push(sid.clone());
                let r = Room { name: room.clone(), members };
                proof {
                    assert(r@.members =~= seq![sid@]);
                }
                self.rooms.push(r);
                proof {
                    assert(self@ =~= s0.push(r@));
                    assert(self@ =~= rooms_join(s0, room@, sid@));
                }
            },
        }
    }

    /// Remove `sid` from every room.
    pub fn leave_all(&mut self, sid: &String)
        requires
            old(self).wf(),
        ensures
            final(self).wf(),
            final(self)@ == rooms_leave_all(old(self)@, sid@),
    {
        let ghost s0 = self@;
        let mut i: usize = 0;
        while i < self.rooms.len()
            invariant
                0 <= i <= self.rooms.len(),
                self@.len() == self.rooms.len(),
                s0.len() == self.rooms.len(),
                rooms_wf(s0),
                forall|k: int|
                    i <= k < self@.len() ==> #[trigger] self@[k] == s0[k],
                forall|k: int|
                    0 <= k < i ==> #[trigger] self@[k] == (RoomV {
                        name: s0[k].name,
                        members: s0[k].members.filter(not_sid(sid@)),
                    }),
            decreases self.rooms.len() - i,
        {
            let ghost before = self@;
            let mut room = self.rooms.remove(i);
            let ghost mv0 = room.members.deep_view();
            let filtered = filter_out_member(&room.members, sid);
            room.members = filtered;
            self.rooms.insert(i, room);
            proof {
                assert forall|k: int| 0 <= k < self@.len() implies #[trigger] self@[k] == (if k == i {
                    RoomV { name: before[i as int].name, members: mv0.filter(not_sid(sid@)) }
                } else {
                    before[k]
                }) by {
                    if k < i {
                    } else if k == i {
                        assert(self@[k].name == before[i as int].name);
                    } else {
                    }
                }
                assert(mv0 == s0[i as int].members);
            }
            i += 1;
        }
        proof {
            let target = rooms_leave_all(s0, sid@);
            assert forall|k: int| 0 <= k < self@.len() implies self@[k] == target[k] by {
                assert(self@[k] =~= target[k]);
            }
            assert(self@ =~= target);
            assert forall|a: int| 0 <= a < self@.len() implies members_distinct(
                (#[trigger] self@[a]).members,
            ) by {
                let pred = not_sid(sid@);
                let fm = s0[a].members.filter(pred);
                assert(self@[a].members == fm);
                assert forall|x: int, y: int| 0 <= x < y < fm.len() implies (#[trigger] fm[x])
                    != (#[trigger] fm[y]) by {
                    lemma_filter_distinct(s0[a].members, pred, x, y);
                }
            }
            assert forall|a: int, b: int|
                0 <= a < b < self@.len() implies (#[trigger] self@[a]).name
                != (#[trigger] self@[b]).name by {
                assert(s0[a].name != s0[b].name);
            }
        }
    }

    /// Apply one subscribe of `sid` to `topic`.
    pub fn subscribe_topic(&mut self, sid: &String, topic: &String)
        requires
            old(self).wf(),
        ensures
            final(self).wf(),
            final(self)@ == rooms_subscribe(old(self)@, sid@, topic@),
    {
        if string_eq(topic, "*") {
            self.leave_all(sid);
            let all: String = "__all__".to_owned();
            self.join(&all, sid);
        } else {
            self.join(topic, sid);
        }
    }

    /// The sessions a publish to `topic` reaches, topic room first, then
    /// the wildcard room.
    pub fn deliver_list(&self, topic: &String) -> (r: Vec<String>)
        requires
            self.wf(),
        ensures
            r.deep_view() == deliver_targets(self@, topic@),
    {
        let mut r: Vec<String> = Vec::new();
        match self.find_room(topic) {
            Some(i) => {
                proof {
                    let w = room_index_of(self@, topic@);
                    assert(0 <= w < self@.len() && self@[w].name == topic@);
                    if w != i {
                        assert(self@[w].name != self@[i as int].name);
                    }
                }
                let mut ms = crate::registry::clone_strings(&self.rooms[i].members);
                r.append(&mut ms);
                proof {
                    assert(r.deep_view() =~= members_of(self@, topic@));
                }
            },
            None => {
                proof {
                    assert(r.deep_view() =~= members_of(self@, topic@));
                }
            },
        }
        let ghost firstpart = r.deep_view();
        let all: String = "__all__".to_owned();
        match self.find_room(&all) {
            Some(i) => {
                proof {
                    let w = room_index_of(self@, wildcard_room());
                    assert(0 <= w < self@.len() && self@[w].name == wildcard_room());
                    if w != i {
                        assert(self@[w].name != self@[i as int].name);
                    }
                }
                let mut ms = crate::registry::clone_strings(&self.rooms[i].members);
                let ghost msd = ms.deep_view();
                r.append(&mut ms);
                proof {
                    assert(msd == members_of(self@, wildcard_room()));
                    assert(r.deep_view() =~= firstpart + msd);
                }
            },
            None => {
                proof {
                    assert(r.deep_view() =~= firstpart + members_of(self@, wildcard_room()));
                }
            },
        }
        proof {
            assert(r.deep_view() =~= deliver_targets(self@, topic@));
        }
        r
    }
}

/// The members of `ms` other than `sid`, in order.
fn filter_out_member(ms: &Vec<String>, sid: &String) -> (r: Vec<String>)
    ensures
        r.deep_view() == ms.deep_view().filter(not_sid(sid@)),
{
    let ghost pred = not_sid(sid@);
    let mut r: Vec<String> = Vec::new();
    let mut i: usize = 0;
    proof {
        reveal(Seq::filter);
        assert(ms.deep_view().take(0) =~= Seq::<Seq<char>>::empty());
        assert(r.deep_view() =~= ms.deep_view().take(0).filter(pred));
    }
    while i < ms.len()
        invariant
            0 <= i <= ms.len(),
            r.deep_view() == ms.deep_view().take(i as int).filter(not_sid(sid@)),
        decreases ms.len() - i,
    {
        let ghost pr = not_sid(sid@);
        proof {
            reveal(Seq::filter);
            assert(ms.deep_view().take(i + 1).drop_last() =~= ms.deep_view().take(i as int));
            assert(ms.deep_view().take(i + 1).last() == ms.deep_view()[i as int]);
        }
        if !(ms[i] == *sid) {
            let ghost d0 = r.deep_view();
            let ghost rraw = r@;
            r.push(ms[i].clone());
            proof {
                assert forall|k: int| 0 <= k < r.deep_view().len() implies r.deep_view()[k]
                    == d0.push(ms.deep_view()[i as int])[k] by {
                    if k < d0.len() {
                        assert(r@[k] == rraw[k]);
                    } else {
                        assert(r@[k]@ == ms.deep_view()[i as int]);
                    }
                }
                assert(r.deep_view() =~= d0.push(ms.deep_view()[i as int]));
                assert(pr(ms.deep_view()[i as int]));
                assert(r.deep_view() =~= ms.deep_view().take(i + 1).filter(pr));
            }
        } else {
            proof {
                assert(!pr(ms.deep_view()[i as int]));
                assert(r.deep_view() =~= ms.deep_view().take(i + 1).filter(pr));
            }
        }
        i += 1;
    }
    proof {
        assert(ms.deep_view().take(ms@.len() as int) =~= ms.deep_view());
    }
    r
}

/// Filtering keeps distinctness.
proof fn lemma_filter_distinct(
    ms: Seq<Seq<char>>,
    pred: spec_fn(Seq<char>) -> bool,
    x: int,
    y: int,
)
    requires
        members_distinct(ms),
        0 <= x < y < ms.filter(pred).len(),
    ensures
        ms.filter(pred)[x] != ms.filter(pred)[y],
    decreases ms.len(),
{
    reveal(Seq::filter);
    broadcast use vstd::seq_lib::group_filter_ensures;

    if ms.len() > 0 {
        let fm = ms.filter(pred);
        let front = ms.drop_last().filter(pred);
        assert(members_distinct(ms.drop_last()));
        if pred(ms.last()) {
            assert(fm == front.push(ms.last()));
            if y < front.len() {
                lemma_filter_distinct(ms.drop_last(), pred, x, y);
            } else {
                assert(fm[y] == ms.last());
                assert(fm[x] == front[x]);
                lemma_filter_member_src(ms.drop_last(), pred, x);
                let s = choose|s: int|
                    0 <= s < ms.drop_last().len() && ms.drop_last()[s] == front[x];
                assert(ms[s] == ms.drop_last()[s]);
                assert(ms[s] != ms.last());
            }
        } else {
            lemma_filter_distinct(ms.drop_last(), pred, x, y);
        }
    }
}

/// Every filtered element comes from the source.
proof fn lemma_filter_member_src(ms: Seq<Seq<char>>, pred: spec_fn(Seq<char>) -> bool, x: int)
    requires
        0 <= x < ms.filter(pred).len(),
    ensures
        exists|s: int| 0 <= s < ms.len() && ms[s] == ms.filter(pred)[x],
    decreases ms.len(),
{
    reveal(Seq::filter);
    if ms.len() > 0 {
        let front = ms.drop_last().filter(pred);
        if pred(ms.last()) && x == front.len() {
            assert(ms[ms.len() - 1] == ms.filter(pred)[x]);
        } else {
            lemma_filter_member_src(ms.drop_last(), pred, x);
            let s = choose|s: int|
                0 <= s < ms.drop_last().len() && ms.drop_last()[s] == ms.drop_last().filter(
                    pred,
                )[x];
            assert(ms[s] == ms.drop_last()[s]);
            assert(ms.filter(pred)[x] == ms.drop_last().filter(pred)[x]);
        }
    }
}

// ------------------------------------------------------------------
// Laws
// ------------------------------------------------------------------

/// After a wildcard subscribe, the session is reached by a publish to any
/// topic, and stands in no room but the wildcard room.
pub proof fn lemma_wildcard_reaches_everything(
    s: Seq<RoomV>,
    sid: Seq<char>,
    topic: Seq<char>,
)
    requires
        rooms_wf(s),
    ensures
        member_listed(
            deliver_targets(rooms_subscribe(s, sid, wildcard_topic()), topic),
            sid,
        ),
        (forall|i: int|
            0 <= i < rooms_subscribe(s, sid, wildcard_topic()).len()
                && (#[trigger] rooms_subscribe(s, sid, wildcard_topic())[i]).name
                != wildcard_room() ==> !member_listed(
                rooms_subscribe(s, sid, wildcard_topic())[i].members,
                sid,
            )),
{
    broadcast use vstd::seq_lib::group_filter_ensures;

    let s1 = rooms_leave_all(s, sid);
    let s2 = rooms_subscribe(s, sid, wildcard_topic());
    assert(s2 == rooms_join(s1, wildcard_room(), sid));
    let pred = not_sid(sid);

    // after leaving, sid stands in no room
    assert forall|i: int| 0 <= i < s1.len() implies !member_listed(
        (#[trigger] s1[i]).members,
        sid,
    ) by {
        let fm = s[i].members.filter(pred);
        assert(s1[i].members == fm);
        if member_listed(fm, sid) {
            let k = choose|k: int| 0 <= k < fm.len() && fm[k] == sid;
            s[i].members.lemma_filter_pred(pred, k);
        }
    }

    // the join puts sid in the wildcard room
    if room_has(s1, wildcard_room()) {
        let i = room_index_of(s1, wildcard_room());
        assert(0 <= i < s1.len() && s1[i].name == wildcard_room());
        assert(!member_listed(s1[i].members, sid));
        assert(s2[i].members == s1[i].members.push(sid));
        assert(s2[i].members[s2[i].members.len() - 1] == sid);
        assert(room_has(s2, wildcard_room())) by {
            assert(s2[i].name == wildcard_room());
        }
        let w = room_index_of(s2, wildcard_room());
        assert(0 <= w < s2.len() && s2[w].name == wildcard_room());
        if w != i {
            assert(s1[w].name == s2[w].name);
            assert(s1[w].name != s1[i].name);
        }
        assert(member_listed(members_of(s2, wildcard_room()), sid));
    } else {
        let n = s1.len() as int;
        assert(s2 == s1.push(RoomV { name: wildcard_room(), members: seq![sid] }));
        assert(s2[n].name == wildcard_room());
        assert(room_has(s2, wildcard_room()));
        let w = room_index_of(s2, wildcard_room());
        assert(0 <= w < s2.len() && s2[w].name == wildcard_room());
        if w != n {
            assert(s2[w] == s1[w]);
            assert(room_has(s1, wildcard_room()));
        }
        assert(s2[n].members[0] == sid);
        assert(member_listed(members_of(s2, wildcard_room()), sid));
    }

    // delivery includes the wildcard room's members
    let dt = deliver_targets(s2, topic);
    let mall = members_of(s2, wildcard_room());
    let k = choose|k: int| 0 <= k < mall.len() && mall[k] == sid;
    assert(dt[members_of(s2, topic).len() + k] == sid);

    // and sid stands in no other room
    assert forall|i: int|
        0 <= i < s2.len() && (#[trigger] s2[i]).name != wildcard_room() implies !member_listed(
        s2[i].members,
        sid,
    ) by {
        if room_has(s1, wildcard_room()) {
            let j = room_index_of(s1, wildcard_room());
            if i != j {
                assert(s2[i] == s1[i]);
            }
        } else {
            if i < s1.len() {
                assert(s2[i] == s1[i]);
            }
        }
    }
}

} // verus!
