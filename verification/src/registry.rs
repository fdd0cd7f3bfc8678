//! The in-memory subscription registry: one entry per live session,
//! holding the consumer name, the ordered list of distinct topics the
//! session subscribed to, and the time it connected.
//!
//! The registry is the authoritative source for live-session queries;
//! durable subscription rows only mirror it.

use crate::models::{ClientInfo, ClientV};
use vstd::prelude::*;

verus! {

/// Ghost image of one registry entry.
#[verifier::ext_equal]
pub struct EntryV {
    pub sid: Seq<char>,
    pub consumer: Seq<char>,
    pub topics: Seq<Seq<char>>,
    pub connected_at: u64,
}

/// One live session.
#[derive(Debug, PartialEq, Eq)]
pub struct RegistryEntry {
    pub sid: String,
    pub consumer: String,
    pub topics: Vec<String>,
    pub connected_at: u64,
}

impl View for RegistryEntry {
    type V = EntryV;

    open spec fn view(&self) -> EntryV {
        EntryV {
            sid: self.sid@,
            consumer: self.consumer@,
            topics: self.topics.deep_view(),
            connected_at: self.connected_at,
        }
    }
}

impl DeepView for RegistryEntry {
    type V = EntryV;

    open spec fn deep_view(&self) -> EntryV {
        self.view()
    }
}

/// Holds when some entry of `s` belongs to session `sid`.
pub open spec fn reg_has_sid(s: Seq<EntryV>, sid: Seq<char>) -> bool {
    exists|i: int| 0 <= i < s.len() && s[i].sid == sid
}

/// The index of the entry of session `sid`; meaningful under `reg_wf`,
/// where at most one entry matches.
pub open spec fn reg_index_of(s: Seq<EntryV>, sid: Seq<char>) -> int {
    choose|i: int| 0 <= i < s.len() && s[i].sid == sid
}

/// Holds when `t` appears in the topic list `ts`.
pub open spec fn topic_listed(ts: Seq<Seq<char>>, t: Seq<char>) -> bool {
    exists|i: int| 0 <= i < ts.len() && ts[i] == t
}

/// A topic list holds no topic twice.
pub open spec fn topics_distinct(ts: Seq<Seq<char>>) -> bool {
    forall|i: int, j: int| 0 <= i < j < ts.len() ==> (#[trigger] ts[i]) != (#[trigger] ts[j])
}

/// Registry well-formedness: session ids are unique and no entry lists a
/// topic twice.
pub open spec fn reg_wf(s: Seq<EntryV>) -> bool {
    &&& forall|i: int, j: int|
        0 <= i < j < s.len() ==> (#[trigger] s[i]).sid != (#[trigger] s[j]).sid
    &&& forall|i: int| 0 <= i < s.len() ==> topics_distinct((#[trigger] s[i]).topics)
}

/// The registry after a subscribe: a fresh session gets a new entry with
/// a one-topic list; an existing session appends the topic only if it is
/// not already listed.
pub open spec fn reg_add(
    s: Seq<EntryV>,
    sid: Seq<char>,
    consumer: Seq<char>,
    topic: Seq<char>,
    now: u64,
) -> Seq<EntryV> {
    if reg_has_sid(s, sid) {
        let i = reg_index_of(s, sid);
        if topic_listed(s[i].topics, topic) {
            s
        } else {
            s.update(
                i,
                EntryV {
                    sid: s[i].sid,
                    consumer: s[i].consumer,
                    topics: s[i].topics.push(topic),
                    connected_at: s[i].connected_at,
                },
            )
        }
    } else {
        s.push(EntryV { sid, consumer, topics: seq![topic], connected_at: now })
    }
}

/// The registry after a disconnect: the entry of `sid` is gone, all
/// others are untouched.
pub open spec fn reg_remove(s: Seq<EntryV>, sid: Seq<char>) -> Seq<EntryV> {
    if reg_has_sid(s, sid) {
        s.remove(reg_index_of(s, sid))
    } else {
        s
    }
}

/// The client rows one entry contributes: one row per subscribed topic.
pub open spec fn entry_rows(e: EntryV) -> Seq<ClientV> {
    e.topics.map_values(
        |t: Seq<char>| ClientV { consumer: e.consumer, topic: t, connected_at: e.connected_at },
    )
}

/// The full live-clients listing: every entry flattened to one row per
/// topic, in registry order.
pub open spec fn reg_rows(s: Seq<EntryV>) -> Seq<ClientV>
    decreases s.len(),
{
    if s.len() == 0 {
        Seq::empty()
    } else {
        reg_rows(s.drop_last()) + entry_rows(s.last())
    }
}

/// Appending an entry appends its rows.
pub proof fn lemma_reg_rows_push(s: Seq<EntryV>, e: EntryV)
    ensures
        reg_rows(s.push(e)) == reg_rows(s) + entry_rows(e),
{
    assert(s.push(e).drop_last() =~= s);
    assert(s.push(e).last() == e);
}

/// Every row of the listing is contributed by some entry.
pub proof fn lemma_reg_rows_source(s: Seq<EntryV>, k: int)
    requires
        0 <= k < reg_rows(s).len(),
    ensures
        (exists|i: int, j: int|
            0 <= i < s.len() && 0 <= j < s[i].topics.len() && reg_rows(s)[k] == ClientV {
                consumer: s[i].consumer,
                topic: s[i].topics[j],
                connected_at: s[i].connected_at,
            }),
    decreases s.len(),
{
    let front = reg_rows(s.drop_last());
    let tail = entry_rows(s.last());
    if k < front.len() {
        lemma_reg_rows_source(s.drop_last(), k);
        let (i, j): (int, int) = choose|i: int, j: int|
            0 <= i < s.drop_last().len() && 0 <= j < s.drop_last()[i].topics.len() && reg_rows(
                s.drop_last(),
            )[k] == ClientV {
                consumer: s.drop_last()[i].consumer,
                topic: s.drop_last()[i].topics[j],
                connected_at: s.drop_last()[i].connected_at,
            };
        assert(s.drop_last()[i] == s[i]);
        assert(reg_rows(s)[k] == reg_rows(s.drop_last())[k]);
    } else {
        let n = s.len() - 1;
        let j = k - front.len();
        assert(reg_rows(s)[k] == tail[j]);
        assert(tail[j] == ClientV {
            consumer: s[n].consumer,
            topic: s[n].topics[j],
            connected_at: s[n].connected_at,
        });
    }
}

/// The in-memory registry.
pub struct Registry {
    entries: Vec<RegistryEntry>,
}

impl View for Registry {
    type V = Seq<EntryV>;

    closed spec fn view(&self) -> Seq<EntryV> {
        self.entries.deep_view()
    }
}

impl Registry {
    /// Well-formedness of the registry state.
    pub open spec fn wf(&self) -> bool {
        reg_wf(self@)
    }

    /// An empty registry.
    pub fn new() -> (r: Registry)
        ensures
            r@ == Seq::<EntryV>::empty(),
            r.wf(),
    {
        let r = Registry { entries: Vec::new() };
        proof {
            assert(r@ =~= Seq::<EntryV>::empty());
        }
        r
    }

    /// Number of live sessions.
    pub fn len(&self) -> (n: usize)
        ensures
            n == self@.len(),
    {
        self.entries.len()
    }

    /// The index of the entry of `sid`, if the session is live.
    fn find(&self, sid: &String) -> (r: Option<usize>)
        ensures
            match r {
                Some(i) => 0 <= i < self@.len() && self@[i as int].sid == sid@,
                None => !reg_has_sid(self@, sid@),
            },
    {
        let mut i: usize = 0;
        while i < self.entries.len()
            invariant
                0 <= i <= self@.len(),
                forall|k: int| 0 <= k < i ==> (#[trigger] self@[k]).sid != sid@,
            decreases self@.len() - i,
        {
            if self.entries[i].sid == *sid {
                return Some(i);
            }
            i += 1;
        }
        None
    }

    /// Whether the topic list `ts` already holds `t`.
    fn topics_contain(ts: &Vec<String>, t: &String) -> (r: bool)
        ensures
            r == topic_listed(ts.deep_view(), t@),
    {
        let mut i: usize = 0;
        while i < ts.len()
            invariant
                0 <= i <= ts.len(),
                forall|k: int| 0 <= k < i ==> ts.deep_view()[k] != t@,
            decreases ts.len() - i,
        {
            if ts[i] == *t {
                assert(ts.deep_view()[i as int] == t@);
                return true;
            }
            i += 1;
        }
        false
    }

    /// Subscribe session `sid` of `consumer` to `topic` at time `now`:
    /// inserts a fresh entry, or idempotently appends the topic.
    pub fn add(&mut self, sid: String, consumer: String, topic: String, now: u64)
        requires
            old(self).wf(),
        ensures
            final(self).wf(),
            final(self)@ == reg_add(old(self)@, sid@, consumer@, topic@, now),
    {
        let ghost s0 = self@;
        match self.find(&sid) {
            Some(i) => {
                proof {
                    assert(reg_has_sid(s0, sid@));
                    let w = reg_index_of(s0, sid@);
                    assert(0 <= w < s0.len() && s0[w].sid == sid@);
                    if w != i {
                        assert(s0[w].sid != s0[i as int].sid);
                    }
                    assert(reg_index_of(s0, sid@) == i);
                }
                if Self::topics_contain(&self.entries[i].topics, &topic) {
                    proof {
                        assert(self@ =~= reg_add(s0, sid@, consumer@, topic@, now));
                    }
                } else {
                    let mut e = self.entries.remove(i);
                    e.topics.push(topic);
                    self.entries.insert(i, e);
                    proof {
                        let s1 = self@;
                        let target = reg_add(s0, sid@, consumer@, topic@, now);
                        assert forall|k: int| 0 <= k < s1.len() implies s1[k] == target[k] by {
                            if k < i {
                            } else if k == i {
                                assert(s1[k].topics =~= s0[i as int].topics.push(topic@));
                            } else {
                            }
                        }
                        assert(s1 =~= target);
                        // well-formedness: only entry i changed, and only by
                        // appending a topic it did not list
                        assert forall|a: int| 0 <= a < s1.len() implies topics_distinct(
                            (#[trigger] s1[a]).topics,
                        ) by {
                            if a == i {
                                assert(!topic_listed(s0[a].topics, topic@));
                                assert forall|x: int, y: int|
                                    0 <= x < y < s1[a].topics.len() implies (#[trigger] s1[a].topics[x])
                                    != (#[trigger] s1[a].topics[y]) by {
                                    if y == s1[a].topics.len() - 1 {
                                        assert(s1[a].topics[x] == s0[a].topics[x]);
                                        assert(topic_listed(s0[a].topics, topic@) || s0[a].topics[x]
                                            != topic@);
                                    }
                                }
                            }
                        }
                    }
                }
            },
            None => {
                let mut topics: Vec<String> = Vec::new();
                topics.push(topic);
                let e = RegistryEntry { sid, consumer, topics, connected_at: now };
                proof {
                    assert(e@.topics =~= seq![e.topics@[0]@]);
                }
                self.entries.push(e);
                proof {
                    assert(self@ =~= s0.push(e@));
                    assert(self@ =~= reg_add(s0, e.sid@, e.consumer@, e.topics@[0]@, now));
                }
            },
        }
    }

    /// Drop the entry of session `sid`, returning the prior entry if the
    /// session was live. Afterwards the registry holds no entry for `sid`.
    pub fn remove(&mut self, sid: &String) -> (prior: Option<RegistryEntry>)
        requires
            old(self).wf(),
        ensures
            final(self).wf(),
            final(self)@ == reg_remove(old(self)@, sid@),
            !reg_has_sid(final(self)@, sid@),
            match prior {
                Some(e) => reg_has_sid(old(self)@, sid@) && e@ == old(self)@[reg_index_of(
                    old(self)@,
                    sid@,
                )],
                None => !reg_has_sid(old(self)@, sid@),
            },
    {
        let ghost s0 = self@;
        match self.find(sid) {
            Some(i) => {
                proof {
                    let w = reg_index_of(s0, sid@);
                    assert(0 <= w < s0.len() && s0[w].sid == sid@);
                    if w != i {
                        assert(s0[w].sid != s0[i as int].sid);
                    }
                }
                let e = self.entries.remove(i);
                proof {
                    assert(self@ =~= s0.remove(i as int));
                    assert forall|k: int| 0 <= k < self@.len() implies (#[trigger] self@[k]).sid
                        != sid@ by {
                        if k < i {
                            assert(self@[k] == s0[k]);
                        } else {
                            assert(self@[k] == s0[k + 1]);
                        }
                    }
                }
                Some(e)
            },
            None => {
                None
            },
        }
    }

    /// The entry of session `sid`, cloned out as plain values.
    pub fn get_by_sid(&self, sid: &String) -> (r: Option<RegistryEntry>)
        ensures
            match r {
                Some(e) => reg_has_sid(self@, sid@) && exists|i: int|
                    0 <= i < self@.len() && self@[i].sid == sid@ && e@ == self@[i],
                None => !reg_has_sid(self@, sid@),
            },
    {
        match self.find(sid) {
            Some(i) => {
                let e = &self.entries[i];
                let r = RegistryEntry {
                    sid: e.sid.clone(),
                    consumer: e.consumer.clone(),
                    topics: clone_strings(&e.topics),
                    connected_at: e.connected_at,
                };
                proof {
                    assert(r@ == self@[i as int]);
                }
                Some(r)
            },
            None => None,
        }
    }

    /// The live-clients listing: one row per (session, topic), in
    /// registry order.
    pub fn clients(&self) -> (r: Vec<ClientInfo>)
        ensures
            r.deep_view() == reg_rows(self@),
    {
        let mut r: Vec<ClientInfo> = Vec::new();
        let mut i: usize = 0;
        proof {
            assert(self@.take(0) =~= Seq::<EntryV>::empty());
            assert(r.deep_view() =~= reg_rows(self@.take(0)));
        }
        while i < self.entries.len()
            invariant
                0 <= i <= self@.len(),
                self@.len() == self.entries.len(),
                r.deep_view() == reg_rows(self@.take(i as int)),
            decreases self@.len() - i,
        {
            let e = &self.entries[i];
            let mut j: usize = 0;
            while j < e.topics.len()
                invariant
                    0 <= j <= e.topics.len(),
                    0 <= i < self@.len(),
                    self@.len() == self.entries.len(),
                    e == &self.entries[i as int],
                    r.deep_view() == reg_rows(self@.take(i as int)) + entry_rows(self@[i as int]).take(
                        j as int,
                    ),
                decreases e.topics.len() - j,
            {
                let row = ClientInfo {
                    consumer: e.consumer.clone(),
                    topic: e.topics[j].clone(),
                    connected_at: e.connected_at,
                };
                proof {
                    assert(row@ == entry_rows(self@[i as int])[j as int]);
                }
                let ghost s0 = r@;
                let ghost d0 = r.deep_view();
                r.push(row);
                proof {
                    assert(r@ == s0.push(row));
                    assert forall|k: int| 0 <= k < r.deep_view().len() implies r.deep_view()[k]
                        == d0.push(row@)[k] by {
                        if k < s0.len() {
                            assert(r@[k] == s0[k]);
                        } else {
                            assert(r@[k] == row);
                        }
                    }
                    assert(r.deep_view() =~= d0.push(row@));
                    assert(entry_rows(self@[i as int]).take(j + 1) =~= entry_rows(
                        self@[i as int],
                    ).take(j as int).push(row@));
                    assert(r.deep_view() =~= reg_rows(self@.take(i as int)) + entry_rows(
                        self@[i as int],
                    ).take(j + 1));
                }
                j += 1;
            }
            proof {
                assert(entry_rows(self@[i as int]).take(e.topics@.len() as int) =~= entry_rows(
                    self@[i as int],
                ));
                assert(self@.take(i + 1) =~= self@.take(i as int).push(self@[i as int]));
                lemma_reg_rows_push(self@.take(i as int), self@[i as int]);
            }
            i += 1;
        }
        proof {
            assert(self@.take(self@.len() as int) =~= self@);
        }
        r
    }
}

/// Clone a list of strings, value for value.
pub fn clone_strings(v: &Vec<String>) -> (r: Vec<String>)
    ensures
        r@ == v@,
{
    let mut r: Vec<String> = Vec::new();
    let mut i: usize = 0;
    while i < v.len()
        invariant
            0 <= i <= v.len(),
            r@ == v@.take(i as int),
        decreases v.len() - i,
    {
        r.push(v[i].clone());
        proof {
            assert(r@ =~= v@.take(i + 1));
        }
        i += 1;
    }
    proof {
        assert(v@.take(v@.len() as int) =~= v@);
    }
    r
}

// ------------------------------------------------------------------
// Laws
// ------------------------------------------------------------------

/// Subscribing the same session to the same topic twice changes nothing
/// the second time, and the session's topic list holds that topic exactly
/// once: it is listed, and the list holds no topic twice.
pub proof fn lemma_register_idempotent(
    s: Seq<EntryV>,
    sid: Seq<char>,
    consumer: Seq<char>,
    topic: Seq<char>,
    now1: u64,
    now2: u64,
)
    requires
        reg_wf(s),
    ensures
        reg_add(reg_add(s, sid, consumer, topic, now1), sid, consumer, topic, now2) == reg_add(
            s,
            sid,
            consumer,
            topic,
            now1,
        ),
        reg_has_sid(reg_add(s, sid, consumer, topic, now1), sid),
        topic_listed(
            reg_add(s, sid, consumer, topic, now1)[reg_index_of(
                reg_add(s, sid, consumer, topic, now1),
                sid,
            )].topics,
            topic,
        ),
        topics_distinct(
            reg_add(s, sid, consumer, topic, now1)[reg_index_of(
                reg_add(s, sid, consumer, topic, now1),
                sid,
            )].topics,
        ),
{
    let s1 = reg_add(s, sid, consumer, topic, now1);
    lemma_reg_add_wf(s, sid, consumer, topic, now1);
    if reg_has_sid(s, sid) {
        let i = reg_index_of(s, sid);
        assert(0 <= i < s.len() && s[i].sid == sid);
        if topic_listed(s[i].topics, topic) {
            assert(s1 == s);
            assert(reg_index_of(s1, sid) == i);
            assert(s1 =~= reg_add(s1, sid, consumer, topic, now2));
        } else {
            assert(s1[i].sid == sid);
            assert(reg_has_sid(s1, sid));
            let w = reg_index_of(s1, sid);
            assert(0 <= w < s1.len() && s1[w].sid == sid);
            if w != i {
                assert(s[w].sid == s1[w].sid);
            }
            assert(w == i);
            assert(s1[i].topics == s[i].topics.push(topic));
            assert(topic_listed(s1[i].topics, topic)) by {
                assert(s1[i].topics[s1[i].topics.len() - 1] == topic);
            }
            assert(s1 =~= reg_add(s1, sid, consumer, topic, now2));
        }
    } else {
        let n = s.len() as int;
        assert(s1 == s.push(EntryV { sid, consumer, topics: seq![topic], connected_at: now1 }));
        assert(s1[n].sid == sid);
        assert(reg_has_sid(s1, sid));
        let w = reg_index_of(s1, sid);
        assert(0 <= w < s1.len() && s1[w].sid == sid);
        if w != n {
            assert(s1[w] == s[w]);
            assert(reg_has_sid(s, sid));
        }
        assert(w == n);
        assert(topic_listed(s1[n].topics, topic)) by {
            assert(s1[n].topics[0] == topic);
        }
        assert(s1 =~= reg_add(s1, sid, consumer, topic, now2));
    }
}

/// A subscribe keeps the registry well-formed.
pub proof fn lemma_reg_add_wf(
    s: Seq<EntryV>,
    sid: Seq<char>,
    consumer: Seq<char>,
    topic: Seq<char>,
    now: u64,
)
    requires
        reg_wf(s),
    ensures
        reg_wf(reg_add(s, sid, consumer, topic, now)),
{
    let s1 = reg_add(s, sid, consumer, topic, now);
    if reg_has_sid(s, sid) {
        let i = reg_index_of(s, sid);
        if topic_listed(s[i].topics, topic) {
        } else {
            assert forall|a: int| 0 <= a < s1.len() implies topics_distinct(
                (#[trigger] s1[a]).topics,
            ) by {
                if a == i {
                    assert forall|x: int, y: int|
                        0 <= x < y < s1[a].topics.len() implies (#[trigger] s1[a].topics[x])
                        != (#[trigger] s1[a].topics[y]) by {
                        if y == s1[a].topics.len() - 1 {
                            assert(s1[a].topics[x] == s[a].topics[x]);
                            assert(topic_listed(s[a].topics, topic) || s[a].topics[x] != topic);
                        } else {
                            assert(s1[a].topics[x] == s[a].topics[x]);
                            assert(s1[a].topics[y] == s[a].topics[y]);
                        }
                    }
                }
            }
        }
    } else {
        assert forall|a: int| 0 <= a < s1.len() implies topics_distinct(
            (#[trigger] s1[a]).topics,
        ) by {
            if a == s.len() as int {
                assert(s1[a].topics.len() == 1);
            }
        }
    }
}

/// Row `k` of the listing of `s` is contributed by an entry whose session
/// is not `sid`.
pub open spec fn row_from_other_sid(s: Seq<EntryV>, sid: Seq<char>, k: int) -> bool {
    exists|i: int, j: int|
        0 <= i < s.len() && 0 <= j < s[i].topics.len() && s[i].sid != sid && reg_rows(s)[k]
            == ClientV {
            consumer: s[i].consumer,
            topic: s[i].topics[j],
            connected_at: s[i].connected_at,
        }
}

/// After a disconnect the registry holds no entry for the session, and
/// every remaining client row is contributed by an entry of a different
/// session.
pub proof fn lemma_unregister_clears(s: Seq<EntryV>, sid: Seq<char>)
    requires
        reg_wf(s),
    ensures
        !reg_has_sid(reg_remove(s, sid), sid),
        (forall|k: int|
            0 <= k < reg_rows(reg_remove(s, sid)).len() ==> #[trigger] row_from_other_sid(
                reg_remove(s, sid),
                sid,
                k,
            )),
{
    let s1 = reg_remove(s, sid);
    if reg_has_sid(s, sid) {
        let i = reg_index_of(s, sid);
        assert(0 <= i < s.len() && s[i].sid == sid);
        assert forall|k: int| 0 <= k < s1.len() implies (#[trigger] s1[k]).sid != sid by {
            if k < i {
                assert(s1[k] == s[k]);
            } else {
                assert(s1[k] == s[k + 1]);
            }
        }
    }
    assert(!reg_has_sid(s1, sid));
    assert forall|k: int| 0 <= k < reg_rows(s1).len() implies #[trigger] row_from_other_sid(
        s1,
        sid,
        k,
    ) by {
        lemma_reg_rows_source(s1, k);
        let (i, j): (int, int) = choose|i: int, j: int|
            0 <= i < s1.len() && 0 <= j < s1[i].topics.len() && reg_rows(s1)[k] == ClientV {
                consumer: s1[i].consumer,
                topic: s1[i].topics[j],
                connected_at: s1[i].connected_at,
            };
        assert(s1[i].sid != sid);
        assert(0 <= i < s1.len() && 0 <= j < s1[i].topics.len() && s1[i].sid != sid && reg_rows(
            s1,
        )[k] == ClientV {
            consumer: s1[i].consumer,
            topic: s1[i].topics[j],
            connected_at: s1[i].connected_at,
        });
    }
}

} // verus!
