//! A plain model of the relay's durable state: the four row kinds the
//! store holds, the effect of each durable-write command, batch
//! application in queue order, the retention sweep, and the recent-rows
//! queries that back the dashboard.
//!
//! The embedded relational store itself is an external collaborator; the
//! process around the library mirrors this model into it, one committed
//! batch at a time.

use crate::jsontext::{decode_stored_body, decoded_body};
use crate::models::{CmdV, ConV, ConsumptionInfo, DbCommand, MessageInfo, MsgV};
use crate::{MAX_AGE_MS, MAX_CONSUMPTIONS, MAX_MESSAGES, QUERY_LIMIT};
use vstd::prelude::*;
use vstd::seq_lib::group_to_multiset_ensures;

verus! {

/// Ghost image of a durable subscription row.
#[verifier::ext_equal]
pub struct SubV {
    pub sid: Seq<char>,
    pub consumer: Seq<char>,
    pub topic: Seq<char>,
    pub connected_at: u64,
}

/// Ghost image of a recorded schema migration.
#[verifier::ext_equal]
pub struct MigV {
    pub version: u64,
    pub name: Seq<char>,
    pub applied_at: u64,
}

/// A durable subscription row; the session id is its key.
#[derive(Debug, PartialEq, Eq)]
pub struct SubscriptionRow {
    pub sid: String,
    pub consumer: String,
    pub topic: String,
    pub connected_at: u64,
}

impl View for SubscriptionRow {
    type V = SubV;

    open spec fn view(&self) -> SubV {
        SubV {
            sid: self.sid@,
            consumer: self.consumer@,
            topic: self.topic@,
            connected_at: self.connected_at,
        }
    }
}

impl DeepView for SubscriptionRow {
    type V = SubV;

    open spec fn deep_view(&self) -> SubV {
        self.view()
    }
}

/// A recorded schema migration; the version is its key.
#[derive(Debug, PartialEq, Eq)]
pub struct MigrationRow {
    pub version: u64,
    pub name: String,
    pub applied_at: u64,
}

impl View for MigrationRow {
    type V = MigV;

    open spec fn view(&self) -> MigV {
        MigV { version: self.version, name: self.name@, applied_at: self.applied_at }
    }
}

impl DeepView for MigrationRow {
    type V = MigV;

    open spec fn deep_view(&self) -> MigV {
        self.view()
    }
}

/// Ghost image of the whole store.
#[verifier::ext_equal]
pub struct StoreV {
    pub messages: Seq<MsgV>,
    pub consumptions: Seq<ConV>,
    pub subscriptions: Seq<SubV>,
    pub migrations: Seq<MigV>,
}

// ------------------------------------------------------------------
// Spec transitions
// ------------------------------------------------------------------

/// Holds when a subscription row for `sid` is present.
pub open spec fn sub_has_sid(s: Seq<SubV>, sid: Seq<char>) -> bool {
    exists|i: int| 0 <= i < s.len() && s[i].sid == sid
}

/// The index of the subscription row of `sid`; meaningful under
/// `subs_wf`, where at most one row matches.
pub open spec fn sub_index_of(s: Seq<SubV>, sid: Seq<char>) -> int {
    choose|i: int| 0 <= i < s.len() && s[i].sid == sid
}

/// Insert-or-replace by session id.
pub open spec fn subs_upsert(s: Seq<SubV>, row: SubV) -> Seq<SubV> {
    if sub_has_sid(s, row.sid) {
        s.update(sub_index_of(s, row.sid), row)
    } else {
        s.push(row)
    }
}

/// Delete the row of `sid`, if any.
pub open spec fn subs_delete(s: Seq<SubV>, sid: Seq<char>) -> Seq<SubV> {
    if sub_has_sid(s, sid) {
        s.remove(sub_index_of(s, sid))
    } else {
        s
    }
}

/// Holds when migration `version` is recorded.
pub open spec fn mig_has_version(s: Seq<MigV>, version: u64) -> bool {
    exists|i: int| 0 <= i < s.len() && s[i].version == version
}

/// Subscription rows are keyed by session id.
pub open spec fn subs_wf(s: Seq<SubV>) -> bool {
    forall|i: int, j: int| 0 <= i < j < s.len() ==> (#[trigger] s[i]).sid != (#[trigger] s[j]).sid
}

/// Migration rows are keyed by version.
pub open spec fn migs_wf(s: Seq<MigV>) -> bool {
    forall|i: int, j: int|
        0 <= i < j < s.len() ==> (#[trigger] s[i]).version != (#[trigger] s[j]).version
}

/// The store after one durable-write command: messages and consumptions
/// are append-only, subscription rows are upserted or deleted by key.
pub open spec fn store_apply(st: StoreV, c: CmdV) -> StoreV {
    match c {
        CmdV::RegisterSubscription { sid, consumer, topic, connected_at } => StoreV {
            subscriptions: subs_upsert(
                st.subscriptions,
                SubV { sid, consumer, topic, connected_at },
            ),
            ..st
        },
        CmdV::SaveMessage { topic, message_id, message, producer, timestamp } => StoreV {
            messages: st.messages.push(
                MsgV { topic, message_id, message, producer, timestamp },
            ),
            ..st
        },
        CmdV::SaveConsumption { consumer, topic, message_id, message, timestamp } => StoreV {
            consumptions: st.consumptions.push(
                ConV { consumer, topic, message_id, message, timestamp },
            ),
            ..st
        },
        CmdV::UnregisterClient { sid } => StoreV {
            subscriptions: subs_delete(st.subscriptions, sid),
            ..st
        },
    }
}

/// The store after a whole batch, applied front to back.
pub open spec fn store_apply_all(st: StoreV, cmds: Seq<CmdV>) -> StoreV
    decreases cmds.len(),
{
    if cmds.len() == 0 {
        st
    } else {
        store_apply_all(store_apply(st, cmds[0]), cmds.drop_first())
    }
}

/// Applying one more command after a batch is the batch plus that command.
pub proof fn lemma_store_apply_all_snoc(st: StoreV, cmds: Seq<CmdV>, c: CmdV)
    ensures
        store_apply_all(st, cmds.push(c)) == store_apply(store_apply_all(st, cmds), c),
    decreases cmds.len(),
{
    if cmds.len() == 0 {
        assert(cmds.push(c).drop_first() =~= Seq::<CmdV>::empty());
        assert(cmds.push(c)[0] == c);
        assert(store_apply_all(st, cmds) == st);
        assert(store_apply_all(st, cmds.push(c)) == store_apply_all(
            store_apply(st, c),
            cmds.push(c).drop_first(),
        ));
        assert(store_apply_all(store_apply(st, c), Seq::<CmdV>::empty()) == store_apply(st, c));
    } else {
        assert(cmds.push(c).drop_first() =~= cmds.drop_first().push(c));
        assert(cmds.push(c)[0] == cmds[0]);
        lemma_store_apply_all_snoc(store_apply(st, cmds[0]), cmds.drop_first(), c);
        assert(store_apply_all(st, cmds.push(c)) == store_apply_all(
            store_apply(st, cmds[0]),
            cmds.drop_first().push(c),
        ));
        assert(store_apply_all(st, cmds) == store_apply_all(
            store_apply(st, cmds[0]),
            cmds.drop_first(),
        ));
    }
}

/// The message saved by a command, where the command is a message save.
pub open spec fn msg_of_cmd(c: CmdV) -> MsgV {
    match c {
        CmdV::SaveMessage { topic, message_id, message, producer, timestamp } => MsgV {
            topic,
            message_id,
            message,
            producer,
            timestamp,
        },
        _ => MsgV {
            topic: Seq::empty(),
            message_id: Seq::empty(),
            message: Seq::empty(),
            producer: Seq::empty(),
            timestamp: 0,
        },
    }
}

/// A batch never removes a message row, and leaves existing rows in place.
pub proof fn lemma_apply_all_extends_messages(st: StoreV, cmds: Seq<CmdV>)
    ensures
        store_apply_all(st, cmds).messages.len() >= st.messages.len(),
        forall|k: int|
            0 <= k < st.messages.len() ==> #[trigger] store_apply_all(st, cmds).messages[k]
                == st.messages[k],
    decreases cmds.len(),
{
    if cmds.len() > 0 {
        lemma_apply_all_extends_messages(store_apply(st, cmds[0]), cmds.drop_first());
    }
}

/// Every message save that a committed batch holds is present in the
/// store afterwards.
pub proof fn lemma_saved_message_stored(st: StoreV, cmds: Seq<CmdV>, i: int)
    requires
        0 <= i < cmds.len(),
        cmds[i] is SaveMessage,
    ensures
        (exists|k: int|
            0 <= k < store_apply_all(st, cmds).messages.len() && store_apply_all(
                st,
                cmds,
            ).messages[k] == msg_of_cmd(cmds[i])),
    decreases cmds.len(),
{
    let st1 = store_apply(st, cmds[0]);
    assert(store_apply_all(st, cmds) == store_apply_all(st1, cmds.drop_first()));
    if i == 0 {
        let n = st.messages.len() as int;
        assert(st1.messages[n] == msg_of_cmd(cmds[0]));
        lemma_apply_all_extends_messages(st1, cmds.drop_first());
        assert(store_apply_all(st1, cmds.drop_first()).messages[n] == st1.messages[n]);
        assert(0 <= n < store_apply_all(st, cmds).messages.len() && store_apply_all(
            st,
            cmds,
        ).messages[n] == msg_of_cmd(cmds[i]));
    } else {
        assert(cmds.drop_first()[i - 1] == cmds[i]);
        lemma_saved_message_stored(st1, cmds.drop_first(), i - 1);
    }
}

/// A message save inside a committed batch is visible to a
/// recent-messages listing taken afterwards, as long as everything still
/// fits within the listing cap: some listed row is its decoded image.
pub proof fn lemma_committed_message_visible(st: StoreV, cmds: Seq<CmdV>, i: int, r: Seq<MsgV>)
    requires
        0 <= i < cmds.len(),
        cmds[i] is SaveMessage,
        store_apply_all(st, cmds).messages.len() <= QUERY_LIMIT,
        is_recent_msgs(store_apply_all(st, cmds).messages, r),
    ensures
        (exists|k: int| 0 <= k < r.len() && r[k] == decoded_msg(msg_of_cmd(cmds[i]))),
{
    let rows = store_apply_all(st, cmds).messages;
    lemma_saved_message_stored(st, cmds, i);
    let j = choose|j: int| 0 <= j < rows.len() && rows[j] == msg_of_cmd(cmds[i]);
    assert(listing_has_msg(rows, r, j));
    let k = choose|k: int| 0 <= k < r.len() && r[k] == decoded_msg(rows[j]);
    assert(r[k] == decoded_msg(msg_of_cmd(cmds[i])));
}

// ------------------------------------------------------------------
// Sorting by timestamp, newest first
// ------------------------------------------------------------------

/// Message rows in non-increasing timestamp order.
pub open spec fn msgs_sorted_desc(s: Seq<MsgV>) -> bool {
    forall|i: int, j: int|
        0 <= i <= j < s.len() ==> (#[trigger] s[i]).timestamp >= (#[trigger] s[j]).timestamp
}

/// Consumption rows in non-increasing timestamp order.
pub open spec fn cons_sorted_desc(s: Seq<ConV>) -> bool {
    forall|i: int, j: int|
        0 <= i <= j < s.len() ==> (#[trigger] s[i]).timestamp >= (#[trigger] s[j]).timestamp
}

/// Clone a list of message rows, value for value.
pub fn clone_message_rows(v: &Vec<MessageInfo>) -> (r: Vec<MessageInfo>)
    ensures
        r@ == v@,
{
    let mut r: Vec<MessageInfo> = Vec::new();
    let mut i: usize = 0;
    while i < v.len()
        invariant
            0 <= i <= v.len(),
            r@ == v@.take(i as int),
        decreases v.len() - i,
    {
        r.push(v[i].clone());
        proof {
            assert(r@ =~= v@.take(i + 1));
        }
        i += 1;
    }
    proof {
        assert(v@.take(v@.len() as int) =~= v@);
    }
    r
}

/// Clone a list of consumption rows, value for value.
pub fn clone_consumption_rows(v: &Vec<ConsumptionInfo>) -> (r: Vec<ConsumptionInfo>)
    ensures
        r@ == v@,
{
    let mut r: Vec<ConsumptionInfo> = Vec::new();
    let mut i: usize = 0;
    while i < v.len()
        invariant
            0 <= i <= v.len(),
            r@ == v@.take(i as int),
        decreases v.len() - i,
    {
        r.push(v[i].clone());
        proof {
            assert(r@ =~= v@.take(i + 1));
        }
        i += 1;
    }
    proof {
        assert(v@.take(v@.len() as int) =~= v@);
    }
    r
}

/// Insert one message row into a list sorted newest-first, keeping it
/// sorted.
fn insert_message_desc(r: &mut Vec<MessageInfo>, x: MessageInfo)
    requires
        msgs_sorted_desc(old(r).deep_view()),
    ensures
        msgs_sorted_desc(final(r).deep_view()),
        final(r).deep_view().to_multiset() == old(r).deep_view().to_multiset().insert(x@),
        final(r)@.len() == old(r)@.len() + 1,
{
    broadcast use group_to_multiset_ensures;

    let mut pos: usize = r.len();
    while pos > 0 && r[pos - 1].timestamp < x.timestamp
        invariant
            0 <= pos <= r@.len(),
            forall|k: int|
                pos <= k < r@.len() ==> (#[trigger] r.deep_view()[k]).timestamp < x@.timestamp,
        decreases pos,
    {
        proof {
            assert(r.deep_view()[pos - 1].timestamp == r@[pos - 1].timestamp);
        }
        pos -= 1;
    }
    let ghost d0 = r.deep_view();
    let ghost p = pos as int;
    r.insert(pos, x);
    proof {
        assert forall|k: int| 0 <= k < r.deep_view().len() implies r.deep_view()[k] == d0.insert(
            p,
            x@,
        )[k] by {
            if k < p {
                assert(r@[k] == old(r)@[k]);
            } else if k == p {
                assert(r@[k] == x);
            } else {
                assert(r@[k] == old(r)@[k - 1]);
            }
        }
        assert(r.deep_view() =~= d0.insert(p, x@));
        vstd::seq_lib::to_multiset_insert(d0, p, x@);
        let dv = r.deep_view();
        assert forall|i: int, j: int| 0 <= i <= j < dv.len() implies (#[trigger] dv[i]).timestamp
            >= (#[trigger] dv[j]).timestamp by {
            if i < p && j < p {
                assert(dv[i] == d0[i] && dv[j] == d0[j]);
            } else if i < p && j == p {
                assert(dv[i] == d0[i]);
                assert(d0[p - 1].timestamp >= x@.timestamp);
                assert(d0[i].timestamp >= d0[p - 1].timestamp);
            } else if i < p && j > p {
                assert(dv[i] == d0[i] && dv[j] == d0[j - 1]);
            } else if i == p && j == p {
            } else if i == p && j > p {
                assert(dv[j] == d0[j - 1]);
                assert(d0[j - 1].timestamp < x@.timestamp);
            } else {
                assert(dv[i] == d0[i - 1] && dv[j] == d0[j - 1]);
            }
        }
    }
}

/// Insert one consumption row into a list sorted newest-first, keeping it
/// sorted.
fn insert_consumption_desc(r: &mut Vec<ConsumptionInfo>, x: ConsumptionInfo)
    requires
        cons_sorted_desc(old(r).deep_view()),
    ensures
        cons_sorted_desc(final(r).deep_view()),
        final(r).deep_view().to_multiset() == old(r).deep_view().to_multiset().insert(x@),
        final(r)@.len() == old(r)@.len() + 1,
{
    broadcast use group_to_multiset_ensures;

    let mut pos: usize = r.len();
    while pos > 0 && r[pos - 1].timestamp < x.timestamp
        invariant
            0 <= pos <= r@.len(),
            forall|k: int|
                pos <= k < r@.len() ==> (#[trigger] r.deep_view()[k]).timestamp < x@.timestamp,
        decreases pos,
    {
        proof {
            assert(r.deep_view()[pos - 1].timestamp == r@[pos - 1].timestamp);
        }
        pos -= 1;
    }
    let ghost d0 = r.deep_view();
    let ghost p = pos as int;
    r.insert(pos, x);
    proof {
        assert forall|k: int| 0 <= k < r.deep_view().len() implies r.deep_view()[k] == d0.insert(
            p,
            x@,
        )[k] by {
            if k < p {
                assert(r@[k] == old(r)@[k]);
            } else if k == p {
                assert(r@[k] == x);
            } else {
                assert(r@[k] == old(r)@[k - 1]);
            }
        }
        assert(r.deep_view() =~= d0.insert(p, x@));
        vstd::seq_lib::to_multiset_insert(d0, p, x@);
        let dv = r.deep_view();
        assert forall|i: int, j: int| 0 <= i <= j < dv.len() implies (#[trigger] dv[i]).timestamp
            >= (#[trigger] dv[j]).timestamp by {
            if i < p && j < p {
                assert(dv[i] == d0[i] && dv[j] == d0[j]);
            } else if i < p && j == p {
                assert(dv[i] == d0[i]);
                assert(d0[p - 1].timestamp >= x@.timestamp);
                assert(d0[i].timestamp >= d0[p - 1].timestamp);
            } else if i < p && j > p {
                assert(dv[i] == d0[i] && dv[j] == d0[j - 1]);
            } else if i == p && j == p {
            } else if i == p && j > p {
                assert(dv[j] == d0[j - 1]);
                assert(d0[j - 1].timestamp < x@.timestamp);
            } else {
                assert(dv[i] == d0[i - 1] && dv[j] == d0[j - 1]);
            }
        }
    }
}

/// Sort message rows newest-first.
pub fn sort_messages_desc(v: Vec<MessageInfo>) -> (r: Vec<MessageInfo>)
    ensures
        msgs_sorted_desc(r.deep_view()),
        r.deep_view().to_multiset() == v.deep_view().to_multiset(),
        r@.len() == v@.len(),
{
    broadcast use group_to_multiset_ensures;

    let ghost dv = v.deep_view();
    let mut rest = v;
    let mut r: Vec<MessageInfo> = Vec::new();
    proof {
        assert(r.deep_view() =~= Seq::<MsgV>::empty());
        assert(r.deep_view().to_multiset().add(rest.deep_view().to_multiset()) =~= dv.to_multiset());
    }
    while rest.len() > 0
        invariant
            msgs_sorted_desc(r.deep_view()),
            r.deep_view().to_multiset().add(rest.deep_view().to_multiset()) == dv.to_multiset(),
            r@.len() + rest@.len() == dv.len(),
        decreases rest@.len(),
    {
        let ghost restd0 = rest.deep_view();
        let ghost restraw = rest@;
        let ghost rd0 = r.deep_view();
        let x = rest.pop().unwrap();
        proof {
            assert forall|k: int| 0 <= k < rest.deep_view().len() implies rest.deep_view()[k]
                == restd0.drop_last()[k] by {
                assert(rest@[k] == restraw[k]);
            }
            assert(rest.deep_view() =~= restd0.drop_last());
            assert(restd0 =~= rest.deep_view().push(x@));
            vstd::seq_lib::to_multiset_build(rest.deep_view(), x@);
            assert(restd0.to_multiset() == rest.deep_view().to_multiset().insert(x@));
        }
        insert_message_desc(&mut r, x);
        proof {
            assert(r.deep_view().to_multiset() == rd0.to_multiset().insert(x@));
            assert(r.deep_view().to_multiset().add(rest.deep_view().to_multiset())
                =~= dv.to_multiset());
        }
    }
    proof {
        assert(rest.deep_view() =~= Seq::<MsgV>::empty());
        assert(r.deep_view().to_multiset() =~= dv.to_multiset());
    }
    r
}

/// Sort consumption rows newest-first.
pub fn sort_consumptions_desc(v: Vec<ConsumptionInfo>) -> (r: Vec<ConsumptionInfo>)
    ensures
        cons_sorted_desc(r.deep_view()),
        r.deep_view().to_multiset() == v.deep_view().to_multiset(),
        r@.len() == v@.len(),
{
    broadcast use group_to_multiset_ensures;

    let ghost dv = v.deep_view();
    let mut rest = v;
    let mut r: Vec<ConsumptionInfo> = Vec::new();
    proof {
        assert(r.deep_view() =~= Seq::<ConV>::empty());
        assert(r.deep_view().to_multiset().add(rest.deep_view().to_multiset()) =~= dv.to_multiset());
    }
    while rest.len() > 0
        invariant
            cons_sorted_desc(r.deep_view()),
            r.deep_view().to_multiset().add(rest.deep_view().to_multiset()) == dv.to_multiset(),
            r@.len() + rest@.len() == dv.len(),
        decreases rest@.len(),
    {
        let ghost restd0 = rest.deep_view();
        let ghost restraw = rest@;
        let ghost rd0 = r.deep_view();
        let x = rest.pop().unwrap();
        proof {
            assert forall|k: int| 0 <= k < rest.deep_view().len() implies rest.deep_view()[k]
                == restd0.drop_last()[k] by {
                assert(rest@[k] == restraw[k]);
            }
            assert(rest.deep_view() =~= restd0.drop_last());
            assert(restd0 =~= rest.deep_view().push(x@));
            vstd::seq_lib::to_multiset_build(rest.deep_view(), x@);
            assert(restd0.to_multiset() == rest.deep_view().to_multiset().insert(x@));
        }
        insert_consumption_desc(&mut r, x);
        proof {
            assert(r.deep_view().to_multiset() == rd0.to_multiset().insert(x@));
            assert(r.deep_view().to_multiset().add(rest.deep_view().to_multiset())
                =~= dv.to_multiset());
        }
    }
    proof {
        assert(rest.deep_view() =~= Seq::<ConV>::empty());
        assert(r.deep_view().to_multiset() =~= dv.to_multiset());
    }
    r
}

// ------------------------------------------------------------------
// Retention
// ------------------------------------------------------------------

/// The smaller of two lengths, as a spec value.
pub open spec fn spec_min(a: int, b: int) -> int {
    if a <= b {
        a
    } else {
        b
    }
}

/// The timestamp below which a retention pass at time `now` removes rows.
pub open spec fn purge_cutoff(now: u64) -> u64 {
    if now >= MAX_AGE_MS {
        (now - MAX_AGE_MS) as u64
    } else {
        0
    }
}

/// What a retention pass keeps of a newest-first row order: the first
/// `MAX_MESSAGES` rows, less those older than the cutoff.
pub open spec fn kept_messages(full: Seq<MsgV>, now: u64) -> Seq<MsgV> {
    full.take(spec_min(MAX_MESSAGES as int, full.len() as int)).filter(
        |m: MsgV| m.timestamp >= purge_cutoff(now),
    )
}

/// As `kept_messages`, for consumption rows.
pub open spec fn kept_consumptions(full: Seq<ConV>, now: u64) -> Seq<ConV> {
    full.take(spec_min(MAX_CONSUMPTIONS as int, full.len() as int)).filter(
        |c: ConV| c.timestamp >= purge_cutoff(now),
    )
}

// ------------------------------------------------------------------
// The store model
// ------------------------------------------------------------------

/// The store model: message and consumption rows in insertion order,
/// subscription rows keyed by session id, migrations keyed by version.
pub struct Store {
    pub messages: Vec<MessageInfo>,
    pub consumptions: Vec<ConsumptionInfo>,
    pub subscriptions: Vec<SubscriptionRow>,
    pub migrations: Vec<MigrationRow>,
}

impl View for Store {
    type V = StoreV;

    open spec fn view(&self) -> StoreV {
        StoreV {
            messages: self.messages.deep_view(),
            consumptions: self.consumptions.deep_view(),
            subscriptions: self.subscriptions.deep_view(),
            migrations: self.migrations.deep_view(),
        }
    }
}

impl Store {
    /// Key uniqueness of subscription and migration rows.
    pub open spec fn wf(&self) -> bool {
        subs_wf(self@.subscriptions) && migs_wf(self@.migrations)
    }

    /// An empty store.
    pub fn new() -> (r: Store)
        ensures
            r@.messages == Seq::<MsgV>::empty(),
            r@.consumptions == Seq::<ConV>::empty(),
            r@.subscriptions == Seq::<SubV>::empty(),
            r@.migrations == Seq::<MigV>::empty(),
            r.wf(),
    {
        let r = Store {
            messages: Vec::new(),
            consumptions: Vec::new(),
            subscriptions: Vec::new(),
            migrations: Vec::new(),
        };
        proof {
            assert(r@.messages =~= Seq::<MsgV>::empty());
            assert(r@.consumptions =~= Seq::<ConV>::empty());
            assert(r@.subscriptions =~= Seq::<SubV>::empty());
            assert(r@.migrations =~= Seq::<MigV>::empty());
        }
        r
    }

    /// The index of the subscription row of `sid`, if present.
    fn find_subscription(&self, sid: &String) -> (r: Option<usize>)
        ensures
            match r {
                Some(i) => 0 <= i < self@.subscriptions.len() && self@.subscriptions[i as int].sid
                    == sid@,
                None => !sub_has_sid(self@.subscriptions, sid@),
            },
    {
        let mut i: usize = 0;
        while i < self.subscriptions.len()
            invariant
                0 <= i <= self@.subscriptions.len(),
                self@.subscriptions.len() == self.subscriptions.len(),
                forall|k: int| 0 <= k < i ==> (#[trigger] self@.subscriptions[k]).sid != sid@,
            decreases self.subscriptions.len() - i,
        {
            if self.subscriptions[i].sid == *sid {
                return Some(i);
            }
            i += 1;
        }
        None
    }

    /// Apply one durable-write command.
    pub fn apply_command(&mut self, cmd: &DbCommand)
        requires
            old(self).wf(),
        ensures
            final(self).wf(),
            final(self)@ == store_apply(old(self)@, cmd@),
    {
        let ghost st0 = self@;
        match cmd {
            DbCommand::RegisterSubscription { sid, consumer, topic, connected_at } => {
                let row = SubscriptionRow {
                    sid: sid.clone(),
                    consumer: consumer.clone(),
                    topic: topic.clone(),
                    connected_at: *connected_at,
                };
                match self.find_subscription(sid) {
                    Some(i) => {
                        proof {
                            let w = sub_index_of(st0.subscriptions, sid@);
                            assert(0 <= w < st0.subscriptions.len() && st0.subscriptions[w].sid
                                == sid@);
                            if w != i {
                                assert(st0.subscriptions[w].sid != st0.subscriptions[i as int].sid);
                            }
                        }
                        self.subscriptions.remove(i);
                        self.subscriptions.insert(i, row);
                        proof {
                            assert(self@.subscriptions =~= st0.subscriptions.update(
                                i as int,
                                row@,
                            ));
                            assert(self@ =~= store_apply(st0, cmd@));
                            assert forall|a: int, b: int|
                                0 <= a < b < self@.subscriptions.len() implies (#[trigger] self@.subscriptions[a]).sid
                                != (#[trigger] self@.subscriptions[b]).sid by {
                                assert(st0.subscriptions[a].sid != st0.subscriptions[b].sid);
                            }
                        }
                    },
                    None => {
                        self.subscriptions.push(row);
                        proof {
                            assert(self@.subscriptions =~= st0.subscriptions.push(row@));
                            assert(self@ =~= store_apply(st0, cmd@));
                            assert forall|a: int, b: int|
                                0 <= a < b < self@.subscriptions.len() implies (#[trigger] self@.subscriptions[a]).sid
                                != (#[trigger] self@.subscriptions[b]).sid by {
                                if b == self@.subscriptions.len() - 1 {
                                    assert(self@.subscriptions[a] == st0.subscriptions[a]);
                                    assert(!sub_has_sid(st0.subscriptions, sid@));
                                }
                            }
                        }
                    },
                }
            },
            DbCommand::SaveMessage { topic, message_id, message, producer, timestamp } => {
                let row = MessageInfo {
                    topic: topic.clone(),
                    message_id: message_id.clone(),
                    message: message.clone(),
                    producer: producer.clone(),
                    timestamp: *timestamp,
                };
                self.messages.push(row);
                proof {
                    assert(self@.messages =~= st0.messages.push(
                        msg_of_cmd(cmd@),
                    ));
                    assert(self@ =~= store_apply(st0, cmd@));
                }
            },
            DbCommand::SaveConsumption { consumer, topic, message_id, message, timestamp } => {
                let row = ConsumptionInfo {
                    consumer: consumer.clone(),
                    topic: topic.clone(),
                    message_id: message_id.clone(),
                    message: message.clone(),
                    timestamp: *timestamp,
                };
                self.consumptions.push(row);
                proof {
                    assert(self@.consumptions =~= st0.consumptions.push(row@));
                    assert(self@ =~= store_apply(st0, cmd@));
                }
            },
            DbCommand::UnregisterClient { sid } => {
                match self.find_subscription(sid) {
                    Some(i) => {
                        proof {
                            let w = sub_index_of(st0.subscriptions, sid@);
                            assert(0 <= w < st0.subscriptions.len() && st0.subscriptions[w].sid
                                == sid@);
                            if w != i {
                                assert(st0.subscriptions[w].sid != st0.subscriptions[i as int].sid);
                            }
                        }
                        self.subscriptions.remove(i);
                        proof {
                            assert(self@.subscriptions =~= st0.subscriptions.remove(i as int));
                            assert(self@ =~= store_apply(st0, cmd@));
                            assert forall|a: int, b: int|
                                0 <= a < b < self@.subscriptions.len() implies (#[trigger] self@.subscriptions[a]).sid
                                != (#[trigger] self@.subscriptions[b]).sid by {
                                let sa = if a < i as int { a } else { a + 1 };
                                let sb = if b < i as int { b } else { b + 1 };
                                assert(self@.subscriptions[a] == st0.subscriptions[sa]);
                                assert(self@.subscriptions[b] == st0.subscriptions[sb]);
                                assert(st0.subscriptions[sa].sid != st0.subscriptions[sb].sid);
                            }
                        }
                    },
                    None => {
                        proof {
                            assert(self@ =~= store_apply(st0, cmd@));
                        }
                    },
                }
            },
        }
    }

    /// Apply a whole batch in queue order, as one transaction would.
    pub fn apply_batch(&mut self, cmds: &Vec<DbCommand>)
        requires
            old(self).wf(),
        ensures
            final(self).wf(),
            final(self)@ == store_apply_all(old(self)@, cmds.deep_view()),
    {
        let ghost st0 = self@;
        let mut i: usize = 0;
        proof {
            assert(cmds.deep_view().take(0) =~= Seq::<CmdV>::empty());
        }
        while i < cmds.len()
            invariant
                0 <= i <= cmds.len(),
                self.wf(),
                self@ == store_apply_all(st0, cmds.deep_view().take(i as int)),
            decreases cmds.len() - i,
        {
            self.apply_command(&cmds[i]);
            proof {
                assert(cmds.deep_view()[i as int] == cmds@[i as int]@);
                assert(cmds.deep_view().take(i + 1) =~= cmds.deep_view().take(i as int).push(
                    cmds.deep_view()[i as int],
                ));
                lemma_store_apply_all_snoc(
                    st0,
                    cmds.deep_view().take(i as int),
                    cmds.deep_view()[i as int],
                );
            }
            i += 1;
        }
        proof {
            assert(cmds.deep_view().take(cmds@.len() as int) =~= cmds.deep_view());
        }
    }

    /// Record a migration unless its version is already recorded. Returns
    /// whether it was recorded now.
    pub fn record_migration(&mut self, version: u64, name: String, now: u64) -> (applied: bool)
        requires
            old(self).wf(),
        ensures
            final(self).wf(),
            applied == !mig_has_version(old(self)@.migrations, version),
            final(self)@.messages == old(self)@.messages,
            final(self)@.consumptions == old(self)@.consumptions,
            final(self)@.subscriptions == old(self)@.subscriptions,
            applied ==> final(self)@.migrations == old(self)@.migrations.push(
                (MigV { version, name: name@, applied_at: now }),
            ),
            !applied ==> final(self)@.migrations == old(self)@.migrations,
            mig_has_version(final(self)@.migrations, version),
    {
        let ghost st0 = self@;
        let mut i: usize = 0;
        while i < self.migrations.len()
            invariant
                0 <= i <= self@.migrations.len(),
                self@.migrations.len() == self.migrations.len(),
                self@ == old(self)@,
                self.wf(),
                forall|k: int| 0 <= k < i ==> (#[trigger] self@.migrations[k]).version != version,
            decreases self.migrations.len() - i,
        {
            if self.migrations[i].version == version {
                proof {
                    assert(self@.migrations[i as int].version == version);
                    assert(mig_has_version(self@.migrations, version));
                }
                return false;
            }
            i += 1;
        }
        let row = MigrationRow { version, name, applied_at: now };
        self.migrations.push(row);
        proof {
            assert(self@.migrations =~= st0.migrations.push(row@));
            assert(self@.messages =~= st0.messages);
            assert(self@.consumptions =~= st0.consumptions);
            assert(self@.subscriptions =~= st0.subscriptions);
            let n = st0.migrations.len() as int;
            assert(self@.migrations[n].version == version);
            assert forall|a: int, b: int|
                0 <= a < b < self@.migrations.len() implies (#[trigger] self@.migrations[a]).version
                != (#[trigger] self@.migrations[b]).version by {
                if b == self@.migrations.len() - 1 {
                    assert(self@.migrations[a] == st0.migrations[a]);
                    assert(!mig_has_version(st0.migrations, version));
                }
            }
        }
        true
    }

    /// A retention pass at time `now`: in one transaction, each of the
    /// message and consumption tables keeps at most its cap of newest
    /// rows, and nothing older than the cutoff survives.
    pub fn purge(&mut self, now: u64)
        requires
            old(self).wf(),
        ensures
            final(self).wf(),
            final(self)@.subscriptions == old(self)@.subscriptions,
            final(self)@.migrations == old(self)@.migrations,
            final(self)@.messages.len() <= MAX_MESSAGES,
            final(self)@.consumptions.len() <= MAX_CONSUMPTIONS,
            (forall|k: int|
                0 <= k < final(self)@.messages.len()
                    ==> (#[trigger] final(self)@.messages[k]).timestamp >= purge_cutoff(now)),
            (forall|k: int|
                0 <= k < final(self)@.consumptions.len()
                    ==> (#[trigger] final(self)@.consumptions[k]).timestamp >= purge_cutoff(now)),
            (exists|full: Seq<MsgV>|
                full.to_multiset() == old(self)@.messages.to_multiset() && msgs_sorted_desc(full)
                    && final(self)@.messages == kept_messages(full, now)),
            (exists|full: Seq<ConV>|
                full.to_multiset() == old(self)@.consumptions.to_multiset() && cons_sorted_desc(
                    full,
                ) && final(self)@.consumptions == kept_consumptions(full, now)),
    {
        let ghost st0 = self@;
        let cutoff: u64 = if now >= MAX_AGE_MS {
            now - MAX_AGE_MS
        } else {
            0
        };
        assert(cutoff == purge_cutoff(now));

        // messages
        let mut rows: Vec<MessageInfo> = Vec::new();
        core::mem::swap(&mut rows, &mut self.messages);
        proof {
            assert(rows.deep_view() =~= st0.messages);
        }
        let mut sorted = sort_messages_desc(rows);
        let ghost fullm = sorted.deep_view();
        let ghost sraw = sorted@;
        if sorted.len() > MAX_MESSAGES {
            sorted.truncate(MAX_MESSAGES);
            proof {
                assert forall|k: int| 0 <= k < sorted.deep_view().len() implies sorted.deep_view()[k]
                    == fullm.take(spec_min(MAX_MESSAGES as int, fullm.len() as int))[k] by {
                    assert(sorted@[k] == sraw[k]);
                }
                assert(sorted.deep_view() =~= fullm.take(
                    spec_min(MAX_MESSAGES as int, fullm.len() as int),
                ));
            }
        } else {
            proof {
                assert(sorted.deep_view() =~= fullm.take(
                    spec_min(MAX_MESSAGES as int, fullm.len() as int),
                ));
            }
        }
        let ghost prefm = sorted.deep_view();
        let mut kept: Vec<MessageInfo> = Vec::new();
        let mut i: usize = 0;
        proof {
            reveal(Seq::filter);
            assert(prefm.take(0) =~= Seq::<MsgV>::empty());
            assert(kept.deep_view() =~= prefm.take(0).filter(
                |m: MsgV| m.timestamp >= purge_cutoff(now),
            ));
        }
        while i < sorted.len()
            invariant
                0 <= i <= sorted.len(),
                sorted.deep_view() == prefm,
                cutoff == purge_cutoff(now),
                kept.deep_view() == prefm.take(i as int).filter(
                    |m: MsgV| m.timestamp >= purge_cutoff(now),
                ),
                kept@.len() <= i,
                (forall|k: int|
                    0 <= k < kept.deep_view().len() ==> (#[trigger] kept.deep_view()[k]).timestamp
                        >= purge_cutoff(now)),
            decreases sorted.len() - i,
        {
            proof {
                reveal(Seq::filter);
                assert(prefm.take(i + 1).drop_last() =~= prefm.take(i as int));
                assert(prefm.take(i + 1).last() == prefm[i as int]);
            }
            if sorted[i].timestamp >= cutoff {
                let ghost kd0 = kept.deep_view();
                let ghost kraw = kept@;
                kept.push(sorted[i].clone());
                proof {
                    assert forall|k: int| 0 <= k < kept.deep_view().len() implies kept.deep_view()[k]
                        == kd0.push(prefm[i as int])[k] by {
                        if k < kd0.len() {
                            assert(kept@[k] == kraw[k]);
                        } else {
                            assert(kept@[k]@ == prefm[i as int]);
                        }
                    }
                    assert(kept.deep_view() =~= kd0.push(prefm[i as int]));
                    assert(kept.deep_view() =~= prefm.take(i + 1).filter(
                        |m: MsgV| m.timestamp >= purge_cutoff(now),
                    ));
                }
            } else {
                proof {
                    assert(kept.deep_view() =~= prefm.take(i + 1).filter(
                        |m: MsgV| m.timestamp >= purge_cutoff(now),
                    ));
                }
            }
            i += 1;
        }
        proof {
            assert(prefm.take(sorted@.len() as int) =~= prefm);
        }
        self.messages = kept;

        // consumptions
        let mut crows: Vec<ConsumptionInfo> = Vec::new();
        core::mem::swap(&mut crows, &mut self.consumptions);
        proof {
            assert(crows.deep_view() =~= st0.consumptions);
        }
        let mut csorted = sort_consumptions_desc(crows);
        let ghost fullc = csorted.deep_view();
        let ghost craw = csorted@;
        if csorted.len() > MAX_CONSUMPTIONS {
            csorted.truncate(MAX_CONSUMPTIONS);
            proof {
                assert forall|k: int|
                    0 <= k < csorted.deep_view().len() implies csorted.deep_view()[k] == fullc.take(
                    spec_min(MAX_CONSUMPTIONS as int, fullc.len() as int),
                )[k] by {
                    assert(csorted@[k] == craw[k]);
                }
                assert(csorted.deep_view() =~= fullc.take(
                    spec_min(MAX_CONSUMPTIONS as int, fullc.len() as int),
                ));
            }
        } else {
            proof {
                assert(csorted.deep_view() =~= fullc.take(
                    spec_min(MAX_CONSUMPTIONS as int, fullc.len() as int),
                ));
            }
        }
        let ghost prefc = csorted.deep_view();
        let mut ckept: Vec<ConsumptionInfo> = Vec::new();
        let mut j: usize = 0;
        proof {
            reveal(Seq::filter);
            assert(prefc.take(0) =~= Seq::<ConV>::empty());
            assert(ckept.deep_view() =~= prefc.take(0).filter(
                |c: ConV| c.timestamp >= purge_cutoff(now),
            ));
        }
        while j < csorted.len()
            invariant
                0 <= j <= csorted.len(),
                csorted.deep_view() == prefc,
                cutoff == purge_cutoff(now),
                ckept.deep_view() == prefc.take(j as int).filter(
                    |c: ConV| c.timestamp >= purge_cutoff(now),
                ),
                ckept@.len() <= j,
                (forall|k: int|
                    0 <= k < ckept.deep_view().len() ==> (#[trigger] ckept.deep_view()[k]).timestamp
                        >= purge_cutoff(now)),
            decreases csorted.len() - j,
        {
            proof {
                reveal(Seq::filter);
                assert(prefc.take(j + 1).drop_last() =~= prefc.take(j as int));
                assert(prefc.take(j + 1).last() == prefc[j as int]);
            }
            if csorted[j].timestamp >= cutoff {
                let ghost kd0 = ckept.deep_view();
                let ghost ckraw = ckept@;
                ckept.push(csorted[j].clone());
                proof {
                    assert forall|k: int|
                        0 <= k < ckept.deep_view().len() implies ckept.deep_view()[k] == kd0.push(
                        prefc[j as int],
                    )[k] by {
                        if k < kd0.len() {
                            assert(ckept@[k] == ckraw[k]);
                        } else {
                            assert(ckept@[k]@ == prefc[j as int]);
                        }
                    }
                    assert(ckept.deep_view() =~= kd0.push(prefc[j as int]));
                    assert(ckept.deep_view() =~= prefc.take(j + 1).filter(
                        |c: ConV| c.timestamp >= purge_cutoff(now),
                    ));
                }
            } else {
                proof {
                    assert(ckept.deep_view() =~= prefc.take(j + 1).filter(
                        |c: ConV| c.timestamp >= purge_cutoff(now),
                    ));
                }
            }
            j += 1;
        }
        proof {
            assert(prefc.take(csorted@.len() as int) =~= prefc);
        }
        self.consumptions = ckept;
        proof {
            assert(self@.subscriptions =~= st0.subscriptions);
            assert(self@.migrations =~= st0.migrations);
        }
    }

    /// The newest rows of the message table, newest first, each body
    /// decoded; at most `QUERY_LIMIT` rows.
    pub fn recent_messages(&self) -> (r: Vec<MessageInfo>)
        ensures
            is_recent_msgs(self@.messages, r.deep_view()),
    {
        broadcast use group_to_multiset_ensures;

        let rows = clone_message_rows(&self.messages);
        proof {
            assert(rows.deep_view() =~= self@.messages);
        }
        let mut sorted = sort_messages_desc(rows);
        let ghost full = sorted.deep_view();
        let ghost sraw = sorted@;
        if sorted.len() > QUERY_LIMIT {
            sorted.truncate(QUERY_LIMIT);
            proof {
                assert forall|k: int| 0 <= k < sorted.deep_view().len() implies sorted.deep_view()[k]
                    == full.take(spec_min(QUERY_LIMIT as int, full.len() as int))[k] by {
                    assert(sorted@[k] == sraw[k]);
                }
                assert(sorted.deep_view() =~= full.take(
                    spec_min(QUERY_LIMIT as int, full.len() as int),
                ));
            }
        } else {
            proof {
                assert(sorted.deep_view() =~= full.take(
                    spec_min(QUERY_LIMIT as int, full.len() as int),
                ));
            }
        }
        let r = decode_message_rows(&sorted);
        proof {
            // the take of the sorted permutation is the witness
            assert(full.to_multiset() == self@.messages.to_multiset());
            assert(r.deep_view() == full.take(r@.len() as int).map_values(
                |m: MsgV| decoded_msg(m),
            ));
            assert(r.deep_view().len() == r@.len());
            if self@.messages.len() <= QUERY_LIMIT {
                assert(full.take(r@.len() as int) =~= full);
                assert forall|jj: int| 0 <= jj < self@.messages.len() implies #[trigger] listing_has_msg(
                    self@.messages,
                    r.deep_view(),
                    jj,
                ) by {
                    let m = self@.messages[jj];
                    assert(self@.messages.contains(m));
                    assert(self@.messages.to_multiset().count(m) > 0);
                    assert(full.to_multiset() == self@.messages.to_multiset());
                    assert(full.to_multiset().count(m) > 0);
                    assert(full.contains(m));
                    let k = choose|k: int| 0 <= k < full.len() && full[k] == m;
                    assert(r.deep_view() == full.map_values(|mm: MsgV| decoded_msg(mm)));
                    assert(r.deep_view()[k] == decoded_msg(m));
                    assert(0 <= k < r.deep_view().len() && r.deep_view()[k] == decoded_msg(
                        self@.messages[jj],
                    ));
                    assert(listing_has_msg(self@.messages, r.deep_view(), jj));
                }
                assert(listing_covers_msgs(self@.messages, r.deep_view()));
            }
            assert(is_recent_msgs(self@.messages, r.deep_view()));
        }
        r
    }

    /// The newest rows of the consumption table, newest first, each body
    /// decoded; at most `QUERY_LIMIT` rows.
    pub fn recent_consumptions(&self) -> (r: Vec<ConsumptionInfo>)
        ensures
            is_recent_cons(self@.consumptions, r.deep_view()),
    {
        broadcast use group_to_multiset_ensures;

        let rows = clone_consumption_rows(&self.consumptions);
        proof {
            assert(rows.deep_view() =~= self@.consumptions);
        }
        let mut sorted = sort_consumptions_desc(rows);
        let ghost full = sorted.deep_view();
        let ghost sraw = sorted@;
        if sorted.len() > QUERY_LIMIT {
            sorted.truncate(QUERY_LIMIT);
            proof {
                assert forall|k: int|
                    0 <= k < sorted.deep_view().len() implies sorted.deep_view()[k] == full.take(
                    spec_min(QUERY_LIMIT as int, full.len() as int),
                )[k] by {
                    assert(sorted@[k] == sraw[k]);
                }
                assert(sorted.deep_view() =~= full.take(
                    spec_min(QUERY_LIMIT as int, full.len() as int),
                ));
            }
        } else {
            proof {
                assert(sorted.deep_view() =~= full.take(
                    spec_min(QUERY_LIMIT as int, full.len() as int),
                ));
            }
        }
        let r = decode_consumption_rows(&sorted);
        proof {
            assert(full.to_multiset() == self@.consumptions.to_multiset());
            assert(r.deep_view() == full.take(r@.len() as int).map_values(
                |c: ConV| decoded_con(c),
            ));
            assert(r.deep_view().len() == r@.len());
            if self@.consumptions.len() <= QUERY_LIMIT {
                assert(full.take(r@.len() as int) =~= full);
                assert forall|jj: int| 0 <= jj < self@.consumptions.len() implies #[trigger] listing_has_con(
                    self@.consumptions,
                    r.deep_view(),
                    jj,
                ) by {
                    let m = self@.consumptions[jj];
                    assert(self@.consumptions.contains(m));
                    assert(self@.consumptions.to_multiset().count(m) > 0);
                    assert(full.to_multiset() == self@.consumptions.to_multiset());
                    assert(full.to_multiset().count(m) > 0);
                    assert(full.contains(m));
                    let k = choose|k: int| 0 <= k < full.len() && full[k] == m;
                    assert(r.deep_view() == full.map_values(|cc: ConV| decoded_con(cc)));
                    assert(r.deep_view()[k] == decoded_con(m));
                    assert(0 <= k < r.deep_view().len() && r.deep_view()[k] == decoded_con(
                        self@.consumptions[jj],
                    ));
                    assert(listing_has_con(self@.consumptions, r.deep_view(), jj));
                }
                assert(listing_covers_cons(self@.consumptions, r.deep_view()));
            }
            assert(is_recent_cons(self@.consumptions, r.deep_view()));
        }
        r
    }
}

/// The listing `r` holds the decoded image of row `jj` of `rows`.
pub open spec fn listing_has_msg(rows: Seq<MsgV>, r: Seq<MsgV>, jj: int) -> bool {
    exists|k: int| 0 <= k < r.len() && r[k] == decoded_msg(rows[jj])
}

/// The listing `r` holds the decoded image of every row of `rows`.
pub open spec fn listing_covers_msgs(rows: Seq<MsgV>, r: Seq<MsgV>) -> bool {
    forall|jj: int| 0 <= jj < rows.len() ==> #[trigger] listing_has_msg(rows, r, jj)
}

/// The listing `r` holds the decoded image of row `jj` of `rows`.
pub open spec fn listing_has_con(rows: Seq<ConV>, r: Seq<ConV>, jj: int) -> bool {
    exists|k: int| 0 <= k < r.len() && r[k] == decoded_con(rows[jj])
}

/// The listing `r` holds the decoded image of every row of `rows`.
pub open spec fn listing_covers_cons(rows: Seq<ConV>, r: Seq<ConV>) -> bool {
    forall|jj: int| 0 <= jj < rows.len() ==> #[trigger] listing_has_con(rows, r, jj)
}

/// What the recent-messages listing of stored rows `rows` must be: at
/// most `QUERY_LIMIT` rows, a newest-first order of the newest stored
/// rows with bodies decoded, and, when everything fits, the decoded image
/// of every stored row.
pub open spec fn is_recent_msgs(rows: Seq<MsgV>, r: Seq<MsgV>) -> bool {
    &&& r.len() == spec_min(QUERY_LIMIT as int, rows.len() as int)
    &&& (exists|full: Seq<MsgV>|
        full.to_multiset() == rows.to_multiset() && msgs_sorted_desc(full) && r == full.take(
            r.len() as int,
        ).map_values(|m: MsgV| decoded_msg(m)))
    &&& (rows.len() <= QUERY_LIMIT ==> listing_covers_msgs(rows, r))
}

/// As `is_recent_msgs`, for consumption rows.
pub open spec fn is_recent_cons(rows: Seq<ConV>, r: Seq<ConV>) -> bool {
    &&& r.len() == spec_min(QUERY_LIMIT as int, rows.len() as int)
    &&& (exists|full: Seq<ConV>|
        full.to_multiset() == rows.to_multiset() && cons_sorted_desc(full) && r == full.take(
            r.len() as int,
        ).map_values(|c: ConV| decoded_con(c)))
    &&& (rows.len() <= QUERY_LIMIT ==> listing_covers_cons(rows, r))
}

/// A message row as a listing returns it: the body decoded, everything
/// else as stored.
pub open spec fn decoded_msg(m: MsgV) -> MsgV {
    MsgV {
        topic: m.topic,
        message_id: m.message_id,
        message: decoded_body(m.message),
        producer: m.producer,
        timestamp: m.timestamp,
    }
}

/// A consumption row as a listing returns it.
pub open spec fn decoded_con(c: ConV) -> ConV {
    ConV {
        consumer: c.consumer,
        topic: c.topic,
        message_id: c.message_id,
        message: decoded_body(c.message),
        timestamp: c.timestamp,
    }
}

/// Decode every body of a message row list.
fn decode_message_rows(v: &Vec<MessageInfo>) -> (r: Vec<MessageInfo>)
    ensures
        r@.len() == v@.len(),
        r.deep_view() == v.deep_view().map_values(|m: MsgV| decoded_msg(m)),
{
    let mut r: Vec<MessageInfo> = Vec::new();
    let mut i: usize = 0;
    proof {
        assert(r.deep_view() =~= v.deep_view().take(0).map_values(|m: MsgV| decoded_msg(m)));
    }
    while i < v.len()
        invariant
            0 <= i <= v.len(),
            r@.len() == i,
            r.deep_view() == v.deep_view().take(i as int).map_values(|m: MsgV| decoded_msg(m)),
        decreases v.len() - i,
    {
        let row = MessageInfo {
            topic: v[i].topic.clone(),
            message_id: v[i].message_id.clone(),
            message: decode_stored_body(&v[i].message),
            producer: v[i].producer.clone(),
            timestamp: v[i].timestamp,
        };
        proof {
            assert(row@ == decoded_msg(v.deep_view()[i as int]));
        }
        let ghost d0 = r.deep_view();
        let ghost rraw = r@;
        r.push(row);
        proof {
            assert forall|k: int| 0 <= k < r.deep_view().len() implies r.deep_view()[k] == d0.push(
                decoded_msg(v.deep_view()[i as int]),
            )[k] by {
                if k < d0.len() {
                    assert(r@[k] == rraw[k]);
                } else {
                    assert(r@[k] == row);
                }
            }
            assert(r.deep_view() =~= d0.push(decoded_msg(v.deep_view()[i as int])));
            assert(r.deep_view() =~= v.deep_view().take(i + 1).map_values(
                |m: MsgV| decoded_msg(m),
            ));
        }
        i += 1;
    }
    proof {
        assert(v.deep_view().take(v@.len() as int) =~= v.deep_view());
    }
    r
}

/// Decode every body of a consumption row list.
fn decode_consumption_rows(v: &Vec<ConsumptionInfo>) -> (r: Vec<ConsumptionInfo>)
    ensures
        r@.len() == v@.len(),
        r.deep_view() == v.deep_view().map_values(|c: ConV| decoded_con(c)),
{
    let mut r: Vec<ConsumptionInfo> = Vec::new();
    let mut i: usize = 0;
    proof {
        assert(r.deep_view() =~= v.deep_view().take(0).map_values(|c: ConV| decoded_con(c)));
    }
    while i < v.len()
        invariant
            0 <= i <= v.len(),
            r@.len() == i,
            r.deep_view() == v.deep_view().take(i as int).map_values(|c: ConV| decoded_con(c)),
        decreases v.len() - i,
    {
        let row = ConsumptionInfo {
            consumer: v[i].consumer.clone(),
            topic: v[i].topic.clone(),
            message_id: v[i].message_id.clone(),
            message: decode_stored_body(&v[i].message),
            timestamp: v[i].timestamp,
        };
        proof {
            assert(row@ == decoded_con(v.deep_view()[i as int]));
        }
        let ghost d0 = r.deep_view();
        let ghost rraw = r@;
        r.push(row);
        proof {
            assert forall|k: int| 0 <= k < r.deep_view().len() implies r.deep_view()[k] == d0.push(
                decoded_con(v.deep_view()[i as int]),
            )[k] by {
                if k < d0.len() {
                    assert(r@[k] == rraw[k]);
                } else {
                    assert(r@[k] == row);
                }
            }
            assert(r.deep_view() =~= d0.push(decoded_con(v.deep_view()[i as int])));
            assert(r.deep_view() =~= v.deep_view().take(i + 1).map_values(
                |c: ConV| decoded_con(c),
            ));
        }
        i += 1;
    }
    proof {
        assert(v.deep_view().take(v@.len() as int) =~= v.deep_view());
    }
    r
}

} // verus!
