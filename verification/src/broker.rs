//! The broker facade: every public operation of the relay, composed from
//! the registry, the write batcher and the store model.
//!
//! Each mutating operation returns the observability events it emits;
//! the process around the library sends them down the event bus. Durable
//! writes go through the batcher: a command either waits in the buffer
//! or, when the buffer fills, is applied to the store with the whole
//! batch in queue order. A tick of the flush timer applies whatever
//! waits.

use crate::batcher::Batcher;
use crate::cache::QueryCache;
use crate::models::{
    ApiError, BroadcastEvent, ClientInfo, CmdV, ConV, ConsumptionInfo, DbCommand, EventV,
    GraphState, GraphV, Link, LinkV, MessageInfo, MsgV, PublishRequest,
};
use crate::registry::{
    clone_strings, reg_add, reg_has_sid, reg_index_of, reg_remove, reg_rows, EntryV, Registry,
    RegistryEntry,
};
use crate::store::{
    is_recent_cons, is_recent_msgs, store_apply_all, MigV, Store, StoreV, SubV, SubscriptionRow,
};
use crate::BATCH_CAPACITY;
use vstd::prelude::*;

verus! {

// ------------------------------------------------------------------
// The effect of one enqueued command
// ------------------------------------------------------------------

/// The batcher's buffer after one more command: the command queues up,
/// unless it fills the buffer, which then flushes whole.
pub open spec fn pending_after(q: Seq<CmdV>, c: CmdV) -> Seq<CmdV> {
    if q.len() + 1 == BATCH_CAPACITY {
        Seq::empty()
    } else {
        q.push(c)
    }
}

/// The store after one more command is enqueued: unchanged until the
/// buffer flushes, then the whole batch applied in queue order.
pub open spec fn store_after(q: Seq<CmdV>, st: StoreV, c: CmdV) -> StoreV {
    if q.len() + 1 == BATCH_CAPACITY {
        store_apply_all(st, q.push(c))
    } else {
        st
    }
}

/// The disconnect events of one registry entry: one per subscribed
/// topic, in subscription order.
pub open spec fn disconnect_events(e: EntryV) -> Seq<EventV> {
    e.topics.map_values(
        |t: Seq<char>| EventV::ClientDisconnected { consumer: e.consumer, topic: t },
    )
}

// ------------------------------------------------------------------
// Graph projection
// ------------------------------------------------------------------

/// Holds when `x` appears in `s`.
pub open spec fn elem_listed<T>(s: Seq<T>, x: T) -> bool {
    exists|i: int| 0 <= i < s.len() && s[i] == x
}

/// `s` with later repetitions dropped: each element keeps its first
/// occurrence only.
pub open spec fn dedup_seq<T>(s: Seq<T>) -> Seq<T>
    decreases s.len(),
{
    if s.len() == 0 {
        s
    } else if elem_listed(s.drop_last(), s.last()) {
        dedup_seq(s.drop_last())
    } else {
        dedup_seq(s.drop_last()).push(s.last())
    }
}

/// No element appears twice.
pub open spec fn seq_distinct<T>(s: Seq<T>) -> bool {
    forall|i: int, j: int| 0 <= i < j < s.len() ==> (#[trigger] s[i]) != (#[trigger] s[j])
}

/// Dropping repetitions yields distinct elements and keeps membership.
pub proof fn lemma_dedup_distinct<T>(s: Seq<T>)
    ensures
        seq_distinct(dedup_seq(s)),
        (forall|x: T| #[trigger] elem_listed(dedup_seq(s), x) <==> elem_listed(s, x)),
    decreases s.len(),
{
    if s.len() > 0 {
        let front = s.drop_last();
        lemma_dedup_distinct(front);
        let d = dedup_seq(s);
        if elem_listed(front, s.last()) {
            assert forall|x: T| #[trigger] elem_listed(d, x) <==> elem_listed(s, x) by {
                if elem_listed(s, x) {
                    let k = choose|k: int| 0 <= k < s.len() && s[k] == x;
                    if k == s.len() - 1 {
                        assert(elem_listed(front, x));
                    } else {
                        assert(front[k] == x);
                    }
                }
                if elem_listed(front, x) {
                    let k = choose|k: int| 0 <= k < front.len() && front[k] == x;
                    assert(s[k] == x);
                }
            }
        } else {
            let df = dedup_seq(front);
            assert forall|i: int, j: int| 0 <= i < j < d.len() implies (#[trigger] d[i])
                != (#[trigger] d[j]) by {
                if j == d.len() - 1 {
                    assert(d[i] == df[i]);
                    if d[i] == s.last() {
                        assert(elem_listed(df, s.last()));
                        assert(elem_listed(front, s.last()));
                    }
                } else {
                    assert(d[i] == df[i] && d[j] == df[j]);
                }
            }
            assert forall|x: T| #[trigger] elem_listed(d, x) <==> elem_listed(s, x) by {
                if elem_listed(d, x) {
                    let k = choose|k: int| 0 <= k < d.len() && d[k] == x;
                    if k == d.len() - 1 {
                        assert(s[s.len() - 1] == x);
                    } else {
                        assert(elem_listed(df, x));
                        let w = choose|w: int| 0 <= w < front.len() && front[w] == x;
                        assert(s[w] == x);
                    }
                }
                if elem_listed(s, x) {
                    let k = choose|k: int| 0 <= k < s.len() && s[k] == x;
                    if k == s.len() - 1 {
                        assert(d[d.len() - 1] == x);
                    } else {
                        assert(elem_listed(front, x)) by {
                            assert(front[k] == x);
                        }
                        assert(elem_listed(df, x));
                        let w = choose|w: int| 0 <= w < df.len() && df[w] == x;
                        assert(d[w] == x);
                    }
                }
            }
        }
    }
}

/// The producer of each message row.
pub open spec fn msg_producers(s: Seq<MsgV>) -> Seq<Seq<char>> {
    s.map_values(|m: MsgV| m.producer)
}

/// The topic of each message row.
pub open spec fn msg_topics(s: Seq<MsgV>) -> Seq<Seq<char>> {
    s.map_values(|m: MsgV| m.topic)
}

/// The consumer of each subscription row.
pub open spec fn sub_consumers(s: Seq<SubV>) -> Seq<Seq<char>> {
    s.map_values(|r: SubV| r.consumer)
}

/// The topic of each subscription row.
pub open spec fn sub_topics(s: Seq<SubV>) -> Seq<Seq<char>> {
    s.map_values(|r: SubV| r.topic)
}

/// The consumer of each consumption row.
pub open spec fn con_consumers(s: Seq<ConV>) -> Seq<Seq<char>> {
    s.map_values(|c: ConV| c.consumer)
}

/// The (producer, topic) pair of each message row.
pub open spec fn msg_pub_pairs(s: Seq<MsgV>) -> Seq<(Seq<char>, Seq<char>)> {
    s.map_values(|m: MsgV| (m.producer, m.topic))
}

/// One consume edge per subscription row: topic to consumer.
pub open spec fn consume_links(s: Seq<SubV>) -> Seq<LinkV> {
    s.map_values(
        |r: SubV| LinkV { source: r.topic, target: r.consumer, link_type: "consume"@ },
    )
}

/// One publish edge per distinct (producer, topic) pair of the messages.
pub open spec fn publish_links(s: Seq<MsgV>) -> Seq<LinkV> {
    dedup_seq(msg_pub_pairs(s)).map_values(
        |p: (Seq<char>, Seq<char>)| LinkV { source: p.0, target: p.1, link_type: "publish"@ },
    )
}

/// The whole graph projection of a store: distinct producers, consumers
/// and topics, then the consume edges followed by the publish edges.
pub open spec fn graph_of(st: StoreV) -> GraphV {
    GraphV {
        producers: dedup_seq(msg_producers(st.messages)),
        consumers: dedup_seq(sub_consumers(st.subscriptions) + con_consumers(st.consumptions)),
        topics: dedup_seq(msg_topics(st.messages) + sub_topics(st.subscriptions)),
        links: consume_links(st.subscriptions) + publish_links(st.messages),
    }
}

// ------------------------------------------------------------------
// The broker
// ------------------------------------------------------------------

/// The broker: in-memory subscription state, the write batcher's buffer,
/// and the store model the committed batches have reached.
pub struct Broker {
    pub registry: Registry,
    pub batcher: Batcher,
    pub store: Store,
}

impl Broker {
    /// Well-formedness of all three parts.
    pub open spec fn wf(&self) -> bool {
        self.registry.wf() && self.batcher.wf() && self.store.wf()
    }

    /// A broker with no sessions, an empty buffer and an empty store.
    pub fn new() -> (r: Broker)
        ensures
            r.wf(),
            r.registry@ == Seq::<EntryV>::empty(),
            r.batcher@ == Seq::<CmdV>::empty(),
            r.store@.messages == Seq::<MsgV>::empty(),
            r.store@.consumptions == Seq::<ConV>::empty(),
            r.store@.subscriptions == Seq::<SubV>::empty(),
            r.store@.migrations == Seq::<MigV>::empty(),
    {
        Broker { registry: Registry::new(), batcher: Batcher::new(), store: Store::new() }
    }

    /// Hand one command to the batcher; a full buffer flushes whole into
    /// the store.
    fn enqueue(&mut self, cmd: DbCommand)
        requires
            old(self).wf(),
        ensures
            final(self).wf(),
            final(self).registry == old(self).registry,
            final(self).batcher@ == pending_after(old(self).batcher@, cmd@),
            final(self).store@ == store_after(old(self).batcher@, old(self).store@, cmd@),
    {
        match self.batcher.push(cmd) {
            Some(batch) => {
                self.store.apply_batch(&batch);
            },
            None => {},
        }
    }

    /// A tick of the flush timer: whatever waits in the buffer is applied
    /// to the store as one batch, in queue order.
    pub fn tick(&mut self)
        requires
            old(self).wf(),
        ensures
            final(self).wf(),
            final(self).registry == old(self).registry,
            final(self).batcher@ == Seq::<CmdV>::empty(),
            final(self).store@ == store_apply_all(old(self).store@, old(self).batcher@),
    {
        match self.batcher.tick() {
            Some(batch) => {
                self.store.apply_batch(&batch);
            },
            None => {
                proof {
                    assert(store_apply_all(self.store@, old(self).batcher@) == self.store@);
                }
            },
        }
    }

    /// Subscribe a session to a topic: with any required value empty the
    /// request is dropped whole; otherwise the durable command is
    /// enqueued, the registry applies the idempotent append, and one
    /// `new_client` event is emitted.
    pub fn register_subscription(
        &mut self,
        sid: String,
        consumer: String,
        topic: String,
        now: u64,
    ) -> (events: Vec<BroadcastEvent>)
        requires
            old(self).wf(),
        ensures
            final(self).wf(),
            (if sid@.len() == 0 || consumer@.len() == 0 || topic@.len() == 0 {
                final(self).registry@ == old(self).registry@ && final(self).batcher@ == old(self).batcher@ && final(self).store@ == old(self).store@ && events.deep_view()
                    == Seq::<EventV>::empty()
            } else {
                final(self).registry@ == reg_add(old(self).registry@, sid@, consumer@, topic@, now)
                    && final(self).batcher@ == pending_after(
                    old(self).batcher@,
                    (CmdV::RegisterSubscription {
                        sid: sid@,
                        consumer: consumer@,
                        topic: topic@,
                        connected_at: now,
                    }),
                ) && final(self).store@ == store_after(
                    old(self).batcher@,
                    old(self).store@,
                    (CmdV::RegisterSubscription {
                        sid: sid@,
                        consumer: consumer@,
                        topic: topic@,
                        connected_at: now,
                    }),
                ) && events.deep_view() == seq![
                    EventV::NewClient { consumer: consumer@, topic: topic@, connected_at: now },
                ]
            }),
    {
        let mut events: Vec<BroadcastEvent> = Vec::new();
        proof {
            assert(events.deep_view() =~= Seq::<EventV>::empty());
        }
        if sid.as_str().is_empty() || consumer.as_str().is_empty() || topic.as_str().is_empty() {
            return events;
        }
        let cmd = DbCommand::RegisterSubscription {
            sid: sid.clone(),
            consumer: consumer.clone(),
            topic: topic.clone(),
            connected_at: now,
        };
        self.enqueue(cmd);
        self.registry.add(sid, consumer.clone(), topic.clone(), now);
        events.push(BroadcastEvent::NewClient { consumer, topic, connected_at: now });
        proof {
            assert(events.deep_view() =~= seq![
                EventV::NewClient {
                    consumer: events@[0]->NewClient_consumer@,
                    topic: events@[0]->NewClient_topic@,
                    connected_at: now,
                },
            ]);
        }
        events
    }

    /// Disconnect a session: the durable row's removal is enqueued, the
    /// registry entry goes, and one `client_disconnected` event is
    /// emitted per topic the session held.
    pub fn unregister_client(&mut self, sid: &String) -> (events: Vec<BroadcastEvent>)
        requires
            old(self).wf(),
        ensures
            final(self).wf(),
            final(self).registry@ == reg_remove(old(self).registry@, sid@),
            !reg_has_sid(final(self).registry@, sid@),
            final(self).batcher@ == pending_after(
                old(self).batcher@,
                (CmdV::UnregisterClient { sid: sid@ }),
            ),
            final(self).store@ == store_after(
                old(self).batcher@,
                old(self).store@,
                (CmdV::UnregisterClient { sid: sid@ }),
            ),
            events.deep_view() == (if reg_has_sid(old(self).registry@, sid@) {
                disconnect_events(
                    old(self).registry@[reg_index_of(old(self).registry@, sid@)],
                )
            } else {
                Seq::<EventV>::empty()
            }),
    {
        let prior = self.registry.remove(sid);
        let cmd = DbCommand::UnregisterClient { sid: sid.clone() };
        self.enqueue(cmd);
        let mut events: Vec<BroadcastEvent> = Vec::new();
        proof {
            assert(events.deep_view() =~= Seq::<EventV>::empty());
        }
        match prior {
            Some(e) => {
                let ghost ev = e@;
                let mut j: usize = 0;
                proof {
                    assert(events.deep_view() =~= disconnect_events(ev).take(0));
                }
                while j < e.topics.len()
                    invariant
                        0 <= j <= e.topics.len(),
                        e@ == ev,
                        events.deep_view() == disconnect_events(ev).take(j as int),
                    decreases e.topics.len() - j,
                {
                    let ghost d0 = events.deep_view();
                    let ghost eraw = events@;
                    events.push(
                        BroadcastEvent::ClientDisconnected {
                            consumer: e.consumer.clone(),
                            topic: e.topics[j].clone(),
                        },
                    );
                    proof {
                        assert forall|k: int|
                            0 <= k < events.deep_view().len() implies events.deep_view()[k]
                            == d0.push(disconnect_events(ev)[j as int])[k] by {
                            if k < d0.len() {
                                assert(events@[k] == eraw[k]);
                            } else {
                                assert(events@[k]@ == disconnect_events(ev)[j as int]);
                            }
                        }
                        assert(events.deep_view() =~= d0.push(disconnect_events(ev)[j as int]));
                        assert(events.deep_view() =~= disconnect_events(ev).take(j + 1));
                    }
                    j += 1;
                }
                proof {
                    assert(disconnect_events(ev).take(e.topics@.len() as int) =~= disconnect_events(
                        ev,
                    ));
                }
            },
            None => {},
        }
        events
    }

    /// Accept one published message: the durable save is enqueued with a
    /// stamped timestamp and exactly one `new_message` event comes back —
    /// one command, one event, per publish.
    pub fn save_message(
        &mut self,
        topic: String,
        message_id: String,
        message: String,
        producer: String,
        now: u64,
    ) -> (events: Vec<BroadcastEvent>)
        requires
            old(self).wf(),
        ensures
            final(self).wf(),
            final(self).registry == old(self).registry,
            final(self).batcher@ == pending_after(
                old(self).batcher@,
                (CmdV::SaveMessage {
                    topic: topic@,
                    message_id: message_id@,
                    message: message@,
                    producer: producer@,
                    timestamp: now,
                }),
            ),
            final(self).store@ == store_after(
                old(self).batcher@,
                old(self).store@,
                (CmdV::SaveMessage {
                    topic: topic@,
                    message_id: message_id@,
                    message: message@,
                    producer: producer@,
                    timestamp: now,
                }),
            ),
            events.deep_view() == seq![
                EventV::NewMessage {
                    topic: topic@,
                    message_id: message_id@,
                    message: message@,
                    producer: producer@,
                    timestamp: now,
                },
            ],
    {
        let cmd = DbCommand::SaveMessage {
            topic: topic.clone(),
            message_id: message_id.clone(),
            message: message.clone(),
            producer: producer.clone(),
            timestamp: now,
        };
        self.enqueue(cmd);
        let mut events: Vec<BroadcastEvent> = Vec::new();
        events.push(
            BroadcastEvent::NewMessage { topic, message_id, message, producer, timestamp: now },
        );
        proof {
            assert(events.deep_view() =~= seq![events@[0]@]);
        }
        events
    }

    /// Record one consumption acknowledgement: the durable save is
    /// enqueued and exactly one `new_consumption` event comes back.
    pub fn save_consumption(
        &mut self,
        consumer: String,
        topic: String,
        message_id: String,
        message: String,
        now: u64,
    ) -> (events: Vec<BroadcastEvent>)
        requires
            old(self).wf(),
        ensures
            final(self).wf(),
            final(self).registry == old(self).registry,
            final(self).batcher@ == pending_after(
                old(self).batcher@,
                (CmdV::SaveConsumption {
                    consumer: consumer@,
                    topic: topic@,
                    message_id: message_id@,
                    message: message@,
                    timestamp: now,
                }),
            ),
            final(self).store@ == store_after(
                old(self).batcher@,
                old(self).store@,
                (CmdV::SaveConsumption {
                    consumer: consumer@,
                    topic: topic@,
                    message_id: message_id@,
                    message: message@,
                    timestamp: now,
                }),
            ),
            events.deep_view() == seq![
                EventV::NewConsumption {
                    consumer: consumer@,
                    topic: topic@,
                    message_id: message_id@,
                    message: message@,
                    timestamp: now,
                },
            ],
    {
        let cmd = DbCommand::SaveConsumption {
            consumer: consumer.clone(),
            topic: topic.clone(),
            message_id: message_id.clone(),
            message: message.clone(),
            timestamp: now,
        };
        self.enqueue(cmd);
        let mut events: Vec<BroadcastEvent> = Vec::new();
        events.push(
            BroadcastEvent::NewConsumption {
                consumer,
                topic,
                message_id,
                message,
                timestamp: now,
            },
        );
        proof {
            assert(events.deep_view() =~= seq![events@[0]@]);
        }
        events
    }

    /// Handle one publish request: a request with an empty topic, message
    /// id or producer is rejected as a bad request and changes nothing;
    /// anything else is accepted as `save_message`.
    pub fn publish(&mut self, req: PublishRequest, now: u64) -> (r: Result<
        Vec<BroadcastEvent>,
        ApiError,
    >)
        requires
            old(self).wf(),
        ensures
            final(self).wf(),
            (req.topic@.len() == 0 || req.message_id@.len() == 0 || req.producer@.len() == 0)
                <==> (r is Err),
            (match r {
                Ok(events) => final(self).registry == old(self).registry && final(self).batcher@
                    == pending_after(
                    old(self).batcher@,
                    (CmdV::SaveMessage {
                        topic: req.topic@,
                        message_id: req.message_id@,
                        message: req.message@,
                        producer: req.producer@,
                        timestamp: now,
                    }),
                ) && final(self).store@ == store_after(
                    old(self).batcher@,
                    old(self).store@,
                    (CmdV::SaveMessage {
                        topic: req.topic@,
                        message_id: req.message_id@,
                        message: req.message@,
                        producer: req.producer@,
                        timestamp: now,
                    }),
                ) && events.deep_view() == seq![
                    EventV::NewMessage {
                        topic: req.topic@,
                        message_id: req.message_id@,
                        message: req.message@,
                        producer: req.producer@,
                        timestamp: now,
                    },
                ],
                Err(e) => e == ApiError::BadRequest && final(self).registry == old(self).registry
                    && final(self).batcher@ == old(self).batcher@ && final(self).store@ == old(self).store@,
            }),
    {
        if req.topic.as_str().is_empty() || req.message_id.as_str().is_empty()
            || req.producer.as_str().is_empty() {
            return Err(ApiError::BadRequest);
        }
        let events = self.save_message(req.topic, req.message_id, req.message, req.producer, now);
        Ok(events)
    }

    /// The live-clients listing, straight off the registry.
    pub fn get_clients(&self) -> (r: Vec<ClientInfo>)
        ensures
            r.deep_view() == reg_rows(self.registry@),
    {
        self.registry.clients()
    }

    /// The registry entry of one session, cloned out.
    pub fn get_client_by_sid(&self, sid: &String) -> (r: Option<RegistryEntry>)
        ensures
            match r {
                Some(e) => reg_has_sid(self.registry@, sid@) && exists|i: int|
                    0 <= i < self.registry@.len() && self.registry@[i].sid == sid@ && e@
                        == self.registry@[i],
                None => !reg_has_sid(self.registry@, sid@),
            },
    {
        self.registry.get_by_sid(sid)
    }

    /// The newest stored messages, newest first, bodies decoded.
    pub fn get_messages(&self) -> (r: Vec<MessageInfo>)
        ensures
            is_recent_msgs(self.store@.messages, r.deep_view()),
    {
        self.store.recent_messages()
    }

    /// The newest stored consumptions, newest first, bodies decoded.
    pub fn get_consumptions(&self) -> (r: Vec<ConsumptionInfo>)
        ensures
            is_recent_cons(self.store@.consumptions, r.deep_view()),
    {
        self.store.recent_consumptions()
    }

    /// The graph projection of the stored rows. The three node lists are
    /// sets: no producer, consumer or topic is listed twice.
    pub fn get_graph_state(&self) -> (g: GraphState)
        ensures
            g@ == graph_of(self.store@),
            seq_distinct(g@.producers),
            seq_distinct(g@.consumers),
            seq_distinct(g@.topics),
    {
        let producers = dedup_strings(producers_vec(&self.store.messages));
        let mut consumers_src = sub_consumers_vec(&self.store.subscriptions);
        let mut more = con_consumers_vec(&self.store.consumptions);
        let ghost c1 = consumers_src.deep_view();
        let ghost c2 = more.deep_view();
        consumers_src.append(&mut more);
        proof {
            assert forall|k: int|
                0 <= k < consumers_src.deep_view().len() implies consumers_src.deep_view()[k] == (c1
                + c2)[k] by {
            }
            assert(consumers_src.deep_view() =~= c1 + c2);
        }
        let consumers = dedup_strings(consumers_src);
        let mut topics_src = msg_topics_vec(&self.store.messages);
        let mut more_topics = sub_topics_vec(&self.store.subscriptions);
        let ghost t1 = topics_src.deep_view();
        let ghost t2 = more_topics.deep_view();
        topics_src.append(&mut more_topics);
        proof {
            assert forall|k: int|
                0 <= k < topics_src.deep_view().len() implies topics_src.deep_view()[k] == (t1
                + t2)[k] by {
            }
            assert(topics_src.deep_view() =~= t1 + t2);
        }
        let topics = dedup_strings(topics_src);
        let mut links = consume_links_vec(&self.store.subscriptions);
        let mut pubs = publish_links_vec(&self.store.messages);
        let ghost l1 = links.deep_view();
        let ghost l2 = pubs.deep_view();
        links.append(&mut pubs);
        proof {
            assert forall|k: int| 0 <= k < links.deep_view().len() implies links.deep_view()[k]
                == (l1 + l2)[k] by {
            }
            assert(links.deep_view() =~= l1 + l2);
        }
        let g = GraphState { producers, consumers, topics, links };
        proof {
            assert(g@ =~= graph_of(self.store@));
            lemma_dedup_distinct(msg_producers(self.store@.messages));
            lemma_dedup_distinct(
                sub_consumers(self.store@.subscriptions) + con_consumers(self.store@.consumptions),
            );
            lemma_dedup_distinct(msg_topics(self.store@.messages) + sub_topics(self.store@.subscriptions));
        }
        g
    }

    /// The recent-messages listing through the read cache: with the
    /// dashboard off the cache is bypassed and left untouched; a fresh
    /// slot answers from memory; otherwise the live listing is taken and
    /// cached, last writer wins.
    pub fn cached_messages(&self, cache: &mut QueryCache, now: u64, dashboard_enabled: bool) -> (r:
        Vec<MessageInfo>)
        ensures
            final(cache).ttl == old(cache).ttl,
            final(cache).consumptions == old(cache).consumptions,
            final(cache).graph_state == old(cache).graph_state,
            !dashboard_enabled ==> is_recent_msgs(self.store@.messages, r.deep_view())
                && final(cache).messages == old(cache).messages,
            dashboard_enabled && old(cache).messages.fresh(now, old(cache).ttl) ==> (match old(cache).messages.slot_value() {
                Some(v) => r@ == v@ && final(cache).messages == old(cache).messages,
                None => false,
            }),
            dashboard_enabled && !old(cache).messages.fresh(now, old(cache).ttl) ==> (is_recent_msgs(
                self.store@.messages,
                r.deep_view(),
            ) && (match final(cache).messages.slot_value() {
                Some(v) => v@ == r@ && final(cache).messages.slot_time() == now,
                None => false,
            })),
    {
        if !dashboard_enabled {
            return self.store.recent_messages();
        }
        let hit = cache.messages.lookup(now, cache.ttl);
        match hit {
            Some(v) => crate::store::clone_message_rows(v),
            None => {
                let r = self.store.recent_messages();
                let copy = crate::store::clone_message_rows(&r);
                cache.messages.store_value(copy, now);
                r
            },
        }
    }

    /// The recent-consumptions listing through the read cache, with the
    /// same policy as `cached_messages`.
    pub fn cached_consumptions(
        &self,
        cache: &mut QueryCache,
        now: u64,
        dashboard_enabled: bool,
    ) -> (r: Vec<ConsumptionInfo>)
        ensures
            final(cache).ttl == old(cache).ttl,
            final(cache).messages == old(cache).messages,
            final(cache).graph_state == old(cache).graph_state,
            !dashboard_enabled ==> is_recent_cons(self.store@.consumptions, r.deep_view())
                && final(cache).consumptions == old(cache).consumptions,
            dashboard_enabled && old(cache).consumptions.fresh(now, old(cache).ttl) ==> (match old(cache).consumptions.slot_value() {
                Some(v) => r@ == v@ && final(cache).consumptions == old(cache).consumptions,
                None => false,
            }),
            dashboard_enabled && !old(cache).consumptions.fresh(now, old(cache).ttl)
                ==> (is_recent_cons(self.store@.consumptions, r.deep_view()) && (match final(cache).consumptions.slot_value() {
                Some(v) => v@ == r@ && final(cache).consumptions.slot_time() == now,
                None => false,
            })),
    {
        if !dashboard_enabled {
            return self.store.recent_consumptions();
        }
        let hit = cache.consumptions.lookup(now, cache.ttl);
        match hit {
            Some(v) => crate::store::clone_consumption_rows(v),
            None => {
                let r = self.store.recent_consumptions();
                let copy = crate::store::clone_consumption_rows(&r);
                cache.consumptions.store_value(copy, now);
                r
            },
        }
    }

    /// The graph projection through the read cache, with the same policy
    /// as `cached_messages`.
    pub fn cached_graph_state(
        &self,
        cache: &mut QueryCache,
        now: u64,
        dashboard_enabled: bool,
    ) -> (r: GraphState)
        ensures
            final(cache).ttl == old(cache).ttl,
            final(cache).messages == old(cache).messages,
            final(cache).consumptions == old(cache).consumptions,
            !dashboard_enabled ==> r@ == graph_of(self.store@) && final(cache).graph_state == old(cache).graph_state,
            dashboard_enabled && old(cache).graph_state.fresh(now, old(cache).ttl) ==> (match old(cache).graph_state.slot_value() {
                Some(v) => r@ == v@ && final(cache).graph_state == old(cache).graph_state,
                None => false,
            }),
            dashboard_enabled && !old(cache).graph_state.fresh(now, old(cache).ttl) ==> (r@
                == graph_of(self.store@) && (match final(cache).graph_state.slot_value() {
                Some(v) => v@ == r@ && final(cache).graph_state.slot_time() == now,
                None => false,
            })),
    {
        if !dashboard_enabled {
            return self.get_graph_state();
        }
        let hit = cache.graph_state.lookup(now, cache.ttl);
        match hit {
            Some(v) => clone_graph_state(v),
            None => {
                let r = self.get_graph_state();
                let copy = clone_graph_state(&r);
                cache.graph_state.store_value(copy, now);
                r
            },
        }
    }
}

// ------------------------------------------------------------------
// Exec helpers for the graph projection
// ------------------------------------------------------------------

/// Clone a graph projection, view for view.
pub fn clone_graph_state(g: &GraphState) -> (r: GraphState)
    ensures
        r@ == g@,
{
    let mut links: Vec<Link> = Vec::new();
    let mut i: usize = 0;
    while i < g.links.len()
        invariant
            0 <= i <= g.links.len(),
            links@ == g.links@.take(i as int),
        decreases g.links.len() - i,
    {
        links.push(g.links[i].clone());
        proof {
            assert(links@ =~= g.links@.take(i + 1));
        }
        i += 1;
    }
    proof {
        assert(g.links@.take(g.links@.len() as int) =~= g.links@);
    }
    let r = GraphState {
        producers: clone_strings(&g.producers),
        consumers: clone_strings(&g.consumers),
        topics: clone_strings(&g.topics),
        links,
    };
    proof {
        assert(r@ =~= g@);
    }
    r
}

/// The producer of every stored message, in row order.
fn producers_vec(msgs: &Vec<MessageInfo>) -> (r: Vec<String>)
    ensures
        r.deep_view() == msg_producers(msgs.deep_view()),
{
    let mut r: Vec<String> = Vec::new();
    let mut i: usize = 0;
    proof {
        assert(r.deep_view() =~= msg_producers(msgs.deep_view().take(0)));
    }
    while i < msgs.len()
        invariant
            0 <= i <= msgs.len(),
            r.deep_view() == msg_producers(msgs.deep_view().take(i as int)),
        decreases msgs.len() - i,
    {
        let ghost d0 = r.deep_view();
        let ghost rraw = r@;
        r.push(msgs[i].producer.clone());
        proof {
            assert forall|k: int| 0 <= k < r.deep_view().len() implies r.deep_view()[k] == d0.push(
                msgs.deep_view()[i as int].producer,
            )[k] by {
                if k < d0.len() {
                    assert(r@[k] == rraw[k]);
                }
            }
            assert(r.deep_view() =~= d0.push(msgs.deep_view()[i as int].producer));
            assert(r.deep_view() =~= msg_producers(msgs.deep_view().take(i + 1)));
        }
        i += 1;
    }
    proof {
        assert(msgs.deep_view().take(msgs@.len() as int) =~= msgs.deep_view());
    }
    r
}

/// The topic of every stored message, in row order.
fn msg_topics_vec(msgs: &Vec<MessageInfo>) -> (r: Vec<String>)
    ensures
        r.deep_view() == msg_topics(msgs.deep_view()),
{
    let mut r: Vec<String> = Vec::new();
    let mut i: usize = 0;
    proof {
        assert(r.deep_view() =~= msg_topics(msgs.deep_view().take(0)));
    }
    while i < msgs.len()
        invariant
            0 <= i <= msgs.len(),
            r.deep_view() == msg_topics(msgs.deep_view().take(i as int)),
        decreases msgs.len() - i,
    {
        let ghost d0 = r.deep_view();
        let ghost rraw = r@;
        r.push(msgs[i].topic.clone());
        proof {
            assert forall|k: int| 0 <= k < r.deep_view().len() implies r.deep_view()[k] == d0.push(
                msgs.deep_view()[i as int].topic,
            )[k] by {
                if k < d0.len() {
                    assert(r@[k] == rraw[k]);
                }
            }
            assert(r.deep_view() =~= d0.push(msgs.deep_view()[i as int].topic));
            assert(r.deep_view() =~= msg_topics(msgs.deep_view().take(i + 1)));
        }
        i += 1;
    }
    proof {
        assert(msgs.deep_view().take(msgs@.len() as int) =~= msgs.deep_view());
    }
    r
}

/// The consumer of every durable subscription row, in row order.
fn sub_consumers_vec(subs: &Vec<SubscriptionRow>) -> (r: Vec<String>)
    ensures
        r.deep_view() == sub_consumers(subs.deep_view()),
{
    let mut r: Vec<String> = Vec::new();
    let mut i: usize = 0;
    proof {
        assert(r.deep_view() =~= sub_consumers(subs.deep_view().take(0)));
    }
    while i < subs.len()
        invariant
            0 <= i <= subs.len(),
            r.deep_view() == sub_consumers(subs.deep_view().take(i as int)),
        decreases subs.len() - i,
    {
        let ghost d0 = r.deep_view();
        let ghost rraw = r@;
        r.push(subs[i].consumer.clone());
        proof {
            assert forall|k: int| 0 <= k < r.deep_view().len() implies r.deep_view()[k] == d0.push(
                subs.deep_view()[i as int].consumer,
            )[k] by {
                if k < d0.len() {
                    assert(r@[k] == rraw[k]);
                }
            }
            assert(r.deep_view() =~= d0.push(subs.deep_view()[i as int].consumer));
            assert(r.deep_view() =~= sub_consumers(subs.deep_view().take(i + 1)));
        }
        i += 1;
    }
    proof {
        assert(subs.deep_view().take(subs@.len() as int) =~= subs.deep_view());
    }
    r
}

/// The topic of every durable subscription row, in row order.
fn sub_topics_vec(subs: &Vec<SubscriptionRow>) -> (r: Vec<String>)
    ensures
        r.deep_view() == sub_topics(subs.deep_view()),
{
    let mut r: Vec<String> = Vec::new();
    let mut i: usize = 0;
    proof {
        assert(r.deep_view() =~= sub_topics(subs.deep_view().take(0)));
    }
    while i < subs.len()
        invariant
            0 <= i <= subs.len(),
            r.deep_view() == sub_topics(subs.deep_view().take(i as int)),
        decreases subs.len() - i,
    {
        let ghost d0 = r.deep_view();
        let ghost rraw = r@;
        r.push(subs[i].topic.clone());
        proof {
            assert forall|k: int| 0 <= k < r.deep_view().len() implies r.deep_view()[k] == d0.push(
                subs.deep_view()[i as int].topic,
            )[k] by {
                if k < d0.len() {
                    assert(r@[k] == rraw[k]);
                }
            }
            assert(r.deep_view() =~= d0.push(subs.deep_view()[i as int].topic));
            assert(r.deep_view() =~= sub_topics(subs.deep_view().take(i + 1)));
        }
        i += 1;
    }
    proof {
        assert(subs.deep_view().take(subs@.len() as int) =~= subs.deep_view());
    }
    r
}

/// The consumer of every consumption row, in row order.
fn con_consumers_vec(cons: &Vec<ConsumptionInfo>) -> (r: Vec<String>)
    ensures
        r.deep_view() == con_consumers(cons.deep_view()),
{
    let mut r: Vec<String> = Vec::new();
    let mut i: usize = 0;
    proof {
        assert(r.deep_view() =~= con_consumers(cons.deep_view().take(0)));
    }
    while i < cons.len()
        invariant
            0 <= i <= cons.len(),
            r.deep_view() == con_consumers(cons.deep_view().take(i as int)),
        decreases cons.len() - i,
    {
        let ghost d0 = r.deep_view();
        let ghost rraw = r@;
        r.push(cons[i].consumer.clone());
        proof {
            assert forall|k: int| 0 <= k < r.deep_view().len() implies r.deep_view()[k] == d0.push(
                cons.deep_view()[i as int].consumer,
            )[k] by {
                if k < d0.len() {
                    assert(r@[k] == rraw[k]);
                }
            }
            assert(r.deep_view() =~= d0.push(cons.deep_view()[i as int].consumer));
            assert(r.deep_view() =~= con_consumers(cons.deep_view().take(i + 1)));
        }
        i += 1;
    }
    proof {
        assert(cons.deep_view().take(cons@.len() as int) =~= cons.deep_view());
    }
    r
}

/// Whether the first `upto` strings hold `x`.
fn listed_in_prefix(v: &Vec<String>, upto: usize, x: &String) -> (r: bool)
    requires
        upto <= v@.len(),
    ensures
        r == elem_listed(v.deep_view().take(upto as int), x@),
{
    let mut j: usize = 0;
    while j < upto
        invariant
            0 <= j <= upto <= v@.len(),
            forall|k: int| 0 <= k < j ==> v.deep_view()[k] != x@,
        decreases upto - j,
    {
        if v[j] == *x {
            proof {
                assert(v.deep_view().take(upto as int)[j as int] == x@);
            }
            return true;
        }
        j += 1;
    }
    proof {
        assert forall|k: int|
            0 <= k < v.deep_view().take(upto as int).len() implies v.deep_view().take(
            upto as int,
        )[k] != x@ by {
            assert(v.deep_view()[k] != x@);
        }
    }
    false
}

/// Drop later repetitions, keeping first occurrences in order.
fn dedup_strings(v: Vec<String>) -> (r: Vec<String>)
    ensures
        r.deep_view() == dedup_seq(v.deep_view()),
{
    let mut r: Vec<String> = Vec::new();
    let mut i: usize = 0;
    proof {
        assert(v.deep_view().take(0) =~= Seq::<Seq<char>>::empty());
        assert(r.deep_view() =~= dedup_seq(v.deep_view().take(0)));
    }
    while i < v.len()
        invariant
            0 <= i <= v.len(),
            r.deep_view() == dedup_seq(v.deep_view().take(i as int)),
        decreases v.len() - i,
    {
        proof {
            assert(v.deep_view().take(i + 1).drop_last() =~= v.deep_view().take(i as int));
            assert(v.deep_view().take(i + 1).last() == v.deep_view()[i as int]);
        }
        if !listed_in_prefix(&v, i, &v[i]) {
            let ghost d0 = r.deep_view();
            let ghost rraw = r@;
            r.push(v[i].clone());
            proof {
                assert forall|k: int| 0 <= k < r.deep_view().len() implies r.deep_view()[k]
                    == d0.push(v.deep_view()[i as int])[k] by {
                    if k < d0.len() {
                        assert(r@[k] == rraw[k]);
                    }
                }
                assert(r.deep_view() =~= d0.push(v.deep_view()[i as int]));
                assert(r.deep_view() =~= dedup_seq(v.deep_view().take(i + 1)));
            }
        } else {
            proof {
                assert(r.deep_view() =~= dedup_seq(v.deep_view().take(i + 1)));
            }
        }
        i += 1;
    }
    proof {
        assert(v.deep_view().take(v@.len() as int) =~= v.deep_view());
    }
    r
}

/// One consume edge per durable subscription row.
fn consume_links_vec(subs: &Vec<SubscriptionRow>) -> (r: Vec<Link>)
    ensures
        r.deep_view() == consume_links(subs.deep_view()),
{
    let mut r: Vec<Link> = Vec::new();
    let mut i: usize = 0;
    proof {
        assert(r.deep_view() =~= consume_links(subs.deep_view().take(0)));
    }
    while i < subs.len()
        invariant
            0 <= i <= subs.len(),
            r.deep_view() == consume_links(subs.deep_view().take(i as int)),
        decreases subs.len() - i,
    {
        let link = Link {
            source: subs[i].topic.clone(),
            target: subs[i].consumer.clone(),
            link_type: "consume".to_owned(),
        };
        proof {
            assert(link@ == consume_links(subs.deep_view())[i as int]);
        }
        let ghost d0 = r.deep_view();
        let ghost rraw = r@;
        r.push(link);
        proof {
            assert forall|k: int| 0 <= k < r.deep_view().len() implies r.deep_view()[k] == d0.push(
                consume_links(subs.deep_view())[i as int],
            )[k] by {
                if k < d0.len() {
                    assert(r@[k] == rraw[k]);
                }
            }
            assert(r.deep_view() =~= d0.push(consume_links(subs.deep_view())[i as int]));
            assert(r.deep_view() =~= consume_links(subs.deep_view().take(i + 1)));
        }
        i += 1;
    }
    proof {
        assert(subs.deep_view().take(subs@.len() as int) =~= subs.deep_view());
    }
    r
}

/// Whether the (producer, topic) pairs of the first `upto` messages hold
/// the given pair.
fn pub_pair_listed(
    msgs: &Vec<MessageInfo>,
    upto: usize,
    producer: &String,
    topic: &String,
) -> (r: bool)
    requires
        upto <= msgs@.len(),
    ensures
        r == elem_listed(msg_pub_pairs(msgs.deep_view()).take(upto as int), (producer@, topic@)),
{
    let mut j: usize = 0;
    while j < upto
        invariant
            0 <= j <= upto <= msgs@.len(),
            forall|k: int|
                0 <= k < j ==> #[trigger] msg_pub_pairs(msgs.deep_view())[k] != (producer@, topic@),
        decreases upto - j,
    {
        if msgs[j].producer == *producer && msgs[j].topic == *topic {
            proof {
                assert(msg_pub_pairs(msgs.deep_view()).take(upto as int)[j as int] == (
                    producer@,
                    topic@,
                ));
            }
            return true;
        }
        proof {
            assert(msg_pub_pairs(msgs.deep_view())[j as int] != (producer@, topic@));
        }
        j += 1;
    }
    proof {
        assert forall|k: int|
            0 <= k < msg_pub_pairs(msgs.deep_view()).take(upto as int).len() implies msg_pub_pairs(
            msgs.deep_view(),
        ).take(upto as int)[k] != (producer@, topic@) by {
            assert(msg_pub_pairs(msgs.deep_view())[k] != (producer@, topic@));
        }
    }
    false
}

/// One publish edge per distinct (producer, topic) pair, first
/// occurrences in order.
fn publish_links_vec(msgs: &Vec<MessageInfo>) -> (r: Vec<Link>)
    ensures
        r.deep_view() == publish_links(msgs.deep_view()),
{
    let ghost pairs = msg_pub_pairs(msgs.deep_view());
    let ghost tolink = |p: (Seq<char>, Seq<char>)| LinkV {
        source: p.0,
        target: p.1,
        link_type: "publish"@,
    };
    let mut r: Vec<Link> = Vec::new();
    let mut i: usize = 0;
    proof {
        assert(pairs.take(0) =~= Seq::<(Seq<char>, Seq<char>)>::empty());
        assert(r.deep_view() =~= dedup_seq(pairs.take(0)).map_values(tolink));
    }
    while i < msgs.len()
        invariant
            0 <= i <= msgs.len(),
            pairs == msg_pub_pairs(msgs.deep_view()),
            r.deep_view() == dedup_seq(pairs.take(i as int)).map_values(
                (|p: (Seq<char>, Seq<char>)| LinkV {
                    source: p.0,
                    target: p.1,
                    link_type: "publish"@,
                }),
            ),
        decreases msgs.len() - i,
    {
        let ghost tl = |p: (Seq<char>, Seq<char>)| LinkV {
            source: p.0,
            target: p.1,
            link_type: "publish"@,
        };
        proof {
            assert(pairs.take(i + 1).drop_last() =~= pairs.take(i as int));
            assert(pairs.take(i + 1).last() == pairs[i as int]);
        }
        if !pub_pair_listed(msgs, i, &msgs[i].producer, &msgs[i].topic) {
            let link = Link {
                source: msgs[i].producer.clone(),
                target: msgs[i].topic.clone(),
                link_type: "publish".to_owned(),
            };
            proof {
                assert(pairs[i as int] == (msgs.deep_view()[i as int].producer, msgs.deep_view()[i as int].topic));
                assert(link@ == tl(pairs[i as int]));
            }
            let ghost d0 = r.deep_view();
            let ghost rraw = r@;
            r.push(link);
            proof {
                assert forall|k: int| 0 <= k < r.deep_view().len() implies r.deep_view()[k]
                    == d0.push(tl(pairs[i as int]))[k] by {
                    if k < d0.len() {
                        assert(r@[k] == rraw[k]);
                    }
                }
                assert(r.deep_view() =~= d0.push(tl(pairs[i as int])));
                assert(dedup_seq(pairs.take(i + 1)) =~= dedup_seq(pairs.take(i as int)).push(
                    pairs[i as int],
                ));
                assert(r.deep_view() =~= dedup_seq(pairs.take(i + 1)).map_values(tl));
            }
        } else {
            proof {
                assert(dedup_seq(pairs.take(i + 1)) == dedup_seq(pairs.take(i as int)));
                assert(r.deep_view() =~= dedup_seq(pairs.take(i + 1)).map_values(tl));
            }
        }
        i += 1;
    }
    proof {
        assert(pairs.take(msgs@.len() as int) =~= pairs);
    }
    r
}

} // verus!
