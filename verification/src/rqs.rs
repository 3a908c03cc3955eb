//! The registry: the set of named queues, the control-plane event model, and
//! replay of the event log on startup.
//!
//! Every operation either succeeds and reports exactly how the state
//! changed, or fails with a typed reason and leaves the state untouched.
//! The same create/delete handlers serve both a live call and the replay of
//! a historical event, so the two paths cannot diverge. All file I/O belongs
//! to the caller: operations hand back plain values to persist.

use vstd::prelude::*;
use vstd::string::StringExecFns;

use crate::rqs_queue::MessageLogLine;
use crate::rqs_queue::MessageModel;
use crate::rqs_queue::QueueModel;
use crate::rqs_queue::RQSQueue;
use crate::rqs_queue::ack_spec;
use crate::rqs_queue::consume_batch_spec;
use crate::rqs_queue::consume_spec;
use crate::rqs_queue::empty_queue_model;
use crate::rqs_queue::msgs_view;
use crate::rqs_queue::publish_spec;
use crate::rqs_queue::queue_wf;
use crate::rqs_queue::revive_spec;
use crate::rqs_types::RQSError;
use crate::rqs_types::RQSEvent;
use crate::rqs_types::EventModel;
use crate::rqs_types::already_exists_msg;
use crate::rqs_types::make_already_exists_msg;
use crate::rqs_types::make_not_found_msg;
use crate::rqs_types::not_found_msg;
use crate::rqs_utils::now_seconds;

verus! {

/// One line of the control-plane event log, as it is written to and read
/// from disk: an event tag, the queue it concerns, the visibility timeout
/// (meaningful for creations only, zero otherwise), and the time the event
/// was appended.
#[derive(Debug)]
pub struct RQSLogLine {
    pub event: String,
    pub visibility_timeout: u32,
    pub queue_id: String,
    pub timestamp: u64,
}

/// Mathematical model of an event-log line.
pub ghost struct LogLineModel {
    pub event: Seq<char>,
    pub visibility_timeout: int,
    pub queue_id: Seq<char>,
    pub timestamp: int,
}

impl View for RQSLogLine {
    type V = LogLineModel;

    open spec fn view(&self) -> LogLineModel {
        LogLineModel {
            event: self.event@,
            visibility_timeout: self.visibility_timeout as int,
            queue_id: self.queue_id@,
            timestamp: self.timestamp as int,
        }
    }
}

/// How an event is written down as a log line.
pub open spec fn encode_event_spec(e: EventModel, timestamp: int) -> LogLineModel {
    match e {
        EventModel::Created { name, visibility_timeout } => LogLineModel {
            event: "QueueCreated"@,
            visibility_timeout,
            queue_id: name,
            timestamp,
        },
        EventModel::Deleted { name } => LogLineModel {
            event: "QueueDeleted"@,
            visibility_timeout: 0,
            queue_id: name,
            timestamp,
        },
    }
}

/// How a log line is read back as an event; an unknown tag is corrupt.
pub open spec fn decode_event_spec(l: LogLineModel) -> Option<EventModel> {
    if l.event == "QueueCreated"@ {
        Some(EventModel::Created { name: l.queue_id, visibility_timeout: l.visibility_timeout })
    } else if l.event == "QueueDeleted"@ {
        Some(EventModel::Deleted { name: l.queue_id })
    } else {
        None
    }
}

/// Writing an event down and reading it back yields the event unchanged,
/// whatever the timestamp: the durable form loses nothing.
pub proof fn lemma_event_round_trip(e: EventModel, timestamp: int)
    ensures
        decode_event_spec(encode_event_spec(e, timestamp)) == Some(e),
{
    reveal_strlit("QueueCreated");
    reveal_strlit("QueueDeleted");
    assert("QueueCreated"@[5] != "QueueDeleted"@[5]);
}

impl RQSEvent {
    /// The durable form of this event, stamped with the given time.
    pub fn to_log_line(&self, timestamp: u64) -> (r: RQSLogLine)
        ensures
            r@ == encode_event_spec(self@, timestamp as int),
    {
        match self {
            RQSEvent::QueueCreated { queue_id, visibility_timeout } => RQSLogLine {
                event: String::from_str("QueueCreated"),
                visibility_timeout: *visibility_timeout,
                queue_id: queue_id.clone(),
                timestamp,
            },
            RQSEvent::QueueDeleted { queue_id } => RQSLogLine {
                event: String::from_str("QueueDeleted"),
                visibility_timeout: 0,
                queue_id: queue_id.clone(),
                timestamp,
            },
        }
    }
}

impl RQSLogLine {
    /// Reads this log line back as an event. A line whose tag is neither
    /// known event is corrupt, and recovery must stop rather than guess.
    pub fn to_event(&self) -> (r: Result<RQSEvent, RQSError>)
        ensures
            decode_event_spec(self@) matches Some(e) ==> (r matches Ok(ev) && ev@ == e),
            decode_event_spec(self@) is None ==> (r matches Err(RQSError::CorruptLog(_))),
            r is Ok <==> decode_event_spec(self@) is Some,
    {
        if self.event == String::from_str("QueueCreated") {
            Ok(
                RQSEvent::QueueCreated {
                    queue_id: self.queue_id.clone(),
                    visibility_timeout: self.visibility_timeout,
                },
            )
        } else if self.event == String::from_str("QueueDeleted") {
            Ok(RQSEvent::QueueDeleted { queue_id: self.queue_id.clone() })
        } else {
            Err(
                RQSError::CorruptLog(
                    String::from_str("Log line is corrupt; the unknown event was ").concat(
                        self.event.as_str(),
                    ),
                ),
            )
        }
    }
}

/// The registry owns the set of queues; names are unique while registered.
#[derive(Debug)]
pub struct RQS {
    queues: Vec<RQSQueue>,
}

/// The sequence of queue models held by a sequence of queues.
pub open spec fn queues_view(qs: Seq<RQSQueue>) -> Seq<QueueModel> {
    qs.map_values(|q: RQSQueue| q@)
}

impl View for RQS {
    type V = Seq<QueueModel>;

    closed spec fn view(&self) -> Seq<QueueModel> {
        queues_view(self.queues@)
    }
}

/// Registry well-formedness: queue names are pairwise distinct and every
/// queue is well-formed.
pub open spec fn rqs_wf(qs: Seq<QueueModel>) -> bool {
    &&& forall|i: int, j: int|
        0 <= i < j < qs.len() ==> (#[trigger] qs[i]).name != (#[trigger] qs[j]).name
    &&& forall|i: int| 0 <= i < qs.len() ==> queue_wf(#[trigger] qs[i])
}

/// Whether a queue with this name is registered.
pub open spec fn has_queue(qs: Seq<QueueModel>, name: Seq<char>) -> bool {
    exists|i: int| 0 <= i < qs.len() && (#[trigger] qs[i]).name == name
}

/// Index of the first queue with this name, or the length when none has it.
pub open spec fn queue_idx(qs: Seq<QueueModel>, name: Seq<char>) -> int
    decreases qs.len(),
{
    if qs.len() == 0 {
        0
    } else if qs[0].name == name {
        0
    } else {
        1 + queue_idx(qs.drop_first(), name)
    }
}

/// `queue_idx` is the least index with the name, equals the length exactly
/// when the name is absent, and lands within bounds exactly when
/// `has_queue` holds.
pub proof fn lemma_queue_idx(qs: Seq<QueueModel>, name: Seq<char>)
    ensures
        0 <= queue_idx(qs, name) <= qs.len(),
        forall|k: int| 0 <= k < queue_idx(qs, name) ==> (#[trigger] qs[k]).name != name,
        queue_idx(qs, name) < qs.len() ==> qs[queue_idx(qs, name)].name == name,
        queue_idx(qs, name) < qs.len() <==> has_queue(qs, name),
    decreases qs.len(),
{
    if qs.len() > 0 && qs[0].name != name {
        let d = qs.drop_first();
        let qi = queue_idx(qs, name);
        lemma_queue_idx(d, name);
        assert forall|k: int| 0 <= k < qi implies (qs[k]).name != name by {
            if k > 0 {
                assert(qs[k] == d[k - 1]);
            }
        }
        if qi < qs.len() {
            assert(qs[qi] == d[qi - 1]);
        }
        if has_queue(qs, name) {
            let w = choose|i: int| 0 <= i < qs.len() && (#[trigger] qs[i]).name == name;
            assert(qs[w] == d[w - 1]);
            assert(has_queue(d, name));
        }
        if has_queue(d, name) {
            let w = choose|i: int| 0 <= i < d.len() && (#[trigger] d[i]).name == name;
            assert(d[w] == qs[w + 1]);
        }
    }
}

/// Creating a queue registers a fresh, empty queue under the name.
pub open spec fn registry_create_spec(
    qs: Seq<QueueModel>,
    name: Seq<char>,
    visibility_timeout: int,
) -> Seq<QueueModel> {
    qs.push(empty_queue_model(name, visibility_timeout))
}

/// Deleting a queue deregisters it; the other queues keep their order.
pub open spec fn registry_delete_spec(qs: Seq<QueueModel>, name: Seq<char>) -> Seq<QueueModel> {
    qs.remove(queue_idx(qs, name))
}

impl RQS {
    /// An empty registry; on startup it is replayed from the event log
    /// before serving traffic.
    pub fn new() -> (r: RQS)
        ensures
            r@ == Seq::<QueueModel>::empty(),
            rqs_wf(r@),
    {
        let r = RQS { queues: Vec::new() };
        proof {
            assert(r@ =~= Seq::<QueueModel>::empty());
        }
        r
    }

    /// The registered queues, in registration order.
    pub fn get_queues(&self) -> (r: &Vec<RQSQueue>)
        ensures
            queues_view(r@) == self@,
    {
        &self.queues
    }

    /// Deregisters every queue.
    pub fn clear(&mut self)
        ensures
            final(self)@ == Seq::<QueueModel>::empty(),
            rqs_wf(final(self)@),
    {
        self.queues.clear();
        proof {
            assert(self@ =~= Seq::<QueueModel>::empty());
        }
    }

    /// Index of the queue with this name, if one is registered.
    fn find_queue(&self, queue_id: &String) -> (r: Option<usize>)
        ensures
            r matches Some(i) ==> i < self@.len() && i as int == queue_idx(self@, queue_id@)
                && self@[i as int].name == queue_id@,
            r is None ==> !has_queue(self@, queue_id@),
            r is Some <==> has_queue(self@, queue_id@),
    {
        let n = self.queues.len();
        let mut i: usize = 0;
        while i < n
            invariant
                n == self.queues.len(),
                0 <= i <= n,
                forall|k: int| 0 <= k < i ==> (#[trigger] self@[k]).name != queue_id@,
            decreases n - i,
        {
            if *self.queues[i].get_name() == *queue_id {
                proof {
                    lemma_queue_idx(self@, queue_id@);
                    assert(self@[i as int] == self.queues@[i as int]@);
                    let j = queue_idx(self@, queue_id@);
                    if j < i as int {
                        assert(self@[j].name != queue_id@);
                    }
                    assert(i as int == j);
                }
                return Some(i);
            }
            proof {
                assert(self@[i as int] == self.queues@[i as int]@);
            }
            i = i + 1;
        }
        proof {
            assert(!has_queue(self@, queue_id@));
        }
        None
    }

    /// Registers a new queue under a name not yet in use; a name already
    /// registered is refused and nothing changes. The caller creates the
    /// queue's log directory and appends a `QueueCreated` event on success.
    pub fn create_queue(&mut self, queue_id: String, visibility_timeout: u32) -> (r: Result<
        (),
        RQSError,
    >)
        ensures
            r is Ok <==> !has_queue(old(self)@, queue_id@),
            r is Ok ==> final(self)@ == registry_create_spec(
                old(self)@,
                queue_id@,
                visibility_timeout as int,
            ),
            r matches Err(e) ==> final(self)@ == old(self)@ && (e matches RQSError::QueueAlreadyExists(m)
                && m@ == already_exists_msg(queue_id@)),
            rqs_wf(old(self)@) ==> rqs_wf(final(self)@),
    {
        let ghost pre = self@;
        if let Some(_) = self.find_queue(&queue_id) {
            return Err(RQSError::QueueAlreadyExists(make_already_exists_msg(&queue_id)));
        }
        self.queues.push(RQSQueue::new(queue_id, visibility_timeout));
        proof {
            assert(self@ =~= registry_create_spec(pre, queue_id@, visibility_timeout as int));
            assert(rqs_wf(pre) ==> rqs_wf(self@)) by {
                if rqs_wf(pre) {
                    assert(forall|k: int| 0 <= k < pre.len() ==> self@[k] == pre[k]);
                }
            }
        }
        Ok(())
    }

    /// Deregisters the queue with this name; an unknown name is refused and
    /// nothing changes. The caller removes the queue's log directory and
    /// appends a `QueueDeleted` event on success.
    pub fn delete_queue(&mut self, queue_id: String) -> (r: Result<(), RQSError>)
        ensures
            r is Ok <==> has_queue(old(self)@, queue_id@),
            r is Ok ==> final(self)@ == registry_delete_spec(old(self)@, queue_id@),
            r matches Err(e) ==> final(self)@ == old(self)@ && (e matches RQSError::QueueNotFound(m)
                && m@ == not_found_msg(queue_id@)),
            rqs_wf(old(self)@) ==> rqs_wf(final(self)@),
    {
        let ghost pre = self@;
        match self.find_queue(&queue_id) {
            None => Err(RQSError::QueueNotFound(make_not_found_msg(&queue_id))),
            Some(i) => {
                self.queues.remove(i);
                proof {
                    assert(self@ =~= registry_delete_spec(pre, queue_id@));
                    assert(rqs_wf(pre) ==> rqs_wf(self@)) by {
                        if rqs_wf(pre) {
                            assert(forall|k: int|
                                0 <= k < self@.len() ==> #[trigger] self@[k] == if k < i as int {
                                    pre[k]
                                } else {
                                    pre[k + 1]
                                });
                        }
                    }
                }
                Ok(())
            },
        }
    }
}

/// The model of an optional returned message record.
pub open spec fn opt_msg_view(o: Option<MessageLogLine>) -> Option<MessageModel> {
    match o {
        Some(m) => Some(m@),
        None => None,
    }
}

/// Publishing through the registry publishes on the named queue and leaves
/// every other queue untouched.
pub open spec fn registry_publish_spec(
    qs: Seq<QueueModel>,
    name: Seq<char>,
    message_id: Seq<char>,
    content: Seq<char>,
    now: int,
) -> Seq<QueueModel> {
    let j = queue_idx(qs, name);
    qs.update(j, publish_spec(qs[j], message_id, content, now))
}

/// Consuming through the registry consumes on the named queue and leaves
/// every other queue untouched.
pub open spec fn registry_consume_spec(qs: Seq<QueueModel>, name: Seq<char>, now: int) -> (
    Seq<QueueModel>,
    Option<MessageModel>,
) {
    let j = queue_idx(qs, name);
    let (q2, r) = consume_spec(qs[j], now);
    (qs.update(j, q2), r)
}

/// Acking through the registry acks on the named queue and leaves every
/// other queue untouched.
pub open spec fn registry_ack_spec(qs: Seq<QueueModel>, name: Seq<char>, id: int, now: int) -> (
    Seq<QueueModel>,
    bool,
) {
    let j = queue_idx(qs, name);
    let (q2, r) = ack_spec(qs[j], id, now);
    (qs.update(j, q2), r)
}

/// Reviving a queue through the registry folds the records into the named
/// queue and leaves every other queue untouched.
pub open spec fn registry_revive_spec(
    qs: Seq<QueueModel>,
    name: Seq<char>,
    records: Seq<MessageModel>,
) -> Seq<QueueModel> {
    let j = queue_idx(qs, name);
    qs.update(j, revive_spec(qs[j], records))
}

impl RQS {
    /// Publishes a message on the named queue at time `now`: the queue
    /// assigns the next id, which is returned. Fails exactly when no queue
    /// carries the name, and then changes nothing. The caller persists the
    /// queue's message log.
    pub fn new_message_at(
        &mut self,
        queue_id: String,
        message_id: String,
        message_content: String,
        now: u64,
    ) -> (r: Result<u128, RQSError>)
        requires
            has_queue(old(self)@, queue_id@) ==> old(self)@[queue_idx(
                old(self)@,
                queue_id@,
            )].last_id < u128::MAX,
        ensures
            r is Ok <==> has_queue(old(self)@, queue_id@),
            r matches Ok(id) ==> id as int == old(self)@[queue_idx(old(self)@, queue_id@)].last_id
                + 1 && final(self)@ == registry_publish_spec(
                old(self)@,
                queue_id@,
                message_id@,
                message_content@,
                now as int,
            ),
            r matches Err(e) ==> final(self)@ == old(self)@ && (
            e matches RQSError::QueueNotFound(m) && m@ == not_found_msg(queue_id@)),
            rqs_wf(old(self)@) ==> rqs_wf(final(self)@),
    {
        let ghost pre = self@;
        match self.find_queue(&queue_id) {
            None => Err(RQSError::QueueNotFound(make_not_found_msg(&queue_id))),
            Some(i) => {
                let id = self.queues[i].add_message_to_queue(message_id, message_content, now);
                proof {
                    let post = registry_publish_spec(
                        pre,
                        queue_id@,
                        message_id@,
                        message_content@,
                        now as int,
                    );
                    assert(self@ =~= post);
                    assert(rqs_wf(pre) ==> rqs_wf(self@)) by {
                        if rqs_wf(pre) {
                            assert(forall|k: int|
                                0 <= k < pre.len() && k != i as int ==> #[trigger] self@[k]
                                    == pre[k]);
                            assert(self@[i as int].name == pre[i as int].name);
                            assert(queue_wf(self@[i as int]));
                        }
                    }
                }
                Ok(id)
            },
        }
    }

    /// Dispatches the first eligible message of the named queue at time
    /// `now`, marking it read; `Ok(None)` when the queue is empty or every
    /// message is in flight. Fails exactly when no queue carries the name,
    /// and then changes nothing. The caller persists the queue's message
    /// log when a message was dispatched.
    pub fn get_message_at(&mut self, queue_id: String, now: u64) -> (r: Result<
        Option<MessageLogLine>,
        RQSError,
    >)
        ensures
            r is Ok <==> has_queue(old(self)@, queue_id@),
            r matches Ok(opt) ==> final(self)@ == registry_consume_spec(
                old(self)@,
                queue_id@,
                now as int,
            ).0 && opt_msg_view(opt) == registry_consume_spec(old(self)@, queue_id@, now as int).1,
            r matches Err(e) ==> final(self)@ == old(self)@ && (
            e matches RQSError::QueueNotFound(m) && m@ == not_found_msg(queue_id@)),
            rqs_wf(old(self)@) ==> rqs_wf(final(self)@),
    {
        let ghost pre = self@;
        match self.find_queue(&queue_id) {
            None => Err(RQSError::QueueNotFound(make_not_found_msg(&queue_id))),
            Some(i) => {
                let taken = self.queues[i].take_message_from_queue(now);
                proof {
                    let post = registry_consume_spec(pre, queue_id@, now as int).0;
                    assert(self@ =~= post);
                    assert(rqs_wf(pre) ==> rqs_wf(self@)) by {
                        if rqs_wf(pre) {
                            assert(forall|k: int|
                                0 <= k < pre.len() && k != i as int ==> #[trigger] self@[k]
                                    == pre[k]);
                            assert(self@[i as int].name == pre[i as int].name);
                            assert(queue_wf(self@[i as int]));
                        }
                    }
                }
                Ok(taken)
            },
        }
    }

    /// Acks (permanently removes) the message with the given id on the named
    /// queue, provided the message is currently in flight at time `now`.
    /// Fails with `QueueNotFound` when no queue carries the name and with
    /// `MessageNotFoundOrNotInFlight` when the message does not exist or is
    /// not held by a consumer; a failed ack changes nothing. The caller
    /// persists the queue's message log on success.
    pub fn ack_message_at(&mut self, queue_id: String, id: u128, now: u64) -> (r: Result<
        (),
        RQSError,
    >)
        ensures
            r is Ok <==> has_queue(old(self)@, queue_id@) && registry_ack_spec(
                old(self)@,
                queue_id@,
                id as int,
                now as int,
            ).1,
            has_queue(old(self)@, queue_id@) ==> final(self)@ == registry_ack_spec(
                old(self)@,
                queue_id@,
                id as int,
                now as int,
            ).0,
            !has_queue(old(self)@, queue_id@) ==> final(self)@ == old(self)@ && (
            r matches Err(e) && e matches RQSError::QueueNotFound(m) && m@ == not_found_msg(
                queue_id@,
            )),
            has_queue(old(self)@, queue_id@) && !registry_ack_spec(
                old(self)@,
                queue_id@,
                id as int,
                now as int,
            ).1 ==> (r matches Err(e) && e is MessageNotFoundOrNotInFlight),
            rqs_wf(old(self)@) ==> rqs_wf(final(self)@),
    {
        let ghost pre = self@;
        match self.find_queue(&queue_id) {
            None => Err(RQSError::QueueNotFound(make_not_found_msg(&queue_id))),
            Some(i) => {
                let removed = self.queues[i].ack_message(id, now);
                proof {
                    let post = registry_ack_spec(pre, queue_id@, id as int, now as int).0;
                    assert(self@ =~= post);
                    assert(rqs_wf(pre) ==> rqs_wf(self@)) by {
                        if rqs_wf(pre) {
                            assert(forall|k: int|
                                0 <= k < pre.len() && k != i as int ==> #[trigger] self@[k]
                                    == pre[k]);
                            assert(self@[i as int].name == pre[i as int].name);
                            assert(queue_wf(self@[i as int]));
                        }
                    }
                }
                if removed {
                    Ok(())
                } else {
                    Err(
                        RQSError::MessageNotFoundOrNotInFlight(
                            String::from_str(
                                "Message does not exist or is not in flight in queue ",
                            ).concat(queue_id.as_str()),
                        ),
                    )
                }
            },
        }
    }

    /// Rebuilds the named queue's messages from its message log, read back
    /// as parsed records in file order. Fails exactly when no queue carries
    /// the name, and then changes nothing.
    pub fn revive_queue_from_log(&mut self, queue_id: &String, records: &Vec<MessageLogLine>) -> (r:
        Result<(), RQSError>)
        ensures
            r is Ok <==> has_queue(old(self)@, queue_id@),
            r is Ok ==> final(self)@ == registry_revive_spec(
                old(self)@,
                queue_id@,
                msgs_view(records@),
            ),
            r matches Err(e) ==> final(self)@ == old(self)@ && (
            e matches RQSError::QueueNotFound(m) && m@ == not_found_msg(queue_id@)),
            rqs_wf(old(self)@) ==> rqs_wf(final(self)@),
    {
        let ghost pre = self@;
        match self.find_queue(queue_id) {
            None => Err(RQSError::QueueNotFound(make_not_found_msg(queue_id))),
            Some(i) => {
                self.queues[i].revive_from_log(records);
                proof {
                    let post = registry_revive_spec(pre, queue_id@, msgs_view(records@));
                    assert(self@ =~= post);
                    assert(rqs_wf(pre) ==> rqs_wf(self@)) by {
                        if rqs_wf(pre) {
                            assert(forall|k: int|
                                0 <= k < pre.len() && k != i as int ==> #[trigger] self@[k]
                                    == pre[k]);
                            assert(self@[i as int].name == pre[i as int].name);
                            assert(queue_wf(self@[i as int]));
                        }
                    }
                }
                Ok(())
            },
        }
    }
}

/// Whether applying this event would succeed: a creation needs a free name,
/// a deletion a registered one.
pub open spec fn event_step_ok(qs: Seq<QueueModel>, e: EventModel) -> bool {
    match e {
        EventModel::Created { name, .. } => !has_queue(qs, name),
        EventModel::Deleted { name } => has_queue(qs, name),
    }
}

/// One step of applying an event; an event that cannot apply leaves the
/// state unchanged, exactly as the live operation does when it fails.
pub open spec fn event_step(qs: Seq<QueueModel>, e: EventModel) -> Seq<QueueModel> {
    match e {
        EventModel::Created { name, visibility_timeout } => if !has_queue(qs, name) {
            registry_create_spec(qs, name, visibility_timeout)
        } else {
            qs
        },
        EventModel::Deleted { name } => if has_queue(qs, name) {
            registry_delete_spec(qs, name)
        } else {
            qs
        },
    }
}

/// Whether every event of the sequence applies cleanly, each to the state
/// the ones before it produced. An event log written by the registry only
/// holds events whose operation succeeded, so its replay satisfies this.
pub open spec fn events_ok(qs: Seq<QueueModel>, events: Seq<EventModel>) -> bool
    decreases events.len(),
{
    events.len() == 0 || (event_step_ok(qs, events[0]) && events_ok(
        event_step(qs, events[0]),
        events.drop_first(),
    ))
}

/// Applying the events one by one, in order, as live operations would: a
/// step that cannot apply changes nothing and the rest still apply.
pub open spec fn apply_events(qs: Seq<QueueModel>, events: Seq<EventModel>) -> Seq<QueueModel>
    decreases events.len(),
{
    if events.len() == 0 {
        qs
    } else {
        apply_events(event_step(qs, events[0]), events.drop_first())
    }
}

/// Replaying the events in order, stopping at the first event that cannot
/// apply: such an event marks a log the registry could not have written,
/// and recovery stops there.
pub open spec fn replay_run(qs: Seq<QueueModel>, events: Seq<EventModel>) -> Seq<QueueModel>
    decreases events.len(),
{
    if events.len() == 0 {
        qs
    } else if !event_step_ok(qs, events[0]) {
        qs
    } else {
        replay_run(event_step(qs, events[0]), events.drop_first())
    }
}

/// The sequence of event models held by a sequence of events.
pub open spec fn events_view(es: Seq<RQSEvent>) -> Seq<EventModel> {
    es.map_values(|e: RQSEvent| e@)
}

/// Replaying one more event at the end of a cleanly applying log: it
/// applies (or refuses) on the state the log produced.
pub proof fn lemma_replay_run_snoc(qs: Seq<QueueModel>, events: Seq<EventModel>, e: EventModel)
    requires
        events_ok(qs, events),
    ensures
        events_ok(qs, events.push(e)) <==> event_step_ok(replay_run(qs, events), e),
        event_step_ok(replay_run(qs, events), e) ==> replay_run(qs, events.push(e)) == event_step(
            replay_run(qs, events),
            e,
        ),
        !event_step_ok(replay_run(qs, events), e) ==> replay_run(qs, events.push(e)) == replay_run(
            qs,
            events,
        ),
    decreases events.len(),
{
    let p = events.push(e);
    if events.len() == 0 {
        assert(p[0] == e);
        assert(p.drop_first() =~= events);
        if event_step_ok(qs, e) {
            assert(replay_run(event_step(qs, e), events) == event_step(qs, e));
            assert(events_ok(event_step(qs, e), events));
        }
    } else {
        assert(p[0] == events[0]);
        assert(p.drop_first() =~= events.drop_first().push(e));
        lemma_replay_run_snoc(event_step(qs, events[0]), events.drop_first(), e);
    }
}

/// Replay equals live application: for any starting state and any sequence
/// of create/delete events that applies cleanly, the state reconstructed by
/// replaying the log is exactly the state obtained by performing the same
/// operations directly in memory.
pub proof fn lemma_replay_matches_live(qs: Seq<QueueModel>, events: Seq<EventModel>)
    requires
        events_ok(qs, events),
    ensures
        replay_run(qs, events) == apply_events(qs, events),
    decreases events.len(),
{
    if events.len() > 0 {
        lemma_replay_matches_live(event_step(qs, events[0]), events.drop_first());
    }
}

impl RQS {
    /// Replays a control-plane event log, in order, through the same
    /// create/delete handlers that serve live calls, so the two paths
    /// cannot diverge. Succeeds exactly when every event applies cleanly;
    /// an event that cannot apply marks a log the registry could not have
    /// written, and replay stops there with its error. Message logs are
    /// replayed separately, queue by queue, once the queue set stands.
    pub fn revive_from_log(&mut self, events: &Vec<RQSEvent>) -> (r: Result<(), RQSError>)
        ensures
            r is Ok <==> events_ok(old(self)@, events_view(events@)),
            final(self)@ == replay_run(old(self)@, events_view(events@)),
            rqs_wf(old(self)@) ==> rqs_wf(final(self)@),
    {
        let ghost pre = self@;
        let ghost evs = events_view(events@);
        let n = events.len();
        let mut i: usize = 0;
        while i < n
            invariant
                n == events.len(),
                0 <= i <= n,
                pre == old(self)@,
                evs == events_view(events@),
                events_ok(pre, evs.take(i as int)),
                self@ == replay_run(pre, evs.take(i as int)),
                rqs_wf(pre) ==> rqs_wf(self@),
            decreases n - i,
        {
            let ghost mid = self@;
            proof {
                assert(evs[i as int] == events@[i as int]@);
                assert(evs.take(i + 1).drop_last() =~= evs.take(i as int));
                assert(evs.take(i + 1) =~= evs.take(i as int).push(evs[i as int]));
                lemma_replay_run_snoc(pre, evs.take(i as int), evs[i as int]);
            }
            let step = match &events[i] {
                RQSEvent::QueueCreated { queue_id, visibility_timeout } => self.create_queue(
                    queue_id.clone(),
                    *visibility_timeout,
                ),
                RQSEvent::QueueDeleted { queue_id } => self.delete_queue(queue_id.clone()),
            };
            match step {
                Ok(_) => {
                    proof {
                        assert(event_step_ok(mid, evs[i as int]));
                        assert(self@ == event_step(mid, evs[i as int]));
                        assert(self@ == replay_run(pre, evs.take(i + 1)));
                        assert(events_ok(pre, evs.take(i + 1)));
                    }
                },
                Err(e) => {
                    proof {
                        assert(!event_step_ok(mid, evs[i as int]));
                        assert(self@ == mid);
                        assert(replay_run(pre, evs) == mid && !events_ok(pre, evs)) by {
                            lemma_replay_stuck(pre, evs, i as int);
                        }
                    }
                    return Err(e);
                },
            }
            i = i + 1;
        }
        proof {
            assert(evs.take(n as int) =~= evs);
        }
        Ok(())
    }
}

/// A replay that reaches an event that cannot apply stops there: the final
/// state is the state just before that event, and the log as a whole does
/// not apply cleanly.
pub proof fn lemma_replay_stuck(qs: Seq<QueueModel>, events: Seq<EventModel>, k: int)
    requires
        0 <= k < events.len(),
        events_ok(qs, events.take(k)),
        !event_step_ok(replay_run(qs, events.take(k)), events[k]),
    ensures
        replay_run(qs, events) == replay_run(qs, events.take(k)),
        !events_ok(qs, events),
    decreases events.len(),
{
    if k == 0 {
        assert(events.take(0) =~= Seq::<EventModel>::empty());
    } else {
        assert(events.take(k)[0] == events[0]);
        assert(event_step_ok(qs, events[0]));
        assert(events.take(k).drop_first() =~= events.drop_first().take(k - 1));
        assert(events.drop_first()[k - 1] == events[k]);
        lemma_replay_stuck(event_step(qs, events[0]), events.drop_first(), k - 1);
    }
}

impl RQS {
    /// Publishes a message on the named queue, stamped with the current
    /// clock reading. The assigned id is returned; every other guarantee of
    /// `new_message_at` holds for whatever time the clock gave.
    pub fn new_message(
        &mut self,
        queue_id: String,
        message_id: String,
        message_content: String,
    ) -> (r: Result<u128, RQSError>)
        requires
            has_queue(old(self)@, queue_id@) ==> old(self)@[queue_idx(
                old(self)@,
                queue_id@,
            )].last_id < u128::MAX,
        ensures
            r is Ok <==> has_queue(old(self)@, queue_id@),
            r matches Ok(id) ==> id as int == old(self)@[queue_idx(old(self)@, queue_id@)].last_id
                + 1 && exists|t: int|
                final(self)@ == registry_publish_spec(
                    old(self)@,
                    queue_id@,
                    message_id@,
                    message_content@,
                    t,
                ),
            r matches Err(e) ==> final(self)@ == old(self)@ && (
            e matches RQSError::QueueNotFound(m) && m@ == not_found_msg(queue_id@)),
            rqs_wf(old(self)@) ==> rqs_wf(final(self)@),
    {
        let now = now_seconds();
        self.new_message_at(queue_id, message_id, message_content, now)
    }

    /// Dispatches the first eligible message of the named queue, judging
    /// eligibility by the current clock reading. Every other guarantee of
    /// `get_message_at` holds for whatever time the clock gave.
    pub fn get_message(&mut self, queue_id: String) -> (r: Result<
        Option<MessageLogLine>,
        RQSError,
    >)
        ensures
            r is Ok <==> has_queue(old(self)@, queue_id@),
            r matches Ok(opt) ==> exists|t: int|
                final(self)@ == registry_consume_spec(old(self)@, queue_id@, t).0 && opt_msg_view(
                    opt,
                ) == registry_consume_spec(old(self)@, queue_id@, t).1,
            r matches Err(e) ==> final(self)@ == old(self)@ && (
            e matches RQSError::QueueNotFound(m) && m@ == not_found_msg(queue_id@)),
            rqs_wf(old(self)@) ==> rqs_wf(final(self)@),
    {
        let now = now_seconds();
        self.get_message_at(queue_id, now)
    }

    /// Acks the message with the given id on the named queue, judging its
    /// in-flight state by the current clock reading. Every other guarantee
    /// of `ack_message_at` holds for whatever time the clock gave.
    pub fn ack_message(&mut self, queue_id: String, id: u128) -> (r: Result<(), RQSError>)
        ensures
            !has_queue(old(self)@, queue_id@) ==> final(self)@ == old(self)@ && (
            r matches Err(e) && e matches RQSError::QueueNotFound(m) && m@ == not_found_msg(
                queue_id@,
            )),
            has_queue(old(self)@, queue_id@) ==> exists|t: int|
                final(self)@ == registry_ack_spec(old(self)@, queue_id@, id as int, t).0 && (
                r is Ok <==> registry_ack_spec(old(self)@, queue_id@, id as int, t).1),
            r is Err && has_queue(old(self)@, queue_id@) ==> (r matches Err(e)
                && e is MessageNotFoundOrNotInFlight),
            rqs_wf(old(self)@) ==> rqs_wf(final(self)@),
    {
        let now = now_seconds();
        self.ack_message_at(queue_id, id, now)
    }
}

impl PartialEq for RQS {
    /// Two registries are equal when they hold equal queues in equal order.
    fn eq(&self, other: &RQS) -> (r: bool) {
        proof {
            assert(self@.len() == self.queues@.len());
            assert(other@.len() == other.queues@.len());
        }
        if self.queues.len() != other.queues.len() {
            return false;
        }
        let n = self.queues.len();
        let mut i: usize = 0;
        while i < n
            invariant
                n == self.queues.len(),
                n == other.queues.len(),
                0 <= i <= n,
                forall|k: int| 0 <= k < i ==> self@[k] == other@[k],
            decreases n - i,
        {
            proof {
                assert(self@[i as int] == self.queues@[i as int]@);
                assert(other@[i as int] == other.queues@[i as int]@);
            }
            if !(self.queues[i] == other.queues[i]) {
                proof {
                    assert(self@[i as int] != other@[i as int]);
                }
                return false;
            }
            i = i + 1;
        }
        proof {
            assert(self@ =~= other@);
        }
        true
    }
}

impl vstd::std_specs::cmp::PartialEqSpecImpl for RQS {
    open spec fn obeys_eq_spec() -> bool {
        true
    }

    open spec fn eq_spec(&self, other: &RQS) -> bool {
        self@ == other@
    }
}

/// Batch-consuming through the registry dispatches on the named queue and
/// leaves every other queue untouched.
pub open spec fn registry_consume_batch_spec(
    qs: Seq<QueueModel>,
    name: Seq<char>,
    max: int,
    now: int,
) -> (Seq<QueueModel>, Seq<MessageModel>) {
    let j = queue_idx(qs, name);
    let (q2, out) = consume_batch_spec(qs[j], max, now);
    (qs.update(j, q2), out)
}

impl RQS {
    /// Dispatches up to `max_batch` eligible messages of the named queue at
    /// time `now`, oldest first, marking each read. Fails exactly when no
    /// queue carries the name, and then changes nothing. The caller
    /// persists the queue's message log when any message was dispatched.
    pub fn get_messages_at(&mut self, queue_id: String, max_batch: u32, now: u64) -> (r: Result<
        Vec<MessageLogLine>,
        RQSError,
    >)
        ensures
            r is Ok <==> has_queue(old(self)@, queue_id@),
            r matches Ok(out) ==> final(self)@ == registry_consume_batch_spec(
                old(self)@,
                queue_id@,
                max_batch as int,
                now as int,
            ).0 && msgs_view(out@) == registry_consume_batch_spec(
                old(self)@,
                queue_id@,
                max_batch as int,
                now as int,
            ).1,
            r matches Err(e) ==> final(self)@ == old(self)@ && (
            e matches RQSError::QueueNotFound(m) && m@ == not_found_msg(queue_id@)),
            rqs_wf(old(self)@) ==> rqs_wf(final(self)@),
    {
        let ghost pre = self@;
        match self.find_queue(&queue_id) {
            None => Err(RQSError::QueueNotFound(make_not_found_msg(&queue_id))),
            Some(i) => {
                let out = self.queues[i].take_messages_from_queue(max_batch, now);
                proof {
                    let post = registry_consume_batch_spec(
                        pre,
                        queue_id@,
                        max_batch as int,
                        now as int,
                    ).0;
                    assert(self@ =~= post);
                    assert(rqs_wf(pre) ==> rqs_wf(self@)) by {
                        if rqs_wf(pre) {
                            assert(forall|k: int|
                                0 <= k < pre.len() && k != i as int ==> #[trigger] self@[k]
                                    == pre[k]);
                            assert(self@[i as int].name == pre[i as int].name);
                            assert(queue_wf(self@[i as int]));
                        }
                    }
                }
                Ok(out)
            },
        }
    }
}

} // verus!
