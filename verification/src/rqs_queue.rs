//! One queue's messages, visibility-timeout policy, and message-log replay.
//!
//! Per-message state machine: available (never read, or the visibility
//! timeout has elapsed since the last read) -> in flight (read within the
//! visibility timeout) -> available again (timeout elapses) or removed
//! (acked). All operations take the current time as an argument; the caller
//! persists the queue's message log.

use vstd::prelude::*;

verus! {

/// One record of a per-queue message log: the full state of one message.
/// State changes append a new record for the same `id`; replay folds the
/// records, last write for a given `id` wins.
#[derive(Debug)]
pub struct MessageLogLine {
    /// Unique within the queue, assigned as `last_id + 1` at publish time,
    /// never reused even after the message is removed.
    pub id: u128,
    /// Caller-supplied opaque identifier (not required to be unique).
    pub message_id: String,
    /// Opaque payload.
    pub message_content: String,
    /// Seconds since the epoch at publish time.
    pub timestamp: u64,
    /// When the message was last dispatched to a consumer; `None` means
    /// "never read, immediately eligible".
    pub read_at: Option<u64>,
}

/// Mathematical model of a message record.
pub ghost struct MessageModel {
    pub id: int,
    pub message_id: Seq<char>,
    pub message_content: Seq<char>,
    pub timestamp: int,
    pub read_at: Option<int>,
}

impl View for MessageLogLine {
    type V = MessageModel;

    open spec fn view(&self) -> MessageModel {
        MessageModel {
            id: self.id as int,
            message_id: self.message_id@,
            message_content: self.message_content@,
            timestamp: self.timestamp as int,
            read_at: match self.read_at {
                Some(r) => Some(r as int),
                None => None,
            },
        }
    }
}

/// The sequence of message models held by a sequence of records.
pub open spec fn msgs_view(ms: Seq<MessageLogLine>) -> Seq<MessageModel> {
    ms.map_values(|m: MessageLogLine| m@)
}

/// A message is eligible for consumption iff it was never read, or more than
/// `visibility_timeout` seconds have passed since it was last read.
pub open spec fn eligible_at(m: MessageModel, visibility_timeout: int, now: int) -> bool {
    match m.read_at {
        None => true,
        Some(r) => now - r > visibility_timeout,
    }
}

/// A message is in flight iff it was dispatched to a consumer and its
/// visibility timeout has not yet elapsed.
pub open spec fn in_flight_at(m: MessageModel, visibility_timeout: int, now: int) -> bool {
    m.read_at is Some && !eligible_at(m, visibility_timeout, now)
}

impl MessageLogLine {
    /// Whether this message may be dispatched to a consumer at time `now`.
    pub fn is_eligible(&self, visibility_timeout: u32, now: u64) -> (r: bool)
        ensures
            r == eligible_at(self@, visibility_timeout as int, now as int),
    {
        match self.read_at {
            None => true,
            Some(read_at) => now > read_at && now - read_at > visibility_timeout as u64,
        }
    }

    /// Whether this message is currently held by a consumer at time `now`.
    pub fn is_in_flight(&self, visibility_timeout: u32, now: u64) -> (r: bool)
        ensures
            r == in_flight_at(self@, visibility_timeout as int, now as int),
    {
        match self.read_at {
            None => false,
            Some(read_at) => !(now > read_at && now - read_at > visibility_timeout as u64),
        }
    }

    /// A record with the same fields.
    pub fn duplicate(&self) -> (r: MessageLogLine)
        ensures
            r == *self,
    {
        MessageLogLine {
            id: self.id,
            message_id: self.message_id.clone(),
            message_content: self.message_content.clone(),
            timestamp: self.timestamp,
            read_at: self.read_at,
        }
    }
}

/// One named queue: its messages in insertion order, its visibility-timeout
/// policy, and the highest message id it ever assigned.
#[derive(Debug)]
pub struct RQSQueue {
    name: String,
    messages: Vec<MessageLogLine>,
    visibility_timeout: u32,
    last_id: u128,
}

/// Mathematical model of a queue.
pub ghost struct QueueModel {
    pub name: Seq<char>,
    pub messages: Seq<MessageModel>,
    pub visibility_timeout: int,
    pub last_id: int,
}

impl View for RQSQueue {
    type V = QueueModel;

    closed spec fn view(&self) -> QueueModel {
        QueueModel {
            name: self.name@,
            messages: msgs_view(self.messages@),
            visibility_timeout: self.visibility_timeout as int,
            last_id: self.last_id as int,
        }
    }
}

/// Queue well-formedness: message ids are pairwise distinct and never exceed
/// the last assigned id, so a fresh id is strictly greater than every id in
/// the queue.
pub open spec fn queue_wf(q: QueueModel) -> bool {
    &&& forall|i: int| 0 <= i < q.messages.len() ==> #[trigger] q.messages[i].id <= q.last_id
    &&& forall|i: int, j: int|
        0 <= i < j < q.messages.len() ==> #[trigger] q.messages[i].id != #[trigger] q.messages[j].id
}

/// The model of a freshly created queue.
pub open spec fn empty_queue_model(name: Seq<char>, visibility_timeout: int) -> QueueModel {
    QueueModel { name, messages: Seq::empty(), visibility_timeout, last_id: 0 }
}

/// Publishing appends a message with the next id, the publish time, and no
/// read mark, and advances the id counter.
pub open spec fn publish_spec(
    q: QueueModel,
    message_id: Seq<char>,
    content: Seq<char>,
    now: int,
) -> QueueModel {
    QueueModel {
        messages: q.messages.push(
            MessageModel {
                id: q.last_id + 1,
                message_id: message_id,
                message_content: content,
                timestamp: now,
                read_at: None,
            },
        ),
        last_id: q.last_id + 1,
        ..q
    }
}

/// Index of the first message eligible at time `now`, or the length of the
/// sequence when none is.
pub open spec fn first_eligible_idx(ms: Seq<MessageModel>, visibility_timeout: int, now: int) -> int
    decreases ms.len(),
{
    if ms.len() == 0 {
        0
    } else if eligible_at(ms[0], visibility_timeout, now) {
        0
    } else {
        1 + first_eligible_idx(ms.drop_first(), visibility_timeout, now)
    }
}

/// `first_eligible_idx` is the least index of an eligible message, and equals
/// the length exactly when no message is eligible.
pub proof fn lemma_first_eligible_idx(ms: Seq<MessageModel>, visibility_timeout: int, now: int)
    ensures
        0 <= first_eligible_idx(ms, visibility_timeout, now) <= ms.len(),
        forall|k: int|
            0 <= k < first_eligible_idx(ms, visibility_timeout, now) ==> !eligible_at(
                #[trigger] ms[k],
                visibility_timeout,
                now,
            ),
        first_eligible_idx(ms, visibility_timeout, now) < ms.len() ==> eligible_at(
            ms[first_eligible_idx(ms, visibility_timeout, now)],
            visibility_timeout,
            now,
        ),
    decreases ms.len(),
{
    if ms.len() > 0 && !eligible_at(ms[0], visibility_timeout, now) {
        let d = ms.drop_first();
        let fe = first_eligible_idx(ms, visibility_timeout, now);
        lemma_first_eligible_idx(d, visibility_timeout, now);
        assert forall|k: int| 0 <= k < fe implies !eligible_at(
            ms[k],
            visibility_timeout,
            now,
        ) by {
            if k > 0 {
                assert(ms[k] == d[k - 1]);
            }
        }
        if fe < ms.len() {
            assert(ms[fe] == d[fe - 1]);
        }
    }
}

/// Index of the first message with the given id, or the length of the
/// sequence when none carries it.
pub open spec fn find_id_idx(ms: Seq<MessageModel>, id: int) -> int
    decreases ms.len(),
{
    if ms.len() == 0 {
        0
    } else if ms[0].id == id {
        0
    } else {
        1 + find_id_idx(ms.drop_first(), id)
    }
}

/// `find_id_idx` is the least index carrying the id, and equals the length
/// exactly when no message carries it.
pub proof fn lemma_find_id_idx(ms: Seq<MessageModel>, id: int)
    ensures
        0 <= find_id_idx(ms, id) <= ms.len(),
        forall|k: int| 0 <= k < find_id_idx(ms, id) ==> (#[trigger] ms[k]).id != id,
        find_id_idx(ms, id) < ms.len() ==> ms[find_id_idx(ms, id)].id == id,
    decreases ms.len(),
{
    if ms.len() > 0 && ms[0].id != id {
        let d = ms.drop_first();
        let fi = find_id_idx(ms, id);
        lemma_find_id_idx(d, id);
        assert forall|k: int| 0 <= k < fi implies (ms[k]).id != id by {
            if k > 0 {
                assert(ms[k] == d[k - 1]);
            }
        }
        if fi < ms.len() {
            assert(ms[fi] == d[fi - 1]);
        }
    }
}

/// One step of log replay: the record becomes the authoritative state for
/// its id. A record for an id already present replaces that message in
/// place; a record for a new id is appended in log order.
pub open spec fn lww_apply(ms: Seq<MessageModel>, r: MessageModel) -> Seq<MessageModel> {
    let j = find_id_idx(ms, r.id);
    if j < ms.len() {
        ms.update(j, r)
    } else {
        ms.push(r)
    }
}

/// Folding a whole message log over a starting state, first record first:
/// the last write for a given id wins.
pub open spec fn lww_fold(ms: Seq<MessageModel>, records: Seq<MessageModel>) -> Seq<MessageModel>
    decreases records.len(),
{
    if records.len() == 0 {
        ms
    } else {
        lww_fold(lww_apply(ms, records[0]), records.drop_first())
    }
}

/// The highest id seen in the records, or the starting value if higher.
pub open spec fn max_id_fold(last_id: int, records: Seq<MessageModel>) -> int
    decreases records.len(),
{
    if records.len() == 0 {
        last_id
    } else {
        max_id_fold(
            if records[0].id > last_id {
                records[0].id
            } else {
                last_id
            },
            records.drop_first(),
        )
    }
}

/// Folding one more record at the end of the log commutes with folding the
/// rest first.
pub proof fn lemma_lww_fold_snoc(ms: Seq<MessageModel>, records: Seq<MessageModel>, r: MessageModel)
    ensures
        lww_fold(ms, records.push(r)) == lww_apply(lww_fold(ms, records), r),
    decreases records.len(),
{
    let p = records.push(r);
    if records.len() == 0 {
        assert(p[0] == r);
        assert(p.drop_first() =~= records);
        assert(lww_fold(ms, p) == lww_fold(lww_apply(ms, r), p.drop_first()));
        assert(lww_fold(lww_apply(ms, r), records) == lww_apply(ms, r));
        assert(lww_fold(ms, records) == ms);
    } else {
        assert(p[0] == records[0]);
        assert(p.drop_first() =~= records.drop_first().push(r));
        lemma_lww_fold_snoc(lww_apply(ms, records[0]), records.drop_first(), r);
        assert(lww_fold(ms, p) == lww_fold(lww_apply(ms, p[0]), p.drop_first()));
        assert(lww_fold(lww_apply(ms, records[0]), records.drop_first().push(r))
            == lww_apply(lww_fold(lww_apply(ms, records[0]), records.drop_first()), r));
        assert(lww_fold(ms, records) == lww_fold(lww_apply(ms, records[0]), records.drop_first()));
    }
}

/// The highest-id fold, taken one record at a time from the end.
pub proof fn lemma_max_id_fold_snoc(last_id: int, records: Seq<MessageModel>, r: MessageModel)
    ensures
        max_id_fold(last_id, records.push(r)) == ({
            let l = max_id_fold(last_id, records);
            if r.id > l {
                r.id
            } else {
                l
            }
        }),
    decreases records.len(),
{
    let p = records.push(r);
    if records.len() == 0 {
        assert(p[0] == r);
        assert(p.drop_first() =~= records);
        assert(max_id_fold(last_id, p) == max_id_fold(
            if r.id > last_id {
                r.id
            } else {
                last_id
            },
            p.drop_first(),
        ));
        assert(max_id_fold(last_id, records) == last_id);
    } else {
        let l0 = if records[0].id > last_id {
            records[0].id
        } else {
            last_id
        };
        assert(p[0] == records[0]);
        assert(p.drop_first() =~= records.drop_first().push(r));
        lemma_max_id_fold_snoc(l0, records.drop_first(), r);
        assert(max_id_fold(last_id, p) == max_id_fold(l0, p.drop_first()));
        assert(max_id_fold(last_id, records) == max_id_fold(l0, records.drop_first()));
    }
}

/// Rebuilding a queue from its message log: the records fold over the
/// current messages (last write for an id wins) and the id counter rises to
/// the highest id seen.
pub open spec fn revive_spec(q: QueueModel, records: Seq<MessageModel>) -> QueueModel {
    QueueModel {
        messages: lww_fold(q.messages, records),
        last_id: max_id_fold(q.last_id, records),
        ..q
    }
}

/// Consuming dispatches the first eligible message: its read mark is set to
/// `now` and a copy is handed to the caller; with no eligible message the
/// queue is unchanged and nothing is returned.
pub open spec fn consume_spec(q: QueueModel, now: int) -> (QueueModel, Option<MessageModel>) {
    let j = first_eligible_idx(q.messages, q.visibility_timeout, now);
    if j < q.messages.len() {
        let m = MessageModel { read_at: Some(now), ..q.messages[j] };
        (QueueModel { messages: q.messages.update(j, m), ..q }, Some(m))
    } else {
        (q, None)
    }
}

/// Acking removes the message with the given id, but only when it exists and
/// is currently in flight; otherwise the queue is unchanged and the ack is
/// refused.
pub open spec fn ack_spec(q: QueueModel, id: int, now: int) -> (QueueModel, bool) {
    let j = find_id_idx(q.messages, id);
    if j < q.messages.len() && in_flight_at(q.messages[j], q.visibility_timeout, now) {
        (QueueModel { messages: q.messages.remove(j), ..q }, true)
    } else {
        (q, false)
    }
}

/// No message in the queue carries this id, and the id will never be
/// assigned again, because fresh ids are always strictly above `last_id`.
pub open spec fn id_absent(q: QueueModel, id: int) -> bool {
    &&& id <= q.last_id
    &&& forall|i: int| 0 <= i < q.messages.len() ==> (#[trigger] q.messages[i]).id != id
}

/// `first_eligible_idx` is determined by its characterization: any index
/// below which nothing is eligible, and which is eligible itself or the end.
pub proof fn lemma_first_eligible_idx_is(
    ms: Seq<MessageModel>,
    visibility_timeout: int,
    now: int,
    j: int,
)
    requires
        0 <= j <= ms.len(),
        forall|k: int| 0 <= k < j ==> !eligible_at(#[trigger] ms[k], visibility_timeout, now),
        j < ms.len() ==> eligible_at(ms[j], visibility_timeout, now),
    ensures
        first_eligible_idx(ms, visibility_timeout, now) == j,
{
    lemma_first_eligible_idx(ms, visibility_timeout, now);
    let fe = first_eligible_idx(ms, visibility_timeout, now);
    if fe < j {
        assert(eligible_at(ms[fe], visibility_timeout, now));
        assert(!eligible_at(ms[fe], visibility_timeout, now));
    }
    if j < fe {
        assert(eligible_at(ms[j], visibility_timeout, now));
        assert(!eligible_at(ms[j], visibility_timeout, now));
    }
}

/// Consuming keeps the queue well-formed: it only sets a read mark, so the
/// ids and the id counter are untouched.
pub proof fn lemma_consume_preserves_wf(q: QueueModel, now: int)
    requires
        queue_wf(q),
    ensures
        queue_wf(consume_spec(q, now).0),
        consume_spec(q, now).0.last_id == q.last_id,
        consume_spec(q, now).0.messages.len() == q.messages.len(),
        forall|i: int|
            0 <= i < q.messages.len() ==> (#[trigger] consume_spec(q, now).0.messages[i]).id
                == q.messages[i].id,
{
    lemma_first_eligible_idx(q.messages, q.visibility_timeout, now);
}

/// Acking keeps the queue well-formed: removing a message removes one id and
/// leaves the id counter untouched.
pub proof fn lemma_ack_preserves_wf(q: QueueModel, id: int, now: int)
    requires
        queue_wf(q),
    ensures
        queue_wf(ack_spec(q, id, now).0),
        ack_spec(q, id, now).0.last_id == q.last_id,
{
    lemma_find_id_idx(q.messages, id);
    let j = find_id_idx(q.messages, id);
    let q2 = ack_spec(q, id, now).0;
    if j < q.messages.len() && in_flight_at(q.messages[j], q.visibility_timeout, now) {
        assert(forall|t: int|
            0 <= t < q2.messages.len() ==> #[trigger] q2.messages[t] == if t < j {
                q.messages[t]
            } else {
                q.messages[t + 1]
            });
    }
}

/// Publishing assigns a fresh id, strictly greater than the id of every
/// message that was ever in the queue, and never reuses one: the new message
/// is appended with id `last_id + 1` and the counter advances with it.
pub proof fn lemma_publish_fresh_id(
    q: QueueModel,
    message_id: Seq<char>,
    content: Seq<char>,
    now: int,
)
    requires
        queue_wf(q),
    ensures
        ({
            let q2 = publish_spec(q, message_id, content, now);
            &&& q2.messages.len() == q.messages.len() + 1
            &&& q2.messages.last().id == q.last_id + 1
            &&& forall|i: int|
                0 <= i < q.messages.len() ==> (#[trigger] q.messages[i]).id
                    < q2.messages.last().id
            &&& queue_wf(q2)
        }),
{
    let q2 = publish_spec(q, message_id, content, now);
    assert(forall|i: int|
        0 <= i < q.messages.len() ==> #[trigger] q2.messages[i] == q.messages[i]);
}

/// After a publish, a consume that would otherwise have found nothing
/// returns exactly the newly published message, whose id is strictly greater
/// than every id previously in the queue.
pub proof fn lemma_consume_returns_fresh_publish(
    q: QueueModel,
    message_id: Seq<char>,
    content: Seq<char>,
    now: int,
    now2: int,
)
    requires
        queue_wf(q),
        consume_spec(q, now2).1 is None,
    ensures
        ({
            let q2 = publish_spec(q, message_id, content, now);
            let r = consume_spec(q2, now2).1;
            &&& r is Some
            &&& r->0.id == q.last_id + 1
            &&& r->0.message_id == message_id
            &&& r->0.message_content == content
            &&& forall|i: int| 0 <= i < q.messages.len() ==> (#[trigger] q.messages[i]).id < r->0.id
        }),
{
    let vt = q.visibility_timeout;
    lemma_first_eligible_idx(q.messages, vt, now2);
    assert(first_eligible_idx(q.messages, vt, now2) == q.messages.len());
    let q2 = publish_spec(q, message_id, content, now);
    assert(forall|i: int|
        0 <= i < q.messages.len() ==> #[trigger] q2.messages[i] == q.messages[i]);
    assert(eligible_at(q2.messages[q.messages.len() as int], vt, now2));
    lemma_first_eligible_idx_is(q2.messages, vt, now2, q.messages.len() as int);
}

/// A consumed message is hidden for the visibility timeout: within
/// `visibility_timeout` seconds of the read it is not eligible and a second
/// consume cannot return it; strictly after the timeout it is eligible
/// again.
pub proof fn lemma_visibility_timeout_hides(q: QueueModel, now: int, now2: int)
    requires
        queue_wf(q),
        consume_spec(q, now).1 is Some,
    ensures
        ({
            let (q2, r) = consume_spec(q, now);
            let m = r->0;
            let j = first_eligible_idx(q.messages, q.visibility_timeout, now);
            &&& q2.messages[j] == m
            &&& (now2 - now <= q.visibility_timeout ==> !eligible_at(
                q2.messages[j],
                q.visibility_timeout,
                now2,
            ))
            &&& (now2 - now <= q.visibility_timeout ==> (consume_spec(q2, now2).1 matches Some(m2)
                ==> m2.id != m.id))
            &&& (now2 - now > q.visibility_timeout ==> eligible_at(
                q2.messages[j],
                q.visibility_timeout,
                now2,
            ))
            &&& queue_wf(q2)
        }),
{
    let vt = q.visibility_timeout;
    lemma_first_eligible_idx(q.messages, vt, now);
    lemma_consume_preserves_wf(q, now);
    let (q2, r) = consume_spec(q, now);
    let m = r->0;
    let j = first_eligible_idx(q.messages, vt, now);
    if now2 - now <= vt {
        if consume_spec(q2, now2).1 is Some {
            lemma_first_eligible_idx(q2.messages, vt, now2);
            let j2 = first_eligible_idx(q2.messages, vt, now2);
            assert(eligible_at(q2.messages[j2], vt, now2));
            assert(j2 != j);
            assert(q2.messages[j2].id != q2.messages[j].id);
        }
    }
}

/// An acked message is removed permanently: no message with its id remains,
/// its id stays at or below the id counter so it is never assigned again,
/// and no later consume can return it.
pub proof fn lemma_ack_removes_permanently(q: QueueModel, id: int, now: int, now2: int)
    requires
        queue_wf(q),
        ack_spec(q, id, now).1,
    ensures
        ({
            let q2 = ack_spec(q, id, now).0;
            &&& id_absent(q2, id)
            &&& (consume_spec(q2, now2).1 matches Some(m) ==> m.id != id)
            &&& queue_wf(q2)
        }),
{
    lemma_find_id_idx(q.messages, id);
    lemma_ack_preserves_wf(q, id, now);
    let j = find_id_idx(q.messages, id);
    let q2 = ack_spec(q, id, now).0;
    assert(q.messages[j].id == id);
    assert(id <= q.last_id);
    assert(forall|t: int|
        0 <= t < q2.messages.len() ==> #[trigger] q2.messages[t] == if t < j {
            q.messages[t]
        } else {
            q.messages[t + 1]
        });
    assert forall|t: int| 0 <= t < q2.messages.len() implies (#[trigger] q2.messages[t]).id
        != id by {
        if t < j {
            assert(q2.messages[t] == q.messages[t]);
        } else {
            assert(q2.messages[t] == q.messages[t + 1]);
            assert(q.messages[t + 1].id != q.messages[j].id);
        }
    }
    if consume_spec(q2, now2).1 is Some {
        lemma_first_eligible_idx(q2.messages, q2.visibility_timeout, now2);
    }
}

/// An id that is absent from a well-formed queue and at or below the id
/// counter stays absent through any publish, consume or ack, so an acked
/// (or never-assigned) id can never surface later.
pub proof fn lemma_absent_id_stays_absent(
    q: QueueModel,
    id: int,
    message_id: Seq<char>,
    content: Seq<char>,
    t1: int,
    t2: int,
    ack_id: int,
    t3: int,
)
    requires
        queue_wf(q),
        id_absent(q, id),
    ensures
        id_absent(publish_spec(q, message_id, content, t1), id),
        id_absent(consume_spec(q, t2).0, id),
        id_absent(ack_spec(q, ack_id, t3).0, id),
        consume_spec(q, t2).1 matches Some(m) ==> m.id != id,
{
    let qp = publish_spec(q, message_id, content, t1);
    assert(forall|i: int|
        0 <= i < q.messages.len() ==> #[trigger] qp.messages[i] == q.messages[i]);
    assert(qp.messages.last().id == q.last_id + 1);
    assert(qp.messages.last().id != id);
    lemma_consume_preserves_wf(q, t2);
    lemma_first_eligible_idx(q.messages, q.visibility_timeout, t2);
    lemma_ack_preserves_wf(q, ack_id, t3);
    let qa = ack_spec(q, ack_id, t3).0;
    lemma_find_id_idx(q.messages, ack_id);
    let j = find_id_idx(q.messages, ack_id);
    if j < q.messages.len() && in_flight_at(q.messages[j], q.visibility_timeout, t3) {
        assert(forall|t: int|
            0 <= t < qa.messages.len() ==> #[trigger] qa.messages[t] == if t < j {
                q.messages[t]
            } else {
                q.messages[t + 1]
            });
    }
}

impl RQSQueue {
    /// Pure construction of an empty queue; no I/O.
    pub fn new(name: String, visibility_timeout: u32) -> (q: RQSQueue)
        ensures
            q@ == empty_queue_model(name@, visibility_timeout as int),
            queue_wf(q@),
    {
        let q = RQSQueue { name, messages: Vec::new(), visibility_timeout, last_id: 0 };
        proof {
            assert(q@.messages =~= Seq::<MessageModel>::empty());
        }
        q
    }

    /// The queue's unique name.
    pub fn get_name(&self) -> (r: &String)
        ensures
            r@ == self@.name,
    {
        &self.name
    }

    /// Seconds a message stays hidden from other consumers after a read.
    pub fn get_visibility_timeout(&self) -> (r: u32)
        ensures
            r as int == self@.visibility_timeout,
    {
        self.visibility_timeout
    }

    /// The highest message id this queue ever assigned.
    pub fn get_last_id(&self) -> (r: u128)
        ensures
            r as int == self@.last_id,
    {
        self.last_id
    }

    /// The messages currently in the queue, in insertion order. The caller
    /// persists these records as the queue's message log.
    pub fn get_messages(&self) -> (r: &Vec<MessageLogLine>)
        ensures
            msgs_view(r@) == self@.messages,
    {
        &self.messages
    }

    /// Appends a message with a fresh id (`last_id + 1`) and returns that id.
    /// Always succeeds. The caller persists the queue's message log.
    pub fn add_message_to_queue(
        &mut self,
        message_id: String,
        message_content: String,
        now: u64,
    ) -> (id: u128)
        requires
            old(self)@.last_id < u128::MAX,
        ensures
            final(self)@ == publish_spec(old(self)@, message_id@, message_content@, now as int),
            id as int == old(self)@.last_id + 1,
            queue_wf(old(self)@) ==> queue_wf(final(self)@),
    {
        let ghost pre = self@;
        let id = self.last_id + 1;
        let line = MessageLogLine {
            id,
            message_id,
            message_content,
            timestamp: now,
            read_at: None,
        };
        self.messages.push(line);
        self.last_id = id;
        proof {
            let post = publish_spec(pre, message_id@, message_content@, now as int);
            assert(self@.messages =~= post.messages);
            assert(queue_wf(pre) ==> queue_wf(self@)) by {
                if queue_wf(pre) {
                    assert(forall|i: int|
                        0 <= i < pre.messages.len() ==> self@.messages[i] == pre.messages[i]);
                }
            }
        }
        id
    }

    /// Scans the messages in insertion order for the first one eligible at
    /// `now`; if found, marks it read at `now` and returns a copy of the
    /// updated record. Returns `None` when the queue is empty or every
    /// message is in flight. The caller persists the queue's message log.
    pub fn take_message_from_queue(&mut self, now: u64) -> (r: Option<MessageLogLine>)
        ensures
            final(self)@ == consume_spec(old(self)@, now as int).0,
            r is Some <==> consume_spec(old(self)@, now as int).1 is Some,
            r matches Some(m) ==> m@ == consume_spec(old(self)@, now as int).1->0,
            r is Some <==> exists|j: int|
                0 <= j < old(self)@.messages.len() && eligible_at(
                    #[trigger] old(self)@.messages[j],
                    old(self)@.visibility_timeout,
                    now as int,
                ),
            queue_wf(old(self)@) ==> queue_wf(final(self)@),
    {
        let ghost pre = self@;
        proof {
            lemma_first_eligible_idx(pre.messages, pre.visibility_timeout, now as int);
        }
        let mut i: usize = 0;
        let n = self.messages.len();
        while i < n
            invariant
                *self == *old(self),
                n == self.messages.len(),
                0 <= i <= n,
                pre == self@,
                forall|k: int|
                    0 <= k < i ==> !eligible_at(
                        #[trigger] pre.messages[k],
                        pre.visibility_timeout,
                        now as int,
                    ),
            decreases n - i,
        {
            if self.messages[i].is_eligible(self.visibility_timeout, now) {
                proof {
                    lemma_first_eligible_idx(pre.messages, pre.visibility_timeout, now as int);
                    let j = first_eligible_idx(pre.messages, pre.visibility_timeout, now as int);
                    assert(pre.messages[i as int] == self.messages@[i as int]@);
                    assert(eligible_at(pre.messages[i as int], pre.visibility_timeout, now as int));
                    if j < i as int {
                        assert(!eligible_at(pre.messages[j], pre.visibility_timeout, now as int));
                        assert(eligible_at(pre.messages[j], pre.visibility_timeout, now as int));
                    }
                    assert(i as int == j);
                }
                let m = &self.messages[i];
                let updated = MessageLogLine {
                    id: m.id,
                    message_id: m.message_id.clone(),
                    message_content: m.message_content.clone(),
                    timestamp: m.timestamp,
                    read_at: Some(now),
                };
                let ret = updated.duplicate();
                self.messages[i] = updated;
                proof {
                    let post = consume_spec(pre, now as int).0;
                    assert(self@.messages =~= post.messages);
                    assert(queue_wf(pre) ==> queue_wf(self@)) by {
                        if queue_wf(pre) {
                            assert(forall|k: int|
                                0 <= k < pre.messages.len() ==> (#[trigger] self@.messages[k]).id
                                    == pre.messages[k].id);
                        }
                    }
                }
                return Some(ret);
            }
            i = i + 1;
        }
        proof {
            lemma_first_eligible_idx(pre.messages, pre.visibility_timeout, now as int);
            assert(first_eligible_idx(pre.messages, pre.visibility_timeout, now as int)
                == pre.messages.len());
        }
        None
    }

    /// Removes the message with the given id, provided it exists and is
    /// currently in flight at `now`; a message that is not held by a
    /// consumer cannot be acked. Returns whether the message was removed.
    /// The caller persists the queue's message log.
    pub fn ack_message(&mut self, id: u128, now: u64) -> (r: bool)
        ensures
            final(self)@ == ack_spec(old(self)@, id as int, now as int).0,
            r == ack_spec(old(self)@, id as int, now as int).1,
            queue_wf(old(self)@) ==> (r <==> exists|j: int|
                0 <= j < old(self)@.messages.len() && (#[trigger] old(self)@.messages[j]).id
                    == id as int && in_flight_at(
                    old(self)@.messages[j],
                    old(self)@.visibility_timeout,
                    now as int,
                )),
            queue_wf(old(self)@) ==> queue_wf(final(self)@),
    {
        let ghost pre = self@;
        proof {
            lemma_find_id_idx(pre.messages, id as int);
        }
        let mut i: usize = 0;
        let n = self.messages.len();
        while i < n
            invariant
                *self == *old(self),
                n == self.messages.len(),
                0 <= i <= n,
                pre == self@,
                forall|k: int| 0 <= k < i ==> (#[trigger] pre.messages[k]).id != id as int,
            decreases n - i,
        {
            if self.messages[i].id == id {
                proof {
                    lemma_find_id_idx(pre.messages, id as int);
                    let j = find_id_idx(pre.messages, id as int);
                    assert(pre.messages[i as int] == self.messages@[i as int]@);
                    assert(pre.messages[i as int].id == id as int);
                    if j < i as int {
                        assert(pre.messages[j].id != id as int);
                        assert(pre.messages[j].id == id as int);
                    }
                    assert(i as int == j);
                }
                if self.messages[i].is_in_flight(self.visibility_timeout, now) {
                    self.messages.remove(i);
                    proof {
                        let post = ack_spec(pre, id as int, now as int).0;
                        assert(self@.messages =~= post.messages);
                        assert(queue_wf(pre) ==> queue_wf(self@)) by {
                            if queue_wf(pre) {
                                assert(forall|k: int|
                                    0 <= k < self@.messages.len()
                                        ==> (#[trigger] self@.messages[k]) == if k < i {
                                        pre.messages[k]
                                    } else {
                                        pre.messages[k + 1]
                                    });
                            }
                        }
                    }
                    return true;
                } else {
                    proof {
                        if queue_wf(pre) {
                            assert(forall|k: int|
                                0 <= k < pre.messages.len() && k != i as int
                                    ==> (#[trigger] pre.messages[k]).id != id as int);
                        }
                    }
                    return false;
                }
            }
            i = i + 1;
        }
        proof {
            lemma_find_id_idx(pre.messages, id as int);
            assert(find_id_idx(pre.messages, id as int) == pre.messages.len());
        }
        false
    }

    /// Rebuilds the queue's state from its message log, read back as parsed
    /// records in file order. Each record becomes the authoritative state for
    /// its id (last write wins), and the id counter is raised to the highest
    /// id seen, so ids are never reassigned across restarts. An empty record
    /// list leaves the queue as it is: a missing log file means an empty,
    /// newly created queue.
    pub fn revive_from_log(&mut self, records: &Vec<MessageLogLine>)
        ensures
            final(self)@ == revive_spec(old(self)@, msgs_view(records@)),
            queue_wf(old(self)@) ==> queue_wf(final(self)@),
    {
        let ghost pre = self@;
        let ghost rs = msgs_view(records@);
        let mut i: usize = 0;
        let n = records.len();
        while i < n
            invariant
                n == records.len(),
                0 <= i <= n,
                rs == msgs_view(records@),
                self@.messages == lww_fold(pre.messages, rs.take(i as int)),
                self@.last_id == max_id_fold(pre.last_id, rs.take(i as int)),
                self@.name == pre.name,
                self@.visibility_timeout == pre.visibility_timeout,
                queue_wf(pre) ==> queue_wf(self@),
            decreases n - i,
        {
            let ghost mid = self@;
            let r = &records[i];
            let rec = r.duplicate();
            let rec_id = rec.id;
            let ghost rm = rec@;
            proof {
                assert(rm == rs[i as int]);
                assert(rs.take(i + 1).drop_last() =~= rs.take(i as int));
                assert(rs.take(i + 1) =~= rs.take(i as int).push(rs[i as int]));
                lemma_lww_fold_snoc(pre.messages, rs.take(i as int), rs[i as int]);
                lemma_max_id_fold_snoc(pre.last_id, rs.take(i as int), rs[i as int]);
                lemma_find_id_idx(mid.messages, rm.id);
            }
            // scan for an existing record with this id
            let mut k: usize = 0;
            let m = self.messages.len();
            let mut found = false;
            while k < m && !found
                invariant
                    m == self.messages.len(),
                    0 <= k <= m,
                    mid == self@,
                    rm == rec@,
                    rm.id == rec_id as int,
                    !found ==> forall|t: int|
                        0 <= t < k ==> (#[trigger] mid.messages[t]).id != rm.id,
                    found ==> k < m && mid.messages[k as int].id == rm.id && forall|t: int|
                        0 <= t < k ==> (#[trigger] mid.messages[t]).id != rm.id,
                decreases m - k + if found {
                    0int
                } else {
                    1int
                },
            {
                if self.messages[k].id == rec_id {
                    proof {
                        assert(mid.messages[k as int] == self.messages@[k as int]@);
                    }
                    found = true;
                } else {
                    proof {
                        assert(mid.messages[k as int] == self.messages@[k as int]@);
                        assert(mid.messages[k as int].id != rm.id);
                    }
                    k = k + 1;
                }
            }
            if found {
                proof {
                    lemma_find_id_idx(mid.messages, rm.id);
                    let j = find_id_idx(mid.messages, rm.id);
                    if j < k as int {
                        assert(mid.messages[j].id != rm.id);
                    }
                    assert(j == k as int);
                }
                self.messages[k] = rec;
                proof {
                    assert(self@.messages =~= lww_apply(mid.messages, rm));
                }
            } else {
                proof {
                    lemma_find_id_idx(mid.messages, rm.id);
                    assert(find_id_idx(mid.messages, rm.id) == mid.messages.len());
                }
                self.messages.push(rec);
                proof {
                    assert(self@.messages =~= lww_apply(mid.messages, rm));
                }
            }
            if rec_id > self.last_id {
                self.last_id = rec_id;
            }
            proof {
                assert(self@.messages == lww_fold(pre.messages, rs.take(i + 1)));
                assert(self@.last_id == max_id_fold(pre.last_id, rs.take(i + 1)));
                assert(queue_wf(pre) ==> queue_wf(self@)) by {
                    if queue_wf(pre) {
                        assert(queue_wf(mid));
                        let j = find_id_idx(mid.messages, rm.id);
                        lemma_find_id_idx(mid.messages, rm.id);
                        if j < mid.messages.len() {
                            assert(forall|t: int|
                                0 <= t < self@.messages.len() && t != j
                                    ==> #[trigger] self@.messages[t] == mid.messages[t]);
                        }
                    }
                }
            }
            i = i + 1;
        }
        proof {
            assert(rs.take(n as int) =~= rs);
        }
    }
}

impl PartialEq for MessageLogLine {
    /// Two records are equal when all their fields are.
    fn eq(&self, other: &MessageLogLine) -> (r: bool) {
        self.id == other.id && self.message_id == other.message_id && self.message_content
            == other.message_content && self.timestamp == other.timestamp && (
        match (self.read_at, other.read_at) {
            (None, None) => true,
            (Some(a), Some(b)) => a == b,
            _ => false,
        })
    }
}

impl vstd::std_specs::cmp::PartialEqSpecImpl for MessageLogLine {
    open spec fn obeys_eq_spec() -> bool {
        true
    }

    open spec fn eq_spec(&self, other: &MessageLogLine) -> bool {
        self@ == other@
    }
}

impl PartialEq for RQSQueue {
    /// Two queues are equal when their names, policies, id counters and
    /// message sequences are.
    fn eq(&self, other: &RQSQueue) -> (r: bool) {
        proof {
            assert(self@.messages.len() == self.messages@.len());
            assert(other@.messages.len() == other.messages@.len());
        }
        if !(self.name == other.name && self.visibility_timeout == other.visibility_timeout
            && self.last_id == other.last_id && self.messages.len() == other.messages.len()) {
            return false;
        }
        let n = self.messages.len();
        let mut i: usize = 0;
        while i < n
            invariant
                n == self.messages.len(),
                n == other.messages.len(),
                0 <= i <= n,
                forall|k: int| 0 <= k < i ==> self@.messages[k] == other@.messages[k],
            decreases n - i,
        {
            proof {
                assert(self@.messages[i as int] == self.messages@[i as int]@);
                assert(other@.messages[i as int] == other.messages@[i as int]@);
            }
            if !(self.messages[i] == other.messages[i]) {
                proof {
                    assert(self@.messages[i as int] != other@.messages[i as int]);
                }
                return false;
            }
            i = i + 1;
        }
        proof {
            assert(self@.messages =~= other@.messages);
        }
        true
    }
}

impl vstd::std_specs::cmp::PartialEqSpecImpl for RQSQueue {
    open spec fn obeys_eq_spec() -> bool {
        true
    }

    open spec fn eq_spec(&self, other: &RQSQueue) -> bool {
        self@ == other@
    }
}

/// Batch dispatch over the messages from index `i` on, with `max` slots
/// left: each eligible message in turn is marked read at `now` and
/// collected, until the slots run out or the messages end.
pub open spec fn batch_from(
    ms: Seq<MessageModel>,
    visibility_timeout: int,
    now: int,
    max: int,
    i: int,
) -> (Seq<MessageModel>, Seq<MessageModel>)
    decreases ms.len() - i,
{
    if i < 0 || i >= ms.len() || max <= 0 {
        (ms, Seq::empty())
    } else if eligible_at(ms[i], visibility_timeout, now) {
        let updated = ms.update(i, MessageModel { read_at: Some(now), ..ms[i] });
        let (rest, out) = batch_from(updated, visibility_timeout, now, max - 1, i + 1);
        (rest, seq![updated[i]] + out)
    } else {
        let (rest, out) = batch_from(ms, visibility_timeout, now, max, i + 1);
        (rest, out)
    }
}

/// Consuming a bounded batch: the first up-to-`max` eligible messages, in
/// insertion order, each marked read at `now`.
pub open spec fn consume_batch_spec(q: QueueModel, max: int, now: int) -> (
    QueueModel,
    Seq<MessageModel>,
) {
    let (ms, out) = batch_from(q.messages, q.visibility_timeout, now, max, 0);
    (QueueModel { messages: ms, ..q }, out)
}

/// A batch of one is exactly a single consume.
pub proof fn lemma_batch_of_one_is_consume(q: QueueModel, now: int)
    ensures
        consume_batch_spec(q, 1, now).0 == consume_spec(q, now).0,
        ({
            let out = consume_batch_spec(q, 1, now).1;
            match consume_spec(q, now).1 {
                Some(m) => out =~= seq![m],
                None => out =~= Seq::<MessageModel>::empty(),
            }
        }),
{
    lemma_first_eligible_idx(q.messages, q.visibility_timeout, now);
    lemma_batch_of_one_from(q.messages, q.visibility_timeout, now, 0);
}

/// Helper for `lemma_batch_of_one_is_consume`: from any starting index, a
/// one-slot batch marks exactly the first eligible message at or after it.
proof fn lemma_batch_of_one_from(ms: Seq<MessageModel>, visibility_timeout: int, now: int, i: int)
    requires
        0 <= i <= ms.len(),
        forall|k: int| 0 <= k < i ==> !eligible_at(#[trigger] ms[k], visibility_timeout, now),
    ensures
        ({
            let fe = first_eligible_idx(ms, visibility_timeout, now);
            let (rest, out) = batch_from(ms, visibility_timeout, now, 1, i);
            if fe < ms.len() {
                let m = MessageModel { read_at: Some(now), ..ms[fe] };
                rest == ms.update(fe, m) && out =~= seq![m]
            } else {
                rest == ms && out =~= Seq::<MessageModel>::empty()
            }
        }),
    decreases ms.len() - i,
{
    lemma_first_eligible_idx(ms, visibility_timeout, now);
    let fe = first_eligible_idx(ms, visibility_timeout, now);
    if i < ms.len() {
        if eligible_at(ms[i], visibility_timeout, now) {
            lemma_first_eligible_idx_is(ms, visibility_timeout, now, i);
            let updated = ms.update(i, MessageModel { read_at: Some(now), ..ms[i] });
            assert(batch_from(updated, visibility_timeout, now, 0, i + 1)
                == (updated, Seq::<MessageModel>::empty()));
        } else {
            lemma_batch_of_one_from(ms, visibility_timeout, now, i + 1);
        }
    }
}

impl RQSQueue {
    /// Scans the messages once, in insertion order, dispatching up to
    /// `max_batch` eligible messages: each is marked read at `now` and a
    /// copy of each updated record is returned, oldest first. An empty
    /// result means the queue is empty, every message is in flight, or the
    /// batch size is zero. The caller persists the queue's message log when
    /// any message was dispatched.
    pub fn take_messages_from_queue(&mut self, max_batch: u32, now: u64) -> (r: Vec<
        MessageLogLine,
    >)
        ensures
            final(self)@ == consume_batch_spec(old(self)@, max_batch as int, now as int).0,
            msgs_view(r@) == consume_batch_spec(old(self)@, max_batch as int, now as int).1,
            r@.len() <= max_batch,
            queue_wf(old(self)@) ==> queue_wf(final(self)@),
    {
        let ghost pre = self@;
        let ghost goal = consume_batch_spec(pre, max_batch as int, now as int);
        let mut out: Vec<MessageLogLine> = Vec::new();
        let mut i: usize = 0;
        let mut taken: u32 = 0;
        let n = self.messages.len();
        while i < n && taken < max_batch
            invariant
                pre == old(self)@,
                goal == consume_batch_spec(pre, max_batch as int, now as int),
                n == self.messages.len(),
                0 <= i <= n,
                taken <= max_batch,
                taken as int == out@.len(),
                self@.name == pre.name,
                self@.visibility_timeout == pre.visibility_timeout,
                self@.last_id == pre.last_id,
                self@.messages.len() == pre.messages.len(),
                forall|k: int|
                    0 <= k < pre.messages.len() ==> (#[trigger] self@.messages[k]).id
                        == pre.messages[k].id,
                goal.0.messages == batch_from(
                    self@.messages,
                    pre.visibility_timeout,
                    now as int,
                    max_batch - taken,
                    i as int,
                ).0,
                goal.1 == msgs_view(out@) + batch_from(
                    self@.messages,
                    pre.visibility_timeout,
                    now as int,
                    max_batch - taken,
                    i as int,
                ).1,
            decreases n - i,
        {
            let ghost cur = self@.messages;
            if self.messages[i].is_eligible(self.visibility_timeout, now) {
                let m = &self.messages[i];
                let updated = MessageLogLine {
                    id: m.id,
                    message_id: m.message_id.clone(),
                    message_content: m.message_content.clone(),
                    timestamp: m.timestamp,
                    read_at: Some(now),
                };
                let copy = updated.duplicate();
                self.messages[i] = updated;
                out.push(copy);
                taken = taken + 1;
                proof {
                    assert(self@.messages =~= cur.update(
                        i as int,
                        MessageModel { read_at: Some(now as int), ..cur[i as int] },
                    ));
                    assert(msgs_view(out@) =~= msgs_view(out@.drop_last()).push(
                        self@.messages[i as int],
                    ));
                    assert(msgs_view(out@.drop_last()).push(self@.messages[i as int]) + batch_from(
                        self@.messages,
                        pre.visibility_timeout,
                        now as int,
                        max_batch - taken,
                        i + 1,
                    ).1 =~= msgs_view(out@.drop_last()) + (seq![self@.messages[i as int]]
                        + batch_from(
                        self@.messages,
                        pre.visibility_timeout,
                        now as int,
                        max_batch - taken,
                        i + 1,
                    ).1));
                }
            } else {
                proof {
                    assert(self@.messages == cur);
                }
            }
            i = i + 1;
        }
        proof {
            assert(batch_from(
                self@.messages,
                pre.visibility_timeout,
                now as int,
                max_batch - taken,
                i as int,
            ).1 =~= Seq::<MessageModel>::empty());
            assert(msgs_view(out@) + Seq::<MessageModel>::empty() =~= msgs_view(out@));
            assert(queue_wf(pre) ==> queue_wf(self@));
        }
        out
    }
}

} // verus!
