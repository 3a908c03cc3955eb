//! Exchanges route one published message to queues bound to them, either to
//! every bound queue or to the queues whose name matches the message id.
//! The routing decision lives here; the caller performs one publish per
//! resolved target.

use vstd::prelude::*;
use vstd::string::StringExecFns;

verus! {

/// Routing failed: either a resolved target queue does not exist, or a
/// publish on a target could not be carried out.
#[derive(Debug)]
pub enum ExchangeToQueueError {
    NoMatchingQueueError(String),
    UnableToAddError,
}

impl ExchangeToQueueError {
    /// A human-readable description of the failure.
    pub fn to_string(&self) -> (r: String)
        ensures
            self matches ExchangeToQueueError::NoMatchingQueueError(s) ==> r@ == "No queue with id "@
                + s@ + " was found"@,
            self is UnableToAddError ==> r@ == "Something went wrong. Please try again."@,
    {
        match self {
            ExchangeToQueueError::NoMatchingQueueError(s) => String::from_str(
                "No queue with id ",
            ).concat(s.as_str()).concat(" was found"),
            ExchangeToQueueError::UnableToAddError => String::from_str(
                "Something went wrong. Please try again.",
            ),
        }
    }
}

/// What an exchange does with a message: fan it out to every bound queue,
/// or hand it to the bound queues whose name equals the message id.
#[derive(Debug)]
pub enum ExchangeType {
    FANOUT,
    ID,
}

/// The names among `queue_ids` equal to `message_id`, in order.
pub open spec fn matching_targets(queue_ids: Seq<Seq<char>>, message_id: Seq<char>) -> Seq<
    Seq<char>,
>
    decreases queue_ids.len(),
{
    if queue_ids.len() == 0 {
        Seq::empty()
    } else if queue_ids[0] == message_id {
        seq![queue_ids[0]] + matching_targets(queue_ids.drop_first(), message_id)
    } else {
        matching_targets(queue_ids.drop_first(), message_id)
    }
}

/// The names of a sequence of queue-name strings.
pub open spec fn strs_view(names: Seq<String>) -> Seq<Seq<char>> {
    names.map_values(|s: String| s@)
}

/// Taking one more name at the end of the list keeps or drops it by the
/// same rule as anywhere else.
pub proof fn lemma_matching_targets_snoc(
    queue_ids: Seq<Seq<char>>,
    name: Seq<char>,
    message_id: Seq<char>,
)
    ensures
        matching_targets(queue_ids.push(name), message_id) == if name == message_id {
            matching_targets(queue_ids, message_id).push(name)
        } else {
            matching_targets(queue_ids, message_id)
        },
    decreases queue_ids.len(),
{
    let p = queue_ids.push(name);
    if queue_ids.len() == 0 {
        assert(p[0] == name);
        assert(p.drop_first() =~= queue_ids);
        if name == message_id {
            assert(matching_targets(p, message_id) == seq![name] + matching_targets(
                queue_ids,
                message_id,
            ));
            assert(seq![name] + Seq::<Seq<char>>::empty() =~= Seq::<Seq<char>>::empty().push(name));
        }
    } else {
        assert(p[0] == queue_ids[0]);
        assert(p.drop_first() =~= queue_ids.drop_first().push(name));
        lemma_matching_targets_snoc(queue_ids.drop_first(), name, message_id);
        if queue_ids[0] == message_id && name == message_id {
            assert(seq![queue_ids[0]] + matching_targets(queue_ids.drop_first(), message_id).push(
                name,
            ) =~= (seq![queue_ids[0]] + matching_targets(queue_ids.drop_first(), message_id)).push(
                name,
            ));
        }
    }
}

impl ExchangeType {
    /// The queues a message with this id is routed to: every bound queue
    /// for a fan-out exchange, and the bound queues whose name equals the
    /// message id for an id exchange. The caller publishes once per target.
    pub fn resolve_targets(&self, queue_ids: &Vec<String>, message_id: &String) -> (r: Vec<String>)
        ensures
            self is FANOUT ==> strs_view(r@) == strs_view(queue_ids@),
            self is ID ==> strs_view(r@) == matching_targets(strs_view(queue_ids@), message_id@),
    {
        let ghost names = strs_view(queue_ids@);
        let mut r: Vec<String> = Vec::new();
        let n = queue_ids.len();
        let mut i: usize = 0;
        match self {
            ExchangeType::FANOUT => {
                while i < n
                    invariant
                        n == queue_ids.len(),
                        0 <= i <= n,
                        names == strs_view(queue_ids@),
                        strs_view(r@) == names.take(i as int),
                    decreases n - i,
                {
                    let ghost prev = r@;
                    proof {
                        assert(strs_view(prev).len() == prev.len());
                        assert(names.take(i as int).len() == i);
                        assert(prev.len() == i);
                    }
                    r.push(queue_ids[i].clone());
                    proof {
                        assert(r@.len() == i + 1);
                        assert(r@[i as int]@ == names[i as int]);
                        assert(forall|k: int| 0 <= k < i ==> r@[k] == prev[k]);
                        assert(forall|k: int|
                            0 <= k < i ==> #[trigger] r@[k]@ == strs_view(prev)[k]);
                        assert(strs_view(r@) =~= names.take(i + 1));
                    }
                    i = i + 1;
                }
                proof {
                    assert(names.take(n as int) =~= names);
                }
            },
            ExchangeType::ID => {
                while i < n
                    invariant
                        n == queue_ids.len(),
                        0 <= i <= n,
                        names == strs_view(queue_ids@),
                        strs_view(r@) == matching_targets(names.take(i as int), message_id@),
                    decreases n - i,
                {
                    proof {
                        assert(names.take(i + 1).drop_last() =~= names.take(i as int));
                        assert(names.take(i + 1) =~= names.take(i as int).push(names[i as int]));
                        lemma_matching_targets_snoc(
                            names.take(i as int),
                            names[i as int],
                            message_id@,
                        );
                        assert(names[i as int] == queue_ids@[i as int]@);
                    }
                    if *message_id == queue_ids[i] {
                        r.push(queue_ids[i].clone());
                        proof {
                            assert(strs_view(r@) =~= matching_targets(
                                names.take(i as int),
                                message_id@,
                            ).push(names[i as int]));
                        }
                    }
                    i = i + 1;
                }
                proof {
                    assert(names.take(n as int) =~= names);
                }
            },
        }
        r
    }
}

/// A request to create an exchange bound to the given queues.
#[derive(Debug)]
pub struct NewExchangeRequest {
    pub id: String,
    pub queue_ids: Vec<String>,
    pub exchange_type: ExchangeType,
}

/// One exchange as reported when listing exchanges.
#[derive(Debug)]
pub struct ExchangeEntry {
    pub id: String,
    pub queue_ids: Vec<String>,
    pub exchange_type: ExchangeType,
}

/// One message handed to an exchange: an identifier and a payload.
#[derive(Debug)]
pub struct NewMessage {
    pub message_id: String,
    pub content: String,
}

/// A request to route a batch of messages through one exchange.
#[derive(Debug)]
pub struct NewMessageRequest {
    pub messages: Vec<NewMessage>,
    pub exchange_id: String,
}

} // verus!
