//! Messages to publish: requests of a call, replies of a responder, and plain
//! messages to a queue, with the properties the broker routes them by.

use vstd::prelude::*;
use crate::pending::opt_chars;

verus! {

/// The queue name that asks the broker for direct reply-to: replies sent to it
/// go straight back to the consumer on the requesting channel.
pub open spec fn direct_reply_to() -> Seq<char> {
    "amq.rabbitmq.reply-to"@
}

/// The name of the direct reply-to queue.
pub fn direct_reply_to_queue() -> (res: String)
    ensures
        res@ == direct_reply_to(),
{
    "amq.rabbitmq.reply-to".to_owned()
}

/// The view of an optional string slice as an optional sequence of characters.
pub open spec fn opt_str_chars(s: Option<&str>) -> Option<Seq<char>> {
    match s {
        Some(s) => Some(s@),
        None => None,
    }
}

/// What a message to publish says, as plain values.
pub struct PublicationView {
    pub exchange: Seq<char>,
    pub routing_key: Seq<char>,
    pub payload: Seq<u8>,
    pub correlation_id: Option<Seq<char>>,
    pub reply_to: Option<Seq<char>>,
}

/// A message to publish: the exchange and routing key it goes to, its body,
/// and its `correlation_id` and `reply_to` properties.
pub struct Publication {
    pub exchange: String,
    pub routing_key: String,
    pub payload: Vec<u8>,
    pub correlation_id: Option<String>,
    pub reply_to: Option<String>,
}

impl View for Publication {
    type V = PublicationView;

    open spec fn view(&self) -> PublicationView {
        PublicationView {
            exchange: self.exchange@,
            routing_key: self.routing_key@,
            payload: self.payload@,
            correlation_id: opt_chars(self.correlation_id),
            reply_to: opt_chars(self.reply_to),
        }
    }
}

/// A property that a request lacks and its reply needs.
#[derive(Debug, Clone, Copy, PartialEq, Eq, Structural)]
pub enum MissingProperty {
    /// The request names no queue to reply to.
    ReplyTo,
    /// The request carries no correlation id to answer with.
    CorrelationId,
}

/// The message that publishes `payload` to `queue` through the default exchange.
pub open spec fn to_queue_view(
    queue: Seq<char>,
    payload: Seq<u8>,
    correlation_id: Option<Seq<char>>,
    reply_to: Option<Seq<char>>,
) -> PublicationView {
    PublicationView {
        exchange: Seq::empty(),
        routing_key: queue,
        payload,
        correlation_id,
        reply_to,
    }
}

/// The request of a call: `payload` to `queue`, to be answered through direct
/// reply-to under correlation id `id`.
pub open spec fn request_view(queue: Seq<char>, payload: Seq<u8>, id: Seq<char>) -> PublicationView {
    to_queue_view(queue, payload, Some(id), Some(direct_reply_to()))
}

/// The reply with body `payload` to a request whose `reply_to` and
/// `correlation_id` properties are given: it goes through the default exchange
/// to the request's reply queue and carries the request's correlation id.
pub open spec fn reply_view(
    reply_to: Option<Seq<char>>,
    correlation_id: Option<Seq<char>>,
    payload: Seq<u8>,
) -> Result<PublicationView, MissingProperty> {
    match reply_to {
        None => Err(MissingProperty::ReplyTo),
        Some(queue) => match correlation_id {
            None => Err(MissingProperty::CorrelationId),
            Some(id) => Ok(to_queue_view(queue, payload, Some(id), None)),
        },
    }
}

/// The view of a built reply.
pub open spec fn reply_result_view(res: Result<Publication, MissingProperty>) -> Result<
    PublicationView,
    MissingProperty,
> {
    match res {
        Ok(p) => Ok(p@),
        Err(e) => Err(e),
    }
}

fn owned(s: Option<&str>) -> (res: Option<String>)
    ensures
        opt_chars(res) == opt_str_chars(s),
{
    match s {
        Some(s) => Some(s.to_owned()),
        None => None,
    }
}

impl Publication {
    /// `payload` to `queue` through the default exchange, with the given
    /// correlation id and reply queue where they are given.
    pub fn to_queue(
        queue: &str,
        payload: Vec<u8>,
        correlation_id: Option<&str>,
        reply_to: Option<&str>,
    ) -> (res: Publication)
        ensures
            res@ == to_queue_view(
                queue@,
                payload@,
                opt_str_chars(correlation_id),
                opt_str_chars(reply_to),
            ),
            res.payload@ == payload@,
            res.routing_key@ == queue@,
            res.exchange@ == Seq::<char>::empty(),
            opt_chars(res.correlation_id) == opt_str_chars(correlation_id),
            opt_chars(res.reply_to) == opt_str_chars(reply_to),
    {
        Publication {
            exchange: String::new(),
            routing_key: queue.to_owned(),
            payload,
            correlation_id: owned(correlation_id),
            reply_to: owned(reply_to),
        }
    }

    /// The request of a call: `payload` to `queue`, answered through direct
    /// reply-to under `correlation_id`.
    pub fn request(queue: &str, payload: Vec<u8>, correlation_id: String) -> (res: Publication)
        ensures
            res@ == request_view(queue@, payload@, correlation_id@),
            res.payload@ == payload@,
            res.routing_key@ == queue@,
            res.exchange@ == Seq::<char>::empty(),
            res.correlation_id == Some(correlation_id),
            opt_chars(res.reply_to) == Some(direct_reply_to()),
    {
        Publication {
            exchange: String::new(),
            routing_key: queue.to_owned(),
            payload,
            correlation_id: Some(correlation_id),
            reply_to: Some(direct_reply_to_queue()),
        }
    }

    /// The reply with body `payload` to a request with the given `reply_to` and
    /// `correlation_id` properties; an error names the first of the two that
    /// the request lacks.
    pub fn reply(reply_to: Option<String>, correlation_id: Option<String>, payload: Vec<u8>) -> (res:
        Result<Publication, MissingProperty>)
        ensures
            reply_result_view(res) == reply_view(opt_chars(reply_to), opt_chars(correlation_id), payload@),
    {
        match reply_to {
            None => Err(MissingProperty::ReplyTo),
            Some(queue) => match correlation_id {
                None => Err(MissingProperty::CorrelationId),
                Some(id) => Ok(
                    Publication {
                        exchange: String::new(),
                        routing_key: queue,
                        payload,
                        correlation_id: Some(id),
                        reply_to: None,
                    },
                ),
            },
        }
    }
}

/// A message to a queue carries exactly the body it was given, to that queue
/// through the default exchange, with exactly the given properties, whatever
/// they are.
pub proof fn lemma_to_queue_carries_payload(
    queue: Seq<char>,
    payload: Seq<u8>,
    correlation_id: Option<Seq<char>>,
    reply_to: Option<Seq<char>>,
)
    ensures
        to_queue_view(queue, payload, correlation_id, reply_to).payload == payload,
        to_queue_view(queue, payload, correlation_id, reply_to).routing_key == queue,
        to_queue_view(queue, payload, correlation_id, reply_to).exchange.len() == 0,
        to_queue_view(queue, payload, correlation_id, reply_to).correlation_id == correlation_id,
        to_queue_view(queue, payload, correlation_id, reply_to).reply_to == reply_to,
{
}

/// A call's request carries exactly the body it was given, to the given queue
/// through the default exchange, under the call's correlation id, asking for
/// the reply through direct reply-to.
pub proof fn lemma_request_carries_payload(queue: Seq<char>, payload: Seq<u8>, id: Seq<char>)
    ensures
        request_view(queue, payload, id).payload == payload,
        request_view(queue, payload, id).payload.len() == payload.len(),
        request_view(queue, payload, id).routing_key == queue,
        request_view(queue, payload, id).exchange.len() == 0,
        request_view(queue, payload, id).correlation_id == Some(id),
        request_view(queue, payload, id).reply_to == Some(direct_reply_to()),
{
}

/// A reply to a request that has both properties carries exactly the reply
/// body, to the request's reply queue through the default exchange, under the
/// request's correlation id, and names no reply queue of its own.
pub proof fn lemma_reply_carries_payload(queue: Seq<char>, id: Seq<char>, payload: Seq<u8>)
    ensures
        reply_view(Some(queue), Some(id), payload) matches Ok(reply) && reply.payload == payload
            && reply.routing_key == queue && reply.exchange.len() == 0 && reply.correlation_id
            == Some(id) && reply.reply_to is None,
{
}

} // verus!
