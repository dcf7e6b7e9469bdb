//! A consumer that answers requests: it records every delivery it takes and,
//! when set to, answers each with a fixed body.

use vstd::prelude::*;
use crate::pending::opt_chars;
use crate::publish::{reply_view, MissingProperty, Publication, PublicationView};

verus! {

/// What a responder does with a request whose `reply_to` and `correlation_id`
/// properties are given: no answer when it does not answer, else the reply
/// with body `reply_payload`.
pub open spec fn answer_view(
    auto_reply: bool,
    reply_to: Option<Seq<char>>,
    correlation_id: Option<Seq<char>>,
    reply_payload: Seq<u8>,
) -> Result<Option<PublicationView>, MissingProperty> {
    if !auto_reply {
        Ok(None)
    } else {
        match reply_view(reply_to, correlation_id, reply_payload) {
            Ok(p) => Ok(Some(p)),
            Err(e) => Err(e),
        }
    }
}

/// The view of an answer.
pub open spec fn answer_result_view(res: Result<Option<Publication>, MissingProperty>) -> Result<
    Option<PublicationView>,
    MissingProperty,
> {
    match res {
        Ok(Some(p)) => Ok(Some(p@)),
        Ok(None) => Ok(None),
        Err(e) => Err(e),
    }
}

/// A consumer's record of the deliveries (of type `D`) it took, and how it
/// answers them.
pub struct AutoResponder<D> {
    processed: Vec<D>,
    auto_reply: bool,
    reply_payload: Vec<u8>,
}

impl<D> AutoResponder<D> {
    /// The deliveries taken so far, oldest first.
    pub closed spec fn processed(&self) -> Seq<D> {
        self.processed@
    }

    /// Whether deliveries are answered.
    pub closed spec fn auto_reply(&self) -> bool {
        self.auto_reply
    }

    /// The body of every answer.
    pub closed spec fn reply_payload(&self) -> Seq<u8> {
        self.reply_payload@
    }

    /// A responder that has taken nothing yet, answers iff `auto_reply`, and
    /// answers with `reply_payload`.
    pub fn new(auto_reply: bool, reply_payload: Vec<u8>) -> (res: Self)
        ensures
            res.processed() == Seq::<D>::empty(),
            res.auto_reply() == auto_reply,
            res.reply_payload() == reply_payload@,
    {
        AutoResponder { processed: Vec::new(), auto_reply, reply_payload }
    }

    /// The deliveries taken so far, oldest first.
    pub fn processed_deliveries(&self) -> (res: &Vec<D>)
        ensures
            res@ == self.processed(),
    {
        &self.processed
    }

    /// Takes a delivery whose `reply_to` and `correlation_id` properties are
    /// given: records it, then gives the answer to publish, if any, or the
    /// property that the answer needs and the delivery lacks.
    pub fn on_delivery(
        &mut self,
        delivery: D,
        reply_to: Option<String>,
        correlation_id: Option<String>,
    ) -> (res: Result<Option<Publication>, MissingProperty>)
        ensures
            responded(
                *old(self),
                (Incoming {
                    delivery,
                    reply_to: opt_chars(reply_to),
                    correlation_id: opt_chars(correlation_id),
                }),
                *final(self),
                answer_result_view(res),
            ),
    {
        self.processed.push(delivery);
        if !self.auto_reply {
            return Ok(None);
        }
        let payload = self.reply_payload.clone();
        assert(payload@ =~= self.reply_payload@);
        match Publication::reply(reply_to, correlation_id, payload) {
            Ok(p) => Ok(Some(p)),
            Err(e) => Err(e),
        }
    }
}

/// A delivery as a responder sees it: the delivery and its `reply_to` and
/// `correlation_id` properties.
pub struct Incoming<D> {
    pub delivery: D,
    pub reply_to: Option<Seq<char>>,
    pub correlation_id: Option<Seq<char>>,
}

/// `after` and `answer` are what taking `incoming` leaves `before` in and gives:
/// the delivery is appended to the record, the settings stay, and the answer is
/// the one `answer_view` describes.
pub open spec fn responded<D>(
    before: AutoResponder<D>,
    incoming: Incoming<D>,
    after: AutoResponder<D>,
    answer: Result<Option<PublicationView>, MissingProperty>,
) -> bool {
    &&& after.processed() == before.processed().push(incoming.delivery)
    &&& after.auto_reply() == before.auto_reply()
    &&& after.reply_payload() == before.reply_payload()
    &&& answer == answer_view(
        before.auto_reply(),
        incoming.reply_to,
        incoming.correlation_id,
        before.reply_payload(),
    )
}

/// `states` and `answers` are a run of a responder through `inputs`, in order.
pub open spec fn responder_run<D>(
    states: Seq<AutoResponder<D>>,
    inputs: Seq<Incoming<D>>,
    answers: Seq<Result<Option<PublicationView>, MissingProperty>>,
) -> bool {
    &&& states.len() == inputs.len() + 1
    &&& answers.len() == inputs.len()
    &&& forall|k: int|
        0 <= k < inputs.len() ==> responded(states[k], #[trigger] inputs[k], states[k + 1], answers[k])
}

/// The deliveries of `inputs`, in order.
pub open spec fn deliveries<D>(inputs: Seq<Incoming<D>>) -> Seq<D> {
    inputs.map_values(|i: Incoming<D>| i.delivery)
}

proof fn lemma_record_after<D>(
    states: Seq<AutoResponder<D>>,
    inputs: Seq<Incoming<D>>,
    answers: Seq<Result<Option<PublicationView>, MissingProperty>>,
    k: int,
)
    requires
        responder_run(states, inputs, answers),
        0 <= k < states.len(),
    ensures
        states[k].processed() =~= states[0].processed() + deliveries(inputs.take(k)),
        states[k].auto_reply() == states[0].auto_reply(),
        states[k].reply_payload() == states[0].reply_payload(),
    decreases k,
{
    if k > 0 {
        lemma_record_after(states, inputs, answers, k - 1);
        assert(responded(states[k - 1], inputs[k - 1], states[k], answers[k - 1]));
        assert(inputs.take(k).drop_last() =~= inputs.take(k - 1));
        assert(deliveries(inputs.take(k)) =~= deliveries(inputs.take(k - 1)).push(
            inputs[k - 1].delivery,
        ));
    }
}

/// A responder's whole run over a sequence of deliveries, in arrival order:
/// - its record is what it had, followed by every delivery in arrival order,
///   and at every point the earlier record is a prefix of the later one;
/// - each delivery is answered by its own step alone: a responder set not to
///   answer publishes nothing, and one set to answer sends, for each delivery
///   with both properties, exactly one reply with its body, through the default
///   exchange to the delivery's `reply_to` under the delivery's correlation id.
pub proof fn lemma_responder_run<D>(
    states: Seq<AutoResponder<D>>,
    inputs: Seq<Incoming<D>>,
    answers: Seq<Result<Option<PublicationView>, MissingProperty>>,
)
    requires
        responder_run(states, inputs, answers),
    ensures
        states.last().processed() == states[0].processed() + deliveries(inputs),
        forall|j: int, k: int|
            0 <= j <= k < states.len() ==> (#[trigger] states[j]).processed().is_prefix_of(
                (#[trigger] states[k]).processed(),
            ),
        forall|k: int|
            0 <= k < inputs.len() ==> #[trigger] answers[k] == answer_view(
                states[0].auto_reply(),
                inputs[k].reply_to,
                inputs[k].correlation_id,
                states[0].reply_payload(),
            ),
        !states[0].auto_reply() ==> forall|k: int|
            0 <= k < inputs.len() ==> #[trigger] answers[k] == Ok::<
                Option<PublicationView>,
                MissingProperty,
            >(None),
        states[0].auto_reply() ==> forall|k: int|
            0 <= k < inputs.len() && (#[trigger] inputs[k]).reply_to is Some
                && inputs[k].correlation_id is Some ==> answers[k] == Ok::<
                Option<PublicationView>,
                MissingProperty,
            >(
                Some(
                    PublicationView {
                        exchange: Seq::empty(),
                        routing_key: inputs[k].reply_to->0,
                        payload: states[0].reply_payload(),
                        correlation_id: inputs[k].correlation_id,
                        reply_to: None,
                    },
                ),
            ),
{
    lemma_record_after(states, inputs, answers, inputs.len() as int);
    assert(inputs.take(inputs.len() as int) =~= inputs);
    assert forall|j: int, k: int|
        0 <= j <= k < states.len() implies (#[trigger] states[j]).processed().is_prefix_of(
        (#[trigger] states[k]).processed(),
    ) by {
        lemma_record_after(states, inputs, answers, j);
        lemma_record_after(states, inputs, answers, k);
        let p0 = states[0].processed();
        assert(inputs.take(k).take(j) =~= inputs.take(j));
        assert(deliveries(inputs.take(j)) =~= deliveries(inputs.take(k)).subrange(0, j));
        assert(states[j].processed() =~= states[k].processed().subrange(
            0,
            states[j].processed().len() as int,
        ));
    }
    assert forall|k: int| 0 <= k < inputs.len() implies #[trigger] answers[k] == answer_view(
        states[0].auto_reply(),
        inputs[k].reply_to,
        inputs[k].correlation_id,
        states[0].reply_payload(),
    ) by {
        lemma_record_after(states, inputs, answers, k);
        assert(responded(states[k], inputs[k], states[k + 1], answers[k]));
    }
}

/// A responder that has just been made, run over a sequence of deliveries,
/// has recorded exactly those deliveries, in arrival order.
pub proof fn lemma_fresh_responder_records_all<D>(
    states: Seq<AutoResponder<D>>,
    inputs: Seq<Incoming<D>>,
    answers: Seq<Result<Option<PublicationView>, MissingProperty>>,
)
    requires
        responder_run(states, inputs, answers),
        states[0].processed() == Seq::<D>::empty(),
    ensures
        states.last().processed() == deliveries(inputs),
{
    lemma_responder_run(states, inputs, answers);
    assert(Seq::<D>::empty() + deliveries(inputs) =~= deliveries(inputs));
}

} // verus!
