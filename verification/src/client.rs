//! The client's side of a call: the correlation id's text and the request
//! that carries it.

use vstd::prelude::*;
use crate::pending::{
    apply_ops, dispatch_result, lemma_call_waits_until_its_reply, lemma_register_then_dispatch,
    leaves_id, Dispatch, PendingOp, PendingReplies,
};
use crate::publish::{
    direct_reply_to, reply_view, request_view, Publication, PublicationView,
};

verus! {

/// A lower-case hexadecimal digit.
pub open spec fn is_lower_hex_digit(c: char) -> bool {
    ('0' <= c && c <= '9') || ('a' <= c && c <= 'f')
}

/// The hyphenated lower-case text of a random (version 4, RFC 4122 variant)
/// UUID: groups of 8, 4, 4, 4 and 12 hexadecimal digits, the version digit `4`
/// and a variant digit among `8`, `9`, `a`, `b`.
pub open spec fn is_uuid_v4_text(s: Seq<char>) -> bool {
    &&& s.len() == 36
    &&& forall|i: int|
        0 <= i < 36 ==> if i == 8 || i == 13 || i == 18 || i == 23 {
            #[trigger] s[i] == '-'
        } else {
            is_lower_hex_digit(s[i])
        }
    &&& s[14] == '4'
    &&& (s[19] == '8' || s[19] == '9' || s[19] == 'a' || s[19] == 'b')
}

/// The lower-case hexadecimal digit of `n`, for `0 <= n < 16`.
pub open spec fn hex_digit(n: int) -> char {
    if n < 10 {
        (48 + n) as char
    } else {
        (87 + n) as char
    }
}

/// How many of the hyphen positions 8, 13, 18 and 23 of a hyphenated UUID
/// come before position `i`.
pub open spec fn hyphens_before(i: int) -> int {
    if i <= 8 {
        0
    } else if i <= 13 {
        1
    } else if i <= 18 {
        2
    } else if i <= 23 {
        3
    } else {
        4
    }
}

/// The hyphenated lower-case text of the UUID with the 16 bytes `b`: two hex
/// digits per byte, high half first, in groups of 4, 2, 2, 2 and 6 bytes
/// joined by hyphens.
pub open spec fn uuid_text(b: Seq<u8>) -> Seq<char> {
    Seq::new(
        36,
        |i: int|
            if i == 8 || i == 13 || i == 18 || i == 23 {
                '-'
            } else {
                let j = i - hyphens_before(i);
                if j % 2 == 0 {
                    hex_digit(b[j / 2] as int / 16)
                } else {
                    hex_digit(b[j / 2] as int % 16)
                }
            },
    )
}

/// How many of the group boundaries 4, 6, 8 and 10 (the bytes before which a
/// hyphen is written) come before byte `i`.
pub open spec fn groups_before(i: int) -> int {
    (if i > 4 { 1int } else { 0int }) + (if i > 6 { 1int } else { 0int }) + (if i > 8 {
        1int
    } else {
        0int
    }) + (if i > 10 { 1int } else { 0int })
}

/// The position in the text of the high hex digit of byte `j`.
pub open spec fn digit_position(j: int) -> int {
    2 * j + groups_before(j + 1)
}

/// The one-character string of the lower-case hex digit of `n`.
fn hex_digit_str(n: u8) -> (res: &'static str)
    requires
        n < 16,
    ensures
        res@ == seq![hex_digit(n as int)],
{
    let digits = "0123456789abcdef";
    proof {
        reveal_strlit("0123456789abcdef");
        assert(digits@ =~= seq![
            hex_digit(0), hex_digit(1), hex_digit(2), hex_digit(3),
            hex_digit(4), hex_digit(5), hex_digit(6), hex_digit(7),
            hex_digit(8), hex_digit(9), hex_digit(10), hex_digit(11),
            hex_digit(12), hex_digit(13), hex_digit(14), hex_digit(15),
        ]);
    }
    let res = digits.substring_ascii(n as usize, n as usize + 1);
    proof {
        assert(res@ =~= seq![hex_digit(n as int)]);
    }
    res
}

proof fn lemma_uuid_text_step(b: Seq<u8>, i: int)
    requires
        b.len() == 16,
        0 <= i < 16,
    ensures
        uuid_text(b).take(2 * (i + 1) + groups_before(i + 1)) =~= uuid_text(b).take(
            2 * i + groups_before(i),
        ) + (if i == 4 || i == 6 || i == 8 || i == 10 {
            seq!['-']
        } else {
            Seq::<char>::empty()
        }) + seq![hex_digit(b[i] as int / 16), hex_digit(b[i] as int % 16)],
{
    let p = digit_position(i);
    assert(hyphens_before(p) == groups_before(i + 1));
    assert(hyphens_before(p + 1) == groups_before(i + 1));
    assert(!(p == 8 || p == 13 || p == 18 || p == 23));
    assert(!(p + 1 == 8 || p + 1 == 13 || p + 1 == 18 || p + 1 == 23));
    assert(uuid_text(b)[p] == hex_digit(b[i] as int / 16));
    assert(uuid_text(b)[p + 1] == hex_digit(b[i] as int % 16));
    if i == 4 || i == 6 || i == 8 || i == 10 {
        assert(uuid_text(b)[p - 1] == '-');
    }
}

/// Formats the UUID with bytes `bytes` as hyphenated lower-case text.
fn format_uuid(bytes: [u8; 16]) -> (res: String)
    ensures
        res@ == uuid_text(bytes@),
{
    let mut res = String::new();
    let mut i: usize = 0;
    while i < 16
        invariant
            i <= 16,
            bytes@.len() == 16,
            res@ =~= uuid_text(bytes@).take(2 * i + groups_before(i as int)),
        decreases 16 - i,
    {
        proof {
            lemma_uuid_text_step(bytes@, i as int);
        }
        if i == 4 || i == 6 || i == 8 || i == 10 {
            let hyphen = "-";
            proof {
                reveal_strlit("-");
            }
            res.append(hyphen);
        }
        let b: u8 = bytes[i];
        res.append(hex_digit_str(b / 16));
        res.append(hex_digit_str(b % 16));
        i = i + 1;
    }
    proof {
        assert(uuid_text(bytes@).take(36) =~= uuid_text(bytes@));
    }
    res
}

/// The hyphenated lower-case text of the UUID with bytes `bytes`.
pub fn uuid_string(bytes: [u8; 16]) -> (res: String)
    ensures
        res@ == uuid_text(bytes@),
{
    format_uuid(bytes)
}

/// The value of a lower-case hex digit.
pub open spec fn hex_value(c: char) -> int {
    if '0' <= c && c <= '9' {
        c as int - '0' as int
    } else {
        c as int - 'a' as int + 10
    }
}

/// The text of a UUID gives back its bytes: it is 36 characters long, has
/// hyphens at 8, 13, 18 and 23 and lower-case hex digits everywhere else, and
/// for each byte `j` the two digits at `digit_position(j)` (2 j, plus one for
/// each hyphen before it) are its high and low halves.
pub proof fn lemma_uuid_text_decodes(b: Seq<u8>)
    requires
        b.len() == 16,
    ensures
        uuid_text(b).len() == 36,
        uuid_text(b)[8] == '-' && uuid_text(b)[13] == '-' && uuid_text(b)[18] == '-'
            && uuid_text(b)[23] == '-',
        forall|j: int|
            0 <= j < 16 ==> is_lower_hex_digit(uuid_text(b)[digit_position(j)])
                && is_lower_hex_digit(uuid_text(b)[digit_position(j) + 1]) && 16 * hex_value(
                uuid_text(b)[digit_position(j)],
            ) + hex_value(uuid_text(b)[digit_position(j) + 1]) == b[j] as int,
        digit_position(0) == 0 && digit_position(3) == 6 && digit_position(4) == 9
            && digit_position(6) == 14 && digit_position(8) == 19 && digit_position(10) == 24
            && digit_position(15) == 34,
{
    assert forall|j: int| 0 <= j < 16 implies is_lower_hex_digit(uuid_text(b)[digit_position(j)])
        && is_lower_hex_digit(uuid_text(b)[digit_position(j) + 1]) && 16 * hex_value(
        uuid_text(b)[digit_position(j)],
    ) + hex_value(uuid_text(b)[digit_position(j) + 1]) == b[j] as int by {
        let p = digit_position(j);
        assert(hyphens_before(p) == groups_before(j + 1));
        assert(hyphens_before(p + 1) == groups_before(j + 1));
        assert(!(p == 8 || p == 13 || p == 18 || p == 23));
        assert(!(p + 1 == 8 || p + 1 == 13 || p + 1 == 18 || p + 1 == 23));
        let hi = b[j] as int / 16;
        let lo = b[j] as int % 16;
        assert(uuid_text(b)[p] == hex_digit(hi));
        assert(uuid_text(b)[p + 1] == hex_digit(lo));
        assert(0 <= hi < 16 && 0 <= lo < 16);
        assert(hex_value(hex_digit(hi)) == hi);
        assert(hex_value(hex_digit(lo)) == lo);
    }
}

/// Different UUIDs have different texts: the text determines the bytes.
pub proof fn lemma_uuid_text_injective(a: Seq<u8>, b: Seq<u8>)
    requires
        a.len() == 16,
        b.len() == 16,
        uuid_text(a) == uuid_text(b),
    ensures
        a == b,
{
    lemma_uuid_text_decodes(a);
    lemma_uuid_text_decodes(b);
    assert forall|j: int| 0 <= j < 16 implies a[j] == b[j] by {
        assert(16 * hex_value(uuid_text(a)[digit_position(j)]) + hex_value(
            uuid_text(a)[digit_position(j) + 1],
        ) == a[j] as int);
    }
    assert(a =~= b);
}

/// The bytes of a random UUID (version 4, RFC 4122 variant) carry version 4 in
/// the high half of byte 6 and the bits `10` at the top of byte 8.
pub open spec fn is_uuid_v4_bytes(b: Seq<u8>) -> bool {
    b.len() == 16 && b[6] / 16 == 4 && b[8] / 64 == 2
}

/// The text of a random UUID's bytes is random-UUID text.
pub proof fn lemma_v4_bytes_give_v4_text(b: Seq<u8>)
    requires
        is_uuid_v4_bytes(b),
    ensures
        is_uuid_v4_text(uuid_text(b)),
{
    let s = uuid_text(b);
    assert forall|i: int|
        0 <= i < 36 implies if i == 8 || i == 13 || i == 18 || i == 23 {
        #[trigger] s[i] == '-'
    } else {
        is_lower_hex_digit(s[i])
    } by {
        if !(i == 8 || i == 13 || i == 18 || i == 23) {
            let j = i - hyphens_before(i);
            assert(0 <= j / 2 < 16);
            assert(0 <= b[j / 2] / 16 < 16);
        }
    }
    assert(s[14] == hex_digit(b[6] as int / 16));
    assert(s[19] == hex_digit(b[8] as int / 16));
    assert(8 <= b[8] / 16 < 12);
}

/// A call about to be made: the correlation id it waits under and the request
/// to publish.
pub struct PreparedCall {
    pub correlation_id: String,
    pub request: Publication,
}

/// Prepares a call of `payload` to `queue` under the correlation id whose UUID
/// bytes are `id` (drawn at random by the caller): the request carries the
/// id's text and asks for the reply through direct reply-to.
pub fn prepare_call(queue: &str, payload: Vec<u8>, id: [u8; 16]) -> (res: PreparedCall)
    ensures
        res.correlation_id@ == uuid_text(id@),
        res.request@ == request_view(queue@, payload@, res.correlation_id@),
        res.request.payload@ == payload@,
        res.request.routing_key@ == queue@,
        res.request.correlation_id == Some(res.correlation_id),
{
    let correlation_id = format_uuid(id);
    let request = Publication::request(queue, payload, correlation_id.clone());
    PreparedCall { correlation_id, request }
}

/// Starts a call of `payload` to `queue` whose reply `call` waits for, under
/// the correlation id whose UUID bytes are `id`: the call is registered first,
/// and the request to publish then is handed back, so that no reply to it can
/// come before its call waits.
pub fn start_call<R>(
    pending: &mut PendingReplies<R>,
    queue: &str,
    payload: Vec<u8>,
    id: [u8; 16],
    call: R,
) -> (res: PreparedCall)
    ensures
        res.correlation_id@ == uuid_text(id@),
        res.request@ == request_view(queue@, payload@, res.correlation_id@),
        res.request.payload@ == payload@,
        res.request.routing_key@ == queue@,
        final(pending)@ == old(pending)@.insert(res.correlation_id@, call),
{
    let prepared = prepare_call(queue, payload, id);
    pending.register(prepared.correlation_id.clone(), call);
    prepared
}

/// A call's round trip: the request of a call registered under `id` names the
/// direct reply-to queue and `id`; the reply that a responder builds for it goes
/// to that queue with `id`, and routing it hands back exactly the registered
/// call and takes it out of the table.
pub proof fn lemma_reply_reaches_call<R>(
    pending: Map<Seq<char>, R>,
    queue: Seq<char>,
    payload: Seq<u8>,
    id: Seq<char>,
    call: R,
    reply_payload: Seq<u8>,
)
    ensures
        request_view(queue, payload, id).reply_to == Some(direct_reply_to()),
        request_view(queue, payload, id).correlation_id == Some(id),
        reply_view(
            request_view(queue, payload, id).reply_to,
            request_view(queue, payload, id).correlation_id,
            reply_payload,
        ) == Ok::<PublicationView, crate::publish::MissingProperty>(
            PublicationView {
                exchange: Seq::empty(),
                routing_key: direct_reply_to(),
                payload: reply_payload,
                correlation_id: Some(id),
                reply_to: None,
            },
        ),
        dispatch_result(pending.insert(id, call), Some(id)) == (
            pending.remove(id),
            Dispatch::Resolve(call),
        ),
{
    lemma_register_then_dispatch(pending, id, call);
}

/// A call gets its reply whatever the timing: once the call is registered under
/// `id` (before its request is published), whatever other calls start and
/// whatever replies to other calls are routed in the meantime, the reply that
/// a responder sends to the request is routed to the call.
pub proof fn lemma_call_gets_reply<R>(
    pending: Map<Seq<char>, R>,
    queue: Seq<char>,
    payload: Seq<u8>,
    id: Seq<char>,
    call: R,
    ops: Seq<PendingOp<R>>,
    reply_payload: Seq<u8>,
)
    requires
        forall|k: int| 0 <= k < ops.len() ==> leaves_id(#[trigger] ops[k], id),
    ensures
        reply_view(
            request_view(queue, payload, id).reply_to,
            request_view(queue, payload, id).correlation_id,
            reply_payload,
        ) matches Ok(reply) && reply.routing_key == direct_reply_to() && dispatch_result(
            apply_ops(pending.insert(id, call), ops),
            reply.correlation_id,
        ).1 == Dispatch::Resolve(call),
{
    lemma_call_waits_until_its_reply(pending, id, call, ops);
}

} // verus!
