//! The client's table of calls that still wait for their reply, keyed by
//! correlation id, and the routing of an incoming reply to its call.

use vstd::prelude::*;

verus! {

/// No correlation id occurs twice among the entries.
pub open spec fn keys_distinct<R>(s: Seq<(String, R)>) -> bool {
    forall|i: int, j: int|
        0 <= i < s.len() && 0 <= j < s.len() && i != j ==> #[trigger] s[i].0@ != #[trigger] s[j].0@
}

/// The map from correlation id to waiting call that a list of entries denotes.
pub open spec fn entries_map<R>(s: Seq<(String, R)>) -> Map<Seq<char>, R>
    decreases s.len(),
{
    if s.len() == 0 {
        Map::empty()
    } else {
        entries_map(s.drop_last()).insert(s.last().0@, s.last().1)
    }
}

proof fn lemma_entries_map_dom<R>(s: Seq<(String, R)>)
    ensures
        forall|k: Seq<char>|
            #[trigger] entries_map(s).contains_key(k) <==> exists|i: int|
                0 <= i < s.len() && s[i].0@ == k,
    decreases s.len(),
{
    if s.len() > 0 {
        lemma_entries_map_dom(s.drop_last());
        assert forall|k: Seq<char>|
            #[trigger] entries_map(s).contains_key(k) implies exists|i: int|
                0 <= i < s.len() && s[i].0@ == k by {
            if k == s.last().0@ {
                assert(s[s.len() - 1].0@ == k);
            } else {
                assert(entries_map(s.drop_last()).contains_key(k));
                let i = choose|i: int| 0 <= i < s.drop_last().len() && s.drop_last()[i].0@ == k;
                assert(s.drop_last()[i] == s[i]);
                assert(s[i].0@ == k);
            }
        }
        assert forall|k: Seq<char>|
            (exists|i: int| 0 <= i < s.len() && s[i].0@ == k) implies #[trigger] entries_map(
            s,
        ).contains_key(k) by {
            let i = choose|i: int| 0 <= i < s.len() && s[i].0@ == k;
            if i < s.len() - 1 {
                assert(s.drop_last()[i] == s[i]);
                assert(s.drop_last()[i].0@ == k);
                assert(entries_map(s.drop_last()).contains_key(k));
            }
        }
    }
}

proof fn lemma_entries_map_value<R>(s: Seq<(String, R)>, i: int)
    requires
        keys_distinct(s),
        0 <= i < s.len(),
    ensures
        entries_map(s).contains_key(s[i].0@),
        entries_map(s)[s[i].0@] == s[i].1,
    decreases s.len(),
{
    lemma_entries_map_dom(s);
    if i < s.len() - 1 {
        let t = s.drop_last();
        assert(keys_distinct(t)) by {
            assert forall|a: int, b: int|
                0 <= a < t.len() && 0 <= b < t.len() && a != b implies #[trigger] t[a].0@
                != #[trigger] t[b].0@ by {
                assert(t[a] == s[a] && t[b] == s[b]);
            }
        }
        lemma_entries_map_value(t, i);
        assert(t[i] == s[i]);
        assert(s[i].0@ != s[s.len() - 1].0@);
    }
}

proof fn lemma_entries_map_remove<R>(s: Seq<(String, R)>, i: int)
    requires
        keys_distinct(s),
        0 <= i < s.len(),
    ensures
        keys_distinct(s.remove(i)),
        entries_map(s.remove(i)) =~= entries_map(s).remove(s[i].0@),
{
    let t = s.remove(i);
    assert forall|a: int, b: int|
        0 <= a < t.len() && 0 <= b < t.len() && a != b implies #[trigger] t[a].0@
        != #[trigger] t[b].0@ by {
        let a2 = if a < i { a } else { a + 1 };
        let b2 = if b < i { b } else { b + 1 };
        assert(t[a] == s[a2] && t[b] == s[b2]);
    }
    lemma_entries_map_dom(s);
    lemma_entries_map_dom(t);
    let m = entries_map(s).remove(s[i].0@);
    assert forall|k: Seq<char>| #[trigger] entries_map(t).contains_key(k) <==> m.contains_key(k) by {
        if entries_map(t).contains_key(k) {
            let a = choose|a: int| 0 <= a < t.len() && t[a].0@ == k;
            let a2 = if a < i { a } else { a + 1 };
            assert(t[a] == s[a2]);
            assert(s[a2].0@ == k);
        }
        if m.contains_key(k) {
            let a2 = choose|a: int| 0 <= a < s.len() && s[a].0@ == k;
            assert(a2 != i);
            let a = if a2 < i { a2 } else { a2 - 1 };
            assert(t[a] == s[a2]);
        }
    }
    assert forall|k: Seq<char>| #[trigger] entries_map(t).contains_key(k) implies entries_map(t)[k]
        == m[k] by {
        let a = choose|a: int| 0 <= a < t.len() && t[a].0@ == k;
        let a2 = if a < i { a } else { a + 1 };
        assert(t[a] == s[a2]);
        lemma_entries_map_value(t, a);
        lemma_entries_map_value(s, a2);
    }
}

/// What an incoming reply is routed to.
pub enum Dispatch<R> {
    /// The reply answers this waiting call, which leaves the table.
    Resolve(R),
    /// The reply carries no correlation id.
    MissingCorrelationId,
    /// No waiting call has the reply's correlation id.
    UnknownCorrelationId,
}

/// The table and the routing decision for a reply with correlation id `cid`
/// arriving while `m` is the table of waiting calls.
pub open spec fn dispatch_result<R>(m: Map<Seq<char>, R>, cid: Option<Seq<char>>) -> (Map<
    Seq<char>,
    R,
>, Dispatch<R>) {
    match cid {
        None => (m, Dispatch::MissingCorrelationId),
        Some(id) => if m.contains_key(id) {
            (m.remove(id), Dispatch::Resolve(m[id]))
        } else {
            (m, Dispatch::UnknownCorrelationId)
        },
    }
}

/// The view of an optional string as an optional sequence of characters.
pub open spec fn opt_chars(s: Option<String>) -> Option<Seq<char>> {
    match s {
        Some(s) => Some(s@),
        None => None,
    }
}

/// Calls that wait for their reply, each under the correlation id that its
/// request was published with.
pub struct PendingReplies<R> {
    entries: Vec<(String, R)>,
}

impl<R> View for PendingReplies<R> {
    type V = Map<Seq<char>, R>;

    closed spec fn view(&self) -> Map<Seq<char>, R> {
        entries_map(self.entries@)
    }
}

impl<R> PendingReplies<R> {
    #[verifier::type_invariant]
    spec fn inv(self) -> bool {
        keys_distinct(self.entries@)
    }

    /// An empty table.
    pub fn new() -> (res: Self)
        ensures
            res@ == Map::<Seq<char>, R>::empty(),
    {
        PendingReplies { entries: Vec::new() }
    }

    /// The index of the entry under `id`, if there is one.
    fn position(&self, id: &String) -> (res: Option<usize>)
        ensures
            match res {
                Some(i) => i < self.entries@.len() && self.entries@[i as int].0@ == id@,
                None => forall|j: int|
                    0 <= j < self.entries@.len() ==> #[trigger] self.entries@[j].0@ != id@,
            },
    {
        let mut i: usize = 0;
        while i < self.entries.len()
            invariant
                i <= self.entries@.len(),
                forall|j: int| 0 <= j < i ==> #[trigger] self.entries@[j].0@ != id@,
            decreases self.entries@.len() - i,
        {
            if self.entries[i].0 == *id {
                return Some(i);
            }
            i = i + 1;
        }
        None
    }

    /// Records `reply` as the call waiting under `id`; a call already waiting
    /// under `id` is replaced and handed back.
    pub fn register(&mut self, id: String, reply: R) -> (res: Option<R>)
        ensures
            final(self)@ == old(self)@.insert(id@, reply),
            match res {
                Some(r) => old(self)@.contains_key(id@) && r == old(self)@[id@],
                None => !old(self)@.contains_key(id@),
            },
    {
        proof {
            use_type_invariant(&*self);
            lemma_entries_map_dom(self.entries@);
        }
        let ghost s0 = self.entries@;
        let found = self.position(&id);
        let res = match found {
            Some(i) => {
                proof {
                    lemma_entries_map_value(s0, i as int);
                    lemma_entries_map_remove(s0, i as int);
                }
                let mut entries = Vec::new();
                std::mem::swap(&mut entries, &mut self.entries);
                let (_, old_reply) = entries.remove(i);
                self.entries = entries;
                Some(old_reply)
            },
            None => None,
        };
        let ghost s1 = self.entries@;
        proof {
            lemma_entries_map_dom(s1);
        }
        let mut entries = Vec::new();
        std::mem::swap(&mut entries, &mut self.entries);
        proof {
            assert(!entries_map(s1).contains_key(id@));
            assert(keys_distinct(entries@.push((id, reply))));
        }
        entries.push((id, reply));
        self.entries = entries;
        proof {
            let s2 = self.entries@;
            assert(s2.drop_last() =~= s1);
            assert(entries_map(s2) == entries_map(s1).insert(s2.last().0@, s2.last().1));
            assert(entries_map(s2) =~= entries_map(s0).insert(id@, reply));
        }
        res
    }

    /// Routes a reply with correlation id `correlation_id`: the call waiting
    /// under that id, if any, is taken out of the table and returned.
    pub fn dispatch(&mut self, correlation_id: Option<String>) -> (res: Dispatch<R>)
        ensures
            (final(self)@, res) == dispatch_result(old(self)@, opt_chars(correlation_id)),
    {
        proof {
            use_type_invariant(&*self);
            lemma_entries_map_dom(self.entries@);
        }
        let ghost s0 = self.entries@;
        match correlation_id {
            None => Dispatch::MissingCorrelationId,
            Some(id) => {
                match self.position(&id) {
                    Some(i) => {
                        proof {
                            lemma_entries_map_value(s0, i as int);
                            lemma_entries_map_remove(s0, i as int);
                        }
                        let mut entries = Vec::new();
                        std::mem::swap(&mut entries, &mut self.entries);
                        let (_, reply) = entries.remove(i);
                        self.entries = entries;
                        Dispatch::Resolve(reply)
                    },
                    None => Dispatch::UnknownCorrelationId,
                }
            },
        }
    }
}

/// A reply is routed to a call at most once: once the reply under `id` has been
/// routed, a second reply under `id` finds no waiting call.
pub proof fn lemma_dispatch_at_most_once<R>(pending: Map<Seq<char>, R>, id: Seq<char>)
    ensures
        dispatch_result(dispatch_result(pending, Some(id)).0, Some(id)).1 is UnknownCorrelationId,
{
}

/// Routing a reply under `id` leaves every call waiting under another id where
/// it was.
pub proof fn lemma_dispatch_keeps_others<R>(
    pending: Map<Seq<char>, R>,
    cid: Option<Seq<char>>,
    other: Seq<char>,
)
    requires
        cid != Some(other),
    ensures
        dispatch_result(pending, cid).0.contains_key(other) == pending.contains_key(other),
        pending.contains_key(other) ==> dispatch_result(pending, cid).0[other] == pending[other],
{
}

/// A reply under the id that a call was registered with is routed to that call,
/// and the table is then as it was before the call, without `id`.
pub proof fn lemma_register_then_dispatch<R>(pending: Map<Seq<char>, R>, id: Seq<char>, call: R)
    ensures
        dispatch_result(pending.insert(id, call), Some(id)) == (
            pending.remove(id),
            Dispatch::Resolve(call),
        ),
{
    assert(pending.insert(id, call).remove(id) =~= pending.remove(id));
}

/// An operation on the table of waiting calls: registering a call under an
/// id, or routing a reply with a correlation id.
pub enum PendingOp<R> {
    Register(Seq<char>, R),
    Dispatch(Option<Seq<char>>),
}

/// The table after `op`, as `register` and `dispatch` leave it.
pub open spec fn apply_op<R>(m: Map<Seq<char>, R>, op: PendingOp<R>) -> Map<Seq<char>, R> {
    match op {
        PendingOp::Register(id, call) => m.insert(id, call),
        PendingOp::Dispatch(cid) => dispatch_result(m, cid).0,
    }
}

/// The table after the operations `ops`, in order.
pub open spec fn apply_ops<R>(m: Map<Seq<char>, R>, ops: Seq<PendingOp<R>>) -> Map<Seq<char>, R>
    decreases ops.len(),
{
    if ops.len() == 0 {
        m
    } else {
        apply_op(apply_ops(m, ops.drop_last()), ops.last())
    }
}

/// The operation neither registers under `id` nor routes a reply under `id`.
pub open spec fn leaves_id<R>(op: PendingOp<R>, id: Seq<char>) -> bool {
    match op {
        PendingOp::Register(k, _) => k != id,
        PendingOp::Dispatch(cid) => cid != Some(id),
    }
}

/// A call registered under `id` waits there whatever else happens to the table
/// in the meantime (other calls registered, replies to other calls routed, in
/// any order), and the reply under `id`, whenever it comes, is routed to it.
pub proof fn lemma_call_waits_until_its_reply<R>(
    pending: Map<Seq<char>, R>,
    id: Seq<char>,
    call: R,
    ops: Seq<PendingOp<R>>,
)
    requires
        forall|k: int| 0 <= k < ops.len() ==> leaves_id(#[trigger] ops[k], id),
    ensures
        apply_ops(pending.insert(id, call), ops).contains_key(id),
        apply_ops(pending.insert(id, call), ops)[id] == call,
        dispatch_result(apply_ops(pending.insert(id, call), ops), Some(id)).1 == Dispatch::Resolve(
            call,
        ),
    decreases ops.len(),
{
    if ops.len() > 0 {
        let rest = ops.drop_last();
        assert forall|k: int| 0 <= k < rest.len() implies leaves_id(#[trigger] rest[k], id) by {
            assert(rest[k] == ops[k]);
        }
        lemma_call_waits_until_its_reply(pending, id, call, rest);
        assert(leaves_id(ops[ops.len() - 1], id));
    }
}

} // verus!
