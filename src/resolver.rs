//! Consensus view of a thread: the fold of its messages, in creation order,
//! into a keyed set of values.
use vstd::prelude::*;
use crate::text::{owned, str_eq};
use crate::vox::{VoxMessage, VoxPayload};

verus! {

/// A value of the consensus view.
#[derive(Clone, Debug)]
pub enum ConsensusValue {
    /// A plain string.
    Text(String),
    /// A JSON value, as its serialized text.
    Json(String),
}

/// The abstract value of a `ConsensusValue`.
pub enum ValueView {
    Text(Seq<char>),
    Json(Seq<char>),
}

impl ConsensusValue {
    pub open spec fn view(&self) -> ValueView {
        match self {
            ConsensusValue::Text(s) => ValueView::Text(s@),
            ConsensusValue::Json(s) => ValueView::Json(s@),
        }
    }
}

/// How the text of a consensus update reads as JSON.
pub enum StateShape {
    /// Not JSON.
    Invalid,
    /// A JSON object: its members, each with its value's JSON text.
    Object(Seq<(Seq<char>, Seq<char>)>),
    /// JSON, but not an object.
    Other,
}

/// What `parse_state` hands back, as exec values.
pub enum ParsedState {
    Invalid,
    Object(Vec<(String, String)>),
    Other,
}

impl ParsedState {
    pub open spec fn view(&self) -> StateShape {
        match self {
            ParsedState::Invalid => StateShape::Invalid,
            ParsedState::Object(v) => StateShape::Object(v@.map_values(|p: (String, String)| (p.0@, p.1@))),
            ParsedState::Other => StateShape::Other,
        }
    }
}

/// How `serde_json` reads the text `s`.
pub uninterp spec fn json_state_shape(s: Seq<char>) -> StateShape;

/// Relies on `serde_json::from_str::<Value>` to read `s`, on
/// `Value::as_object` to tell an object from other JSON, and on `Value`'s
/// `Display` for each member's JSON text.
#[verifier::external_body]
fn parse_state(s: &str) -> (r: ParsedState)
    ensures
        r.view() == json_state_shape(s@),
{
    match serde_json::from_str::<serde_json::Value>(s) {
        Err(_) => ParsedState::Invalid,
        Ok(v) => match v.as_object() {
            Some(o) => ParsedState::Object(o.iter().map(|(k, x)| (k.clone(), x.to_string())).collect()),
            None => ParsedState::Other,
        },
    }
}

/// The consensus view after the members `es` of a JSON object are merged in.
pub open spec fn merge_members(m: Map<Seq<char>, ValueView>, es: Seq<(Seq<char>, Seq<char>)>) -> Map<Seq<char>, ValueView>
    decreases es.len(),
{
    if es.len() == 0 {
        m
    } else {
        merge_members(m, es.drop_last()).insert(es.last().0, ValueView::Json(es.last().1))
    }
}

/// The consensus view after message `msg`.
pub open spec fn apply_message(m: Map<Seq<char>, ValueView>, msg: VoxMessage) -> Map<Seq<char>, ValueView> {
    match msg.payload {
        VoxPayload::ConsensusUpdate { state, .. } => match json_state_shape(state@) {
            StateShape::Object(es) => merge_members(m, es),
            _ => m.insert("state"@, ValueView::Text(state@)),
        },
        VoxPayload::TaskAssignment { task_id, description } => m.insert("task_id"@, ValueView::Text(task_id@)).insert(
            "description"@,
            ValueView::Text(description@),
        ),
        VoxPayload::Proposal { content } => m.insert("proposal"@, ValueView::Text(content@)),
        VoxPayload::Observation { content } => m.insert("observation"@, ValueView::Text(content@)),
        VoxPayload::SystemAlert { action, agent_id, reason } => {
            let m2 = m.insert("alert_action"@, ValueView::Text(action@)).insert("alert_reason"@, ValueView::Text(reason@));
            match agent_id {
                Some(id) => m2.insert("alert_agent_id"@, ValueView::Text(id@)),
                None => m2,
            }
        },
        VoxPayload::Ack { result } => m.insert("ack_result"@, ValueView::Text(result@)),
    }
}

/// The consensus view of `msgs`, folded in order.
pub open spec fn fold_messages(msgs: Seq<VoxMessage>) -> Map<Seq<char>, ValueView>
    decreases msgs.len(),
{
    if msgs.len() == 0 {
        Map::empty()
    } else {
        apply_message(fold_messages(msgs.drop_last()), msgs.last())
    }
}

/// The latest creation instant in `msgs`, or `i64::MIN` when there is none.
pub open spec fn latest(msgs: Seq<VoxMessage>) -> i64
    decreases msgs.len(),
{
    if msgs.len() == 0 {
        i64::MIN
    } else {
        let l = latest(msgs.drop_last());
        if msgs.last().created_at > l { msgs.last().created_at } else { l }
    }
}

/// The map that a list of key-value pairs stands for: a later pair with a
/// key supersedes an earlier one.
pub open spec fn pairs_map(s: Seq<(String, ConsensusValue)>) -> Map<Seq<char>, ValueView>
    decreases s.len(),
{
    if s.len() == 0 {
        Map::empty()
    } else {
        pairs_map(s.drop_last()).insert(s.last().0@, s.last().1.view())
    }
}

/// The collapsed state of a thread.
pub struct ConsensusState {
    pub thread_id: String,
    /// Key-value pairs in the order they were set; a later pair with a key
    /// supersedes an earlier one.
    pub values: Vec<(String, ConsensusValue)>,
    pub last_updated: i64,
}

impl ConsensusState {
    /// The view of the values, key by key.
    pub open spec fn values_map(&self) -> Map<Seq<char>, ValueView> {
        pairs_map(self.values@)
    }

    /// The current value of `key`, if any.
    pub fn get(&self, key: &str) -> (r: Option<&ConsensusValue>)
        ensures
            match r {
                Some(v) => self.values_map().contains_key(key@) && self.values_map()[key@] == v.view(),
                None => !self.values_map().contains_key(key@),
            },
    {
        let mut i = self.values.len();
        assert(self.values@.subrange(0, i as int) =~= self.values@);
        while i > 0
            invariant
                i <= self.values@.len(),
                forall|k: int| i <= k < self.values@.len() ==> (#[trigger] self.values@[k]).0@ != key@,
                pairs_map(self.values@).contains_key(key@) <==> pairs_map(self.values@.subrange(0, i as int)).contains_key(key@),
                pairs_map(self.values@).contains_key(key@) ==> pairs_map(self.values@)[key@] == pairs_map(
                    self.values@.subrange(0, i as int),
                )[key@],
            decreases i,
        {
            proof {
                let s = self.values@.subrange(0, i as int);
                assert(s.drop_last() =~= self.values@.subrange(0, i - 1));
            }
            if str_eq(self.values[i - 1].0.as_str(), key) {
                return Some(&self.values[i - 1].1);
            }
            i = i - 1;
        }
        None
    }
}

fn set_value(values: &mut Vec<(String, ConsensusValue)>, key: String, v: ConsensusValue)
    ensures
        pairs_map(final(values)@) == pairs_map(old(values)@).insert(key@, v.view()),
{
    values.push((key, v));
    proof {
        assert(final(values)@.drop_last() =~= old(values)@);
    }
}

/// The resolver of thread consensus.
pub struct StateResolver;

impl StateResolver {
    /// Folds `messages`, in the order given, into the consensus view of
    /// thread `thread_id`.
    pub fn collapse(thread_id: &str, messages: &Vec<VoxMessage>) -> (r: ConsensusState)
        ensures
            r.thread_id@ == thread_id@,
            r.values_map() == fold_messages(messages@),
            r.last_updated == latest(messages@),
    {
        let mut values: Vec<(String, ConsensusValue)> = Vec::new();
        let mut last_updated: i64 = i64::MIN;
        let mut i: usize = 0;
        while i < messages.len()
            invariant
                i <= messages@.len(),
                pairs_map(values@) == fold_messages(messages@.subrange(0, i as int)),
                last_updated == latest(messages@.subrange(0, i as int)),
            decreases messages@.len() - i,
        {
            proof {
                assert(messages@.subrange(0, i as int + 1).drop_last() =~= messages@.subrange(0, i as int));
            }
            let msg = &messages[i];
            match &msg.payload {
                VoxPayload::ConsensusUpdate { state, .. } => {
                    match parse_state(state.as_str()) {
                        ParsedState::Invalid => {
                            set_value(&mut values, owned("state"), ConsensusValue::Text(state.clone()));
                        },
                        ParsedState::Object(members) => {
                            let ghost base = pairs_map(values@);
                            let ghost es = members@.map_values(|p: (String, String)| (p.0@, p.1@));
                            let mut j: usize = 0;
                            while j < members.len()
                                invariant
                                    j <= members@.len(),
                                    es == members@.map_values(|p: (String, String)| (p.0@, p.1@)),
                                    pairs_map(values@) == merge_members(base, es.subrange(0, j as int)),
                                decreases members@.len() - j,
                            {
                                proof {
                                    assert(es.subrange(0, j as int + 1).drop_last() =~= es.subrange(0, j as int));
                                }
                                set_value(&mut values, members[j].0.clone(), ConsensusValue::Json(members[j].1.clone()));
                                j = j + 1;
                            }
                            proof {
                                assert(es.subrange(0, j as int) =~= es);
                            }
                        },
                        ParsedState::Other => {
                            set_value(&mut values, owned("state"), ConsensusValue::Text(state.clone()));
                        },
                    }
                },
                VoxPayload::TaskAssignment { task_id, description } => {
                    set_value(&mut values, owned("task_id"), ConsensusValue::Text(task_id.clone()));
                    set_value(&mut values, owned("description"), ConsensusValue::Text(description.clone()));
                },
                VoxPayload::Proposal { content } => {
                    set_value(&mut values, owned("proposal"), ConsensusValue::Text(content.clone()));
                },
                VoxPayload::Observation { content } => {
                    set_value(&mut values, owned("observation"), ConsensusValue::Text(content.clone()));
                },
                VoxPayload::SystemAlert { action, agent_id, reason } => {
                    set_value(&mut values, owned("alert_action"), ConsensusValue::Text(action.clone()));
                    set_value(&mut values, owned("alert_reason"), ConsensusValue::Text(reason.clone()));
                    match agent_id {
                        Some(id) => {
                            set_value(&mut values, owned("alert_agent_id"), ConsensusValue::Text(id.clone()));
                        },
                        None => {},
                    }
                },
                VoxPayload::Ack { result } => {
                    set_value(&mut values, owned("ack_result"), ConsensusValue::Text(result.clone()));
                },
            }
            if msg.created_at > last_updated {
                last_updated = msg.created_at;
            }
            i = i + 1;
        }
        proof {
            assert(messages@.subrange(0, i as int) =~= messages@);
        }
        ConsensusState { thread_id: owned(thread_id), values, last_updated }
    }
}

/// The ordering key of a message: its creation instant, then its id.
pub open spec fn msg_key(m: VoxMessage) -> (i64, u128) {
    (m.created_at, m.id)
}

/// Whether no two messages of `msgs` share both creation instant and id.
pub open spec fn distinct_keys(msgs: Seq<VoxMessage>) -> bool {
    forall|i: int, j: int| 0 <= i < msgs.len() && 0 <= j < msgs.len() && i != j ==> msg_key(#[trigger] msgs[i]) != msg_key(
        #[trigger] msgs[j],
    )
}

/// Whether message `a` orders strictly before `b`: an earlier instant, or
/// the same instant and a smaller id.
pub open spec fn key_lt(a: VoxMessage, b: VoxMessage) -> bool {
    a.created_at < b.created_at || (a.created_at == b.created_at && a.id < b.id)
}

/// The messages of `msgs` that belong to thread `thread_id`, in order.
pub open spec fn thread_messages(msgs: Seq<VoxMessage>, thread_id: Seq<char>) -> Seq<VoxMessage> {
    msgs.filter(|m: VoxMessage| m.correlation_id@ == thread_id)
}

/// The ordering keys of `msgs`.
pub open spec fn creation_keys(msgs: Seq<VoxMessage>) -> Seq<(i64, u128)> {
    Seq::new(msgs.len(), |i: int| msg_key(msgs[i]))
}

proof fn lemma_filter_step_msgs(s: Seq<VoxMessage>, i: int, thread_id: Seq<char>)
    requires
        0 <= i < s.len(),
    ensures
        thread_messages(s.subrange(0, i + 1), thread_id) == if s[i].correlation_id@ == thread_id {
            thread_messages(s.subrange(0, i), thread_id).push(s[i])
        } else {
            thread_messages(s.subrange(0, i), thread_id)
        },
{
    reveal(Seq::filter);
    let t = s.subrange(0, i + 1);
    assert(t.drop_last() =~= s.subrange(0, i));
    assert(t.last() == s[i]);
}

impl StateResolver {
    /// The consensus of thread `thread_id` among `messages`: its messages,
    /// ordered by creation instant (equal instants in the order given),
    /// folded in that order.
    pub fn resolve_thread(thread_id: &str, messages: &Vec<VoxMessage>) -> (r: ConsensusState)
        ensures
            ({
                let thread = thread_messages(messages@, thread_id@);
                exists|order: Seq<usize>| {
                    &&& order.len() == thread.len()
                    &&& crate::order::strictly_ordered_pairs(creation_keys(thread), order)
                    &&& forall|p: int| 0 <= p < thread.len() ==> #[trigger] crate::order::lists(order, p)
                    &&& r.values_map() == fold_messages(crate::order::permuted(thread, order))
                    &&& r.last_updated == latest(crate::order::permuted(thread, order))
                    &&& crate::order::permuted(thread, order).to_multiset() == thread.to_multiset()
                    &&& (distinct_keys(thread) ==> increasing(crate::order::permuted(thread, order)))
                }
            }),
            r.thread_id@ == thread_id@,
    {
        let mut thread: Vec<VoxMessage> = Vec::new();
        let mut i: usize = 0;
        while i < messages.len()
            invariant
                i <= messages@.len(),
                thread@ == thread_messages(messages@.subrange(0, i as int), thread_id@),
            decreases messages@.len() - i,
        {
            proof {
                lemma_filter_step_msgs(messages@, i as int, thread_id@);
            }
            if crate::text::str_eq(messages[i].correlation_id.as_str(), thread_id) {
                thread.push(crate::vox::clone_message(&messages[i]));
            }
            i = i + 1;
        }
        proof {
            assert(messages@.subrange(0, i as int) =~= messages@);
        }
        let mut keys: Vec<(i64, u128)> = Vec::new();
        let mut k: usize = 0;
        while k < thread.len()
            invariant
                k <= thread@.len(),
                keys@ == creation_keys(thread@).subrange(0, k as int),
            decreases thread@.len() - k,
        {
            keys.push((thread[k].created_at, thread[k].id));
            proof {
                assert(creation_keys(thread@).subrange(0, k as int + 1) =~= creation_keys(thread@).subrange(0, k as int).push(
                    msg_key(thread@[k as int]),
                ));
            }
            k = k + 1;
        }
        proof {
            assert(creation_keys(thread@).subrange(0, k as int) =~= creation_keys(thread@));
        }
        let order = crate::order::stable_order_pairs(&keys);
        let mut sorted: Vec<VoxMessage> = Vec::new();
        let mut j: usize = 0;
        while j < order.len()
            invariant
                j <= order@.len(),
                order@.len() == thread@.len(),
                keys@ == creation_keys(thread@),
                crate::order::strictly_ordered_pairs(keys@, order@),
                sorted@ == crate::order::permuted(thread@, order@).subrange(0, j as int),
            decreases order@.len() - j,
        {
            sorted.push(crate::vox::clone_message(&thread[order[j]]));
            proof {
                assert(crate::order::permuted(thread@, order@).subrange(0, j as int + 1) =~= crate::order::permuted(thread@, order@).subrange(0, j as int).push(
                    thread@[order@[j as int] as int],
                ));
            }
            j = j + 1;
        }
        proof {
            assert(crate::order::permuted(thread@, order@).subrange(0, j as int) =~= crate::order::permuted(thread@, order@));
            let rs = crate::order::permuted(thread@, order@);
            assert forall|a: int, b: int| 0 <= a < b < order@.len() implies #[trigger] order@[a] != #[trigger] order@[b] by {
                assert(crate::order::before_pair(keys@, order@[a], order@[b]));
            }
            crate::order::lemma_permuted_multiset(thread@, order@);
            if distinct_keys(thread@) {
                assert forall|a: int, b: int| 0 <= a < b < rs.len() implies key_lt(#[trigger] rs[a], #[trigger] rs[b]) by {
                    assert(crate::order::before_pair(keys@, order@[a], order@[b]));
                    assert(order@[a] != order@[b]);
                    assert(keys@[order@[a] as int] == msg_key(thread@[order@[a] as int]));
                    assert(keys@[order@[b] as int] == msg_key(thread@[order@[b] as int]));
                }
            }
        }
        Self::collapse(thread_id, &sorted)
    }
}

/// Replaying the same messages in the same order gives the same consensus
/// view and the same last update: the view depends on nothing but the
/// messages.
pub proof fn lemma_replay_deterministic(a: Seq<VoxMessage>, b: Seq<VoxMessage>)
    requires
        a == b,
    ensures
        fold_messages(a) == fold_messages(b),
        latest(a) == latest(b),
{
}

/// The last update is the largest creation instant, whatever the order of
/// the messages: it depends on their multiset alone.
pub proof fn lemma_latest_is_max(msgs: Seq<VoxMessage>)
    ensures
        forall|i: int| 0 <= i < msgs.len() ==> (#[trigger] msgs[i]).created_at <= latest(msgs),
        msgs.len() > 0 ==> exists|i: int| 0 <= i < msgs.len() && (#[trigger] msgs[i]).created_at == latest(msgs),
    decreases msgs.len(),
{
    if msgs.len() > 0 {
        lemma_latest_is_max(msgs.drop_last());
        let l = latest(msgs.drop_last());
        if msgs.drop_last().len() > 0 {
            let k = choose|i: int| 0 <= i < msgs.drop_last().len() && (#[trigger] msgs.drop_last()[i]).created_at == l;
            assert(msgs[k] == msgs.drop_last()[k]);
        }
        assert forall|i: int| 0 <= i < msgs.len() implies (#[trigger] msgs[i]).created_at <= latest(msgs) by {
            if i < msgs.len() - 1 {
                assert(msgs[i] == msgs.drop_last()[i]);
            }
        }
        if msgs.last().created_at <= l && msgs.drop_last().len() == 0 {
            assert(msgs.last().created_at == i64::MIN || msgs.last().created_at <= l);
        }
    }
}

/// Whether the messages of `p` come in strictly increasing order of
/// creation instant, then id.
pub open spec fn increasing(p: Seq<VoxMessage>) -> bool {
    forall|i: int, j: int| 0 <= i < j < p.len() ==> key_lt(#[trigger] p[i], #[trigger] p[j])
}

/// Two lists holding the same messages, each in strictly increasing order
/// of creation instant then id, are the same list, and so fold to the same
/// consensus: a thread's consensus depends on the multiset of its messages
/// alone.
pub proof fn lemma_consensus_of_multiset(p: Seq<VoxMessage>, q: Seq<VoxMessage>)
    requires
        p.to_multiset() == q.to_multiset(),
        increasing(p),
        increasing(q),
    ensures
        p == q,
        fold_messages(p) == fold_messages(q),
        latest(p) == latest(q),
    decreases p.len(),
{
    broadcast use vstd::seq_lib::group_to_multiset_ensures;
    assert(p.len() == p.to_multiset().len());
    assert(q.len() == q.to_multiset().len());
    if p.len() == 0 {
        assert(p =~= q);
    } else {
        let n = p.len() - 1;
        let x = p[n];
        let y = q[n];
        assert(p.contains(x));
        assert(p.to_multiset().count(x) > 0);
        assert(q.contains(x));
        assert(q.contains(y));
        assert(q.to_multiset().count(y) > 0);
        assert(p.contains(y));
        let kx = choose|k: int| 0 <= k < q.len() && q[k] == x;
        let ky = choose|k: int| 0 <= k < p.len() && p[k] == y;
        if ky < n {
            assert(key_lt(p[ky], p[n]));
        }
        if kx < n {
            assert(key_lt(q[kx], q[n]));
        }
        assert(kx == n);
        assert(x == y);
        assert(p.remove(n) =~= p.drop_last());
        assert(q.remove(n) =~= q.drop_last());
        assert(p.drop_last().to_multiset() == q.drop_last().to_multiset());
        assert forall|i: int, j: int| 0 <= i < j < p.drop_last().len() implies key_lt(#[trigger] p.drop_last()[i], #[trigger] p.drop_last()[j]) by {
            assert(p.drop_last()[i] == p[i] && p.drop_last()[j] == p[j]);
        }
        assert forall|i: int, j: int| 0 <= i < j < q.drop_last().len() implies key_lt(#[trigger] q.drop_last()[i], #[trigger] q.drop_last()[j]) by {
            assert(q.drop_last()[i] == q[i] && q.drop_last()[j] == q[j]);
        }
        lemma_consensus_of_multiset(p.drop_last(), q.drop_last());
        assert(p =~= p.drop_last().push(x));
        assert(q =~= q.drop_last().push(y));
    }
}

} // verus!
