//! Feedback that users give on node executions, and counts of it.
use vstd::prelude::*;
use crate::engine::state_inspector::masked;
use crate::engine::tracing::new_uuid_string;
use crate::json::JsonModel;
use crate::state::{clone_state, state_model, StateData};
use crate::graph::subgraph::merge_output;
use crate::text::{contains_chars, contains_seq, str_eq, to_chars};

verus! {

/// Kinds of user feedback.
#[derive(Debug, Clone, Copy, PartialEq, Eq, Structural)]
pub enum FeedbackType {
    Approval,
    Rejection,
    Modification,
    Timeout,
}

/// The status of a request for feedback.
#[derive(Debug, Clone, Copy, PartialEq, Eq, Structural)]
pub enum FeedbackRequestStatus {
    Pending,
    Completed,
    TimedOut,
    Cancelled,
}

/// Counts of feedback, in all and by kind.
#[derive(Debug, Clone, Copy, Default)]
pub struct FeedbackStats {
    pub total_count: usize,
    pub approval_count: usize,
    pub rejection_count: usize,
    pub modification_count: usize,
    pub timeout_count: usize,
}

/// How many of `kinds` are `t`.
pub open spec fn count_kind(kinds: Seq<FeedbackType>, t: FeedbackType) -> nat
    decreases kinds.len(),
{
    if kinds.len() == 0 {
        0
    } else {
        count_kind(kinds.drop_last(), t) + if kinds.last() == t {
            1nat
        } else {
            0nat
        }
    }
}

/// Each kind is counted at most as often as there are kinds in all.
pub proof fn lemma_count_kind_bound(kinds: Seq<FeedbackType>, t: FeedbackType)
    ensures
        count_kind(kinds, t) <= kinds.len(),
    decreases kinds.len(),
{
    if kinds.len() > 0 {
        lemma_count_kind_bound(kinds.drop_last(), t);
    }
}

/// The four kinds together make up all the feedback.
pub proof fn lemma_counts_add_up(kinds: Seq<FeedbackType>)
    ensures
        count_kind(kinds, FeedbackType::Approval) + count_kind(kinds, FeedbackType::Rejection)
            + count_kind(kinds, FeedbackType::Modification) + count_kind(kinds, FeedbackType::Timeout)
            == kinds.len(),
    decreases kinds.len(),
{
    if kinds.len() > 0 {
        lemma_counts_add_up(kinds.drop_last());
    }
}

impl FeedbackStats {
    /// Whether these are the counts of `kinds`.
    pub open spec fn counts(&self, kinds: Seq<FeedbackType>) -> bool {
        &&& self.total_count == kinds.len()
        &&& self.approval_count == count_kind(kinds, FeedbackType::Approval)
        &&& self.rejection_count == count_kind(kinds, FeedbackType::Rejection)
        &&& self.modification_count == count_kind(kinds, FeedbackType::Modification)
        &&& self.timeout_count == count_kind(kinds, FeedbackType::Timeout)
    }

    /// The counts of the given feedback kinds.
    pub fn of_kinds(kinds: &[FeedbackType]) -> (s: FeedbackStats)
        ensures
            s.counts(kinds@),
    {
        let mut s = FeedbackStats {
            total_count: 0,
            approval_count: 0,
            rejection_count: 0,
            modification_count: 0,
            timeout_count: 0,
        };
        let mut i: usize = 0;
        while i < kinds.len()
            invariant
                i <= kinds@.len(),
                s.counts(kinds@.take(i as int)),
            decreases kinds@.len() - i,
        {
            let ghost pre = kinds@.take(i as int);
            proof {
                assert(kinds@.take(i + 1).drop_last() =~= pre);
                lemma_count_kind_bound(pre, FeedbackType::Approval);
                lemma_count_kind_bound(pre, FeedbackType::Rejection);
                lemma_count_kind_bound(pre, FeedbackType::Modification);
                lemma_count_kind_bound(pre, FeedbackType::Timeout);
            }
            s.total_count = s.total_count + 1;
            match kinds[i] {
                FeedbackType::Approval => s.approval_count = s.approval_count + 1,
                FeedbackType::Rejection => s.rejection_count = s.rejection_count + 1,
                FeedbackType::Modification => s.modification_count = s.modification_count + 1,
                FeedbackType::Timeout => s.timeout_count = s.timeout_count + 1,
            }
            i = i + 1;
        }
        assert(kinds@.take(kinds@.len() as int) =~= kinds@);
        s
    }
}

/// Feedback a user gave on a node. The timestamp is in milliseconds since
/// the Unix epoch.
#[derive(Debug)]
pub struct UserFeedback {
    /// Unique identifier
    pub id: String,
    /// The node the feedback is on
    pub node_id: String,
    /// Its kind
    pub feedback_type: FeedbackType,
    /// Optional comment
    pub comment: Option<String>,
    /// For a modification, the fields to set
    pub modified_state: Option<StateData>,
    /// When it was given
    pub timestamp: i64,
}

/// What a piece of feedback says.
pub open spec fn feedback_view(f: UserFeedback) -> (Seq<char>, Seq<char>, FeedbackType, Option<Seq<char>>, Option<Map<Seq<char>, JsonModel>>, i64) {
    (
        f.id@,
        f.node_id@,
        f.feedback_type,
        match f.comment {
            Some(c) => Some(c@),
            None => None,
        },
        match f.modified_state {
            Some(m) => Some(state_model(m)),
            None => None,
        },
        f.timestamp,
    )
}

/// What each piece of feedback of a list says.
pub open spec fn feedbacks_view(s: Seq<UserFeedback>) -> Seq<(Seq<char>, Seq<char>, FeedbackType, Option<Seq<char>>, Option<Map<Seq<char>, JsonModel>>, i64)> {
    Seq::new(s.len(), |i: int| feedback_view(s[i]))
}

/// The feedback of `s` that satisfies `p`, in order.
pub open spec fn feedback_where(s: Seq<UserFeedback>, p: spec_fn(UserFeedback) -> bool) -> Seq<UserFeedback> {
    masked(s, Seq::new(s.len(), |i: int| p(s[i])))
}

/// Whether the feedback is in time order, oldest first.
pub open spec fn in_time_order(s: Seq<UserFeedback>) -> bool {
    forall|i: int, j: int| 0 <= i < j < s.len() ==> (#[trigger] s[i]).timestamp <= (#[trigger] s[j]).timestamp
}

/// Where feedback given at `t` goes: after every leading entry given no later.
pub open spec fn time_slot(s: Seq<UserFeedback>, t: i64) -> int
    decreases s.len(),
{
    if s.len() == 0 {
        0
    } else if s[0].timestamp <= t {
        1 + time_slot(s.drop_first(), t)
    } else {
        0
    }
}

/// The feedback of `s` whose id is not `id`, in order.
pub open spec fn other_ids(s: Seq<UserFeedback>, id: Seq<char>) -> Seq<UserFeedback> {
    feedback_where(s, |f: UserFeedback| f.id@ != id)
}

proof fn lemma_time_slot(s: Seq<UserFeedback>, t: i64)
    ensures
        0 <= time_slot(s, t) <= s.len(),
        forall|i: int| 0 <= i < time_slot(s, t) ==> (#[trigger] s[i]).timestamp <= t,
        time_slot(s, t) < s.len() ==> s[time_slot(s, t)].timestamp > t,
    decreases s.len(),
{
    if s.len() > 0 && s[0].timestamp <= t {
        lemma_time_slot(s.drop_first(), t);
        assert forall|i: int| 0 <= i < time_slot(s, t) implies (#[trigger] s[i]).timestamp <= t by {
            if i > 0 {
                assert(s[i] == s.drop_first()[i - 1]);
            }
        }
    }
}

/// Taking elements by flags keeps the time order.
proof fn lemma_masked_in_order(s: Seq<UserFeedback>, mask: Seq<bool>)
    requires
        in_time_order(s),
    ensures
        in_time_order(masked(s, mask)),
        forall|i: int| 0 <= i < masked(s, mask).len() ==> exists|j: int| 0 <= j < s.len() && #[trigger] masked(s, mask)[i] == s[j],
    decreases s.len(),
{
    if s.len() > 0 && mask.len() >= s.len() {
        let d = s.drop_last();
        assert(in_time_order(d)) by {
            assert forall|i: int, j: int| 0 <= i < j < d.len() implies (#[trigger] d[i]).timestamp <= (#[trigger] d[j]).timestamp by {
                assert(d[i] == s[i] && d[j] == s[j]);
            }
        }
        lemma_masked_in_order(d, mask);
        let m = masked(d, mask);
        assert forall|i: int| 0 <= i < m.len() implies exists|j: int| 0 <= j < s.len() && #[trigger] m[i] == s[j] by {
            let j = choose|j: int| 0 <= j < d.len() && m[i] == d[j];
            assert(d[j] == s[j]);
        }
        if mask[s.len() - 1] {
            let t = m.push(s.last());
            assert forall|i: int, j: int| 0 <= i < j < t.len() implies (#[trigger] t[i]).timestamp <= (#[trigger] t[j]).timestamp by {
                if j == t.len() - 1 {
                    let k = choose|k: int| 0 <= k < d.len() && m[i] == d[k];
                    assert(d[k] == s[k]);
                    assert(s[k].timestamp <= s[s.len() - 1].timestamp);
                }
            }
            assert forall|i: int| 0 <= i < t.len() implies exists|j: int| 0 <= j < s.len() && #[trigger] t[i] == s[j] by {
                if i == t.len() - 1 {
                    assert(t[i] == s[s.len() - 1]);
                }
            }
        }
    }
}

fn copy_opt_string(s: &Option<String>) -> (r: Option<String>)
    ensures
        match (r, *s) {
            (Some(a), Some(b)) => a@ == b@,
            (None, None) => true,
            _ => false,
        },
{
    match s {
        Some(c) => Some(c.clone()),
        None => None,
    }
}

impl UserFeedback {
    /// Feedback of kind `feedback_type` on `node_id`, given now, with a
    /// fresh id.
    pub fn new(node_id: &str, feedback_type: FeedbackType, comment: Option<String>) -> (f: UserFeedback)
        ensures
            f.id@.len() == 36,
            f.node_id@ == node_id@,
            f.feedback_type == feedback_type,
            f.comment == comment,
            f.modified_state is None,
    {
        UserFeedback {
            id: new_uuid_string(),
            node_id: node_id.to_owned(),
            feedback_type,
            comment,
            modified_state: None,
            timestamp: crate::clock::now_millis(),
        }
    }

    /// A modification of the state at `node_id`, given now, with a fresh id.
    pub fn with_modification(node_id: &str, comment: Option<String>, modified_state: StateData) -> (f: UserFeedback)
        ensures
            f.id@.len() == 36,
            f.node_id@ == node_id@,
            f.feedback_type == FeedbackType::Modification,
            f.comment == comment,
            f.modified_state == Some(modified_state),
    {
        UserFeedback {
            id: new_uuid_string(),
            node_id: node_id.to_owned(),
            feedback_type: FeedbackType::Modification,
            comment,
            modified_state: Some(modified_state),
            timestamp: crate::clock::now_millis(),
        }
    }

    /// A copy, saying the same.
    pub fn copy(&self) -> (r: UserFeedback)
        ensures
            feedback_view(r) == feedback_view(*self),
    {
        UserFeedback {
            id: self.id.clone(),
            node_id: self.node_id.clone(),
            feedback_type: self.feedback_type,
            comment: copy_opt_string(&self.comment),
            modified_state: match &self.modified_state {
                Some(m) => Some(clone_state(m)),
                None => None,
            },
            timestamp: self.timestamp,
        }
    }
}

/// A request for feedback on a node. The timeout is in milliseconds, the
/// creation time in milliseconds since the Unix epoch.
#[derive(Debug)]
pub struct FeedbackRequest {
    /// Unique identifier
    pub id: String,
    /// The node the feedback is asked on
    pub node_id: String,
    /// What the user is asked
    pub prompt: String,
    /// How long the request waits
    pub timeout: u64,
    /// When it was made
    pub created_at: i64,
}

/// Copies of the feedback whose flag is set, in order.
fn copy_flagged(s: &Vec<UserFeedback>, mask: &Vec<bool>) -> (r: Vec<UserFeedback>)
    requires
        mask@.len() == s@.len(),
    ensures
        feedbacks_view(r@) == feedbacks_view(masked(s@, mask@)),
{
    let mut r: Vec<UserFeedback> = Vec::new();
    let mut i: usize = 0;
    while i < s.len()
        invariant
            i <= s@.len(),
            mask@.len() == s@.len(),
            feedbacks_view(r@) == feedbacks_view(masked(s@.take(i as int), mask@)),
        decreases s@.len() - i,
    {
        let ghost pre = s@.take(i as int);
        assert(s@.take(i + 1).drop_last() =~= pre);
        assert(s@.take(i + 1).last() == s@[i as int]);
        if mask[i] {
            let c = s[i].copy();
            let ghost before = r@;
            r.push(c);
            assert(masked(s@.take(i + 1), mask@) == masked(pre, mask@).push(s@[i as int]));
            assert(feedbacks_view(r@) =~= feedbacks_view(before).push(feedback_view(s@[i as int])));
            assert(feedbacks_view(masked(pre, mask@).push(s@[i as int])) =~= feedbacks_view(masked(pre, mask@)).push(
                feedback_view(s@[i as int]),
            ));
        }
        i = i + 1;
    }
    assert(s@.take(i as int) =~= s@);
    r
}

/// Collects user feedback, kept in time order, and requests for it.
pub struct FeedbackManager {
    /// The feedback, oldest first
    pub feedbacks: Vec<UserFeedback>,
    /// The requests, in the order they were made, with their status
    pub requests: Vec<(FeedbackRequest, FeedbackRequestStatus)>,
}

/// `i` is the position of the first feedback with id `id`.
pub open spec fn first_with_id(s: Seq<UserFeedback>, id: Seq<char>, i: int) -> bool {
    &&& 0 <= i < s.len()
    &&& s[i].id@ == id
    &&& forall|k: int| 0 <= k < i ==> #[trigger] s[k].id@ != id
}

impl FeedbackManager {
    /// The feedback is kept in time order.
    pub open spec fn wf(&self) -> bool {
        in_time_order(self.feedbacks@)
    }

    /// A manager without feedback or requests.
    pub fn new() -> (m: FeedbackManager)
        ensures
            m.wf(),
            m.feedbacks@.len() == 0,
            m.requests@.len() == 0,
    {
        FeedbackManager { feedbacks: Vec::new(), requests: Vec::new() }
    }

    /// Records `feedback`, replacing any with the same id, in time order
    /// after all feedback given no later; returns its id.
    pub fn submit_feedback(&mut self, feedback: UserFeedback) -> (id: String)
        requires
            old(self).wf(),
        ensures
            final(self).wf(),
            id@ == feedback.id@,
            final(self).feedbacks@ == other_ids(old(self).feedbacks@, feedback.id@).insert(
                time_slot(other_ids(old(self).feedbacks@, feedback.id@), feedback.timestamp),
                feedback,
            ),
            final(self).requests == old(self).requests,
    {
        let id = feedback.id.clone();
        let mut rest: Vec<UserFeedback> = Vec::new();
        std::mem::swap(&mut rest, &mut self.feedbacks);
        let mut kept = drop_id(rest, feedback.id.as_str());
        insert_in_time(&mut kept, feedback);
        self.feedbacks = kept;
        id
    }

    /// A copy of the feedback with id `id`.
    pub fn get_feedback(&self, id: &str) -> (r: Option<UserFeedback>)
        ensures
            match r {
                Some(f) => exists|i: int|
                    #[trigger] first_with_id(self.feedbacks@, id@, i) && feedback_view(f) == feedback_view(
                        self.feedbacks@[i],
                    ),
                None => forall|i: int| 0 <= i < self.feedbacks@.len() ==> #[trigger] self.feedbacks@[i].id@ != id@,
            },
    {
        let mut i: usize = 0;
        while i < self.feedbacks.len()
            invariant
                i <= self.feedbacks@.len(),
                forall|j: int| 0 <= j < i ==> #[trigger] self.feedbacks@[j].id@ != id@,
            decreases self.feedbacks@.len() - i,
        {
            if str_eq(self.feedbacks[i].id.as_str(), id) {
                let f = self.feedbacks[i].copy();
                assert(first_with_id(self.feedbacks@, id@, i as int));
                return Some(f);
            }
            i = i + 1;
        }
        None
    }

    /// Copies of the feedback given from `start_time` to `end_time`, each
    /// bound included where given, oldest first.
    pub fn get_history(&self, start_time: Option<i64>, end_time: Option<i64>) -> (r: Vec<UserFeedback>)
        ensures
            feedbacks_view(r@) == feedbacks_view(
                feedback_where(self.feedbacks@, |f: UserFeedback| in_range(f.timestamp, start_time, end_time)),
            ),
    {
        let mut mask: Vec<bool> = Vec::new();
        let mut i: usize = 0;
        while i < self.feedbacks.len()
            invariant
                i <= self.feedbacks@.len(),
                mask@.len() == i,
                forall|j: int| 0 <= j < i ==> mask@[j] == in_range(self.feedbacks@[j].timestamp, start_time, end_time),
            decreases self.feedbacks@.len() - i,
        {
            let t = self.feedbacks[i].timestamp;
            let after = match start_time {
                Some(s) => t >= s,
                None => true,
            };
            let before = match end_time {
                Some(e) => t <= e,
                None => true,
            };
            mask.push(after && before);
            i = i + 1;
        }
        assert(mask@ =~= Seq::new(
            self.feedbacks@.len(),
            |j: int| (|f: UserFeedback| in_range(f.timestamp, start_time, end_time))(self.feedbacks@[j]),
        ));
        copy_flagged(&self.feedbacks, &mask)
    }

    /// Copies of the feedback on `node_id`, oldest first.
    pub fn get_history_for_node(&self, node_id: &str) -> (r: Vec<UserFeedback>)
        ensures
            feedbacks_view(r@) == feedbacks_view(feedback_where(self.feedbacks@, |f: UserFeedback| f.node_id@ == node_id@)),
    {
        let mask = self.node_mask(node_id);
        copy_flagged(&self.feedbacks, &mask)
    }

    fn node_mask(&self, node_id: &str) -> (mask: Vec<bool>)
        ensures
            mask@ == Seq::new(self.feedbacks@.len(), |j: int| (|f: UserFeedback| f.node_id@ == node_id@)(self.feedbacks@[j])),
    {
        let mut mask: Vec<bool> = Vec::new();
        let mut i: usize = 0;
        while i < self.feedbacks.len()
            invariant
                i <= self.feedbacks@.len(),
                mask@.len() == i,
                forall|j: int| 0 <= j < i ==> mask@[j] == (self.feedbacks@[j].node_id@ == node_id@),
            decreases self.feedbacks@.len() - i,
        {
            mask.push(str_eq(self.feedbacks[i].node_id.as_str(), node_id));
            i = i + 1;
        }
        assert(mask@ =~= Seq::new(self.feedbacks@.len(), |j: int| (|f: UserFeedback| f.node_id@ == node_id@)(self.feedbacks@[j])));
        mask
    }

    /// Copies of the feedback of kind `feedback_type`, oldest first.
    pub fn get_history_by_type(&self, feedback_type: FeedbackType) -> (r: Vec<UserFeedback>)
        ensures
            feedbacks_view(r@) == feedbacks_view(
                feedback_where(self.feedbacks@, |f: UserFeedback| f.feedback_type == feedback_type),
            ),
    {
        let mut mask: Vec<bool> = Vec::new();
        let mut i: usize = 0;
        while i < self.feedbacks.len()
            invariant
                i <= self.feedbacks@.len(),
                mask@.len() == i,
                forall|j: int| 0 <= j < i ==> mask@[j] == (self.feedbacks@[j].feedback_type == feedback_type),
            decreases self.feedbacks@.len() - i,
        {
            mask.push(self.feedbacks[i].feedback_type == feedback_type);
            i = i + 1;
        }
        assert(mask@ =~= Seq::new(
            self.feedbacks@.len(),
            |j: int| (|f: UserFeedback| f.feedback_type == feedback_type)(self.feedbacks@[j]),
        ));
        copy_flagged(&self.feedbacks, &mask)
    }

    /// Sets the fields of the modification `feedback_id` on `state`;
    /// whether there was such a modification.
    pub fn apply_modification(&self, feedback_id: &str, state: &mut StateData) -> (r: Result<bool, crate::error::LangGraphError>)
        ensures
            r is Ok,
            r->Ok_0 == exists|i: int|
                #[trigger] first_with_id(self.feedbacks@, feedback_id@, i) && self.feedbacks@[i].modified_state is Some,
            r->Ok_0 ==> exists|i: int|
                #[trigger] first_with_id(self.feedbacks@, feedback_id@, i)
                    && self.feedbacks@[i].modified_state is Some
                    && state_model(*final(state)) == state_model(*old(state)).union_prefer_right(
                    state_model(self.feedbacks@[i].modified_state->0),
                ),
            !r->Ok_0 ==> *final(state) == *old(state),
    {
        match self.get_feedback(feedback_id) {
            Some(f) => match f.modified_state {
                Some(m) => {
                    let merged = merge_output(state, m, false);
                    *state = merged;
                    Ok(true)
                },
                None => Ok(false),
            },
            None => Ok(false),
        }
    }

    /// The counts of all feedback by kind.
    pub fn get_feedback_stats(&self) -> (s: FeedbackStats)
        ensures
            s.counts(Seq::new(self.feedbacks@.len(), |i: int| self.feedbacks@[i].feedback_type)),
    {
        let mut kinds: Vec<FeedbackType> = Vec::new();
        let mut i: usize = 0;
        while i < self.feedbacks.len()
            invariant
                i <= self.feedbacks@.len(),
                kinds@ == Seq::new(i as nat, |j: int| self.feedbacks@[j].feedback_type),
            decreases self.feedbacks@.len() - i,
        {
            kinds.push(self.feedbacks[i].feedback_type);
            i = i + 1;
            assert(kinds@ =~= Seq::new(i as nat, |j: int| self.feedbacks@[j].feedback_type));
        }
        FeedbackStats::of_kinds(kinds.as_slice())
    }

    /// The counts of the feedback on `node_id` by kind.
    pub fn get_node_feedback_stats(&self, node_id: &str) -> (s: FeedbackStats)
        ensures
            ({
                let f = feedback_where(self.feedbacks@, |f: UserFeedback| f.node_id@ == node_id@);
                s.counts(Seq::new(f.len(), |i: int| f[i].feedback_type))
            }),
    {
        let mine = self.get_history_for_node(node_id);
        let ghost f = feedback_where(self.feedbacks@, |f: UserFeedback| f.node_id@ == node_id@);
        let mut kinds: Vec<FeedbackType> = Vec::new();
        let mut i: usize = 0;
        while i < mine.len()
            invariant
                i <= mine@.len(),
                feedbacks_view(mine@) == feedbacks_view(f),
                kinds@ == Seq::new(i as nat, |j: int| f[j].feedback_type),
            decreases mine@.len() - i,
        {
            assert(feedbacks_view(mine@).len() == mine@.len());
            assert(feedbacks_view(f).len() == f.len());
            assert(feedbacks_view(mine@)[i as int] == feedback_view(mine@[i as int]));
            assert(feedbacks_view(f)[i as int] == feedback_view(f[i as int]));
            assert(feedback_view(mine@[i as int]).2 == feedback_view(f[i as int]).2);
            kinds.push(mine[i].feedback_type);
            i = i + 1;
            assert(kinds@ =~= Seq::new(i as nat, |j: int| f[j].feedback_type));
        }
        assert(feedbacks_view(mine@).len() == feedbacks_view(f).len());
        FeedbackStats::of_kinds(kinds.as_slice())
    }

    /// Makes a pending request for feedback on `node_id`, waiting
    /// `timeout` milliseconds; returns a copy of it. The caller arranges for
    /// `time_out_request` once the time is up.
    pub fn request_feedback(&mut self, node_id: &str, prompt: &str, timeout: u64) -> (r: FeedbackRequest)
        ensures
            final(self).requests@.len() == old(self).requests@.len() + 1,
            final(self).requests@.drop_last() == old(self).requests@,
            final(self).requests@.last().1 == FeedbackRequestStatus::Pending,
            final(self).requests@.last().0.id@ == r.id@,
            r.id@.len() == 36,
            r.node_id@ == node_id@,
            r.prompt@ == prompt@,
            r.timeout == timeout,
            final(self).feedbacks == old(self).feedbacks,
    {
        let request = FeedbackRequest {
            id: new_uuid_string(),
            node_id: node_id.to_owned(),
            prompt: prompt.to_owned(),
            timeout,
            created_at: crate::clock::now_millis(),
        };
        let copy = FeedbackRequest {
            id: request.id.clone(),
            node_id: request.node_id.clone(),
            prompt: request.prompt.clone(),
            timeout: request.timeout,
            created_at: request.created_at,
        };
        self.requests.push((request, FeedbackRequestStatus::Pending));
        assert(self.requests@.drop_last() =~= old(self).requests@);
        copy
    }

    /// Ends the request `request_id` as timed out, where it is still
    /// pending: its status becomes `TimedOut` and a timeout feedback on its
    /// node is recorded. Whether it was pending.
    pub fn time_out_request(&mut self, request_id: &str) -> (timed_out: bool)
        requires
            old(self).wf(),
        ensures
            final(self).wf(),
            timed_out == exists|i: int|
                0 <= i < old(self).requests@.len() && #[trigger] old(self).requests@[i].0.id@ == request_id@
                    && old(self).requests@[i].1 == FeedbackRequestStatus::Pending,
            timed_out ==> exists|i: int|
                0 <= i < old(self).requests@.len() && old(self).requests@[i].0.id@ == request_id@
                    && old(self).requests@[i].1 == FeedbackRequestStatus::Pending
                    && final(self).requests@.len() == old(self).requests@.len()
                    && final(self).requests@[i].0 == old(self).requests@[i].0
                    && final(self).requests@[i].1 == FeedbackRequestStatus::TimedOut
                    && exists|k: int|
                    0 <= k < final(self).feedbacks@.len() && (#[trigger] final(self).feedbacks@[k]).feedback_type
                        == FeedbackType::Timeout && final(self).feedbacks@[k].node_id@ == old(self).requests@[i].0.node_id@,
            !timed_out ==> final(self).requests == old(self).requests && final(self).feedbacks == old(self).feedbacks,
    {
        let mut i: usize = 0;
        while i < self.requests.len()
            invariant
                i <= self.requests@.len(),
                self.requests == old(self).requests,
                self.feedbacks == old(self).feedbacks,
                in_time_order(self.feedbacks@),
                forall|j: int| 0 <= j < i ==> !(#[trigger] self.requests@[j].0.id@ == request_id@ && self.requests@[j].1 == FeedbackRequestStatus::Pending),
            decreases self.requests@.len() - i,
        {
            if str_eq(self.requests[i].0.id.as_str(), request_id) && self.requests[i].1 == FeedbackRequestStatus::Pending {
                let (req, _) = self.requests.remove(i);
                let node = req.node_id.clone();
                self.requests.insert(i, (req, FeedbackRequestStatus::TimedOut));
                assert(self.requests@[i as int].0 == old(self).requests@[i as int].0);
                let mut comment = String::new();
                crate::text::push_str(&mut comment, "Request timed out");
                let fb = UserFeedback::new(node.as_str(), FeedbackType::Timeout, Some(comment));
                let ghost f = fb;
                self.submit_feedback(fb);
                proof {
                    let others = other_ids(old(self).feedbacks@, f.id@);
                    lemma_time_slot(others, f.timestamp);
                    let k = time_slot(others, f.timestamp);
                    assert(self.feedbacks@ == others.insert(k, f));
                    assert(self.feedbacks@[k] == f);
                }
                return true;
            }
            i = i + 1;
        }
        false
    }

    /// The status of the request `request_id`; `Cancelled` where there is none.
    pub fn get_request_status(&self, request_id: &str) -> (s: FeedbackRequestStatus)
        ensures
            (forall|j: int| 0 <= j < self.requests@.len() ==> #[trigger] self.requests@[j].0.id@ != request_id@)
                ==> s == FeedbackRequestStatus::Cancelled,
            (exists|j: int| 0 <= j < self.requests@.len() && #[trigger] self.requests@[j].0.id@ == request_id@)
                ==> exists|j: int|
                0 <= j < self.requests@.len() && self.requests@[j].0.id@ == request_id@
                    && (forall|k: int| 0 <= k < j ==> #[trigger] self.requests@[k].0.id@ != request_id@)
                    && s == self.requests@[j].1,
    {
        let mut i: usize = 0;
        while i < self.requests.len()
            invariant
                i <= self.requests@.len(),
                forall|j: int| 0 <= j < i ==> #[trigger] self.requests@[j].0.id@ != request_id@,
            decreases self.requests@.len() - i,
        {
            if str_eq(self.requests[i].0.id.as_str(), request_id) {
                return self.requests[i].1;
            }
            i = i + 1;
        }
        FeedbackRequestStatus::Cancelled
    }

    /// The ids of all feedback, oldest first.
    pub fn export_feedback(&self) -> (r: Result<Vec<String>, crate::error::LangGraphError>)
        ensures
            r is Ok,
            r->Ok_0@.len() == self.feedbacks@.len(),
            forall|i: int| 0 <= i < self.feedbacks@.len() ==> (#[trigger] r->Ok_0@[i])@ == self.feedbacks@[i].id@,
    {
        let mut ids: Vec<String> = Vec::new();
        let mut i: usize = 0;
        while i < self.feedbacks.len()
            invariant
                i <= self.feedbacks@.len(),
                ids@.len() == i,
                forall|j: int| 0 <= j < i ==> (#[trigger] ids@[j])@ == self.feedbacks@[j].id@,
            decreases self.feedbacks@.len() - i,
        {
            ids.push(self.feedbacks[i].id.clone());
            i = i + 1;
        }
        Ok(ids)
    }

    /// Forgets all feedback and requests.
    pub fn clear_all_feedback(&mut self)
        ensures
            final(self).wf(),
            final(self).feedbacks@.len() == 0,
            final(self).requests@.len() == 0,
    {
        self.feedbacks = Vec::new();
        self.requests = Vec::new();
    }

    /// Records, for each id, an approval on `persist_node` with the comment
    /// `Persisted feedback` under that id, given now.
    pub fn import_feedback(&mut self, feedback_ids: Vec<String>) -> (r: Result<(), crate::error::LangGraphError>)
        requires
            old(self).wf(),
        ensures
            r is Ok,
            final(self).wf(),
            final(self).requests == old(self).requests,
            feedback_ids@.len() > 0 ==> final(self).feedbacks@.len() > 0,
    {
        let mut i: usize = 0;
        while i < feedback_ids.len()
            invariant
                i <= feedback_ids@.len(),
                self.wf(),
                self.requests == old(self).requests,
                i > 0 ==> self.feedbacks@.len() > 0,
            decreases feedback_ids@.len() - i,
        {
            let mut comment = String::new();
            crate::text::push_str(&mut comment, "Persisted feedback");
            let mut fb = UserFeedback::new("persist_node", FeedbackType::Approval, Some(comment));
            fb.id = feedback_ids[i].clone();
            self.submit_feedback(fb);
            i = i + 1;
        }
        Ok(())
    }

    /// Copies of the feedback whose node, or whose comment, contains `query`,
    /// oldest first.
    pub fn search_feedback(&self, query: &str) -> (r: Vec<UserFeedback>)
        ensures
            feedbacks_view(r@) == feedbacks_view(feedback_where(self.feedbacks@, |f: UserFeedback| mentions(f, query@))),
    {
        let q = to_chars(query);
        let mut mask: Vec<bool> = Vec::new();
        let mut i: usize = 0;
        while i < self.feedbacks.len()
            invariant
                i <= self.feedbacks@.len(),
                q@ == query@,
                mask@.len() == i,
                forall|j: int| 0 <= j < i ==> mask@[j] == mentions(self.feedbacks@[j], query@),
            decreases self.feedbacks@.len() - i,
        {
            let f = &self.feedbacks[i];
            let in_node = contains_chars(to_chars(f.node_id.as_str()).as_slice(), q.as_slice());
            let in_comment = match &f.comment {
                Some(c) => contains_chars(to_chars(c.as_str()).as_slice(), q.as_slice()),
                None => false,
            };
            mask.push(in_node || in_comment);
            i = i + 1;
        }
        assert(mask@ =~= Seq::new(
            self.feedbacks@.len(),
            |j: int| (|f: UserFeedback| mentions(f, query@))(self.feedbacks@[j]),
        ));
        copy_flagged(&self.feedbacks, &mask)
    }

    /// Copies of the feedback that `filter` accepts, oldest first.
    pub fn search_with_filter<F: Fn(&UserFeedback) -> bool>(&self, filter: F) -> (r: Vec<UserFeedback>)
        requires
            forall|i: int| 0 <= i < self.feedbacks@.len() ==> call_requires(filter, (&#[trigger] self.feedbacks@[i],)),
        ensures
            exists|mask: Seq<bool>|
                mask.len() == self.feedbacks@.len()
                    && (forall|i: int| 0 <= i < mask.len() ==> call_ensures(filter, (&self.feedbacks@[i],), #[trigger] mask[i]))
                    && feedbacks_view(r@) == feedbacks_view(masked(self.feedbacks@, mask)),
    {
        let mut mask: Vec<bool> = Vec::new();
        let mut i: usize = 0;
        while i < self.feedbacks.len()
            invariant
                i <= self.feedbacks@.len(),
                mask@.len() == i,
                forall|j: int| 0 <= j < self.feedbacks@.len() ==> call_requires(filter, (&#[trigger] self.feedbacks@[j],)),
                forall|j: int| 0 <= j < i ==> call_ensures(filter, (&self.feedbacks@[j],), #[trigger] mask@[j]),
            decreases self.feedbacks@.len() - i,
        {
            let keep = filter(&self.feedbacks[i]);
            mask.push(keep);
            i = i + 1;
        }
        let r = copy_flagged(&self.feedbacks, &mask);
        assert(feedbacks_view(r@) == feedbacks_view(masked(self.feedbacks@, mask@)));
        r
    }
}

/// Whether `t` lies within the optional bounds, both included.
pub open spec fn in_range(t: i64, start: Option<i64>, end: Option<i64>) -> bool {
    &&& match start {
        Some(s) => t >= s,
        None => true,
    }
    &&& match end {
        Some(e) => t <= e,
        None => true,
    }
}

/// Whether the feedback's node, or its comment, contains `query`.
pub open spec fn mentions(f: UserFeedback, query: Seq<char>) -> bool {
    contains_seq(f.node_id@, query) || match f.comment {
        Some(c) => contains_seq(c@, query),
        None => false,
    }
}

/// The feedback without that of id `id`, in order.
fn drop_id(v: Vec<UserFeedback>, id: &str) -> (r: Vec<UserFeedback>)
    requires
        in_time_order(v@),
    ensures
        r@ == other_ids(v@, id@),
        in_time_order(r@),
{
    let mut mask: Vec<bool> = Vec::new();
    let mut i: usize = 0;
    while i < v.len()
        invariant
            i <= v@.len(),
            mask@.len() == i,
            forall|j: int| 0 <= j < i ==> mask@[j] == (v@[j].id@ != id@),
        decreases v@.len() - i,
    {
        mask.push(!str_eq(v[i].id.as_str(), id));
        i = i + 1;
    }
    let ghost old_v = v@;
    assert(mask@ =~= Seq::new(old_v.len(), |j: int| (|f: UserFeedback| f.id@ != id@)(old_v[j])));
    proof {
        lemma_masked_in_order(old_v, mask@);
    }
    take_flagged(v, &mask)
}

/// Puts `fb` after every entry given no later.
fn insert_in_time(v: &mut Vec<UserFeedback>, fb: UserFeedback)
    requires
        in_time_order(old(v)@),
    ensures
        final(v)@ == old(v)@.insert(time_slot(old(v)@, fb.timestamp), fb),
        in_time_order(final(v)@),
{
    let ghost others = v@;
    proof {
        lemma_time_slot(others, fb.timestamp);
    }
    let mut pos: usize = 0;
    assert(others.skip(0) =~= others);
    while pos < v.len() && v[pos].timestamp <= fb.timestamp
        invariant
            pos <= v@.len(),
            v@ == others,
            time_slot(others, fb.timestamp) == pos + time_slot(others.skip(pos as int), fb.timestamp),
        decreases v@.len() - pos,
    {
        assert(others.skip(pos as int)[0] == others[pos as int]);
        assert(others.skip(pos as int).drop_first() =~= others.skip(pos + 1));
        pos = pos + 1;
    }
    proof {
        if pos < others.len() {
            assert(others.skip(pos as int)[0] == others[pos as int]);
        }
    }
    let ghost f = fb;
    v.insert(pos, fb);
    proof {
        let t = v@;
        assert(t == others.insert(pos as int, f));
        assert forall|i: int, j: int| 0 <= i < j < t.len() implies (#[trigger] t[i]).timestamp <= (#[trigger] t[j]).timestamp by {
            if j < pos {
            } else if j == pos {
            } else if i < pos {
                assert(t[j] == others[j - 1]);
            } else if i == pos {
                assert(t[j] == others[j - 1]);
                assert(others[pos as int].timestamp > f.timestamp);
            } else {
                assert(t[i] == others[i - 1]);
                assert(t[j] == others[j - 1]);
            }
        }
    }
}

/// Moves out the elements whose flag is set, in order.
fn take_flagged(s: Vec<UserFeedback>, mask: &Vec<bool>) -> (r: Vec<UserFeedback>)
    requires
        mask@.len() == s@.len(),
    ensures
        r@ == masked(s@, mask@),
{
    let ghost orig = s@;
    let n = s.len();
    let mut rest = s;
    let mut r: Vec<UserFeedback> = Vec::new();
    let mut k: usize = 0;
    while rest.len() > 0
        invariant
            k <= orig.len(),
            orig.len() == n,
            mask@.len() == n,
            rest@ == orig.skip(k as int),
            r@ == masked(orig.take(k as int), mask@),
        decreases rest@.len(),
    {
        let x = rest.remove(0);
        assert(orig.take(k + 1).drop_last() =~= orig.take(k as int));
        assert(orig.take(k + 1).last() == orig[k as int]);
        assert(orig.skip(k + 1) =~= orig.skip(k as int).drop_first());
        if mask[k] {
            r.push(x);
        }
        k = k + 1;
    }
    assert(orig.take(k as int) =~= orig);
    r
}

} // verus!
