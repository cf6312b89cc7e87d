//! What a worker answers to the process that runs it.
use vstd::prelude::*;

verus! {

/// How a request went.
#[derive(Debug, PartialEq, Eq, Structural, Copy, Clone)]
pub enum ResponseStatus {
    Success,
    Processing,
    Failure,
}

/// A level of detail of the metrics, by its number.
#[derive(Debug, PartialEq, Eq, Structural, Copy, Clone)]
pub struct MetricDetailLevel(pub i32);

/// A change of the level of detail that a worker's metrics have.
#[derive(Debug)]
pub struct MetricDetailTransition {
    pub previous: MetricDetailLevel,
    pub effective: MetricDetailLevel,
    /// What brought it about.
    pub kind: &'static str,
    /// Whose lease brought it about, if it was one client's.
    pub client_id: Option<String>,
}

/// What an answer carries.
#[derive(Debug)]
pub enum ResponseContent {
    /// The level of detail of the worker's metrics.
    MetricDetailStatus {
        configured: MetricDetailLevel,
        effective: MetricDetailLevel,
        previous_effective: MetricDetailLevel,
        active_lease_count: u32,
    },
    /// The limit of connections per cluster and source.
    MaxConnectionsPerIpLimit(u64),
    /// The level of detail of the worker's metrics changed.
    MetricDetailChanged(MetricDetailTransition),
    /// Content that was put together elsewhere, by its number there.
    Provided(u64),
}

/// An answer to a request, or an event that nobody asked for.
#[derive(Debug)]
pub struct WorkerResponse {
    pub id: String,
    pub status: ResponseStatus,
    pub message: String,
    pub content: Option<ResponseContent>,
}

impl WorkerResponse {
    /// Whether this is the answer to `id` that it went well.
    pub open spec fn is_ok_for(self, id: Seq<char>) -> bool {
        self.id@ == id && self.status is Success && self.message@ == Seq::<char>::empty()
            && self.content is None
    }

    /// Whether this is the answer to `id` that it failed, for `reason`.
    pub open spec fn is_error_for(self, id: Seq<char>, reason: Seq<char>) -> bool {
        self.id@ == id && self.status is Failure && self.message@ == reason && self.content is None
    }

    /// Whether this is the answer to `id` with some content.
    pub open spec fn is_content_for(self, id: Seq<char>, content: ResponseContent) -> bool {
        self.id@ == id && self.status is Success && self.message@ == Seq::<char>::empty()
            && self.content == Some(content)
    }

    /// Whether this is the answer to `id` that it is being seen to.
    pub open spec fn is_processing_for(self, id: Seq<char>) -> bool {
        self.id@ == id && self.status is Processing && self.message@ == Seq::<char>::empty()
            && self.content is None
    }

    /// Whether this tells of an event.
    pub open spec fn is_processing_event(self, event: ResponseContent) -> bool {
        self.status is Processing && self.message@ == Seq::<char>::empty() && self.content == Some(
            event,
        )
    }

    /// The answer that a request went well.
    pub fn ok(id: &String) -> (r: WorkerResponse)
        ensures
            r.is_ok_for(id@),
    {
        WorkerResponse {
            id: id.clone(),
            status: ResponseStatus::Success,
            message: String::new(),
            content: None,
        }
    }

    /// The answer that a request went well, with content.
    pub fn ok_with_content(id: &String, content: ResponseContent) -> (r: WorkerResponse)
        ensures
            r.is_content_for(id@, content),
    {
        WorkerResponse {
            id: id.clone(),
            status: ResponseStatus::Success,
            message: String::new(),
            content: Some(content),
        }
    }

    /// The answer that a request is being seen to.
    pub fn processing(id: &String) -> (r: WorkerResponse)
        ensures
            r.is_processing_for(id@),
    {
        WorkerResponse {
            id: id.clone(),
            status: ResponseStatus::Processing,
            message: String::new(),
            content: None,
        }
    }

    /// The answer that a request failed.
    pub fn error(id: &String, reason: String) -> (r: WorkerResponse)
        ensures
            r.is_error_for(id@, reason@),
    {
        WorkerResponse {
            id: id.clone(),
            status: ResponseStatus::Failure,
            message: reason,
            content: None,
        }
    }

    /// Whether this is the answer that a request failed.
    pub fn is_failure(&self) -> (r: bool)
        ensures
            r == self.status is Failure,
    {
        self.status == ResponseStatus::Failure
    }
}

/// Adds an event, which nobody asked for, to `queue`.
pub fn push_event(queue: &mut Vec<WorkerResponse>, event: ResponseContent)
    ensures
        final(queue)@.len() == old(queue)@.len() + 1,
        final(queue)@.drop_last() == old(queue)@,
        final(queue)@.last().id@ == "EVENT"@,
        final(queue)@.last().is_processing_event(event),
{
    let ghost before = queue@;
    queue.push(
        WorkerResponse {
            id: String::from_str("EVENT"),
            status: ResponseStatus::Processing,
            message: String::new(),
            content: Some(event),
        },
    );
    assert(queue@.drop_last() =~= before);
}

/// Whether `event` tells of a change of the level of detail.
pub open spec fn is_transition_event(
    event: WorkerResponse,
    previous: MetricDetailLevel,
    effective: MetricDetailLevel,
    kind: Seq<char>,
    client_id: Option<String>,
) -> bool {
    &&& event.id@ == "EVENT"@
    &&& event.status is Processing
    &&& event.message@ == Seq::<char>::empty()
    &&& event.content matches Some(ResponseContent::MetricDetailChanged(t)) && t.previous
        == previous && t.effective == effective && t.kind@ == kind && t.client_id == client_id
}

/// Adds an event that tells of a change of the level of detail to `queue`,
/// unless nothing changed.
pub fn push_metric_detail_transition(
    queue: &mut Vec<WorkerResponse>,
    previous: MetricDetailLevel,
    effective: MetricDetailLevel,
    kind: &'static str,
    client_id: Option<String>,
)
    ensures
        previous == effective ==> final(queue)@ == old(queue)@,
        previous != effective ==> final(queue)@.len() == old(queue)@.len() + 1
            && final(queue)@.drop_last() == old(queue)@ && is_transition_event(
            final(queue)@.last(),
            previous,
            effective,
            kind@,
            client_id,
        ),
{
    if previous == effective {
        return ;
    }
    push_event(
        queue,
        ResponseContent::MetricDetailChanged(
            MetricDetailTransition { previous, effective, kind, client_id },
        ),
    );
}

/// The answer that stands for those of several proxies: the last failure, or
/// else the first answer.
pub open spec fn merged_response(
    responses: Seq<Option<WorkerResponse>>,
) -> Option<WorkerResponse>
    decreases responses.len(),
{
    if responses.len() == 0 {
        None
    } else {
        let before = merged_response(responses.drop_last());
        match responses.last() {
            Some(r) => if r.status is Failure || before is None {
                Some(r)
            } else {
                before
            },
            None => before,
        }
    }
}

fn merge_two(before: Option<WorkerResponse>, next: Option<WorkerResponse>) -> (r: Option<
    WorkerResponse,
>)
    ensures
        r == match next {
            Some(n) => if n.status is Failure || before is None {
                Some(n)
            } else {
                before
            },
            None => before,
        },
{
    match next {
        Some(n) => {
            if n.is_failure() || before.is_none() {
                Some(n)
            } else {
                before
            }
        },
        None => before,
    }
}

/// The answer that stands for those of the four proxies.
pub fn merge_responses(
    http: Option<WorkerResponse>,
    https: Option<WorkerResponse>,
    tcp: Option<WorkerResponse>,
    udp: Option<WorkerResponse>,
) -> (r: Option<WorkerResponse>)
    ensures
        r == merged_response(seq![http, https, tcp, udp]),
{
    proof {
        reveal_with_fuel(merged_response, 5);
        let all = seq![http, https, tcp, udp];
        assert(all.drop_last() =~= seq![http, https, tcp]);
        assert(all.drop_last().drop_last() =~= seq![http, https]);
        assert(all.drop_last().drop_last().drop_last() =~= seq![http]);
        assert(seq![http].drop_last() =~= Seq::<Option<WorkerResponse>>::empty());
    }
    let r = merge_two(None, http);
    let r = merge_two(r, https);
    let r = merge_two(r, tcp);
    merge_two(r, udp)
}

/// Whether there is an answer, and it is a failure.
pub open spec fn failed(response: Option<WorkerResponse>) -> bool {
    response matches Some(r) && r.status is Failure
}

/// If one of the proxies failed, the answer that stands for them all is a
/// failure; if none failed, it is not. There is one if any of them answered.
pub proof fn law_merged_failure(responses: Seq<Option<WorkerResponse>>)
    ensures
        failed(merged_response(responses)) <==> exists|i: int|
            0 <= i < responses.len() && failed(#[trigger] responses[i]),
        merged_response(responses) is Some <==> exists|i: int|
            0 <= i < responses.len() && (#[trigger] responses[i]) is Some,
    decreases responses.len(),
{
    if responses.len() > 0 {
        let front = responses.drop_last();
        let last = responses.len() - 1;
        law_merged_failure(front);
        assert forall|i: int| 0 <= i < last implies #[trigger] responses[i] == front[i] by {}
        assert(responses[last] == responses.last());
        if failed(merged_response(front)) {
            let i = choose|i: int| 0 <= i < front.len() && failed(#[trigger] front[i]);
            assert(failed(responses[i]));
        }
        if merged_response(front) is Some {
            let i = choose|i: int| 0 <= i < front.len() && (#[trigger] front[i]) is Some;
            assert(responses[i] is Some);
        }
        if exists|i: int| 0 <= i < responses.len() && failed(#[trigger] responses[i]) {
            let i = choose|i: int| 0 <= i < responses.len() && failed(#[trigger] responses[i]);
            if i < last {
                assert(failed(front[i]));
            }
        }
        if exists|i: int| 0 <= i < responses.len() && (#[trigger] responses[i]) is Some {
            let i = choose|i: int| 0 <= i < responses.len() && (#[trigger] responses[i]) is Some;
            if i < last {
                assert(front[i] is Some);
            }
        }
    }
}

/// The answer that stands for those of several proxies is the last failure, if
/// there is one; otherwise it is the first answer.
pub proof fn law_which_answer_stands_for_all(responses: Seq<Option<WorkerResponse>>, i: int)
    requires
        0 <= i < responses.len(),
        responses[i] is Some,
        if failed(responses[i]) {
            forall|j: int| i < j < responses.len() ==> !failed(#[trigger] responses[j])
        } else {
            &&& forall|j: int| 0 <= j < responses.len() ==> !failed(#[trigger] responses[j])
            &&& forall|j: int| 0 <= j < i ==> (#[trigger] responses[j]) is None
        },
    ensures
        merged_response(responses) == responses[i],
    decreases responses.len(),
{
    let front = responses.drop_last();
    let last = responses.len() - 1;
    assert forall|j: int| 0 <= j < last implies #[trigger] front[j] == responses[j] by {}
    law_merged_failure(front);
    if i < last {
        assert(!failed(responses[last]));
        law_which_answer_stands_for_all(front, i);
    } else {
        if !failed(responses[i]) {
            assert(merged_response(front) is None) by {
                if merged_response(front) is Some {
                    let j = choose|j: int| 0 <= j < front.len() && (#[trigger] front[j]) is Some;
                    assert(responses[j] is None);
                }
            }
        }
    }
}

/// Every answer bears the number of its request. One that tells of success has no
/// message, one of failure says why and has no content, and one that is still
/// worked on has neither.
pub proof fn law_what_an_answer_says(response: WorkerResponse, id: Seq<char>, reason: Seq<char>)
    ensures
        response.is_ok_for(id) <==> response.id@ == id && response.status is Success
            && response.message@.len() == 0 && response.content is None,
        response.is_error_for(id, reason) <==> response.id@ == id && response.status is Failure
            && response.message@ == reason && response.content is None,
        response.is_processing_for(id) <==> response.id@ == id && response.status is Processing
            && response.message@.len() == 0 && response.content is None,
        forall|content: ResponseContent| #[trigger]
            response.is_content_for(id, content) <==> response.id@ == id
                && response.status is Success && response.message@.len() == 0 && response.content
                == Some(content),
        forall|event: ResponseContent| #[trigger]
            response.is_processing_event(event) <==> response.status is Processing
                && response.message@.len() == 0 && response.content == Some(event),
{
    assert(response.message@.len() == 0 ==> response.message@ =~= Seq::<char>::empty());
}

/// An event that tells of a change of detail names the level before and the level
/// after, why it changed, and for whom.
pub proof fn law_what_a_change_of_detail_says(
    event: WorkerResponse,
    previous: MetricDetailLevel,
    effective: MetricDetailLevel,
    kind: Seq<char>,
    client_id: Option<String>,
)
    requires
        is_transition_event(event, previous, effective, kind, client_id),
    ensures
        event.status is Processing,
        event.id@ == "EVENT"@,
        event.message@.len() == 0,
        event.content matches Some(ResponseContent::MetricDetailChanged(t)) && t.previous
            == previous && t.effective == effective && t.kind@ == kind && t.client_id
            == client_id,
{
}

} // verus!
