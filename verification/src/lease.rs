//! Leases on the level of detail of the worker's metrics: a client may raise it
//! for a while, and take that back.
use vstd::prelude::*;

use crate::message::{
    push_metric_detail_transition, MetricDetailLevel, ResponseContent, WorkerResponse,
};
use crate::message;
use crate::text;

verus! {

/// The bounds on leases.
#[derive(Copy, Clone, Debug)]
pub struct LeaseLimits {
    /// How many bytes the name of a client may take.
    pub client_id_max_bytes: usize,
    /// How long a lease may last.
    pub ttl_max_seconds: u64,
    /// How long a lease lasts that does not say so.
    pub ttl_default_seconds: u64,
    /// How many leases there may be.
    pub table_cap: usize,
}

/// Who asked for a lease, as far as it is known: only they may take it back.
#[derive(Copy, Clone, Debug, PartialEq, Eq, Structural)]
pub struct PeerBinding {
    pub pid: Option<i32>,
    pub session_ulid: Option<u128>,
}

/// A level of detail as a request gives it.
#[derive(Copy, Clone, Debug, PartialEq, Eq, Structural)]
pub enum RequestedDetail {
    Level(MetricDetailLevel),
    /// A number that stands for no level.
    Unknown(i32),
}

/// A request to take, renew or take back a lease.
#[derive(Debug)]
pub struct SetMetricDetail {
    pub client_id: String,
    pub detail: Option<RequestedDetail>,
    pub ttl_seconds: Option<u32>,
    pub clear: Option<bool>,
    pub peer_pid: Option<i32>,
    pub peer_session_ulid: Option<String>,
}

/// What a request about a lease leads to.
#[derive(Debug)]
pub enum LeaseStep {
    /// It is refused, for a reason.
    Refuse(String),
    /// The lease is to be taken back.
    Clear(PeerBinding),
    /// The lease is to be taken, or renewed.
    Apply { level: MetricDetailLevel, ttl_seconds: u32, binding: PeerBinding },
}

/// How taking a lease back went.
#[derive(Copy, Clone, Debug)]
pub enum LeaseClearOutcome {
    Cleared { previous_effective: MetricDetailLevel },
    NotFound,
    Unauthorized,
}

/// How taking a lease went.
#[derive(Copy, Clone, Debug)]
pub enum LeaseApplyOutcome {
    Applied { previous_effective: MetricDetailLevel, new_effective: MetricDetailLevel },
    ClientIdTooLong,
    TableFull,
    TtlOutOfRange,
    Unauthorized,
}

/// What `rusty_ulid::Ulid::from_str` reads out of a text, as one number.
pub uninterp spec fn ulid_number(text: Seq<char>) -> Option<u128>;

/// Calls `rusty_ulid::Ulid::from_str`, and turns the result into a number with
/// `u128::from`. What is read depends on the text alone.
#[verifier::external_body]
fn parse_ulid(text: &str) -> (number: Option<u128>)
    ensures
        number == ulid_number(text@),
{
    <rusty_ulid::Ulid as std::str::FromStr>::from_str(text).map(u128::from).ok()
}

/// The session that a text names: the ULID that it spells or else the
/// hexadecimal number.
pub open spec fn session_named(ulid: Option<u128>, text: Seq<char>) -> Option<u128> {
    match ulid {
        Some(number) => Some(number),
        None => text::hex_u128(text::without_hex_prefix(text)),
    }
}

/// The session that a text names, given the ULID that it spells, if it does.
pub fn named_session(ulid: Option<u128>, name: &String) -> (session: Option<u128>)
    ensures
        session == session_named(ulid, name@),
{
    match ulid {
        Some(number) => Some(number),
        None => text::parse_hex(name.as_str()),
    }
}

impl SetMetricDetail {
    /// Who asks.
    pub open spec fn binding(self) -> PeerBinding {
        PeerBinding {
            pid: self.peer_pid,
            session_ulid: match self.peer_session_ulid {
                Some(name) => session_named(ulid_number(name@), name@),
                None => None,
            },
        }
    }

    /// Whether a lease is to be taken back.
    pub open spec fn clears(self) -> bool {
        self.clear == Some(true)
    }

    /// How long the lease is to last.
    pub open spec fn ttl(self, limits: LeaseLimits) -> u32 {
        match self.ttl_seconds {
            Some(t) if t > 0 => t,
            _ => if limits.ttl_default_seconds <= u32::MAX {
                limits.ttl_default_seconds as u32
            } else {
                60
            },
        }
    }

    /// Why the request is refused, if it is.
    pub open spec fn refusal(self, limits: LeaseLimits) -> Option<Seq<char>> {
        if self.clears() {
            if text::byte_len(self.client_id@) > limits.client_id_max_bytes {
                Some(
                    "SetMetricDetail: clear client_id length "@ + text::decimal_text(
                        text::byte_len(self.client_id@) as int,
                    ) + " exceeds "@ + text::decimal_text(limits.client_id_max_bytes as int)
                        + " bytes"@,
                )
            } else {
                None
            }
        } else {
            match self.detail {
                None => Some("SetMetricDetail without `detail` and without `clear`"@),
                Some(RequestedDetail::Unknown(n)) => Some(
                    "SetMetricDetail: invalid MetricDetail variant "@ + text::signed_decimal_text(
                        n as int,
                    ),
                ),
                Some(RequestedDetail::Level(_)) => match self.ttl_seconds {
                    Some(t) if t > limits.ttl_max_seconds => Some(
                        "SetMetricDetail: ttl_seconds="@ + text::decimal_text(t as int)
                            + " exceeds LEASE_TTL_MAX="@ + text::decimal_text(
                            limits.ttl_max_seconds as int,
                        ),
                    ),
                    _ => None,
                },
            }
        }
    }

    fn peer_binding(&self) -> (binding: PeerBinding)
        ensures
            binding == self.binding(),
    {
        let session_ulid = match &self.peer_session_ulid {
            Some(name) => named_session(parse_ulid(name.as_str()), name),
            None => None,
        };
        PeerBinding { pid: self.peer_pid, session_ulid }
    }

    /// What the request leads to. A lease is never taken for longer than the
    /// limit, and none is looked up under a name that is too long.
    pub fn step(&self, limits: LeaseLimits) -> (step: LeaseStep)
        ensures
            step is Refuse <==> self.refusal(limits) is Some,
            step matches LeaseStep::Refuse(reason) ==> Some(reason@) == self.refusal(limits),
            step is Clear <==> self.clears() && self.refusal(limits) is None,
            step matches LeaseStep::Clear(binding) ==> binding == self.binding(),
            step matches LeaseStep::Apply { level, ttl_seconds, binding } ==> self.detail == Some(
                RequestedDetail::Level(level),
            ) && ttl_seconds == self.ttl(limits) && binding == self.binding(),
    {
        let binding = self.peer_binding();
        let clears = match self.clear {
            Some(clear) => clear,
            None => false,
        };
        if clears {
            let length: usize = self.client_id.as_str().len();
            if length > limits.client_id_max_bytes {
                let mut reason = text::concat3(
                    "SetMetricDetail: clear client_id length ",
                    text::decimal(length as u64).as_str(),
                    " exceeds ",
                );
                reason.append(text::decimal(limits.client_id_max_bytes as u64).as_str());
                reason.append(" bytes");
                return LeaseStep::Refuse(reason);
            }
            return LeaseStep::Clear(binding);
        }
        let level = match self.detail {
            None => {
                return LeaseStep::Refuse(
                    String::from_str("SetMetricDetail without `detail` and without `clear`"),
                );
            },
            Some(RequestedDetail::Unknown(n)) => {
                return LeaseStep::Refuse(
                    text::concat2(
                        "SetMetricDetail: invalid MetricDetail variant ",
                        text::signed_decimal(n).as_str(),
                    ),
                );
            },
            Some(RequestedDetail::Level(level)) => level,
        };
        let default: u32 = if limits.ttl_default_seconds <= u32::MAX as u64 {
            limits.ttl_default_seconds as u32
        } else {
            60
        };
        let ttl_seconds: u32 = match self.ttl_seconds {
            Some(t) => {
                if t as u64 > limits.ttl_max_seconds {
                    let mut reason = text::concat3(
                        "SetMetricDetail: ttl_seconds=",
                        text::decimal(t as u64).as_str(),
                        " exceeds LEASE_TTL_MAX=",
                    );
                    reason.append(text::decimal(limits.ttl_max_seconds).as_str());
                    return LeaseStep::Refuse(reason);
                }
                if t > 0 {
                    t
                } else {
                    default
                }
            },
            None => default,
        };
        LeaseStep::Apply { level, ttl_seconds, binding }
    }
}

/// The level of detail of the worker's metrics, as an answer tells it.
pub open spec fn detail_status(
    configured: MetricDetailLevel,
    effective: MetricDetailLevel,
    previous_effective: MetricDetailLevel,
    active_lease_count: u32,
) -> ResponseContent {
    ResponseContent::MetricDetailStatus {
        configured,
        effective,
        previous_effective,
        active_lease_count,
    }
}

/// Whether `after` is `before` with the answer to a lease behind it and, in
/// front of the answer, the event that tells of the change of the level of
/// detail, if it changed.
pub open spec fn answered_with_transition(
    before: Seq<WorkerResponse>,
    after: Seq<WorkerResponse>,
    previous: MetricDetailLevel,
    effective: MetricDetailLevel,
    kind: Seq<char>,
    client_id: Option<String>,
    id: Seq<char>,
    content: ResponseContent,
) -> bool {
    &&& after.len() == before.len() + (if previous == effective {
        1int
    } else {
        2int
    })
    &&& after.take(before.len() as int) == before
    &&& after.last().is_content_for(id, content)
    &&& previous != effective ==> message::is_transition_event(
        after[before.len() as int],
        previous,
        effective,
        kind,
        client_id,
    )
}

fn push_with_transition(
    queue: &mut Vec<WorkerResponse>,
    previous: MetricDetailLevel,
    effective: MetricDetailLevel,
    kind: &'static str,
    client_id: Option<String>,
    id: &String,
    content: ResponseContent,
)
    ensures
        answered_with_transition(
            old(queue)@,
            final(queue)@,
            previous,
            effective,
            kind@,
            client_id,
            id@,
            content,
        ),
{
    let ghost before = queue@;
    push_metric_detail_transition(queue, previous, effective, kind, client_id);
    let ghost middle = queue@;
    assert(previous != effective ==> middle[before.len() as int] == middle.last());
    queue.push(WorkerResponse::ok_with_content(id, content));
    assert(queue@.take(before.len() as int) =~= before) by {
        if previous != effective {
            assert(middle.drop_last() == before);
            assert forall|i: int| 0 <= i < before.len() implies #[trigger] queue@[i]
                == before[i] by {
                assert(middle.drop_last()[i] == before[i]);
            }
        }
    }
}

/// Adds what a lease that was to be taken back leads to. The levels and the
/// number of leases are those after it.
pub fn push_lease_cleared(
    queue: &mut Vec<WorkerResponse>,
    id: &String,
    client_id: &String,
    outcome: LeaseClearOutcome,
    configured: MetricDetailLevel,
    effective: MetricDetailLevel,
    lease_count: u32,
)
    ensures
        match outcome {
            LeaseClearOutcome::Cleared { previous_effective } => answered_with_transition(
                old(queue)@,
                final(queue)@,
                previous_effective,
                effective,
                "lease_clear"@,
                Some(*client_id),
                id@,
                detail_status(configured, effective, previous_effective, lease_count),
            ),
            LeaseClearOutcome::NotFound => final(queue)@.len() == old(queue)@.len() + 1
                && final(queue)@.drop_last() == old(queue)@ && final(queue)@.last().is_content_for(
                id@,
                detail_status(configured, effective, effective, lease_count),
            ),
            LeaseClearOutcome::Unauthorized => final(queue)@.len() == old(queue)@.len() + 1
                && final(queue)@.drop_last() == old(queue)@ && final(queue)@.last().is_error_for(
                id@,
                "SetMetricDetail: clear refused (peer binding does not match the apply-time owner)"@,
            ),
        },
{
    let ghost before = queue@;
    match outcome {
        LeaseClearOutcome::Cleared { previous_effective } => {
            push_with_transition(
                queue,
                previous_effective,
                effective,
                "lease_clear",
                Some(client_id.clone()),
                id,
                ResponseContent::MetricDetailStatus {
                    configured,
                    effective,
                    previous_effective,
                    active_lease_count: lease_count,
                },
            );
        },
        LeaseClearOutcome::NotFound => {
            queue.push(
                WorkerResponse::ok_with_content(
                    id,
                    ResponseContent::MetricDetailStatus {
                        configured,
                        effective,
                        previous_effective: effective,
                        active_lease_count: lease_count,
                    },
                ),
            );
            assert(queue@.drop_last() =~= before);
        },
        LeaseClearOutcome::Unauthorized => {
            queue.push(
                WorkerResponse::error(
                    id,
                    String::from_str(
                        "SetMetricDetail: clear refused (peer binding does not match the apply-time owner)",
                    ),
                ),
            );
            assert(queue@.drop_last() =~= before);
        },
    }
}

/// Why a lease was not taken, if it was not.
pub open spec fn apply_refusal(
    client_id: Seq<char>,
    limits: LeaseLimits,
    outcome: LeaseApplyOutcome,
) -> Option<Seq<char>> {
    match outcome {
        LeaseApplyOutcome::Applied { .. } => None,
        LeaseApplyOutcome::ClientIdTooLong => Some(
            "SetMetricDetail: client_id length "@ + text::decimal_text(
                text::byte_len(client_id) as int,
            ) + " exceeds "@ + text::decimal_text(limits.client_id_max_bytes as int) + " bytes"@,
        ),
        LeaseApplyOutcome::TableFull => Some(
            "SetMetricDetail: lease table at capacity ("@ + text::decimal_text(
                limits.table_cap as int,
            )
                + " entries); reject new apply — operators must retry after an active lease expires or is cleared"@,
        ),
        LeaseApplyOutcome::TtlOutOfRange => Some(
            "SetMetricDetail: ttl exceeds LEASE_TTL_MAX="@ + text::decimal_text(
                limits.ttl_max_seconds as int,
            ) + " (internal contract violation: dispatch gate should have rejected)"@,
        ),
        LeaseApplyOutcome::Unauthorized => Some(
            "SetMetricDetail: renewal refused (peer binding does not match the apply-time owner)"@,
        ),
    }
}

/// Adds what a lease that was to be taken leads to. The level that is
/// configured and the number of leases are those after it.
pub fn push_lease_applied(
    queue: &mut Vec<WorkerResponse>,
    id: &String,
    client_id: &String,
    limits: LeaseLimits,
    outcome: LeaseApplyOutcome,
    configured: MetricDetailLevel,
    lease_count: u32,
)
    ensures
        match outcome {
            LeaseApplyOutcome::Applied {
                previous_effective,
                new_effective,
            } => answered_with_transition(
                old(queue)@,
                final(queue)@,
                previous_effective,
                new_effective,
                "lease_apply"@,
                Some(*client_id),
                id@,
                detail_status(configured, new_effective, previous_effective, lease_count),
            ),
            _ => final(queue)@.len() == old(queue)@.len() + 1 && final(queue)@.drop_last() == old(
                queue,
            )@ && final(queue)@.last().is_error_for(
                id@,
                apply_refusal(client_id@, limits, outcome)->0,
            ),
        },
{
    let ghost before = queue@;
    let reason = match outcome {
        LeaseApplyOutcome::Applied { previous_effective, new_effective } => {
            push_with_transition(
                queue,
                previous_effective,
                new_effective,
                "lease_apply",
                Some(client_id.clone()),
                id,
                ResponseContent::MetricDetailStatus {
                    configured,
                    effective: new_effective,
                    previous_effective,
                    active_lease_count: lease_count,
                },
            );
            return ;
        },
        LeaseApplyOutcome::ClientIdTooLong => {
            let length: usize = client_id.as_str().len();
            let mut reason = text::concat3(
                "SetMetricDetail: client_id length ",
                text::decimal(length as u64).as_str(),
                " exceeds ",
            );
            reason.append(text::decimal(limits.client_id_max_bytes as u64).as_str());
            reason.append(" bytes");
            reason
        },
        LeaseApplyOutcome::TableFull => text::concat3(
            "SetMetricDetail: lease table at capacity (",
            text::decimal(limits.table_cap as u64).as_str(),
            " entries); reject new apply — operators must retry after an active lease expires or is cleared",
        ),
        LeaseApplyOutcome::TtlOutOfRange => text::concat3(
            "SetMetricDetail: ttl exceeds LEASE_TTL_MAX=",
            text::decimal(limits.ttl_max_seconds).as_str(),
            " (internal contract violation: dispatch gate should have rejected)",
        ),
        LeaseApplyOutcome::Unauthorized => String::from_str(
            "SetMetricDetail: renewal refused (peer binding does not match the apply-time owner)",
        ),
    };
    queue.push(WorkerResponse::error(id, reason));
    assert(queue@.drop_last() =~= before);
}

/// No lease lasts longer than the limit, where the lease that does not say how
/// long it is to last does not either.
pub proof fn law_leases_are_bounded(request: SetMetricDetail, limits: LeaseLimits)
    requires
        !request.clears(),
        request.refusal(limits) is None,
        limits.ttl_default_seconds <= limits.ttl_max_seconds,
        limits.ttl_default_seconds <= u32::MAX,
    ensures
        request.ttl(limits) <= limits.ttl_max_seconds,
{
}

/// The reason for a refusal never repeats what the client sent as its name: two
/// names of the same length are refused in the same words.
pub proof fn law_refusals_do_not_repeat_the_client(
    a: SetMetricDetail,
    b: SetMetricDetail,
    limits: LeaseLimits,
    outcome: LeaseApplyOutcome,
)
    requires
        text::byte_len(a.client_id@) == text::byte_len(b.client_id@),
        a.detail == b.detail,
        a.ttl_seconds == b.ttl_seconds,
        a.clear == b.clear,
    ensures
        a.refusal(limits) == b.refusal(limits),
        apply_refusal(a.client_id@, limits, outcome) == apply_refusal(
            b.client_id@,
            limits,
            outcome,
        ),
{
}

/// A lease is refused if and only if it asks for no detail, for one that there is
/// not, or for longer than the limit; giving one back, if and only if the name of
/// its client is too long.
pub proof fn law_what_a_lease_is_refused_for(request: SetMetricDetail, limits: LeaseLimits)
    ensures
        request.clears() <==> request.clear is Some && request.clear->0,
        request.clears() ==> (request.refusal(limits) is Some <==> text::byte_len(
            request.client_id@,
        ) > limits.client_id_max_bytes),
        !request.clears() ==> (request.refusal(limits) is Some <==> match request.detail {
            None => true,
            Some(RequestedDetail::Unknown(_)) => true,
            Some(RequestedDetail::Level(_)) => request.ttl_seconds is Some
                && request.ttl_seconds->0 > limits.ttl_max_seconds,
        }),
{
}

/// A lease lasts as long as it asks for, or else as long as a lease lasts that
/// does not say; asking for no time at all is not to say.
pub proof fn law_how_long_a_lease_lasts(request: SetMetricDetail, limits: LeaseLimits)
    ensures
        request.ttl_seconds is Some && request.ttl_seconds->0 > 0 ==> request.ttl(limits)
            == request.ttl_seconds->0,
        (request.ttl_seconds is None || request.ttl_seconds->0 == 0)
            && limits.ttl_default_seconds <= u32::MAX ==> request.ttl(limits)
            == limits.ttl_default_seconds,
        (request.ttl_seconds is None || request.ttl_seconds->0 == 0)
            && limits.ttl_default_seconds > u32::MAX ==> request.ttl(limits) == 60,
{
}

/// A lease is bound to the process and the session that asked for it. The session
/// is named in either of two forms, of which the first is preferred; one that is
/// not named is no session.
pub proof fn law_whom_a_lease_is_bound_to(request: SetMetricDetail)
    ensures
        request.binding().pid == request.peer_pid,
        request.peer_session_ulid is None ==> request.binding().session_ulid is None,
        request.peer_session_ulid matches Some(name) ==> {
            &&& ulid_number(name@) is Some ==> request.binding().session_ulid == ulid_number(
                name@,
            )
            &&& ulid_number(name@) is None ==> request.binding().session_ulid == text::hex_u128(
                text::without_hex_prefix(name@),
            )
        },
{
}

/// The answer on a lease tells the level that is configured, the one in effect,
/// the one before, and how many leases there are, each in its place.
pub proof fn law_what_the_answer_on_a_lease_tells(
    configured: MetricDetailLevel,
    effective: MetricDetailLevel,
    previous: MetricDetailLevel,
    count: u32,
)
    ensures
        detail_status(configured, effective, previous, count)
            matches ResponseContent::MetricDetailStatus {
            configured: c,
            effective: e,
            previous_effective: p,
            active_lease_count: n,
        } && c == configured && e == effective && p == previous && n == count,
{
}

/// A lease that changes the level in effect is told of by an event before its
/// answer, and any other by its answer alone. Earlier answers stay.
pub proof fn law_a_change_is_told_before_the_answer(
    before: Seq<WorkerResponse>,
    after: Seq<WorkerResponse>,
    previous: MetricDetailLevel,
    effective: MetricDetailLevel,
    kind: Seq<char>,
    client_id: Option<String>,
    id: Seq<char>,
    content: ResponseContent,
)
    requires
        answered_with_transition(before, after, previous, effective, kind, client_id, id, content),
    ensures
        forall|i: int| 0 <= i < before.len() ==> #[trigger] after[i] == before[i],
        after.last().is_content_for(id, content),
        previous == effective ==> after.len() == before.len() + 1,
        previous != effective ==> after.len() == before.len() + 2 && message::is_transition_event(
            after[after.len() - 2],
            previous,
            effective,
            kind,
            client_id,
        ),
{
    assert forall|i: int| 0 <= i < before.len() implies #[trigger] after[i] == before[i] by {
        assert(after.take(before.len() as int)[i] == after[i]);
    }
}

/// A lease that was applied is not refused, and every other outcome is, each in
/// words of its own.
pub proof fn law_every_other_outcome_is_a_refusal(
    client_id: Seq<char>,
    limits: LeaseLimits,
    outcome: LeaseApplyOutcome,
)
    ensures
        apply_refusal(client_id, limits, outcome) is None <==> outcome is Applied,
        outcome is Unauthorized ==> apply_refusal(client_id, limits, outcome) == Some(
            "SetMetricDetail: renewal refused (peer binding does not match the apply-time owner)"@,
        ),
{
}

/// The session that a text names is the one that it says in full, if it does, and
/// else the one that it says in hexadecimal digits; prefixes make no difference.
pub proof fn law_which_session_a_text_names(ulid: Option<u128>, text: Seq<char>)
    ensures
        ulid is Some ==> session_named(ulid, text) == ulid,
        ulid is None && (text.len() < 2 || text[0] != '0' || text[1] != 'x') ==> session_named(
            ulid,
            text,
        ) == text::hex_u128(text),
        session_named(ulid, seq!['0', 'x'] + text) == session_named(ulid, text),
{
    text::law_the_prefix_is_left_out(text);
}

} // verus!
