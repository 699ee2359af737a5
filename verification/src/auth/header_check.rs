//! The differential check that decides whether a server honours header auth
//! after `rest/valid_login` proved only the query parameter.
//!
//! `rest/user?names=<login>` is asked with the header, without credentials,
//! and with the query parameter, and then once more without credentials.
//! Header auth is confirmed only when both credentialed answers are accepted,
//! the header answer differs from the anonymous one and equals the
//! query-parameter one, and the anonymous answer repeats. Bodies are compared
//! as parsed JSON (text that is not JSON as text); a status gates a leg but
//! is never part of the compared value.

use vstd::prelude::*;

use crate::auth::probe::is_success;
use crate::json::{find_member, json_eq, json_equal, member, JsonValue};

verus! {

/// A leg's body: parsed JSON, or the raw text when it is not JSON.
#[derive(Debug)]
pub enum ProbeBody {
    Json(JsonValue),
    Text(String),
}

/// Equality of bodies: JSON against JSON as values, text against text; a
/// parsed body never equals a text one.
pub open spec fn probe_body_eq(a: ProbeBody, b: ProbeBody) -> bool {
    match (a, b) {
        (ProbeBody::Json(x), ProbeBody::Json(y)) => json_eq(x, y),
        (ProbeBody::Text(x), ProbeBody::Text(y)) => x@ == y@,
        _ => false,
    }
}

pub fn probe_body_equal(a: &ProbeBody, b: &ProbeBody) -> (r: bool)
    ensures
        r == probe_body_eq(*a, *b),
{
    match (a, b) {
        (ProbeBody::Json(x), ProbeBody::Json(y)) => json_equal(x, y),
        (ProbeBody::Text(x), ProbeBody::Text(y)) => *x == *y,
        _ => false,
    }
}

/// Whether a body carries a Bugzilla error: a JSON object whose `error` is
/// present and neither `false` nor `null`.
pub open spec fn body_carries_error(b: ProbeBody) -> bool {
    match b {
        ProbeBody::Json(JsonValue::Object(m)) => match member(*m, "error"@) {
            Some(e) => !(e == JsonValue::Bool(false) || e == JsonValue::Null),
            None => false,
        },
        _ => false,
    }
}

impl ProbeBody {
    pub fn carries_error(&self) -> (r: bool)
        ensures
            r == body_carries_error(*self),
    {
        match self {
            ProbeBody::Json(JsonValue::Object(m)) => match find_member(m, "error") {
                Some(JsonValue::Bool(false)) => false,
                Some(JsonValue::Null) => false,
                Some(_) => true,
                None => false,
            },
            _ => false,
        }
    }
}

/// A leg's answer, reduced to what the decision needs.
pub struct ProbeLeg {
    pub status: u16,
    pub body: ProbeBody,
}

/// Whether a credentialed leg shows the credential accepted: a 2xx whose
/// body carries no error.
pub open spec fn accepted(l: ProbeLeg) -> bool {
    is_success(l.status) && !body_carries_error(l.body)
}

impl ProbeLeg {
    pub fn credential_accepted(&self) -> (r: bool)
        ensures
            r == accepted(*self),
    {
        200 <= self.status && self.status <= 299 && !self.body.carries_error()
    }
}

/// Whether a status says anything about authentication: a 2xx, 401 or 403.
pub open spec fn conclusive(status: u16) -> bool {
    is_success(status) || status == 401 || status == 403
}

pub fn leg_status_is_conclusive(status: u16) -> (r: bool)
    ensures
        r == conclusive(status),
{
    (200 <= status && status <= 299) || status == 401 || status == 403
}

/// A leg as the caller read it: the request or the read of its body
/// failed, or a status arrived with a body.
pub enum LegReading {
    Failed,
    Received { status: u16, body: ProbeBody },
}

/// The leg a reading stands for: none when it failed or its status is
/// inconclusive.
pub open spec fn leg_of(r: LegReading) -> Option<ProbeLeg> {
    match r {
        LegReading::Failed => None,
        LegReading::Received { status, body } => if conclusive(status) {
            Some(ProbeLeg { status, body })
        } else {
            None
        },
    }
}

/// The legs, in the order they are sent.
#[derive(Debug)]
pub enum HeaderLeg {
    Header,
    Anonymous,
    QueryParam,
    AnonymousRecheck,
}

/// What the caller does next: send a leg, or take the verdict.
#[derive(Debug)]
pub enum HeaderCheckStep {
    Send(HeaderLeg),
    Conclude(bool),
}

/// The check's progress: the leg awaited, and the header and anonymous
/// legs kept for comparison.
pub struct HeaderCheck {
    pub awaiting: HeaderLeg,
    pub header: Option<ProbeLeg>,
    pub anonymous: Option<ProbeLeg>,
}

impl HeaderCheck {
    pub open spec fn wf(self) -> bool {
        match self.awaiting {
            HeaderLeg::Header => true,
            HeaderLeg::Anonymous => self.header is Some,
            _ => self.header is Some && self.anonymous is Some,
        }
    }
}

/// One step of the check.
pub open spec fn check_step(s: HeaderCheck, r: LegReading) -> (HeaderCheck, HeaderCheckStep) {
    let stop = (s, HeaderCheckStep::Conclude(false));
    match leg_of(r) {
        None => stop,
        Some(leg) => match s.awaiting {
            HeaderLeg::Header => if accepted(leg) {
                (
                    HeaderCheck { awaiting: HeaderLeg::Anonymous, header: Some(leg), anonymous: s.anonymous },
                    HeaderCheckStep::Send(HeaderLeg::Anonymous),
                )
            } else {
                stop
            },
            HeaderLeg::Anonymous => if probe_body_eq(leg.body, s.header->0.body) {
                stop
            } else {
                (
                    HeaderCheck { awaiting: HeaderLeg::QueryParam, header: s.header, anonymous: Some(leg) },
                    HeaderCheckStep::Send(HeaderLeg::QueryParam),
                )
            },
            HeaderLeg::QueryParam => if accepted(leg) && probe_body_eq(leg.body, s.header->0.body) {
                (
                    HeaderCheck { awaiting: HeaderLeg::AnonymousRecheck, header: s.header, anonymous: s.anonymous },
                    HeaderCheckStep::Send(HeaderLeg::AnonymousRecheck),
                )
            } else {
                stop
            },
            HeaderLeg::AnonymousRecheck => (
                s,
                HeaderCheckStep::Conclude(
                    is_success(leg.status) == is_success(s.anonymous->0.status) && probe_body_eq(
                        leg.body,
                        s.anonymous->0.body,
                    ),
                ),
            ),
        },
    }
}

impl HeaderCheck {
    /// Starts the check: the header leg goes first.
    pub fn new() -> (r: (HeaderCheck, HeaderCheckStep))
        ensures
            r.0 == initial_check(),
            r.1 == HeaderCheckStep::Send(HeaderLeg::Header),
    {
        (
            HeaderCheck { awaiting: HeaderLeg::Header, header: None, anonymous: None },
            HeaderCheckStep::Send(HeaderLeg::Header),
        )
    }

    /// Takes the awaited leg's reading.
    pub fn on_leg(&mut self, reading: LegReading) -> (step: HeaderCheckStep)
        requires
            old(self).wf(),
        ensures
            (*final(self), step) == check_step(*old(self), reading),
            final(self).wf(),
    {
        let leg = match reading {
            LegReading::Failed => return HeaderCheckStep::Conclude(false),
            LegReading::Received { status, body } => {
                if !leg_status_is_conclusive(status) {
                    return HeaderCheckStep::Conclude(false);
                }
                ProbeLeg { status, body }
            },
        };
        match self.awaiting {
            HeaderLeg::Header => {
                if leg.credential_accepted() {
                    self.awaiting = HeaderLeg::Anonymous;
                    self.header = Some(leg);
                    HeaderCheckStep::Send(HeaderLeg::Anonymous)
                } else {
                    HeaderCheckStep::Conclude(false)
                }
            },
            HeaderLeg::Anonymous => {
                let same = match &self.header {
                    Some(h) => probe_body_equal(&leg.body, &h.body),
                    None => true,
                };
                if same {
                    HeaderCheckStep::Conclude(false)
                } else {
                    self.awaiting = HeaderLeg::QueryParam;
                    self.anonymous = Some(leg);
                    HeaderCheckStep::Send(HeaderLeg::QueryParam)
                }
            },
            HeaderLeg::QueryParam => {
                let matches_header = match &self.header {
                    Some(h) => probe_body_equal(&leg.body, &h.body),
                    None => false,
                };
                if leg.credential_accepted() && matches_header {
                    self.awaiting = HeaderLeg::AnonymousRecheck;
                    HeaderCheckStep::Send(HeaderLeg::AnonymousRecheck)
                } else {
                    HeaderCheckStep::Conclude(false)
                }
            },
            HeaderLeg::AnonymousRecheck => {
                let repeated = match &self.anonymous {
                    Some(a) => {
                        let same_class = (200 <= leg.status && leg.status <= 299) == (200
                            <= a.status && a.status <= 299);
                        same_class && probe_body_equal(&leg.body, &a.body)
                    },
                    None => false,
                };
                HeaderCheckStep::Conclude(repeated)
            },
        }
    }
}

/// The state the check starts in.
pub open spec fn initial_check() -> HeaderCheck {
    HeaderCheck { awaiting: HeaderLeg::Header, header: None, anonymous: None }
}

/// The verdict of the check when the legs answer `h`, `a`, `q` and `r` in
/// turn: each step runs only while the previous one asked for a leg.
pub open spec fn header_check_verdict(h: LegReading, a: LegReading, q: LegReading, r: LegReading) -> bool {
    let (s1, t1) = check_step(initial_check(), h);
    if let HeaderCheckStep::Conclude(b) = t1 {
        b
    } else {
        let (s2, t2) = check_step(s1, a);
        if let HeaderCheckStep::Conclude(b) = t2 {
            b
        } else {
            let (s3, t3) = check_step(s2, q);
            if let HeaderCheckStep::Conclude(b) = t3 {
                b
            } else {
                let (_, t4) = check_step(s3, r);
                t4 == HeaderCheckStep::Conclude(true)
            }
        }
    }
}

/// When header auth counts as confirmed, stated over the four answers.
pub open spec fn header_confirmed(h: LegReading, a: LegReading, q: LegReading, r: LegReading) -> bool {
    &&& leg_of(h) is Some && leg_of(a) is Some && leg_of(q) is Some && leg_of(r) is Some
    &&& accepted(leg_of(h)->0)
    &&& !probe_body_eq(leg_of(a)->0.body, leg_of(h)->0.body)
    &&& accepted(leg_of(q)->0)
    &&& probe_body_eq(leg_of(q)->0.body, leg_of(h)->0.body)
    &&& is_success(leg_of(r)->0.status) == is_success(leg_of(a)->0.status)
    &&& probe_body_eq(leg_of(r)->0.body, leg_of(a)->0.body)
}

/// Header auth is confirmed exactly when the header leg is accepted, the
/// anonymous answer differs from it, the query-parameter leg is accepted and
/// equals it, and the anonymous answer repeats with the same status class;
/// the check never asks for more than these four legs.
pub proof fn lemma_header_check_verdict(h: LegReading, a: LegReading, q: LegReading, r: LegReading)
    ensures
        header_check_verdict(h, a, q, r) == header_confirmed(h, a, q, r),
        ({
            let (s1, t1) = check_step(initial_check(), h);
            let (s2, t2) = check_step(s1, a);
            let (s3, t3) = check_step(s2, q);
            (t1 is Send && t2 is Send && t3 is Send) ==> check_step(s3, r).1 is Conclude
        }),
{
}

/// A leg counts when its status is a 2xx, a 401 or a 403: a refusal tells
/// as much about authentication as a success does. Any other status (a
/// redirect, a 404, a 5xx) or a failed read ends the check unconfirmed.
pub proof fn lemma_leg_counts(status: u16, body: ProbeBody)
    ensures
        (200 <= status <= 299 || status == 401 || status == 403) ==> leg_of(
            LegReading::Received { status, body },
        ) == Some(ProbeLeg { status, body }),
        !(200 <= status <= 299 || status == 401 || status == 403) ==> leg_of(
            LegReading::Received { status, body },
        ) is None,
{
}

/// A server that refuses anonymous requests confirms header auth: when the
/// header and query-parameter legs are accepted with equal bodies, and the
/// anonymous leg is refused (401 or 403) with a different body that the
/// anonymous re-check repeats with the same refusal, the verdict is that
/// header auth works.
pub proof fn lemma_refused_anonymous_confirms(
    refusal: u16,
    header_body: ProbeBody,
    anonymous_body: ProbeBody,
    query_body: ProbeBody,
    recheck_body: ProbeBody,
)
    requires
        refusal == 401 || refusal == 403,
        !body_carries_error(header_body),
        !body_carries_error(query_body),
        !probe_body_eq(anonymous_body, header_body),
        probe_body_eq(query_body, header_body),
        probe_body_eq(recheck_body, anonymous_body),
    ensures
        header_check_verdict(
            LegReading::Received { status: 200, body: header_body },
            LegReading::Received { status: refusal, body: anonymous_body },
            LegReading::Received { status: 200, body: query_body },
            LegReading::Received { status: refusal, body: recheck_body },
        ),
{
    lemma_leg_counts(200, header_body);
    lemma_leg_counts(refusal, anonymous_body);
    lemma_leg_counts(200, query_body);
    lemma_leg_counts(refusal, recheck_body);
    lemma_header_check_verdict(
        LegReading::Received { status: 200, body: header_body },
        LegReading::Received { status: refusal, body: anonymous_body },
        LegReading::Received { status: 200, body: query_body },
        LegReading::Received { status: refusal, body: recheck_body },
    );
}

} // verus!
