//! The authorization gate: the one entry point that every request passes
//! before its handler runs. It throttles first, for every route, and asks for
//! a credential only on protected routes that the throttle let through.

use crate::bucket::{Bucket, RateDecision, RateLimitConfig};
use crate::error::{json_member, json_object1};
use crate::limiter::{ClientIdentity, RateLimiter};
use crate::verify::{outcome, AuthError, CredentialVerifier};
use vstd::prelude::*;

verus! {

/// Whether a route asks for a credential. It is assigned when the router is
/// built and does not change.
#[derive(Clone, Copy, Debug, PartialEq, Eq, Structural)]
pub enum RouteClassification {
    Public,
    Protected,
}

/// Why a request was turned away.
#[derive(Clone, Copy, Debug, PartialEq, Eq, Structural)]
pub enum Rejection {
    /// The client has used up its tokens: it may try again later.
    RateLimited,
    /// The client must authenticate anew.
    Unauthorized(AuthError),
    /// The bookkeeping failed, such as reading the clock; access is denied.
    InternalError,
}

/// The terminal state of a request.
#[derive(Debug, PartialEq, Eq)]
pub enum Decision {
    /// The request goes on to its handler, with the verified subject if the
    /// route is protected.
    Allowed(Option<Vec<u8>>),
    /// The request is answered at once and its handler never runs.
    Rejected(Rejection),
}

/// The mathematical value of a [`Decision`].
pub enum DecisionView {
    Allowed(Option<Seq<u8>>),
    Rejected(Rejection),
}

impl View for Decision {
    type V = DecisionView;

    open spec fn view(&self) -> DecisionView {
        match self {
            Decision::Allowed(Some(subject)) => DecisionView::Allowed(Some(subject@)),
            Decision::Allowed(None) => DecisionView::Allowed(None),
            Decision::Rejected(r) => DecisionView::Rejected(*r),
        }
    }
}

/// What is decided from the throttle's decision, the route's
/// classification and what the credential check gives. The last is looked at
/// only for a protected route that the throttle let through.
pub open spec fn gate_outcome(
    rate: RateDecision,
    route: RouteClassification,
    auth: Result<Seq<u8>, AuthError>,
) -> DecisionView {
    match rate {
        RateDecision::Reject => DecisionView::Rejected(Rejection::RateLimited),
        RateDecision::Admit => match route {
            RouteClassification::Public => DecisionView::Allowed(None),
            RouteClassification::Protected => match auth {
                Ok(subject) => DecisionView::Allowed(Some(subject)),
                Err(reason) => DecisionView::Rejected(Rejection::Unauthorized(reason)),
            },
        },
    }
}

/// The value of an optional header.
pub open spec fn header_view(header: Option<&[u8]>) -> Option<Seq<u8>> {
    match header {
        Some(h) => Some(h@),
        None => None,
    }
}

impl Rejection {
    /// The HTTP status that answers the rejection.
    pub open spec fn spec_status(self) -> u16 {
        match self {
            Rejection::RateLimited => 429,
            Rejection::Unauthorized(_) => 401,
            Rejection::InternalError => 500,
        }
    }

    /// The message shown to the client.
    pub open spec fn spec_message(self) -> Seq<char> {
        match self {
            Rejection::RateLimited => "Too many requests"@,
            Rejection::Unauthorized(reason) => reason.spec_message(),
            Rejection::InternalError => "Internal server error"@,
        }
    }

    /// The message shown to the client, which goes under `error` in the
    /// body of the response.
    pub fn message(&self) -> (text: &'static str)
        ensures
            text@ == self.spec_message(),
    {
        match self {
            Rejection::RateLimited => "Too many requests",
            Rejection::Unauthorized(reason) => reason.message(),
            Rejection::InternalError => "Internal server error",
        }
    }

    /// The body of the response that answers the rejection. A throttled
    /// client is told by the status alone; the others get a JSON object with
    /// the message under `error`.
    pub open spec fn spec_body(self) -> Option<Seq<char>> {
        match self {
            Rejection::RateLimited => None,
            _ => Some(json_object1("error"@, self.spec_message())),
        }
    }

    /// The body of the response that answers the rejection, if it has one.
    pub fn body(&self) -> (text: Option<String>)
        ensures
            text is Some <==> self.spec_body() is Some,
            text matches Some(t) ==> self.spec_body() == Some(t@),
    {
        match self {
            Rejection::RateLimited => None,
            _ => Some(json_member("error", self.message())),
        }
    }

    /// The HTTP status that answers the rejection: 429 too many requests,
    /// 401 unauthorized, or 500.
    pub fn status(&self) -> (code: u16)
        ensures
            code == self.spec_status(),
    {
        match self {
            Rejection::RateLimited => 429,
            Rejection::Unauthorized(_) => 401,
            Rejection::InternalError => 500,
        }
    }
}

/// The limiter and the verifier behind one entry point.
pub struct Gate {
    limiter: RateLimiter,
    credentials: CredentialVerifier,
}

impl Gate {
    /// The rate limiter.
    pub closed spec fn limiter(self) -> RateLimiter {
        self.limiter
    }

    /// The credential verifier.
    pub closed spec fn credentials(self) -> CredentialVerifier {
        self.credentials
    }

    /// A gate that has seen no request.
    pub fn new(config: RateLimitConfig, secret: Vec<u8>) -> (gate: Self)
        ensures
            gate.limiter().wf(),
            gate.limiter().config() == config,
            gate.limiter()@.buckets == Map::<u128, Bucket>::empty(),
            gate.credentials().secret() == secret@,
    {
        Gate { limiter: RateLimiter::new(config), credentials: CredentialVerifier::new(secret) }
    }

    /// Takes one request to its terminal state. `now` is the clock reading
    /// in milliseconds, or nothing if the clock could not be read: then
    /// access is denied and nothing is recorded. Otherwise the request is
    /// counted against the client's bucket whatever the route is, and the
    /// credential is asked for only on a protected route that the throttle
    /// let through.
    pub fn decide(
        &mut self,
        identity: ClientIdentity,
        route: RouteClassification,
        authorization: Option<&[u8]>,
        now: Option<u64>,
    ) -> (decision: Decision)
        ensures
            final(self).credentials() == old(self).credentials(),
            final(self).limiter().config() == old(self).limiter().config(),
            old(self).limiter().wf() ==> final(self).limiter().wf(),
            now is None ==> {
                &&& decision@ == DecisionView::Rejected(Rejection::InternalError)
                &&& final(self).limiter()@.buckets == old(self).limiter()@.buckets
            },
            now matches Some(t) ==> {
                let limiter = old(self).limiter();
                let bucket = limiter.bucket_of(identity.address);
                &&& final(self).limiter()@.buckets == limiter@.buckets.insert(
                    identity.address,
                    limiter.config().step(bucket, t),
                )
                &&& decision@ == gate_outcome(
                    limiter.config().decision(bucket, t),
                    route,
                    old(self).credentials().spec_authenticate(header_view(authorization), t),
                )
            },
    {
        let t = match now {
            Some(t) => t,
            None => {
                return Decision::Rejected(Rejection::InternalError);
            },
        };
        match self.limiter.check(identity, t) {
            RateDecision::Reject => Decision::Rejected(Rejection::RateLimited),
            RateDecision::Admit => match route {
                RouteClassification::Public => Decision::Allowed(None),
                RouteClassification::Protected => match self.credentials.authenticate(
                    authorization,
                    t,
                ) {
                    Ok(subject) => Decision::Allowed(Some(subject)),
                    Err(reason) => Decision::Rejected(Rejection::Unauthorized(reason)),
                },
            },
        }
    }

    /// Forgets the buckets that are idle at `now` and says how many.
    pub fn sweep(&mut self, now: u64) -> (evicted: usize)
        ensures
            final(self).credentials() == old(self).credentials(),
            final(self).limiter().config() == old(self).limiter().config(),
            old(self).limiter().wf() ==> final(self).limiter().wf(),
            final(self).limiter()@.buckets == old(self).limiter()@.buckets.remove_keys(
                old(self).limiter().idle_clients(now),
            ),
            evicted == old(self).limiter().idle_clients(now).len(),
    {
        self.limiter.sweep(now)
    }
}

/// The status tells the three kinds of rejection apart: slow down,
/// authenticate anew, or a failure of the service.
pub proof fn law_status_tells_the_kind(a: Rejection, b: Rejection)
    ensures
        a.spec_status() == b.spec_status() <==> (a is RateLimited && b is RateLimited) || (a
            is Unauthorized && b is Unauthorized) || (a is InternalError && b is InternalError),
{
}

/// A request that the throttle rejects is rate limited, whatever its route
/// and whatever it presents.
pub proof fn law_throttle_comes_first(route: RouteClassification, auth: Result<Seq<u8>, AuthError>)
    ensures
        gate_outcome(RateDecision::Reject, route, auth) == DecisionView::Rejected(
            Rejection::RateLimited,
        ),
{
}

/// A request that the throttle admits is allowed on a public route without
/// any credential; on a protected route without an `Authorization` header it
/// is rejected as unauthorized, the credential missing.
pub proof fn law_public_needs_no_credential(
    verifier: CredentialVerifier,
    auth: Result<Seq<u8>, AuthError>,
    now: u64,
)
    ensures
        gate_outcome(RateDecision::Admit, RouteClassification::Public, auth)
            == DecisionView::Allowed(None),
        gate_outcome(
            RateDecision::Admit,
            RouteClassification::Protected,
            verifier.spec_authenticate(None, now),
        ) == DecisionView::Rejected(Rejection::Unauthorized(AuthError::Missing)),
{
}

/// On a protected route a request is allowed only with a credential that
/// verifies, and then with the credential's subject.
pub proof fn law_protected_needs_a_credential(
    rate: RateDecision,
    auth: Result<Seq<u8>, AuthError>,
)
    ensures
        gate_outcome(rate, RouteClassification::Protected, auth) is Allowed <==> rate
            == RateDecision::Admit && auth is Ok,
        gate_outcome(rate, RouteClassification::Protected, auth) is Allowed ==> gate_outcome(
            rate,
            RouteClassification::Protected,
            auth,
        ) == DecisionView::Allowed(Some(auth->Ok_0)),
{
}

} // verus!
