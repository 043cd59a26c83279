//! The lifecycle of an HTTP/1.1 `Upgrade` handshake (a WebSocket).
use vstd::prelude::*;
use http::StatusCode;

verus! {

/// `http::StatusCode`, carried through the upgrade states.
#[verifier::external_type_specification]
#[verifier::external_body]
pub struct ExStatusCode(StatusCode);

/// The state of an upgrade handshake. `G` is the connection-slot guard that
/// the states after admission own; it is released when the state is dropped.
#[derive(Debug)]
pub enum UpgradeState<G> {
    /// Not an upgrade request; the machine never leaves this state.
    NotUpgrade,
    /// A valid `Upgrade` handshake was seen at hydration.
    Requested,
    /// The route allows WebSockets and a slot was acquired.
    Admitted { guard: G },
    /// The upstream request was shaped for the handshake.
    Negotiated { guard: G },
    /// The upstream answered `101`; the tunnel is open.
    Switched { guard: G },
    /// The proxy rejected the handshake before contacting an upstream.
    ProxyRejected { status: StatusCode },
    /// The upstream answered with something other than `101`.
    UpstreamRejected { guard: G, status: StatusCode },
    /// The upstream connection failed before the `101`.
    Failed { guard: G },
    /// The tunnel ended.
    Closed,
}

/// The events of an upgrade handshake, one per transition.
#[derive(Debug, Clone, Copy, PartialEq, Eq, Structural)]
pub enum UpgradeEvent {
    Admit,
    RejectAtProxy,
    Negotiate,
    Switch,
    RejectAtUpstream,
    Fail,
    Close,
}

/// Whether an event is a legal transition from a state: from Requested,
/// admit and reject at the proxy; from Admitted, negotiate and fail; from
/// Negotiated, negotiate again, switch, reject at the upstream and fail;
/// from Switched, close. No event leaves the other states.
pub open spec fn event_allowed<G>(s: UpgradeState<G>, e: UpgradeEvent) -> bool {
    match s {
        UpgradeState::Requested => e == UpgradeEvent::Admit || e == UpgradeEvent::RejectAtProxy,
        UpgradeState::Admitted { .. } => e == UpgradeEvent::Negotiate || e == UpgradeEvent::Fail,
        UpgradeState::Negotiated { .. } => e == UpgradeEvent::Negotiate || e == UpgradeEvent::Switch
            || e == UpgradeEvent::RejectAtUpstream || e == UpgradeEvent::Fail,
        UpgradeState::Switched { .. } => e == UpgradeEvent::Close,
        _ => false,
    }
}

/// The legal transitions of the handshake are exactly these pairs:
/// Requested: admit, reject_at_proxy; Admitted: negotiate, fail;
/// Negotiated: negotiate, switch, reject_at_upstream, fail; Switched:
/// close. NotUpgrade and the terminal states (ProxyRejected,
/// UpstreamRejected, Failed, Closed) have none; each transition method
/// requires its event to be legal.
pub proof fn law_legal_upgrade_transitions<G>(s: UpgradeState<G>, e: UpgradeEvent)
    ensures
        event_allowed(s, e) <==> {
            ||| (s is Requested && (e == UpgradeEvent::Admit || e == UpgradeEvent::RejectAtProxy))
            ||| (s is Admitted && (e == UpgradeEvent::Negotiate || e == UpgradeEvent::Fail))
            ||| (s is Negotiated && (e == UpgradeEvent::Negotiate || e == UpgradeEvent::Switch
                    || e == UpgradeEvent::RejectAtUpstream || e == UpgradeEvent::Fail))
            ||| (s is Switched && e == UpgradeEvent::Close)
        },
        (s is NotUpgrade || s is ProxyRejected || s is UpstreamRejected || s is Failed || s is Closed)
            ==> !event_allowed(s, e),
{
}

impl<G> UpgradeState<G> {
    /// Whether an event is a legal transition from this state.
    pub fn allows(&self, e: UpgradeEvent) -> (r: bool)
        ensures
            r == event_allowed(*self, e),
    {
        match self {
            UpgradeState::Requested => matches!(e, UpgradeEvent::Admit | UpgradeEvent::RejectAtProxy),
            UpgradeState::Admitted { .. } => matches!(e, UpgradeEvent::Negotiate | UpgradeEvent::Fail),
            UpgradeState::Negotiated { .. } => matches!(
                e,
                UpgradeEvent::Negotiate | UpgradeEvent::Switch | UpgradeEvent::RejectAtUpstream | UpgradeEvent::Fail
            ),
            UpgradeState::Switched { .. } => matches!(e, UpgradeEvent::Close),
            _ => false,
        }
    }

    /// The state before hydration.
    pub fn default_state() -> (s: Self)
        ensures
            s is NotUpgrade,
    {
        UpgradeState::NotUpgrade
    }

    /// Seeds the machine from the hydrated request.
    pub fn begin(is_upgrade_req: bool) -> (s: Self)
        ensures
            is_upgrade_req ==> s is Requested,
            !is_upgrade_req ==> s is NotUpgrade,
    {
        if is_upgrade_req {
            UpgradeState::Requested
        } else {
            UpgradeState::NotUpgrade
        }
    }

    /// Requested to Admitted: the route allows WebSockets and a slot was
    /// acquired. From any other state the transition is invalid.
    pub fn admit_slot(self, guard: G) -> (s: Self)
        requires
            event_allowed(self, UpgradeEvent::Admit),
        ensures
            s == (UpgradeState::Admitted { guard }),
    {
        match self {
            UpgradeState::Requested => UpgradeState::Admitted { guard },
            other => other,
        }
    }

    /// Requested to ProxyRejected: the proxy refused the handshake.
    pub fn reject_at_proxy(self, status: StatusCode) -> (s: Self)
        requires
            event_allowed(self, UpgradeEvent::RejectAtProxy),
        ensures
            s == (UpgradeState::<G>::ProxyRejected { status }),
    {
        match self {
            UpgradeState::Requested => UpgradeState::ProxyRejected { status },
            other => other,
        }
    }

    /// Admitted (or Negotiated again, on a retry) to Negotiated.
    pub fn negotiate(self) -> (s: Self)
        requires
            event_allowed(self, UpgradeEvent::Negotiate),
        ensures
            self matches UpgradeState::Admitted { guard } ==> s == (UpgradeState::Negotiated { guard }),
            self matches UpgradeState::Negotiated { guard } ==> s == (UpgradeState::Negotiated { guard }),
    {
        match self {
            UpgradeState::Admitted { guard } => UpgradeState::Negotiated { guard },
            UpgradeState::Negotiated { guard } => UpgradeState::Negotiated { guard },
            other => other,
        }
    }

    /// Negotiated to Switched: the upstream answered `101`.
    pub fn switch(self) -> (s: Self)
        requires
            event_allowed(self, UpgradeEvent::Switch),
        ensures
            self matches UpgradeState::Negotiated { guard } ==> s == (UpgradeState::Switched { guard }),
    {
        match self {
            UpgradeState::Negotiated { guard } => UpgradeState::Switched { guard },
            other => other,
        }
    }

    /// Negotiated to UpstreamRejected: the upstream answered something
    /// other than `101`.
    pub fn reject_at_upstream(self, status: StatusCode) -> (s: Self)
        requires
            event_allowed(self, UpgradeEvent::RejectAtUpstream),
        ensures
            self matches UpgradeState::Negotiated { guard } ==> s == (UpgradeState::UpstreamRejected { guard, status }),
    {
        match self {
            UpgradeState::Negotiated { guard } => UpgradeState::UpstreamRejected { guard, status },
            other => other,
        }
    }

    /// Admitted or Negotiated to Failed: the upstream connection failed
    /// before the `101`.
    pub fn fail(self) -> (s: Self)
        requires
            event_allowed(self, UpgradeEvent::Fail),
        ensures
            self matches UpgradeState::Admitted { guard } ==> s == (UpgradeState::Failed { guard }),
            self matches UpgradeState::Negotiated { guard } ==> s == (UpgradeState::Failed { guard }),
    {
        match self {
            UpgradeState::Admitted { guard } => UpgradeState::Failed { guard },
            UpgradeState::Negotiated { guard } => UpgradeState::Failed { guard },
            other => other,
        }
    }

    /// Switched to Closed (which drops the guard).
    pub fn close(self) -> (s: Self)
        requires
            event_allowed(self, UpgradeEvent::Close),
        ensures
            s is Closed,
    {
        match self {
            UpgradeState::Switched { .. } => UpgradeState::Closed,
            other => other,
        }
    }

    /// The slot guard, in the states that hold one.
    pub open spec fn guard_spec(self) -> Option<G> {
        match self {
            UpgradeState::Admitted { guard } => Some(guard),
            UpgradeState::Negotiated { guard } => Some(guard),
            UpgradeState::Switched { guard } => Some(guard),
            UpgradeState::UpstreamRejected { guard, .. } => Some(guard),
            UpgradeState::Failed { guard } => Some(guard),
            _ => None,
        }
    }
}

} // verus!
