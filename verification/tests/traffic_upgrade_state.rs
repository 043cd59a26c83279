use http::StatusCode;
use snakeway::traffic::upgrade_state::{UpgradeEvent, UpgradeState};
use UpgradeEvent::{Admit, Close, Fail, Negotiate, RejectAtProxy, RejectAtUpstream, Switch};
use std::cell::Cell;
use std::rc::Rc;

/// A connection slot that counts itself while alive.
struct Slot(Rc<Cell<u32>>);

impl Drop for Slot {
    fn drop(&mut self) {
        self.0.set(self.0.get() - 1);
    }
}

fn acquired_slot() -> (Rc<Cell<u32>>, Slot) {
    let held = Rc::new(Cell::new(1));
    (held.clone(), Slot(held))
}

#[test]
fn should_begin_as_requested_for_an_upgrade() {
    let state = UpgradeState::<Slot>::begin(true);
    assert!(matches!(state, UpgradeState::Requested));
}

#[test]
fn should_begin_as_not_upgrade_otherwise() {
    let state = UpgradeState::<Slot>::begin(false);
    assert!(matches!(state, UpgradeState::NotUpgrade));
}

#[test]
fn should_default_to_not_upgrade_before_hydration() {
    let state = UpgradeState::<Slot>::default_state();
    assert!(matches!(state, UpgradeState::NotUpgrade));
}

#[test]
fn should_move_guard_from_requested_through_switched() {
    let (held, guard) = acquired_slot();
    let state = UpgradeState::begin(true).admit_slot(guard).negotiate().switch();
    assert!(matches!(state, UpgradeState::Switched { .. }));
    assert_eq!(held.get(), 1, "the slot must stay held in Switched");
}

#[test]
fn should_keep_status_in_proxy_rejected() {
    let state = UpgradeState::<Slot>::begin(true).reject_at_proxy(StatusCode::SERVICE_UNAVAILABLE);
    assert!(matches!(state, UpgradeState::ProxyRejected { status: StatusCode::SERVICE_UNAVAILABLE }));
}

#[test]
fn should_hold_slot_in_upstream_rejected_until_drop() {
    let (held, guard) = acquired_slot();
    let state = UpgradeState::begin(true).admit_slot(guard).negotiate();
    let state = state.reject_at_upstream(StatusCode::BAD_GATEWAY);
    assert!(matches!(state, UpgradeState::UpstreamRejected { status: StatusCode::BAD_GATEWAY, .. }));
    assert_eq!(held.get(), 1);
    drop(state);
    assert_eq!(held.get(), 0, "drop must release the slot");
}

#[test]
fn should_hold_slot_in_failed_until_drop() {
    let (held, guard) = acquired_slot();
    let state = UpgradeState::begin(true).admit_slot(guard).fail();
    assert!(matches!(state, UpgradeState::Failed { .. }));
    assert_eq!(held.get(), 1);
    drop(state);
    assert_eq!(held.get(), 0, "drop must release the slot");
}

#[test]
fn should_release_slot_on_close() {
    let (held, guard) = acquired_slot();
    let state = UpgradeState::begin(true).admit_slot(guard).negotiate().switch();
    let state = state.close();
    assert!(matches!(state, UpgradeState::Closed));
    assert_eq!(held.get(), 0, "close must release the slot");
}

#[test]
fn should_allow_negotiate_again_on_retry() {
    let (held, guard) = acquired_slot();
    let state = UpgradeState::begin(true).admit_slot(guard).negotiate().negotiate();
    assert!(matches!(state, UpgradeState::Negotiated { .. }));
    assert_eq!(held.get(), 1);
}


#[test]
fn should_define_every_state_event_pair() {
    let events = [Admit, RejectAtProxy, Negotiate, Switch, RejectAtUpstream, Fail, Close];
    let legal = |state: &UpgradeState<Slot>| -> Vec<UpgradeEvent> {
        events.iter().copied().filter(|e| state.allows(*e)).collect()
    };
    assert_eq!(legal(&UpgradeState::NotUpgrade), vec![]);
    assert_eq!(legal(&UpgradeState::Requested), vec![Admit, RejectAtProxy]);
    let (_h1, g1) = acquired_slot();
    assert_eq!(legal(&UpgradeState::Admitted { guard: g1 }), vec![Negotiate, Fail]);
    let (_h2, g2) = acquired_slot();
    assert_eq!(legal(&UpgradeState::Negotiated { guard: g2 }), vec![Negotiate, Switch, RejectAtUpstream, Fail]);
    let (_h3, g3) = acquired_slot();
    assert_eq!(legal(&UpgradeState::Switched { guard: g3 }), vec![Close]);
    assert_eq!(legal(&UpgradeState::ProxyRejected { status: StatusCode::FORBIDDEN }), vec![]);
    let (_h4, g4) = acquired_slot();
    assert_eq!(legal(&UpgradeState::UpstreamRejected { guard: g4, status: StatusCode::BAD_GATEWAY }), vec![]);
    let (_h5, g5) = acquired_slot();
    assert_eq!(legal(&UpgradeState::Failed { guard: g5 }), vec![]);
    assert_eq!(legal(&UpgradeState::Closed), vec![]);
}
