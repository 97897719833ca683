//! How far a client has come with disconnecting, an atomic number shared by all its users.
//!
//! A client starts at [`CONNECTED`]. The one task that moves it on to [`DISCONNECTING`] sends the
//! `Disconnect` command; when the channel has taken that, the client is raised to
//! [`DISCONNECTED`], where it stays.
//!
//! Another task may move a client on at any moment, so nothing here says where it is at one time.
//! [`held`], [`moves`] and [`declined`] speak of its whole life: the number stands for that one
//! client's, and no two are alike, so these are fixed, if unknown.
//!
//! A [`Phase`] can be read by every call. Only [`disconnect`] can move it. The functions that access
//! the number take a permit, so that there is none but is held by the trace of a call.
pub mod disconnect;

use crate::client::trace::{claiming, raising, releasing, Access, Permit, Trace};
use std::sync::atomic::AtomicU8;
use vstd::prelude::*;

verus! {

/// Calls are let through.
pub const CONNECTED: u8 = 0;

/// Calls are let through, and a task is sending `Disconnect`.
pub const DISCONNECTING: u8 = 1;

/// Calls are refused.
pub const DISCONNECTED: u8 = 2;

/// The value that `phase` was created with.
pub uninterp spec fn created(phase: AtomicU8) -> u8;

/// The values that `phase` holds in the course of its life.
pub uninterp spec fn held(phase: AtomicU8) -> Set<u8>;

/// The changes from one value to another that [`exchange`] makes to `phase` in the course of its
/// life.
pub uninterp spec fn moves(phase: AtomicU8) -> Set<(u8, u8)>;

/// The changes from one value to another that [`exchange`] declines to make to `phase` in the course
/// of its life, because it does not hold the first.
pub uninterp spec fn declined(phase: AtomicU8) -> Set<(u8, u8)>;

/// Calls `AtomicU8::new`.
///
/// Believed of it: the value given is the one that the number is created with, and so one that it
/// holds.
#[verifier::external_body]
fn new(_permit: Permit, value: u8) -> (phase: AtomicU8)
    ensures
        created(phase) == value,
        held(phase).contains(value),
    opens_invariants none
{
    AtomicU8::new(value)
}

/// Calls `AtomicU8::load`, with relaxed ordering: the number only lets a call fail early, and the
/// channel is what synchronises the tasks.
///
/// Believed of it: the value read is one that the number holds at some time. Which one rests on
/// what other tasks have done, and is left open.
#[verifier::external_body]
fn load(_permit: Permit, phase: &AtomicU8) -> (value: u8)
    ensures
        held(*phase).contains(value),
    opens_invariants none
{
    phase.load(std::sync::atomic::Ordering::Relaxed)
}

/// Calls `AtomicU8::compare_exchange`, for the claim of a task to send `Disconnect` and for giving
/// that claim up again.
///
/// Believed of it: it succeeds only by making the change asked for, and fails only where the
/// number holds another value than the current one asked for, which it returns. Which of the two
/// happens rests on what other tasks have done, and is left open.
#[verifier::external_body]
fn exchange(_permit: Permit, phase: &AtomicU8, current: u8, new: u8) -> (outcome:
    core::result::Result<u8, u8>)
    requires
        (current == CONNECTED && new == DISCONNECTING) || (current == DISCONNECTING && new
            == CONNECTED),
    ensures
        outcome matches Ok(before) ==> before == current && moves(*phase).contains((current, new)),
        outcome matches Err(before) ==> before != current && held(*phase).contains(before)
            && declined(*phase).contains((current, new)),
    opens_invariants
        [ if current == CONNECTED {
            claiming()
        } else {
            releasing()
        } ]
{
    phase.compare_exchange(
        current,
        new,
        std::sync::atomic::Ordering::AcqRel,
        std::sync::atomic::Ordering::Acquire,
    )
}

/// Calls `AtomicU8::fetch_max`, with release ordering: a task that reads the new value sees what
/// was sent before.
///
/// Believed of it: the number then holds the larger of the value that it held, which is returned,
/// and the one given.
#[verifier::external_body]
fn raise(_permit: Permit, phase: &AtomicU8, value: u8) -> (before: u8)
    ensures
        held(*phase).contains(
            if before > value {
                before
            } else {
                value
            },
        ),
    opens_invariants [ raising() ]
{
    phase.fetch_max(value, std::sync::atomic::Ordering::Release)
}

/// How far one client has come with disconnecting.
pub struct Phase {
    number: AtomicU8,
}

impl Phase {
    /// The value that it was created with.
    pub closed spec fn starts(self) -> u8 {
        created(self.number)
    }

    /// Whether it lets calls through at some time of its life.
    pub closed spec fn is_connected_once(self) -> bool {
        exists|value: u8| value < DISCONNECTED && #[trigger] held(self.number).contains(value)
    }

    /// Whether it refuses calls at some time of its life.
    pub closed spec fn is_disconnected_once(self) -> bool {
        exists|value: u8| value >= DISCONNECTED && #[trigger] held(self.number).contains(value)
    }

    /// Whether a task is sending `Disconnect` at some time of its life.
    pub closed spec fn is_disconnecting_once(self) -> bool {
        exists|value: u8|
            value != CONNECTED && value < DISCONNECTED && #[trigger] held(self.number).contains(
                value,
            )
    }

    /// Whether a claim to send `Disconnect` is granted at some time of its life.
    pub closed spec fn grants_claim(self) -> bool {
        moves(self.number).contains((CONNECTED, DISCONNECTING))
    }

    /// Whether a claim to send `Disconnect` is declined at some time of its life.
    pub closed spec fn declines_claim(self) -> bool {
        declined(self.number).contains((CONNECTED, DISCONNECTING))
    }

    /// Whether a claim to send `Disconnect` is given up at some time of its life, or is found not to
    /// stand when it is.
    pub closed spec fn ends_claim(self) -> bool {
        ||| moves(self.number).contains((DISCONNECTING, CONNECTED))
        ||| declined(self.number).contains((DISCONNECTING, CONNECTED))
    }

    /// Creates a phase.
    pub(crate) fn create(value: u8, trace: &mut Trace) -> (phase: Phase)
        ensures
            phase.starts() == value,
            value < DISCONNECTED ==> phase.is_connected_once(),
            value >= DISCONNECTED ==> phase.is_disconnected_once(),
            final(trace)@ == old(trace)@.push(Access::Created(value)),
        opens_invariants none
    {
        let permit = trace.attempt();
        let phase = Phase { number: new(permit, value) };
        assert(held(phase.number).contains(value));
        trace.conclude(Ghost(Access::Created(value)));
        phase
    }

    /// Reads the phase.
    pub(crate) fn read(&self, trace: &mut Trace) -> (value: u8)
        ensures
            value < DISCONNECTED ==> self.is_connected_once(),
            value >= DISCONNECTED ==> self.is_disconnected_once(),
            final(trace)@ == old(trace)@.push(Access::Read(value)),
        opens_invariants none
    {
        let permit = trace.attempt();
        let value: u8 = load(permit, &self.number);
        trace.conclude(Ghost(Access::Read(value)));
        value
    }

    /// Claims to send `Disconnect`.
    fn claim(&self, trace: &mut Trace) -> (claim: core::result::Result<u8, u8>)
        ensures
            claim matches Ok(before) ==> before == CONNECTED && self.grants_claim(),
            claim matches Err(before) ==> {
                &&& before != CONNECTED
                &&& self.declines_claim()
                &&& before < DISCONNECTED ==> self.is_disconnecting_once()
                &&& before >= DISCONNECTED ==> self.is_disconnected_once()
            },
            final(trace)@ == old(trace)@.push(
                Access::Exchanged { current: CONNECTED, new: DISCONNECTING, claim },
            ),
        opens_invariants [ claiming() ]
    {
        let permit = trace.attempt();
        let claim = exchange(permit, &self.number, CONNECTED, DISCONNECTING);
        trace.conclude(Ghost(Access::Exchanged { current: CONNECTED, new: DISCONNECTING, claim }));
        claim
    }

    /// Gives a claim to send `Disconnect` up.
    fn release(&self, trace: &mut Trace) -> (claim: core::result::Result<u8, u8>)
        ensures
            self.ends_claim(),
            final(trace)@ == old(trace)@.push(
                Access::Exchanged { current: DISCONNECTING, new: CONNECTED, claim },
            ),
        opens_invariants [ releasing() ]
    {
        let permit = trace.attempt();
        let claim = exchange(permit, &self.number, DISCONNECTING, CONNECTED);
        trace.conclude(Ghost(Access::Exchanged { current: DISCONNECTING, new: CONNECTED, claim }));
        claim
    }

    /// Has calls refused from now on.
    fn close(&self, trace: &mut Trace) -> (before: u8)
        ensures
            self.is_disconnected_once(),
            final(trace)@ == old(trace)@.push(Access::Raised { before, value: DISCONNECTED }),
        opens_invariants [ raising() ]
    {
        let permit = trace.attempt();
        let before: u8 = raise(permit, &self.number, DISCONNECTED);
        trace.conclude(Ghost(Access::Raised { before, value: DISCONNECTED }));
        before
    }
}

} // verus!
