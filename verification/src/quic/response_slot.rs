//! What the frontend knows of one registered response, and how a frame from a
//! worker changes it.
//!
//! A response is pending until its prologue arrives and active afterwards. With
//! a priority stream the prologue and the first payload travel on a lane of
//! their own, so later payloads may overtake them. Those are held back until
//! the first payload has been delivered.

use crate::quic::deferred;
use crate::quic::deferred::{DeferredResponse, DeferredView};
use crate::quic::frame::{FrameKind, FrameView};
use vstd::prelude::*;

verus! {

/// A response that was registered and whose prologue has not arrived.
///
/// `handle` is whatever the caller needs to hand the response over.
pub struct PendingResponse<P> {
    pub handle: P,
    pub registered_at: u64,
    pub bundle_id: Option<u128>,
    pub deferred: DeferredResponse,
}

#[verifier::ext_equal]
pub struct PendingView<P> {
    pub handle: P,
    pub registered_at: u64,
    pub bundle_id: Option<u128>,
    pub deferred: DeferredView,
}

impl<P> View for PendingResponse<P> {
    type V = PendingView<P>;

    open spec fn view(&self) -> PendingView<P> {
        PendingView {
            handle: self.handle,
            registered_at: self.registered_at,
            bundle_id: self.bundle_id,
            deferred: self.deferred@,
        }
    }
}

/// A response whose prologue has arrived.
///
/// `handle` is whatever the caller needs to deliver payloads and to stop
/// watching the response.
pub struct ActiveResponse<A> {
    pub handle: A,
    pub bundle_id: u128,
    pub prologue_received_at: u64,
    pub priority_ready: bool,
    pub priority_draining: bool,
    pub deferred: DeferredResponse,
}

#[verifier::ext_equal]
pub struct ActiveView<A> {
    pub handle: A,
    pub bundle_id: u128,
    pub prologue_received_at: u64,
    pub priority_ready: bool,
    pub priority_draining: bool,
    pub deferred: DeferredView,
}

impl<A> View for ActiveResponse<A> {
    type V = ActiveView<A>;

    open spec fn view(&self) -> ActiveView<A> {
        ActiveView {
            handle: self.handle,
            bundle_id: self.bundle_id,
            prologue_received_at: self.prologue_received_at,
            priority_ready: self.priority_ready,
            priority_draining: self.priority_draining,
            deferred: self.deferred@,
        }
    }
}

/// Why a frame breaks the protocol. The connection that sent it is closed.
#[derive(Clone, Copy, Debug, PartialEq, Eq, Structural)]
pub enum ServerFrameError {
    ProloguePayload,
    ErrorNotUtf8,
    EndPayload,
    BundleChanged { registration_id: u128, from: u128, to: u128 },
    ReverseOnly { kind: FrameKind },
}

/// Everything known of one registration id.
#[verifier::ext_equal]
pub struct Slot<P, A> {
    pub pending: Option<PendingView<P>>,
    pub active: Option<ActiveView<A>>,
}

/// What is to be done about a frame.
pub enum FrameOutcome<P, A> {
    /// Answer that the response is not wanted.
    Reset,
    /// Hand the response over and make it active.
    Open { pending: PendingView<P> },
    /// Report the terminal error and stop watching what was active.
    Fail { pending: PendingView<P>, message: Seq<char>, active: Option<ActiveView<A>> },
    /// Deliver the first payload, if any, and then what was held back.
    BeginDrain { first: Option<Seq<u8>>, prologue_received_at: u64 },
    /// Nothing: the frame was held back or noted.
    Deferred,
    /// Deliver the payload.
    Deliver { payload: Seq<u8> },
    /// Too much was held back: the response is dropped and reset.
    Overflow { removed: Slot<P, A> },
    /// The response is over.
    Close { removed: Slot<P, A> },
    /// The frame breaks the protocol.
    Invalid { error: ServerFrameError },
}

impl<P, A> FrameOutcome<P, A> {
    /// Whether the registration is gone for good.
    pub open spec fn removes(self) -> bool {
        self is Fail || self is Overflow || self is Close
    }
}

impl<P, A> Slot<P, A> {
    pub open spec fn empty() -> Self {
        Slot { pending: None, active: None }
    }
}

/// The error of a frame that came over another bundle than its response.
pub open spec fn bundle_changed(id: u128, from: u128, to: u128) -> ServerFrameError {
    ServerFrameError::BundleChanged { registration_id: id, from, to }
}

/// Whether a pending response already belongs to another bundle.
pub open spec fn bundle_conflict(bundle_id: Option<u128>, bundle: u128) -> bool {
    bundle_id is Some && bundle_id->0 != bundle
}

pub open spec fn prologue_step<P, A>(slot: Slot<P, A>, frame: FrameView, bundle: u128) -> (
    Slot<P, A>,
    FrameOutcome<P, A>,
) {
    if frame.payload.len() != 0 {
        (slot, FrameOutcome::Invalid { error: ServerFrameError::ProloguePayload })
    } else {
        match slot.pending {
            None => (slot, FrameOutcome::Reset),
            Some(pending) => (
                Slot { pending: None, ..slot },
                if bundle_conflict(pending.bundle_id, bundle) {
                    FrameOutcome::Invalid {
                        error: bundle_changed(
                            frame.registration_id,
                            pending.bundle_id->0,
                            bundle,
                        ),
                    }
                } else {
                    FrameOutcome::Open { pending }
                },
            ),
        }
    }
}

pub open spec fn error_step<P, A>(slot: Slot<P, A>, frame: FrameView, bundle: u128) -> (
    Slot<P, A>,
    FrameOutcome<P, A>,
) {
    if !vstd::utf8::valid_utf8(frame.payload) {
        (slot, FrameOutcome::Invalid { error: ServerFrameError::ErrorNotUtf8 })
    } else {
        match slot.pending {
            None => (slot, FrameOutcome::Reset),
            Some(pending) => if bundle_conflict(pending.bundle_id, bundle) {
                (
                    Slot { pending: None, ..slot },
                    FrameOutcome::Invalid {
                        error: bundle_changed(
                            frame.registration_id,
                            pending.bundle_id->0,
                            bundle,
                        ),
                    },
                )
            } else {
                (
                    Slot::empty(),
                    FrameOutcome::Fail {
                        pending,
                        message: vstd::utf8::decode_utf8(frame.payload),
                        active: slot.active,
                    },
                )
            },
        }
    }
}

pub open spec fn priority_step<P, A>(slot: Slot<P, A>, frame: FrameView, bundle: u128) -> (
    Slot<P, A>,
    FrameOutcome<P, A>,
) {
    match slot.active {
        None => (slot, FrameOutcome::Reset),
        Some(active) => if active.bundle_id != bundle {
            (
                slot,
                FrameOutcome::Invalid {
                    error: bundle_changed(frame.registration_id, active.bundle_id, bundle),
                },
            )
        } else if active.priority_ready || active.priority_draining {
            (slot, FrameOutcome::Reset)
        } else {
            (
                Slot { active: Some(ActiveView { priority_draining: true, ..active }), ..slot },
                FrameOutcome::BeginDrain {
                    first: if frame.kind == FrameKind::FirstData {
                        Some(frame.payload)
                    } else {
                        None
                    },
                    prologue_received_at: active.prologue_received_at,
                },
            )
        },
    }
}

pub open spec fn data_step<P, A>(
    slot: Slot<P, A>,
    frame: FrameView,
    bundle: u128,
    priority: bool,
) -> (Slot<P, A>, FrameOutcome<P, A>) {
    match slot.active {
        Some(active) => if active.bundle_id != bundle {
            (
                slot,
                FrameOutcome::Invalid {
                    error: bundle_changed(frame.registration_id, active.bundle_id, bundle),
                },
            )
        } else if active.priority_ready {
            (slot, FrameOutcome::Deliver { payload: frame.payload })
        } else if active.deferred.admits(frame.payload.len()) {
            (
                Slot {
                    active: Some(
                        ActiveView { deferred: active.deferred.pushed(frame.payload), ..active },
                    ),
                    ..slot
                },
                FrameOutcome::Deferred,
            )
        } else {
            (Slot::empty(), FrameOutcome::Overflow { removed: slot })
        },
        None => match slot.pending {
            Some(pending) if priority => if bundle_conflict(pending.bundle_id, bundle) {
                (
                    slot,
                    FrameOutcome::Invalid {
                        error: bundle_changed(
                            frame.registration_id,
                            pending.bundle_id->0,
                            bundle,
                        ),
                    },
                )
            } else {
                let claimed = PendingView { bundle_id: Some(bundle), ..pending };
                if pending.deferred.admits(frame.payload.len()) {
                    (
                        Slot {
                            pending: Some(
                                PendingView {
                                    deferred: pending.deferred.pushed(frame.payload),
                                    ..claimed
                                },
                            ),
                            ..slot
                        },
                        FrameOutcome::Deferred,
                    )
                } else {
                    (
                        Slot::empty(),
                        FrameOutcome::Overflow {
                            removed: Slot { pending: Some(claimed), ..slot },
                        },
                    )
                }
            },
            _ => (slot, FrameOutcome::Reset),
        },
    }
}

pub open spec fn end_step<P, A>(
    slot: Slot<P, A>,
    frame: FrameView,
    bundle: u128,
    priority: bool,
) -> (Slot<P, A>, FrameOutcome<P, A>) {
    if frame.payload.len() != 0 {
        (slot, FrameOutcome::Invalid { error: ServerFrameError::EndPayload })
    } else {
        match slot.active {
            Some(active) => if active.bundle_id != bundle {
                (
                    slot,
                    FrameOutcome::Invalid {
                        error: bundle_changed(frame.registration_id, active.bundle_id, bundle),
                    },
                )
            } else if active.priority_ready {
                (Slot::empty(), FrameOutcome::Close { removed: slot })
            } else {
                (
                    Slot {
                        active: Some(ActiveView { deferred: active.deferred.ended(), ..active }),
                        ..slot
                    },
                    FrameOutcome::Deferred,
                )
            },
            None => if !priority {
                (Slot::empty(), FrameOutcome::Close { removed: slot })
            } else {
                match slot.pending {
                    None => (slot, FrameOutcome::Reset),
                    Some(pending) => if bundle_conflict(pending.bundle_id, bundle) {
                        (
                            slot,
                            FrameOutcome::Invalid {
                                error: bundle_changed(
                                    frame.registration_id,
                                    pending.bundle_id->0,
                                    bundle,
                                ),
                            },
                        )
                    } else {
                        (
                            Slot {
                                pending: Some(
                                    PendingView {
                                        bundle_id: Some(bundle),
                                        deferred: pending.deferred.ended(),
                                        ..pending
                                    },
                                ),
                                ..slot
                            },
                            FrameOutcome::Deferred,
                        )
                    },
                }
            },
        }
    }
}

/// How a frame that came over `bundle` changes its response, and what is to be
/// done about it. `priority` says whether the frontend runs a priority stream.
pub open spec fn slot_step<P, A>(
    slot: Slot<P, A>,
    frame: FrameView,
    bundle: u128,
    priority: bool,
) -> (Slot<P, A>, FrameOutcome<P, A>) {
    match frame.kind {
        FrameKind::Prologue => prologue_step(slot, frame, bundle),
        FrameKind::Error => error_step(slot, frame, bundle),
        FrameKind::FirstData => priority_step(slot, frame, bundle),
        FrameKind::PriorityEnd => priority_step(slot, frame, bundle),
        FrameKind::Data => data_step(slot, frame, bundle, priority),
        FrameKind::End => end_step(slot, frame, bundle, priority),
        FrameKind::Stop => (slot, reverse_only(frame.kind)),
        FrameKind::Kill => (slot, reverse_only(frame.kind)),
        FrameKind::Reset => (slot, reverse_only(frame.kind)),
        FrameKind::Bundle => (slot, reverse_only(frame.kind)),
    }
}

/// The outcome of a frame that a worker never sends on a running lane.
pub open spec fn reverse_only<P, A>(kind: FrameKind) -> FrameOutcome<P, A> {
    FrameOutcome::Invalid { error: ServerFrameError::ReverseOnly { kind } }
}

/// The active response that a pending one becomes.
pub open spec fn opened<P, A>(
    pending: PendingView<P>,
    handle: A,
    bundle: u128,
    now: u64,
    priority: bool,
) -> ActiveView<A> {
    ActiveView {
        handle,
        bundle_id: bundle,
        prologue_received_at: now,
        priority_ready: !priority,
        priority_draining: false,
        deferred: pending.deferred,
    }
}

/// One round of delivering what was held back.
pub enum DrainOutcome<P, A> {
    /// The response is gone.
    Gone,
    /// Deliver these, then go for another round.
    Deliver { payloads: Seq<Seq<u8>> },
    /// All is delivered; later payloads go straight through.
    Ready,
    /// All is delivered and the response is over.
    Close { removed: Slot<P, A> },
}

/// How one round of delivering what was held back changes the response.
pub open spec fn drain_step<P, A>(slot: Slot<P, A>) -> (Slot<P, A>, DrainOutcome<P, A>) {
    match slot.active {
        None => (slot, DrainOutcome::Gone),
        Some(active) => if active.deferred.data.len() != 0 {
            (
                Slot {
                    active: Some(ActiveView { deferred: active.deferred.taken(), ..active }),
                    ..slot
                },
                DrainOutcome::Deliver { payloads: active.deferred.data },
            )
        } else {
            let ready = ActiveView { priority_ready: true, priority_draining: false, ..active };
            let slot = Slot { active: Some(ready), ..slot };
            if active.deferred.end {
                (Slot::empty(), DrainOutcome::Close { removed: slot })
            } else {
                (slot, DrainOutcome::Ready)
            }
        },
    }
}

/// A prologue opens the response that waits for it, on whichever bundle that
/// one belongs to already, if any. Nobody waits for a prologue twice.
pub proof fn prologues_open_pending_responses<P, A>(
    slot: Slot<P, A>,
    frame: FrameView,
    bundle: u128,
    priority: bool,
)
    requires
        frame.kind == FrameKind::Prologue,
    ensures
        ({
            let (after, outcome) = slot_step(slot, frame, bundle, priority);
            let pending = slot.pending->0;
            let fits = pending.bundle_id is None || pending.bundle_id == Some(bundle);
            &&& after.active == slot.active
            &&& frame.payload.len() > 0 ==> after == slot && outcome
                == FrameOutcome::<P, A>::Invalid { error: ServerFrameError::ProloguePayload }
            &&& frame.payload.len() == 0 && slot.pending is None ==> after == slot && outcome
                is Reset
            &&& frame.payload.len() == 0 && slot.pending is Some ==> after.pending is None
            &&& frame.payload.len() == 0 && slot.pending is Some && fits ==> outcome
                == FrameOutcome::<P, A>::Open { pending }
            &&& frame.payload.len() == 0 && slot.pending is Some && !fits ==> outcome
                == FrameOutcome::<P, A>::Invalid {
                error: ServerFrameError::BundleChanged {
                    registration_id: frame.registration_id,
                    from: pending.bundle_id->0,
                    to: bundle,
                },
            }
        }),
{
}

/// An error ends the response that waits for its prologue, with the text that it
/// carries, and leaves nothing of it.
pub proof fn errors_fail_pending_responses<P, A>(
    slot: Slot<P, A>,
    frame: FrameView,
    bundle: u128,
    priority: bool,
)
    requires
        frame.kind == FrameKind::Error,
    ensures
        ({
            let (after, outcome) = slot_step(slot, frame, bundle, priority);
            let pending = slot.pending->0;
            let fits = pending.bundle_id is None || pending.bundle_id == Some(bundle);
            let text = vstd::utf8::valid_utf8(frame.payload);
            &&& !text ==> after == slot && outcome == FrameOutcome::<P, A>::Invalid {
                error: ServerFrameError::ErrorNotUtf8,
            }
            &&& text && slot.pending is None ==> after == slot && outcome is Reset
            &&& text && slot.pending is Some && fits ==> after.pending is None && after.active
                is None && outcome == FrameOutcome::<P, A>::Fail {
                pending,
                message: vstd::utf8::decode_utf8(frame.payload),
                active: slot.active,
            }
            &&& text && slot.pending is Some && !fits ==> after.pending is None && after.active
                == slot.active && outcome == FrameOutcome::<P, A>::Invalid {
                error: ServerFrameError::BundleChanged {
                    registration_id: frame.registration_id,
                    from: pending.bundle_id->0,
                    to: bundle,
                },
            }
        }),
{
}

/// A payload of an active response is delivered if nothing is to be delivered
/// before it, and held back behind the others if something is. If there is no
/// room to hold it back, the response is given up.
pub proof fn payloads_of_active_responses<P, A>(
    slot: Slot<P, A>,
    frame: FrameView,
    bundle: u128,
    priority: bool,
)
    requires
        frame.kind == FrameKind::Data,
        slot.active is Some,
    ensures
        ({
            let (after, outcome) = slot_step(slot, frame, bundle, priority);
            let active = slot.active->0;
            let room = active.deferred.data.len() < 1_024 && active.deferred.bytes
                + frame.payload.len() <= 16_777_216;
            &&& active.bundle_id != bundle ==> after == slot && outcome == FrameOutcome::<
                P,
                A,
            >::Invalid {
                error: ServerFrameError::BundleChanged {
                    registration_id: frame.registration_id,
                    from: active.bundle_id,
                    to: bundle,
                },
            }
            &&& active.bundle_id == bundle && active.priority_ready ==> after == slot && outcome
                == FrameOutcome::<P, A>::Deliver { payload: frame.payload }
            &&& active.bundle_id == bundle && !active.priority_ready && room ==> {
                &&& outcome is Deferred
                &&& after.pending == slot.pending
                &&& after.active is Some
                &&& after.active->0.deferred.data == active.deferred.data.push(frame.payload)
                &&& after.active->0.deferred.bytes == active.deferred.bytes + frame.payload.len()
                &&& after.active->0.deferred.end == active.deferred.end
                &&& after.active->0.handle == active.handle
                &&& after.active->0.bundle_id == bundle
                &&& after.active->0.prologue_received_at == active.prologue_received_at
                &&& !after.active->0.priority_ready
                &&& after.active->0.priority_draining == active.priority_draining
            }
            &&& active.bundle_id == bundle && !active.priority_ready && !room ==> after.pending
                is None && after.active is None && outcome == FrameOutcome::<P, A>::Overflow {
                removed: slot,
            }
        }),
{
}

/// A payload that overtakes its prologue is held back, and claims the response
/// for its bundle. Where nothing can overtake, and where nobody waits, it is not
/// wanted.
pub proof fn payloads_of_pending_responses<P, A>(
    slot: Slot<P, A>,
    frame: FrameView,
    bundle: u128,
    priority: bool,
)
    requires
        frame.kind == FrameKind::Data,
        slot.active is None,
    ensures
        ({
            let (after, outcome) = slot_step(slot, frame, bundle, priority);
            let pending = slot.pending->0;
            let fits = pending.bundle_id is None || pending.bundle_id == Some(bundle);
            let room = pending.deferred.data.len() < 1_024 && pending.deferred.bytes
                + frame.payload.len() <= 16_777_216;
            &&& !priority || slot.pending is None ==> after == slot && outcome is Reset
            &&& priority && slot.pending is Some && !fits ==> after == slot && outcome
                == FrameOutcome::<P, A>::Invalid {
                error: ServerFrameError::BundleChanged {
                    registration_id: frame.registration_id,
                    from: pending.bundle_id->0,
                    to: bundle,
                },
            }
            &&& priority && slot.pending is Some && fits && room ==> {
                &&& outcome is Deferred
                &&& after.active is None
                &&& after.pending is Some
                &&& after.pending->0.bundle_id == Some(bundle)
                &&& after.pending->0.handle == pending.handle
                &&& after.pending->0.registered_at == pending.registered_at
                &&& after.pending->0.deferred.data == pending.deferred.data.push(frame.payload)
                &&& after.pending->0.deferred.bytes == pending.deferred.bytes
                    + frame.payload.len()
                &&& after.pending->0.deferred.end == pending.deferred.end
            }
            &&& priority && slot.pending is Some && fits && !room ==> {
                &&& after.pending is None
                &&& after.active is None
                &&& outcome is Overflow
                &&& outcome->Overflow_removed.active is None
                &&& outcome->Overflow_removed.pending is Some
                &&& outcome->Overflow_removed.pending->0.handle == pending.handle
                &&& outcome->Overflow_removed.pending->0.bundle_id == Some(bundle)
                &&& outcome->Overflow_removed.pending->0.deferred == pending.deferred
            }
        }),
{
}

/// The first payload of a response, or the word that it has none, lets what was
/// held back go, once. After that it is not wanted again.
pub proof fn first_payloads_begin_the_delivery<P, A>(
    slot: Slot<P, A>,
    frame: FrameView,
    bundle: u128,
    priority: bool,
)
    requires
        frame.kind == FrameKind::FirstData || frame.kind == FrameKind::PriorityEnd,
    ensures
        ({
            let (after, outcome) = slot_step(slot, frame, bundle, priority);
            let active = slot.active->0;
            &&& after.pending == slot.pending
            &&& slot.active is None ==> after == slot && outcome is Reset
            &&& slot.active is Some && active.bundle_id != bundle ==> after == slot && outcome
                == FrameOutcome::<P, A>::Invalid {
                error: ServerFrameError::BundleChanged {
                    registration_id: frame.registration_id,
                    from: active.bundle_id,
                    to: bundle,
                },
            }
            &&& slot.active is Some && active.bundle_id == bundle && (active.priority_ready
                || active.priority_draining) ==> after == slot && outcome is Reset
            &&& slot.active is Some && active.bundle_id == bundle && !active.priority_ready
                && !active.priority_draining ==> {
                &&& outcome is BeginDrain
                &&& frame.kind == FrameKind::FirstData ==> outcome->first == Some(frame.payload)
                &&& frame.kind == FrameKind::PriorityEnd ==> outcome->first is None
                &&& outcome->prologue_received_at == active.prologue_received_at
                &&& after.active is Some
                &&& after.active->0.priority_draining
                &&& !after.active->0.priority_ready
                &&& after.active->0.deferred == active.deferred
                &&& after.active->0.handle == active.handle
                &&& after.active->0.bundle_id == bundle
                &&& after.active->0.prologue_received_at == active.prologue_received_at
            }
        }),
{
}

/// The end of a response closes it if nothing is to be delivered before, and is
/// noted if something is. A response that never began is closed where nothing can
/// overtake its prologue.
pub proof fn ends_close_responses<P, A>(
    slot: Slot<P, A>,
    frame: FrameView,
    bundle: u128,
    priority: bool,
)
    requires
        frame.kind == FrameKind::End,
    ensures
        ({
            let (after, outcome) = slot_step(slot, frame, bundle, priority);
            let active = slot.active->0;
            let pending = slot.pending->0;
            let fits = pending.bundle_id is None || pending.bundle_id == Some(bundle);
            &&& frame.payload.len() > 0 ==> after == slot && outcome == FrameOutcome::<
                P,
                A,
            >::Invalid { error: ServerFrameError::EndPayload }
            &&& frame.payload.len() == 0 && slot.active is Some ==> {
                &&& active.bundle_id != bundle ==> after == slot && outcome == FrameOutcome::<
                    P,
                    A,
                >::Invalid {
                    error: ServerFrameError::BundleChanged {
                        registration_id: frame.registration_id,
                        from: active.bundle_id,
                        to: bundle,
                    },
                }
                &&& active.bundle_id == bundle && active.priority_ready ==> after.active is None
                    && after.pending is None && outcome == FrameOutcome::<P, A>::Close {
                    removed: slot,
                }
                &&& active.bundle_id == bundle && !active.priority_ready ==> {
                    &&& outcome is Deferred
                    &&& after.pending == slot.pending
                    &&& after.active is Some
                    &&& after.active->0.deferred.end
                    &&& after.active->0.deferred.data == active.deferred.data
                    &&& after.active->0.handle == active.handle
                    &&& after.active->0.bundle_id == bundle
                    &&& !after.active->0.priority_ready
                    &&& after.active->0.priority_draining == active.priority_draining
                }
            }
            &&& frame.payload.len() == 0 && slot.active is None && !priority ==> after.pending
                is None && after.active is None && outcome == FrameOutcome::<P, A>::Close {
                removed: slot,
            }
            &&& frame.payload.len() == 0 && slot.active is None && priority ==> {
                &&& slot.pending is None ==> after == slot && outcome is Reset
                &&& slot.pending is Some && !fits ==> after == slot && outcome == FrameOutcome::<
                    P,
                    A,
                >::Invalid {
                    error: ServerFrameError::BundleChanged {
                        registration_id: frame.registration_id,
                        from: pending.bundle_id->0,
                        to: bundle,
                    },
                }
                &&& slot.pending is Some && fits ==> {
                    &&& outcome is Deferred
                    &&& after.active is None
                    &&& after.pending is Some
                    &&& after.pending->0.bundle_id == Some(bundle)
                    &&& after.pending->0.deferred.end
                    &&& after.pending->0.deferred.data == pending.deferred.data
                    &&& after.pending->0.handle == pending.handle
                }
            }
        }),
{
}

/// A worker has no business to send what only a frontend sends, nor a second
/// bundle.
pub proof fn control_frames_are_refused<P, A>(
    slot: Slot<P, A>,
    frame: FrameView,
    bundle: u128,
    priority: bool,
)
    requires
        frame.kind == FrameKind::Stop || frame.kind == FrameKind::Kill || frame.kind
            == FrameKind::Reset || frame.kind == FrameKind::Bundle,
    ensures
        slot_step(slot, frame, bundle, priority) == (
            slot,
            FrameOutcome::<P, A>::Invalid {
                error: ServerFrameError::ReverseOnly { kind: frame.kind },
            },
        ),
{
}

/// A response that opens keeps what was held back, and delivers straight away
/// only where nothing can overtake.
pub proof fn opening_keeps_what_was_held_back<P, A>(
    pending: PendingView<P>,
    handle: A,
    bundle: u128,
    now: u64,
    priority: bool,
)
    ensures
        ({
            let active = opened(pending, handle, bundle, now, priority);
            &&& active.handle == handle
            &&& active.bundle_id == bundle
            &&& active.prologue_received_at == now
            &&& active.priority_ready == !priority
            &&& !active.priority_draining
            &&& active.deferred == pending.deferred
        }),
{
}

/// A round of delivering takes all that is held back, in order, and leaves
/// nothing. When nothing is left, later payloads go straight through, and a
/// response whose end was noted is closed.
pub proof fn rounds_deliver_all_that_is_held_back<P, A>(slot: Slot<P, A>)
    ensures
        ({
            let (after, outcome) = drain_step(slot);
            let active = slot.active->0;
            &&& slot.active is None ==> after == slot && outcome is Gone
            &&& slot.active is Some && active.deferred.data.len() > 0 ==> {
                &&& outcome == DrainOutcome::<P, A>::Deliver { payloads: active.deferred.data }
                &&& after.pending == slot.pending
                &&& after.active is Some
                &&& after.active->0.deferred.data.len() == 0
                &&& after.active->0.deferred.bytes == 0
                &&& after.active->0.deferred.end == active.deferred.end
                &&& after.active->0.priority_ready == active.priority_ready
                &&& after.active->0.priority_draining == active.priority_draining
                &&& after.active->0.handle == active.handle
                &&& after.active->0.bundle_id == active.bundle_id
            }
            &&& slot.active is Some && active.deferred.data.len() == 0 && active.deferred.end
                ==> outcome is Close && after.active is None && after.pending is None
                && outcome->removed.active is Some && outcome->removed.active->0.handle
                == active.handle && outcome->removed.pending == slot.pending
            &&& slot.active is Some && active.deferred.data.len() == 0 && !active.deferred.end ==> {
                &&& outcome is Ready
                &&& after.pending == slot.pending
                &&& after.active is Some
                &&& after.active->0.priority_ready
                &&& !after.active->0.priority_draining
                &&& after.active->0.deferred == active.deferred
                &&& after.active->0.handle == active.handle
                &&& after.active->0.bundle_id == active.bundle_id
            }
        }),
{
}

/// A registration is gone for good just after an error, after too much was held
/// back, and at the end.
pub proof fn outcomes_that_remove<P, A>(outcome: FrameOutcome<P, A>)
    ensures
        outcome is Fail || outcome is Overflow || outcome is Close ==> outcome.removes(),
        outcome is Reset || outcome is Open || outcome is BeginDrain || outcome is Deferred
            || outcome is Deliver || outcome is Invalid ==> !outcome.removes(),
{
}

} // verus!
