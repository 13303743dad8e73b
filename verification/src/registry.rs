//! The registration state machine.
//!
//! Each registered service is driven through its creation protocol —
//! create service, add each declared characteristic, start — strictly by
//! driver confirmation events; the next structural request for a service is
//! issued only once the previous one is confirmed.  Confirmations are
//! matched to the awaiting service purely by the service identifier or
//! runtime handle carried in the event, never by arrival order, so
//! different services' confirmations may interleave arbitrarily.  A
//! non-success confirmation is fatal for the one service it names: the
//! instance moves to `Deleted` with the error recorded and its route-table
//! entries are purged, while every other service proceeds untouched.

use vstd::prelude::*;
use vstd::pervasive::VecAdditionalExecFns;
use crate::descriptor::{
    attr_budget, chars_unique, CharacteristicDescriptor, ServiceDescriptor,
};
use crate::event::{Command, GattsEvent};
use crate::route::{
    handle_taken, routes_without_service, AttrRouteTable, RouteTarget,
};
use crate::status::{BtError, GattStatus};

verus! {

/// The most services one server accepts.
pub const MAX_SERVICES: usize = 5;

/// Lifecycle of one service instance, advanced only by confirmation
/// events.
#[derive(Clone, Copy, Debug, PartialEq, Eq, Structural)]
pub enum ServiceState {
    /// Registered with the facade; the application itself is not yet
    /// registered with the driver.
    Declared,
    /// A create-service command is outstanding.
    AwaitingServiceCreated,
    /// The service exists; `remaining` add-characteristic confirmations
    /// are still owed, one command outstanding at a time.
    AwaitingCharacteristics { remaining: usize },
    /// All characteristics confirmed; a start-service command is
    /// outstanding.
    AwaitingStart,
    /// Fully confirmed and dispatch-eligible.
    Live,
    /// A delete-service command is outstanding.
    AwaitingDeleted,
    /// Torn down, or registration failed with the recorded fault.
    Deleted,
}

/// The runtime handles assigned to one declared characteristic.
#[derive(Clone, Copy, Debug, PartialEq, Eq, Structural)]
pub struct CharHandle {
    /// The declared characteristic identifier.
    pub char_uuid: u128,
    /// Runtime attribute handle, absent until its creation is confirmed.
    pub attr_handle: Option<u16>,
    /// Runtime handle of the owning service, absent until confirmed.
    pub service_handle: Option<u16>,
}

impl CharHandle {
    pub fn new(char_uuid: u128) -> (c: CharHandle)
        ensures
            c == (CharHandle { char_uuid, attr_handle: None, service_handle: None }),
    {
        CharHandle { char_uuid, attr_handle: None, service_handle: None }
    }

    pub fn update_handle(&mut self, attr_handle: Option<u16>, service_handle: Option<u16>)
        ensures
            *final(self) == (CharHandle { char_uuid: old(self).char_uuid, attr_handle, service_handle }),
    {
        self.attr_handle = attr_handle;
        self.service_handle = service_handle;
    }
}

/// The runtime counterpart of one registered service descriptor.
pub struct ServiceInstance {
    /// The immutable declaration this instance was created from.
    pub descriptor: ServiceDescriptor,
    /// Current lifecycle state.
    pub state: ServiceState,
    /// Runtime service handle, absent until the creation is confirmed.
    pub service_handle: Option<u16>,
    /// Runtime handles of the declared characteristics, populated
    /// incrementally as confirmations arrive, in declaration order.
    pub char_handles: Vec<CharHandle>,
    /// The error that ended this instance's registration, if one did.
    pub fault: Option<BtError>,
}

/// Mathematical state of one service instance.
#[verifier::ext_equal]
pub struct InstModel {
    pub uuid: u128,
    pub inst_id: u8,
    pub is_primary: bool,
    pub chars: Seq<CharacteristicDescriptor>,
    pub state: ServiceState,
    pub handle: Option<u16>,
    pub bound: Seq<Option<u16>>,
    pub fault: Option<BtError>,
}

impl View for ServiceInstance {
    type V = InstModel;

    open spec fn view(&self) -> InstModel {
        InstModel {
            uuid: self.descriptor.uuid,
            inst_id: self.descriptor.inst_id,
            is_primary: self.descriptor.is_primary,
            chars: self.descriptor.characteristics@,
            state: self.state,
            handle: self.service_handle,
            bound: self.char_handles@.map_values(|c: CharHandle| c.attr_handle),
            fault: self.fault,
        }
    }
}

/// Mathematical state of the whole registration machine: every instance,
/// and the two route-table mappings it maintains.
#[verifier::ext_equal]
pub struct RegModel {
    pub instances: Seq<InstModel>,
    pub routes: Map<u16, RouteTarget>,
    pub handles: Map<u128, u16>,
}

/// What the machine reports alongside the commands it issues.
#[derive(Clone, Copy, Debug, PartialEq, Eq, Structural)]
pub enum ServiceNotice {
    /// The service reached `Live`; its attached callback must fire now,
    /// after the start confirmation and never earlier.
    Attached { service_uuid: u128 },
    /// The service's registration ended with the recorded error.
    Failed { service_uuid: u128, error: BtError },
}

// ---------------------------------------------------------------------
// Spec helpers over instance sequences.
// ---------------------------------------------------------------------

/// Some instance carries this service identifier.
pub open spec fn has_inst_uuid(insts: Seq<InstModel>, u: u128) -> bool {
    exists|i: int| 0 <= i < insts.len() && (#[trigger] insts[i]).uuid == u
}

/// Appending an instance adds exactly its identifier to those present.
pub proof fn lemma_has_inst_uuid_push(insts: Seq<InstModel>, e: InstModel, u: u128)
    ensures
        has_inst_uuid(insts.push(e), u) <==> (has_inst_uuid(insts, u) || e.uuid == u),
{
    if has_inst_uuid(insts, u) {
        let i = choose|i: int| 0 <= i < insts.len() && (#[trigger] insts[i]).uuid == u;
        assert(insts.push(e)[i].uuid == u);
    }
    if e.uuid == u {
        assert(insts.push(e)[insts.len() as int].uuid == u);
    }
    if has_inst_uuid(insts.push(e), u) {
        let i = choose|i: int|
            0 <= i < insts.push(e).len() && (#[trigger] insts.push(e)[i]).uuid == u;
        if i < insts.len() {
            assert(insts[i].uuid == u);
        } else {
            assert(insts.push(e)[i] == e);
        }
    }
}

/// The index of the instance carrying `u`; unique under the invariant.
pub open spec fn inst_idx_uuid(insts: Seq<InstModel>, u: u128) -> int {
    choose|i: int| 0 <= i < insts.len() && (#[trigger] insts[i]).uuid == u
}

/// Some instance holds the runtime service handle `h`.
pub open spec fn has_inst_handle(insts: Seq<InstModel>, h: u16) -> bool {
    exists|i: int| 0 <= i < insts.len() && (#[trigger] insts[i]).handle == Some(h)
}

/// The index of the instance holding `h`; unique under the invariant.
pub open spec fn inst_idx_handle(insts: Seq<InstModel>, h: u16) -> int {
    choose|i: int| 0 <= i < insts.len() && (#[trigger] insts[i]).handle == Some(h)
}

/// The instance as first declared: nothing confirmed, nothing recorded.
pub open spec fn declared_model(d: ServiceDescriptor) -> InstModel {
    InstModel {
        uuid: d.uuid,
        inst_id: d.inst_id,
        is_primary: d.is_primary,
        chars: d.characteristics@,
        state: ServiceState::Declared,
        handle: None,
        bound: Seq::new(d.characteristics@.len(), |k: int| None::<u16>),
        fault: None,
    }
}

/// The instance after its registration or teardown ended: state
/// `Deleted`, the fault (if any) recorded, every runtime handle forgotten.
pub open spec fn deleted_inst(inst: InstModel, fault: Option<BtError>) -> InstModel {
    InstModel {
        state: ServiceState::Deleted,
        handle: None,
        bound: Seq::new(inst.chars.len(), |k: int| None::<u16>),
        fault,
        ..inst
    }
}

// ---------------------------------------------------------------------
// The machine invariant.
// ---------------------------------------------------------------------

/// No two confirmed attribute handles of this instance coincide.
pub open spec fn bound_distinct(bound: Seq<Option<u16>>) -> bool {
    forall|k1: int, k2: int|
        0 <= k1 < k2 < bound.len() && (#[trigger] bound[k1]) is Some && (#[trigger] bound[k2]) is Some
            ==> bound[k1] != bound[k2]
}

/// Every confirmed characteristic of instance `i` is routed to it, and
/// every route it owns is one of its confirmed characteristics.
pub open spec fn routes_match_bound(s: RegModel, i: int) -> bool {
    let inst = s.instances[i];
    &&& (forall|k: int|
        0 <= k < inst.bound.len() ==> match #[trigger] inst.bound[k] {
            Some(bh) => s.routes.contains_key(bh) && s.routes[bh] == (RouteTarget {
                service_uuid: inst.uuid,
                char_uuid: inst.chars[k].uuid,
            }),
            None => true,
        })
    &&& (forall|h: u16|
        #[trigger] s.routes.contains_key(h) && s.routes[h].service_uuid == inst.uuid
            ==> exists|k: int| 0 <= k < inst.bound.len() && (#[trigger] inst.bound[k]) == Some(h))
}

/// No route entry names `u` as its owner.
pub open spec fn no_routes_owned(routes: Map<u16, RouteTarget>, u: u128) -> bool {
    forall|h: u16| #[trigger] routes.contains_key(h) ==> routes[h].service_uuid != u
}

/// Instance `i` has nothing recorded in the route table.
pub open spec fn inst_unrecorded(s: RegModel, i: int) -> bool {
    let inst = s.instances[i];
    &&& inst.handle is None
    &&& (forall|k: int| 0 <= k < inst.bound.len() ==> (#[trigger] inst.bound[k]) is None)
    &&& !s.handles.contains_key(inst.uuid)
    &&& no_routes_owned(s.routes, inst.uuid)
}

/// Instance `i` has its service handle recorded, and its routed handles
/// are exactly its confirmed characteristics.
pub open spec fn inst_recorded(s: RegModel, i: int) -> bool {
    let inst = s.instances[i];
    &&& match inst.handle {
        Some(h) => s.handles.contains_key(inst.uuid) && s.handles[inst.uuid] == h,
        None => false,
    }
    &&& routes_match_bound(s, i)
}

/// Every confirmed characteristic of instance `i` — all of them, once the
/// service awaits its start or is past it.
pub open spec fn all_bound(inst: InstModel) -> bool {
    forall|k: int| 0 <= k < inst.bound.len() ==> (#[trigger] inst.bound[k]) is Some
}

/// Consistency of one instance with the route table, by lifecycle state.
pub open spec fn inst_ok(s: RegModel, i: int) -> bool {
    let inst = s.instances[i];
    &&& inst.bound.len() == inst.chars.len()
    &&& inst.chars.len() <= u16::MAX
    &&& chars_unique(inst.chars)
    &&& attr_budget(inst.chars) <= u16::MAX
    &&& bound_distinct(inst.bound)
    &&& match inst.state {
        ServiceState::Declared => inst_unrecorded(s, i),
        ServiceState::AwaitingServiceCreated => inst_unrecorded(s, i),
        ServiceState::AwaitingCharacteristics { remaining } => {
            &&& inst_recorded(s, i)
            &&& 1 <= remaining <= inst.chars.len()
            &&& (forall|k: int|
                0 <= k < inst.bound.len()
                    ==> ((#[trigger] inst.bound[k]) is Some <==> k < inst.chars.len() - remaining))
        },
        ServiceState::AwaitingStart => inst_recorded(s, i) && all_bound(s.instances[i]),
        ServiceState::Live => inst_recorded(s, i) && all_bound(s.instances[i]),
        ServiceState::AwaitingDeleted => inst_recorded(s, i) && all_bound(s.instances[i]),
        ServiceState::Deleted => inst_unrecorded(s, i),
    }
}

/// The machine invariant: every instance is consistent with the route
/// table, identifiers are unique, and every table entry has exactly one
/// owning instance.
pub open spec fn inv(s: RegModel) -> bool {
    &&& (forall|i: int| 0 <= i < s.instances.len() ==> inst_ok(s, i))
    &&& (forall|i: int, j: int|
        0 <= i < j < s.instances.len()
            ==> (#[trigger] s.instances[i]).uuid != (#[trigger] s.instances[j]).uuid)
    &&& (forall|u: u128|
        #[trigger] s.handles.contains_key(u) ==> has_inst_uuid(s.instances, u))
    &&& (forall|h: u16|
        #[trigger] s.routes.contains_key(h) ==> has_inst_uuid(s.instances, s.routes[h].service_uuid))
    &&& (forall|u1: u128, u2: u128|
        #[trigger] s.handles.contains_key(u1) && #[trigger] s.handles.contains_key(u2) && u1 != u2
            ==> s.handles[u1] != s.handles[u2])
}

// ---------------------------------------------------------------------
// The transition function, one case per confirmation event.
// ---------------------------------------------------------------------

/// The create-service command a declared service asks for.
pub open spec fn create_cmd(inst: InstModel) -> Command {
    Command::CreateService {
        service_uuid: inst.uuid,
        inst_id: inst.inst_id,
        is_primary: inst.is_primary,
        max_attr_count: attr_budget(inst.chars) as u16,
    }
}

/// Every declared service moves on to awaiting its creation.
pub open spec fn arm_declared(insts: Seq<InstModel>) -> Seq<InstModel> {
    insts.map_values(
        |inst: InstModel|
            if inst.state is Declared {
                InstModel { state: ServiceState::AwaitingServiceCreated, ..inst }
            } else {
                inst
            },
    )
}

/// One create-service command per declared service, in declaration order.
pub open spec fn create_cmds(insts: Seq<InstModel>) -> Seq<Command>
    decreases insts.len(),
{
    if insts.len() == 0 {
        Seq::empty()
    } else {
        create_cmds(insts.drop_last()) + if insts.last().state is Declared {
            seq![create_cmd(insts.last())]
        } else {
            Seq::<Command>::empty()
        }
    }
}

/// Every declared service fails with the application's status code.
pub open spec fn fail_declared(insts: Seq<InstModel>, code: u8) -> Seq<InstModel> {
    insts.map_values(
        |inst: InstModel|
            if inst.state is Declared {
                deleted_inst(inst, Some(BtError::ProtocolStatus(code)))
            } else {
                inst
            },
    )
}

/// One failure notice per declared service, in declaration order.
pub open spec fn fail_notices(insts: Seq<InstModel>, code: u8) -> Seq<ServiceNotice>
    decreases insts.len(),
{
    if insts.len() == 0 {
        Seq::empty()
    } else {
        fail_notices(insts.drop_last(), code) + if insts.last().state is Declared {
            seq![ServiceNotice::Failed {
                service_uuid: insts.last().uuid,
                error: BtError::ProtocolStatus(code),
            }]
        } else {
            Seq::<ServiceNotice>::empty()
        }
    }
}

/// Nothing changes, nothing is issued.
pub open spec fn identity_step(s: RegModel) -> (RegModel, Seq<Command>, Seq<ServiceNotice>) {
    (s, Seq::<Command>::empty(), Seq::<ServiceNotice>::empty())
}

/// Instance `i` ends with `fault` and all its route-table entries are
/// purged.
pub open spec fn purge_inst(s: RegModel, i: int, fault: Option<BtError>) -> RegModel {
    let inst = s.instances[i];
    RegModel {
        instances: s.instances.update(i, deleted_inst(inst, fault)),
        routes: routes_without_service(s.routes, inst.uuid),
        handles: s.handles.remove(inst.uuid),
    }
}

/// The application registration was answered: on success each declared
/// service is asked for, in declaration order; on failure each declared
/// service ends with the status recorded.
pub open spec fn step_app_registered(s: RegModel, status: GattStatus) -> (
    RegModel,
    Seq<Command>,
    Seq<ServiceNotice>,
) {
    match status {
        GattStatus::Success => (
            RegModel { instances: arm_declared(s.instances), ..s },
            create_cmds(s.instances),
            Seq::<ServiceNotice>::empty(),
        ),
        GattStatus::Fail(code) => (
            RegModel { instances: fail_declared(s.instances, code), ..s },
            Seq::<Command>::empty(),
            fail_notices(s.instances, code),
        ),
    }
}

/// A create-service command was answered.  The awaiting service is
/// matched by the identifier in the event; a success records the handle
/// and asks for the first characteristic (or the start, when none are
/// declared), a failure or a clashing handle ends the one instance.
pub open spec fn step_service_created(
    s: RegModel,
    status: GattStatus,
    service_handle: u16,
    service_uuid: u128,
) -> (RegModel, Seq<Command>, Seq<ServiceNotice>) {
    if !has_inst_uuid(s.instances, service_uuid) {
        identity_step(s)
    } else {
        let i = inst_idx_uuid(s.instances, service_uuid);
        let inst = s.instances[i];
        if !(inst.state is AwaitingServiceCreated) {
            identity_step(s)
        } else {
            match status {
                GattStatus::Fail(code) => (
                    RegModel {
                        instances: s.instances.update(
                            i,
                            deleted_inst(inst, Some(BtError::ProtocolStatus(code))),
                        ),
                        ..s
                    },
                    Seq::<Command>::empty(),
                    seq![ServiceNotice::Failed {
                        service_uuid,
                        error: BtError::ProtocolStatus(code),
                    }],
                ),
                GattStatus::Success => {
                    if handle_taken(s.handles, inst.uuid, service_handle) {
                        (
                            RegModel {
                                instances: s.instances.update(
                                    i,
                                    deleted_inst(inst, Some(BtError::InvalidHandle)),
                                ),
                                ..s
                            },
                            Seq::<Command>::empty(),
                            seq![ServiceNotice::Failed {
                                service_uuid,
                                error: BtError::InvalidHandle,
                            }],
                        )
                    } else {
                        let handles1 = s.handles.insert(inst.uuid, service_handle);
                        if inst.chars.len() == 0 {
                            (
                                RegModel {
                                    instances: s.instances.update(
                                        i,
                                        InstModel {
                                            state: ServiceState::AwaitingStart,
                                            handle: Some(service_handle),
                                            ..inst
                                        },
                                    ),
                                    handles: handles1,
                                    ..s
                                },
                                seq![Command::StartService { service_handle }],
                                Seq::<ServiceNotice>::empty(),
                            )
                        } else {
                            (
                                RegModel {
                                    instances: s.instances.update(
                                        i,
                                        InstModel {
                                            state: ServiceState::AwaitingCharacteristics {
                                                remaining: inst.chars.len() as usize,
                                            },
                                            handle: Some(service_handle),
                                            ..inst
                                        },
                                    ),
                                    handles: handles1,
                                    ..s
                                },
                                seq![Command::AddCharacteristic {
                                    service_handle,
                                    characteristic: inst.chars[0],
                                }],
                                Seq::<ServiceNotice>::empty(),
                            )
                        }
                    }
                },
            }
        }
    }
}

/// An add-characteristic command was answered.  The awaiting service is
/// matched by the service handle in the event; a success routes the new
/// attribute handle and asks for the next characteristic (or the start,
/// when it was the last), a failure or a clashing handle ends the one
/// instance and purges its entries.
pub open spec fn step_characteristic_added(
    s: RegModel,
    status: GattStatus,
    attr_handle: u16,
    service_handle: u16,
    char_uuid: u128,
) -> (RegModel, Seq<Command>, Seq<ServiceNotice>) {
    if !has_inst_handle(s.instances, service_handle) {
        identity_step(s)
    } else {
        let i = inst_idx_handle(s.instances, service_handle);
        let inst = s.instances[i];
        match inst.state {
            ServiceState::AwaitingCharacteristics { remaining } => {
                match status {
                    GattStatus::Fail(code) => (
                        purge_inst(s, i, Some(BtError::ProtocolStatus(code))),
                        Seq::<Command>::empty(),
                        seq![ServiceNotice::Failed {
                            service_uuid: inst.uuid,
                            error: BtError::ProtocolStatus(code),
                        }],
                    ),
                    GattStatus::Success => {
                        let idx = inst.chars.len() - remaining;
                        if char_uuid != inst.chars[idx].uuid {
                            identity_step(s)
                        } else if s.routes.contains_key(attr_handle) {
                            (
                                purge_inst(s, i, Some(BtError::InvalidHandle)),
                                Seq::<Command>::empty(),
                                seq![ServiceNotice::Failed {
                                    service_uuid: inst.uuid,
                                    error: BtError::InvalidHandle,
                                }],
                            )
                        } else {
                            let routes1 = s.routes.insert(
                                attr_handle,
                                RouteTarget { service_uuid: inst.uuid, char_uuid },
                            );
                            let bound1 = inst.bound.update(idx, Some(attr_handle));
                            if remaining == 1 {
                                (
                                    RegModel {
                                        instances: s.instances.update(
                                            i,
                                            InstModel {
                                                state: ServiceState::AwaitingStart,
                                                bound: bound1,
                                                ..inst
                                            },
                                        ),
                                        routes: routes1,
                                        ..s
                                    },
                                    seq![Command::StartService { service_handle }],
                                    Seq::<ServiceNotice>::empty(),
                                )
                            } else {
                                (
                                    RegModel {
                                        instances: s.instances.update(
                                            i,
                                            InstModel {
                                                state: ServiceState::AwaitingCharacteristics {
                                                    remaining: (remaining - 1) as usize,
                                                },
                                                bound: bound1,
                                                ..inst
                                            },
                                        ),
                                        routes: routes1,
                                        ..s
                                    },
                                    seq![Command::AddCharacteristic {
                                        service_handle,
                                        characteristic: inst.chars[idx + 1],
                                    }],
                                    Seq::<ServiceNotice>::empty(),
                                )
                            }
                        }
                    },
                }
            },
            _ => identity_step(s),
        }
    }
}

/// A start-service command was answered: on success the service goes
/// live, and only now may its attached callback fire; a failure ends the
/// one instance and purges its entries.
pub open spec fn step_service_started(s: RegModel, status: GattStatus, service_handle: u16) -> (
    RegModel,
    Seq<Command>,
    Seq<ServiceNotice>,
) {
    if !has_inst_handle(s.instances, service_handle) {
        identity_step(s)
    } else {
        let i = inst_idx_handle(s.instances, service_handle);
        let inst = s.instances[i];
        if !(inst.state is AwaitingStart) {
            identity_step(s)
        } else {
            match status {
                GattStatus::Fail(code) => (
                    purge_inst(s, i, Some(BtError::ProtocolStatus(code))),
                    Seq::<Command>::empty(),
                    seq![ServiceNotice::Failed {
                        service_uuid: inst.uuid,
                        error: BtError::ProtocolStatus(code),
                    }],
                ),
                GattStatus::Success => (
                    RegModel {
                        instances: s.instances.update(
                            i,
                            InstModel { state: ServiceState::Live, ..inst },
                        ),
                        ..s
                    },
                    Seq::<Command>::empty(),
                    seq![ServiceNotice::Attached { service_uuid: inst.uuid }],
                ),
            }
        }
    }
}

/// A delete-service command was answered: the service ends — cleanly on
/// success, with the status recorded on failure — and its route-table
/// entries are purged either way.
pub open spec fn step_service_deleted(s: RegModel, status: GattStatus, service_handle: u16) -> (
    RegModel,
    Seq<Command>,
    Seq<ServiceNotice>,
) {
    if !has_inst_handle(s.instances, service_handle) {
        identity_step(s)
    } else {
        let i = inst_idx_handle(s.instances, service_handle);
        let inst = s.instances[i];
        if !(inst.state is AwaitingDeleted) {
            identity_step(s)
        } else {
            match status {
                GattStatus::Fail(code) => (
                    purge_inst(s, i, Some(BtError::ProtocolStatus(code))),
                    Seq::<Command>::empty(),
                    seq![ServiceNotice::Failed {
                        service_uuid: inst.uuid,
                        error: BtError::ProtocolStatus(code),
                    }],
                ),
                GattStatus::Success => (
                    purge_inst(s, i, None),
                    Seq::<Command>::empty(),
                    Seq::<ServiceNotice>::empty(),
                ),
            }
        }
    }
}

/// The whole transition function: how one inbound confirmation event
/// changes the machine, and which commands and notices it produces.
/// Events that are not registration confirmations change nothing here.
pub open spec fn step(s: RegModel, e: GattsEvent) -> (RegModel, Seq<Command>, Seq<ServiceNotice>) {
    match e {
        GattsEvent::ServiceRegistered { status, .. } => step_app_registered(s, status),
        GattsEvent::ServiceCreated { status, service_handle, service_uuid } => step_service_created(
            s,
            status,
            service_handle,
            service_uuid,
        ),
        GattsEvent::CharacteristicAdded { status, attr_handle, service_handle, char_uuid } => step_characteristic_added(
            s,
            status,
            attr_handle,
            service_handle,
            char_uuid,
        ),
        GattsEvent::ServiceStarted { status, service_handle } => step_service_started(
            s,
            status,
            service_handle,
        ),
        GattsEvent::ServiceDeleted { status, service_handle } => step_service_deleted(
            s,
            status,
            service_handle,
        ),
        _ => identity_step(s),
    }
}

// ---------------------------------------------------------------------
// What the machine guarantees: full routing at `Live`, and isolation of
// each service from every other service's confirmations.
// ---------------------------------------------------------------------

/// The instance a confirmation event acts on, if any.  Matching is purely
/// by the service identifier or runtime handle the event carries, never
/// by arrival order.  The application-registration answer is not listed:
/// it addresses every declared service at once.
pub open spec fn event_target(s: RegModel, e: GattsEvent) -> Option<int> {
    match e {
        GattsEvent::ServiceCreated { service_uuid, .. } => if has_inst_uuid(
            s.instances,
            service_uuid,
        ) {
            Some(inst_idx_uuid(s.instances, service_uuid))
        } else {
            None
        },
        GattsEvent::CharacteristicAdded { service_handle, .. } => if has_inst_handle(
            s.instances,
            service_handle,
        ) {
            Some(inst_idx_handle(s.instances, service_handle))
        } else {
            None
        },
        GattsEvent::ServiceStarted { service_handle, .. } => if has_inst_handle(
            s.instances,
            service_handle,
        ) {
            Some(inst_idx_handle(s.instances, service_handle))
        } else {
            None
        },
        GattsEvent::ServiceDeleted { service_handle, .. } => if has_inst_handle(
            s.instances,
            service_handle,
        ) {
            Some(inst_idx_handle(s.instances, service_handle))
        } else {
            None
        },
        _ => None,
    }
}

/// Once a service instance is live, every characteristic it declared has
/// exactly one entry in the route table: its confirmed handle resolves to
/// this service and this characteristic, and no other handle does.
pub proof fn lemma_live_service_fully_routed(s: RegModel, i: int, k: int)
    requires
        inv(s),
        0 <= i < s.instances.len(),
        s.instances[i].state is Live,
        0 <= k < s.instances[i].chars.len(),
    ensures
        s.instances[i].bound[k] is Some,
        s.routes.contains_key(s.instances[i].bound[k]->0),
        s.routes[s.instances[i].bound[k]->0] == (RouteTarget {
            service_uuid: s.instances[i].uuid,
            char_uuid: s.instances[i].chars[k].uuid,
        }),
        forall|h: u16|
            #[trigger] s.routes.contains_key(h) && s.routes[h] == (RouteTarget {
                service_uuid: s.instances[i].uuid,
                char_uuid: s.instances[i].chars[k].uuid,
            }) ==> h == s.instances[i].bound[k]->0,
{
    assert(inst_ok(s, i));
    let inst = s.instances[i];
    assert(inst_recorded(s, i));
    assert(all_bound(inst));
    assert(inst.bound[k] is Some);
    let target = RouteTarget { service_uuid: inst.uuid, char_uuid: inst.chars[k].uuid };
    assert forall|h: u16| #[trigger] s.routes.contains_key(h) && s.routes[h] == target
        implies h == inst.bound[k]->0 by {
        assert(s.routes[h].service_uuid == inst.uuid);
        let k2 = choose|k2: int|
            0 <= k2 < inst.bound.len() && (#[trigger] inst.bound[k2]) == Some(h);
        assert(inst.bound[k2] == Some(h));
        assert(s.routes[h] == (RouteTarget {
            service_uuid: inst.uuid,
            char_uuid: inst.chars[k2].uuid,
        }));
        assert(inst.chars[k2].uuid == inst.chars[k].uuid);
        if k2 < k {
            assert(inst.chars[k2].uuid != inst.chars[k].uuid);
        }
        if k < k2 {
            assert(inst.chars[k].uuid != inst.chars[k2].uuid);
        }
    }
}

/// No cross-contamination: a confirmation event that does not target
/// instance `j` leaves `j`'s state, its recorded service handle, and every
/// route entry it owns exactly as they were.
pub proof fn lemma_confirmation_frame(s: RegModel, e: GattsEvent, j: int)
    requires
        inv(s),
        0 <= j < s.instances.len(),
        !(e is ServiceRegistered),
        event_target(s, e) != Some(j),
    ensures
        step(s, e).0.instances.len() == s.instances.len(),
        step(s, e).0.instances[j] == s.instances[j],
        step(s, e).0.handles.contains_key(s.instances[j].uuid) <==> s.handles.contains_key(
            s.instances[j].uuid,
        ),
        s.handles.contains_key(s.instances[j].uuid) ==> step(s, e).0.handles[s.instances[j].uuid]
            == s.handles[s.instances[j].uuid],
        forall|h: u16|
            #[trigger] s.routes.contains_key(h) && s.routes[h].service_uuid
                == s.instances[j].uuid ==> step(s, e).0.routes.contains_key(h) && step(
                s,
                e,
            ).0.routes[h] == s.routes[h],
        forall|h: u16|
            #[trigger] step(s, e).0.routes.contains_key(h) && step(s, e).0.routes[h].service_uuid
                == s.instances[j].uuid ==> s.routes.contains_key(h) && s.routes[h] == step(
                s,
                e,
            ).0.routes[h],
{
    let s1 = step(s, e).0;
    let uj = s.instances[j].uuid;
    match e {
        GattsEvent::ServiceCreated { status, service_handle, service_uuid } => {
            if has_inst_uuid(s.instances, service_uuid) {
                let i = inst_idx_uuid(s.instances, service_uuid);
                assert(0 <= i < s.instances.len() && s.instances[i].uuid == service_uuid);
                assert(i != j);
                if i < j {
                    assert(s.instances[i].uuid != s.instances[j].uuid);
                } else {
                    assert(s.instances[j].uuid != s.instances[i].uuid);
                }
            }
        },
        GattsEvent::CharacteristicAdded { status, attr_handle, service_handle, char_uuid } => {
            if has_inst_handle(s.instances, service_handle) {
                let i = inst_idx_handle(s.instances, service_handle);
                assert(0 <= i < s.instances.len() && s.instances[i].handle == Some(
                    service_handle,
                ));
                assert(i != j);
                if i < j {
                    assert(s.instances[i].uuid != s.instances[j].uuid);
                } else {
                    assert(s.instances[j].uuid != s.instances[i].uuid);
                }
            }
        },
        GattsEvent::ServiceStarted { status, service_handle } => {
            if has_inst_handle(s.instances, service_handle) {
                let i = inst_idx_handle(s.instances, service_handle);
                assert(0 <= i < s.instances.len() && s.instances[i].handle == Some(
                    service_handle,
                ));
                assert(i != j);
                if i < j {
                    assert(s.instances[i].uuid != s.instances[j].uuid);
                } else {
                    assert(s.instances[j].uuid != s.instances[i].uuid);
                }
            }
        },
        GattsEvent::ServiceDeleted { status, service_handle } => {
            if has_inst_handle(s.instances, service_handle) {
                let i = inst_idx_handle(s.instances, service_handle);
                assert(0 <= i < s.instances.len() && s.instances[i].handle == Some(
                    service_handle,
                ));
                assert(i != j);
                if i < j {
                    assert(s.instances[i].uuid != s.instances[j].uuid);
                } else {
                    assert(s.instances[j].uuid != s.instances[i].uuid);
                }
            }
        },
        _ => {},
    }
}

// ---------------------------------------------------------------------
// Commutation: two different services' confirmations can be processed in
// either order.  The transition is characterized as one instance update
// plus one delta on each route-table mapping; deltas of different owners
// on fresh handles commute.
// ---------------------------------------------------------------------

/// `e` is one of the four per-service confirmation events.
pub open spec fn confirmation_event(e: GattsEvent) -> bool {
    ||| e matches GattsEvent::ServiceCreated { .. }
    ||| e matches GattsEvent::CharacteristicAdded { .. }
    ||| e matches GattsEvent::ServiceStarted { .. }
    ||| e matches GattsEvent::ServiceDeleted { .. }
}

/// The runtime handle a successful confirmation would newly occupy.
pub open spec fn introduced_handle(e: GattsEvent) -> Option<u16> {
    match e {
        GattsEvent::ServiceCreated { status: GattStatus::Success, service_handle, .. } => Some(
            service_handle,
        ),
        GattsEvent::CharacteristicAdded { status: GattStatus::Success, attr_handle, .. } => Some(
            attr_handle,
        ),
        _ => None,
    }
}

/// No route entry and no service owns handle `h`.
pub open spec fn handle_free(s: RegModel, h: u16) -> bool {
    &&& !s.routes.contains_key(h)
    &&& (forall|u: u128| #[trigger] s.handles.contains_key(u) ==> s.handles[u] != h)
}

/// The handle the event would occupy — if any — is free, as a sane
/// driver guarantees: handles are never reused while their owner lives.
pub open spec fn fresh_for(s: RegModel, e: GattsEvent) -> bool {
    match introduced_handle(e) {
        Some(h) => handle_free(s, h),
        None => true,
    }
}

/// How one confirmation changes the attribute-handle routes.
pub enum RoutesDelta {
    Keep,
    Bind(u16, RouteTarget),
    Purge(u128),
}

/// How one confirmation changes the service-handle mapping.
pub enum HandlesDelta {
    Keep,
    Assign(u128, u16),
    Unassign(u128),
}

pub open spec fn apply_routes_delta(m: Map<u16, RouteTarget>, d: RoutesDelta) -> Map<
    u16,
    RouteTarget,
> {
    match d {
        RoutesDelta::Keep => m,
        RoutesDelta::Bind(h, t) => m.insert(h, t),
        RoutesDelta::Purge(u) => routes_without_service(m, u),
    }
}

pub open spec fn apply_handles_delta(m: Map<u128, u16>, d: HandlesDelta) -> Map<u128, u16> {
    match d {
        HandlesDelta::Keep => m,
        HandlesDelta::Assign(u, h) => m.insert(u, h),
        HandlesDelta::Unassign(u) => m.remove(u),
    }
}

/// The target instance after a confirmation whose handle, if any, is
/// fresh (so no clash branch is ever taken).
pub open spec fn inst_after(inst: InstModel, e: GattsEvent) -> InstModel {
    match e {
        GattsEvent::ServiceCreated { status, service_handle, .. } => {
            if !(inst.state is AwaitingServiceCreated) {
                inst
            } else {
                match status {
                    GattStatus::Fail(code) => deleted_inst(
                        inst,
                        Some(BtError::ProtocolStatus(code)),
                    ),
                    GattStatus::Success => if inst.chars.len() == 0 {
                        InstModel {
                            state: ServiceState::AwaitingStart,
                            handle: Some(service_handle),
                            ..inst
                        }
                    } else {
                        InstModel {
                            state: ServiceState::AwaitingCharacteristics {
                                remaining: inst.chars.len() as usize,
                            },
                            handle: Some(service_handle),
                            ..inst
                        }
                    },
                }
            }
        },
        GattsEvent::CharacteristicAdded { status, attr_handle, char_uuid, .. } => {
            match inst.state {
                ServiceState::AwaitingCharacteristics { remaining } => {
                    match status {
                        GattStatus::Fail(code) => deleted_inst(
                            inst,
                            Some(BtError::ProtocolStatus(code)),
                        ),
                        GattStatus::Success => {
                            let idx = inst.chars.len() - remaining;
                            if char_uuid != inst.chars[idx].uuid {
                                inst
                            } else if remaining == 1 {
                                InstModel {
                                    state: ServiceState::AwaitingStart,
                                    bound: inst.bound.update(idx, Some(attr_handle)),
                                    ..inst
                                }
                            } else {
                                InstModel {
                                    state: ServiceState::AwaitingCharacteristics {
                                        remaining: (remaining - 1) as usize,
                                    },
                                    bound: inst.bound.update(idx, Some(attr_handle)),
                                    ..inst
                                }
                            }
                        },
                    }
                },
                _ => inst,
            }
        },
        GattsEvent::ServiceStarted { status, .. } => {
            if !(inst.state is AwaitingStart) {
                inst
            } else {
                match status {
                    GattStatus::Fail(code) => deleted_inst(
                        inst,
                        Some(BtError::ProtocolStatus(code)),
                    ),
                    GattStatus::Success => InstModel { state: ServiceState::Live, ..inst },
                }
            }
        },
        GattsEvent::ServiceDeleted { status, .. } => {
            if !(inst.state is AwaitingDeleted) {
                inst
            } else {
                match status {
                    GattStatus::Fail(code) => deleted_inst(
                        inst,
                        Some(BtError::ProtocolStatus(code)),
                    ),
                    GattStatus::Success => deleted_inst(inst, None),
                }
            }
        },
        _ => inst,
    }
}

/// The routes delta of a confirmation whose handle, if any, is fresh.
pub open spec fn routes_delta_of(inst: InstModel, e: GattsEvent) -> RoutesDelta {
    match e {
        GattsEvent::CharacteristicAdded { status, attr_handle, char_uuid, .. } => {
            match inst.state {
                ServiceState::AwaitingCharacteristics { remaining } => {
                    match status {
                        GattStatus::Fail(_) => RoutesDelta::Purge(inst.uuid),
                        GattStatus::Success => {
                            let idx = inst.chars.len() - remaining;
                            if char_uuid != inst.chars[idx].uuid {
                                RoutesDelta::Keep
                            } else {
                                RoutesDelta::Bind(
                                    attr_handle,
                                    RouteTarget { service_uuid: inst.uuid, char_uuid },
                                )
                            }
                        },
                    }
                },
                _ => RoutesDelta::Keep,
            }
        },
        GattsEvent::ServiceStarted { status, .. } => {
            if inst.state is AwaitingStart && status !is Success {
                RoutesDelta::Purge(inst.uuid)
            } else {
                RoutesDelta::Keep
            }
        },
        GattsEvent::ServiceDeleted { .. } => {
            if inst.state is AwaitingDeleted {
                RoutesDelta::Purge(inst.uuid)
            } else {
                RoutesDelta::Keep
            }
        },
        _ => RoutesDelta::Keep,
    }
}

/// The service-handle delta of a confirmation whose handle, if any, is
/// fresh.
pub open spec fn handles_delta_of(inst: InstModel, e: GattsEvent) -> HandlesDelta {
    match e {
        GattsEvent::ServiceCreated { status, service_handle, .. } => {
            if inst.state is AwaitingServiceCreated && status is Success {
                HandlesDelta::Assign(inst.uuid, service_handle)
            } else {
                HandlesDelta::Keep
            }
        },
        GattsEvent::CharacteristicAdded { status, .. } => {
            if inst.state matches ServiceState::AwaitingCharacteristics { .. } && status !is Success {
                HandlesDelta::Unassign(inst.uuid)
            } else {
                HandlesDelta::Keep
            }
        },
        GattsEvent::ServiceStarted { status, .. } => {
            if inst.state is AwaitingStart && status !is Success {
                HandlesDelta::Unassign(inst.uuid)
            } else {
                HandlesDelta::Keep
            }
        },
        GattsEvent::ServiceDeleted { .. } => {
            if inst.state is AwaitingDeleted {
                HandlesDelta::Unassign(inst.uuid)
            } else {
                HandlesDelta::Keep
            }
        },
        _ => HandlesDelta::Keep,
    }
}

/// With a fresh handle, one confirmation is exactly: update the target
/// instance, apply one delta to each mapping.
proof fn lemma_step_characterized(s: RegModel, e: GattsEvent, j: int)
    requires
        inv(s),
        confirmation_event(e),
        event_target(s, e) == Some(j),
        fresh_for(s, e),
    ensures
        0 <= j < s.instances.len(),
        step(s, e).0.instances == s.instances.update(j, inst_after(s.instances[j], e)),
        step(s, e).0.routes == apply_routes_delta(s.routes, routes_delta_of(s.instances[j], e)),
        step(s, e).0.handles == apply_handles_delta(
            s.handles,
            handles_delta_of(s.instances[j], e),
        ),
{
    let inst = s.instances[j];
    match e {
        GattsEvent::ServiceCreated { status, service_handle, service_uuid } => {
            assert(0 <= j < s.instances.len() && s.instances[j].uuid == service_uuid);
            if inst.state is AwaitingServiceCreated && status is Success {
                assert(!handle_taken(s.handles, inst.uuid, service_handle)) by {
                    if handle_taken(s.handles, inst.uuid, service_handle) {
                        let u2 = choose|u2: u128|
                            u2 != inst.uuid && #[trigger] s.handles.contains_key(u2)
                                && s.handles[u2] == service_handle;
                        assert(s.handles[u2] != service_handle);
                    }
                }
            }
            if !(inst.state is AwaitingServiceCreated) {
                assert(s.instances.update(j, inst_after(inst, e)) =~= s.instances);
            }
        },
        GattsEvent::CharacteristicAdded { status, attr_handle, service_handle, char_uuid } => {
            assert(0 <= j < s.instances.len() && s.instances[j].handle == Some(service_handle));
            match inst.state {
                ServiceState::AwaitingCharacteristics { remaining } => {
                    if status is Success {
                        assert(!s.routes.contains_key(attr_handle));
                        let idx = inst.chars.len() - remaining;
                        if char_uuid != inst.chars[idx].uuid {
                            assert(s.instances.update(j, inst_after(inst, e)) =~= s.instances);
                        }
                    }
                },
                _ => {
                    assert(s.instances.update(j, inst_after(inst, e)) =~= s.instances);
                },
            }
        },
        GattsEvent::ServiceStarted { status, service_handle } => {
            assert(0 <= j < s.instances.len() && s.instances[j].handle == Some(service_handle));
            if !(inst.state is AwaitingStart) {
                assert(s.instances.update(j, inst_after(inst, e)) =~= s.instances);
            }
        },
        GattsEvent::ServiceDeleted { status, service_handle } => {
            assert(0 <= j < s.instances.len() && s.instances[j].handle == Some(service_handle));
            if !(inst.state is AwaitingDeleted) {
                assert(s.instances.update(j, inst_after(inst, e)) =~= s.instances);
            }
        },
        _ => {},
    }
}

/// Deltas of two different owners on two different fresh handles
/// commute.
proof fn lemma_routes_deltas_commute(m: Map<u16, RouteTarget>, d1: RoutesDelta, d2: RoutesDelta)
    requires
        match (d1, d2) {
            (RoutesDelta::Bind(h1, _), RoutesDelta::Bind(h2, _)) => h1 != h2,
            (RoutesDelta::Bind(_, t1), RoutesDelta::Purge(u2)) => t1.service_uuid != u2,
            (RoutesDelta::Purge(u1), RoutesDelta::Bind(_, t2)) => t2.service_uuid != u1,
            _ => true,
        },
    ensures
        apply_routes_delta(apply_routes_delta(m, d1), d2) == apply_routes_delta(
            apply_routes_delta(m, d2),
            d1,
        ),
{
    assert(apply_routes_delta(apply_routes_delta(m, d1), d2) =~= apply_routes_delta(
        apply_routes_delta(m, d2),
        d1,
    ));
}

/// Service-handle deltas of two different services commute.
proof fn lemma_handles_deltas_commute(m: Map<u128, u16>, d1: HandlesDelta, d2: HandlesDelta)
    requires
        match (d1, d2) {
            (HandlesDelta::Assign(u1, _), HandlesDelta::Assign(u2, _)) => u1 != u2,
            (HandlesDelta::Assign(u1, _), HandlesDelta::Unassign(u2)) => u1 != u2,
            (HandlesDelta::Unassign(u1), HandlesDelta::Assign(u2, _)) => u1 != u2,
            _ => true,
        },
    ensures
        apply_handles_delta(apply_handles_delta(m, d1), d2) == apply_handles_delta(
            apply_handles_delta(m, d2),
            d1,
        ),
{
    assert(apply_handles_delta(apply_handles_delta(m, d1), d2) =~= apply_handles_delta(
        apply_handles_delta(m, d2),
        d1,
    ));
}

/// Two different services' confirmations commute: processed in either
/// order, with the fresh runtime handles a sane driver assigns, they
/// produce the same machine state and route table — so every
/// interleaving of the two services' confirmation streams ends in the
/// same state as processing each service's stream in isolation.
pub proof fn lemma_confirmations_commute(s: RegModel, e1: GattsEvent, e2: GattsEvent)
    requires
        inv(s),
        confirmation_event(e1),
        confirmation_event(e2),
        event_target(s, e1) is Some,
        event_target(s, e2) is Some,
        event_target(s, e1) != event_target(s, e2),
        fresh_for(s, e1),
        fresh_for(s, e2),
        match (introduced_handle(e1), introduced_handle(e2)) {
            (Some(h1), Some(h2)) => h1 != h2,
            _ => true,
        },
    ensures
        step(step(s, e1).0, e2).0 == step(step(s, e2).0, e1).0,
{
    let j1 = event_target(s, e1)->0;
    let j2 = event_target(s, e2)->0;
    lemma_step_characterized(s, e1, j1);
    lemma_step_characterized(s, e2, j2);
    lemma_step_preserves_inv(s, e1);
    lemma_step_preserves_inv(s, e2);
    let m1 = step(s, e1).0;
    let m2 = step(s, e2).0;
    let u1 = s.instances[j1].uuid;
    let u2 = s.instances[j2].uuid;
    if j1 < j2 {
        assert(s.instances[j1].uuid != s.instances[j2].uuid);
    } else {
        assert(s.instances[j2].uuid != s.instances[j1].uuid);
    }
    assert(m1.instances[j2] == s.instances[j2]);
    assert(m2.instances[j1] == s.instances[j1]);
    assert(inst_after(s.instances[j1], e1).uuid == u1);
    assert(inst_after(s.instances[j2], e2).uuid == u2);

    lemma_target_stable(s, e1, j1, e2, j2);
    lemma_target_stable(s, e2, j2, e1, j1);
    lemma_fresh_stable(s, e1, j1, e2);
    lemma_fresh_stable(s, e2, j2, e1);
    lemma_step_characterized(m1, e2, j2);
    lemma_step_characterized(m2, e1, j1);

    let a = inst_after(s.instances[j1], e1);
    let b = inst_after(s.instances[j2], e2);
    assert(step(m1, e2).0.instances =~= s.instances.update(j1, a).update(j2, b));
    assert(step(m2, e1).0.instances =~= s.instances.update(j2, b).update(j1, a));
    assert(step(m1, e2).0.instances =~= step(m2, e1).0.instances);

    let rd1 = routes_delta_of(s.instances[j1], e1);
    let rd2 = routes_delta_of(s.instances[j2], e2);
    assert(match rd1 {
        RoutesDelta::Keep => true,
        RoutesDelta::Bind(h, t) => t.service_uuid == u1 && introduced_handle(e1) == Some(h),
        RoutesDelta::Purge(u) => u == u1,
    });
    assert(match rd2 {
        RoutesDelta::Keep => true,
        RoutesDelta::Bind(h, t) => t.service_uuid == u2 && introduced_handle(e2) == Some(h),
        RoutesDelta::Purge(u) => u == u2,
    });
    match (introduced_handle(e1), introduced_handle(e2)) {
        (Some(h1), Some(h2)) => {
            assert(h1 != h2);
        },
        _ => {},
    }
    lemma_routes_deltas_commute(s.routes, rd1, rd2);
    assert(step(m1, e2).0.routes == step(m2, e1).0.routes);

    let hd1 = handles_delta_of(s.instances[j1], e1);
    let hd2 = handles_delta_of(s.instances[j2], e2);
    assert(match hd1 {
        HandlesDelta::Keep => true,
        HandlesDelta::Assign(u, _) => u == u1,
        HandlesDelta::Unassign(u) => u == u1,
    });
    assert(match hd2 {
        HandlesDelta::Keep => true,
        HandlesDelta::Assign(u, _) => u == u2,
        HandlesDelta::Unassign(u) => u == u2,
    });
    lemma_handles_deltas_commute(s.handles, hd1, hd2);
    assert(step(m1, e2).0.handles == step(m2, e1).0.handles);

    assert(step(step(s, e1).0, e2).0 =~= step(step(s, e2).0, e1).0);
}

/// A confirmation of one service leaves another event's target where it
/// was.
proof fn lemma_target_stable(s: RegModel, e1: GattsEvent, j1: int, e2: GattsEvent, j2: int)
    requires
        inv(s),
        confirmation_event(e1),
        confirmation_event(e2),
        event_target(s, e1) == Some(j1),
        event_target(s, e2) == Some(j2),
        j1 != j2,
        fresh_for(s, e1),
    ensures
        event_target(step(s, e1).0, e2) == Some(j2),
{
    lemma_step_characterized(s, e1, j1);
    lemma_step_preserves_inv(s, e1);
    let m1 = step(s, e1).0;
    assert(m1.instances[j2] == s.instances[j2]);
    match e2 {
        GattsEvent::ServiceCreated { service_uuid, .. } => {
            assert(s.instances[j2].uuid == service_uuid);
            lemma_uuid_index_unique(m1, j2, service_uuid);
        },
        GattsEvent::CharacteristicAdded { service_handle, .. } => {
            assert(s.instances[j2].handle == Some(service_handle));
            lemma_handle_index_unique(m1, j2, service_handle);
        },
        GattsEvent::ServiceStarted { service_handle, .. } => {
            assert(s.instances[j2].handle == Some(service_handle));
            lemma_handle_index_unique(m1, j2, service_handle);
        },
        GattsEvent::ServiceDeleted { service_handle, .. } => {
            assert(s.instances[j2].handle == Some(service_handle));
            lemma_handle_index_unique(m1, j2, service_handle);
        },
        _ => {},
    }
}

/// A confirmation of one service cannot occupy the fresh handle another
/// confirmation is about to use.
proof fn lemma_fresh_stable(s: RegModel, e1: GattsEvent, j1: int, e2: GattsEvent)
    requires
        inv(s),
        confirmation_event(e1),
        event_target(s, e1) == Some(j1),
        fresh_for(s, e1),
        fresh_for(s, e2),
        match (introduced_handle(e1), introduced_handle(e2)) {
            (Some(h1), Some(h2)) => h1 != h2,
            _ => true,
        },
    ensures
        fresh_for(step(s, e1).0, e2),
{
    lemma_step_characterized(s, e1, j1);
    let m1 = step(s, e1).0;
    match introduced_handle(e2) {
        Some(h2) => {
            assert(handle_free(m1, h2)) by {
                assert(!m1.routes.contains_key(h2));
                assert forall|u: u128| #[trigger] m1.handles.contains_key(u)
                    implies m1.handles[u] != h2 by {
                    match handles_delta_of(s.instances[j1], e1) {
                        HandlesDelta::Keep => {},
                        HandlesDelta::Assign(ua, ha) => {
                            if u != ua {
                                assert(s.handles.contains_key(u));
                            }
                        },
                        HandlesDelta::Unassign(uu) => {
                            assert(s.handles.contains_key(u));
                        },
                    }
                }
            }
        },
        None => {},
    }
}

/// Folds a stream of driver events through the transition function.
pub open spec fn run(s: RegModel, es: Seq<GattsEvent>) -> RegModel
    decreases es.len(),
{
    if es.len() == 0 {
        s
    } else {
        run(step(s, es[0]).0, es.drop_first())
    }
}

/// The stream consists of per-service confirmations, none of which
/// targets instance `j` at the moment it is processed.
pub open spec fn run_avoids(s: RegModel, es: Seq<GattsEvent>, j: int) -> bool
    decreases es.len(),
{
    if es.len() == 0 {
        true
    } else {
        &&& !(es[0] is ServiceRegistered)
        &&& event_target(s, es[0]) != Some(j)
        &&& run_avoids(step(s, es[0]).0, es.drop_first(), j)
    }
}

/// Interleaving safety: however another service's (or a stray handle's)
/// confirmations are interleaved, a stream that never targets instance
/// `j` leaves `j`'s state, its recorded service handle, and every route
/// entry it owns identical to not processing the stream at all — so the
/// route table `j` ends with is the one its own confirmations built in
/// isolation.
pub proof fn lemma_interleaving_isolation(s: RegModel, es: Seq<GattsEvent>, j: int)
    requires
        inv(s),
        0 <= j < s.instances.len(),
        run_avoids(s, es, j),
    ensures
        inv(run(s, es)),
        run(s, es).instances.len() == s.instances.len(),
        run(s, es).instances[j] == s.instances[j],
        run(s, es).handles.contains_key(s.instances[j].uuid) <==> s.handles.contains_key(
            s.instances[j].uuid,
        ),
        s.handles.contains_key(s.instances[j].uuid) ==> run(s, es).handles[s.instances[j].uuid]
            == s.handles[s.instances[j].uuid],
        forall|h: u16|
            #[trigger] s.routes.contains_key(h) && s.routes[h].service_uuid
                == s.instances[j].uuid ==> run(s, es).routes.contains_key(h) && run(
                s,
                es,
            ).routes[h] == s.routes[h],
        forall|h: u16|
            #[trigger] run(s, es).routes.contains_key(h) && run(s, es).routes[h].service_uuid
                == s.instances[j].uuid ==> s.routes.contains_key(h) && s.routes[h] == run(
                s,
                es,
            ).routes[h],
    decreases es.len(),
{
    if es.len() > 0 {
        let s1 = step(s, es[0]).0;
        lemma_confirmation_frame(s, es[0], j);
        lemma_step_preserves_inv(s, es[0]);
        lemma_interleaving_isolation(s1, es.drop_first(), j);
    }
}

// ---------------------------------------------------------------------
// The transition function preserves the machine invariant.
// ---------------------------------------------------------------------

/// Replacing an instance with one of the same identifier leaves the set
/// of present identifiers unchanged.
proof fn lemma_has_inst_uuid_update(insts: Seq<InstModel>, i: int, e: InstModel, u: u128)
    requires
        0 <= i < insts.len(),
        e.uuid == insts[i].uuid,
    ensures
        has_inst_uuid(insts.update(i, e), u) <==> has_inst_uuid(insts, u),
{
    if has_inst_uuid(insts, u) {
        let j = choose|j: int| 0 <= j < insts.len() && (#[trigger] insts[j]).uuid == u;
        assert(insts.update(i, e)[j].uuid == u);
    }
    if has_inst_uuid(insts.update(i, e), u) {
        let j = choose|j: int|
            0 <= j < insts.update(i, e).len() && (#[trigger] insts.update(i, e)[j]).uuid == u;
        assert(insts[j].uuid == u);
    }
}

/// An instance holding a runtime handle has it recorded in the
/// service-handle mapping.
proof fn lemma_handle_some_recorded(s: RegModel, i: int)
    requires
        inv(s),
        0 <= i < s.instances.len(),
        s.instances[i].handle is Some,
    ensures
        s.handles.contains_key(s.instances[i].uuid),
        s.handles[s.instances[i].uuid] == s.instances[i].handle->0,
{
    assert(inst_ok(s, i));
    match s.instances[i].state {
        ServiceState::Declared => assert(inst_unrecorded(s, i)),
        ServiceState::AwaitingServiceCreated => assert(inst_unrecorded(s, i)),
        ServiceState::AwaitingCharacteristics { remaining } => assert(inst_recorded(s, i)),
        ServiceState::AwaitingStart => assert(inst_recorded(s, i)),
        ServiceState::Live => assert(inst_recorded(s, i)),
        ServiceState::AwaitingDeleted => assert(inst_recorded(s, i)),
        ServiceState::Deleted => assert(inst_unrecorded(s, i)),
    }
}

/// Under the invariant, the instance carrying a given identifier is
/// unique, so the chosen index is the found one.
proof fn lemma_uuid_index_unique(s: RegModel, i: int, u: u128)
    requires
        inv(s),
        0 <= i < s.instances.len(),
        s.instances[i].uuid == u,
    ensures
        has_inst_uuid(s.instances, u),
        inst_idx_uuid(s.instances, u) == i,
{
    assert(has_inst_uuid(s.instances, u));
    let j = inst_idx_uuid(s.instances, u);
    assert(0 <= j < s.instances.len() && s.instances[j].uuid == u);
    if i < j {
        assert(s.instances[i].uuid != s.instances[j].uuid);
    }
    if j < i {
        assert(s.instances[j].uuid != s.instances[i].uuid);
    }
}

/// Under the invariant, the instance holding a given runtime handle is
/// unique, so the chosen index is the found one.
proof fn lemma_handle_index_unique(s: RegModel, i: int, h: u16)
    requires
        inv(s),
        0 <= i < s.instances.len(),
        s.instances[i].handle == Some(h),
    ensures
        has_inst_handle(s.instances, h),
        inst_idx_handle(s.instances, h) == i,
{
    assert(has_inst_handle(s.instances, h));
    let j = inst_idx_handle(s.instances, h);
    assert(0 <= j < s.instances.len() && s.instances[j].handle == Some(h));
    if i != j {
        lemma_handle_some_recorded(s, i);
        lemma_handle_some_recorded(s, j);
        if i < j {
            assert(s.instances[i].uuid != s.instances[j].uuid);
        } else {
            assert(s.instances[j].uuid != s.instances[i].uuid);
        }
        assert(false);
    }
}

/// An instance stays consistent when it and its own table entries are
/// untouched, whatever happened to entries of other services.
proof fn lemma_inst_ok_stable(s1: RegModel, s2: RegModel, i: int)
    requires
        0 <= i < s1.instances.len(),
        i < s2.instances.len(),
        inst_ok(s1, i),
        s2.instances[i] == s1.instances[i],
        s2.handles.contains_key(s1.instances[i].uuid) <==> s1.handles.contains_key(
            s1.instances[i].uuid,
        ),
        s1.handles.contains_key(s1.instances[i].uuid) ==> s2.handles[s1.instances[i].uuid]
            == s1.handles[s1.instances[i].uuid],
        forall|h: u16|
            #[trigger] s1.routes.contains_key(h) && s1.routes[h].service_uuid
                == s1.instances[i].uuid ==> s2.routes.contains_key(h) && s2.routes[h]
                == s1.routes[h],
        forall|h: u16|
            #[trigger] s2.routes.contains_key(h) && s2.routes[h].service_uuid
                == s1.instances[i].uuid ==> s1.routes.contains_key(h) && s1.routes[h]
                == s2.routes[h],
    ensures
        inst_ok(s2, i),
{
    let inst = s1.instances[i];
    let u = inst.uuid;
    assert(routes_match_bound(s1, i) ==> routes_match_bound(s2, i)) by {
        if routes_match_bound(s1, i) {
            assert forall|k: int| 0 <= k < inst.bound.len() implies match #[trigger] inst.bound[k] {
                Some(bh) => s2.routes.contains_key(bh) && s2.routes[bh] == (RouteTarget {
                    service_uuid: inst.uuid,
                    char_uuid: inst.chars[k].uuid,
                }),
                None => true,
            } by {
                match inst.bound[k] {
                    Some(bh) => {
                        assert(s1.routes.contains_key(bh) && s1.routes[bh].service_uuid == u);
                    },
                    None => {},
                }
            }
            assert forall|h: u16|
                #[trigger] s2.routes.contains_key(h) && s2.routes[h].service_uuid == u
                    implies exists|k: int|
                    0 <= k < inst.bound.len() && (#[trigger] inst.bound[k]) == Some(h) by {
                assert(s1.routes.contains_key(h) && s1.routes[h] == s2.routes[h]);
            }
        }
    }
    assert(no_routes_owned(s1.routes, u) ==> no_routes_owned(s2.routes, u)) by {
        if no_routes_owned(s1.routes, u) {
            assert forall|h: u16| #[trigger] s2.routes.contains_key(h)
                implies s2.routes[h].service_uuid != u by {
                if s2.routes[h].service_uuid == u {
                    assert(s1.routes.contains_key(h) && s1.routes[h].service_uuid == u);
                }
            }
        }
    }
}

/// Ending one instance and purging its table entries preserves the
/// invariant, whatever its previous state.
proof fn lemma_purge_preserves_inv(s: RegModel, i: int, fault: Option<BtError>)
    requires
        inv(s),
        0 <= i < s.instances.len(),
    ensures
        inv(purge_inst(s, i, fault)),
{
    let s1 = purge_inst(s, i, fault);
    let u = s.instances[i].uuid;
    assert(inst_ok(s, i));
    assert(s1.instances[i] == deleted_inst(s.instances[i], fault));
    assert(inst_ok(s1, i)) by {
        assert(!s1.handles.contains_key(u));
        assert(no_routes_owned(s1.routes, u));
        assert(forall|k: int|
            0 <= k < s1.instances[i].bound.len() ==> (#[trigger] s1.instances[i].bound[k]) is None);
    }
    assert forall|j: int| 0 <= j < s1.instances.len() && j != i implies inst_ok(s1, j) by {
        assert(inst_ok(s, j));
        assert(s1.instances[j] == s.instances[j]);
        let uj = s.instances[j].uuid;
        if j < i {
            assert(s.instances[j].uuid != s.instances[i].uuid);
        } else {
            assert(s.instances[i].uuid != s.instances[j].uuid);
        }
        assert forall|h: u16|
            #[trigger] s.routes.contains_key(h) && s.routes[h].service_uuid == uj
                implies s1.routes.contains_key(h) && s1.routes[h] == s.routes[h] by {}
        lemma_inst_ok_stable(s, s1, j);
    }
    assert forall|u2: u128| #[trigger] s1.handles.contains_key(u2)
        implies has_inst_uuid(s1.instances, u2) by {
        assert(s.handles.contains_key(u2));
        lemma_has_inst_uuid_update(s.instances, i, deleted_inst(s.instances[i], fault), u2);
    }
    assert forall|h: u16| #[trigger] s1.routes.contains_key(h)
        implies has_inst_uuid(s1.instances, s1.routes[h].service_uuid) by {
        assert(s.routes.contains_key(h) && s.routes[h] == s1.routes[h]);
        lemma_has_inst_uuid_update(
            s.instances,
            i,
            deleted_inst(s.instances[i], fault),
            s1.routes[h].service_uuid,
        );
    }
}

/// Answering the application registration preserves the invariant.
proof fn lemma_app_registered_preserves_inv(s: RegModel, status: GattStatus)
    requires
        inv(s),
    ensures
        inv(step_app_registered(s, status).0),
{
    let s1 = step_app_registered(s, status).0;
    assert(s1.routes == s.routes && s1.handles == s.handles);
    assert(s1.instances.len() == s.instances.len());
    assert forall|j: int| 0 <= j < s.instances.len()
        implies (#[trigger] s1.instances[j]).uuid == s.instances[j].uuid
            && (#[trigger] s1.instances[j]).bound.len() == s1.instances[j].chars.len()
            && inst_ok(s1, j) by {
        assert(inst_ok(s, j));
        let old_inst = s.instances[j];
        if old_inst.state is Declared {
            assert(inst_unrecorded(s, j));
            assert(forall|k: int|
                0 <= k < s1.instances[j].bound.len()
                    ==> (#[trigger] s1.instances[j].bound[k]) is None);
        } else {
            assert(s1.instances[j] == old_inst);
        }
    }
    assert forall|u2: u128| #[trigger] s1.handles.contains_key(u2)
        implies has_inst_uuid(s1.instances, u2) by {
        assert(has_inst_uuid(s.instances, u2));
        let j = choose|j: int| 0 <= j < s.instances.len() && (#[trigger] s.instances[j]).uuid == u2;
        assert(s1.instances[j].uuid == u2);
    }
    assert forall|h: u16| #[trigger] s1.routes.contains_key(h)
        implies has_inst_uuid(s1.instances, s1.routes[h].service_uuid) by {
        assert(has_inst_uuid(s.instances, s.routes[h].service_uuid));
        let j = choose|j: int|
            0 <= j < s.instances.len() && (#[trigger] s.instances[j]).uuid
                == s.routes[h].service_uuid;
        assert(s1.instances[j].uuid == s.routes[h].service_uuid);
    }
}

/// Answering a create-service command preserves the invariant.
proof fn lemma_created_preserves_inv(
    s: RegModel,
    status: GattStatus,
    service_handle: u16,
    service_uuid: u128,
)
    requires
        inv(s),
    ensures
        inv(step_service_created(s, status, service_handle, service_uuid).0),
{
    if !has_inst_uuid(s.instances, service_uuid) {
        return ;
    }
    let i = inst_idx_uuid(s.instances, service_uuid);
    assert(0 <= i < s.instances.len() && s.instances[i].uuid == service_uuid);
    let inst = s.instances[i];
    if !(inst.state is AwaitingServiceCreated) {
        return ;
    }
    assert(inst_ok(s, i));
    assert(inst_unrecorded(s, i));
    let s1 = step_service_created(s, status, service_handle, service_uuid).0;
    let failing = status !is Success || handle_taken(s.handles, inst.uuid, service_handle);
    if failing {
        assert(s1.routes == s.routes && s1.handles == s.handles);
        assert(inst_ok(s1, i)) by {
            assert(forall|k: int|
                0 <= k < s1.instances[i].bound.len()
                    ==> (#[trigger] s1.instances[i].bound[k]) is None);
        }
    } else {
        assert(s1.handles == s.handles.insert(inst.uuid, service_handle));
        assert(s1.routes == s.routes);
        assert(inst_ok(s1, i)) by {
            assert(s1.handles.contains_key(inst.uuid) && s1.handles[inst.uuid] == service_handle);
            assert(no_routes_owned(s.routes, inst.uuid));
            assert(routes_match_bound(s1, i)) by {
                assert(forall|k: int|
                    0 <= k < s1.instances[i].bound.len()
                        ==> (#[trigger] s1.instances[i].bound[k]) is None);
                assert forall|h: u16|
                    #[trigger] s1.routes.contains_key(h) && s1.routes[h].service_uuid == inst.uuid
                        implies exists|k: int|
                        0 <= k < s1.instances[i].bound.len() && (#[trigger] s1.instances[i].bound[k])
                            == Some(h) by {
                    assert(s.routes.contains_key(h) && s.routes[h].service_uuid == inst.uuid);
                    assert(false);
                }
            }
        }
    }
    let e = s1.instances[i];
    assert(e.uuid == inst.uuid);
    assert forall|j: int| 0 <= j < s1.instances.len() && j != i implies inst_ok(s1, j) by {
        assert(inst_ok(s, j));
        assert(s1.instances[j] == s.instances[j]);
        let uj = s.instances[j].uuid;
        if j < i {
            assert(s.instances[j].uuid != s.instances[i].uuid);
        } else {
            assert(s.instances[i].uuid != s.instances[j].uuid);
        }
        lemma_inst_ok_stable(s, s1, j);
    }
    assert forall|u2: u128| #[trigger] s1.handles.contains_key(u2)
        implies has_inst_uuid(s1.instances, u2) by {
        lemma_has_inst_uuid_update(s.instances, i, e, u2);
        if u2 != inst.uuid {
            assert(s.handles.contains_key(u2));
        }
    }
    assert forall|h: u16| #[trigger] s1.routes.contains_key(h)
        implies has_inst_uuid(s1.instances, s1.routes[h].service_uuid) by {
        assert(s.routes.contains_key(h) && s.routes[h] == s1.routes[h]);
        lemma_has_inst_uuid_update(s.instances, i, e, s1.routes[h].service_uuid);
    }
    assert forall|u1: u128, u2: u128|
        #[trigger] s1.handles.contains_key(u1) && #[trigger] s1.handles.contains_key(u2) && u1
            != u2 implies s1.handles[u1] != s1.handles[u2] by {
        if !failing {
            if u1 == inst.uuid {
                assert(s.handles.contains_key(u2));
                assert(!handle_taken(s.handles, inst.uuid, service_handle));
                assert(s1.handles[u1] == service_handle);
                if s.handles[u2] == service_handle {
                    assert(handle_taken(s.handles, inst.uuid, service_handle));
                }
            } else if u2 == inst.uuid {
                assert(s.handles.contains_key(u1));
                assert(s1.handles[u2] == service_handle);
                if s.handles[u1] == service_handle {
                    assert(handle_taken(s.handles, inst.uuid, service_handle));
                }
            }
        }
    }
}

/// Answering an add-characteristic command preserves the invariant.
proof fn lemma_char_added_preserves_inv(
    s: RegModel,
    status: GattStatus,
    attr_handle: u16,
    service_handle: u16,
    char_uuid: u128,
)
    requires
        inv(s),
    ensures
        inv(step_characteristic_added(s, status, attr_handle, service_handle, char_uuid).0),
{
    if !has_inst_handle(s.instances, service_handle) {
        return ;
    }
    let i = inst_idx_handle(s.instances, service_handle);
    assert(0 <= i < s.instances.len() && s.instances[i].handle == Some(service_handle));
    let inst = s.instances[i];
    match inst.state {
        ServiceState::AwaitingCharacteristics { remaining } => {
            assert(inst_ok(s, i));
            assert(inst_recorded(s, i));
            match status {
                GattStatus::Fail(_) => {
                    lemma_purge_preserves_inv(s, i, Some(BtError::ProtocolStatus(status->Fail_0)));
                },
                GattStatus::Success => {
                    let idx = inst.chars.len() - remaining;
                    if char_uuid != inst.chars[idx].uuid {
                    } else if s.routes.contains_key(attr_handle) {
                        lemma_purge_preserves_inv(s, i, Some(BtError::InvalidHandle));
                    } else {
                        let s1 = step_characteristic_added(
                            s,
                            status,
                            attr_handle,
                            service_handle,
                            char_uuid,
                        ).0;
                        let u = inst.uuid;
                        let e = s1.instances[i];
                        assert(e.uuid == u);
                        assert(s1.routes == s.routes.insert(
                            attr_handle,
                            RouteTarget { service_uuid: u, char_uuid },
                        ));
                        assert(s1.handles == s.handles);
                        assert(e.bound == inst.bound.update(idx, Some(attr_handle)));
                        // the new handle is fresh: every already-bound handle is routed
                        assert forall|k: int|
                            0 <= k < inst.bound.len() && (#[trigger] inst.bound[k]) is Some
                                implies inst.bound[k]->0 != attr_handle by {
                            assert(s.routes.contains_key(inst.bound[k]->0));
                        }
                        assert(inst_ok(s1, i)) by {
                            assert(bound_distinct(e.bound)) by {
                                assert forall|k1: int, k2: int|
                                    0 <= k1 < k2 < e.bound.len() && (#[trigger] e.bound[k1]) is Some
                                        && (#[trigger] e.bound[k2]) is Some implies e.bound[k1]
                                        != e.bound[k2] by {
                                    if k1 != idx && k2 != idx {
                                        assert(e.bound[k1] == inst.bound[k1]);
                                        assert(e.bound[k2] == inst.bound[k2]);
                                    }
                                }
                            }
                            assert(routes_match_bound(s1, i)) by {
                                assert forall|k: int| 0 <= k < e.bound.len() implies match #[trigger] e.bound[k] {
                                    Some(bh) => s1.routes.contains_key(bh) && s1.routes[bh]
                                        == (RouteTarget {
                                        service_uuid: e.uuid,
                                        char_uuid: e.chars[k].uuid,
                                    }),
                                    None => true,
                                } by {
                                    if k == idx {
                                        assert(e.bound[k] == Some(attr_handle));
                                    } else {
                                        assert(e.bound[k] == inst.bound[k]);
                                        match inst.bound[k] {
                                            Some(bh) => {
                                                assert(s.routes.contains_key(bh));
                                                assert(bh != attr_handle);
                                            },
                                            None => {},
                                        }
                                    }
                                }
                                assert forall|h: u16|
                                    #[trigger] s1.routes.contains_key(h) && s1.routes[h].service_uuid
                                        == e.uuid implies exists|k: int|
                                        0 <= k < e.bound.len() && (#[trigger] e.bound[k]) == Some(h) by {
                                    if h == attr_handle {
                                        assert(e.bound[idx] == Some(h));
                                    } else {
                                        assert(s.routes.contains_key(h) && s.routes[h].service_uuid
                                            == u);
                                        let k = choose|k: int|
                                            0 <= k < inst.bound.len() && (#[trigger] inst.bound[k])
                                                == Some(h);
                                        assert(e.bound[k] == Some(h));
                                    }
                                }
                            }
                            assert(inst_recorded(s1, i));
                            if remaining == 1 {
                                assert(e.state is AwaitingStart);
                                assert forall|k: int| 0 <= k < e.bound.len()
                                    implies (#[trigger] e.bound[k]) is Some by {
                                    if k != idx {
                                        assert(inst.bound[k] is Some <==> k < idx);
                                    }
                                }
                            } else {
                                assert forall|k: int| 0 <= k < e.bound.len()
                                    implies ((#[trigger] e.bound[k]) is Some <==> k < idx + 1) by {
                                    if k != idx {
                                        assert(e.bound[k] == inst.bound[k]);
                                    }
                                }
                            }
                        }
                        assert forall|j: int| 0 <= j < s1.instances.len() && j != i
                            implies inst_ok(s1, j) by {
                            assert(inst_ok(s, j));
                            assert(s1.instances[j] == s.instances[j]);
                            let uj = s.instances[j].uuid;
                            if j < i {
                                assert(s.instances[j].uuid != s.instances[i].uuid);
                            } else {
                                assert(s.instances[i].uuid != s.instances[j].uuid);
                            }
                            lemma_inst_ok_stable(s, s1, j);
                        }
                        assert forall|u2: u128| #[trigger] s1.handles.contains_key(u2)
                            implies has_inst_uuid(s1.instances, u2) by {
                            lemma_has_inst_uuid_update(s.instances, i, e, u2);
                        }
                        assert forall|h: u16| #[trigger] s1.routes.contains_key(h)
                            implies has_inst_uuid(s1.instances, s1.routes[h].service_uuid) by {
                            lemma_has_inst_uuid_update(s.instances, i, e, s1.routes[h].service_uuid);
                            if h != attr_handle {
                                assert(s.routes.contains_key(h) && s.routes[h] == s1.routes[h]);
                            } else {
                                lemma_uuid_index_unique(s, i, u);
                            }
                        }
                    }
                },
            }
        },
        _ => {},
    }
}

/// Answering a start-service command preserves the invariant.
proof fn lemma_started_preserves_inv(s: RegModel, status: GattStatus, service_handle: u16)
    requires
        inv(s),
    ensures
        inv(step_service_started(s, status, service_handle).0),
{
    if !has_inst_handle(s.instances, service_handle) {
        return ;
    }
    let i = inst_idx_handle(s.instances, service_handle);
    assert(0 <= i < s.instances.len() && s.instances[i].handle == Some(service_handle));
    let inst = s.instances[i];
    if !(inst.state is AwaitingStart) {
        return ;
    }
    assert(inst_ok(s, i));
    match status {
        GattStatus::Fail(_) => {
            lemma_purge_preserves_inv(s, i, Some(BtError::ProtocolStatus(status->Fail_0)));
        },
        GattStatus::Success => {
            let s1 = step_service_started(s, status, service_handle).0;
            let e = s1.instances[i];
            assert(s1.routes == s.routes && s1.handles == s.handles);
            assert(inst_ok(s1, i));
            assert forall|j: int| 0 <= j < s1.instances.len() && j != i implies inst_ok(s1, j) by {
                assert(inst_ok(s, j));
                assert(s1.instances[j] == s.instances[j]);
                lemma_inst_ok_stable(s, s1, j);
            }
            assert forall|u2: u128| #[trigger] s1.handles.contains_key(u2)
                implies has_inst_uuid(s1.instances, u2) by {
                lemma_has_inst_uuid_update(s.instances, i, e, u2);
            }
            assert forall|h: u16| #[trigger] s1.routes.contains_key(h)
                implies has_inst_uuid(s1.instances, s1.routes[h].service_uuid) by {
                lemma_has_inst_uuid_update(s.instances, i, e, s1.routes[h].service_uuid);
            }
        },
    }
}

/// Answering a delete-service command preserves the invariant.
proof fn lemma_deleted_preserves_inv(s: RegModel, status: GattStatus, service_handle: u16)
    requires
        inv(s),
    ensures
        inv(step_service_deleted(s, status, service_handle).0),
{
    if !has_inst_handle(s.instances, service_handle) {
        return ;
    }
    let i = inst_idx_handle(s.instances, service_handle);
    assert(0 <= i < s.instances.len() && s.instances[i].handle == Some(service_handle));
    let inst = s.instances[i];
    if !(inst.state is AwaitingDeleted) {
        return ;
    }
    match status {
        GattStatus::Fail(_) => {
            lemma_purge_preserves_inv(s, i, Some(BtError::ProtocolStatus(status->Fail_0)));
        },
        GattStatus::Success => {
            lemma_purge_preserves_inv(s, i, None);
        },
    }
}

/// No transition registers or drops an instance: only registration does.
pub proof fn lemma_step_preserves_len(s: RegModel, e: GattsEvent)
    ensures
        step(s, e).0.instances.len() == s.instances.len(),
{
}

/// Every transition preserves the machine invariant.
pub proof fn lemma_step_preserves_inv(s: RegModel, e: GattsEvent)
    requires
        inv(s),
    ensures
        inv(step(s, e).0),
{
    match e {
        GattsEvent::ServiceRegistered { status, .. } => lemma_app_registered_preserves_inv(
            s,
            status,
        ),
        GattsEvent::ServiceCreated { status, service_handle, service_uuid } => lemma_created_preserves_inv(
            s,
            status,
            service_handle,
            service_uuid,
        ),
        GattsEvent::CharacteristicAdded {
            status,
            attr_handle,
            service_handle,
            char_uuid,
        } => lemma_char_added_preserves_inv(s, status, attr_handle, service_handle, char_uuid),
        GattsEvent::ServiceStarted { status, service_handle } => lemma_started_preserves_inv(
            s,
            status,
            service_handle,
        ),
        GattsEvent::ServiceDeleted { status, service_handle } => lemma_deleted_preserves_inv(
            s,
            status,
            service_handle,
        ),
        _ => {},
    }
}

// ---------------------------------------------------------------------
// The machine itself.
// ---------------------------------------------------------------------

/// The registration state machine and the route table it maintains.
pub struct ServiceRegistry {
    instances: Vec<ServiceInstance>,
    table: AttrRouteTable,
}

impl View for ServiceRegistry {
    type V = RegModel;

    closed spec fn view(&self) -> RegModel {
        RegModel {
            instances: self.instances@.map_values(|inst: ServiceInstance| inst@),
            routes: self.table.routes(),
            handles: self.table.service_handles(),
        }
    }
}

/// The per-characteristic handle records mirror the declaration list.
pub open spec fn inst_sync(inst: ServiceInstance) -> bool {
    &&& inst.char_handles@.len() == inst.descriptor.characteristics@.len()
    &&& (forall|k: int|
        0 <= k < inst.char_handles@.len()
            ==> (#[trigger] inst.char_handles@[k]).char_uuid
                == inst.descriptor.characteristics@[k].uuid)
}

impl ServiceRegistry {
    pub closed spec fn wf(self) -> bool {
        &&& self.table.wf()
        &&& inv(self@)
        &&& (forall|i: int|
            0 <= i < self.instances@.len() ==> inst_sync(#[trigger] self.instances@[i]))
    }

    /// A well-formed machine satisfies the machine invariant.
    pub proof fn wf_implies_inv(&self)
        requires
            self.wf(),
        ensures
            inv(self@),
    {
    }

    pub fn new() -> (r: ServiceRegistry)
        ensures
            r.wf(),
            r@ == (RegModel {
                instances: Seq::<InstModel>::empty(),
                routes: Map::<u16, RouteTarget>::empty(),
                handles: Map::<u128, u16>::empty(),
            }),
    {
        let r = ServiceRegistry { instances: Vec::new(), table: AttrRouteTable::new() };
        proof {
            assert(r.instances@.map_values(|inst: ServiceInstance| inst@)
                =~= Seq::<InstModel>::empty());
        }
        r
    }

    /// Shared read access for the dispatcher: the route table this machine
    /// maintains.
    pub fn table(&self) -> (t: &AttrRouteTable)
        requires
            self.wf(),
        ensures
            t.wf(),
            t.routes() == self@.routes,
            t.service_handles() == self@.handles,
    {
        &self.table
    }

    /// How many services are registered, in any lifecycle state.
    pub fn service_count(&self) -> (n: usize)
        ensures
            n == self@.instances.len(),
    {
        self.instances.len()
    }

    fn find_index_by_uuid(&self, u: u128) -> (r: Option<usize>)
        ensures
            match r {
                Some(i) => i < self@.instances.len() && self@.instances[i as int].uuid == u,
                None => !has_inst_uuid(self@.instances, u),
            },
    {
        let mut i: usize = 0;
        while i < self.instances.len()
            invariant
                i <= self.instances@.len(),
                self@.instances.len() == self.instances@.len(),
                forall|j: int| 0 <= j < self.instances@.len()
                    ==> (#[trigger] self@.instances[j]).uuid == self.instances@[j].descriptor.uuid,
                forall|j: int| 0 <= j < i ==> (#[trigger] self.instances@[j]).descriptor.uuid != u,
            decreases self.instances@.len() - i,
        {
            if self.instances[i].descriptor.uuid == u {
                return Some(i);
            }
            i = i + 1;
        }
        None
    }

    fn find_index_by_handle(&self, h: u16) -> (r: Option<usize>)
        ensures
            match r {
                Some(i) => i < self@.instances.len() && self@.instances[i as int].handle == Some(h),
                None => !has_inst_handle(self@.instances, h),
            },
    {
        let mut i: usize = 0;
        while i < self.instances.len()
            invariant
                i <= self.instances@.len(),
                self@.instances.len() == self.instances@.len(),
                forall|j: int| 0 <= j < self.instances@.len()
                    ==> (#[trigger] self@.instances[j]).handle == self.instances@[j].service_handle,
                forall|j: int| 0 <= j < i ==> (#[trigger] self.instances@[j]).service_handle != Some(h),
            decreases self.instances@.len() - i,
        {
            let matches_h = match self.instances[i].service_handle {
                Some(x) => x == h,
                None => false,
            };
            if matches_h {
                return Some(i);
            }
            i = i + 1;
        }
        None
    }

    /// The registered service carrying identifier `u`, if any.
    pub fn find_by_gatt_id(&self, u: u128) -> (r: Option<&ServiceInstance>)
        requires
            self.wf(),
        ensures
            match r {
                Some(inst) => has_inst_uuid(self@.instances, u) && inst@.uuid == u
                    && exists|i: int|
                        0 <= i < self@.instances.len() && #[trigger] self@.instances[i] == inst@,
                None => !has_inst_uuid(self@.instances, u),
            },
    {
        match self.find_index_by_uuid(u) {
            Some(i) => Some(&self.instances[i]),
            None => None,
        }
    }

    /// The registered service holding runtime handle `h`, if any.
    pub fn find_by_service_handle(&self, h: u16) -> (r: Option<&ServiceInstance>)
        requires
            self.wf(),
        ensures
            match r {
                Some(inst) => has_inst_handle(self@.instances, h) && inst@.handle == Some(h)
                    && exists|i: int|
                        0 <= i < self@.instances.len() && #[trigger] self@.instances[i] == inst@,
                None => !has_inst_handle(self@.instances, h),
            },
    {
        match self.find_index_by_handle(h) {
            Some(i) => Some(&self.instances[i]),
            None => None,
        }
    }

    /// The position of the service carrying identifier `u`, if any.
    pub fn instance_index(&self, u: u128) -> (r: Option<usize>)
        requires
            self.wf(),
        ensures
            match r {
                Some(i) => i < self@.instances.len() && self@.instances[i as int].uuid == u
                    && has_inst_uuid(self@.instances, u) && inst_idx_uuid(self@.instances, u)
                    == i as int,
                None => !has_inst_uuid(self@.instances, u),
            },
    {
        let r = self.find_index_by_uuid(u);
        proof {
            match r {
                Some(i) => lemma_uuid_index_unique(self@, i as int, u),
                None => {},
            }
        }
        r
    }

    /// The service instance at position `i`.
    pub fn instance_at(&self, i: usize) -> (inst: &ServiceInstance)
        requires
            self.wf(),
            i < self@.instances.len(),
        ensures
            inst@ == self@.instances[i as int],
            inst_sync(*inst),
    {
        &self.instances[i]
    }

    /// Declares a service before the application starts.  Fails with
    /// `ServiceLimit` when the server is full, `DuplicateService` when the
    /// identifier is already registered, `DuplicateCharacteristic` when the
    /// descriptor repeats a characteristic identifier, and
    /// `CharacteristicLimit` when the declarations exceed the 16-bit
    /// attribute handle budget.
    pub fn register_service(&mut self, descriptor: ServiceDescriptor) -> (r: Result<(), BtError>)
        requires
            old(self).wf(),
        ensures
            final(self).wf(),
            r is Ok <==> {
                &&& old(self)@.instances.len() < MAX_SERVICES
                &&& !has_inst_uuid(old(self)@.instances, descriptor.uuid)
                &&& chars_unique(descriptor.characteristics@)
                &&& attr_budget(descriptor.characteristics@) <= u16::MAX
            },
            r is Ok ==> final(self)@ == (RegModel {
                instances: old(self)@.instances.push(declared_model(descriptor)),
                ..old(self)@
            }),
            r is Err ==> final(self)@ == old(self)@,
            r == Err::<(), BtError>(BtError::ServiceLimit)
                <==> old(self)@.instances.len() >= MAX_SERVICES,
            r == Err::<(), BtError>(BtError::DuplicateService)
                <==> old(self)@.instances.len() < MAX_SERVICES
                    && has_inst_uuid(old(self)@.instances, descriptor.uuid),
            r == Err::<(), BtError>(BtError::DuplicateCharacteristic)
                <==> old(self)@.instances.len() < MAX_SERVICES
                    && !has_inst_uuid(old(self)@.instances, descriptor.uuid)
                    && !chars_unique(descriptor.characteristics@),
            r == Err::<(), BtError>(BtError::CharacteristicLimit)
                <==> old(self)@.instances.len() < MAX_SERVICES
                    && !has_inst_uuid(old(self)@.instances, descriptor.uuid)
                    && chars_unique(descriptor.characteristics@)
                    && attr_budget(descriptor.characteristics@) > u16::MAX,
    {
        if self.instances.len() >= MAX_SERVICES {
            return Err(BtError::ServiceLimit);
        }
        if let Some(_) = self.find_index_by_uuid(descriptor.uuid) {
            return Err(BtError::DuplicateService);
        }
        if !chars_unique_check(&descriptor.characteristics) {
            return Err(BtError::DuplicateCharacteristic);
        }
        if !attr_budget_fits(&descriptor.characteristics) {
            return Err(BtError::CharacteristicLimit);
        }
        let mut char_handles: Vec<CharHandle> = Vec::new();
        let mut k: usize = 0;
        while k < descriptor.characteristics.len()
            invariant
                k <= descriptor.characteristics@.len(),
                char_handles@.len() == k,
                forall|j: int| 0 <= j < k ==> #[trigger] char_handles@[j] == (CharHandle {
                    char_uuid: descriptor.characteristics@[j].uuid,
                    attr_handle: None,
                    service_handle: None,
                }),
            decreases descriptor.characteristics@.len() - k,
        {
            char_handles.push(CharHandle::new(descriptor.characteristics[k].uuid));
            k = k + 1;
        }
        let inst = ServiceInstance {
            descriptor,
            state: ServiceState::Declared,
            service_handle: None,
            char_handles,
            fault: None,
        };
        proof {
            crate::descriptor::lemma_attr_budget_lower(inst.descriptor.characteristics@);
            assert(inst@ =~= declared_model(inst.descriptor));
        }
        let ghost old_model = self@;
        let ghost new_inst_model = inst@;
        let ghost old_insts = self.instances@;
        self.instances.push(inst);
        proof {
            let s1 = self@;
            assert(s1.instances =~= old_model.instances.push(new_inst_model));
            assert(s1 =~= (RegModel {
                instances: old_model.instances.push(new_inst_model),
                ..old_model
            }));
            assert(s1.routes == old_model.routes && s1.handles == old_model.handles);
            assert(!old_model.handles.contains_key(descriptor.uuid));
            assert(no_routes_owned(s1.routes, descriptor.uuid)) by {
                assert forall|h: u16| #[trigger] s1.routes.contains_key(h)
                    implies s1.routes[h].service_uuid != descriptor.uuid by {
                    assert(has_inst_uuid(old_model.instances, old_model.routes[h].service_uuid));
                }
            }
            assert forall|i: int| 0 <= i < s1.instances.len() implies inst_ok(s1, i) by {
                if i < old_model.instances.len() {
                    assert(inst_ok(old_model, i));
                    assert(s1.instances[i] == old_model.instances[i]);
                } else {
                    assert(s1.instances[i] == new_inst_model);
                    assert(new_inst_model =~= declared_model(descriptor));
                }
            }
            assert forall|i: int, j: int| 0 <= i < j < s1.instances.len()
                implies (#[trigger] s1.instances[i]).uuid != (#[trigger] s1.instances[j]).uuid by {
                if j == old_model.instances.len() {
                    assert(s1.instances[i] == old_model.instances[i]);
                    if old_model.instances[i].uuid == descriptor.uuid {
                        assert(has_inst_uuid(old_model.instances, descriptor.uuid));
                    }
                }
            }
            assert forall|u: u128| #[trigger] s1.handles.contains_key(u)
                implies has_inst_uuid(s1.instances, u) by {
                lemma_has_inst_uuid_push(old_model.instances, new_inst_model, u);
            }
            assert forall|h: u16| #[trigger] s1.routes.contains_key(h)
                implies has_inst_uuid(s1.instances, s1.routes[h].service_uuid) by {
                lemma_has_inst_uuid_push(
                    old_model.instances,
                    new_inst_model,
                    s1.routes[h].service_uuid,
                );
            }
            assert forall|i: int| 0 <= i < self.instances@.len()
                implies inst_sync(#[trigger] self.instances@[i]) by {
                if i < old_insts.len() {
                    assert(self.instances@[i] == old_insts[i]);
                }
            }
        }
        Ok(())
    }
}

/// Ends an instance in place: state `Deleted`, the fault recorded, every
/// runtime handle forgotten.
fn mark_deleted(inst: &mut ServiceInstance, fault: Option<BtError>)
    requires
        inst_sync(*old(inst)),
    ensures
        inst_sync(*final(inst)),
        final(inst)@ == deleted_inst(old(inst)@, fault),
        final(inst).descriptor == old(inst).descriptor,
{
    inst.state = ServiceState::Deleted;
    inst.service_handle = None;
    inst.fault = fault;
    let ghost old_chars = inst.char_handles@;
    let mut k: usize = 0;
    while k < inst.char_handles.len()
        invariant
            inst.char_handles@.len() == old_chars.len(),
            k <= old_chars.len(),
            inst.state == ServiceState::Deleted,
            inst.service_handle == None::<u16>,
            inst.fault == fault,
            inst.descriptor == old(inst).descriptor,
            forall|j: int|
                0 <= j < k ==> #[trigger] inst.char_handles@[j] == (CharHandle {
                    char_uuid: old_chars[j].char_uuid,
                    attr_handle: None,
                    service_handle: None,
                }),
            forall|j: int| k <= j < old_chars.len() ==> inst.char_handles@[j] == old_chars[j],
        decreases old_chars.len() - k,
    {
        let cu = inst.char_handles[k].char_uuid;
        inst.char_handles.set(
            k,
            CharHandle { char_uuid: cu, attr_handle: None, service_handle: None },
        );
        k = k + 1;
    }
    proof {
        assert(inst@.bound =~= Seq::new(old(inst)@.chars.len(), |j: int| None::<u16>));
        assert(inst@ =~= deleted_inst(old(inst)@, fault));
    }
}

impl ServiceRegistry {
    /// Ends instance `i` with `fault` and purges its route-table entries.
    fn purge_at(&mut self, i: usize, fault: Option<BtError>)
        requires
            old(self).wf(),
            i < old(self)@.instances.len(),
        ensures
            final(self).wf(),
            final(self)@ == purge_inst(old(self)@, i as int, fault),
    {
        let ghost s0 = self@;
        let mut inst = self.instances.remove(i);
        let u = inst.descriptor.uuid;
        self.table.remove_service(u);
        mark_deleted(&mut inst, fault);
        self.instances.insert(i, inst);
        proof {
            assert(self.instances@ =~= old(self).instances@.update(i as int, inst));
            assert(self@.instances =~= s0.instances.update(i as int, inst@));
            assert(self@ =~= purge_inst(s0, i as int, fault));
            lemma_purge_preserves_inv(s0, i as int, fault);
            assert forall|j: int| 0 <= j < self.instances@.len()
                implies inst_sync(#[trigger] self.instances@[j]) by {
                if j != i {
                    assert(self.instances@[j] == old(self).instances@[j]);
                }
            }
        }
    }

    /// A start-service confirmation arrived.
    fn on_service_started(&mut self, status: GattStatus, service_handle: u16) -> (r: (
        Vec<Command>,
        Vec<ServiceNotice>,
    ))
        requires
            old(self).wf(),
        ensures
            final(self).wf(),
            final(self)@ == step_service_started(old(self)@, status, service_handle).0,
            r.0@ == step_service_started(old(self)@, status, service_handle).1,
            r.1@ == step_service_started(old(self)@, status, service_handle).2,
    {
        let ghost s0 = self@;
        let cmds: Vec<Command> = Vec::new();
        let mut notices: Vec<ServiceNotice> = Vec::new();
        proof {
            assert(cmds@ =~= Seq::<Command>::empty());
            assert(notices@ =~= Seq::<ServiceNotice>::empty());
        }
        let iopt = self.find_index_by_handle(service_handle);
        match iopt {
            None => (cmds, notices),
            Some(i) => {
                proof {
                    lemma_handle_index_unique(s0, i as int, service_handle);
                }
                if !(self.instances[i].state == ServiceState::AwaitingStart) {
                    return (cmds, notices);
                }
                match status {
                    GattStatus::Fail(code) => {
                        let u = self.instances[i].descriptor.uuid;
                        self.purge_at(i, Some(BtError::ProtocolStatus(code)));
                        notices.push(
                            ServiceNotice::Failed {
                                service_uuid: u,
                                error: BtError::ProtocolStatus(code),
                            },
                        );
                        proof {
                            assert(notices@ =~= seq![ServiceNotice::Failed {
                                service_uuid: u,
                                error: BtError::ProtocolStatus(code),
                            }]);
                        }
                        (cmds, notices)
                    },
                    GattStatus::Success => {
                        let u = self.instances[i].descriptor.uuid;
                        let mut inst = self.instances.remove(i);
                        inst.state = ServiceState::Live;
                        self.instances.insert(i, inst);
                        notices.push(ServiceNotice::Attached { service_uuid: u });
                        proof {
                            assert(self.instances@ =~= old(self).instances@.update(
                                i as int,
                                self.instances@[i as int],
                            ));
                            assert(self@.instances =~= s0.instances.update(
                                i as int,
                                InstModel { state: ServiceState::Live, ..s0.instances[i as int] },
                            ));
                            assert(self@ =~= step_service_started(s0, status, service_handle).0);
                            lemma_started_preserves_inv(s0, status, service_handle);
                            assert forall|j: int| 0 <= j < self.instances@.len()
                                implies inst_sync(#[trigger] self.instances@[j]) by {
                                if j != i {
                                    assert(self.instances@[j] == old(self).instances@[j]);
                                }
                            }
                            assert(notices@ =~= seq![ServiceNotice::Attached { service_uuid: u }]);
                        }
                        (cmds, notices)
                    },
                }
            },
        }
    }

    /// A delete-service confirmation arrived.
    fn on_service_deleted(&mut self, status: GattStatus, service_handle: u16) -> (r: (
        Vec<Command>,
        Vec<ServiceNotice>,
    ))
        requires
            old(self).wf(),
        ensures
            final(self).wf(),
            final(self)@ == step_service_deleted(old(self)@, status, service_handle).0,
            r.0@ == step_service_deleted(old(self)@, status, service_handle).1,
            r.1@ == step_service_deleted(old(self)@, status, service_handle).2,
    {
        let ghost s0 = self@;
        let cmds: Vec<Command> = Vec::new();
        let mut notices: Vec<ServiceNotice> = Vec::new();
        proof {
            assert(cmds@ =~= Seq::<Command>::empty());
            assert(notices@ =~= Seq::<ServiceNotice>::empty());
        }
        let iopt = self.find_index_by_handle(service_handle);
        match iopt {
            None => (cmds, notices),
            Some(i) => {
                proof {
                    lemma_handle_index_unique(s0, i as int, service_handle);
                }
                if !(self.instances[i].state == ServiceState::AwaitingDeleted) {
                    return (cmds, notices);
                }
                match status {
                    GattStatus::Fail(code) => {
                        let u = self.instances[i].descriptor.uuid;
                        self.purge_at(i, Some(BtError::ProtocolStatus(code)));
                        notices.push(
                            ServiceNotice::Failed {
                                service_uuid: u,
                                error: BtError::ProtocolStatus(code),
                            },
                        );
                        proof {
                            assert(notices@ =~= seq![ServiceNotice::Failed {
                                service_uuid: u,
                                error: BtError::ProtocolStatus(code),
                            }]);
                        }
                        (cmds, notices)
                    },
                    GattStatus::Success => {
                        self.purge_at(i, None);
                        (cmds, notices)
                    },
                }
            },
        }
    }
}

/// One step of the create-command recursion, for the loop that issues
/// them.
proof fn lemma_create_cmds_take_step(insts: Seq<InstModel>, i: int)
    requires
        0 <= i < insts.len(),
    ensures
        create_cmds(insts.take(i + 1)) == create_cmds(insts.take(i)) + (
        if insts[i].state is Declared {
            seq![create_cmd(insts[i])]
        } else {
            Seq::<Command>::empty()
        }),
{
    assert(insts.take(i + 1).drop_last() =~= insts.take(i));
    assert(insts.take(i + 1).last() == insts[i]);
}

/// One step of the failure-notice recursion, for the loop that reports
/// them.
proof fn lemma_fail_notices_take_step(insts: Seq<InstModel>, code: u8, i: int)
    requires
        0 <= i < insts.len(),
    ensures
        fail_notices(insts.take(i + 1), code) == fail_notices(insts.take(i), code) + (
        if insts[i].state is Declared {
            seq![ServiceNotice::Failed {
                service_uuid: insts[i].uuid,
                error: BtError::ProtocolStatus(code),
            }]
        } else {
            Seq::<ServiceNotice>::empty()
        }),
{
    assert(insts.take(i + 1).drop_last() =~= insts.take(i));
    assert(insts.take(i + 1).last() == insts[i]);
}

impl ServiceRegistry {
    /// The application registration was answered.
    fn on_app_registered(&mut self, status: GattStatus) -> (r: (Vec<Command>, Vec<ServiceNotice>))
        requires
            old(self).wf(),
        ensures
            final(self).wf(),
            final(self)@ == step_app_registered(old(self)@, status).0,
            r.0@ == step_app_registered(old(self)@, status).1,
            r.1@ == step_app_registered(old(self)@, status).2,
    {
        let ghost s0 = self@;
        let mut cmds: Vec<Command> = Vec::new();
        let mut notices: Vec<ServiceNotice> = Vec::new();
        proof {
            assert(cmds@ =~= Seq::<Command>::empty());
            assert(notices@ =~= Seq::<ServiceNotice>::empty());
            assert(s0.instances.take(0) =~= Seq::<InstModel>::empty());
        }
        let n = self.instances.len();
        match status {
            GattStatus::Success => {
                let mut i: usize = 0;
                while i < n
                    invariant
                        i <= n,
                        n == s0.instances.len(),
                        self.instances@.len() == n,
                        self.table == old(self).table,
                        self@.routes == s0.routes,
                        self@.handles == s0.handles,
                        forall|j: int|
                            0 <= j < i ==> inst_sync(#[trigger] self.instances@[j])
                                && self@.instances[j] == arm_declared(s0.instances)[j],
                        forall|j: int|
                            i <= j < n ==> #[trigger] self.instances@[j]
                                == old(self).instances@[j],
                        forall|j: int| i <= j < n ==> #[trigger] self@.instances[j]
                            == s0.instances[j],
                        cmds@ == create_cmds(s0.instances.take(i as int)),
                        notices@ == Seq::<ServiceNotice>::empty(),
                        inv(s0),
                        forall|j: int|
                            0 <= j < n ==> inst_sync(#[trigger] old(self).instances@[j]),
                    decreases n - i,
                {
                    proof {
                        lemma_create_cmds_take_step(s0.instances, i as int);
                        assert(inst_ok(s0, i as int));
                    }
                    let ghost before = self.instances@;
                    proof {
                        assert forall|j: int| i <= j < n implies (#[trigger] before[j])@
                            == s0.instances[j] by {
                            assert(self@.instances[j] == s0.instances[j]);
                        }
                    }
                    if self.instances[i].state == ServiceState::Declared {
                        let mut inst = self.instances.remove(i);
                        proof {
                            assert(inst == before[i as int]);
                            assert(inst@ == s0.instances[i as int]);
                        }
                        inst.state = ServiceState::AwaitingServiceCreated;
                        let mac = inst.descriptor.attr_count();
                        cmds.push(
                            Command::CreateService {
                                service_uuid: inst.descriptor.uuid,
                                inst_id: inst.descriptor.inst_id,
                                is_primary: inst.descriptor.is_primary,
                                max_attr_count: mac,
                            },
                        );
                        self.instances.insert(i, inst);
                        proof {
                            assert(self.instances@ =~= before.update(i as int, inst));
                            assert(self@.instances[i as int] =~= arm_declared(s0.instances)[i as int]);
                            assert(cmds@ =~= create_cmds(s0.instances.take(i + 1)));
                        }
                    } else {
                        proof {
                            assert(self@.instances[i as int] == arm_declared(s0.instances)[i as int]);
                            assert(cmds@ =~= create_cmds(s0.instances.take(i + 1)));
                        }
                    }
                    i = i + 1;
                }
                proof {
                    assert(s0.instances.take(n as int) =~= s0.instances);
                    assert(self@.instances =~= arm_declared(s0.instances));
                    assert(self@ =~= step_app_registered(s0, status).0);
                    lemma_app_registered_preserves_inv(s0, status);
                }
                (cmds, notices)
            },
            GattStatus::Fail(code) => {
                let mut i: usize = 0;
                while i < n
                    invariant
                        i <= n,
                        n == s0.instances.len(),
                        self.instances@.len() == n,
                        self.table == old(self).table,
                        self@.routes == s0.routes,
                        self@.handles == s0.handles,
                        forall|j: int|
                            0 <= j < i ==> inst_sync(#[trigger] self.instances@[j])
                                && self@.instances[j] == fail_declared(s0.instances, code)[j],
                        forall|j: int|
                            i <= j < n ==> #[trigger] self.instances@[j]
                                == old(self).instances@[j],
                        forall|j: int| i <= j < n ==> #[trigger] self@.instances[j]
                            == s0.instances[j],
                        cmds@ == Seq::<Command>::empty(),
                        notices@ == fail_notices(s0.instances.take(i as int), code),
                        inv(s0),
                        forall|j: int|
                            0 <= j < n ==> inst_sync(#[trigger] old(self).instances@[j]),
                    decreases n - i,
                {
                    proof {
                        lemma_fail_notices_take_step(s0.instances, code, i as int);
                        assert(inst_ok(s0, i as int));
                    }
                    let ghost before = self.instances@;
                    proof {
                        assert forall|j: int| i <= j < n implies (#[trigger] before[j])@
                            == s0.instances[j] by {
                            assert(self@.instances[j] == s0.instances[j]);
                        }
                    }
                    if self.instances[i].state == ServiceState::Declared {
                        let mut inst = self.instances.remove(i);
                        proof {
                            assert(inst == before[i as int]);
                            assert(inst@ == s0.instances[i as int]);
                        }
                        mark_deleted(&mut inst, Some(BtError::ProtocolStatus(code)));
                        let u = inst.descriptor.uuid;
                        self.instances.insert(i, inst);
                        proof {
                            assert(self.instances@ =~= before.update(i as int, inst));
                        }
                        notices.push(
                            ServiceNotice::Failed {
                                service_uuid: u,
                                error: BtError::ProtocolStatus(code),
                            },
                        );
                        proof {
                            assert(self@.instances[i as int] =~= fail_declared(
                                s0.instances,
                                code,
                            )[i as int]);
                            assert(notices@ =~= fail_notices(s0.instances.take(i + 1), code));
                        }
                    } else {
                        proof {
                            assert(self@.instances[i as int] == fail_declared(
                                s0.instances,
                                code,
                            )[i as int]);
                            assert(notices@ =~= fail_notices(s0.instances.take(i + 1), code));
                        }
                    }
                    i = i + 1;
                }
                proof {
                    assert(s0.instances.take(n as int) =~= s0.instances);
                    assert(self@.instances =~= fail_declared(s0.instances, code));
                    assert(self@ =~= step_app_registered(s0, status).0);
                    lemma_app_registered_preserves_inv(s0, status);
                }
                (cmds, notices)
            },
        }
    }

    /// A create-service confirmation arrived.
    fn on_service_created(&mut self, status: GattStatus, service_handle: u16, service_uuid: u128) -> (r: (
        Vec<Command>,
        Vec<ServiceNotice>,
    ))
        requires
            old(self).wf(),
        ensures
            final(self).wf(),
            final(self)@ == step_service_created(old(self)@, status, service_handle, service_uuid).0,
            r.0@ == step_service_created(old(self)@, status, service_handle, service_uuid).1,
            r.1@ == step_service_created(old(self)@, status, service_handle, service_uuid).2,
    {
        let ghost s0 = self@;
        let mut cmds: Vec<Command> = Vec::new();
        let mut notices: Vec<ServiceNotice> = Vec::new();
        proof {
            assert(cmds@ =~= Seq::<Command>::empty());
            assert(notices@ =~= Seq::<ServiceNotice>::empty());
        }
        let iopt = self.find_index_by_uuid(service_uuid);
        match iopt {
            None => (cmds, notices),
            Some(i) => {
                proof {
                    lemma_uuid_index_unique(s0, i as int, service_uuid);
                    assert(inst_ok(s0, i as int));
                }
                if !(self.instances[i].state == ServiceState::AwaitingServiceCreated) {
                    return (cmds, notices);
                }
                proof {
                    assert(inst_unrecorded(s0, i as int));
                }
                match status {
                    GattStatus::Fail(code) => {
                        let mut inst = self.instances.remove(i);
                        mark_deleted(&mut inst, Some(BtError::ProtocolStatus(code)));
                        self.instances.insert(i, inst);
                        notices.push(
                            ServiceNotice::Failed {
                                service_uuid,
                                error: BtError::ProtocolStatus(code),
                            },
                        );
                        proof {
                            assert(self@.instances =~= s0.instances.update(
                                i as int,
                                deleted_inst(
                                    s0.instances[i as int],
                                    Some(BtError::ProtocolStatus(code)),
                                ),
                            ));
                            assert(self@ =~= step_service_created(
                                s0,
                                status,
                                service_handle,
                                service_uuid,
                            ).0);
                            lemma_created_preserves_inv(s0, status, service_handle, service_uuid);
                            assert forall|j: int| 0 <= j < self.instances@.len()
                                implies inst_sync(#[trigger] self.instances@[j]) by {
                                if j != i {
                                    assert(self.instances@[j] == old(self).instances@[j]);
                                }
                            }
                            assert(notices@ =~= seq![ServiceNotice::Failed {
                                service_uuid,
                                error: BtError::ProtocolStatus(code),
                            }]);
                        }
                        (cmds, notices)
                    },
                    GattStatus::Success => {
                        match self.table.record_service(service_uuid, service_handle) {
                            Ok(_) => {
                                proof {
                                    assert(!handle_taken(s0.handles, service_uuid, service_handle));
                                }
                                let mut inst = self.instances.remove(i);
                                inst.service_handle = Some(service_handle);
                                let nchars = inst.descriptor.characteristics.len();
                                if nchars == 0 {
                                    inst.state = ServiceState::AwaitingStart;
                                    cmds.push(Command::StartService { service_handle });
                                } else {
                                    inst.state = ServiceState::AwaitingCharacteristics {
                                        remaining: nchars,
                                    };
                                    cmds.push(
                                        Command::AddCharacteristic {
                                            service_handle,
                                            characteristic: inst.descriptor.characteristics[0],
                                        },
                                    );
                                }
                                self.instances.insert(i, inst);
                                proof {
                                    let spec_inst = if s0.instances[i as int].chars.len() == 0 {
                                        InstModel {
                                            state: ServiceState::AwaitingStart,
                                            handle: Some(service_handle),
                                            ..s0.instances[i as int]
                                        }
                                    } else {
                                        InstModel {
                                            state: ServiceState::AwaitingCharacteristics {
                                                remaining: s0.instances[i as int].chars.len()
                                                    as usize,
                                            },
                                            handle: Some(service_handle),
                                            ..s0.instances[i as int]
                                        }
                                    };
                                    assert(self@.instances =~= s0.instances.update(
                                        i as int,
                                        spec_inst,
                                    ));
                                    assert(self@ =~= step_service_created(
                                        s0,
                                        status,
                                        service_handle,
                                        service_uuid,
                                    ).0);
                                    lemma_created_preserves_inv(
                                        s0,
                                        status,
                                        service_handle,
                                        service_uuid,
                                    );
                                    assert forall|j: int| 0 <= j < self.instances@.len()
                                        implies inst_sync(#[trigger] self.instances@[j]) by {
                                        if j != i {
                                            assert(self.instances@[j] == old(self).instances@[j]);
                                        }
                                    }
                                    if s0.instances[i as int].chars.len() == 0 {
                                        assert(cmds@ =~= seq![Command::StartService { service_handle }]);
                                    } else {
                                        assert(cmds@ =~= seq![Command::AddCharacteristic {
                                            service_handle,
                                            characteristic: s0.instances[i as int].chars[0],
                                        }]);
                                    }
                                }
                                (cmds, notices)
                            },
                            Err(e) => {
                                proof {
                                    assert(!crate::route::service_conflict(
                                        s0.handles,
                                        service_uuid,
                                        service_handle,
                                    ));
                                    assert(e == BtError::InvalidHandle);
                                    assert(handle_taken(s0.handles, service_uuid, service_handle));
                                }
                                let mut inst = self.instances.remove(i);
                                mark_deleted(&mut inst, Some(BtError::InvalidHandle));
                                self.instances.insert(i, inst);
                                notices.push(
                                    ServiceNotice::Failed {
                                        service_uuid,
                                        error: BtError::InvalidHandle,
                                    },
                                );
                                proof {
                                    assert(self@.instances =~= s0.instances.update(
                                        i as int,
                                        deleted_inst(
                                            s0.instances[i as int],
                                            Some(BtError::InvalidHandle),
                                        ),
                                    ));
                                    assert(self@ =~= step_service_created(
                                        s0,
                                        status,
                                        service_handle,
                                        service_uuid,
                                    ).0);
                                    lemma_created_preserves_inv(
                                        s0,
                                        status,
                                        service_handle,
                                        service_uuid,
                                    );
                                    assert forall|j: int| 0 <= j < self.instances@.len()
                                        implies inst_sync(#[trigger] self.instances@[j]) by {
                                        if j != i {
                                            assert(self.instances@[j] == old(self).instances@[j]);
                                        }
                                    }
                                    assert(notices@ =~= seq![ServiceNotice::Failed {
                                        service_uuid,
                                        error: BtError::InvalidHandle,
                                    }]);
                                }
                                (cmds, notices)
                            },
                        }
                    },
                }
            },
        }
    }

    /// An add-characteristic confirmation arrived.
    fn on_characteristic_added(
        &mut self,
        status: GattStatus,
        attr_handle: u16,
        service_handle: u16,
        char_uuid: u128,
    ) -> (r: (Vec<Command>, Vec<ServiceNotice>))
        requires
            old(self).wf(),
        ensures
            final(self).wf(),
            final(self)@ == step_characteristic_added(
                old(self)@,
                status,
                attr_handle,
                service_handle,
                char_uuid,
            ).0,
            r.0@ == step_characteristic_added(
                old(self)@,
                status,
                attr_handle,
                service_handle,
                char_uuid,
            ).1,
            r.1@ == step_characteristic_added(
                old(self)@,
                status,
                attr_handle,
                service_handle,
                char_uuid,
            ).2,
    {
        let ghost s0 = self@;
        let mut cmds: Vec<Command> = Vec::new();
        let mut notices: Vec<ServiceNotice> = Vec::new();
        proof {
            assert(cmds@ =~= Seq::<Command>::empty());
            assert(notices@ =~= Seq::<ServiceNotice>::empty());
        }
        let iopt = self.find_index_by_handle(service_handle);
        let i = match iopt {
            None => {
                return (cmds, notices);
            },
            Some(i) => i,
        };
        proof {
            lemma_handle_index_unique(s0, i as int, service_handle);
            assert(inst_ok(s0, i as int));
        }
        let remaining = match self.instances[i].state {
            ServiceState::AwaitingCharacteristics { remaining } => remaining,
            _ => {
                return (cmds, notices);
            },
        };
        match status {
            GattStatus::Fail(code) => {
                let u = self.instances[i].descriptor.uuid;
                self.purge_at(i, Some(BtError::ProtocolStatus(code)));
                notices.push(
                    ServiceNotice::Failed { service_uuid: u, error: BtError::ProtocolStatus(code) },
                );
                proof {
                    assert(notices@ =~= seq![ServiceNotice::Failed {
                        service_uuid: u,
                        error: BtError::ProtocolStatus(code),
                    }]);
                }
                (cmds, notices)
            },
            GattStatus::Success => {
                let total = self.instances[i].descriptor.characteristics.len();
                let idx = total - remaining;
                if !(self.instances[i].descriptor.characteristics[idx].uuid == char_uuid) {
                    return (cmds, notices);
                }
                let u = self.instances[i].descriptor.uuid;
                proof {
                    lemma_handle_some_recorded(s0, i as int);
                    assert(self.table.has_owner(service_handle));
                }
                match self.table.record_attribute(service_handle, char_uuid, attr_handle) {
                    Ok(_) => {
                        proof {
                            let u2 = s0.instances[i as int].uuid;
                            let own = old(self).table.owner_of(service_handle);
                            assert(s0.handles.contains_key(own) && s0.handles[own]
                                == service_handle);
                            assert(own == u2) by {
                                if own != u2 {
                                    assert(s0.handles[own] != s0.handles[u2]);
                                }
                            }
                        }
                        let mut inst = self.instances.remove(i);
                        let mut binding = inst.char_handles[idx];
                        binding.update_handle(Some(attr_handle), Some(service_handle));
                        proof {
                            assert(binding == (CharHandle {
                                char_uuid,
                                attr_handle: Some(attr_handle),
                                service_handle: Some(service_handle),
                            }));
                        }
                        inst.char_handles.set(idx, binding);
                        if remaining == 1 {
                            inst.state = ServiceState::AwaitingStart;
                            cmds.push(Command::StartService { service_handle });
                        } else {
                            inst.state = ServiceState::AwaitingCharacteristics {
                                remaining: remaining - 1,
                            };
                            cmds.push(
                                Command::AddCharacteristic {
                                    service_handle,
                                    characteristic: inst.descriptor.characteristics[idx + 1],
                                },
                            );
                        }
                        self.instances.insert(i, inst);
                        proof {
                            let old_inst = s0.instances[i as int];
                            let bound1 = old_inst.bound.update(idx as int, Some(attr_handle));
                            let spec_inst = if remaining == 1 {
                                InstModel {
                                    state: ServiceState::AwaitingStart,
                                    bound: bound1,
                                    ..old_inst
                                }
                            } else {
                                InstModel {
                                    state: ServiceState::AwaitingCharacteristics {
                                        remaining: (remaining - 1) as usize,
                                    },
                                    bound: bound1,
                                    ..old_inst
                                }
                            };
                            assert(self.instances@[i as int]@.bound =~= bound1);
                            assert(self@.instances =~= s0.instances.update(i as int, spec_inst));
                            assert(self@ =~= step_characteristic_added(
                                s0,
                                status,
                                attr_handle,
                                service_handle,
                                char_uuid,
                            ).0);
                            lemma_char_added_preserves_inv(
                                s0,
                                status,
                                attr_handle,
                                service_handle,
                                char_uuid,
                            );
                            assert forall|j: int| 0 <= j < self.instances@.len()
                                implies inst_sync(#[trigger] self.instances@[j]) by {
                                if j != i {
                                    assert(self.instances@[j] == old(self).instances@[j]);
                                }
                            }
                            if remaining == 1 {
                                assert(cmds@ =~= seq![Command::StartService { service_handle }]);
                            } else {
                                assert(cmds@ =~= seq![Command::AddCharacteristic {
                                    service_handle,
                                    characteristic: old_inst.chars[idx + 1],
                                }]);
                            }
                        }
                        (cmds, notices)
                    },
                    Err(e) => {
                        proof {
                            assert(e == BtError::InvalidHandle);
                            assert(s0.routes.contains_key(attr_handle));
                        }
                        self.purge_at(i, Some(BtError::InvalidHandle));
                        notices.push(
                            ServiceNotice::Failed {
                                service_uuid: u,
                                error: BtError::InvalidHandle,
                            },
                        );
                        proof {
                            assert(notices@ =~= seq![ServiceNotice::Failed {
                                service_uuid: u,
                                error: BtError::InvalidHandle,
                            }]);
                        }
                        (cmds, notices)
                    },
                }
            },
        }
    }

    /// The single entry point for registration confirmations: advances the
    /// state machine exactly as the transition function says, and returns
    /// the commands to issue and the notices to report.
    pub fn handle_confirmation(&mut self, event: &GattsEvent) -> (r: (
        Vec<Command>,
        Vec<ServiceNotice>,
    ))
        requires
            old(self).wf(),
        ensures
            final(self).wf(),
            final(self)@ == step(old(self)@, *event).0,
            r.0@ == step(old(self)@, *event).1,
            r.1@ == step(old(self)@, *event).2,
    {
        match event {
            GattsEvent::ServiceRegistered { status, .. } => self.on_app_registered(*status),
            GattsEvent::ServiceCreated { status, service_handle, service_uuid } => self
                .on_service_created(*status, *service_handle, *service_uuid),
            GattsEvent::CharacteristicAdded { status, attr_handle, service_handle, char_uuid } => self
                .on_characteristic_added(*status, *attr_handle, *service_handle, *char_uuid),
            GattsEvent::ServiceStarted { status, service_handle } => self.on_service_started(
                *status,
                *service_handle,
            ),
            GattsEvent::ServiceDeleted { status, service_handle } => self.on_service_deleted(
                *status,
                *service_handle,
            ),
            _ => {
                let cmds: Vec<Command> = Vec::new();
                let notices: Vec<ServiceNotice> = Vec::new();
                proof {
                    assert(cmds@ =~= Seq::<Command>::empty());
                    assert(notices@ =~= Seq::<ServiceNotice>::empty());
                }
                (cmds, notices)
            },
        }
    }

    /// Begins explicit teardown of a live service: the mirror path.  Fails
    /// with `UnknownService` unless the identifier names a live service.
    pub fn delete_service(&mut self, service_uuid: u128) -> (r: Result<Command, BtError>)
        requires
            old(self).wf(),
        ensures
            final(self).wf(),
            r is Ok <==> has_inst_uuid(old(self)@.instances, service_uuid) && old(self)@.instances[inst_idx_uuid(old(self)@.instances, service_uuid)].state is Live,
            r is Ok ==> {
                let i = inst_idx_uuid(old(self)@.instances, service_uuid);
                let inst = old(self)@.instances[i];
                &&& final(self)@ == (RegModel {
                    instances: old(self)@.instances.update(
                        i,
                        InstModel { state: ServiceState::AwaitingDeleted, ..inst },
                    ),
                    ..old(self)@
                })
                &&& r == Ok::<Command, BtError>(Command::DeleteService {
                    service_handle: inst.handle->0,
                })
            },
            r is Err ==> final(self)@ == old(self)@ && r == Err::<Command, BtError>(
                BtError::UnknownService,
            ),
    {
        let ghost s0 = self@;
        let iopt = self.find_index_by_uuid(service_uuid);
        let i = match iopt {
            None => {
                return Err(BtError::UnknownService);
            },
            Some(i) => i,
        };
        proof {
            lemma_uuid_index_unique(s0, i as int, service_uuid);
            assert(inst_ok(s0, i as int));
        }
        if !(self.instances[i].state == ServiceState::Live) {
            return Err(BtError::UnknownService);
        }
        let h = match self.instances[i].service_handle {
            Some(h) => h,
            None => {
                proof {
                    assert(false);
                }
                0
            },
        };
        let mut inst = self.instances.remove(i);
        inst.state = ServiceState::AwaitingDeleted;
        self.instances.insert(i, inst);
        proof {
            let s1 = self@;
            let spec_inst = InstModel {
                state: ServiceState::AwaitingDeleted,
                ..s0.instances[i as int]
            };
            assert(s1.instances =~= s0.instances.update(i as int, spec_inst));
            assert(s1 =~= (RegModel {
                instances: s0.instances.update(i as int, spec_inst),
                ..s0
            }));
            assert(inst_ok(s1, i as int));
            assert forall|j: int| 0 <= j < s1.instances.len() && j != i as int
                implies inst_ok(s1, j) by {
                assert(inst_ok(s0, j));
                assert(s1.instances[j] == s0.instances[j]);
                lemma_inst_ok_stable(s0, s1, j);
            }
            assert forall|u2: u128| #[trigger] s1.handles.contains_key(u2)
                implies has_inst_uuid(s1.instances, u2) by {
                lemma_has_inst_uuid_update(s0.instances, i as int, spec_inst, u2);
            }
            assert forall|h2: u16| #[trigger] s1.routes.contains_key(h2)
                implies has_inst_uuid(s1.instances, s1.routes[h2].service_uuid) by {
                lemma_has_inst_uuid_update(s0.instances, i as int, spec_inst, s1.routes[h2].service_uuid);
            }
            assert forall|j: int| 0 <= j < self.instances@.len()
                implies inst_sync(#[trigger] self.instances@[j]) by {
                if j != i {
                    assert(self.instances@[j] == old(self).instances@[j]);
                }
            }
        }
        Ok(Command::DeleteService { service_handle: h })
    }
}

/// Whether the characteristic identifiers of `chars` are pairwise
/// distinct.
fn chars_unique_check(chars: &Vec<CharacteristicDescriptor>) -> (b: bool)
    ensures
        b == chars_unique(chars@),
{
    let mut i: usize = 0;
    while i < chars.len()
        invariant
            i <= chars@.len(),
            forall|a: int, b: int| 0 <= a < b < chars@.len() && a < i
                ==> chars@[a].uuid != chars@[b].uuid,
        decreases chars@.len() - i,
    {
        let mut j: usize = i + 1;
        while j < chars.len()
            invariant
                i < j <= chars@.len() || (i >= chars@.len() && j == i + 1),
                i < chars@.len(),
                forall|b: int| i < b < j ==> chars@[i as int].uuid != (#[trigger] chars@[b]).uuid,
            decreases chars@.len() - j,
        {
            if chars[i].uuid == chars[j].uuid {
                return false;
            }
            j = j + 1;
        }
        i = i + 1;
    }
    true
}

/// Whether the declarations of `chars` fit the 16-bit attribute handle
/// budget.
fn attr_budget_fits(chars: &Vec<CharacteristicDescriptor>) -> (b: bool)
    ensures
        b == (attr_budget(chars@) <= u16::MAX),
{
    let mut n: u32 = 1;
    let mut i: usize = 0;
    while i < chars.len()
        invariant
            i <= chars@.len(),
            n == attr_budget(chars@.take(i as int)),
            n <= u16::MAX,
        decreases chars@.len() - i,
    {
        proof {
            assert(chars@.take(i + 1).drop_last() =~= chars@.take(i as int));
        }
        let c = chars[i];
        if c.props.notify || c.props.indicate {
            n = n + 3;
        } else {
            n = n + 2;
        }
        if n > 65535 {
            proof {
                crate::descriptor::lemma_attr_budget_monotonic(chars@, i + 1);
            }
            return false;
        }
        i = i + 1;
    }
    proof {
        assert(chars@.take(chars@.len() as int) =~= chars@);
    }
    true
}

} // verus!
