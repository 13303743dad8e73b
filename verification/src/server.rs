//! The server facade: the single entry point the driver glue calls on
//! every inbound event.
//!
//! Services are registered before the application starts; afterwards the
//! facade only reacts to driver events.  Confirmations advance the
//! registration state machine; reads and writes are resolved through the
//! attribute route table and handed to exactly the owning live service;
//! connect, disconnect and transfer-unit events are broadcast to every
//! live service.  The facade never blocks: every reaction is returned to
//! the caller as commands to issue and outcomes to log.

use vstd::prelude::*;
use crate::descriptor::{chars_unique, has_char, ServiceDescriptor};
use crate::dispatch::{
    drop_addr, drop_peer, has_addr, ConnectionRecord, EventDispatcher, DEFAULT_MTU,
};
use crate::event::{Command, GapEvent, GattResponse, GattsEvent, ReadEvent, WriteEvent};
use crate::registry::{
    declared_model, has_inst_uuid, inst_idx_uuid, inv, step, CharHandle, InstModel, RegModel,
    ServiceNotice, ServiceRegistry, ServiceState, MAX_SERVICES,
};
use crate::route::RouteTarget;
use crate::status::{check_bt_status, check_result, BtError, BtStatus, GattStatus};

verus! {

/// An event one service publishes to the others.
#[derive(Debug, Clone)]
pub enum ServiceEvent {
    /// A peer connection was established or lost.
    ConnectionChanged { connected: bool, addr: String },
    /// A connection renegotiated its maximum transfer unit; services may
    /// adjust their chunking.
    MtuUpdated { mtu: u16 },
    /// A service-defined event.
    Custom(String),
}

/// Inter-service communication: every registered service receives the
/// events the server broadcasts.
pub trait ServiceCommunication {
    /// Handles an event published by the server or another service.
    fn notify_event(&mut self, event: ServiceEvent);
}

/// The per-service plugin contract: what a registered service implements
/// to take part in dispatch.  The attached callback fires once the
/// service is live — after the start confirmation, never earlier — so an
/// implementation may rely on every one of its attribute handles being
/// routed by then.
pub trait GattServiceHandler: ServiceCommunication {
    /// The 128-bit identifier of the service this handler implements.
    fn service_id(&self) -> u128;

    /// The service went live; its runtime handles are all routed.
    fn on_created(&mut self, service_handle: u16, char_handles: &Vec<CharHandle>) -> Result<
        (),
        BtError,
    >;

    /// A peer wrote one of this service's attributes.  A returned
    /// response is forwarded to the transport unchanged.
    fn on_write(&mut self, event: &WriteEvent) -> Result<Option<GattResponse>, BtError>;

    /// A peer read one of this service's attributes.
    fn on_read(&mut self, event: &ReadEvent) -> Result<Option<GattResponse>, BtError>;

    /// A peer connected (broadcast to every live service).
    fn on_connect(&mut self, conn_id: u16, addr: u64) -> Result<(), BtError>;

    /// A peer disconnected (broadcast to every live service).
    fn on_disconnect(&mut self, addr: u64) -> Result<(), BtError>;
}

/// What the caller should log about one dispatched event.  None of these
/// is fatal to the dispatcher loop.
#[derive(Clone, Copy, Debug, PartialEq, Eq, Structural)]
pub enum DispatchOutcome {
    /// An inbound read or write named a handle absent from the route
    /// table; the event was dropped.
    UnknownHandle { handle: u16 },
    /// The handle resolved, but its service is not live yet (or is being
    /// torn down); the event was dropped.
    ServiceNotReady { service_uuid: u128 },
    /// A service callback returned this error.
    HandlerError { service_uuid: u128, error: BtError },
    /// A service's registration ended with this error.
    ServiceFailed { service_uuid: u128, error: BtError },
    /// A peer's indication acknowledgement carried this failure code.
    IndicationFailed { code: u8 },
}

/// Everything the facade asks of its caller after one inbound event:
/// commands to send to the driver, outcomes to log, and whether the
/// advertising collaborator should resume advertising.
pub struct EventReaction {
    pub commands: Vec<Command>,
    pub outcomes: Vec<DispatchOutcome>,
    pub resume_advertising: bool,
}

fn empty_reaction() -> (r: EventReaction)
    ensures
        r.commands@ == Seq::<Command>::empty(),
        r.outcomes@ == Seq::<DispatchOutcome>::empty(),
        !r.resume_advertising,
{
    let r = EventReaction { commands: Vec::new(), outcomes: Vec::new(), resume_advertising: false };
    proof {
        assert(r.commands@ =~= Seq::<Command>::empty());
        assert(r.outcomes@ =~= Seq::<DispatchOutcome>::empty());
    }
    r
}

fn copy_bytes(src: &Vec<u8>) -> (r: Vec<u8>)
    ensures
        r@ == src@,
{
    let mut r: Vec<u8> = Vec::new();
    let mut i: usize = 0;
    while i < src.len()
        invariant
            i <= src@.len(),
            r@ == src@.take(i as int),
        decreases src@.len() - i,
    {
        r.push(src[i]);
        proof {
            assert(r@ =~= src@.take(i + 1));
        }
        i = i + 1;
    }
    proof {
        assert(src@.take(src@.len() as int) =~= src@);
    }
    r
}

/// The attribute server: the registration state machine and route table,
/// the connection records, and one handler per registered service.
pub struct AttrServer<H> {
    app_id: u16,
    device_name: String,
    registry: ServiceRegistry,
    dispatcher: EventDispatcher,
    handlers: Vec<H>,
    started: bool,
}

impl<H: GattServiceHandler> AttrServer<H> {
    /// The registration machine's mathematical state.
    pub closed spec fn registry_model(self) -> RegModel {
        self.registry@
    }

    /// The connection records, in connection order.
    pub closed spec fn connections(self) -> Seq<ConnectionRecord> {
        self.dispatcher@
    }

    /// The registered handlers, aligned with the registered services.
    pub closed spec fn handlers_seq(self) -> Seq<H> {
        self.handlers@
    }

    /// Whether `start` has been called.
    pub closed spec fn is_started(self) -> bool {
        self.started
    }

    /// The application identifier this server registers under.
    pub closed spec fn app_id_spec(self) -> u16 {
        self.app_id
    }

    /// The advertised device name.
    pub closed spec fn device_name_spec(self) -> Seq<char> {
        self.device_name@
    }

    pub closed spec fn wf(self) -> bool {
        &&& self.registry.wf()
        &&& self.dispatcher.wf()
        &&& self.handlers@.len() == self.registry@.instances.len()
    }

    /// A well-formed server satisfies the registration machine invariant.
    pub proof fn wf_implies_inv(&self)
        requires
            self.wf(),
        ensures
            inv(self.registry_model()),
            self.handlers_seq().len() == self.registry_model().instances.len(),
    {
        self.registry.wf_implies_inv();
    }

    pub fn new(app_id: u16, device_name: String) -> (s: AttrServer<H>)
        ensures
            s.wf(),
            !s.is_started(),
            s.app_id_spec() == app_id,
            s.device_name_spec() == device_name@,
            s.registry_model() == (RegModel {
                instances: Seq::<InstModel>::empty(),
                routes: Map::<u16, RouteTarget>::empty(),
                handles: Map::<u128, u16>::empty(),
            }),
            s.connections() == Seq::<ConnectionRecord>::empty(),
            s.handlers_seq() == Seq::<H>::empty(),
    {
        let s = AttrServer {
            app_id,
            device_name,
            registry: ServiceRegistry::new(),
            dispatcher: EventDispatcher::new(),
            handlers: Vec::new(),
            started: false,
        };
        proof {
            assert(s.handlers@ =~= Seq::<H>::empty());
        }
        s
    }

    /// The advertised device name.
    pub fn device_name(&self) -> (r: &String)
        ensures
            r@ == self.device_name_spec(),
    {
        &self.device_name
    }

    /// Registers a service and its handler.  Must be called before
    /// `start`; fails with `AlreadyStarted` otherwise, and with the
    /// registration machine's configuration errors as it reports them.
    pub fn register(&mut self, descriptor: ServiceDescriptor, handler: H) -> (r: Result<
        (),
        BtError,
    >)
        requires
            old(self).wf(),
        ensures
            final(self).wf(),
            final(self).is_started() == old(self).is_started(),
            final(self).app_id_spec() == old(self).app_id_spec(),
            final(self).connections() == old(self).connections(),
            r is Ok <==> {
                &&& !old(self).is_started()
                &&& old(self).registry_model().instances.len() < MAX_SERVICES
                &&& !has_inst_uuid(old(self).registry_model().instances, descriptor.uuid)
                &&& chars_unique(descriptor.characteristics@)
                &&& crate::descriptor::attr_budget(descriptor.characteristics@) <= u16::MAX
            },
            r is Ok ==> final(self).registry_model() == (RegModel {
                instances: old(self).registry_model().instances.push(declared_model(descriptor)),
                ..old(self).registry_model()
            }) && final(self).handlers_seq() == old(self).handlers_seq().push(handler),
            r is Err ==> final(self).registry_model() == old(self).registry_model() && final(self).handlers_seq() == old(self).handlers_seq(),
            old(self).is_started() ==> r == Err::<(), BtError>(BtError::AlreadyStarted),
    {
        if self.started {
            return Err(BtError::AlreadyStarted);
        }
        match self.registry.register_service(descriptor) {
            Ok(_) => {
                self.handlers.push(handler);
                Ok(())
            },
            Err(e) => Err(e),
        }
    }

    /// Performs the one-time application registration: returns the
    /// register-application command to issue.  Everything after this is
    /// driven by the driver's confirmation events; completion is observed
    /// as each service reaches `Live`.
    pub fn start(&mut self) -> (r: Result<Command, BtError>)
        requires
            old(self).wf(),
        ensures
            final(self).wf(),
            final(self).registry_model() == old(self).registry_model(),
            final(self).connections() == old(self).connections(),
            final(self).handlers_seq() == old(self).handlers_seq(),
            final(self).app_id_spec() == old(self).app_id_spec(),
            final(self).is_started(),
            old(self).is_started() ==> r == Err::<Command, BtError>(BtError::AlreadyStarted),
            !old(self).is_started() ==> r == Ok::<Command, BtError>(
                Command::RegisterApplication { app_id: old(self).app_id_spec() },
            ),
    {
        if self.started {
            return Err(BtError::AlreadyStarted);
        }
        self.started = true;
        Ok(Command::RegisterApplication { app_id: self.app_id })
    }

    /// Reacts to an advertising (GAP) event: a successfully configured
    /// advertising payload means advertising should start, so the caller
    /// is told `true`; a failed configuration is surfaced as its status
    /// error.
    pub fn on_gap_event(&self, event: GapEvent) -> (r: Result<bool, BtError>)
        ensures
            match event {
                GapEvent::AdvertisingConfigured(status) => match status {
                    BtStatus::Success => r == Ok::<bool, BtError>(true),
                    BtStatus::Fail(code) => r == Err::<bool, BtError>(
                        BtError::ProtocolStatus(code),
                    ),
                },
                GapEvent::Other => r == Ok::<bool, BtError>(false),
            },
    {
        match event {
            GapEvent::AdvertisingConfigured(status) => {
                match check_bt_status(status) {
                    Ok(_) => Ok(true),
                    Err(e) => Err(e),
                }
            },
            GapEvent::Other => Ok(false),
        }
    }

    /// What holds after a registration confirmation is processed.
    pub open spec fn confirmation_post(
        pre: AttrServer<H>,
        post: AttrServer<H>,
        e: GattsEvent,
        r: EventReaction,
    ) -> bool {
        &&& post.registry_model() == step(pre.registry_model(), e).0
        &&& r.commands@ == step(pre.registry_model(), e).1
        &&& post.connections() == pre.connections()
        &&& !r.resume_advertising
        &&& (step(pre.registry_model(), e).2 == Seq::<ServiceNotice>::empty()
            ==> post.handlers_seq() == pre.handlers_seq())
    }

    /// What holds after an inbound write or read for `handle` is
    /// dispatched: an unrouted handle is dropped with `UnknownHandle` and
    /// reaches no service; a routed handle reaches at most its one owning
    /// live service (exclusive routing), and at most one response — for
    /// the same connection and transfer — goes back out.
    pub open spec fn routed_post(
        pre: AttrServer<H>,
        post: AttrServer<H>,
        handle: u16,
        conn_id: u16,
        trans_id: u32,
        r: EventReaction,
    ) -> bool {
        let routes = pre.registry_model().routes;
        &&& post.registry_model() == pre.registry_model()
        &&& post.connections() == pre.connections()
        &&& !r.resume_advertising
        &&& if !routes.contains_key(handle) {
            &&& post.handlers_seq() == pre.handlers_seq()
            &&& r.commands@ == Seq::<Command>::empty()
            &&& r.outcomes@ == seq![DispatchOutcome::UnknownHandle { handle }]
        } else {
            let u = routes[handle].service_uuid;
            let i = inst_idx_uuid(pre.registry_model().instances, u);
            &&& (forall|k: int|
                0 <= k < pre.handlers_seq().len() && k != i ==> post.handlers_seq()[k]
                    == pre.handlers_seq()[k])
            &&& if pre.registry_model().instances[i].state is Live {
                &&& r.commands@.len() <= 1
                &&& (forall|c: int|
                    0 <= c < r.commands@.len() ==> {
                        &&& (#[trigger] r.commands@[c]) matches Command::SendResponse {
                            conn_id: ci,
                            trans_id: ti,
                            handle: hi,
                            ..
                        }
                        &&& ci == conn_id
                        &&& ti == trans_id
                        &&& hi == handle
                    })
            } else {
                &&& post.handlers_seq() == pre.handlers_seq()
                &&& r.commands@ == Seq::<Command>::empty()
                &&& r.outcomes@ == seq![DispatchOutcome::ServiceNotReady { service_uuid: u }]
            }
        }
    }

    /// What the facade guarantees for every inbound GATT event.
    pub open spec fn gatts_post(
        pre: AttrServer<H>,
        post: AttrServer<H>,
        e: GattsEvent,
        r: EventReaction,
    ) -> bool {
        &&& post.app_id_spec() == pre.app_id_spec()
        &&& post.is_started() == pre.is_started()
        &&& post.handlers_seq().len() == pre.handlers_seq().len()
        &&& match e {
            GattsEvent::ServiceRegistered { status, app_id } => if app_id != pre.app_id_spec() {
                &&& post.registry_model() == pre.registry_model()
                &&& post.connections() == pre.connections()
                &&& post.handlers_seq() == pre.handlers_seq()
                &&& r.commands@ == Seq::<Command>::empty()
                &&& r.outcomes@ == Seq::<DispatchOutcome>::empty()
                &&& !r.resume_advertising
            } else {
                Self::confirmation_post(pre, post, e, r)
            },
            GattsEvent::Write(we) => Self::routed_post(
                pre,
                post,
                we.handle,
                we.conn_id,
                we.trans_id,
                r,
            ),
            GattsEvent::Read(re) => Self::routed_post(
                pre,
                post,
                re.handle,
                re.conn_id,
                re.trans_id,
                r,
            ),
            GattsEvent::PeerConnected { conn_id, addr } => {
                &&& post.registry_model() == pre.registry_model()
                &&& post.connections() == drop_peer(pre.connections(), conn_id, addr).push(
                    ConnectionRecord { conn_id, addr, mtu: DEFAULT_MTU },
                )
                &&& r.commands@ == Seq::<Command>::empty()
                &&& !r.resume_advertising
            },
            GattsEvent::PeerDisconnected { addr } => {
                &&& post.registry_model() == pre.registry_model()
                &&& post.connections() == drop_addr(pre.connections(), addr)
                &&& r.commands@ == Seq::<Command>::empty()
                &&& r.resume_advertising == has_addr(pre.connections(), addr)
            },
            GattsEvent::MtuNegotiated { conn_id, mtu } => {
                &&& post.registry_model() == pre.registry_model()
                &&& post.connections().len() == pre.connections().len()
                &&& (forall|j: int|
                    0 <= j < pre.connections().len() && (#[trigger] pre.connections()[j]).conn_id
                        != conn_id ==> post.connections()[j] == pre.connections()[j])
                &&& (forall|j: int|
                    0 <= j < pre.connections().len() && (#[trigger] pre.connections()[j]).conn_id
                        == conn_id ==> post.connections()[j] == (ConnectionRecord {
                        conn_id,
                        addr: pre.connections()[j].addr,
                        mtu,
                    }))
                &&& r.commands@ == Seq::<Command>::empty()
                &&& !r.resume_advertising
            },
            GattsEvent::IndicationConfirmed { status } => {
                &&& post.registry_model() == pre.registry_model()
                &&& post.connections() == pre.connections()
                &&& post.handlers_seq() == pre.handlers_seq()
                &&& r.commands@ == Seq::<Command>::empty()
                &&& !r.resume_advertising
                &&& r.outcomes@ == match status {
                    GattStatus::Success => Seq::<DispatchOutcome>::empty(),
                    GattStatus::Fail(code) => seq![DispatchOutcome::IndicationFailed { code }],
                }
            },
            _ => Self::confirmation_post(pre, post, e, r),
        }
    }

    /// Feeds a registration confirmation to the state machine and fires
    /// the attached callback of every service the event made live.
    fn process_confirmation(&mut self, event: &GattsEvent) -> (r: EventReaction)
        requires
            old(self).wf(),
        ensures
            final(self).wf(),
            final(self).app_id_spec() == old(self).app_id_spec(),
            final(self).is_started() == old(self).is_started(),
            final(self).handlers_seq().len() == old(self).handlers_seq().len(),
            Self::confirmation_post(*old(self), *final(self), *event, r),
    {
        let (cmds, notices) = self.registry.handle_confirmation(event);
        proof {
            crate::registry::lemma_step_preserves_len(old(self).registry_model(), *event);
        }
        let ghost reg1 = self.registry;
        let mut outcomes: Vec<DispatchOutcome> = Vec::new();
        let mut j: usize = 0;
        while j < notices.len()
            invariant
                self.registry == reg1,
                self.registry.wf(),
                self.dispatcher == old(self).dispatcher,
                self.dispatcher.wf(),
                self.app_id == old(self).app_id,
                self.started == old(self).started,
                self.handlers@.len() == old(self).handlers@.len(),
                self.handlers@.len() == self.registry@.instances.len(),
                j == 0 ==> self.handlers@ == old(self).handlers@,
                j <= notices@.len(),
            decreases notices@.len() - j,
        {
            match notices[j] {
                ServiceNotice::Attached { service_uuid } => {
                    let iopt = self.registry.instance_index(service_uuid);
                    match iopt {
                        Some(i) => {
                            let sh = match self.registry.instance_at(i).service_handle {
                                Some(h) => h,
                                None => 0,
                            };
                            let mut hd = self.handlers.remove(i);
                            let res = hd.on_created(
                                sh,
                                &self.registry.instance_at(i).char_handles,
                            );
                            self.handlers.insert(i, hd);
                            match check_result(res) {
                                Some(e2) => outcomes.push(
                                    DispatchOutcome::HandlerError { service_uuid, error: e2 },
                                ),
                                None => {},
                            }
                        },
                        None => {},
                    }
                },
                ServiceNotice::Failed { service_uuid, error } => {
                    outcomes.push(DispatchOutcome::ServiceFailed { service_uuid, error });
                },
            }
            j = j + 1;
        }
        proof {
            if step(old(self).registry_model(), *event).2 == Seq::<ServiceNotice>::empty() {
                assert(notices@.len() == 0);
            }
        }
        EventReaction { commands: cmds, outcomes, resume_advertising: false }
    }

    /// Dispatches an inbound write: resolves the handle and, when it
    /// belongs to a live service, invokes exactly that service's write
    /// callback; a requested response is forwarded unchanged.
    fn dispatch_write(&mut self, we: &WriteEvent) -> (r: EventReaction)
        requires
            old(self).wf(),
        ensures
            final(self).wf(),
            final(self).app_id_spec() == old(self).app_id_spec(),
            final(self).is_started() == old(self).is_started(),
            final(self).handlers_seq().len() == old(self).handlers_seq().len(),
            Self::routed_post(*old(self), *final(self), we.handle, we.conn_id, we.trans_id, r),
    {
        let mut reaction = empty_reaction();
        let target = self.registry.table().resolve(we.handle);
        match target {
            None => {
                reaction.outcomes.push(DispatchOutcome::UnknownHandle { handle: we.handle });
                proof {
                    assert(reaction.outcomes@ =~= seq![DispatchOutcome::UnknownHandle {
                        handle: we.handle,
                    }]);
                }
                reaction
            },
            Some(t) => {
                proof {
                    old(self).wf_implies_inv();
                }
                let iopt = self.registry.instance_index(t.service_uuid);
                match iopt {
                    None => {
                        proof {
                            assert(false);
                        }
                        reaction
                    },
                    Some(i) => {
                        let is_live = self.registry.instance_at(i).state == ServiceState::Live;
                        if !is_live {
                            reaction.outcomes.push(
                                DispatchOutcome::ServiceNotReady { service_uuid: t.service_uuid },
                            );
                            proof {
                                assert(reaction.outcomes@ =~= seq![DispatchOutcome::ServiceNotReady {
                                    service_uuid: t.service_uuid,
                                }]);
                            }
                            reaction
                        } else {
                            let ghost handlers0 = self.handlers@;
                            let mut hd = self.handlers.remove(i);
                            let res = hd.on_write(we);
                            self.handlers.insert(i, hd);
                            proof {
                                assert(self.handlers@ =~= handlers0.update(
                                    i as int,
                                    self.handlers@[i as int],
                                ));
                            }
                            match res {
                                Ok(resp_opt) => {
                                    match resp_opt {
                                        Some(resp) => {
                                            reaction.commands.push(
                                                Command::SendResponse {
                                                    conn_id: we.conn_id,
                                                    trans_id: we.trans_id,
                                                    handle: we.handle,
                                                    status: resp.status,
                                                    value: resp.value,
                                                },
                                            );
                                        },
                                        None => {},
                                    }
                                },
                                Err(e2) => {
                                    reaction.outcomes.push(
                                        DispatchOutcome::HandlerError {
                                            service_uuid: t.service_uuid,
                                            error: e2,
                                        },
                                    );
                                },
                            }
                            reaction
                        }
                    },
                }
            },
        }
    }

    /// Dispatches an inbound read, mirroring the write path.
    fn dispatch_read(&mut self, re: &ReadEvent) -> (r: EventReaction)
        requires
            old(self).wf(),
        ensures
            final(self).wf(),
            final(self).app_id_spec() == old(self).app_id_spec(),
            final(self).is_started() == old(self).is_started(),
            final(self).handlers_seq().len() == old(self).handlers_seq().len(),
            Self::routed_post(*old(self), *final(self), re.handle, re.conn_id, re.trans_id, r),
    {
        let mut reaction = empty_reaction();
        let target = self.registry.table().resolve(re.handle);
        match target {
            None => {
                reaction.outcomes.push(DispatchOutcome::UnknownHandle { handle: re.handle });
                proof {
                    assert(reaction.outcomes@ =~= seq![DispatchOutcome::UnknownHandle {
                        handle: re.handle,
                    }]);
                }
                reaction
            },
            Some(t) => {
                proof {
                    old(self).wf_implies_inv();
                }
                let iopt = self.registry.instance_index(t.service_uuid);
                match iopt {
                    None => {
                        proof {
                            assert(false);
                        }
                        reaction
                    },
                    Some(i) => {
                        let is_live = self.registry.instance_at(i).state == ServiceState::Live;
                        if !is_live {
                            reaction.outcomes.push(
                                DispatchOutcome::ServiceNotReady { service_uuid: t.service_uuid },
                            );
                            proof {
                                assert(reaction.outcomes@ =~= seq![DispatchOutcome::ServiceNotReady {
                                    service_uuid: t.service_uuid,
                                }]);
                            }
                            reaction
                        } else {
                            let ghost handlers0 = self.handlers@;
                            let mut hd = self.handlers.remove(i);
                            let res = hd.on_read(re);
                            self.handlers.insert(i, hd);
                            proof {
                                assert(self.handlers@ =~= handlers0.update(
                                    i as int,
                                    self.handlers@[i as int],
                                ));
                            }
                            match res {
                                Ok(resp_opt) => {
                                    match resp_opt {
                                        Some(resp) => {
                                            reaction.commands.push(
                                                Command::SendResponse {
                                                    conn_id: re.conn_id,
                                                    trans_id: re.trans_id,
                                                    handle: re.handle,
                                                    status: resp.status,
                                                    value: resp.value,
                                                },
                                            );
                                        },
                                        None => {},
                                    }
                                },
                                Err(e2) => {
                                    reaction.outcomes.push(
                                        DispatchOutcome::HandlerError {
                                            service_uuid: t.service_uuid,
                                            error: e2,
                                        },
                                    );
                                },
                            }
                            reaction
                        }
                    },
                }
            },
        }
    }

    /// Invokes the connect callback of every live service, in
    /// registration order.
    fn broadcast_connect(&mut self, conn_id: u16, addr: u64, outcomes: &mut Vec<DispatchOutcome>)
        requires
            old(self).wf(),
        ensures
            final(self).wf(),
            final(self).registry_model() == old(self).registry_model(),
            final(self).connections() == old(self).connections(),
            final(self).app_id_spec() == old(self).app_id_spec(),
            final(self).is_started() == old(self).is_started(),
            final(self).handlers_seq().len() == old(self).handlers_seq().len(),
    {
        let n = self.handlers.len();
        let mut i: usize = 0;
        while i < n
            invariant
                self.wf(),
                self.registry == old(self).registry,
                self.dispatcher == old(self).dispatcher,
                self.app_id == old(self).app_id,
                self.started == old(self).started,
                self.handlers@.len() == n,
                n == old(self).handlers@.len(),
            decreases n - i,
        {
            let is_live = self.registry.instance_at(i).state == ServiceState::Live;
            if is_live {
                let u = self.registry.instance_at(i).descriptor.uuid;
                let mut hd = self.handlers.remove(i);
                let res = hd.on_connect(conn_id, addr);
                self.handlers.insert(i, hd);
                match check_result(res) {
                    Some(e2) => outcomes.push(
                        DispatchOutcome::HandlerError { service_uuid: u, error: e2 },
                    ),
                    None => {},
                }
            }
            i = i + 1;
        }
    }

    /// Invokes the disconnect callback of every live service, in
    /// registration order.
    fn broadcast_disconnect(&mut self, addr: u64, outcomes: &mut Vec<DispatchOutcome>)
        requires
            old(self).wf(),
        ensures
            final(self).wf(),
            final(self).registry_model() == old(self).registry_model(),
            final(self).connections() == old(self).connections(),
            final(self).app_id_spec() == old(self).app_id_spec(),
            final(self).is_started() == old(self).is_started(),
            final(self).handlers_seq().len() == old(self).handlers_seq().len(),
    {
        let n = self.handlers.len();
        let mut i: usize = 0;
        while i < n
            invariant
                self.wf(),
                self.registry == old(self).registry,
                self.dispatcher == old(self).dispatcher,
                self.app_id == old(self).app_id,
                self.started == old(self).started,
                self.handlers@.len() == n,
                n == old(self).handlers@.len(),
            decreases n - i,
        {
            let is_live = self.registry.instance_at(i).state == ServiceState::Live;
            if is_live {
                let u = self.registry.instance_at(i).descriptor.uuid;
                let mut hd = self.handlers.remove(i);
                let res = hd.on_disconnect(addr);
                self.handlers.insert(i, hd);
                match check_result(res) {
                    Some(e2) => outcomes.push(
                        DispatchOutcome::HandlerError { service_uuid: u, error: e2 },
                    ),
                    None => {},
                }
            }
            i = i + 1;
        }
    }

    /// Notifies every live service that a connection's maximum transfer
    /// unit changed.
    fn broadcast_mtu(&mut self, mtu: u16)
        requires
            old(self).wf(),
        ensures
            final(self).wf(),
            final(self).registry_model() == old(self).registry_model(),
            final(self).connections() == old(self).connections(),
            final(self).app_id_spec() == old(self).app_id_spec(),
            final(self).is_started() == old(self).is_started(),
            final(self).handlers_seq().len() == old(self).handlers_seq().len(),
    {
        let n = self.handlers.len();
        let mut i: usize = 0;
        while i < n
            invariant
                self.wf(),
                self.registry == old(self).registry,
                self.dispatcher == old(self).dispatcher,
                self.app_id == old(self).app_id,
                self.started == old(self).started,
                self.handlers@.len() == n,
                n == old(self).handlers@.len(),
            decreases n - i,
        {
            let is_live = self.registry.instance_at(i).state == ServiceState::Live;
            if is_live {
                let mut hd = self.handlers.remove(i);
                hd.notify_event(ServiceEvent::MtuUpdated { mtu });
                self.handlers.insert(i, hd);
            }
            i = i + 1;
        }
    }

    /// The single entry point for inbound GATT events, called once per
    /// event, in the order the driver delivers them.  Confirmations
    /// advance the registration machine; reads and writes are routed to
    /// exactly their owning live service; connect, disconnect and
    /// transfer-unit changes are broadcast to every live service.
    pub fn on_gatts_event(&mut self, event: &GattsEvent) -> (r: EventReaction)
        requires
            old(self).wf(),
        ensures
            final(self).wf(),
            Self::gatts_post(*old(self), *final(self), *event, r),
    {
        match event {
            GattsEvent::ServiceRegistered { status: _, app_id } => {
                if *app_id != self.app_id {
                    empty_reaction()
                } else {
                    self.process_confirmation(event)
                }
            },
            GattsEvent::Write(we) => self.dispatch_write(we),
            GattsEvent::Read(re) => self.dispatch_read(re),
            GattsEvent::PeerConnected { conn_id, addr } => {
                self.dispatcher.peer_connected(*conn_id, *addr);
                let mut outcomes: Vec<DispatchOutcome> = Vec::new();
                self.broadcast_connect(*conn_id, *addr, &mut outcomes);
                let mut r = empty_reaction();
                r.outcomes = outcomes;
                r
            },
            GattsEvent::PeerDisconnected { addr } => {
                let mut outcomes: Vec<DispatchOutcome> = Vec::new();
                self.broadcast_disconnect(*addr, &mut outcomes);
                let removed = self.dispatcher.peer_disconnected(*addr);
                let mut r = empty_reaction();
                r.outcomes = outcomes;
                r.resume_advertising = removed;
                r
            },
            GattsEvent::MtuNegotiated { conn_id, mtu } => {
                let _known = self.dispatcher.mtu_updated(*conn_id, *mtu);
                self.broadcast_mtu(*mtu);
                empty_reaction()
            },
            GattsEvent::IndicationConfirmed { status } => {
                let mut r = empty_reaction();
                match status {
                    GattStatus::Fail(code) => {
                        r.outcomes.push(DispatchOutcome::IndicationFailed { code: *code });
                        proof {
                            assert(r.outcomes@ =~= seq![DispatchOutcome::IndicationFailed {
                                code: *code,
                            }]);
                        }
                    },
                    GattStatus::Success => {},
                }
                r
            },
            _ => self.process_confirmation(event),
        }
    }

    /// Sends `payload` as an indication of the given characteristic to
    /// every connected peer: one send-indication command per connection,
    /// in connection order.  Fails with `UnknownService` unless the
    /// service is registered and live, and with `InvalidHandle` when it
    /// never declared the characteristic.
    #[verifier::loop_isolation(false)]
    pub fn indicate(&self, service_uuid: u128, char_uuid: u128, payload: &Vec<u8>) -> (r: Result<
        Vec<Command>,
        BtError,
    >)
        requires
            self.wf(),
        ensures
            r is Ok <==> {
                &&& has_inst_uuid(self.registry_model().instances, service_uuid)
                &&& self.registry_model().instances[inst_idx_uuid(
                    self.registry_model().instances,
                    service_uuid,
                )].state is Live
                &&& has_char(
                    self.registry_model().instances[inst_idx_uuid(
                        self.registry_model().instances,
                        service_uuid,
                    )].chars,
                    char_uuid,
                )
            },
            r matches Ok(cmds) ==> {
                let inst = self.registry_model().instances[inst_idx_uuid(
                    self.registry_model().instances,
                    service_uuid,
                )];
                let k = crate::descriptor::char_pos(inst.chars, char_uuid);
                &&& cmds@.len() == self.connections().len()
                &&& (forall|c: int|
                    0 <= c < cmds@.len() ==> {
                        &&& (#[trigger] cmds@[c]) matches Command::SendIndication {
                            conn_id,
                            handle,
                            value,
                        }
                        &&& conn_id == self.connections()[c].conn_id
                        &&& handle == inst.bound[k]->0
                        &&& value@ == payload@
                    })
            },
    {
        let iopt = self.registry.instance_index(service_uuid);
        let i = match iopt {
            None => {
                return Err(BtError::UnknownService);
            },
            Some(i) => i,
        };
        let inst = self.registry.instance_at(i);
        if !(inst.state == ServiceState::Live) {
            return Err(BtError::UnknownService);
        }
        proof {
            self.wf_implies_inv();
            assert(crate::registry::inst_ok(self.registry_model(), i as int));
        }
        let n = inst.char_handles.len();
        let mut k: usize = 0;
        while k < n
            invariant
                n == inst.char_handles@.len(),
                k <= n,
                forall|j: int| 0 <= j < k ==> (#[trigger] inst.char_handles@[j]).char_uuid
                    != char_uuid,
            decreases n - k,
        {
            if inst.char_handles[k].char_uuid == char_uuid {
                proof {
                    assert(inst@ == self.registry_model().instances[i as int]);
                    assert(inst@.bound[k as int] == inst.char_handles@[k as int].attr_handle);
                    assert(crate::registry::all_bound(inst@));
                }
                let ah = match inst.char_handles[k].attr_handle {
                    Some(ah) => ah,
                    None => {
                        proof {
                            assert(false);
                        }
                        0
                    },
                };
                proof {
                    assert(has_char(inst@.chars, char_uuid));
                    let k2 = crate::descriptor::char_pos(inst@.chars, char_uuid);
                    assert(0 <= k2 < inst@.chars.len() && inst@.chars[k2].uuid == char_uuid);
                    assert(k2 == k as int) by {
                        if k2 < k as int {
                            assert(inst@.chars[k2].uuid != inst@.chars[k as int].uuid);
                        }
                        if (k as int) < k2 {
                            assert(inst@.chars[k as int].uuid != inst@.chars[k2].uuid);
                        }
                    }
                }
                let recs = self.dispatcher.records();
                let mut cmds: Vec<Command> = Vec::new();
                let m = recs.len();
                let mut c: usize = 0;
                while c < m
                    invariant
                        m == recs@.len(),
                        recs@ == self.connections(),
                        c <= m,
                        cmds@.len() == c,
                        forall|d: int|
                            0 <= d < c ==> {
                                &&& (#[trigger] cmds@[d]) matches Command::SendIndication {
                                    conn_id,
                                    handle,
                                    value,
                                }
                                &&& conn_id == recs@[d].conn_id
                                &&& handle == ah
                                &&& value@ == payload@
                            },
                    decreases m - c,
                {
                    cmds.push(
                        Command::SendIndication {
                            conn_id: recs[c].conn_id,
                            handle: ah,
                            value: copy_bytes(payload),
                        },
                    );
                    c = c + 1;
                }
                return Ok(cmds);
            }
            k = k + 1;
        }
        proof {
            assert(!has_char(self.registry_model().instances[i as int].chars, char_uuid)) by {
                if has_char(inst@.chars, char_uuid) {
                    let k2 = choose|k2: int|
                        0 <= k2 < inst@.chars.len() && (#[trigger] inst@.chars[k2]).uuid
                            == char_uuid;
                    assert(inst.char_handles@[k2].char_uuid == inst@.chars[k2].uuid);
                }
            }
        }
        Err(BtError::InvalidHandle)
    }

    /// The handler owning a routed attribute handle, when its service is
    /// live: the lookup behind exclusive routing.
    pub fn find_attr_handler(&self, attr_handle: u16) -> (r: Option<&H>)
        requires
            self.wf(),
        ensures
            match r {
                Some(h) => {
                    &&& self.registry_model().routes.contains_key(attr_handle)
                    &&& *h == self.handlers_seq()[inst_idx_uuid(
                        self.registry_model().instances,
                        self.registry_model().routes[attr_handle].service_uuid,
                    )]
                },
                None => !self.registry_model().routes.contains_key(attr_handle)
                    || !(self.registry_model().instances[inst_idx_uuid(
                    self.registry_model().instances,
                    self.registry_model().routes[attr_handle].service_uuid,
                )].state is Live),
            },
    {
        let target = self.registry.table().resolve(attr_handle);
        match target {
            None => None,
            Some(t) => {
                proof {
                    self.wf_implies_inv();
                }
                match self.registry.instance_index(t.service_uuid) {
                    None => {
                        proof {
                            assert(false);
                        }
                        None
                    },
                    Some(i) => {
                        if self.registry.instance_at(i).state == ServiceState::Live {
                            Some(&self.handlers[i])
                        } else {
                            None
                        }
                    },
                }
            },
        }
    }

    /// Resolves an attribute handle through the route table: the lookup
    /// made on every inbound read and write.
    pub fn resolve(&self, attr_handle: u16) -> (r: Option<RouteTarget>)
        requires
            self.wf(),
        ensures
            r == if self.registry_model().routes.contains_key(attr_handle) {
                Some(self.registry_model().routes[attr_handle])
            } else {
                None::<RouteTarget>
            },
    {
        self.registry.table().resolve(attr_handle)
    }

    /// The registered service carrying `service_uuid`, if any.
    pub fn find_service(&self, service_uuid: u128) -> (r: Option<&crate::registry::ServiceInstance>)
        requires
            self.wf(),
        ensures
            match r {
                Some(inst) => has_inst_uuid(self.registry_model().instances, service_uuid)
                    && inst@.uuid == service_uuid && exists|i: int|
                    0 <= i < self.registry_model().instances.len()
                        && #[trigger] self.registry_model().instances[i] == inst@,
                None => !has_inst_uuid(self.registry_model().instances, service_uuid),
            },
    {
        self.registry.find_by_gatt_id(service_uuid)
    }

    /// How many peers are connected.
    pub fn connection_count(&self) -> (n: usize)
        ensures
            n == self.connections().len(),
    {
        self.dispatcher.connection_count()
    }

    /// The records of every connected peer, in connection order.
    pub fn connection_records(&self) -> (r: &Vec<ConnectionRecord>)
        ensures
            r@ == self.connections(),
    {
        self.dispatcher.records()
    }

    /// The handler registered at position `i`, in registration order.
    pub fn handler_at(&self, i: usize) -> (h: &H)
        requires
            self.wf(),
            i < self.handlers_seq().len(),
        ensures
            *h == self.handlers_seq()[i as int],
    {
        &self.handlers[i]
    }

    /// Begins explicit teardown of a live service: returns the
    /// delete-service command to issue; the instance ends when its
    /// deletion confirmation arrives.
    pub fn delete_service(&mut self, service_uuid: u128) -> (r: Result<Command, BtError>)
        requires
            old(self).wf(),
        ensures
            final(self).wf(),
            final(self).connections() == old(self).connections(),
            final(self).handlers_seq() == old(self).handlers_seq(),
            final(self).is_started() == old(self).is_started(),
            final(self).app_id_spec() == old(self).app_id_spec(),
            r is Ok <==> has_inst_uuid(old(self).registry_model().instances, service_uuid) && old(
                self,
            ).registry_model().instances[inst_idx_uuid(
                old(self).registry_model().instances,
                service_uuid,
            )].state is Live,
            r is Err ==> final(self).registry_model() == old(self).registry_model() && r
                == Err::<Command, BtError>(BtError::UnknownService),
            r is Ok ==> {
                let i = inst_idx_uuid(old(self).registry_model().instances, service_uuid);
                let inst = old(self).registry_model().instances[i];
                &&& final(self).registry_model() == (RegModel {
                    instances: old(self).registry_model().instances.update(
                        i,
                        InstModel { state: ServiceState::AwaitingDeleted, ..inst },
                    ),
                    ..old(self).registry_model()
                })
                &&& r == Ok::<Command, BtError>(Command::DeleteService {
                    service_handle: inst.handle->0,
                })
            },
    {
        self.registry.delete_service(service_uuid)
    }
}

/// A purged handle is never dispatched: once its entry has left the
/// route table, an inbound write or read for it yields `UnknownHandle` —
/// no service callback runs, no response command goes out, and no state
/// changes.
pub proof fn lemma_purged_handle_never_dispatched<H: GattServiceHandler>(
    pre: AttrServer<H>,
    post: AttrServer<H>,
    handle: u16,
    conn_id: u16,
    trans_id: u32,
    r: EventReaction,
)
    requires
        AttrServer::<H>::routed_post(pre, post, handle, conn_id, trans_id, r),
        !pre.registry_model().routes.contains_key(handle),
    ensures
        r.outcomes@ == seq![DispatchOutcome::UnknownHandle { handle }],
        r.commands@ == Seq::<Command>::empty(),
        post.handlers_seq() == pre.handlers_seq(),
        post.registry_model() == pre.registry_model(),
        post.connections() == pre.connections(),
{
}

} // verus!
