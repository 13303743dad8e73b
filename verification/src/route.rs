//! The attribute route table: the single source of truth for handle
//! ownership.
//!
//! It keeps two mappings — runtime attribute handle to the owning
//! (service, characteristic) pair, and service identifier to runtime
//! service handle — and supports lookup in both directions.  Entries are
//! added only by the registration state machine on success confirmations
//! and purged when a service is torn down, so a resolved handle always
//! belongs to exactly one live service instance.

use vstd::prelude::*;
use crate::status::BtError;

verus! {

/// The logical owner of one routed attribute handle.
#[derive(Clone, Copy, Debug, PartialEq, Eq, Structural)]
pub struct RouteTarget {
    pub service_uuid: u128,
    pub char_uuid: u128,
}

#[derive(Clone, Copy)]
struct RouteEntry {
    attr_handle: u16,
    target: RouteTarget,
}

#[derive(Clone, Copy)]
struct SvcEntry {
    service_uuid: u128,
    service_handle: u16,
}

/// The routes left once every entry owned by `service_uuid` is purged.
pub open spec fn routes_without_service(
    m: Map<u16, RouteTarget>,
    service_uuid: u128,
) -> Map<u16, RouteTarget> {
    Map::new(
        |h: u16| m.contains_key(h) && m[h].service_uuid != service_uuid,
        |h: u16| m[h],
    )
}

/// `service_uuid` is already mapped, but to a different handle.
pub open spec fn service_conflict(m: Map<u128, u16>, service_uuid: u128, service_handle: u16) -> bool {
    m.contains_key(service_uuid) && m[service_uuid] != service_handle
}

/// `service_handle` is already owned by a different service.
pub open spec fn handle_taken(m: Map<u128, u16>, service_uuid: u128, service_handle: u16) -> bool {
    exists|u2: u128|
        u2 != service_uuid && #[trigger] m.contains_key(u2) && m[u2] == service_handle
}

spec fn attrs_has(s: Seq<RouteEntry>, h: u16) -> bool {
    exists|i: int| 0 <= i < s.len() && (#[trigger] s[i]).attr_handle == h
}

spec fn svcs_has(s: Seq<SvcEntry>, u: u128) -> bool {
    exists|i: int| 0 <= i < s.len() && (#[trigger] s[i]).service_uuid == u
}

proof fn lemma_attrs_has_push(s: Seq<RouteEntry>, e: RouteEntry, h: u16)
    ensures
        attrs_has(s.push(e), h) <==> (attrs_has(s, h) || e.attr_handle == h),
{
    if attrs_has(s, h) {
        let i = choose|i: int| 0 <= i < s.len() && (#[trigger] s[i]).attr_handle == h;
        assert(s.push(e)[i].attr_handle == h);
    }
    if e.attr_handle == h {
        assert(s.push(e)[s.len() as int].attr_handle == h);
    }
    if attrs_has(s.push(e), h) {
        let i = choose|i: int| 0 <= i < s.push(e).len() && (#[trigger] s.push(e)[i]).attr_handle == h;
        if i < s.len() {
            assert(s[i].attr_handle == h);
        } else {
            assert(s.push(e)[i] == e);
        }
    }
}

proof fn lemma_svcs_has_push(s: Seq<SvcEntry>, e: SvcEntry, u: u128)
    ensures
        svcs_has(s.push(e), u) <==> (svcs_has(s, u) || e.service_uuid == u),
{
    if svcs_has(s, u) {
        let i = choose|i: int| 0 <= i < s.len() && (#[trigger] s[i]).service_uuid == u;
        assert(s.push(e)[i].service_uuid == u);
    }
    if e.service_uuid == u {
        assert(s.push(e)[s.len() as int].service_uuid == u);
    }
    if svcs_has(s.push(e), u) {
        let i = choose|i: int| 0 <= i < s.push(e).len() && (#[trigger] s.push(e)[i]).service_uuid == u;
        if i < s.len() {
            assert(s[i].service_uuid == u);
        } else {
            assert(s.push(e)[i] == e);
        }
    }
}

/// Bidirectional mapping between runtime handles and logical identity.
pub struct AttrRouteTable {
    attrs: Vec<RouteEntry>,
    services: Vec<SvcEntry>,
    routes_g: Ghost<Map<u16, RouteTarget>>,
    handles_g: Ghost<Map<u128, u16>>,
}

impl AttrRouteTable {
    /// Mapping from runtime attribute handle to its owning (service,
    /// characteristic) pair.
    pub closed spec fn routes(self) -> Map<u16, RouteTarget> {
        self.routes_g@
    }

    /// Mapping from service identifier to its runtime service handle.
    pub closed spec fn service_handles(self) -> Map<u128, u16> {
        self.handles_g@
    }

    pub closed spec fn wf(self) -> bool {
        &&& (forall|i: int| 0 <= i < self.attrs@.len() ==> {
            &&& self.routes_g@.contains_key((#[trigger] self.attrs@[i]).attr_handle)
            &&& self.routes_g@[self.attrs@[i].attr_handle] == self.attrs@[i].target
        })
        &&& (forall|h: u16| #[trigger] self.routes_g@.contains_key(h) ==> attrs_has(self.attrs@, h))
        &&& (forall|i: int| 0 <= i < self.services@.len() ==> {
            &&& self.handles_g@.contains_key((#[trigger] self.services@[i]).service_uuid)
            &&& self.handles_g@[self.services@[i].service_uuid] == self.services@[i].service_handle
        })
        &&& (forall|u: u128| #[trigger] self.handles_g@.contains_key(u) ==> svcs_has(self.services@, u))
        &&& (forall|u1: u128, u2: u128|
            #[trigger] self.handles_g@.contains_key(u1) && #[trigger] self.handles_g@.contains_key(u2)
                && u1 != u2 ==> self.handles_g@[u1] != self.handles_g@[u2])
    }

    /// Some service owns `service_handle`.
    pub open spec fn has_owner(self, service_handle: u16) -> bool {
        exists|u: u128|
            #[trigger] self.service_handles().contains_key(u)
                && self.service_handles()[u] == service_handle
    }

    /// The service owning `service_handle`; meaningful only when
    /// `has_owner` holds (ownership is unique for a well-formed table).
    pub open spec fn owner_of(self, service_handle: u16) -> u128 {
        choose|u: u128|
            #[trigger] self.service_handles().contains_key(u)
                && self.service_handles()[u] == service_handle
    }

    pub fn new() -> (t: AttrRouteTable)
        ensures
            t.wf(),
            t.routes() == Map::<u16, RouteTarget>::empty(),
            t.service_handles() == Map::<u128, u16>::empty(),
    {
        AttrRouteTable {
            attrs: Vec::new(),
            services: Vec::new(),
            routes_g: Ghost(Map::empty()),
            handles_g: Ghost(Map::empty()),
        }
    }

    fn find_attr_index(&self, h: u16) -> (r: Option<usize>)
        ensures
            match r {
                Some(i) => i < self.attrs@.len() && self.attrs@[i as int].attr_handle == h,
                None => !attrs_has(self.attrs@, h),
            },
    {
        let mut i: usize = 0;
        while i < self.attrs.len()
            invariant
                i <= self.attrs@.len(),
                forall|j: int| 0 <= j < i ==> (#[trigger] self.attrs@[j]).attr_handle != h,
            decreases self.attrs@.len() - i,
        {
            if self.attrs[i].attr_handle == h {
                return Some(i);
            }
            i = i + 1;
        }
        None
    }

    fn find_svc_by_uuid(&self, u: u128) -> (r: Option<usize>)
        ensures
            match r {
                Some(i) => i < self.services@.len() && self.services@[i as int].service_uuid == u,
                None => !svcs_has(self.services@, u),
            },
    {
        let mut i: usize = 0;
        while i < self.services.len()
            invariant
                i <= self.services@.len(),
                forall|j: int| 0 <= j < i ==> (#[trigger] self.services@[j]).service_uuid != u,
            decreases self.services@.len() - i,
        {
            if self.services[i].service_uuid == u {
                return Some(i);
            }
            i = i + 1;
        }
        None
    }

    fn find_svc_by_handle(&self, h: u16) -> (r: Option<usize>)
        ensures
            match r {
                Some(i) => i < self.services@.len() && self.services@[i as int].service_handle == h,
                None => forall|j: int|
                    0 <= j < self.services@.len() ==> (#[trigger] self.services@[j]).service_handle != h,
            },
    {
        let mut i: usize = 0;
        while i < self.services.len()
            invariant
                i <= self.services@.len(),
                forall|j: int| 0 <= j < i ==> (#[trigger] self.services@[j]).service_handle != h,
            decreases self.services@.len() - i,
        {
            if self.services[i].service_handle == h {
                return Some(i);
            }
            i = i + 1;
        }
        None
    }

    /// Records (or re-confirms) the runtime handle of a service.  Fails with
    /// `DuplicateService` when the service is already mapped to a different
    /// handle, and with `InvalidHandle` when the handle is already owned by
    /// a different service.
    pub fn record_service(&mut self, service_uuid: u128, service_handle: u16) -> (r: Result<
        (),
        BtError,
    >)
        requires
            old(self).wf(),
        ensures
            final(self).wf(),
            r is Ok <==> !service_conflict(old(self).service_handles(), service_uuid, service_handle)
                && !handle_taken(old(self).service_handles(), service_uuid, service_handle),
            r is Ok ==> final(self).service_handles()
                == old(self).service_handles().insert(service_uuid, service_handle),
            r is Err ==> final(self).service_handles() == old(self).service_handles(),
            final(self).routes() == old(self).routes(),
            r == Err::<(), BtError>(BtError::DuplicateService)
                <==> service_conflict(old(self).service_handles(), service_uuid, service_handle),
            r == Err::<(), BtError>(BtError::InvalidHandle)
                <==> !service_conflict(old(self).service_handles(), service_uuid, service_handle)
                    && handle_taken(old(self).service_handles(), service_uuid, service_handle),
    {
        let ghost m = self.handles_g@;
        match self.find_svc_by_uuid(service_uuid) {
            Some(i) => {
                let e = self.services[i];
                if e.service_handle == service_handle {
                    proof {
                        assert(m.contains_key(service_uuid) && m[service_uuid] == service_handle);
                        assert(!handle_taken(m, service_uuid, service_handle)) by {
                            if handle_taken(m, service_uuid, service_handle) {
                                let u2 = choose|u2: u128|
                                    u2 != service_uuid && #[trigger] m.contains_key(u2)
                                        && m[u2] == service_handle;
                                assert(m[u2] != m[service_uuid]);
                            }
                        }
                        assert(m.insert(service_uuid, service_handle) =~= m);
                    }
                    self.handles_g = Ghost(m.insert(service_uuid, service_handle));
                    Ok(())
                } else {
                    proof {
                        assert(m.contains_key(service_uuid) && m[service_uuid] == e.service_handle);
                    }
                    Err(BtError::DuplicateService)
                }
            },
            None => {
                proof {
                    assert(!m.contains_key(service_uuid));
                }
                match self.find_svc_by_handle(service_handle) {
                    Some(j) => {
                        proof {
                            let u2 = self.services@[j as int].service_uuid;
                            assert(m.contains_key(u2) && m[u2] == service_handle);
                            assert(handle_taken(m, service_uuid, service_handle));
                        }
                        Err(BtError::InvalidHandle)
                    },
                    None => {
                        proof {
                            assert(!handle_taken(m, service_uuid, service_handle)) by {
                                if handle_taken(m, service_uuid, service_handle) {
                                    let u2 = choose|u2: u128|
                                        u2 != service_uuid && #[trigger] m.contains_key(u2)
                                            && m[u2] == service_handle;
                                    let j = choose|j: int|
                                        0 <= j < self.services@.len()
                                            && (#[trigger] self.services@[j]).service_uuid == u2;
                                    assert(self.services@[j].service_handle == service_handle);
                                }
                            }
                        }
                        let ghost s0 = self.services@;
                        self.services.push(SvcEntry { service_uuid, service_handle });
                        self.handles_g = Ghost(m.insert(service_uuid, service_handle));
                        proof {
                            let m1 = m.insert(service_uuid, service_handle);
                            assert forall|u: u128| #[trigger] m1.contains_key(u)
                                implies svcs_has(self.services@, u) by {
                                lemma_svcs_has_push(
                                    s0,
                                    SvcEntry { service_uuid, service_handle },
                                    u,
                                );
                            }
                            assert forall|i2: int| 0 <= i2 < self.services@.len() implies {
                                &&& m1.contains_key((#[trigger] self.services@[i2]).service_uuid)
                                &&& m1[self.services@[i2].service_uuid]
                                    == self.services@[i2].service_handle
                            } by {
                                if i2 < s0.len() {
                                    assert(self.services@[i2] == s0[i2]);
                                    assert(s0[i2].service_uuid != service_uuid);
                                }
                            }
                        }
                        Ok(())
                    },
                }
            },
        }
    }

    /// Records the runtime handle assigned to one characteristic of the
    /// service at `service_handle`.  Fails with `UnknownService` when that
    /// service handle was never recorded, and with `InvalidHandle` when the
    /// attribute handle is already routed.
    pub fn record_attribute(
        &mut self,
        service_handle: u16,
        char_uuid: u128,
        attr_handle: u16,
    ) -> (r: Result<(), BtError>)
        requires
            old(self).wf(),
        ensures
            final(self).wf(),
            r is Ok <==> old(self).has_owner(service_handle)
                && !old(self).routes().contains_key(attr_handle),
            r is Ok ==> final(self).routes() == old(self).routes().insert(
                attr_handle,
                RouteTarget { service_uuid: old(self).owner_of(service_handle), char_uuid },
            ),
            r is Err ==> final(self).routes() == old(self).routes(),
            final(self).service_handles() == old(self).service_handles(),
            r == Err::<(), BtError>(BtError::UnknownService) <==> !old(self).has_owner(service_handle),
            r == Err::<(), BtError>(BtError::InvalidHandle) <==> old(self).has_owner(service_handle)
                && old(self).routes().contains_key(attr_handle),
    {
        let ghost m = self.handles_g@;
        let ghost rts = self.routes_g@;
        match self.find_svc_by_handle(service_handle) {
            None => {
                proof {
                    assert(!self.has_owner(service_handle)) by {
                        if self.has_owner(service_handle) {
                            let u = choose|u: u128|
                                #[trigger] m.contains_key(u) && m[u] == service_handle;
                            let j = choose|j: int|
                                0 <= j < self.services@.len()
                                    && (#[trigger] self.services@[j]).service_uuid == u;
                            assert(self.services@[j].service_handle == service_handle);
                        }
                    }
                }
                Err(BtError::UnknownService)
            },
            Some(i) => {
                let owner = self.services[i].service_uuid;
                proof {
                    assert(m.contains_key(owner) && m[owner] == service_handle);
                    assert(self.has_owner(service_handle));
                    let u2 = self.owner_of(service_handle);
                    assert(m.contains_key(u2) && m[u2] == service_handle);
                    assert(u2 == owner) by {
                        if u2 != owner {
                            assert(m[u2] != m[owner]);
                        }
                    }
                }
                match self.find_attr_index(attr_handle) {
                    Some(_) => {
                        proof {
                            let k = choose|k: int|
                                0 <= k < self.attrs@.len()
                                    && (#[trigger] self.attrs@[k]).attr_handle == attr_handle;
                            assert(rts.contains_key(attr_handle));
                        }
                        Err(BtError::InvalidHandle)
                    },
                    None => {
                        proof {
                            assert(!rts.contains_key(attr_handle));
                        }
                        let target = RouteTarget { service_uuid: owner, char_uuid };
                        let ghost a0 = self.attrs@;
                        self.attrs.push(RouteEntry { attr_handle, target });
                        self.routes_g = Ghost(rts.insert(attr_handle, target));
                        proof {
                            let r1 = rts.insert(attr_handle, target);
                            assert forall|h: u16| #[trigger] r1.contains_key(h)
                                implies attrs_has(self.attrs@, h) by {
                                lemma_attrs_has_push(a0, RouteEntry { attr_handle, target }, h);
                            }
                            assert forall|i2: int| 0 <= i2 < self.attrs@.len() implies {
                                &&& r1.contains_key((#[trigger] self.attrs@[i2]).attr_handle)
                                &&& r1[self.attrs@[i2].attr_handle] == self.attrs@[i2].target
                            } by {
                                if i2 < a0.len() {
                                    assert(self.attrs@[i2] == a0[i2]);
                                    assert(a0[i2].attr_handle != attr_handle);
                                }
                            }
                        }
                        Ok(())
                    },
                }
            },
        }
    }

    /// Resolves an attribute handle to its owner; the lookup the dispatcher
    /// makes on every inbound read and write.
    pub fn resolve(&self, attr_handle: u16) -> (r: Option<RouteTarget>)
        requires
            self.wf(),
        ensures
            r == if self.routes().contains_key(attr_handle) {
                Some(self.routes()[attr_handle])
            } else {
                None::<RouteTarget>
            },
    {
        match self.find_attr_index(attr_handle) {
            Some(i) => Some(self.attrs[i].target),
            None => None,
        }
    }

    /// The runtime handle recorded for a service, if any.
    pub fn service_handle_of(&self, service_uuid: u128) -> (r: Option<u16>)
        requires
            self.wf(),
        ensures
            r == if self.service_handles().contains_key(service_uuid) {
                Some(self.service_handles()[service_uuid])
            } else {
                None::<u16>
            },
    {
        match self.find_svc_by_uuid(service_uuid) {
            Some(i) => Some(self.services[i].service_handle),
            None => None,
        }
    }

    /// Purges the service-handle entry of `service_uuid` and every
    /// attribute route it owns.  Removing a service that owns nothing
    /// changes nothing, so a second removal is a no-op.
    pub fn remove_service(&mut self, service_uuid: u128)
        requires
            old(self).wf(),
        ensures
            final(self).wf(),
            final(self).routes() == routes_without_service(old(self).routes(), service_uuid),
            final(self).service_handles() == old(self).service_handles().remove(service_uuid),
    {
        let ghost old_attrs = self.attrs@;
        let ghost old_svcs = self.services@;
        let ghost rts = self.routes_g@;
        let ghost m = self.handles_g@;

        let mut kept: Vec<RouteEntry> = Vec::new();
        let mut i: usize = 0;
        while i < self.attrs.len()
            invariant
                self.attrs@ == old_attrs,
                self.wf(),
                self.routes_g@ == rts,
                i <= old_attrs.len(),
                forall|j: int| 0 <= j < kept@.len() ==> {
                    &&& (#[trigger] kept@[j]).target.service_uuid != service_uuid
                    &&& rts.contains_key(kept@[j].attr_handle)
                    &&& rts[kept@[j].attr_handle] == kept@[j].target
                },
                forall|j: int|
                    0 <= j < i && (#[trigger] old_attrs[j]).target.service_uuid != service_uuid
                        ==> attrs_has(kept@, old_attrs[j].attr_handle),
            decreases old_attrs.len() - i,
        {
            let e = self.attrs[i];
            let ghost k0 = kept@;
            if e.target.service_uuid != service_uuid {
                kept.push(e);
            }
            proof {
                assert forall|j: int|
                    0 <= j < i + 1 && (#[trigger] old_attrs[j]).target.service_uuid != service_uuid
                        implies attrs_has(kept@, old_attrs[j].attr_handle) by {
                    if e.target.service_uuid != service_uuid {
                        lemma_attrs_has_push(k0, e, old_attrs[j].attr_handle);
                    }
                }
            }
            i = i + 1;
        }

        let mut kept_svcs: Vec<SvcEntry> = Vec::new();
        let mut k: usize = 0;
        while k < self.services.len()
            invariant
                self.services@ == old_svcs,
                self.wf(),
                self.handles_g@ == m,
                k <= old_svcs.len(),
                forall|j: int| 0 <= j < kept_svcs@.len() ==> {
                    &&& (#[trigger] kept_svcs@[j]).service_uuid != service_uuid
                    &&& m.contains_key(kept_svcs@[j].service_uuid)
                    &&& m[kept_svcs@[j].service_uuid] == kept_svcs@[j].service_handle
                },
                forall|j: int|
                    0 <= j < k && (#[trigger] old_svcs[j]).service_uuid != service_uuid
                        ==> svcs_has(kept_svcs@, old_svcs[j].service_uuid),
            decreases old_svcs.len() - k,
        {
            let e = self.services[k];
            let ghost k0 = kept_svcs@;
            if e.service_uuid != service_uuid {
                kept_svcs.push(e);
            }
            proof {
                assert forall|j: int|
                    0 <= j < k + 1 && (#[trigger] old_svcs[j]).service_uuid != service_uuid
                        implies svcs_has(kept_svcs@, old_svcs[j].service_uuid) by {
                    if e.service_uuid != service_uuid {
                        lemma_svcs_has_push(k0, e, old_svcs[j].service_uuid);
                    }
                }
            }
            k = k + 1;
        }

        self.attrs = kept;
        self.services = kept_svcs;
        self.routes_g = Ghost(routes_without_service(rts, service_uuid));
        self.handles_g = Ghost(m.remove(service_uuid));
        proof {
            let r1 = routes_without_service(rts, service_uuid);
            assert forall|h: u16| #[trigger] r1.contains_key(h)
                implies attrs_has(self.attrs@, h) by {
                let j = choose|j: int|
                    0 <= j < old_attrs.len() && (#[trigger] old_attrs[j]).attr_handle == h;
                assert(rts[h] == old_attrs[j].target);
            }
            let m1 = m.remove(service_uuid);
            assert forall|u: u128| #[trigger] m1.contains_key(u)
                implies svcs_has(self.services@, u) by {
                let j = choose|j: int|
                    0 <= j < old_svcs.len() && (#[trigger] old_svcs[j]).service_uuid == u;
                assert(old_svcs[j].service_uuid != service_uuid);
            }
        }
    }
}

/// Purging a service is idempotent: a second removal of the same service
/// leaves both mappings exactly as the first left them.
pub proof fn lemma_remove_service_idempotent(
    routes: Map<u16, RouteTarget>,
    handles: Map<u128, u16>,
    service_uuid: u128,
)
    ensures
        routes_without_service(routes_without_service(routes, service_uuid), service_uuid)
            == routes_without_service(routes, service_uuid),
        handles.remove(service_uuid).remove(service_uuid) == handles.remove(service_uuid),
{
    assert(routes_without_service(routes_without_service(routes, service_uuid), service_uuid)
        =~= routes_without_service(routes, service_uuid));
    assert(handles.remove(service_uuid).remove(service_uuid) =~= handles.remove(service_uuid));
}

/// A handle recorded for a service and then purged with that service is no
/// longer resolvable, whatever else the table holds.
pub proof fn lemma_removed_handle_unresolvable(
    routes: Map<u16, RouteTarget>,
    target: RouteTarget,
    attr_handle: u16,
)
    ensures
        !routes_without_service(routes.insert(attr_handle, target), target.service_uuid)
            .contains_key(attr_handle),
{
}

} // verus!
