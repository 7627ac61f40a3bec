//! The composite client: a builder that activates a non-empty subset of the
//! four protocols, a start step that binds every activated protocol to the
//! same endpoints, and operations that either fail with `NotStarted`
//! without reaching any service, or hand the transport a request addressed
//! to the owning protocol's endpoints. What the transport brings back goes
//! through `take_reply`.

use crate::heartbeat::{HeartbeatSender, HeartbeatStream, RequestHeader};
use crate::lock::{LockRequest, UnlockRequest};
use crate::route::{CreateRequest, DeleteRequest, RouteRequest};
use crate::store::{
    BatchDeleteRequest, BatchGetRequest, BatchPutRequest, CompareAndPutRequest, DeleteRangeRequest,
    MoveValueRequest, PutRequest, RangeRequest,
};
use vstd::prelude::*;

verus! {

/// (cluster id, member id).
pub type Id = (u64, u64);

/// The class of process this client runs in.
#[derive(Debug, Clone, Copy, PartialEq, Eq, Structural)]
pub enum Role {
    Datanode,
    Frontend,
}

/// The four protocols a client can activate.
#[derive(Debug, Clone, Copy, PartialEq, Eq, Structural)]
pub enum Protocol {
    Heartbeat,
    Router,
    Store,
    Lock,
}

/// Errors of the composite client.
#[derive(Debug, Clone, PartialEq, Eq)]
pub enum Error {
    /// The protocol was not activated, or not started; nothing was sent.
    NotStarted(Protocol),
    /// `start` was called on a protocol that had already started.
    AlreadyStarted(Protocol),
    /// No protocol was activated at construction.
    EmptyActivation,
    /// No leader is known yet: ask for it first.
    NoLeader,
    /// The transport failed (connect, timeout); passed on as it came.
    Transport(String),
    /// A response could not be turned into the library's types.
    Conversion(String),
    /// The service answered with an error.
    Service { code: i32, message: String },
}

/// An error reported by the service in a response header.
pub struct ServiceError {
    pub code: i32,
    pub message: String,
}

/// The header of every response.
pub struct ResponseHeader {
    pub error: Option<ServiceError>,
}

/// A request ready for the transport: who sends it, the endpoints of the
/// protocol it belongs to, and the body.
pub struct Outgoing<T> {
    pub header: RequestHeader,
    pub peers: Vec<String>,
    pub body: T,
}

/// What the transport brought back for one request: a response, a
/// response it could not decode, or its own failure.
pub enum Reply<T> {
    Response(ResponseHeader, T),
    Undecodable(String),
    Failed(String),
}

/// The result that `take_reply` gives for a reply.
pub open spec fn reply_result<T>(reply: Reply<T>) -> Result<T, Error> {
    match reply {
        Reply::Response(h, body) => match h.error {
            None => Ok(body),
            Some(e) => Err(Error::Service { code: e.code, message: e.message }),
        },
        Reply::Undecodable(m) => Err(Error::Conversion(m)),
        Reply::Failed(m) => Err(Error::Transport(m)),
    }
}

/// Turns a reply into the operation's result: the body, the service's
/// error, a conversion error, or the transport's failure, unchanged.
pub fn take_reply<T>(reply: Reply<T>) -> (r: Result<T, Error>)
    ensures
        r == reply_result(reply),
{
    match reply {
        Reply::Response(h, body) => match h.error {
            None => Ok(body),
            Some(e) => Err(Error::Service { code: e.code, message: e.message }),
        },
        Reply::Undecodable(m) => Err(Error::Conversion(m)),
        Reply::Failed(m) => Err(Error::Transport(m)),
    }
}

pub open spec fn string_views(v: Seq<String>) -> Seq<Seq<char>> {
    v.map_values(|s: String| s@)
}

fn copy_strings(v: &Vec<String>) -> (r: Vec<String>)
    ensures
        string_views(r@) == string_views(v@),
{
    let mut r: Vec<String> = Vec::new();
    let mut i: usize = 0;
    while i < v.len()
        invariant
            i <= v@.len(),
            string_views(r@) == string_views(v@).take(i as int),
        decreases v@.len() - i,
    {
        let s = v[i].clone();
        let ghost before = r@;
        r.push(s);
        assert(string_views(r@) =~= string_views(before).push(v@[i as int]@));
        assert(string_views(v@).take(i + 1) =~= string_views(v@).take(i as int).push(v@[i as int]@));
        i = i + 1;
    }
    assert(string_views(v@).take(i as int) =~= string_views(v@));
    r
}

/// Whether a protocol has started, and the endpoints it was started with.
pub struct Binding {
    started: bool,
    peers: Vec<String>,
}

impl Binding {
    pub closed spec fn running(&self) -> bool {
        self.started
    }

    pub closed spec fn peers_view(&self) -> Seq<Seq<char>> {
        string_views(self.peers@)
    }

    fn new() -> (r: Binding)
        ensures
            !r.running(),
            r.peers_view().len() == 0,
    {
        let r = Binding { started: false, peers: Vec::new() };
        assert(r.peers_view() =~= Seq::<Seq<char>>::empty());
        r
    }

    pub fn is_started(&self) -> (r: bool)
        ensures
            r == self.running(),
    {
        self.started
    }

    pub fn peers(&self) -> (r: &Vec<String>)
        ensures
            string_views(r@) == self.peers_view(),
    {
        &self.peers
    }

    /// Moves from not started to started, once.
    fn start(&mut self, urls: &Vec<String>) -> (r: bool)
        ensures
            r == !old(self).running(),
            final(self).running(),
            r ==> final(self).peers_view() == string_views(urls@),
            !r ==> final(self).peers_view() == old(self).peers_view(),
    {
        if self.started {
            return false;
        }
        self.peers = copy_strings(urls);
        self.started = true;
        true
    }
}

/// Asks for the leader and keeps the answer for the heartbeat stream.
pub struct HeartbeatClient {
    binding: Binding,
    leader: Option<String>,
}

/// What a service member answered about the leader.
pub struct AskLeaderResponse {
    pub leader: Option<String>,
}

/// The router protocol's binding.
pub struct RouterClient {
    binding: Binding,
}

/// The store protocol's binding.
pub struct StoreClient {
    binding: Binding,
}

/// The lock protocol's binding.
pub struct LockClient {
    binding: Binding,
}

impl HeartbeatClient {
    pub closed spec fn running(&self) -> bool {
        self.binding.running()
    }

    pub closed spec fn peers_view(&self) -> Seq<Seq<char>> {
        self.binding.peers_view()
    }

    pub closed spec fn leader_view(&self) -> Option<Seq<char>> {
        match self.leader {
            Some(l) => Some(l@),
            None => None,
        }
    }

    /// The endpoints a leader query may go to.
    pub fn peers(&self) -> (r: &Vec<String>)
        ensures
            string_views(r@) == self.peers_view(),
    {
        self.binding.peers()
    }

    pub fn is_started(&self) -> (r: bool)
        ensures
            r == self.running(),
    {
        self.binding.is_started()
    }
}

impl RouterClient {
    pub closed spec fn running(&self) -> bool {
        self.binding.running()
    }

    /// The endpoints the protocol was started with.
    pub fn peers(&self) -> (r: &Vec<String>)
        ensures
            string_views(r@) == self.peers_view(),
    {
        self.binding.peers()
    }

    pub closed spec fn peers_view(&self) -> Seq<Seq<char>> {
        self.binding.peers_view()
    }

    pub fn is_started(&self) -> (r: bool)
        ensures
            r == self.running(),
    {
        self.binding.is_started()
    }
}

impl StoreClient {
    pub closed spec fn running(&self) -> bool {
        self.binding.running()
    }

    /// The endpoints the protocol was started with.
    pub fn peers(&self) -> (r: &Vec<String>)
        ensures
            string_views(r@) == self.peers_view(),
    {
        self.binding.peers()
    }

    pub closed spec fn peers_view(&self) -> Seq<Seq<char>> {
        self.binding.peers_view()
    }

    pub fn is_started(&self) -> (r: bool)
        ensures
            r == self.running(),
    {
        self.binding.is_started()
    }
}

impl LockClient {
    pub closed spec fn running(&self) -> bool {
        self.binding.running()
    }

    /// The endpoints the protocol was started with.
    pub fn peers(&self) -> (r: &Vec<String>)
        ensures
            string_views(r@) == self.peers_view(),
    {
        self.binding.peers()
    }

    pub closed spec fn peers_view(&self) -> Seq<Seq<char>> {
        self.binding.peers_view()
    }

    pub fn is_started(&self) -> (r: bool)
        ensures
            r == self.running(),
    {
        self.binding.is_started()
    }
}

/// Collects identity, role and the protocols to activate.
#[derive(Debug, Clone, Copy)]
pub struct MetaClientBuilder {
    pub id: Id,
    pub role: Role,
    pub enable_heartbeat: bool,
    pub enable_router: bool,
    pub enable_store: bool,
    pub enable_lock: bool,
}

impl MetaClientBuilder {
    /// Whether the builder activates protocol `p`.
    pub open spec fn enables(&self, p: Protocol) -> bool {
        match p {
            Protocol::Heartbeat => self.enable_heartbeat,
            Protocol::Router => self.enable_router,
            Protocol::Store => self.enable_store,
            Protocol::Lock => self.enable_lock,
        }
    }

    pub open spec fn any_enabled(&self) -> bool {
        self.enable_heartbeat || self.enable_router || self.enable_store || self.enable_lock
    }

    pub fn new(cluster_id: u64, member_id: u64, role: Role) -> (r: MetaClientBuilder)
        ensures
            r.id == (cluster_id, member_id),
            r.role == role,
            forall|p: Protocol| !r.enables(p),
    {
        MetaClientBuilder {
            id: (cluster_id, member_id),
            role,
            enable_heartbeat: false,
            enable_router: false,
            enable_store: false,
            enable_lock: false,
        }
    }

    pub fn enable_heartbeat(self) -> (r: MetaClientBuilder)
        ensures
            r == (MetaClientBuilder { enable_heartbeat: true, ..self }),
    {
        MetaClientBuilder { enable_heartbeat: true, ..self }
    }

    pub fn enable_router(self) -> (r: MetaClientBuilder)
        ensures
            r == (MetaClientBuilder { enable_router: true, ..self }),
    {
        MetaClientBuilder { enable_router: true, ..self }
    }

    pub fn enable_store(self) -> (r: MetaClientBuilder)
        ensures
            r == (MetaClientBuilder { enable_store: true, ..self }),
    {
        MetaClientBuilder { enable_store: true, ..self }
    }

    pub fn enable_lock(self) -> (r: MetaClientBuilder)
        ensures
            r == (MetaClientBuilder { enable_lock: true, ..self }),
    {
        MetaClientBuilder { enable_lock: true, ..self }
    }

    /// Builds the client; activating nothing is a wiring defect, so callers
    /// must activate at least one protocol.
    pub fn build(self) -> (r: MetaClient)
        requires
            self.any_enabled(),
        ensures
            r.ident() == self.id,
            r.role() == self.role,
            forall|p: Protocol| #[trigger] r.enabled(p) == self.enables(p),
            forall|p: Protocol| !#[trigger] r.started(p),
            r.leader() is None,
    {
        let hb = if self.enable_heartbeat {
            Some(HeartbeatClient { binding: Binding::new(), leader: None })
        } else {
            None
        };
        let router = if self.enable_router {
            Some(RouterClient { binding: Binding::new() })
        } else {
            None
        };
        let store = if self.enable_store {
            Some(StoreClient { binding: Binding::new() })
        } else {
            None
        };
        let lock = if self.enable_lock {
            Some(LockClient { binding: Binding::new() })
        } else {
            None
        };
        MetaClient { id: self.id, role: self.role, heartbeat: hb, router, store, lock }
    }

    /// Builds the client, or reports that no protocol was activated.
    pub fn try_build(self) -> (r: Result<MetaClient, Error>)
        ensures
            !self.any_enabled() <==> r == Err::<MetaClient, Error>(Error::EmptyActivation),
            match r {
                Ok(c) => c.ident() == self.id && c.role() == self.role
                    && (forall|p: Protocol| #[trigger] c.enabled(p) == self.enables(p))
                    && (forall|p: Protocol| !#[trigger] c.started(p)) && c.leader() is None,
                Err(e) => e == Error::EmptyActivation,
            },
    {
        if !(self.enable_heartbeat || self.enable_router || self.enable_store || self.enable_lock) {
            return Err(Error::EmptyActivation);
        }
        Ok(self.build())
    }
}

/// One client for the four protocols; each is either active or absent. It
/// holds no entries, routes or locks: those live in the service.
pub struct MetaClient {
    id: Id,
    role: Role,
    heartbeat: Option<HeartbeatClient>,
    router: Option<RouterClient>,
    store: Option<StoreClient>,
    lock: Option<LockClient>,
}

impl MetaClient {
    pub closed spec fn ident(&self) -> Id {
        self.id
    }

    pub closed spec fn role(&self) -> Role {
        self.role
    }

    /// The header that every request of this client carries.
    pub open spec fn header(&self) -> RequestHeader {
        RequestHeader { cluster_id: self.ident().0, member_id: self.ident().1, role: self.role() }
    }

    /// Whether protocol `p` was activated at construction.
    pub closed spec fn enabled(&self, p: Protocol) -> bool {
        match p {
            Protocol::Heartbeat => self.heartbeat is Some,
            Protocol::Router => self.router is Some,
            Protocol::Store => self.store is Some,
            Protocol::Lock => self.lock is Some,
        }
    }

    /// Whether protocol `p` is active and started.
    pub closed spec fn started(&self, p: Protocol) -> bool {
        match p {
            Protocol::Heartbeat => self.heartbeat is Some && self.heartbeat.unwrap().running(),
            Protocol::Router => self.router is Some && self.router.unwrap().running(),
            Protocol::Store => self.store is Some && self.store.unwrap().running(),
            Protocol::Lock => self.lock is Some && self.lock.unwrap().running(),
        }
    }

    /// The endpoints protocol `p` was started with (empty before).
    pub closed spec fn peers(&self, p: Protocol) -> Seq<Seq<char>> {
        match p {
            Protocol::Heartbeat => if self.heartbeat is Some { self.heartbeat.unwrap().peers_view() } else { seq![] },
            Protocol::Router => if self.router is Some { self.router.unwrap().peers_view() } else { seq![] },
            Protocol::Store => if self.store is Some { self.store.unwrap().peers_view() } else { seq![] },
            Protocol::Lock => if self.lock is Some { self.lock.unwrap().peers_view() } else { seq![] },
        }
    }

    /// The cached leader, if any.
    pub closed spec fn leader(&self) -> Option<Seq<char>> {
        if self.heartbeat is Some {
            self.heartbeat.unwrap().leader_view()
        } else {
            None
        }
    }

    /// How an operation of protocol `p` on `body` ends: `NotStarted` unless
    /// `p` has started; else a request with this client's header, addressed
    /// to `p`'s endpoints, carrying `body` unchanged.
    pub open spec fn sends<T>(&self, p: Protocol, body: T, r: Result<Outgoing<T>, Error>) -> bool {
        if self.started(p) {
            &&& r is Ok
            &&& r->Ok_0.header == self.header()
            &&& string_views(r->Ok_0.peers@) == self.peers(p)
            &&& r->Ok_0.body == body
        } else {
            r == Err::<Outgoing<T>, Error>(Error::NotStarted(p))
        }
    }

    /// A client with no protocol activated; every operation on it fails
    /// with `NotStarted`.
    pub fn new(id: Id) -> (r: MetaClient)
        ensures
            r.ident() == id,
            r.role() == Role::Datanode,
            forall|p: Protocol| !#[trigger] r.enabled(p) && !r.started(p),
            r.leader() is None,
    {
        MetaClient { id, role: Role::Datanode, heartbeat: None, router: None, store: None, lock: None }
    }

    pub fn id(&self) -> (r: Id)
        ensures
            r == self.ident(),
    {
        self.id
    }

    fn binding(&self, p: Protocol) -> (r: Option<&Binding>)
        ensures
            r is Some <==> self.enabled(p),
            r is Some ==> r->Some_0.running() == self.started(p) && r->Some_0.peers_view() == self.peers(p),
    {
        match p {
            Protocol::Heartbeat => match &self.heartbeat {
                Some(c) => Some(&c.binding),
                None => None,
            },
            Protocol::Router => match &self.router {
                Some(c) => Some(&c.binding),
                None => None,
            },
            Protocol::Store => match &self.store {
                Some(c) => Some(&c.binding),
                None => None,
            },
            Protocol::Lock => match &self.lock {
                Some(c) => Some(&c.binding),
                None => None,
            },
        }
    }

    /// Addresses `body` to protocol `p`, or fails without sending anything.
    fn dispatch<T>(&self, p: Protocol, body: T) -> (r: Result<Outgoing<T>, Error>)
        ensures
            self.sends(p, body, r),
    {
        match self.binding(p) {
            Some(b) => {
                if !b.is_started() {
                    return Err(Error::NotStarted(p));
                }
                let header = RequestHeader { cluster_id: self.id.0, member_id: self.id.1, role: self.role };
                Ok(Outgoing { header, peers: copy_strings(b.peers()), body })
            },
            None => Err(Error::NotStarted(p)),
        }
    }

    /// Starts every activated protocol against the same endpoints, in the
    /// order heartbeat, router, store, lock.
    pub fn start(&mut self, urls: &Vec<String>) -> (r: Result<(), Error>)
        ensures
            final(self).ident() == old(self).ident(),
            final(self).role() == old(self).role(),
            final(self).leader() == old(self).leader(),
            forall|p: Protocol| #[trigger] final(self).enabled(p) == old(self).enabled(p),
            (forall|p: Protocol| !#[trigger] old(self).started(p)) ==> r is Ok,
            r is Ok ==> forall|p: Protocol| #[trigger] final(self).started(p) == old(self).enabled(p),
            r is Ok ==> forall|p: Protocol| #[trigger] final(self).enabled(p) ==> final(self).peers(p) == string_views(urls@),
            r is Err ==> exists|p: Protocol| #[trigger] old(self).started(p) && r == Err::<(), Error>(Error::AlreadyStarted(p)),
    {
        match &mut self.heartbeat {
            Some(c) => {
                if !c.binding.start(urls) {
                    assert(old(self).started(Protocol::Heartbeat));
                    return Err(Error::AlreadyStarted(Protocol::Heartbeat));
                }
            },
            None => {},
        }
        match &mut self.router {
            Some(c) => {
                if !c.binding.start(urls) {
                    assert(old(self).started(Protocol::Router));
                    return Err(Error::AlreadyStarted(Protocol::Router));
                }
            },
            None => {},
        }
        match &mut self.store {
            Some(c) => {
                if !c.binding.start(urls) {
                    assert(old(self).started(Protocol::Store));
                    return Err(Error::AlreadyStarted(Protocol::Store));
                }
            },
            None => {},
        }
        match &mut self.lock {
            Some(c) => {
                if !c.binding.start(urls) {
                    assert(old(self).started(Protocol::Lock));
                    return Err(Error::AlreadyStarted(Protocol::Lock));
                }
            },
            None => {},
        }
        Ok(())
    }

    pub fn heartbeat_client(&self) -> (r: Result<&HeartbeatClient, Error>)
        ensures
            r is Ok <==> self.enabled(Protocol::Heartbeat),
            r is Ok ==> r->Ok_0.running() == self.started(Protocol::Heartbeat)
                && r->Ok_0.peers_view() == self.peers(Protocol::Heartbeat),
            r is Err ==> r == Err::<&HeartbeatClient, Error>(Error::NotStarted(Protocol::Heartbeat)),
    {
        match &self.heartbeat {
            Some(c) => Ok(c),
            None => Err(Error::NotStarted(Protocol::Heartbeat)),
        }
    }

    pub fn router_client(&self) -> (r: Result<&RouterClient, Error>)
        ensures
            r is Ok <==> self.enabled(Protocol::Router),
            r is Ok ==> r->Ok_0.running() == self.started(Protocol::Router)
                && r->Ok_0.peers_view() == self.peers(Protocol::Router),
            r is Err ==> r == Err::<&RouterClient, Error>(Error::NotStarted(Protocol::Router)),
    {
        match &self.router {
            Some(c) => Ok(c),
            None => Err(Error::NotStarted(Protocol::Router)),
        }
    }

    pub fn store_client(&self) -> (r: Result<&StoreClient, Error>)
        ensures
            r is Ok <==> self.enabled(Protocol::Store),
            r is Ok ==> r->Ok_0.running() == self.started(Protocol::Store)
                && r->Ok_0.peers_view() == self.peers(Protocol::Store),
            r is Err ==> r == Err::<&StoreClient, Error>(Error::NotStarted(Protocol::Store)),
    {
        match &self.store {
            Some(c) => Ok(c),
            None => Err(Error::NotStarted(Protocol::Store)),
        }
    }

    pub fn lock_client(&self) -> (r: Result<&LockClient, Error>)
        ensures
            r is Ok <==> self.enabled(Protocol::Lock),
            r is Ok ==> r->Ok_0.running() == self.started(Protocol::Lock)
                && r->Ok_0.peers_view() == self.peers(Protocol::Lock),
            r is Err ==> r == Err::<&LockClient, Error>(Error::NotStarted(Protocol::Lock)),
    {
        match &self.lock {
            Some(c) => Ok(c),
            None => Err(Error::NotStarted(Protocol::Lock)),
        }
    }

    /// The query for the leader, for any of the heartbeat endpoints.
    pub fn ask_leader_request(&self) -> (r: Result<Outgoing<()>, Error>)
        ensures
            self.sends(Protocol::Heartbeat, (), r),
    {
        self.dispatch(Protocol::Heartbeat, ())
    }

    /// Caches the leader that a member of the service named in answer to
    /// `ask_leader_request`.
    pub fn ask_leader(&mut self, reply: AskLeaderResponse) -> (r: Result<(), Error>)
        ensures
            !old(self).started(Protocol::Heartbeat) ==> r == Err::<(), Error>(Error::NotStarted(Protocol::Heartbeat)) && final(self).leader() == old(self).leader(),
            old(self).started(Protocol::Heartbeat) ==> match reply.leader {
                Some(l) => r is Ok && final(self).leader() == Some(l@),
                None => r == Err::<(), Error>(Error::NoLeader) && final(self).leader() == old(self).leader(),
            },
            final(self).ident() == old(self).ident(),
            final(self).role() == old(self).role(),
            forall|p: Protocol| #[trigger] final(self).enabled(p) == old(self).enabled(p)
                && final(self).started(p) == old(self).started(p) && final(self).peers(p) == old(self).peers(p),
    {
        match &mut self.heartbeat {
            Some(c) => {
                if !c.binding.is_started() {
                    return Err(Error::NotStarted(Protocol::Heartbeat));
                }
                match reply.leader {
                    Some(l) => {
                        c.leader = Some(l);
                        Ok(())
                    },
                    None => Err(Error::NoLeader),
                }
            },
            None => Err(Error::NotStarted(Protocol::Heartbeat)),
        }
    }

    /// Opens a heartbeat stream to the cached leader: a sender stamped with
    /// this client's header, and an empty receiver.
    pub fn heartbeat(&self) -> (r: Result<(HeartbeatSender, HeartbeatStream), Error>)
        ensures
            !self.started(Protocol::Heartbeat) ==> r is Err && r->Err_0 == Error::NotStarted(Protocol::Heartbeat),
            self.started(Protocol::Heartbeat) ==> match self.leader() {
                Some(l) => r is Ok && {
                    let (tx, rx) = r->Ok_0;
                    &&& tx.leader_view() == l
                    &&& tx.header() == self.header()
                    &&& tx.pending().len() == 0
                    &&& rx.wf()
                    &&& rx.unread().len() == 0
                },
                None => r is Err && r->Err_0 == Error::NoLeader,
            },
    {
        match &self.heartbeat {
            Some(c) => {
                if !c.binding.is_started() {
                    return Err(Error::NotStarted(Protocol::Heartbeat));
                }
                match &c.leader {
                    Some(l) => {
                        let header = RequestHeader { cluster_id: self.id.0, member_id: self.id.1, role: self.role };
                        Ok((HeartbeatSender::new(header, l.clone()), HeartbeatStream::new()))
                    },
                    None => Err(Error::NoLeader),
                }
            },
            None => Err(Error::NotStarted(Protocol::Heartbeat)),
        }
    }

    /// A request for the route of a table.
    pub fn create_route(&self, req: CreateRequest) -> (r: Result<Outgoing<CreateRequest>, Error>)
        ensures
            self.sends(Protocol::Router, req, r),
    {
        self.dispatch(Protocol::Router, req)
    }

    /// A look-up of the routes of tables.
    pub fn route(&self, req: RouteRequest) -> (r: Result<Outgoing<RouteRequest>, Error>)
        ensures
            self.sends(Protocol::Router, req, r),
    {
        self.dispatch(Protocol::Router, req)
    }

    /// A deletion of the route of a table.
    pub fn delete_route(&self, req: DeleteRequest) -> (r: Result<Outgoing<DeleteRequest>, Error>)
        ensures
            self.sends(Protocol::Router, req, r),
    {
        self.dispatch(Protocol::Router, req)
    }

    /// A range read.
    pub fn range(&self, req: RangeRequest) -> (r: Result<Outgoing<RangeRequest>, Error>)
        ensures
            self.sends(Protocol::Store, req, r),
    {
        self.dispatch(Protocol::Store, req)
    }

    /// A write of one pair.
    pub fn put(&self, req: PutRequest) -> (r: Result<Outgoing<PutRequest>, Error>)
        ensures
            self.sends(Protocol::Store, req, r),
    {
        self.dispatch(Protocol::Store, req)
    }

    /// A read of several keys.
    pub fn batch_get(&self, req: BatchGetRequest) -> (r: Result<Outgoing<BatchGetRequest>, Error>)
        ensures
            self.sends(Protocol::Store, req, r),
    {
        self.dispatch(Protocol::Store, req)
    }

    /// A write of several pairs as one step.
    pub fn batch_put(&self, req: BatchPutRequest) -> (r: Result<Outgoing<BatchPutRequest>, Error>)
        ensures
            self.sends(Protocol::Store, req, r),
    {
        self.dispatch(Protocol::Store, req)
    }

    /// A deletion of several keys as one step.
    pub fn batch_delete(&self, req: BatchDeleteRequest) -> (r: Result<Outgoing<BatchDeleteRequest>, Error>)
        ensures
            self.sends(Protocol::Store, req, r),
    {
        self.dispatch(Protocol::Store, req)
    }

    /// A conditional write.
    pub fn compare_and_put(&self, req: CompareAndPutRequest) -> (r: Result<Outgoing<CompareAndPutRequest>, Error>)
        ensures
            self.sends(Protocol::Store, req, r),
    {
        self.dispatch(Protocol::Store, req)
    }

    /// A deletion of every key a selector picks.
    pub fn delete_range(&self, req: DeleteRangeRequest) -> (r: Result<Outgoing<DeleteRangeRequest>, Error>)
        ensures
            self.sends(Protocol::Store, req, r),
    {
        self.dispatch(Protocol::Store, req)
    }

    /// A move of a value to another key.
    pub fn move_value(&self, req: MoveValueRequest) -> (r: Result<Outgoing<MoveValueRequest>, Error>)
        ensures
            self.sends(Protocol::Store, req, r),
    {
        self.dispatch(Protocol::Store, req)
    }

    /// A request for a named lock; the service answers once it grants it.
    pub fn lock(&self, req: LockRequest) -> (r: Result<Outgoing<LockRequest>, Error>)
        ensures
            self.sends(Protocol::Lock, req, r),
    {
        self.dispatch(Protocol::Lock, req)
    }

    /// A release of a lock.
    pub fn unlock(&self, req: UnlockRequest) -> (r: Result<Outgoing<UnlockRequest>, Error>)
        ensures
            self.sends(Protocol::Lock, req, r),
    {
        self.dispatch(Protocol::Lock, req)
    }
}

} // verus!

verus! {

/// Activation decides what runs: for a builder that activates at least one
/// protocol, a client built from it has every protocol unstarted, a start on
/// it succeeds, and afterwards exactly the activated protocols are started.
/// An operation of protocol `p` then fails with `NotStarted` when `p` was
/// not activated, and otherwise yields a request for the transport.
pub proof fn lemma_activation_decides<T>(
    b: MetaClientBuilder,
    built: MetaClient,
    started: MetaClient,
    r: Result<(), Error>,
    p: Protocol,
    body: T,
    op: Result<Outgoing<T>, Error>,
)
    requires
        b.any_enabled(),
        forall|q: Protocol| #[trigger] built.enabled(q) == b.enables(q),
        forall|q: Protocol| !#[trigger] built.started(q),
        (forall|q: Protocol| !#[trigger] built.started(q)) ==> r is Ok,
        r is Ok ==> forall|q: Protocol| #[trigger] started.started(q) == built.enabled(q),
        started.sends(p, body, op),
    ensures
        r is Ok,
        forall|q: Protocol| #[trigger] started.started(q) <==> b.enables(q),
        b.enables(p) ==> op is Ok && op->Ok_0.body == body && op->Ok_0.header == started.header(),
        !b.enables(p) ==> op == Err::<Outgoing<T>, Error>(Error::NotStarted(p)),
{
    assert(started.started(p) == b.enables(p));
}

} // verus!
