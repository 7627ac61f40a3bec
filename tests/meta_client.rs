use meta_client::bytes::{compare_bytes, has_prefix, prefix_end, KeyOrder};
use meta_client::client::{
    take_reply, AskLeaderResponse, Error, HeartbeatClient, LockClient, MetaClient, MetaClientBuilder, Outgoing,
    Protocol, Reply, ResponseHeader, RouterClient, ServiceError, StoreClient, Role,
};
use meta_client::heartbeat::{HeartbeatRequest, HeartbeatResponse, HeartbeatSender, HeartbeatStream, Instruction, RequestHeader};
use meta_client::kv::{KeySelector, KeyValue};
use meta_client::lock::{LockRequest, LockResponse, LockTable, UnlockRequest};
use meta_client::route::{
    CreateRequest, DeleteRequest, Partition, Peer, RouteError, RouteRequest, RouteResponse, RouteTable, TableName,
};
use meta_client::store::{
    BatchDeleteRequest, BatchDeleteResponse, BatchGetRequest, BatchGetResponse, BatchPutRequest, BatchPutResponse,
    CompareAndPutRequest, CompareAndPutResponse, DeleteRangeRequest, DeleteRangeResponse, MemStore,
    MoveValueRequest, MoveValueResponse, PutRequest, PutResponse, RangeRequest, RangeResponse,
};

const TEST_KEY_PREFIX: &str = "__unit_test__meta__";

/// A client wired to model services: each call goes out as a request, the
/// model answers, and the answer comes back through `take_reply`.
struct Conn {
    client: MetaClient,
    kv: MemStore,
    routes: RouteTable,
    locks: LockTable,
}

fn ok<T>(body: T) -> Reply<T> {
    Reply::Response(ResponseHeader { error: None }, body)
}

fn route_reply(r: Result<RouteResponse, RouteError>) -> Reply<RouteResponse> {
    match r {
        Ok(resp) => ok(resp),
        Err(e) => Reply::Response(
            ResponseHeader { error: Some(ServiceError { code: 3, message: format!("{:?}", e) }) },
            RouteResponse { table_routes: vec![] },
        ),
    }
}

impl Conn {
    fn new(client: MetaClient) -> Self {
        Conn { client, kv: MemStore::new(), routes: RouteTable::new(), locks: LockTable::new() }
    }
    fn start(&mut self, urls: &Vec<String>) -> Result<(), Error> {
        self.client.start(urls)
    }
    fn id(&self) -> (u64, u64) {
        self.client.id()
    }
    fn heartbeat_client(&self) -> Result<&HeartbeatClient, Error> {
        self.client.heartbeat_client()
    }
    fn router_client(&self) -> Result<&RouterClient, Error> {
        self.client.router_client()
    }
    fn store_client(&self) -> Result<&StoreClient, Error> {
        self.client.store_client()
    }
    #[allow(dead_code)]
    fn lock_client(&self) -> Result<&LockClient, Error> {
        self.client.lock_client()
    }
    fn ask_leader(&mut self, reply: AskLeaderResponse) -> Result<(), Error> {
        self.client.ask_leader(reply)
    }
    fn heartbeat(&self) -> Result<(HeartbeatSender, HeartbeatStream), Error> {
        self.client.heartbeat()
    }
    fn range(&mut self, req: RangeRequest) -> Result<RangeResponse, Error> {
        let out = self.client.range(req)?;
        take_reply(ok(self.kv.range(&out.body)))
    }
    fn put(&mut self, req: PutRequest) -> Result<PutResponse, Error> {
        let out = self.client.put(req)?;
        take_reply(ok(self.kv.put(&out.body)))
    }
    fn batch_get(&mut self, req: BatchGetRequest) -> Result<BatchGetResponse, Error> {
        let out = self.client.batch_get(req)?;
        take_reply(ok(self.kv.batch_get(&out.body)))
    }
    fn batch_put(&mut self, req: BatchPutRequest) -> Result<BatchPutResponse, Error> {
        let out = self.client.batch_put(req)?;
        take_reply(ok(self.kv.batch_put(&out.body)))
    }
    fn batch_delete(&mut self, req: BatchDeleteRequest) -> Result<BatchDeleteResponse, Error> {
        let out = self.client.batch_delete(req)?;
        take_reply(ok(self.kv.batch_delete(&out.body)))
    }
    fn compare_and_put(&mut self, req: CompareAndPutRequest) -> Result<CompareAndPutResponse, Error> {
        let out = self.client.compare_and_put(req)?;
        take_reply(ok(self.kv.compare_and_put(&out.body)))
    }
    fn delete_range(&mut self, req: DeleteRangeRequest) -> Result<DeleteRangeResponse, Error> {
        let out = self.client.delete_range(req)?;
        take_reply(ok(self.kv.delete_range(&out.body)))
    }
    fn move_value(&mut self, req: MoveValueRequest) -> Result<MoveValueResponse, Error> {
        let out = self.client.move_value(req)?;
        take_reply(ok(self.kv.move_value(&out.body)))
    }
    /// `peers` is what the service's peer selector chose.
    fn create_route(&mut self, req: CreateRequest, peers: &Vec<Peer>) -> Result<RouteResponse, Error> {
        let out = self.client.create_route(req)?;
        take_reply(route_reply(self.routes.create_route(&out.body, peers)))
    }
    fn route(&mut self, req: RouteRequest) -> Result<RouteResponse, Error> {
        let out = self.client.route(req)?;
        take_reply(ok(self.routes.route(&out.body)))
    }
    fn delete_route(&mut self, req: DeleteRequest) -> Result<RouteResponse, Error> {
        let out = self.client.delete_route(req)?;
        take_reply(route_reply(self.routes.delete_route(&out.body)))
    }
    /// Ok(None): the lock is held and the service has not answered yet.
    fn lock(&mut self, req: LockRequest) -> Result<Option<LockResponse>, Error> {
        let out = self.client.lock(req)?;
        take_reply(ok(self.locks.lock(&out.body)))
    }
    fn unlock(&mut self, req: UnlockRequest) -> Result<(), Error> {
        let out = self.client.unlock(req)?;
        take_reply(ok(self.locks.unlock(&out.body)))
    }
}

fn urls() -> Vec<String> {
    vec!["127.0.0.1:3001".to_string(), "127.0.0.1:3002".to_string()]
}

struct TestClient {
    ns: String,
    client: Conn,
}

impl TestClient {
    fn new(ns: &str) -> Self {
        let mut client = Conn::new(
            MetaClientBuilder::new(0, 0, Role::Datanode)
                .enable_heartbeat()
                .enable_router()
                .enable_store()
                .enable_lock()
                .build(),
        );
        client.start(&urls()).unwrap();
        TestClient { ns: ns.to_string(), client }
    }

    fn key(&self, name: &str) -> Vec<u8> {
        format!("{}-{}-{}", TEST_KEY_PREFIX, self.ns, name).into_bytes()
    }

    fn gen_data(&mut self) {
        for i in 0..10 {
            let req = PutRequest {
                key: self.key(&format!("key-{i}")),
                value: format!("{}-{}", "value", i).into_bytes(),
                prev_kv: true,
            };
            let res = self.client.put(req);
            assert!(res.is_ok());
        }
    }
}

fn put(tc: &mut TestClient, key: &[u8], value: &[u8], prev_kv: bool) -> Option<KeyValue> {
    let req = PutRequest { key: key.to_vec(), value: value.to_vec(), prev_kv };
    tc.client.put(req).unwrap().prev_kv
}

fn builder_for(mask: u32) -> MetaClientBuilder {
    let mut b = MetaClientBuilder::new(7, 9, Role::Frontend);
    if mask & 1 != 0 {
        b = b.enable_heartbeat();
    }
    if mask & 2 != 0 {
        b = b.enable_router();
    }
    if mask & 4 != 0 {
        b = b.enable_store();
    }
    if mask & 8 != 0 {
        b = b.enable_lock();
    }
    b
}

fn started_client() -> Conn {
    let mut c = Conn::new(builder_for(15).build());
    c.start(&vec!["127.0.0.1:3001".to_string()]).unwrap();
    c
}

fn not_started(p: Protocol) -> Error {
    Error::NotStarted(p)
}

#[test]
fn test_meta_client_builder() {
    let urls = urls();

    let mut meta_client = Conn::new(MetaClientBuilder::new(0, 0, Role::Datanode).enable_heartbeat().build());
    assert!(meta_client.heartbeat_client().is_ok());
    assert!(meta_client.router_client().is_err());
    assert!(meta_client.store_client().is_err());
    meta_client.start(&urls).unwrap();
    assert!(meta_client.heartbeat_client().unwrap().is_started());

    let mut meta_client = Conn::new(MetaClientBuilder::new(0, 0, Role::Datanode).enable_router().build());
    assert!(meta_client.heartbeat_client().is_err());
    assert!(meta_client.router_client().is_ok());
    assert!(meta_client.store_client().is_err());
    meta_client.start(&urls).unwrap();
    assert!(meta_client.router_client().unwrap().is_started());

    let mut meta_client = Conn::new(MetaClientBuilder::new(0, 0, Role::Datanode).enable_store().build());
    assert!(meta_client.heartbeat_client().is_err());
    assert!(meta_client.router_client().is_err());
    assert!(meta_client.store_client().is_ok());
    meta_client.start(&urls).unwrap();
    assert!(meta_client.store_client().unwrap().is_started());

    let mut meta_client = Conn::new(
        MetaClientBuilder::new(1, 2, Role::Datanode)
            .enable_heartbeat()
            .enable_router()
            .enable_store()
            .build(),
    );
    assert_eq!(1, meta_client.id().0);
    assert_eq!(2, meta_client.id().1);
    assert!(meta_client.heartbeat_client().is_ok());
    assert!(meta_client.router_client().is_ok());
    assert!(meta_client.store_client().is_ok());
    meta_client.start(&urls).unwrap();
    assert!(meta_client.heartbeat_client().unwrap().is_started());
    assert!(meta_client.router_client().unwrap().is_started());
    assert!(meta_client.store_client().unwrap().is_started());
}

#[test]
fn test_not_start_heartbeat_client() {
    let mut meta_client = MetaClientBuilder::new(0, 0, Role::Datanode)
        .enable_router()
        .enable_store()
        .build();
    meta_client.start(&urls()).unwrap();
    let res = meta_client.ask_leader(AskLeaderResponse { leader: Some("127.0.0.1:3002".to_string()) });
    assert!(matches!(res.err(), Some(Error::NotStarted { .. })));
}

#[test]
fn test_not_start_router_client() {
    let mut meta_client = MetaClientBuilder::new(0, 0, Role::Datanode)
        .enable_heartbeat()
        .enable_store()
        .build();
    meta_client.start(&urls()).unwrap();

    let req = CreateRequest::new(TableName::new("c", "s", "t"));
    let res = meta_client.create_route(req);
    assert!(matches!(res.err(), Some(Error::NotStarted { .. })));
}

#[test]
fn test_not_start_store_client() {
    let mut meta_client = MetaClientBuilder::new(0, 0, Role::Datanode)
        .enable_heartbeat()
        .enable_router()
        .build();

    meta_client.start(&urls()).unwrap();
    let res = meta_client.put(PutRequest { key: vec![], value: vec![], prev_kv: false });
    assert!(matches!(res.err(), Some(Error::NotStarted { .. })));
}

#[test]
fn test_ask_leader() {
    let mut tc = TestClient::new("test_ask_leader");
    let res = tc.client.ask_leader(AskLeaderResponse { leader: Some("127.0.0.1:3002".to_string()) });
    assert!(res.is_ok());
}

#[test]
fn test_heartbeat() {
    let mut tc = TestClient::new("test_heartbeat");
    tc.client
        .ask_leader(AskLeaderResponse { leader: Some("127.0.0.1:3001".to_string()) })
        .unwrap();
    let (mut sender, mut receiver) = tc.client.heartbeat().unwrap();
    // send heartbeats
    for _ in 0..5 {
        let req = HeartbeatRequest { header: None, peer: Some(Peer::new(1, "meta_client_peer")) };
        sender.send(req);
    }
    let sent = sender.take_pending();
    assert_eq!(5, sent.len());
    for req in &sent {
        assert_eq!(Some(RequestHeader { cluster_id: 0, member_id: 0, role: Role::Datanode }), req.header);
        assert_eq!("meta_client_peer", req.peer.as_ref().unwrap().addr);
    }

    // a leader of cluster 1000 answers each report
    for _ in &sent {
        receiver.deliver(HeartbeatResponse { cluster_id: 1000, instruction: None });
    }
    let mut n = 0;
    while let Some(res) = receiver.message() {
        assert_eq!(1000, res.cluster_id);
        n += 1;
    }
    assert_eq!(5, n);
}

fn mock_peers() -> Vec<Peer> {
    vec![Peer::new(0, "peer0"), Peer::new(1, "peer1"), Peer::new(2, "peer2")]
}

fn table_name() -> TableName {
    TableName::new("test_catalog", "test_schema", "test_table")
}

#[test]
fn test_route() {
    let mut client = TestClient::new("test_route").client;

    let p1 = Partition {
        column_list: vec![b"col_1".to_vec(), b"col_2".to_vec()],
        value_list: vec![b"k1".to_vec(), b"k2".to_vec()],
    };
    let p2 = Partition {
        column_list: vec![b"col_1".to_vec(), b"col_2".to_vec()],
        value_list: vec![b"Max1".to_vec(), b"Max2".to_vec()],
    };
    let req = CreateRequest::new(table_name()).add_partition(p1).add_partition(p2);

    let res = client.create_route(req, &mock_peers()).unwrap();
    assert_eq!(1, res.table_routes.len());

    let req = RouteRequest::new().add_table_name(table_name());
    let res = client.route(req).unwrap();
    assert!(!res.table_routes.is_empty());

    let req = DeleteRequest { table_name: table_name() };
    let res = client.delete_route(req);
    assert!(res.is_ok());
}

#[test]
fn test_range_get() {
    let mut tc = TestClient::new("test_range_get");
    tc.gen_data();

    let key = tc.key("key-0");
    let req = RangeRequest { selector: KeySelector::Key(key.clone()), keys_only: false };
    let res = tc.client.range(req);
    let mut kvs = res.unwrap().kvs;
    assert_eq!(1, kvs.len());
    let mut kv = kvs.pop().unwrap();
    assert_eq!(key, kv.take_key());
    assert_eq!(b"value-0".to_vec(), kv.take_value());
}

#[test]
fn test_range_get_prefix() {
    let mut tc = TestClient::new("test_range_get_prefix");
    tc.gen_data();

    let req = RangeRequest { selector: KeySelector::Prefix(tc.key("key-")), keys_only: false };
    let res = tc.client.range(req);
    let kvs = res.unwrap().kvs;
    assert_eq!(10, kvs.len());
    for (i, mut kv) in kvs.into_iter().enumerate() {
        assert_eq!(tc.key(&format!("key-{i}")), kv.take_key());
        assert_eq!(format!("{}-{}", "value", i).into_bytes(), kv.take_value());
    }
}

#[test]
fn test_range() {
    let mut tc = TestClient::new("test_range");
    tc.gen_data();

    let req = RangeRequest { selector: KeySelector::Range(tc.key("key-5"), tc.key("key-8")), keys_only: false };
    let res = tc.client.range(req);
    let kvs = res.unwrap().kvs;
    assert_eq!(3, kvs.len());
    for (i, mut kv) in kvs.into_iter().enumerate() {
        assert_eq!(tc.key(&format!("key-{}", i + 5)), kv.take_key());
        assert_eq!(format!("{}-{}", "value", i + 5).into_bytes(), kv.take_value());
    }
}

#[test]
fn test_range_keys_only() {
    let mut tc = TestClient::new("test_range_keys_only");
    tc.gen_data();

    let req = RangeRequest { selector: KeySelector::Range(tc.key("key-5"), tc.key("key-8")), keys_only: true };
    let res = tc.client.range(req);
    let kvs = res.unwrap().kvs;
    assert_eq!(3, kvs.len());
    for (i, mut kv) in kvs.into_iter().enumerate() {
        assert_eq!(tc.key(&format!("key-{}", i + 5)), kv.take_key());
        assert!(kv.take_value().is_empty());
    }
}

#[test]
fn test_put() {
    let mut tc = TestClient::new("test_put");
    let key = tc.key("key");
    assert!(put(&mut tc, &key, b"value", false).is_none());
}

#[test]
fn test_put_with_prev_kv() {
    let mut tc = TestClient::new("test_put_with_prev_kv");

    let key = tc.key("key");
    assert!(put(&mut tc, &key, b"value", true).is_none());

    let mut kv = put(&mut tc, &key, b"value1", true).unwrap();
    assert_eq!(key, kv.take_key());
    assert_eq!(b"value".to_vec(), kv.take_value());
}

#[test]
fn test_batch_put() {
    let mut tc = TestClient::new("test_batch_put");

    let mut kvs = Vec::new();
    for i in 0..275 {
        kvs.push(KeyValue::new(&tc.key(&format!("key-{}", i)), format!("value-{}", i).as_bytes()));
    }
    let res = tc.client.batch_put(BatchPutRequest { kvs, prev_kv: false });
    assert_eq!(0, res.unwrap().prev_kvs.len());

    let req = RangeRequest { selector: KeySelector::Prefix(tc.key("key-")), keys_only: false };
    let kvs = tc.client.range(req).unwrap().kvs;
    assert_eq!(275, kvs.len());
}

#[test]
fn test_batch_get() {
    let mut tc = TestClient::new("test_batch_get");
    tc.gen_data();

    let mut keys = Vec::new();
    for i in 0..256 {
        keys.push(tc.key(&format!("key-{}", i)));
    }
    let res = tc.client.batch_get(BatchGetRequest { keys }).unwrap();
    assert_eq!(10, res.kvs.len());

    let keys = vec![tc.key("key-1"), tc.key("key-999")];
    let res = tc.client.batch_get(BatchGetRequest { keys }).unwrap();
    assert_eq!(1, res.kvs.len());
}

#[test]
fn test_batch_put_with_prev_kv() {
    let mut tc = TestClient::new("test_batch_put_with_prev_kv");

    let key = tc.key("key");
    let key2 = tc.key("key2");
    let req = BatchPutRequest { kvs: vec![KeyValue::new(&key, b"value")], prev_kv: false };
    let res = tc.client.batch_put(req);
    assert_eq!(0, res.unwrap().prev_kvs.len());

    let req = BatchPutRequest {
        kvs: vec![KeyValue::new(&key, b"value-"), KeyValue::new(&key2, b"value2-")],
        prev_kv: true,
    };
    let mut kvs = tc.client.batch_put(req).unwrap().prev_kvs;
    assert_eq!(1, kvs.len());
    let mut kv = kvs.pop().unwrap();
    assert_eq!(key, kv.take_key());
    assert_eq!(b"value".to_vec(), kv.take_value());
}

fn cas(tc: &mut TestClient, key: &[u8], expect: Option<&[u8]>, value: &[u8]) -> (bool, Option<KeyValue>) {
    let req = CompareAndPutRequest { key: key.to_vec(), expect: expect.map(|e| e.to_vec()), value: value.to_vec() };
    let res = tc.client.compare_and_put(req).unwrap();
    (res.success, res.prev_kv)
}

#[test]
fn test_compare_and_put() {
    let mut tc = TestClient::new("test_compare_and_put");

    let key = tc.key("key");
    let (success, _) = cas(&mut tc, &key, Some(b"expect"), b"value");
    assert!(!success);

    // create if absent
    let (success, prev) = cas(&mut tc, &key, None, b"value");
    assert!(success);
    assert!(prev.is_none());

    // compare and put fail
    let (success, prev) = cas(&mut tc, &key, Some(b"not_eq"), b"value2");
    assert!(!success);
    assert_eq!(b"value".to_vec(), prev.unwrap().take_value());

    // compare and put success
    let (success, prev) = cas(&mut tc, &key, Some(b"value"), b"value2");
    assert!(success);
    assert_eq!(b"value".to_vec(), prev.unwrap().take_value());
}

#[test]
fn test_delete_with_key() {
    let mut tc = TestClient::new("test_delete_with_key");
    tc.gen_data();

    let req = DeleteRangeRequest { selector: KeySelector::Key(tc.key("key-0")), prev_kv: true };
    let res = tc.client.delete_range(req).unwrap();
    assert_eq!(1, res.deleted);
    let mut kvs = res.prev_kvs;
    assert_eq!(1, kvs.len());
    let mut kv = kvs.pop().unwrap();
    assert_eq!(b"value-0".to_vec(), kv.take_value());
}

#[test]
fn test_delete_with_prefix() {
    let mut tc = TestClient::new("test_delete_with_prefix");
    tc.gen_data();

    let req = DeleteRangeRequest { selector: KeySelector::Prefix(tc.key("key-")), prev_kv: true };
    let res = tc.client.delete_range(req).unwrap();
    assert_eq!(10, res.deleted);
    let kvs = res.prev_kvs;
    assert_eq!(10, kvs.len());
    for (i, mut kv) in kvs.into_iter().enumerate() {
        assert_eq!(format!("{}-{}", "value", i).into_bytes(), kv.take_value());
    }
}

#[test]
fn test_delete_with_range() {
    let mut tc = TestClient::new("test_delete_with_range");
    tc.gen_data();

    let req = DeleteRangeRequest { selector: KeySelector::Range(tc.key("key-2"), tc.key("key-7")), prev_kv: true };
    let res = tc.client.delete_range(req).unwrap();
    assert_eq!(5, res.deleted);
    let kvs = res.prev_kvs;
    assert_eq!(5, kvs.len());
    for (i, mut kv) in kvs.into_iter().enumerate() {
        assert_eq!(format!("{}-{}", "value", i + 2).into_bytes(), kv.take_value());
    }
}

#[test]
fn test_move_value() {
    let mut tc = TestClient::new("test_move_value");

    let from_key = tc.key("from_key");
    let to_key = tc.key("to_key");

    let req = MoveValueRequest { from_key: from_key.clone(), to_key: to_key.clone() };
    let res = tc.client.move_value(req);
    assert!(res.unwrap().kv.is_none());

    put(&mut tc, &to_key, b"value", false);

    let req = MoveValueRequest { from_key: from_key.clone(), to_key: to_key.clone() };
    let mut kv = tc.client.move_value(req).unwrap().kv.unwrap();
    assert_eq!(to_key.clone(), kv.take_key());
    assert_eq!(b"value".to_vec(), kv.take_value());

    put(&mut tc, &from_key, b"value2", false);

    // The destination already holds a value: it stays, and the source too.
    let req = MoveValueRequest { from_key: from_key.clone(), to_key: to_key.clone() };
    let mut kv = tc.client.move_value(req).unwrap().kv.unwrap();
    assert_eq!(to_key.clone(), kv.take_key());
    assert_eq!(b"value".to_vec(), kv.take_value());

    // Once the destination is empty, the source's value moves over.
    let req = DeleteRangeRequest { selector: KeySelector::Key(to_key.clone()), prev_kv: false };
    tc.client.delete_range(req).unwrap();
    let req = MoveValueRequest { from_key: from_key.clone(), to_key: to_key.clone() };
    let mut kv = tc.client.move_value(req).unwrap().kv.unwrap();
    assert_eq!(from_key, kv.take_key());
    assert_eq!(b"value2".to_vec(), kv.take_value());
    let req = BatchGetRequest { keys: vec![from_key.clone(), to_key.clone()] };
    let mut kvs = tc.client.batch_get(req).unwrap().kvs;
    assert_eq!(1, kvs.len());
    let mut kv = kvs.pop().unwrap();
    assert_eq!(to_key, kv.take_key());
    assert_eq!(b"value2".to_vec(), kv.take_value());
}

#[test]
fn every_activation_subset_gates_its_operations() {
    for mask in 1..16u32 {
        let mut c = Conn::new(builder_for(mask).build());
        c.start(&urls()).unwrap();
        let hb = c.ask_leader(AskLeaderResponse { leader: Some("leader".to_string()) });
        assert_eq!(mask & 1 != 0, hb.is_ok(), "mask {mask}");
        if mask & 1 == 0 {
            assert_eq!(Err(not_started(Protocol::Heartbeat)), hb);
        }
        let rt = c.route(RouteRequest::new());
        assert_eq!(mask & 2 != 0, rt.is_ok(), "mask {mask}");
        if mask & 2 == 0 {
            assert!(matches!(rt, Err(Error::NotStarted(Protocol::Router))));
        }
        let st = c.put(PutRequest { key: b"k".to_vec(), value: b"v".to_vec(), prev_kv: false });
        assert_eq!(mask & 4 != 0, st.is_ok(), "mask {mask}");
        if mask & 4 == 0 {
            assert!(matches!(st, Err(Error::NotStarted(Protocol::Store))));
        }
        let lk = c.lock(LockRequest { name: b"l".to_vec(), expire_secs: 10 });
        assert_eq!(mask & 8 != 0, lk.is_ok(), "mask {mask}");
        if mask & 8 == 0 {
            assert!(matches!(lk, Err(Error::NotStarted(Protocol::Lock))));
        }
    }
}

#[test]
fn operations_before_start_fail() {
    let mut c = Conn::new(builder_for(15).build());
    let res = c.put(PutRequest { key: b"k".to_vec(), value: b"v".to_vec(), prev_kv: false });
    assert!(matches!(res, Err(Error::NotStarted(Protocol::Store))));
    assert!(!c.store_client().unwrap().is_started());
}

#[test]
fn empty_activation_is_refused() {
    let res = MetaClientBuilder::new(0, 0, Role::Datanode).try_build();
    assert!(matches!(res, Err(Error::EmptyActivation)));
    assert!(MetaClientBuilder::new(0, 0, Role::Datanode).enable_lock().try_build().is_ok());
}

#[test]
fn start_happens_once() {
    let mut c = Conn::new(builder_for(4).build());
    assert!(c.start(&urls()).is_ok());
    assert_eq!(Err(Error::AlreadyStarted(Protocol::Store)), c.start(&urls()));
}

#[test]
fn put_then_read_and_previous_values() {
    let mut c = started_client();
    let r = c.put(PutRequest { key: b"k".to_vec(), value: b"v1".to_vec(), prev_kv: true }).unwrap();
    assert!(r.prev_kv.is_none());
    let kvs = c.range(RangeRequest { selector: KeySelector::Key(b"k".to_vec()), keys_only: false }).unwrap().kvs;
    assert_eq!(vec![KeyValue::new(b"k", b"v1")], kvs);
    let r = c.put(PutRequest { key: b"k".to_vec(), value: b"v2".to_vec(), prev_kv: true }).unwrap();
    assert_eq!(Some(KeyValue::new(b"k", b"v1")), r.prev_kv);
}

#[test]
fn prefix_scenario_with_ten_keys() {
    let mut c = started_client();
    for i in 0..10 {
        let req = PutRequest { key: format!("key-{i}").into_bytes(), value: format!("value-{i}").into_bytes(), prev_kv: false };
        c.put(req).unwrap();
    }
    c.put(PutRequest { key: b"other".to_vec(), value: b"x".to_vec(), prev_kv: false }).unwrap();
    let kvs = c.range(RangeRequest { selector: KeySelector::Prefix(b"key-".to_vec()), keys_only: false }).unwrap().kvs;
    assert_eq!(10, kvs.len());
    for (i, kv) in kvs.iter().enumerate() {
        assert_eq!(format!("key-{i}").into_bytes(), kv.key);
        assert_eq!(format!("value-{i}").into_bytes(), kv.value);
    }
    let res = c.delete_range(DeleteRangeRequest { selector: KeySelector::Prefix(b"key-".to_vec()), prev_kv: true }).unwrap();
    assert_eq!(10, res.deleted);
    for (i, kv) in res.prev_kvs.iter().enumerate() {
        assert_eq!(format!("value-{i}").into_bytes(), kv.value);
    }
    let left = c.range(RangeRequest { selector: KeySelector::Range(vec![], vec![0xff]), keys_only: false }).unwrap().kvs;
    assert_eq!(vec![KeyValue::new(b"other", b"x")], left);
}

#[test]
fn delete_range_without_prev_kv_reports_count_only() {
    let mut c = started_client();
    for k in [b"a1", b"a2", b"b1"] {
        c.put(PutRequest { key: k.to_vec(), value: b"v".to_vec(), prev_kv: false }).unwrap();
    }
    let res = c.delete_range(DeleteRangeRequest { selector: KeySelector::Prefix(b"a".to_vec()), prev_kv: false }).unwrap();
    assert_eq!(2, res.deleted);
    assert!(res.prev_kvs.is_empty());
}

#[test]
fn range_returns_ascending_order_whatever_the_write_order() {
    let mut c = started_client();
    for k in [b"c".to_vec(), b"a".to_vec(), b"ab".to_vec(), b"b".to_vec(), vec![]] {
        c.put(PutRequest { key: k, value: b"v".to_vec(), prev_kv: false }).unwrap();
    }
    let kvs = c.range(RangeRequest { selector: KeySelector::Range(vec![], b"z".to_vec()), keys_only: true }).unwrap().kvs;
    let keys: Vec<Vec<u8>> = kvs.iter().map(|kv| kv.key.clone()).collect();
    assert_eq!(vec![vec![], b"a".to_vec(), b"ab".to_vec(), b"b".to_vec(), b"c".to_vec()], keys);
    assert!(kvs.iter().all(|kv| kv.value.is_empty()));
}

#[test]
fn compare_and_put_sequence() {
    let mut c = started_client();
    let cas = |c: &mut Conn, expect: Option<&[u8]>, value: &[u8]| {
        c.compare_and_put(CompareAndPutRequest { key: b"k".to_vec(), expect: expect.map(|e| e.to_vec()), value: value.to_vec() }).unwrap()
    };
    let r = cas(&mut c, None, b"V");
    assert!(r.success);
    assert!(r.prev_kv.is_none());
    let r = cas(&mut c, Some(b"V"), b"V2");
    assert!(r.success);
    assert_eq!(Some(KeyValue::new(b"k", b"V")), r.prev_kv);
    let r = cas(&mut c, Some(b"stale"), b"V3");
    assert!(!r.success);
    assert_eq!(Some(KeyValue::new(b"k", b"V2")), r.prev_kv);
    let kvs = c.range(RangeRequest { selector: KeySelector::Key(b"k".to_vec()), keys_only: false }).unwrap().kvs;
    assert_eq!(vec![KeyValue::new(b"k", b"V2")], kvs);
}

#[test]
fn move_value_cases() {
    let mut c = started_client();
    let mv = |c: &mut Conn| c.move_value(MoveValueRequest { from_key: b"f".to_vec(), to_key: b"t".to_vec() }).unwrap().kv;
    assert_eq!(None, mv(&mut c));
    c.put(PutRequest { key: b"f".to_vec(), value: b"x".to_vec(), prev_kv: false }).unwrap();
    assert_eq!(Some(KeyValue::new(b"f", b"x")), mv(&mut c));
    let all = c.batch_get(BatchGetRequest { keys: vec![b"f".to_vec(), b"t".to_vec()] }).unwrap().kvs;
    assert_eq!(vec![KeyValue::new(b"t", b"x")], all);
    c.put(PutRequest { key: b"f".to_vec(), value: b"y".to_vec(), prev_kv: false }).unwrap();
    assert_eq!(Some(KeyValue::new(b"t", b"x")), mv(&mut c));
    let all = c.batch_get(BatchGetRequest { keys: vec![b"f".to_vec(), b"t".to_vec()] }).unwrap().kvs;
    assert_eq!(vec![KeyValue::new(b"f", b"y"), KeyValue::new(b"t", b"x")], all);
}

#[test]
fn batch_get_keeps_request_order_and_skips_missing() {
    let mut c = started_client();
    for k in [b"a", b"b", b"c"] {
        c.put(PutRequest { key: k.to_vec(), value: k.to_vec(), prev_kv: false }).unwrap();
    }
    let keys = vec![b"c".to_vec(), b"x".to_vec(), b"a".to_vec(), b"y".to_vec()];
    let kvs = c.batch_get(BatchGetRequest { keys }).unwrap().kvs;
    assert_eq!(vec![KeyValue::new(b"c", b"c"), KeyValue::new(b"a", b"a")], kvs);
    let none = c.batch_get(BatchGetRequest { keys: vec![] }).unwrap().kvs;
    assert!(none.is_empty());
}

#[test]
fn batch_delete_reports_removed_entries() {
    let mut c = started_client();
    for k in [b"a", b"b"] {
        c.put(PutRequest { key: k.to_vec(), value: b"v".to_vec(), prev_kv: false }).unwrap();
    }
    let req = BatchDeleteRequest { keys: vec![b"b".to_vec(), b"z".to_vec(), b"b".to_vec()], prev_kv: true };
    let res = c.batch_delete(req).unwrap();
    assert_eq!(vec![KeyValue::new(b"b", b"v")], res.prev_kvs);
    let left = c.range(RangeRequest { selector: KeySelector::Prefix(vec![]), keys_only: false }).unwrap().kvs;
    assert_eq!(vec![KeyValue::new(b"a", b"v")], left);
}

#[test]
fn batch_put_reports_values_replaced_in_order() {
    let mut c = started_client();
    let req = BatchPutRequest { kvs: vec![KeyValue::new(b"k", b"1"), KeyValue::new(b"k", b"2")], prev_kv: true };
    let res = c.batch_put(req).unwrap();
    assert_eq!(vec![KeyValue::new(b"k", b"1")], res.prev_kvs);
}

#[test]
fn route_unknown_table_is_omitted_and_delete_is_repeatable() {
    let mut c = started_client();
    let t = || TableName::new("c", "s", "t");
    let res = c.route(RouteRequest::new().add_table_name(t())).unwrap();
    assert!(res.table_routes.is_empty());
    assert!(matches!(c.delete_route(DeleteRequest { table_name: t() }), Err(Error::Service { .. })));

    let part = |v: &[u8]| Partition { column_list: vec![b"col".to_vec()], value_list: vec![v.to_vec()] };
    let req = CreateRequest::new(t()).add_partition(part(b"a")).add_partition(part(b"b")).add_partition(part(b"c"));
    let peers = vec![Peer::new(1, "p1"), Peer::new(2, "p2")];
    let created = c.create_route(req, &peers).unwrap();
    let regions = &created.table_routes[0].region_routes;
    assert_eq!(3, regions.len());
    let leaders: Vec<u64> = regions.iter().map(|r| r.leader_peer.id).collect();
    assert_eq!(vec![1, 2, 1], leaders);
    let ids: Vec<u64> = regions.iter().map(|r| r.region_id).collect();
    assert_eq!(vec![0, 1, 2], ids);
    assert_eq!(vec![b"b".to_vec()], regions[1].partition.value_list);

    let found = c.route(RouteRequest::new().add_table_name(TableName::new("x", "y", "z")).add_table_name(t())).unwrap();
    assert_eq!(1, found.table_routes.len());

    let first = c.delete_route(DeleteRequest { table_name: t() }).unwrap();
    let second = c.delete_route(DeleteRequest { table_name: t() }).unwrap();
    assert_eq!(first.table_routes[0].region_routes.len(), second.table_routes[0].region_routes.len());
    assert_eq!("t", second.table_routes[0].table_name.table_name);
    let ids: Vec<u64> = second.table_routes[0].region_routes.iter().map(|r| r.leader_peer.id).collect();
    assert_eq!(vec![1, 2, 1], ids);
    assert!(c.route(RouteRequest::new().add_table_name(t())).unwrap().table_routes.is_empty());
}

#[test]
fn create_route_without_peers_fails() {
    let mut c = started_client();
    let res = c.create_route(CreateRequest::new(TableName::new("c", "s", "t")), &vec![]);
    assert!(matches!(res, Err(Error::Service { .. })));
}

#[test]
fn locks_are_exclusive_until_released() {
    let mut c = started_client();
    let key = c.lock(LockRequest { name: b"l".to_vec(), expire_secs: 5 }).unwrap().unwrap().key;
    assert_eq!(b"l".to_vec(), key);
    assert!(c.lock(LockRequest { name: b"l".to_vec(), expire_secs: 5 }).unwrap().is_none());
    assert!(c.lock(LockRequest { name: b"m".to_vec(), expire_secs: 5 }).unwrap().is_some());
    c.unlock(UnlockRequest { key }).unwrap();
    assert!(c.lock(LockRequest { name: b"l".to_vec(), expire_secs: 5 }).unwrap().is_some());
}

#[test]
fn heartbeat_needs_a_leader() {
    let mut c = started_client();
    assert_eq!(Err(Error::NoLeader), c.heartbeat().map(|_| ()));
    assert_eq!(Err(Error::NoLeader), c.ask_leader(AskLeaderResponse { leader: None }));
    c.ask_leader(AskLeaderResponse { leader: Some("m1".to_string()) }).unwrap();
    let (mut tx, mut rx) = c.heartbeat().unwrap();
    assert_eq!("m1", tx.leader());
    assert_eq!(1, c.heartbeat_client().unwrap().peers().len());
    for id in [3u64, 1, 2] {
        tx.send(HeartbeatRequest { header: None, peer: Some(Peer::new(id, "p")) });
    }
    let ids: Vec<u64> = tx.take_pending().iter().map(|r| r.peer.as_ref().unwrap().id).collect();
    assert_eq!(vec![3, 1, 2], ids);
    assert!(tx.take_pending().is_empty());
    assert_eq!(None, rx.message());
    rx.deliver(HeartbeatResponse { cluster_id: 1, instruction: Some(Instruction::OpenRegion(4)) });
    rx.deliver(HeartbeatResponse { cluster_id: 1, instruction: Some(Instruction::CloseRegion(5)) });
    assert_eq!(Some(Instruction::OpenRegion(4)), rx.message().unwrap().instruction);
    assert_eq!(Some(Instruction::CloseRegion(5)), rx.message().unwrap().instruction);
    assert_eq!(None, rx.message());
}

#[test]
fn byte_order_and_prefix() {
    assert_eq!(KeyOrder::Less, compare_bytes(b"ab", b"b"));
    assert_eq!(KeyOrder::Less, compare_bytes(b"a", b"ab"));
    assert_eq!(KeyOrder::Greater, compare_bytes(b"b", b"ab"));
    assert_eq!(KeyOrder::Equal, compare_bytes(b"", b""));
    assert_eq!(KeyOrder::Greater, compare_bytes(&[0xff], &[0x00, 0xff]));
    assert!(has_prefix(b"key-1", b"key-"));
    assert!(has_prefix(b"key", b""));
    assert!(!has_prefix(b"ke", b"key"));
}

#[test]
fn mem_store_starts_empty() {
    let s = MemStore::new();
    assert_eq!(0, s.len());
}

#[test]
fn prefix_end_values() {
    assert_eq!(Some(vec![1, 3]), prefix_end(&[1, 2]));
    assert_eq!(Some(vec![2]), prefix_end(&[1, 0xff]));
    assert_eq!(Some(b"key.".to_vec()), prefix_end(b"key-"));
    assert_eq!(None, prefix_end(&[0xff, 0xff]));
    assert_eq!(None, prefix_end(&[]));
}

#[test]
fn selectors_as_ranges() {
    let (start, end) = KeySelector::Key(b"k".to_vec()).to_range();
    assert_eq!(b"k".to_vec(), start);
    assert_eq!(Some(vec![b'k', 0]), end);
    let (start, end) = KeySelector::Prefix(vec![7, 0xff]).to_range();
    assert_eq!(vec![7, 0xff], start);
    assert_eq!(Some(vec![8]), end);
    let (start, end) = KeySelector::Prefix(vec![0xff]).to_range();
    assert_eq!(vec![0xff], start);
    assert_eq!(None, end);
    let (start, end) = KeySelector::Range(b"a".to_vec(), b"c".to_vec()).to_range();
    assert_eq!((b"a".to_vec(), Some(b"c".to_vec())), (start, end));
    assert!(KeySelector::Prefix(vec![0xff]).matches(&[0xff, 0, 1]));
    assert!(!KeySelector::Prefix(vec![0xff]).matches(&[0xfe, 0xff]));
}

#[test]
fn compare_and_put_expecting_absence_needs_absence() {
    let mut c = started_client();
    c.put(PutRequest { key: b"k".to_vec(), value: vec![], prev_kv: false }).unwrap();
    let r = c.compare_and_put(CompareAndPutRequest { key: b"k".to_vec(), expect: None, value: b"x".to_vec() }).unwrap();
    assert!(!r.success);
    assert_eq!(Some(KeyValue::new(b"k", b"")), r.prev_kv);
    let r = c.compare_and_put(CompareAndPutRequest { key: b"k".to_vec(), expect: Some(vec![]), value: b"x".to_vec() }).unwrap();
    assert!(r.success);
}

#[test]
fn requests_carry_header_and_endpoints() {
    let mut c = MetaClientBuilder::new(3, 4, Role::Frontend).enable_store().build();
    let urls = vec!["a:1".to_string(), "b:2".to_string()];
    c.start(&urls).unwrap();
    let out: Outgoing<PutRequest> = c.put(PutRequest { key: b"k".to_vec(), value: b"v".to_vec(), prev_kv: true }).unwrap();
    assert_eq!(RequestHeader { cluster_id: 3, member_id: 4, role: Role::Frontend }, out.header);
    assert_eq!(urls, out.peers);
    assert_eq!(b"k".to_vec(), out.body.key);
    assert_eq!(&urls, c.store_client().unwrap().peers());
}

#[test]
fn leader_query_goes_to_heartbeat_endpoints() {
    let mut c = MetaClientBuilder::new(1, 2, Role::Datanode).enable_heartbeat().build();
    assert_eq!(Some(Error::NotStarted(Protocol::Heartbeat)), c.ask_leader_request().err());
    c.start(&urls()).unwrap();
    let out = c.ask_leader_request().unwrap();
    assert_eq!(urls(), out.peers);
    assert_eq!(RequestHeader { cluster_id: 1, member_id: 2, role: Role::Datanode }, out.header);
}

#[test]
fn replies_become_results() {
    assert_eq!(Ok(5), take_reply(Reply::Response(ResponseHeader { error: None }, 5)));
    let failed: Reply<u8> = Reply::Failed("connection refused".to_string());
    assert_eq!(Err(Error::Transport("connection refused".to_string())), take_reply(failed));
    let refused = Reply::Response(ResponseHeader { error: Some(ServiceError { code: 7, message: "no".to_string() }) }, 0u8);
    assert_eq!(Err(Error::Service { code: 7, message: "no".to_string() }), take_reply(refused));
    let garbled: Reply<u8> = Reply::Undecodable("bad header".to_string());
    assert_eq!(Err(Error::Conversion("bad header".to_string())), take_reply(garbled));
}
