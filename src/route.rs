//! The table routing protocol: its messages, and a model of the service's
//! route table that answers create, look-up and delete requests. Which peers
//! a new table goes to is chosen outside (a peer selector); the model places
//! regions on the chosen peers in turn.

use crate::bytes::copy_bytes;
use vstd::prelude::*;

verus! {

/// A fully qualified table name.
pub struct TableName {
    pub catalog_name: String,
    pub schema_name: String,
    pub table_name: String,
}

impl View for TableName {
    type V = (Seq<char>, Seq<char>, Seq<char>);

    open spec fn view(&self) -> (Seq<char>, Seq<char>, Seq<char>) {
        (self.catalog_name@, self.schema_name@, self.table_name@)
    }
}

impl TableName {
    pub fn new(catalog_name: &str, schema_name: &str, table_name: &str) -> (r: TableName)
        ensures
            r@ == (catalog_name@, schema_name@, table_name@),
    {
        TableName {
            catalog_name: catalog_name.to_string(),
            schema_name: schema_name.to_string(),
            table_name: table_name.to_string(),
        }
    }

    pub fn copy(&self) -> (r: TableName)
        ensures
            r@ == self@,
    {
        TableName {
            catalog_name: self.catalog_name.clone(),
            schema_name: self.schema_name.clone(),
            table_name: self.table_name.clone(),
        }
    }

    pub fn same(&self, other: &TableName) -> (r: bool)
        ensures
            r == (self@ == other@),
    {
        self.catalog_name == other.catalog_name && self.schema_name == other.schema_name
            && self.table_name == other.table_name
    }
}

/// A storage node.
pub struct Peer {
    pub id: u64,
    pub addr: String,
}

impl View for Peer {
    type V = (u64, Seq<char>);

    open spec fn view(&self) -> (u64, Seq<char>) {
        (self.id, self.addr@)
    }
}

impl Peer {
    pub fn new(id: u64, addr: &str) -> (r: Peer)
        ensures
            r@ == (id, addr@),
    {
        Peer { id, addr: addr.to_string() }
    }

    pub fn copy(&self) -> (r: Peer)
        ensures
            r@ == self@,
    {
        Peer { id: self.id, addr: self.addr.clone() }
    }
}

pub open spec fn bytes_views(v: Seq<Vec<u8>>) -> Seq<Seq<u8>> {
    v.map_values(|b: Vec<u8>| b@)
}

fn copy_byte_lists(v: &Vec<Vec<u8>>) -> (r: Vec<Vec<u8>>)
    ensures
        bytes_views(r@) == bytes_views(v@),
{
    let mut r: Vec<Vec<u8>> = Vec::new();
    let mut i: usize = 0;
    while i < v.len()
        invariant
            i <= v@.len(),
            bytes_views(r@) == bytes_views(v@).take(i as int),
        decreases v@.len() - i,
    {
        let b = copy_bytes(v[i].as_slice());
        let ghost before = r@;
        r.push(b);
        assert(bytes_views(r@) =~= bytes_views(before).push(v@[i as int]@));
        assert(bytes_views(v@).take(i + 1) =~= bytes_views(v@).take(i as int).push(v@[i as int]@));
        i = i + 1;
    }
    assert(bytes_views(v@).take(i as int) =~= bytes_views(v@));
    r
}

/// A partition of a table: its columns and the boundary values on them.
pub struct Partition {
    pub column_list: Vec<Vec<u8>>,
    pub value_list: Vec<Vec<u8>>,
}

impl View for Partition {
    type V = (Seq<Seq<u8>>, Seq<Seq<u8>>);

    open spec fn view(&self) -> (Seq<Seq<u8>>, Seq<Seq<u8>>) {
        (bytes_views(self.column_list@), bytes_views(self.value_list@))
    }
}

impl Partition {
    pub fn copy(&self) -> (r: Partition)
        ensures
            r@ == self@,
    {
        Partition {
            column_list: copy_byte_lists(&self.column_list),
            value_list: copy_byte_lists(&self.value_list),
        }
    }
}

/// One region of a table and the peer that leads it.
pub struct RegionRoute {
    pub region_id: u64,
    pub partition: Partition,
    pub leader_peer: Peer,
}

pub type RegionRouteView = (u64, (Seq<Seq<u8>>, Seq<Seq<u8>>), (u64, Seq<char>));

impl View for RegionRoute {
    type V = RegionRouteView;

    open spec fn view(&self) -> RegionRouteView {
        (self.region_id, self.partition@, self.leader_peer@)
    }
}

pub open spec fn region_views(v: Seq<RegionRoute>) -> Seq<RegionRouteView> {
    v.map_values(|r: RegionRoute| r@)
}

/// The route of one table: all of its regions.
pub struct TableRoute {
    pub table_name: TableName,
    pub region_routes: Vec<RegionRoute>,
}

pub type TableRouteView = ((Seq<char>, Seq<char>, Seq<char>), Seq<RegionRouteView>);

impl View for TableRoute {
    type V = TableRouteView;

    open spec fn view(&self) -> TableRouteView {
        (self.table_name@, region_views(self.region_routes@))
    }
}

impl TableRoute {
    pub fn copy(&self) -> (r: TableRoute)
        ensures
            r@ == self@,
    {
        let mut regions: Vec<RegionRoute> = Vec::new();
        let mut i: usize = 0;
        while i < self.region_routes.len()
            invariant
                i <= self.region_routes@.len(),
                region_views(regions@) == region_views(self.region_routes@).take(i as int),
            decreases self.region_routes@.len() - i,
        {
            let r = &self.region_routes[i];
            let c = RegionRoute {
                region_id: r.region_id,
                partition: r.partition.copy(),
                leader_peer: r.leader_peer.copy(),
            };
            assert(c@ == r@);
            let ghost before = regions@;
            regions.push(c);
            assert(region_views(regions@) =~= region_views(before).push(r@));
            assert(region_views(self.region_routes@).take(i + 1) =~= region_views(self.region_routes@).take(i as int).push(r@));
            i = i + 1;
        }
        assert(region_views(self.region_routes@).take(i as int) =~= region_views(self.region_routes@));
        TableRoute { table_name: self.table_name.copy(), region_routes: regions }
    }
}

pub open spec fn route_views(v: Seq<TableRoute>) -> Seq<TableRouteView> {
    v.map_values(|r: TableRoute| r@)
}

pub struct CreateRequest {
    pub table_name: TableName,
    pub partitions: Vec<Partition>,
}

impl CreateRequest {
    pub fn new(table_name: TableName) -> (r: CreateRequest)
        ensures
            r.table_name@ == table_name@,
            r.partitions@.len() == 0,
    {
        CreateRequest { table_name, partitions: Vec::new() }
    }

    pub fn add_partition(self, partition: Partition) -> (r: CreateRequest)
        ensures
            r.table_name@ == self.table_name@,
            r.partitions@ == self.partitions@.push(partition),
    {
        let mut partitions = self.partitions;
        partitions.push(partition);
        CreateRequest { table_name: self.table_name, partitions }
    }
}

pub struct RouteRequest {
    pub table_names: Vec<TableName>,
}

impl RouteRequest {
    pub fn new() -> (r: RouteRequest)
        ensures
            r.table_names@.len() == 0,
    {
        RouteRequest { table_names: Vec::new() }
    }

    pub fn add_table_name(self, table_name: TableName) -> (r: RouteRequest)
        ensures
            r.table_names@ == self.table_names@.push(table_name),
    {
        let mut table_names = self.table_names;
        table_names.push(table_name);
        RouteRequest { table_names }
    }
}

pub struct DeleteRequest {
    pub table_name: TableName,
}

pub struct RouteResponse {
    pub table_routes: Vec<TableRoute>,
}

/// One stored route and whether it was deleted.
pub struct RouteEntry {
    pub route: TableRoute,
    pub deleted: bool,
}

pub type RouteEntryView = (TableRouteView, bool);

/// The first index at or after `i` whose entry is for table `t`, or -1.
pub open spec fn find_from(s: Seq<RouteEntryView>, t: (Seq<char>, Seq<char>, Seq<char>), i: int) -> int
    decreases s.len() - i,
{
    if i < 0 || i >= s.len() {
        -1
    } else if s[i].0.0 == t {
        i
    } else {
        find_from(s, t, i + 1)
    }
}

pub open spec fn find_route(s: Seq<RouteEntryView>, t: (Seq<char>, Seq<char>, Seq<char>)) -> int {
    find_from(s, t, 0)
}

/// The live routes for the named tables, in request order; unknown or
/// deleted tables are left out.
pub open spec fn live_routes(s: Seq<RouteEntryView>, names: Seq<(Seq<char>, Seq<char>, Seq<char>)>) -> Seq<
    TableRouteView,
>
    decreases names.len(),
{
    if names.len() == 0 {
        seq![]
    } else {
        let rest = live_routes(s, names.drop_last());
        let i = find_route(s, names.last());
        if i >= 0 && !s[i].1 {
            rest.push(s[i].0)
        } else {
            rest
        }
    }
}

/// The route that a create request gets: region `i` covers partition `i`
/// and is led by peer `i mod n`.
pub open spec fn planned_route(
    t: (Seq<char>, Seq<char>, Seq<char>),
    partitions: Seq<(Seq<Seq<u8>>, Seq<Seq<u8>>)>,
    peers: Seq<(u64, Seq<char>)>,
) -> TableRouteView {
    (t, Seq::new(partitions.len(), |i: int| (i as u64, partitions[i], peers[i % (peers.len() as int)])))
}

pub open spec fn table_name_views(v: Seq<TableName>) -> Seq<(Seq<char>, Seq<char>, Seq<char>)> {
    v.map_values(|t: TableName| t@)
}

pub open spec fn partition_views(v: Seq<Partition>) -> Seq<(Seq<Seq<u8>>, Seq<Seq<u8>>)> {
    v.map_values(|p: Partition| p@)
}

pub open spec fn peer_views(v: Seq<Peer>) -> Seq<(u64, Seq<char>)> {
    v.map_values(|p: Peer| p@)
}

/// Failures of the route protocol.
#[derive(Debug, Clone, Copy, PartialEq, Eq, Structural)]
pub enum RouteError {
    /// The peer selector offered no peer to place regions on.
    NoPeers,
    /// The table has no route, live or deleted.
    TableRouteNotFound,
}

/// The route table, keyed by table name.
pub struct RouteTable {
    entries: Vec<RouteEntry>,
}

impl View for RouteTable {
    type V = Seq<RouteEntryView>;

    closed spec fn view(&self) -> Seq<RouteEntryView> {
        self.entries@.map_values(|e: RouteEntry| (e.route@, e.deleted))
    }
}

impl RouteTable {
    pub fn new() -> (r: RouteTable)
        ensures
            r@.len() == 0,
    {
        RouteTable { entries: Vec::new() }
    }

    fn find(&self, t: &TableName) -> (r: Option<usize>)
        ensures
            match r {
                Some(i) => i < self@.len() && find_route(self@, t@) == i,
                None => find_route(self@, t@) == -1,
            },
    {
        let mut i: usize = 0;
        while i < self.entries.len()
            invariant
                i <= self@.len(),
                find_route(self@, t@) == find_from(self@, t@, i as int),
            decreases self@.len() - i,
        {
            assert(self@[i as int].0.0 == self.entries@[i as int].route.table_name@);
            if self.entries[i].route.table_name.same(t) {
                return Some(i);
            }
            i = i + 1;
        }
        None
    }

    /// Places one region on each partition, leaders taken from `peers` in
    /// turn, and stores the route (replacing a previous one).
    pub fn create_route(&mut self, req: &CreateRequest, peers: &Vec<Peer>) -> (r: Result<
        RouteResponse,
        RouteError,
    >)
        requires
            req.partitions@.len() <= u64::MAX,
        ensures
            peers@.len() == 0 ==> r == Err::<RouteResponse, RouteError>(RouteError::NoPeers) && final(self)@ == old(self)@,
            peers@.len() > 0 ==> match r {
                Ok(resp) => {
                    let planned = planned_route(req.table_name@, partition_views(req.partitions@), peer_views(peers@));
                    &&& route_views(resp.table_routes@) == seq![planned]
                    &&& find_route(final(self)@, req.table_name@) >= 0
                    &&& final(self)@[find_route(final(self)@, req.table_name@)] == (planned, false)
                    &&& forall|t| t != req.table_name@ ==> find_route(final(self)@, t) == find_route(old(self)@, t)
                        && (find_route(old(self)@, t) >= 0 ==> final(self)@[find_route(final(self)@, t)] == old(self)@[find_route(old(self)@, t)])
                },
                Err(_) => false,
            },
    {
        if peers.len() == 0 {
            return Err(RouteError::NoPeers);
        }
        let ghost pv = peer_views(peers@);
        let ghost parts = partition_views(req.partitions@);
        let mut regions: Vec<RegionRoute> = Vec::new();
        let mut i: usize = 0;
        while i < req.partitions.len()
            invariant
                i <= req.partitions@.len() <= u64::MAX,
                peers@.len() > 0,
                pv == peer_views(peers@),
                parts == partition_views(req.partitions@),
                region_views(regions@) == planned_route(req.table_name@, parts, pv).1.take(i as int),
            decreases req.partitions@.len() - i,
        {
            let leader = peers[i % peers.len()].copy();
            let c = RegionRoute { region_id: i as u64, partition: req.partitions[i].copy(), leader_peer: leader };
            let ghost planned = planned_route(req.table_name@, parts, pv).1;
            assert(c@ == planned[i as int]);
            let ghost before = regions@;
            regions.push(c);
            assert(region_views(regions@) =~= region_views(before).push(c@));
            assert(planned.take(i + 1) =~= planned.take(i as int).push(planned[i as int]));
            i = i + 1;
        }
        assert(planned_route(req.table_name@, parts, pv).1.take(i as int) =~= planned_route(req.table_name@, parts, pv).1);
        let route = TableRoute { table_name: req.table_name.copy(), region_routes: regions };
        let reply = route.copy();
        let entry = RouteEntry { route, deleted: false };
        match self.find(&req.table_name) {
            Some(idx) => {
                self.entries.set(idx, entry);
                proof {
                    lemma_find_shape_all(old(self)@);
                    lemma_find_found(old(self)@, req.table_name@, 0);
                    assert(self@ =~= old(self)@.update(idx as int, (reply@, false)));
                    lemma_find_after_update(old(self)@, idx as int, (reply@, false));
                }
            },
            None => {
                self.entries.push(entry);
                proof {
                    lemma_find_shape_all(old(self)@);
                    assert(self@ =~= old(self)@.push((reply@, false)));
                    lemma_find_after_push(old(self)@, (reply@, false));
                }
            },
        }
        let mut table_routes: Vec<TableRoute> = Vec::new();
        table_routes.push(reply);
        assert(route_views(table_routes@) =~= seq![reply@]);
        Ok(RouteResponse { table_routes })
    }

    /// The live routes of the named tables; unknown tables are left out.
    pub fn route(&self, req: &RouteRequest) -> (r: RouteResponse)
        ensures
            route_views(r.table_routes@) == live_routes(self@, table_name_views(req.table_names@)),
    {
        let ghost names = table_name_views(req.table_names@);
        let mut table_routes: Vec<TableRoute> = Vec::new();
        let mut i: usize = 0;
        while i < req.table_names.len()
            invariant
                i <= req.table_names@.len(),
                names == table_name_views(req.table_names@),
                route_views(table_routes@) == live_routes(self@, names.take(i as int)),
            decreases req.table_names@.len() - i,
        {
            assert(names.take(i + 1).drop_last() =~= names.take(i as int));
            assert(names.take(i + 1).last() == req.table_names@[i as int]@);
            match self.find(&req.table_names[i]) {
                Some(idx) => {
                    assert(self@[idx as int] == (self.entries@[idx as int].route@, self.entries@[idx as int].deleted));
                    if !self.entries[idx].deleted {
                        let route = self.entries[idx].route.copy();
                        table_routes.push(route);
                        assert(route_views(table_routes@) =~= live_routes(self@, names.take(i as int)).push(route@));
                    }
                },
                None => {},
            }
            i = i + 1;
        }
        assert(names.take(i as int) =~= names);
        RouteResponse { table_routes }
    }

    /// Marks the table's route deleted and returns it; a route already
    /// deleted is returned again.
    pub fn delete_route(&mut self, req: &DeleteRequest) -> (r: Result<RouteResponse, RouteError>)
        ensures
            find_route(old(self)@, req.table_name@) == -1 ==> r == Err::<RouteResponse, RouteError>(RouteError::TableRouteNotFound) && final(self)@ == old(self)@,
            find_route(old(self)@, req.table_name@) >= 0 ==> {
                let i = find_route(old(self)@, req.table_name@);
                &&& final(self)@ == old(self)@.update(i, (old(self)@[i].0, true))
                &&& match r {
                    Ok(resp) => route_views(resp.table_routes@) == seq![old(self)@[i].0],
                    Err(_) => false,
                }
            },
    {
        match self.find(&req.table_name) {
            Some(idx) => {
                let reply = self.entries[idx].route.copy();
                assert(old(self)@[idx as int].0 == reply@);
                self.entries[idx].deleted = true;
                assert(self@ =~= old(self)@.update(idx as int, (reply@, true)));
                let mut table_routes: Vec<TableRoute> = Vec::new();
                table_routes.push(reply);
                assert(route_views(table_routes@) =~= seq![reply@]);
                Ok(RouteResponse { table_routes })
            },
            None => Err(RouteError::TableRouteNotFound),
        }
    }
}

proof fn lemma_find_found(s: Seq<RouteEntryView>, t: (Seq<char>, Seq<char>, Seq<char>), i: int)
    requires
        0 <= i,
        find_from(s, t, i) >= 0,
    ensures
        i <= find_from(s, t, i) < s.len(),
        s[find_from(s, t, i)].0.0 == t,
    decreases s.len() - i,
{
    if i < s.len() && s[i].0.0 != t {
        lemma_find_found(s, t, i + 1);
    }
}

proof fn lemma_find_shape(s: Seq<RouteEntryView>, t: (Seq<char>, Seq<char>, Seq<char>), i: int)
    requires
        0 <= i,
    ensures
        find_from(s, t, i) == -1 || (i <= find_from(s, t, i) < s.len() && s[find_from(s, t, i)].0.0 == t),
    decreases s.len() - i,
{
    if i < s.len() && s[i].0.0 != t {
        lemma_find_shape(s, t, i + 1);
    }
}

proof fn lemma_find_shape_all(s: Seq<RouteEntryView>)
    ensures
        forall|t| #[trigger] find_route(s, t) == -1 || (0 <= find_route(s, t) < s.len() && s[find_route(s, t)].0.0 == t),
{
    assert forall|t| #[trigger] find_route(s, t) == -1 || (0 <= find_route(s, t) < s.len() && s[find_route(s, t)].0.0 == t) by {
        lemma_find_shape(s, t, 0);
    }
}

proof fn lemma_find_from_update(s: Seq<RouteEntryView>, idx: int, e: RouteEntryView, t: (Seq<char>, Seq<char>, Seq<char>), i: int)
    requires
        0 <= idx < s.len(),
        0 <= i,
        e.0.0 == s[idx].0.0,
    ensures
        find_from(s.update(idx, e), t, i) == find_from(s, t, i),
    decreases s.len() - i,
{
    if i < s.len() {
        lemma_find_from_update(s, idx, e, t, i + 1);
    }
}

proof fn lemma_find_after_update(s: Seq<RouteEntryView>, idx: int, e: RouteEntryView)
    requires
        0 <= idx < s.len(),
        e.0.0 == s[idx].0.0,
    ensures
        forall|t| #[trigger] find_route(s.update(idx, e), t) == find_route(s, t),
{
    assert forall|t| #[trigger] find_route(s.update(idx, e), t) == find_route(s, t) by {
        lemma_find_from_update(s, idx, e, t, 0);
    }
}

proof fn lemma_find_from_push(s: Seq<RouteEntryView>, e: RouteEntryView, t: (Seq<char>, Seq<char>, Seq<char>), i: int)
    requires
        0 <= i,
    ensures
        find_from(s.push(e), t, i) == if find_from(s, t, i) >= 0 || i > s.len() {
            find_from(s, t, i)
        } else if e.0.0 == t {
            s.len() as int
        } else {
            -1
        },
    decreases s.len() + 1 - i,
{
    if i < s.len() {
        assert(s.push(e)[i] == s[i]);
        lemma_find_from_push(s, e, t, i + 1);
    } else if i == s.len() {
        assert(s.push(e)[i] == e);
        assert(find_from(s.push(e), t, i + 1) == -1);
    }
}

proof fn lemma_find_after_push(s: Seq<RouteEntryView>, e: RouteEntryView)
    requires
        find_route(s, e.0.0) == -1,
    ensures
        find_route(s.push(e), e.0.0) == s.len(),
        forall|t| t != e.0.0 ==> #[trigger] find_route(s.push(e), t) == find_route(s, t),
{
    lemma_find_from_push(s, e, e.0.0, 0);
    assert forall|t| t != e.0.0 implies #[trigger] find_route(s.push(e), t) == find_route(s, t) by {
        lemma_find_from_push(s, e, t, 0);
        lemma_find_shape(s, t, 0);
    }
}

} // verus!

verus! {

/// A look-up of a table that has no route leaves it out instead of failing;
/// deleting a route marks it deleted, and deleting it again finds the same
/// entry, returns the same route, and changes nothing more.
pub proof fn lemma_route_lookup_and_repeated_delete(s: Seq<RouteEntryView>, t: (Seq<char>, Seq<char>, Seq<char>))
    ensures
        find_route(s, t) == -1 ==> live_routes(s, seq![t]) == Seq::<TableRouteView>::empty(),
        find_route(s, t) >= 0 ==> {
            let i = find_route(s, t);
            let once = s.update(i, (s[i].0, true));
            &&& find_route(once, t) == i
            &&& once[i].0 == s[i].0
            &&& once.update(i, (once[i].0, true)) == once
            &&& live_routes(once, seq![t]) == Seq::<TableRouteView>::empty()
        },
{
    let one = seq![t];
    assert(one.len() == 1 && one.last() == t);
    assert(one.drop_last() =~= Seq::<(Seq<char>, Seq<char>, Seq<char>)>::empty());
    assert(live_routes(s, one.drop_last()) == Seq::<TableRouteView>::empty());
    if find_route(s, t) >= 0 {
        let i = find_route(s, t);
        lemma_find_found(s, t, 0);
        let once = s.update(i, (s[i].0, true));
        lemma_find_after_update(s, i, (s[i].0, true));
        assert(find_route(once, t) == i);
        assert(live_routes(once, one.drop_last()) == Seq::<TableRouteView>::empty());
        assert(once.update(i, (once[i].0, true)) =~= once);
    }
}

} // verus!
