//! The two halves of a heartbeat stream to the leader: a sender that stamps
//! each self-report with the client's identity and keeps send order, and a
//! receiver that hands out the leader's responses in arrival order.

use crate::route::Peer;
use vstd::prelude::*;

verus! {

/// Identity and role, sent with every heartbeat.
#[derive(Debug, Clone, Copy, PartialEq, Eq, Structural)]
pub struct RequestHeader {
    pub cluster_id: u64,
    pub member_id: u64,
    pub role: crate::client::Role,
}

/// A self-report of one process.
pub struct HeartbeatRequest {
    pub header: Option<RequestHeader>,
    pub peer: Option<Peer>,
}

pub type HeartbeatRequestView = (Option<RequestHeader>, Option<(u64, Seq<char>)>);

impl View for HeartbeatRequest {
    type V = HeartbeatRequestView;

    open spec fn view(&self) -> HeartbeatRequestView {
        (
            self.header,
            match self.peer {
                Some(p) => Some(p@),
                None => None,
            },
        )
    }
}

/// A scheduling instruction from the leader.
#[derive(Debug, Clone, Copy, PartialEq, Eq, Structural)]
pub enum Instruction {
    OpenRegion(u64),
    CloseRegion(u64),
}

/// A response pushed by the leader.
#[derive(Debug, Clone, Copy, PartialEq, Eq, Structural)]
pub struct HeartbeatResponse {
    pub cluster_id: u64,
    pub instruction: Option<Instruction>,
}

pub open spec fn request_views(v: Seq<HeartbeatRequest>) -> Seq<HeartbeatRequestView> {
    v.map_values(|r: HeartbeatRequest| r@)
}

/// The sending half: reports wait here, in send order, until the transport
/// takes them.
pub struct HeartbeatSender {
    header: RequestHeader,
    leader: String,
    outbox: Vec<HeartbeatRequest>,
}

impl HeartbeatSender {
    pub closed spec fn header(&self) -> RequestHeader {
        self.header
    }

    pub closed spec fn leader_view(&self) -> Seq<char> {
        self.leader@
    }

    /// The reports sent and not yet taken, oldest first.
    pub closed spec fn pending(&self) -> Seq<HeartbeatRequestView> {
        request_views(self.outbox@)
    }

    pub fn new(header: RequestHeader, leader: String) -> (r: HeartbeatSender)
        ensures
            r.header() == header,
            r.leader_view() == leader@,
            r.pending().len() == 0,
    {
        HeartbeatSender { header, leader, outbox: Vec::new() }
    }

    /// The address of the leader that the stream goes to.
    pub fn leader(&self) -> (r: &String)
        ensures
            r@ == self.leader_view(),
    {
        &self.leader
    }

    /// Sends one report, stamped with this client's header.
    pub fn send(&mut self, req: HeartbeatRequest)
        ensures
            final(self).header() == old(self).header(),
            final(self).leader_view() == old(self).leader_view(),
            final(self).pending() == old(self).pending().push((Some(old(self).header()), req@.1)),
    {
        let stamped = HeartbeatRequest { header: Some(self.header), peer: req.peer };
        let ghost before = self.outbox@;
        self.outbox.push(stamped);
        assert(request_views(self.outbox@) =~= request_views(before).push(stamped@));
    }

    /// Hands every pending report to the transport, oldest first.
    pub fn take_pending(&mut self) -> (r: Vec<HeartbeatRequest>)
        ensures
            request_views(r@) == old(self).pending(),
            final(self).pending().len() == 0,
            final(self).header() == old(self).header(),
            final(self).leader_view() == old(self).leader_view(),
    {
        let mut out: Vec<HeartbeatRequest> = Vec::new();
        std::mem::swap(&mut out, &mut self.outbox);
        out
    }
}

/// The receiving half: responses wait here in arrival order.
pub struct HeartbeatStream {
    inbox: Vec<HeartbeatResponse>,
    next: usize,
}

impl HeartbeatStream {
    /// Responses that arrived and were not yet read, oldest first.
    pub closed spec fn unread(&self) -> Seq<HeartbeatResponse> {
        self.inbox@.skip(self.next as int)
    }

    pub closed spec fn wf(&self) -> bool {
        self.next <= self.inbox@.len()
    }

    pub fn new() -> (r: HeartbeatStream)
        ensures
            r.wf(),
            r.unread().len() == 0,
    {
        HeartbeatStream { inbox: Vec::new(), next: 0 }
    }

    /// Records a response that the transport received.
    pub fn deliver(&mut self, resp: HeartbeatResponse)
        requires
            old(self).wf(),
        ensures
            final(self).wf(),
            final(self).unread() == old(self).unread().push(resp),
    {
        self.inbox.push(resp);
        assert(self.inbox@.skip(self.next as int) =~= old(self).inbox@.skip(self.next as int).push(resp));
    }

    /// The oldest unread response, if any.
    pub fn message(&mut self) -> (r: Option<HeartbeatResponse>)
        requires
            old(self).wf(),
        ensures
            final(self).wf(),
            old(self).unread().len() == 0 ==> r is None && final(self).unread() == old(self).unread(),
            old(self).unread().len() > 0 ==> r == Some(old(self).unread()[0]) && final(self).unread() == old(self).unread().drop_first(),
    {
        if self.next < self.inbox.len() {
            let resp = self.inbox[self.next];
            self.next = self.next + 1;
            assert(self.inbox@.skip(self.next as int) =~= old(self).inbox@.skip(old(self).next as int).drop_first());
            Some(resp)
        } else {
            None
        }
    }
}

} // verus!
