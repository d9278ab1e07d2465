//! Messages between peers.

use vstd::prelude::*;

use crate::baseboard::Baseboard;
use crate::ids::Uuid;

verus! {

/// The first thing that a peer says after it connected, or accepted a connection: who it is.
#[derive(Debug, PartialEq, Eq)]
pub struct Identify(pub Baseboard);

/// The shares of an initial member of the group.
#[derive(Debug, PartialEq, Eq)]
pub struct SharePkg {
    pub rack_uuid: Uuid,
    /// All else, as it is sent.
    pub body: Vec<u8>,
}

/// The share of a learner.
#[derive(Debug, PartialEq, Eq)]
pub struct LearnedSharePkg {
    pub rack_uuid: Uuid,
    /// All else, as it is sent.
    pub body: Vec<u8>,
}

impl SharePkg {
    /// The two hold the same.
    pub open spec fn same_as(self, other: SharePkg) -> bool {
        self.rack_uuid == other.rack_uuid && self.body@ == other.body@
    }

    /// Whether the two hold the same.
    pub fn same(&self, other: &SharePkg) -> (yes: bool)
        ensures
            yes == self.same_as(*other),
    {
        if self.rack_uuid != other.rack_uuid || self.body.len() != other.body.len() {
            return false;
        }
        let mut i: usize = 0;
        while i < self.body.len()
            invariant
                i <= self.body@.len() == other.body@.len(),
                forall|k: int| 0 <= k < i ==> self.body@[k] == other.body@[k],
            decreases self.body@.len() - i,
        {
            if self.body[i] != other.body[i] {
                return false;
            }
            i = i + 1;
        }
        assert(self.body@ =~= other.body@);
        true
    }
}

/// A message with its destination.
#[derive(Debug, PartialEq, Eq)]
pub struct Envelope {
    pub to: Baseboard,
    pub msg: Msg,
}

/// A message.
#[derive(Debug, PartialEq, Eq)]
pub enum Msg {
    Req(Request),
    Rsp(Response),
}

impl Msg {
    /// The id of the request that the message is or answers.
    pub open spec fn asked_under(self) -> Uuid {
        match self {
            Msg::Req(req) => req.id,
            Msg::Rsp(rsp) => rsp.request_id,
        }
    }

    /// The id of the request that the message is, or answers.
    pub fn request_id(&self) -> (id: Uuid)
        ensures
            id == (match *self {
                Msg::Req(req) => req.id,
                Msg::Rsp(rsp) => rsp.request_id,
            }),
            id == self.asked_under(),
    {
        match self {
            Msg::Req(req) => req.id,
            Msg::Rsp(rsp) => rsp.request_id,
        }
    }
}

/// A request to a peer.
#[derive(Debug, PartialEq, Eq)]
pub struct Request {
    /// By which the response is matched.
    pub id: Uuid,
    pub type_: RequestType,
}

/// The response of a peer to the request with the same id.
#[derive(Debug, PartialEq, Eq)]
pub struct Response {
    pub request_id: Uuid,
    pub type_: ResponseType,
}

/// What a peer is asked.
#[derive(Debug, PartialEq, Eq)]
pub enum RequestType {
    /// The peer is a member of the initial group.
    Init(SharePkg),
    /// The peer has to learn a share from the initial group.
    InitLearner,
    /// A share of the peer is wanted.
    GetShare { rack_uuid: Uuid },
    /// What a learner needs is wanted, of a peer that is in the initial group.
    Learn,
}

impl RequestType {
    /// The name of the request.
    pub fn name(&self) -> (s: &str)
        ensures
            s@ == (match *self {
                RequestType::Init(_) => "init"@,
                RequestType::InitLearner => "init_learner"@,
                RequestType::GetShare { .. } => "get_share"@,
                RequestType::Learn => "learn"@,
            }),
    {
        match self {
            RequestType::Init(_) => "init",
            RequestType::InitLearner => "init_learner",
            RequestType::GetShare { .. } => "get_share",
            RequestType::Learn => "learn",
        }
    }
}

/// What a peer answers.
#[derive(Debug, PartialEq, Eq)]
pub enum ResponseType {
    /// To a request that makes the peer a member, or a learner.
    InitAck,
    /// To a request for a share.
    Share(Vec<u8>),
    /// To a request of a learner.
    Pkg(LearnedSharePkg),
    Error(Error),
}

impl ResponseType {
    /// The name of the response.
    pub fn name(&self) -> (s: &str)
        ensures
            s@ == (match *self {
                ResponseType::InitAck => "init_ack"@,
                ResponseType::Share(_) => "share"@,
                ResponseType::Pkg(_) => "pkg"@,
                ResponseType::Error(_) => "error"@,
            }),
    {
        match self {
            ResponseType::InitAck => "init_ack",
            ResponseType::Share(_) => "share",
            ResponseType::Pkg(_) => "pkg",
            ResponseType::Error(_) => "error",
        }
    }
}

/// Why a peer refuses a request.
#[derive(Debug, Clone, Copy, PartialEq, Eq, Structural)]
pub enum Error {
    /// The peer is a member of the initial group of this rack.
    AlreadyInitialized { rack_uuid: Uuid },
    /// The peer is not initialized yet.
    NotInitialized,
    /// The peer is trying to learn its share, and is no member of the initial group.
    AlreadyLearning,
    /// The peer learned its share, and is no member of the initial group of this rack.
    AlreadyLearned { rack_uuid: Uuid },
    /// The peer is trying to learn its share.
    StillLearning,
    /// The peer has no share left for a learner.
    CannotSpareAShare,
    /// The request is about another rack.
    RackUuidMismatch { expected: Uuid, got: Uuid },
}

/// A request has its own id, and a response that of the request that it answers: the two belong
/// together if and only if these are the same.
pub proof fn responses_belong_to_requests(req: Request, rsp: Response)
    ensures
        Msg::Req(req).asked_under() == req.id,
        Msg::Req(req).asked_under() == Msg::Rsp(rsp).asked_under() <==> req.id == rsp.request_id,
{
}

} // verus!
