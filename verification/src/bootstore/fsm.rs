//! The state machine of a peer.

use vstd::prelude::*;

use crate::baseboard::{Baseboard, BaseboardView};
use crate::bootstore::messages::{
    Envelope, Error, LearnedSharePkg, Msg, Request, RequestType, Response, ResponseType, SharePkg,
};
use crate::ids::Uuid;
use crate::ordmap::OrdMap;

verus! {

/// A number of clock ticks since some epoch.
pub type Ticks = usize;

/// The place of an encrypted share.
#[derive(Debug, Clone, Copy, PartialEq, Eq, Structural)]
pub struct ShareIdx(pub usize);

/// What has to be done after a message was handled.
pub struct Output<'a> {
    /// The state that has to be stored before any message is sent, if it has to be.
    pub persist: Option<&'a PersistentState>,
    /// The messages to be sent.
    pub envelopes: Vec<Envelope>,
}

/// The state as it is stored.
pub struct PersistentState {
    /// Grows each time the state changes.
    pub version: u32,
    pub state: State,
}

/// The state of a peer. It becomes an initial member, or it is told to learn a share and then has
/// learned it.
pub enum State {
    /// The peer does not know yet whether it is an initial member or a learner.
    Uninitialized,
    /// The peer is an initial member.
    InitialMember {
        pkg: SharePkg,
        /// The shares that were handed out, so that a sled gets the same one each time, and no other
        /// sled gets it.
        distributed_shares: OrdMap<Baseboard, ShareIdx>,
    },
    /// The peer was told to learn a share.
    Learning(Option<LearnAttempt>),
    /// The peer has learned its share.
    Learned { learned: LearnedSharePkg },
}

/// An attempt to learn a share from a peer.
#[derive(Debug, PartialEq, Eq)]
pub struct LearnAttempt {
    pub peer: Baseboard,
    pub start: Ticks,
}

/// The timeouts of a peer.
#[derive(Debug, Clone, Copy, PartialEq, Eq, Structural)]
pub struct Config {
    pub retry_timeout: Ticks,
    pub learn_timeout: Ticks,
}

/// The state machine of a peer.
pub struct Fsm {
    /// Who the peer is.
    pub id: Baseboard,
    pub config: Config,
    pub state: PersistentState,
    /// The peers that are known.
    pub peers: OrdMap<Baseboard, ()>,
    /// The time since the state machine was made.
    pub clock: Ticks,
}

/// The answer of a peer in the given state to a request that makes it a member.
pub open spec fn init_answer(state: State, new_pkg: SharePkg) -> ResponseType {
    match state {
        State::Uninitialized => ResponseType::InitAck,
        State::InitialMember { pkg, .. } => if new_pkg.same_as(pkg) {
            ResponseType::InitAck
        } else {
            ResponseType::Error(Error::AlreadyInitialized { rack_uuid: pkg.rack_uuid })
        },
        State::Learning(_) => ResponseType::Error(Error::AlreadyLearning),
        State::Learned { learned } => ResponseType::Error(
            Error::AlreadyLearned { rack_uuid: learned.rack_uuid },
        ),
    }
}

/// The answer of a peer in the given state to a request that makes it a learner.
pub open spec fn init_learner_answer(state: State) -> ResponseType {
    match state {
        State::InitialMember { pkg, .. } => ResponseType::Error(
            Error::AlreadyInitialized { rack_uuid: pkg.rack_uuid },
        ),
        _ => ResponseType::InitAck,
    }
}

/// The answer of a peer in the given state to a request.
pub open spec fn answer(state: State, request: RequestType) -> ResponseType {
    match request {
        RequestType::Init(pkg) => init_answer(state, pkg),
        _ => init_learner_answer(state),
    }
}

/// The request is one that makes the peer a member or a learner.
pub open spec fn starts_peer(request: RequestType) -> bool {
    request is Init || request is InitLearner
}

/// A single message, which answers a request.
pub open spec fn answers(
    envelopes: Seq<Envelope>,
    to: Baseboard,
    request_id: Uuid,
    type_: ResponseType,
) -> bool {
    envelopes == seq![Envelope { to, msg: Msg::Rsp(Response { request_id, type_ }) }]
}

/// The state after a peer in state `before` was asked to become a member or a learner.
pub open spec fn follows(before: State, request: RequestType, after: State) -> bool {
    match (before, request) {
        (State::Uninitialized, RequestType::Init(new_pkg)) => {
            &&& after matches State::InitialMember { pkg, distributed_shares }
            &&& pkg == new_pkg
            &&& distributed_shares@ == Map::<BaseboardView, ShareIdx>::empty()
        },
        (State::Uninitialized, _) => after == State::Learning(None),
        _ => after == before,
    }
}

fn response_to(to: Baseboard, request_id: Uuid, type_: ResponseType) -> (envelopes: Vec<Envelope>)
    ensures
        answers(envelopes@, to, request_id, type_),
{
    let mut envelopes: Vec<Envelope> = Vec::new();
    envelopes.push(Envelope { to, msg: Msg::Rsp(Response { request_id, type_ }) });
    assert(envelopes@ =~= seq![Envelope { to, msg: Msg::Rsp(Response { request_id, type_ }) }]);
    envelopes
}

impl Fsm {
    /// A peer that knows no other peer.
    pub fn new(id: Baseboard, config: Config, state: PersistentState) -> (fsm: Fsm)
        ensures
            fsm.id == id,
            fsm.config == config,
            fsm.state == state,
            fsm.peers@ == Map::<BaseboardView, ()>::empty(),
            fsm.clock == 0,
    {
        Fsm { id, config, state, peers: OrdMap::new(), clock: 0 }
    }

    /// Takes in that a peer is there.
    pub fn insert_peer(&mut self, peer: Baseboard)
        ensures
            final(self).peers@ == old(self).peers@.insert(peer@, ()),
            final(self).id == old(self).id,
            final(self).config == old(self).config,
            final(self).state == old(self).state,
            final(self).clock == old(self).clock,
    {
        let _ = self.peers.insert(peer, ());
    }

    /// Takes in that a peer is gone.
    pub fn remove_peer(&mut self, peer: Baseboard)
        ensures
            final(self).peers@ == old(self).peers@.remove(peer@),
            final(self).id == old(self).id,
            final(self).config == old(self).config,
            final(self).state == old(self).state,
            final(self).clock == old(self).clock,
    {
        let _ = self.peers.remove(&peer);
    }

    /// Handles a message of a peer that makes this one a member or a learner. The state that has to
    /// be stored must be stored before the messages are sent, or the next one is handled.
    pub fn handle(&mut self, from: Baseboard, msg: Msg) -> (output: Output<'_>)
        requires
            msg matches Msg::Req(request) && starts_peer(request.type_),
            old(self).state.state is Uninitialized ==> old(self).state.version < u32::MAX,
        ensures
            msg matches Msg::Req(request) && {
                let before = old(self).state;
                let after = final(self).state;
                &&& follows(before.state, request.type_, after.state)
                &&& after.version == (if before.state is Uninitialized {
                    before.version + 1
                } else {
                    before.version as int
                })
                &&& answers(
                    output.envelopes@,
                    from,
                    request.id,
                    answer(before.state, request.type_),
                )
                &&& output.persist == (if before.state is Uninitialized || (
                request.type_ is InitLearner && before.state !is InitialMember) {
                    Some(&after)
                } else {
                    None
                })
            },
            final(self).id == old(self).id,
            final(self).config == old(self).config,
            final(self).peers == old(self).peers,
            final(self).clock == old(self).clock,
    {
        match msg {
            Msg::Req(request) => self.handle_request(from, request),
            Msg::Rsp(_) => Output { persist: None, envelopes: Vec::new() },
        }
    }

    fn handle_request(&mut self, from: Baseboard, request: Request) -> (output: Output<'_>)
        requires
            starts_peer(request.type_),
            old(self).state.state is Uninitialized ==> old(self).state.version < u32::MAX,
        ensures
            follows(old(self).state.state, request.type_, final(self).state.state),
            final(self).state.version == (if old(self).state.state is Uninitialized {
                old(self).state.version + 1
            } else {
                old(self).state.version as int
            }),
            answers(
                output.envelopes@,
                from,
                request.id,
                answer(old(self).state.state, request.type_),
            ),
            output.persist == (if old(self).state.state is Uninitialized || (
            request.type_ is InitLearner && old(self).state.state !is InitialMember) {
                Some(&final(self).state)
            } else {
                None
            }),
            final(self).id == old(self).id,
            final(self).config == old(self).config,
            final(self).peers == old(self).peers,
            final(self).clock == old(self).clock,
    {
        let Request { id, type_ } = request;
        match type_ {
            RequestType::Init(new_pkg) => self.on_init(from, id, new_pkg),
            _ => self.on_init_learner(from, id),
        }
    }

    fn on_init(&mut self, from: Baseboard, request_id: Uuid, new_pkg: SharePkg) -> (output: Output<
        '_,
    >)
        requires
            old(self).state.state is Uninitialized ==> old(self).state.version < u32::MAX,
        ensures
            follows(old(self).state.state, RequestType::Init(new_pkg), final(self).state.state),
            final(self).state.version == (if old(self).state.state is Uninitialized {
                old(self).state.version + 1
            } else {
                old(self).state.version as int
            }),
            answers(
                output.envelopes@,
                from,
                request_id,
                init_answer(old(self).state.state, new_pkg),
            ),
            output.persist == (if old(self).state.state is Uninitialized {
                Some(&final(self).state)
            } else {
                None
            }),
            final(self).id == old(self).id,
            final(self).config == old(self).config,
            final(self).peers == old(self).peers,
            final(self).clock == old(self).clock,
    {
        match &self.state.state {
            State::Uninitialized => {},
            State::InitialMember { pkg, .. } => {
                if new_pkg.same(pkg) {
                    return Output {
                        persist: None,
                        envelopes: response_to(from, request_id, ResponseType::InitAck),
                    };
                }
                let rack_uuid = pkg.rack_uuid;
                return Output {
                    persist: None,
                    envelopes: response_to(
                        from,
                        request_id,
                        ResponseType::Error(Error::AlreadyInitialized { rack_uuid }),
                    ),
                };
            },
            State::Learning(_) => {
                return Output {
                    persist: None,
                    envelopes: response_to(
                        from,
                        request_id,
                        ResponseType::Error(Error::AlreadyLearning),
                    ),
                };
            },
            State::Learned { learned } => {
                let rack_uuid = learned.rack_uuid;
                return Output {
                    persist: None,
                    envelopes: response_to(
                        from,
                        request_id,
                        ResponseType::Error(Error::AlreadyLearned { rack_uuid }),
                    ),
                };
            },
        }
        self.state.state = State::InitialMember {
            pkg: new_pkg,
            distributed_shares: OrdMap::new(),
        };
        self.state.version = self.state.version + 1;
        Output {
            persist: Some(&self.state),
            envelopes: response_to(from, request_id, ResponseType::InitAck),
        }
    }

    fn on_init_learner(&mut self, from: Baseboard, request_id: Uuid) -> (output: Output<'_>)
        requires
            old(self).state.state is Uninitialized ==> old(self).state.version < u32::MAX,
        ensures
            follows(old(self).state.state, RequestType::InitLearner, final(self).state.state),
            final(self).state.version == (if old(self).state.state is Uninitialized {
                old(self).state.version + 1
            } else {
                old(self).state.version as int
            }),
            answers(
                output.envelopes@,
                from,
                request_id,
                init_learner_answer(old(self).state.state),
            ),
            output.persist == (if old(self).state.state !is InitialMember {
                Some(&final(self).state)
            } else {
                None
            }),
            final(self).id == old(self).id,
            final(self).config == old(self).config,
            final(self).peers == old(self).peers,
            final(self).clock == old(self).clock,
    {
        let first = match &self.state.state {
            State::Uninitialized => true,
            State::InitialMember { pkg, .. } => {
                let rack_uuid = pkg.rack_uuid;
                return Output {
                    persist: None,
                    envelopes: response_to(
                        from,
                        request_id,
                        ResponseType::Error(Error::AlreadyInitialized { rack_uuid }),
                    ),
                };
            },
            State::Learning(_) | State::Learned { .. } => false,
        };
        if first {
            self.state.state = State::Learning(None);
            self.state.version = self.state.version + 1;
        }
        Output {
            persist: Some(&self.state),
            envelopes: response_to(from, request_id, ResponseType::InitAck),
        }
    }
}

/// A peer that is asked twice to become the same changes its state at most once, and acknowledges
/// both times where it acknowledged once.
pub proof fn initialization_is_idempotent(
    before: State,
    request: RequestType,
    middle: State,
    after: State,
)
    requires
        starts_peer(request),
        follows(before, request, middle),
        follows(middle, request, after),
    ensures
        after == middle,
        answer(before, request) == ResponseType::InitAck ==> answer(middle, request)
            == ResponseType::InitAck,
{
}

/// A member never becomes a learner, nor a learner a member: once a peer is initialized it stays
/// what it is.
pub proof fn initialized_peers_stay(before: State, request: RequestType, after: State)
    requires
        starts_peer(request),
        before !is Uninitialized,
        follows(before, request, after),
    ensures
        after == before,
{
}

/// The state changes exactly where the peer was not initialized, so that its version counts its
/// changes. What a peer acknowledges to a request that changed it is stored first.
pub proof fn changes_are_from_uninitialized(before: State, request: RequestType, after: State)
    requires
        starts_peer(request),
        follows(before, request, after),
    ensures
        after != before <==> before is Uninitialized,
        after !is Uninitialized,
        before is Uninitialized ==> (after is InitialMember <==> request is Init),
        before is Uninitialized ==> (after is Learning <==> request is InitLearner),
{
}

/// A peer that is not initialized does what it is asked: it becomes a member with the shares that it
/// is given, of which none was handed out, or a learner that has not asked anyone yet.
pub proof fn new_peers_do_what_they_are_asked(request: RequestType, after: State)
    requires
        starts_peer(request),
        follows(State::Uninitialized, request, after),
    ensures
        answer(State::Uninitialized, request) is InitAck,
        request matches RequestType::Init(new_pkg) ==> (after matches State::InitialMember {
            pkg,
            distributed_shares,
        } && pkg.rack_uuid == new_pkg.rack_uuid && pkg.body@ == new_pkg.body@ && forall|
            peer: BaseboardView,
        |
            !#[trigger] distributed_shares@.contains_key(peer)),
        request is InitLearner ==> after == State::Learning(None),
{
}

/// A member acknowledges the shares that it has, byte for byte, and refuses all others, and to
/// become a learner, with the id of its own rack.
pub proof fn members_refuse_what_is_not_theirs(
    pkg: SharePkg,
    distributed_shares: OrdMap<Baseboard, ShareIdx>,
    other: SharePkg,
)
    ensures
        ({
            let member = State::InitialMember { pkg, distributed_shares };
            let refusal = ResponseType::Error(Error::AlreadyInitialized { rack_uuid: pkg.rack_uuid });
            let same = other.rack_uuid == pkg.rack_uuid && other.body@ == pkg.body@;
            &&& same ==> answer(member, RequestType::Init(other)) is InitAck
            &&& !same ==> answer(member, RequestType::Init(other)) == refusal
            &&& answer(member, RequestType::InitLearner) == refusal
        }),
{
}

/// A learner acknowledges that it is one, and refuses to become a member: while it learns it says
/// so, and once it has learned it names the rack that it learned for.
pub proof fn learners_refuse_to_become_members(
    attempt: Option<LearnAttempt>,
    learned: LearnedSharePkg,
    pkg: SharePkg,
)
    ensures
        answer(State::Learning(attempt), RequestType::InitLearner) is InitAck,
        answer(State::Learned { learned }, RequestType::InitLearner) is InitAck,
        answer(State::Learning(attempt), RequestType::Init(pkg)) == ResponseType::Error(
            Error::AlreadyLearning,
        ),
        answer(State::Learned { learned }, RequestType::Init(pkg)) == ResponseType::Error(
            Error::AlreadyLearned { rack_uuid: learned.rack_uuid },
        ),
{
}

/// A request is answered with one message, which goes to the peer that asked and carries the id of
/// the request.
pub proof fn requests_are_answered_once(
    envelopes: Seq<Envelope>,
    to: Baseboard,
    request_id: Uuid,
    type_: ResponseType,
)
    requires
        answers(envelopes, to, request_id, type_),
    ensures
        envelopes.len() == 1,
        envelopes[0].to == to,
        envelopes[0].msg matches Msg::Rsp(response) && response.request_id == request_id
            && response.type_ == type_,
{
}

} // verus!
