//! The protocol by which sleds share the rack secret.

use omicron::baseboard::Baseboard;
use omicron::bootstore::fsm::{Config, Fsm, PersistentState, State};
use omicron::bootstore::hello::Hello;
use omicron::bootstore::messages::{
    Envelope, Error, LearnedSharePkg, Msg, Request, RequestType, Response, ResponseType, SharePkg,
};

fn board(identifier: &str) -> Baseboard {
    Baseboard { identifier: identifier.to_string(), model: "m".to_string(), revision: 1 }
}

fn pkg(rack_uuid: u128, body: u8) -> SharePkg {
    SharePkg { rack_uuid, body: vec![body] }
}

fn machine(state: State) -> Fsm {
    Fsm::new(
        board("me"),
        Config { retry_timeout: 2, learn_timeout: 5 },
        PersistentState { version: 0, state },
    )
}

fn ask(fsm: &mut Fsm, type_: RequestType) -> (bool, Vec<Envelope>) {
    let output = fsm.handle(board("other"), Msg::Req(Request { id: 77, type_ }));
    (output.persist.is_some(), output.envelopes)
}

fn answer(type_: ResponseType) -> Vec<Envelope> {
    vec![Envelope {
        to: board("other"),
        msg: Msg::Rsp(Response { request_id: 77, type_ }),
    }]
}

#[test]
fn members_are_initialized_once() {
    let mut fsm = machine(State::Uninitialized);
    let (persist, envelopes) = ask(&mut fsm, RequestType::Init(pkg(1, 9)));
    assert!(persist);
    assert_eq!(envelopes, answer(ResponseType::InitAck));
    assert_eq!(fsm.state.version, 1);
    match &fsm.state.state {
        State::InitialMember { pkg: kept, distributed_shares } => {
            assert_eq!(*kept, pkg(1, 9));
            assert_eq!(distributed_shares.len(), 0);
        }
        _ => unreachable!(),
    }
    // The same package is acknowledged again, and nothing changes.
    let (persist, envelopes) = ask(&mut fsm, RequestType::Init(pkg(1, 9)));
    assert!(!persist);
    assert_eq!(envelopes, answer(ResponseType::InitAck));
    assert_eq!(fsm.state.version, 1);
    // Another one is refused.
    let (persist, envelopes) = ask(&mut fsm, RequestType::Init(pkg(2, 9)));
    assert!(!persist);
    assert_eq!(
        envelopes,
        answer(ResponseType::Error(Error::AlreadyInitialized { rack_uuid: 1 }))
    );
    let (_, envelopes) = ask(&mut fsm, RequestType::InitLearner);
    assert_eq!(
        envelopes,
        answer(ResponseType::Error(Error::AlreadyInitialized { rack_uuid: 1 }))
    );
}

#[test]
fn learners_are_initialized_once() {
    let mut fsm = machine(State::Uninitialized);
    let (persist, envelopes) = ask(&mut fsm, RequestType::InitLearner);
    assert!(persist);
    assert_eq!(envelopes, answer(ResponseType::InitAck));
    assert!(matches!(fsm.state.state, State::Learning(_)));
    // Asked again, the peer stores the same state again, and acknowledges it again.
    let (persist, envelopes) = ask(&mut fsm, RequestType::InitLearner);
    assert!(persist);
    assert_eq!(envelopes, answer(ResponseType::InitAck));
    assert_eq!(fsm.state.version, 1);
    let (_, envelopes) = ask(&mut fsm, RequestType::Init(pkg(1, 9)));
    assert_eq!(envelopes, answer(ResponseType::Error(Error::AlreadyLearning)));
}

#[test]
fn learned_peers_stay() {
    let learned = LearnedSharePkg { rack_uuid: 4, body: vec![] };
    let mut fsm = machine(State::Learned { learned });
    let (persist, envelopes) = ask(&mut fsm, RequestType::Init(pkg(1, 9)));
    assert!(!persist);
    assert_eq!(
        envelopes,
        answer(ResponseType::Error(Error::AlreadyLearned { rack_uuid: 4 }))
    );
    let (_, envelopes) = ask(&mut fsm, RequestType::InitLearner);
    assert_eq!(envelopes, answer(ResponseType::InitAck));
    assert_eq!(fsm.state.version, 0);
}

#[test]
fn peers_come_and_go() {
    let mut fsm = machine(State::Uninitialized);
    fsm.insert_peer(board("b"));
    fsm.insert_peer(board("a"));
    fsm.insert_peer(board("b"));
    assert_eq!(fsm.peers.len(), 2);
    fsm.remove_peer(board("b"));
    assert_eq!(fsm.peers.len(), 1);
    assert!(fsm.peers.contains_key(&board("a")));
}

#[test]
fn hellos_are_read_as_written() {
    let hello = Hello { scheme: 1, version: 0x0203_0405, reserved: 6 };
    let bytes = hello.to_bytes();
    assert_eq!(bytes, vec![0, 0, 0, 1, 2, 3, 4, 5, 0, 0, 0, 0, 0, 0, 0, 6]);
    assert_eq!(Hello::from_bytes(&bytes), Some(hello));
    assert_eq!(Hello::from_bytes(&vec![0; 15]), None);
}

#[test]
fn the_lower_version_is_agreed_on() {
    let a = Hello { scheme: 1, version: 3, reserved: 0 };
    let b = Hello { scheme: 1, version: 2, reserved: 0 };
    assert_eq!(a.agreed_version(&b), Some(2));
    assert_eq!(b.agreed_version(&a), Some(2));
    assert_eq!(a.agreed_version(&Hello { scheme: 2, version: 3, reserved: 0 }), None);
}

#[test]
fn messages_have_names() {
    assert_eq!(RequestType::Init(pkg(1, 2)).name(), "init");
    assert_eq!(RequestType::InitLearner.name(), "init_learner");
    assert_eq!(RequestType::GetShare { rack_uuid: 1 }.name(), "get_share");
    assert_eq!(RequestType::Learn.name(), "learn");
    assert_eq!(ResponseType::InitAck.name(), "init_ack");
    assert_eq!(ResponseType::Share(vec![]).name(), "share");
    assert_eq!(ResponseType::Error(Error::NotInitialized).name(), "error");
    assert_eq!(Msg::Req(Request { id: 3, type_: RequestType::Learn }).request_id(), 3);
    assert_eq!(
        Msg::Rsp(Response { request_id: 4, type_: ResponseType::InitAck }).request_id(),
        4
    );
}
