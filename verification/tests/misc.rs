//! The simulator, the terminal, sagas and artifacts.

use omicron::artifacts::{
    ArtifactHashId, ArtifactId, ArtifactsWithPlan, InstallableArtifacts, UpdatePlan,
    WicketdArtifactStore,
};
use omicron::project_create::{
    project_with_id, spc_create_record, spc_create_record_undo, spc_create_vpc_params,
    IdentityMetadataCreateParams, Params, ProjectCreate, SagaAction, SagaNode, SagaProjectCreate,
};
use omicron::sim::{ApiModelProjectCreate, SimulatorBuilder};
use omicron::wicket::{Runner, TerminalAction, UpdateScreen};

fn text(s: &str) -> String {
    s.to_string()
}

#[test]
fn projects_are_listed_by_name() {
    let mut builder = SimulatorBuilder::new();
    builder.project_create("lucca");
    builder.project_create("carrara");
    builder.project_create("lucca");
    let mut simulator = builder.build();
    let names = |list: Vec<omicron::sim::ApiModelProject>| {
        list.into_iter().map(|p| p.name).collect::<Vec<String>>()
    };
    assert_eq!(names(simulator.projects_list()), vec![text("carrara"), text("lucca")]);
    let created =
        simulator.project_create(&ApiModelProjectCreate { name: text("barga") });
    assert!(matches!(created, Ok(p) if p.name == "barga"));
    assert_eq!(names(simulator.projects_list()).len(), 3);
    assert!(simulator.project_create(&ApiModelProjectCreate { name: text("barga") }).is_err());
    assert_eq!(names(simulator.projects_list()).len(), 3);
}

#[test]
fn terminals_are_set_up_and_restored() {
    let mut runner: Runner<u8> = Runner::new();
    assert_eq!(
        runner.init_terminal(),
        vec![TerminalAction::EnableRawMode, TerminalAction::EnterAlternateScreen]
    );
    assert_eq!(
        runner.fini_terminal(),
        vec![TerminalAction::DisableRawMode, TerminalAction::LeaveAlternateScreen]
    );
    runner.load_snapshot(4);
    assert_eq!(runner.snapshot, Some(4));
    assert_eq!(runner.restart(), TerminalAction::InitScreen);
}

#[test]
fn update_screens_have_help() {
    let screen = UpdateScreen::new();
    assert_eq!(screen.help_data.len(), 6);
    assert_eq!(screen.help_data[0].key, "<TAB>");
    assert_eq!(screen.help_data[5].text, "Exit the program");
    assert!(screen.hovered.is_none());
    assert!(!screen.help_menu_state.open);
}

fn params() -> Params {
    Params {
        serialized_authn: text("authn"),
        project_create: ProjectCreate {
            identity: IdentityMetadataCreateParams {
                name: text("p"),
                description: text("d"),
            },
        },
        authz_silo: 8,
    }
}

#[test]
fn projects_are_created_with_a_vpc() {
    assert_eq!(SagaProjectCreate::name(), "project-create");
    assert_eq!(
        SagaProjectCreate::make_saga_dag(),
        vec![
            SagaNode::Action { action: SagaAction::CreateRecord, output: text("project") },
            SagaNode::Action {
                action: SagaAction::CreateVpcParams,
                output: text("vpc_create_params")
            },
            SagaNode::VpcCreate { output: text("vpc"), params: text("vpc_create_params") },
        ]
    );
    let project = project_with_id(&params(), 5);
    assert_eq!((project.id, project.silo_id), (5, 8));
    assert_eq!(project.identity.name, "p");
    assert_eq!(spc_create_record_undo(&project), 5);
    let id = spc_create_record(&params()).id;
    assert_eq!(((id >> 76) & 0xf, (id >> 62) & 3), (4, 2));
    assert_ne!(spc_create_record(&params()).id, id);
    let vpc = spc_create_vpc_params(&params(), &project, Ok(0xfd00)).unwrap();
    assert_eq!(vpc.authz_project, 5);
    assert_eq!(vpc.serialized_authn, "authn");
    assert_eq!(vpc.vpc_create.identity.name, "default");
    assert_eq!(vpc.vpc_create.identity.description, "Default VPC");
    assert_eq!(vpc.vpc_create.dns_name, "default");
    assert_eq!(vpc.vpc_create.ipv6_prefix, Some(0xfd00));
    assert!(spc_create_vpc_params(&params(), &project, Err(text("no"))).is_err());
}

fn hash(kind: &str, hash: &str) -> ArtifactHashId {
    ArtifactHashId { kind: text(kind), hash: text(hash) }
}

#[test]
fn repositories_replace_one_another() {
    let mut store = WicketdArtifactStore::new();
    assert!(store.current_plan().is_none());
    assert!(store.system_version_and_artifact_ids().is_none());
    assert!(!store.contains_by_hash(&hash("k", "h")));
    let repository = ArtifactsWithPlan {
        by_id: vec![InstallableArtifacts {
            artifact_id: ArtifactId { name: text("n"), version: text("1"), kind: text("k") },
            installable: vec![hash("k", "h")],
        }],
        by_hash: vec![(hash("k", "h"), 12)],
        plan: UpdatePlan { system_version: text("1.0.0"), artifacts: vec![hash("k", "h")] },
    };
    assert_eq!(store.put_repository::<String>(Ok(repository)), Ok(()));
    assert_eq!(store.get_by_hash(&hash("k", "h")), Some(12));
    assert_eq!(store.get_by_hash(&hash("k", "i")), None);
    assert!(store.contains_by_hash(&hash("k", "h")));
    let (version, ids) = store.system_version_and_artifact_ids().unwrap();
    assert_eq!(version, "1.0.0");
    assert_eq!(ids.len(), 1);
    assert_eq!(store.current_plan().unwrap().system_version, "1.0.0");
    // A repository that cannot be read leaves the one before.
    assert_eq!(store.put_repository(Err(text("bad"))), Err(text("bad")));
    assert!(store.contains_by_hash(&hash("k", "h")));
}
