//! The saga that creates a project.

use vstd::prelude::*;

use crate::ids::{is_random_id, random_uuid, Uuid};

verus! {

/// The name and the description of something that is to be created.
#[derive(Debug, PartialEq, Eq)]
pub struct IdentityMetadataCreateParams {
    pub name: String,
    pub description: String,
}

impl Clone for IdentityMetadataCreateParams {
    fn clone(&self) -> (r: Self)
        ensures
            r == *self,
    {
        IdentityMetadataCreateParams {
            name: self.name.clone(),
            description: self.description.clone(),
        }
    }
}

/// A project that is to be created.
#[derive(Debug, PartialEq, Eq)]
pub struct ProjectCreate {
    pub identity: IdentityMetadataCreateParams,
}

/// What the saga is started with.
#[derive(Debug, PartialEq, Eq)]
pub struct Params {
    /// Who asked for the project.
    pub serialized_authn: String,
    pub project_create: ProjectCreate,
    /// The silo that the project is in.
    pub authz_silo: Uuid,
}

/// A project, as it is stored.
#[derive(Debug, PartialEq, Eq)]
pub struct Project {
    pub id: Uuid,
    pub silo_id: Uuid,
    pub identity: IdentityMetadataCreateParams,
}

/// A VPC that is to be created.
#[derive(Debug, PartialEq, Eq)]
pub struct VpcCreate {
    pub identity: IdentityMetadataCreateParams,
    /// The prefix of its IPv6 addresses.
    pub ipv6_prefix: Option<u128>,
    pub dns_name: String,
}

/// What the saga that creates a VPC is started with.
#[derive(Debug, PartialEq, Eq)]
pub struct VpcCreateParams {
    pub serialized_authn: String,
    pub vpc_create: VpcCreate,
    /// The project that the VPC is in.
    pub authz_project: Uuid,
}

/// An action of the saga.
#[derive(Debug, Clone, Copy, PartialEq, Eq, Structural)]
pub enum SagaAction {
    /// Stores the project. To undo it is to delete the project.
    CreateRecord,
    /// Makes up what the VPC is created with.
    CreateVpcParams,
}

/// A step of the saga, with the name of its output.
#[derive(Debug, PartialEq, Eq)]
pub enum SagaNode {
    Action { action: SagaAction, output: String },
    /// The saga that creates a VPC, started with the output of an earlier step.
    VpcCreate { output: String, params: String },
}

/// The saga that creates a project.
#[derive(Debug, Clone, Copy, PartialEq, Eq, Structural)]
pub struct SagaProjectCreate;

impl SagaProjectCreate {
    /// The name of the saga.
    pub fn name() -> (s: String)
        ensures
            s@ == "project-create"@,
    {
        "project-create".to_owned()
    }

    /// The steps of the saga, one after the other: the project is stored, and then gets a default
    /// VPC.
    pub fn make_saga_dag() -> (nodes: Vec<SagaNode>)
        ensures
            nodes@.len() == 3,
            nodes@[0] matches SagaNode::Action { action, output } && action
                == SagaAction::CreateRecord && output@ == "project"@,
            nodes@[1] matches SagaNode::Action { action, output } && action
                == SagaAction::CreateVpcParams && output@ == "vpc_create_params"@,
            nodes@[2] matches SagaNode::VpcCreate { output, params } && output@ == "vpc"@ && params@
                == "vpc_create_params"@,
    {
        let mut nodes: Vec<SagaNode> = Vec::new();
        nodes.push(
            SagaNode::Action { action: SagaAction::CreateRecord, output: "project".to_owned() },
        );
        nodes.push(
            SagaNode::Action {
                action: SagaAction::CreateVpcParams,
                output: "vpc_create_params".to_owned(),
            },
        );
        nodes.push(
            SagaNode::VpcCreate {
                output: "vpc".to_owned(),
                params: "vpc_create_params".to_owned(),
            },
        );
        nodes
    }
}

/// The project to be stored. Its id is new.
pub fn spc_create_record(params: &Params) -> (project: Project)
    ensures
        is_random_id(project.id),
        project.silo_id == params.authz_silo,
        project.identity == params.project_create.identity,
{
    project_with_id(params, random_uuid())
}

/// The project to be stored, with its id.
pub fn project_with_id(params: &Params, id: Uuid) -> (project: Project)
    ensures
        project == (Project {
            id,
            silo_id: params.authz_silo,
            identity: params.project_create.identity,
        }),
{
    Project { id, silo_id: params.authz_silo, identity: params.project_create.identity.clone() }
}

/// The project to be deleted so that storing it is undone.
pub fn spc_create_record_undo(project: &Project) -> (id: Uuid)
    ensures
        id == project.id,
{
    project.id
}

/// What the default VPC of a project is created with, where this prefix was drawn for it, or could
/// not be drawn.
pub fn spc_create_vpc_params(
    params: &Params,
    project: &Project,
    ipv6_prefix: Result<u128, String>,
) -> (r: Result<VpcCreateParams, String>)
    ensures
        match (ipv6_prefix, r) {
            (Ok(prefix), Ok(p)) => {
                &&& p.serialized_authn == params.serialized_authn
                &&& p.authz_project == project.id
                &&& p.vpc_create.identity.name@ == "default"@
                &&& p.vpc_create.identity.description@ == "Default VPC"@
                &&& p.vpc_create.ipv6_prefix == Some(prefix)
                &&& p.vpc_create.dns_name@ == "default"@
            },
            (Err(cause), Err(e)) => e == cause,
            _ => false,
        },
{
    let prefix = match ipv6_prefix {
        Ok(prefix) => prefix,
        Err(cause) => {
            return Err(cause);
        },
    };
    Ok(
        VpcCreateParams {
            serialized_authn: params.serialized_authn.clone(),
            vpc_create: VpcCreate {
                identity: IdentityMetadataCreateParams {
                    name: "default".to_owned(),
                    description: "Default VPC".to_owned(),
                },
                ipv6_prefix: Some(prefix),
                dns_name: "default".to_owned(),
            },
            authz_project: project.id,
        },
    )
}

/// The projects that are stored once the first `n` steps of the saga were done.
pub open spec fn projects_after(projects: Set<Uuid>, project: Uuid, n: nat) -> Set<Uuid> {
    if n == 0 {
        projects
    } else {
        projects.insert(project)
    }
}

/// The projects that are stored once the first `n` steps were undone, the last of them first.
pub open spec fn projects_unwound(projects: Set<Uuid>, project: Uuid, n: nat) -> Set<Uuid>
    decreases n,
{
    if n == 0 {
        projects
    } else {
        projects_unwound(
            if n == 1 {
                projects.remove(project)
            } else {
                projects
            },
            project,
            (n - 1) as nat,
        )
    }
}

/// Wherever the saga fails, undoing what was done leaves the projects that there were.
pub proof fn failed_saga_leaves_no_project(projects: Set<Uuid>, project: Uuid, n: nat)
    requires
        !projects.contains(project),
    ensures
        projects_unwound(projects_after(projects, project, n), project, n) == projects,
    decreases n,
{
    if n == 1 {
        assert(projects.insert(project).remove(project) =~= projects);
        assert(projects_unwound(projects, project, 0) == projects);
    } else if n > 1 {
        failed_saga_leaves_no_project(projects, project, (n - 1) as nat);
    }
}

} // verus!
