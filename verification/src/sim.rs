//! A simulated rack, in memory.

use vstd::prelude::*;

use crate::ordmap::{in_order, order_exists, values, OrdMap};

verus! {

/// A project of the simulated rack.
#[derive(Debug, PartialEq, Eq)]
pub struct SimProject {
    pub name: String,
}

/// A project, as the API shows it.
#[derive(Debug, PartialEq, Eq)]
pub struct ApiModelProject {
    pub name: String,
}

/// What is asked for where a project is to be created.
#[derive(Debug, PartialEq, Eq)]
pub struct ApiModelProjectCreate {
    pub name: String,
}

/// Why the API failed.
#[derive(Debug, Clone, Copy, PartialEq, Eq, Structural)]
pub struct ApiError {}

/// Each project is kept under its name.
pub open spec fn kept_by_name(projects: Map<Seq<char>, SimProject>) -> bool {
    forall|name: Seq<char>| #[trigger]
        projects.contains_key(name) ==> projects[name].name@ == name
}

/// Fills a simulated rack before it is used.
pub struct SimulatorBuilder {
    pub projects_by_name: OrdMap<String, SimProject>,
}

impl SimulatorBuilder {
    /// A rack without projects.
    pub fn new() -> (b: Self)
        ensures
            b.projects_by_name@ == Map::<Seq<char>, SimProject>::empty(),
            kept_by_name(b.projects_by_name@),
    {
        SimulatorBuilder { projects_by_name: OrdMap::new() }
    }

    /// Puts a project into the rack, in place of one with the same name.
    pub fn project_create(&mut self, project_name: &str)
        requires
            kept_by_name(old(self).projects_by_name@),
        ensures
            kept_by_name(final(self).projects_by_name@),
            final(self).projects_by_name@.dom() == old(self).projects_by_name@.dom().insert(
                project_name@,
            ),
            final(self).projects_by_name@.remove(project_name@)
                == old(self).projects_by_name@.remove(project_name@),
    {
        let name = project_name.to_owned();
        let project = SimProject { name: project_name.to_owned() };
        let _ = self.projects_by_name.insert(name, project);
        assert(self.projects_by_name@.remove(project_name@) =~= old(
            self,
        ).projects_by_name@.remove(project_name@));
    }

    /// The rack with these projects.
    pub fn build(self) -> (s: Simulator)
        ensures
            s.projects_by_name == self.projects_by_name,
    {
        Simulator { projects_by_name: self.projects_by_name }
    }
}

/// A simulated rack.
pub struct Simulator {
    pub projects_by_name: OrdMap<String, SimProject>,
}

impl Simulator {
    /// All projects, in the order of their names.
    pub fn projects_list(&self) -> (r: Vec<ApiModelProject>)
        ensures
            r@.map_values(|p: ApiModelProject| p.name) == values::<String, SimProject>(
                self.projects_by_name@,
            ).map_values(|p: SimProject| p.name),
    {
        let mut r: Vec<ApiModelProject> = Vec::new();
        let n = self.projects_by_name.len();
        let ghost all = values::<String, SimProject>(self.projects_by_name@);
        let mut i: usize = 0;
        while i < n
            invariant
                i <= n == self.projects_by_name.keys().len() == all.len(),
                forall|k: int|
                    0 <= k < n ==> #[trigger] all[k]
                        == self.projects_by_name@[self.projects_by_name.keys()[k]],
                r@.len() == i,
                forall|k: int| 0 <= k < i ==> (#[trigger] r@[k]).name == all[k].name,
            decreases n - i,
        {
            let project = self.projects_by_name.value_at(i);
            assert(all[i as int] == *project);
            r.push(ApiModelProject { name: project.name.clone() });
            i = i + 1;
        }
        assert(r@.map_values(|p: ApiModelProject| p.name) =~= all.map_values(
            |p: SimProject| p.name,
        ));
        r
    }

    /// Creates a project, unless there is one with the name.
    pub fn project_create(&mut self, new_project: &ApiModelProjectCreate) -> (r: Result<
        ApiModelProject,
        ApiError,
    >)
        requires
            kept_by_name(old(self).projects_by_name@),
        ensures
            kept_by_name(final(self).projects_by_name@),
            ({
                let before = old(self).projects_by_name@;
                let after = final(self).projects_by_name@;
                let name = new_project.name@;
                if before.contains_key(name) {
                    r == Err::<ApiModelProject, ApiError>(ApiError {  }) && after == before
                } else {
                    &&& r matches Ok(project)
                    &&& project.name@ == name
                    &&& after.dom() == before.dom().insert(name)
                    &&& after.remove(name) == before
                }
            }),
    {
        if self.projects_by_name.contains_key(&new_project.name) {
            return Err(ApiError {  });
        }
        let project = SimProject { name: new_project.name.clone() };
        let _ = self.projects_by_name.insert(new_project.name.clone(), project);
        assert(self.projects_by_name@.remove(new_project.name@) =~= old(self).projects_by_name@);
        Ok(ApiModelProject { name: new_project.name.clone() })
    }
}

/// All projects of a rack are shown, each once, under their names and in the order of these.
pub proof fn projects_are_shown_by_name(projects: Map<Seq<char>, SimProject>)
    requires
        projects.dom().finite(),
        kept_by_name(projects),
    ensures
        values::<String, SimProject>(projects).map_values(|p: SimProject| p.name@) == in_order::<
            String,
        >(projects.dom()),
{
    let shown = values::<String, SimProject>(projects).map_values(|p: SimProject| p.name@);
    let names = in_order::<String>(projects.dom());
    order_exists::<String>(projects.dom());
    assert forall|i: int| 0 <= i < names.len() implies #[trigger] shown[i] == names[i] by {
        assert(projects.dom().contains(names[i]));
        assert(projects.contains_key(names[i]));
    }
    assert(shown =~= names);
}

} // verus!
