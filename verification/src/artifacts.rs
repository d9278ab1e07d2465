//! The artifacts that the updates of a rack are made of.

use vstd::prelude::*;

use crate::text::str_eq;

verus! {

/// What identifies an artifact by name.
#[derive(Debug, PartialEq, Eq)]
pub struct ArtifactId {
    pub name: String,
    pub version: String,
    pub kind: String,
}

impl Clone for ArtifactId {
    fn clone(&self) -> (r: Self)
        ensures
            r == *self,
    {
        ArtifactId {
            name: self.name.clone(),
            version: self.version.clone(),
            kind: self.kind.clone(),
        }
    }
}

/// What identifies an artifact by its content: its kind, and the hash in hexadecimal.
#[derive(Debug, PartialEq, Eq)]
pub struct ArtifactHashId {
    pub kind: String,
    pub hash: String,
}

impl Clone for ArtifactHashId {
    fn clone(&self) -> (r: Self)
        ensures
            r == *self,
    {
        ArtifactHashId { kind: self.kind.clone(), hash: self.hash.clone() }
    }
}

impl ArtifactHashId {
    /// The two identify the same content.
    pub open spec fn same_as(self, other: ArtifactHashId) -> bool {
        self.kind@ == other.kind@ && self.hash@ == other.hash@
    }
}

/// An artifact, with what can be installed of it.
#[derive(Debug, PartialEq, Eq)]
pub struct InstallableArtifacts {
    pub artifact_id: ArtifactId,
    pub installable: Vec<ArtifactHashId>,
}

/// The plan of an update.
#[derive(Debug, PartialEq, Eq)]
pub struct UpdatePlan {
    pub system_version: String,
    /// The artifacts that the plan uses.
    pub artifacts: Vec<ArtifactHashId>,
}

/// The artifacts of a repository, and the plan of the update to it.
#[derive(Debug, PartialEq, Eq)]
pub struct ArtifactsWithPlan {
    /// The artifacts by name, in their order.
    pub by_id: Vec<InstallableArtifacts>,
    /// Where the content of each artifact is kept.
    pub by_hash: Vec<(ArtifactHashId, u64)>,
    pub plan: UpdatePlan,
}

/// Where the content is kept, if it is.
pub open spec fn handle_of(by_hash: Seq<(ArtifactHashId, u64)>, id: ArtifactHashId) -> Option<u64>
    decreases by_hash.len(),
{
    if by_hash.len() == 0 {
        None
    } else if by_hash[0].0.same_as(id) {
        Some(by_hash[0].1)
    } else {
        handle_of(by_hash.skip(1), id)
    }
}

fn cloned_hashes(ids: &Vec<ArtifactHashId>) -> (r: Vec<ArtifactHashId>)
    ensures
        r@ == ids@,
{
    let mut r: Vec<ArtifactHashId> = Vec::new();
    let mut i: usize = 0;
    while i < ids.len()
        invariant
            i <= ids@.len(),
            r@ == ids@.take(i as int),
        decreases ids@.len() - i,
    {
        r.push(ids[i].clone());
        i = i + 1;
        assert(r@ =~= ids@.take(i as int));
    }
    assert(r@ =~= ids@);
    r
}

impl ArtifactsWithPlan {
    /// Where the content is kept, if it is.
    pub fn get_by_hash(&self, id: &ArtifactHashId) -> (handle: Option<u64>)
        ensures
            handle == handle_of(self.by_hash@, *id),
    {
        let mut i: usize = 0;
        assert(self.by_hash@.skip(0) =~= self.by_hash@);
        while i < self.by_hash.len()
            invariant
                i <= self.by_hash@.len(),
                handle_of(self.by_hash@, *id) == handle_of(self.by_hash@.skip(i as int), *id),
            decreases self.by_hash@.len() - i,
        {
            let entry = &self.by_hash[i];
            assert(self.by_hash@.skip(i as int)[0] == *entry);
            assert(self.by_hash@.skip(i as int).skip(1) =~= self.by_hash@.skip(i + 1));
            if str_eq(entry.0.kind.as_str(), id.kind.as_str()) && str_eq(
                entry.0.hash.as_str(),
                id.hash.as_str(),
            ) {
                return Some(entry.1);
            }
            i = i + 1;
        }
        None
    }
}

/// The store of the artifacts of the current repository, if there is one.
pub struct WicketdArtifactStore {
    pub artifacts_with_plan: Option<ArtifactsWithPlan>,
}

/// The lists hold the same artifacts, in the same order.
pub open spec fn same_artifacts(
    a: Seq<InstallableArtifacts>,
    b: Seq<InstallableArtifacts>,
) -> bool {
    &&& a.len() == b.len()
    &&& forall|i: int|
        0 <= i < a.len() ==> (#[trigger] a[i]).artifact_id == b[i].artifact_id
            && a[i].installable@ == b[i].installable@
}

impl WicketdArtifactStore {
    /// A store without a repository.
    pub fn new() -> (s: Self)
        ensures
            s.artifacts_with_plan is None,
    {
        WicketdArtifactStore { artifacts_with_plan: None }
    }

    /// Takes a repository that was read in place of the one before. Where it could not be read, the
    /// one before stays, and the error is handed on.
    pub fn put_repository<E>(&mut self, repository: Result<ArtifactsWithPlan, E>) -> (r: Result<
        (),
        E,
    >)
        ensures
            match (repository, r) {
                (Ok(new_artifacts), Ok(())) => final(self).artifacts_with_plan == Some(
                    new_artifacts,
                ),
                (Err(cause), Err(e)) => e == cause && *final(self) == *old(self),
                _ => false,
            },
    {
        match repository {
            Ok(new_artifacts) => {
                let _ = self.replace(new_artifacts);
                Ok(())
            },
            Err(e) => Err(e),
        }
    }

    /// The version of the system in the repository, and its artifacts.
    pub fn system_version_and_artifact_ids(&self) -> (r: Option<
        (String, Vec<InstallableArtifacts>),
    >)
        ensures
            match (self.artifacts_with_plan, r) {
                (Some(artifacts), Some((version, ids))) => version == artifacts.plan.system_version
                    && same_artifacts(ids@, artifacts.by_id@),
                (None, None) => true,
                _ => false,
            },
    {
        let artifacts = match &self.artifacts_with_plan {
            Some(artifacts) => artifacts,
            None => {
                return None;
            },
        };
        let mut ids: Vec<InstallableArtifacts> = Vec::new();
        let mut i: usize = 0;
        while i < artifacts.by_id.len()
            invariant
                i <= artifacts.by_id@.len(),
                ids@.len() == i,
                forall|k: int|
                    0 <= k < i ==> (#[trigger] ids@[k]).artifact_id
                        == artifacts.by_id@[k].artifact_id && ids@[k].installable@
                        == artifacts.by_id@[k].installable@,
            decreases artifacts.by_id@.len() - i,
        {
            let entry = &artifacts.by_id[i];
            ids.push(
                InstallableArtifacts {
                    artifact_id: entry.artifact_id.clone(),
                    installable: cloned_hashes(&entry.installable),
                },
            );
            i = i + 1;
        }
        Some((artifacts.plan.system_version.clone(), ids))
    }

    /// The plan of the update to the repository.
    pub fn current_plan(&self) -> (r: Option<UpdatePlan>)
        ensures
            match (self.artifacts_with_plan, r) {
                (Some(artifacts), Some(plan)) => plan.system_version
                    == artifacts.plan.system_version && plan.artifacts@
                    == artifacts.plan.artifacts@,
                (None, None) => true,
                _ => false,
            },
    {
        match &self.artifacts_with_plan {
            Some(artifacts) => Some(
                UpdatePlan {
                    system_version: artifacts.plan.system_version.clone(),
                    artifacts: cloned_hashes(&artifacts.plan.artifacts),
                },
            ),
            None => None,
        }
    }

    /// Where the content is kept, if the repository has it.
    pub fn get_by_hash(&self, id: &ArtifactHashId) -> (handle: Option<u64>)
        ensures
            handle == (match self.artifacts_with_plan {
                Some(artifacts) => handle_of(artifacts.by_hash@, *id),
                None => None,
            }),
    {
        match &self.artifacts_with_plan {
            Some(artifacts) => artifacts.get_by_hash(id),
            None => None,
        }
    }

    /// Whether the repository has the content.
    pub fn contains_by_hash(&self, id: &ArtifactHashId) -> (yes: bool)
        ensures
            yes == (self.artifacts_with_plan matches Some(artifacts) && handle_of(
                artifacts.by_hash@,
                *id,
            ) is Some),
    {
        self.get_by_hash(id).is_some()
    }

    fn replace(&mut self, new_artifacts: ArtifactsWithPlan) -> (previous: Option<ArtifactsWithPlan>)
        ensures
            previous == old(self).artifacts_with_plan,
            final(self).artifacts_with_plan == Some(new_artifacts),
    {
        let mut previous = Some(new_artifacts);
        std::mem::swap(&mut previous, &mut self.artifacts_with_plan);
        previous
    }
}

/// The entry is about this content: it has the same kind and the same hash.
pub open spec fn is_about(entry: (ArtifactHashId, u64), id: ArtifactHashId) -> bool {
    entry.0.kind@ == id.kind@ && entry.0.hash@ == id.hash@
}

/// Content is found where the first entry about it says, and is missing only where no entry is about
/// it.
pub proof fn content_is_found_by_kind_and_hash(
    by_hash: Seq<(ArtifactHashId, u64)>,
    id: ArtifactHashId,
)
    ensures
        match handle_of(by_hash, id) {
            Some(handle) => exists|i: int|
                0 <= i < by_hash.len() && is_about(#[trigger] by_hash[i], id) && by_hash[i].1
                    == handle && forall|j: int|
                    0 <= j < i ==> !is_about(#[trigger] by_hash[j], id),
            None => forall|i: int| 0 <= i < by_hash.len() ==> !is_about(#[trigger] by_hash[i], id),
        },
    decreases by_hash.len(),
{
    if by_hash.len() > 0 && !is_about(by_hash[0], id) {
        let rest = by_hash.skip(1);
        content_is_found_by_kind_and_hash(rest, id);
        match handle_of(rest, id) {
            Some(handle) => {
                let i = choose|i: int|
                    0 <= i < rest.len() && is_about(#[trigger] rest[i], id) && rest[i].1 == handle
                        && forall|j: int| 0 <= j < i ==> !is_about(#[trigger] rest[j], id);
                assert(by_hash[i + 1] == rest[i]);
                assert forall|j: int| 0 <= j < i + 1 implies !is_about(
                    #[trigger] by_hash[j],
                    id,
                ) by {
                    if j > 0 {
                        assert(by_hash[j] == rest[j - 1]);
                    }
                }
            },
            None => {
                assert forall|j: int| 0 <= j < by_hash.len() implies !is_about(
                    #[trigger] by_hash[j],
                    id,
                ) by {
                    if j > 0 {
                        assert(by_hash[j] == rest[j - 1]);
                    }
                }
            },
        }
    } else if by_hash.len() > 0 {
        assert(is_about(by_hash[0], id));
    }
}

/// Lists of artifacts that are the same have the same artifacts at each place, with the same
/// content.
pub proof fn same_lists_have_the_same_artifacts(
    a: Seq<InstallableArtifacts>,
    b: Seq<InstallableArtifacts>,
)
    ensures
        same_artifacts(a, b) <==> a.map_values(
            |x: InstallableArtifacts| (x.artifact_id, x.installable@),
        ) == b.map_values(|x: InstallableArtifacts| (x.artifact_id, x.installable@)),
{
    let parts = |x: InstallableArtifacts| (x.artifact_id, x.installable@);
    let p = a.map_values(parts);
    let q = b.map_values(parts);
    if same_artifacts(a, b) {
        assert(p =~= q);
    }
    if p == q {
        assert(a.len() == p.len() && b.len() == q.len());
        assert forall|i: int| 0 <= i < a.len() implies (#[trigger] a[i]).artifact_id
            == b[i].artifact_id && a[i].installable@ == b[i].installable@ by {
            assert(p[i] == q[i]);
        }
    }
}

} // verus!
