//! Domain replay integration manifests.
//!
//! Search proposes; the owning domain certifies. A manifest names the replay
//! owner of a candidate, and a report carries the domain's replay status back
//! without reinterpreting it.

use crate::identity::CandidateId;
use crate::oracle::{ConstructionDependency, EvaluationCacheKey, ReplayHook};
use crate::search::ReplayStatus;
use vstd::prelude::*;
use vstd::string::StringExecFns;

verus! {

/// Hyper domain that owns replay for a candidate.
#[derive(Clone, Debug, PartialEq, Eq)]
pub enum DomainReplayTarget {
    /// `hypersolve` residual/candidate certification.
    Hypersolve,
    /// `hyperpath` route/path certification.
    Hyperpath,
    /// `hypercurve` curve-event/error certification.
    Hypercurve,
    /// `hypermesh` or `csgrs` topology certification.
    MeshOrCsg,
    /// `hypervoxel` voxel/process artifact replay.
    Hypervoxel,
    /// `hyperpack` packing feasibility replay.
    Hyperpack,
    /// `hyperdrc` rule-deck check replay.
    Hyperdrc,
    /// `hyperphysics` physical-property or simulation replay.
    Hyperphysics,
    /// `hypercircuit` circuit residual replay.
    Hypercircuit,
    /// Another named domain owner.
    Other(String),
}

/// Replay manifest for one candidate/domain handoff.
#[derive(Clone, Debug, PartialEq, Eq)]
pub struct DomainReplayManifest {
    /// Candidate being handed off.
    pub candidate: CandidateId,
    /// Domain owner expected to certify the candidate.
    pub target: DomainReplayTarget,
    /// Stable replay hook.
    pub hook: ReplayHook,
    /// Construction dependencies that must still be fresh for replay.
    pub dependencies: Vec<ConstructionDependency>,
    /// Optional cache key for replay/evaluation reuse.
    pub cache_key: Option<EvaluationCacheKey>,
}

/// Report returned after domain replay.
#[derive(Clone, Debug, PartialEq, Eq)]
pub struct DomainReplayReport {
    /// Manifest that was replayed.
    pub manifest: DomainReplayManifest,
    /// Domain replay status.
    pub status: ReplayStatus,
    /// Human-readable evidence handles from the domain owner.
    pub evidence: Vec<String>,
}

impl DomainReplayReport {
    /// Returns whether this replay result can promote a candidate into accepted state.
    pub fn is_accepted(&self) -> (accepted: bool)
        ensures
            accepted == (self.status == ReplayStatus::Accepted),
    {
        self.status == ReplayStatus::Accepted
    }

    /// Returns whether replay still needs more exact/certified evidence.
    pub fn needs_followup(&self) -> (followup: bool)
        ensures
            followup == (self.status == ReplayStatus::Unknown),
    {
        self.status == ReplayStatus::Unknown
    }
}

/// The name under which a replay owner is recorded in a hook.
pub open spec fn domain_name(target: DomainReplayTarget) -> Seq<char> {
    match target {
        DomainReplayTarget::Hypersolve => "hypersolve"@,
        DomainReplayTarget::Hyperpath => "hyperpath"@,
        DomainReplayTarget::Hypercurve => "hypercurve"@,
        DomainReplayTarget::MeshOrCsg => "mesh-or-csg"@,
        DomainReplayTarget::Hypervoxel => "hypervoxel"@,
        DomainReplayTarget::Hyperpack => "hyperpack"@,
        DomainReplayTarget::Hyperdrc => "hyperdrc"@,
        DomainReplayTarget::Hyperphysics => "hyperphysics"@,
        DomainReplayTarget::Hypercircuit => "hypercircuit"@,
        DomainReplayTarget::Other(name) => name@,
    }
}

fn domain_text(target: &DomainReplayTarget) -> (name: String)
    ensures
        name@ == domain_name(*target),
{
    match target {
        DomainReplayTarget::Hypersolve => String::from_str("hypersolve"),
        DomainReplayTarget::Hyperpath => String::from_str("hyperpath"),
        DomainReplayTarget::Hypercurve => String::from_str("hypercurve"),
        DomainReplayTarget::MeshOrCsg => String::from_str("mesh-or-csg"),
        DomainReplayTarget::Hypervoxel => String::from_str("hypervoxel"),
        DomainReplayTarget::Hyperpack => String::from_str("hyperpack"),
        DomainReplayTarget::Hyperdrc => String::from_str("hyperdrc"),
        DomainReplayTarget::Hyperphysics => String::from_str("hyperphysics"),
        DomainReplayTarget::Hypercircuit => String::from_str("hypercircuit"),
        DomainReplayTarget::Other(name) => name.clone(),
    }
}

/// Builds a stable replay manifest for a Hyper domain owner: the hook names
/// the owner and the target id, there are no dependencies yet, and the cache
/// key is `domain-replay:` followed by the target id.
pub fn domain_replay_manifest(
    candidate: CandidateId,
    target: DomainReplayTarget,
    target_id: &str,
) -> (manifest: DomainReplayManifest)
    ensures
        manifest.candidate == candidate,
        manifest.target == target,
        manifest.hook.domain@ == domain_name(target),
        manifest.hook.target@ == target_id@,
        manifest.dependencies@.len() == 0,
        manifest.cache_key matches Some(key) && key.0@ == "domain-replay:"@ + target_id@,
{
    let domain = domain_text(&target);
    let mut key = String::from_str("domain-replay:");
    key.append(target_id);
    DomainReplayManifest {
        candidate,
        target,
        hook: ReplayHook { domain, target: String::from_str(target_id) },
        dependencies: Vec::new(),
        cache_key: Some(EvaluationCacheKey(key)),
    }
}

} // verus!
