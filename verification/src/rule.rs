//! Rules, their conflict policies, and the scanner's hit records.

use vstd::prelude::*;
use crate::pattern::PatternSpec;

verus! {

/// How a destination collision is resolved.
#[derive(Debug, Clone, Copy, PartialEq, Eq, Structural)]
pub enum ConflictPolicy {
    AutoRename,
    Skip,
    Overwrite,
}

/// A declarative routing rule. Lower `priority` numbers win; ties are broken
/// by the rule's position in the rule list.
#[derive(Debug, Clone, PartialEq)]
pub struct Rule {
    pub id: u64,
    pub enabled: bool,
    pub pattern: PatternSpec,
    pub dest_root: String,
    pub template: String,
    pub policy: ConflictPolicy,
    pub label: Option<String>,
    pub priority: u32,
}

impl Rule {
    pub fn new(pattern: PatternSpec, dest_root: String, template: String) -> (r: Self)
        ensures
            r.id == 0,
            r.enabled,
            r.pattern == pattern,
            r.dest_root@ == dest_root@,
            r.template@ == template@,
            r.policy == ConflictPolicy::AutoRename,
            r.label is None,
            r.priority == 0,
    {
        Self {
            id: 0,
            enabled: true,
            pattern,
            dest_root,
            template,
            policy: ConflictPolicy::AutoRename,
            label: None,
            priority: 0,
        }
    }

    pub fn with_label(self, label: String) -> (r: Self)
        ensures
            r == (Self { label: Some(label), ..self }),
    {
        Self { label: Some(label), ..self }
    }

    pub fn with_policy(self, policy: ConflictPolicy) -> (r: Self)
        ensures
            r == (Self { policy, ..self }),
    {
        Self { policy, ..self }
    }

    pub fn with_priority(self, priority: u32) -> (r: Self)
        ensures
            r == (Self { priority, ..self }),
    {
        Self { priority, ..self }
    }
}

/// Advisory conditions attached to hits and plan nodes.
#[derive(Debug, Clone, Copy, PartialEq, Eq, Structural)]
pub enum Warning {
    LongPath,
    AclDiffers,
    Offline,
    AccessDenied,
    Junction,
    CrossVolume,
}

/// A matched directory together with its preview destination, found by the
/// scanner and consumed by the planner.
#[derive(Debug, Clone, PartialEq)]
pub struct FolderHit {
    pub path: String,
    pub name: String,
    pub matched_rule: Option<u64>,
    pub dest_preview: Option<String>,
    pub warnings: Vec<Warning>,
    pub size_bytes: Option<u64>,
}

} // verus!
