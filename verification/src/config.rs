//! Configuration records: scan roots and rules, scanning options, planning
//! options, and the progress record the engine reports through.

use vstd::prelude::*;
use crate::pattern::NormalizationOptions;
use crate::rule::{Rule, ConflictPolicy};

verus! {

/// A profile: scan roots, the rule set, and the scanning options.
#[derive(Debug, Clone, PartialEq)]
pub struct Config {
    pub roots: Vec<String>,
    pub rules: Vec<Rule>,
    pub options: ScanOptions,
    pub profiles: Vec<String>,
}

impl Config {
    /// An empty configuration with one default profile name.
    pub fn empty() -> (r: Self)
        ensures
            r.roots@.len() == 0,
            r.rules@.len() == 0,
            r.profiles@.len() == 1,
    {
        Self {
            roots: Vec::new(),
            rules: Vec::new(),
            options: ScanOptions::standard(),
            profiles: vec!["Default".to_owned()],
        }
    }
}

impl Default for Config {
    fn default() -> (r: Self)
        ensures
            r.roots@.len() == 0,
            r.rules@.len() == 0,
    {
        Self::empty()
    }
}

/// How a scan walks the filesystem.
#[derive(Debug, Clone, PartialEq)]
pub struct ScanOptions {
    pub normalization: NormalizationOptions,
    pub follow_junctions: bool,
    pub system_protections: bool,
    pub max_depth: Option<u32>,
    pub excluded_paths: Vec<String>,
    pub parallel_threads: Option<usize>,
}

impl ScanOptions {
    /// The trees no scan should enter by default.
    pub fn default_excluded_paths() -> (r: Vec<String>)
        ensures
            r@.len() == 5,
            r@[0]@ == "C:\\Windows"@,
            r@[1]@ == "C:\\Program Files"@,
            r@[2]@ == "C:\\Program Files (x86)"@,
            r@[3]@ == "$Recycle.Bin"@,
            r@[4]@ == "System Volume Information"@,
    {
        let mut v: Vec<String> = Vec::new();
        v.push("C:\\Windows".to_owned());
        v.push("C:\\Program Files".to_owned());
        v.push("C:\\Program Files (x86)".to_owned());
        v.push("$Recycle.Bin".to_owned());
        v.push("System Volume Information".to_owned());
        v
    }

    /// The default scan: junctions not followed, system trees protected, no
    /// depth limit, the standard exclusions.
    pub fn standard() -> (r: Self)
        ensures
            !r.follow_junctions,
            r.system_protections,
            r.max_depth is None,
            r.parallel_threads is None,
    {
        Self {
            normalization: NormalizationOptions::standard(),
            follow_junctions: false,
            system_protections: true,
            max_depth: None,
            excluded_paths: Self::default_excluded_paths(),
            parallel_threads: None,
        }
    }
}

impl Default for ScanOptions {
    fn default() -> (r: Self)
        ensures
            !r.follow_junctions,
            r.system_protections,
            r.max_depth is None,
    {
        Self::standard()
    }
}

/// How a plan is generated and executed.
#[derive(Debug, Clone, PartialEq)]
pub struct PlanOptions {
    pub default_conflict_policy: ConflictPolicy,
    pub preserve_acl: bool,
    pub preserve_timestamps: bool,
    pub enable_cross_volume: bool,
    pub dry_run_only: bool,
}

impl PlanOptions {
    pub fn standard() -> (r: Self)
        ensures
            r.default_conflict_policy == ConflictPolicy::AutoRename,
            r.preserve_acl,
            r.preserve_timestamps,
            r.enable_cross_volume,
            !r.dry_run_only,
    {
        Self {
            default_conflict_policy: ConflictPolicy::AutoRename,
            preserve_acl: true,
            preserve_timestamps: true,
            enable_cross_volume: true,
            dry_run_only: false,
        }
    }
}

impl Default for PlanOptions {
    fn default() -> (r: Self)
        ensures
            r.default_conflict_policy == ConflictPolicy::AutoRename,
            !r.dry_run_only,
    {
        Self::standard()
    }
}

/// A progress report over a batch of operations. Times are in whole seconds
/// and speeds in bytes per second.
#[derive(Debug, Clone, PartialEq)]
pub struct Progress {
    pub current_item: Option<String>,
    pub completed_ops: u64,
    pub total_ops: u64,
    pub bytes_processed: u64,
    pub total_bytes: Option<u64>,
    pub current_speed: Option<u64>,
    pub eta_secs: Option<u64>,
}

impl Progress {
    pub fn new(total_ops: u64, total_bytes: Option<u64>) -> (r: Self)
        ensures
            r.current_item is None,
            r.completed_ops == 0,
            r.total_ops == total_ops,
            r.bytes_processed == 0,
            r.total_bytes == total_bytes,
            r.current_speed is None,
            r.eta_secs is None,
    {
        Self {
            current_item: None,
            completed_ops: 0,
            total_ops,
            bytes_processed: 0,
            total_bytes,
            current_speed: None,
            eta_secs: None,
        }
    }

    /// Completed operations out of every hundred, rounded down; one hundred
    /// when there is nothing to do.
    pub fn percentage(&self) -> (r: u64)
        requires
            self.completed_ops <= self.total_ops,
        ensures
            self.total_ops == 0 ==> r == 100,
            self.total_ops > 0 ==> r as int == (self.completed_ops as int * 100) / (
            self.total_ops as int),
    {
        if self.total_ops == 0 {
            100
        } else {
            let scaled: u128 = self.completed_ops as u128 * 100;
            proof {
                assert(scaled / (self.total_ops as u128) <= 100) by (nonlinear_arith)
                    requires
                        scaled == self.completed_ops as u128 * 100,
                        0 < self.total_ops,
                        self.completed_ops <= self.total_ops,
                ;
            }
            (scaled / (self.total_ops as u128)) as u64
        }
    }
}

} // verus!
