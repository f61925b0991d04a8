//! The two branches under comparison.

use vstd::prelude::*;
use vstd::string::StringExecFns;

verus! {

#[derive(Clone, Copy, PartialEq, Eq, Structural, Debug)]
pub enum BranchType {
    Base,
    Target,
}

/// One branch of the repository, with its role in the comparison.
pub struct Branch {
    pub name: String,
    pub branch_type: BranchType,
}

impl BranchType {
    /// The label the branch type prints as.
    pub fn to_string(&self) -> (r: String)
        ensures
            r@ == match *self {
                BranchType::Base => "base"@,
                BranchType::Target => "target"@,
            },
    {
        match self {
            BranchType::Base => String::from_str("base"),
            BranchType::Target => String::from_str("target"),
        }
    }
}

impl Branch {
    /// The file the branch's rendered applications are written to.
    pub fn app_file(&self) -> (r: &'static str)
        ensures
            r@ == match self.branch_type {
                BranchType::Base => "apps_base_branch.yaml"@,
                BranchType::Target => "apps_target_branch.yaml"@,
            },
    {
        match self.branch_type {
            BranchType::Base => "apps_base_branch.yaml",
            BranchType::Target => "apps_target_branch.yaml",
        }
    }

    /// The directory the branch's manifests are read from.
    pub fn folder_name(&self) -> (r: &'static str)
        ensures
            r@ == match self.branch_type {
                BranchType::Base => "base-branch"@,
                BranchType::Target => "target-branch"@,
            },
    {
        match self.branch_type {
            BranchType::Base => "base-branch",
            BranchType::Target => "target-branch",
        }
    }
}

} // verus!
