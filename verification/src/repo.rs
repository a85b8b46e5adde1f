//! Source repositories as the build recipes describe them: where a
//! repository lives (a remote URL or a local path, with a branch) and how it
//! is named. Checking one out is I/O and lives with the caller; this module
//! holds the data and the naming rules.

use vstd::prelude::*;

verus! {

use vstd::string::StringExecFns;

/// Where a repository's sources come from.
#[derive(Clone, Debug)]
pub enum RepoRoot {
    Git { url: String, branch: String },
    Local { path: String, branch: String },
}

impl RepoRoot {
    pub open spec fn spec_branch(&self) -> String {
        match self {
            RepoRoot::Git { branch, .. } => *branch,
            RepoRoot::Local { branch, .. } => *branch,
        }
    }

    /// The root with its branch replaced.
    pub open spec fn spec_with_branch(self, b: String) -> RepoRoot {
        match self {
            RepoRoot::Git { url, .. } => RepoRoot::Git { url, branch: b },
            RepoRoot::Local { path, .. } => RepoRoot::Local { path, branch: b },
        }
    }

    pub fn branch(&self) -> (r: &String)
        ensures
            *r == self.spec_branch(),
    {
        match self {
            RepoRoot::Git { branch, .. } => branch,
            RepoRoot::Local { branch, .. } => branch,
        }
    }

    pub fn branch_mut(&mut self) -> (r: &mut String)
        ensures
            *r == old(self).spec_branch(),
            *final(self) == old(self).spec_with_branch(*final(r)),
    {
        match self {
            RepoRoot::Git { branch, .. } => branch,
            RepoRoot::Local { branch, .. } => branch,
        }
    }
}

/// One repository of the build: its short name, its root, an optional pinned
/// commit (ignored for local roots), and whether a checkout may clobber what
/// is already there.
#[derive(Clone, Debug)]
pub struct Repo {
    pub name: String,
    pub root: RepoRoot,
    pub commit: Option<String>,
    pub clobber: bool,
}

impl Repo {
    pub fn new_git(name: String, url: String, branch: String) -> (r: Repo)
        ensures
            r.name == name,
            r.root == (RepoRoot::Git { url, branch }),
            r.commit is None,
            r.clobber,
    {
        Repo { name, root: RepoRoot::Git { url, branch }, commit: None, clobber: true }
    }

    pub fn new_git_commit(name: String, url: String, branch: String, commit: String) -> (r: Repo)
        ensures
            r.name == name,
            r.root == (RepoRoot::Git { url, branch }),
            r.commit == Some(commit),
            r.clobber,
    {
        Repo { name, root: RepoRoot::Git { url, branch }, commit: Some(commit), clobber: true }
    }

    /// The git remote name a repository's branch is tracked under.
    pub fn remote_name(&self) -> (r: String)
        ensures
            r@ == "remote-"@ + self.name@ + "-branch-"@ + self.root.spec_branch()@,
    {
        let mut out = "remote-".to_owned();
        out.append(self.name.as_str());
        out.append("-branch-");
        out.append(self.root.branch().as_str());
        proof {
            assert(out@ =~= "remote-"@ + self.name@ + "-branch-"@ + self.root.spec_branch()@);
        }
        out
    }
}

} // verus!
