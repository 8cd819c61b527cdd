//! Where runtime data (the library cache database) lives, and for how long.
use vstd::prelude::*;
use crate::paths::{join, spec_join};

verus! {

/// File name of the library cache database.
pub const LIBRARY_DB_FILENAME: &'static str = "library.sqlite";

/// File name of the application database.
pub const KOSHELF_DB_FILENAME: &'static str = "koshelf.sqlite";

/// Command-line options that choose the runtime data location.
#[derive(Clone, Debug, Default)]
pub struct RuntimeDataPathOptions {
    pub data_path: Option<String>,
}

/// Whether runtime data outlives the process.
#[derive(Clone, Copy, Debug, PartialEq, Eq, Structural)]
pub enum RuntimeDataLifecycle {
    Ephemeral,
    Persistent,
}

/// What decided the runtime data policy.
#[derive(Clone, Copy, Debug, PartialEq, Eq, Structural)]
pub enum RuntimeDataPolicySource {
    DataPath,
    AutoEphemeral,
}

impl RuntimeDataPolicySource {
    /// Stable name of the source, for logs and diagnostics.
    pub fn as_str(self) -> (r: &'static str)
        ensures
            self == RuntimeDataPolicySource::DataPath ==> r@ == "data_path"@,
            self == RuntimeDataPolicySource::AutoEphemeral ==> r@ == "auto_ephemeral"@,
    {
        match self {
            RuntimeDataPolicySource::DataPath => "data_path",
            RuntimeDataPolicySource::AutoEphemeral => "auto_ephemeral",
        }
    }
}

/// The resolved runtime data policy.
#[derive(Clone, Debug)]
pub struct RuntimeDataPolicy {
    pub lifecycle: RuntimeDataLifecycle,
    pub source: RuntimeDataPolicySource,
    /// User-provided persistent data path (only set for persistent policies).
    pub data_path: Option<String>,
    /// Directory where runtime data files reside, once known.
    resolved_data_dir: Option<String>,
}

/// The text of an optional string.
pub open spec fn opt_view(o: Option<String>) -> Option<Seq<char>> {
    match o {
        Some(s) => Some(s@),
        None => None,
    }
}

/// `dir`/`name` when the directory is known.
pub open spec fn spec_db_path(dir: Option<Seq<char>>, name: Seq<char>) -> Option<Seq<char>> {
    match dir {
        Some(d) => Some(spec_join(d, name)),
        None => None,
    }
}

/// The abstract content of a policy.
pub struct PolicyView {
    pub lifecycle: RuntimeDataLifecycle,
    pub source: RuntimeDataPolicySource,
    pub data_path: Option<Seq<char>>,
    pub resolved_data_dir: Option<Seq<char>>,
}

impl View for RuntimeDataPolicy {
    type V = PolicyView;

    closed spec fn view(&self) -> PolicyView {
        PolicyView {
            lifecycle: self.lifecycle,
            source: self.source,
            data_path: opt_view(self.data_path),
            resolved_data_dir: opt_view(self.resolved_data_dir),
        }
    }
}

impl RuntimeDataPolicy {
    /// The resolved data directory, as text.
    pub open spec fn spec_resolved_data_dir(&self) -> Option<Seq<char>> {
        self@.resolved_data_dir
    }

    /// A persistent policy has a data path.
    pub open spec fn wf(&self) -> bool {
        self@.lifecycle == RuntimeDataLifecycle::Persistent ==> self@.data_path is Some
    }

    /// The user-provided persistent data directory, if any.
    pub fn persistent_data_dir(&self) -> (r: Option<&str>)
        ensures
            match r {
                Some(d) => self@.lifecycle == RuntimeDataLifecycle::Persistent
                    && self@.data_path == Some(d@),
                None => self@.lifecycle == RuntimeDataLifecycle::Ephemeral || self@.data_path is None,
            },
    {
        if self.is_persistent() {
            match &self.data_path {
                Some(p) => Some(p.as_str()),
                None => None,
            }
        } else {
            None
        }
    }

    /// Whether runtime data is kept across runs.
    pub fn is_persistent(&self) -> (r: bool)
        ensures
            r == (self@.lifecycle == RuntimeDataLifecycle::Persistent),
    {
        match self.lifecycle {
            RuntimeDataLifecycle::Persistent => true,
            RuntimeDataLifecycle::Ephemeral => false,
        }
    }

    /// Sets the resolved runtime data directory.
    pub fn set_resolved_data_dir(&mut self, path: String)
        ensures
            final(self).spec_resolved_data_dir() == Some(path@),
            final(self)@.lifecycle == old(self)@.lifecycle,
            final(self)@.source == old(self)@.source,
            final(self)@.data_path == old(self)@.data_path,
    {
        self.resolved_data_dir = Some(path);
    }

    /// The resolved directory where runtime data files reside.
    pub fn resolved_data_dir(&self) -> (r: Option<&str>)
        ensures
            match r {
                Some(d) => self.spec_resolved_data_dir() == Some(d@),
                None => self.spec_resolved_data_dir() is None,
            },
    {
        match &self.resolved_data_dir {
            Some(p) => Some(p.as_str()),
            None => None,
        }
    }

    /// Path to the library SQLite cache inside the resolved data directory.
    pub fn library_db_path(&self) -> (r: Option<String>)
        ensures
            opt_view(r) == spec_db_path(self.spec_resolved_data_dir(), LIBRARY_DB_FILENAME@),
    {
        match &self.resolved_data_dir {
            Some(dir) => Some(join(dir.as_str(), LIBRARY_DB_FILENAME)),
            None => None,
        }
    }

    /// Path to the application database inside the resolved data directory.
    pub fn koshelf_db_path(&self) -> (r: Option<String>)
        ensures
            opt_view(r) == spec_db_path(self.spec_resolved_data_dir(), KOSHELF_DB_FILENAME@),
    {
        match &self.resolved_data_dir {
            Some(dir) => Some(join(dir.as_str(), KOSHELF_DB_FILENAME)),
            None => None,
        }
    }
}

/// The policy the options call for: persistent at a non-empty data path, otherwise ephemeral.
pub open spec fn spec_policy_is_persistent(data_path: Option<Seq<char>>) -> bool {
    data_path is Some && data_path->0.len() > 0
}

/// Chooses the runtime data policy from the command-line options.
pub fn resolve_runtime_data_policy(cli: &RuntimeDataPathOptions) -> (r: RuntimeDataPolicy)
    ensures
        r.wf(),
        spec_policy_is_persistent(opt_view(cli.data_path)) ==> {
            &&& r@.lifecycle == RuntimeDataLifecycle::Persistent
            &&& r@.source == RuntimeDataPolicySource::DataPath
            &&& r@.data_path == opt_view(cli.data_path)
            &&& r.spec_resolved_data_dir() == opt_view(cli.data_path)
        },
        !spec_policy_is_persistent(opt_view(cli.data_path)) ==> {
            &&& r@.lifecycle == RuntimeDataLifecycle::Ephemeral
            &&& r@.source == RuntimeDataPolicySource::AutoEphemeral
            &&& r@.data_path is None
            &&& r.spec_resolved_data_dir() is None
        },
{
    match non_empty_path(cli.data_path.as_ref()) {
        Some(data_path) => persistent_policy(data_path, RuntimeDataPolicySource::DataPath),
        None => ephemeral_policy(),
    }
}

fn non_empty_path(path: Option<&String>) -> (r: Option<String>)
    ensures
        match path {
            Some(p) => if p@.len() > 0 {
                r is Some && r->0@ == p@
            } else {
                r is None
            },
            None => r is None,
        },
{
    match path {
        Some(p) => {
            if p.as_str().is_empty() {
                None
            } else {
                Some(p.clone())
            }
        },
        None => None,
    }
}

fn persistent_policy(path: String, source: RuntimeDataPolicySource) -> (r: RuntimeDataPolicy)
    ensures
        r@.lifecycle == RuntimeDataLifecycle::Persistent,
        r@.source == source,
        r@.data_path == Some(path@),
        r.spec_resolved_data_dir() == Some(path@),
        r.wf(),
{
    RuntimeDataPolicy {
        lifecycle: RuntimeDataLifecycle::Persistent,
        source,
        resolved_data_dir: Some(path.clone()),
        data_path: Some(path),
    }
}

fn ephemeral_policy() -> (r: RuntimeDataPolicy)
    ensures
        r@.lifecycle == RuntimeDataLifecycle::Ephemeral,
        r@.source == RuntimeDataPolicySource::AutoEphemeral,
        r@.data_path is None,
        r.spec_resolved_data_dir() is None,
        r.wf(),
{
    RuntimeDataPolicy {
        lifecycle: RuntimeDataLifecycle::Ephemeral,
        source: RuntimeDataPolicySource::AutoEphemeral,
        data_path: None,
        resolved_data_dir: None,
    }
}

/// Once a data directory is set, both database paths live directly inside it; until then
/// neither is known.
pub proof fn lemma_db_paths_follow_resolved_dir(dir: Seq<char>)
    ensures
        spec_db_path(Some(dir), LIBRARY_DB_FILENAME@) == Some(spec_join(dir, LIBRARY_DB_FILENAME@)),
        spec_db_path(None, LIBRARY_DB_FILENAME@) is None,
        spec_db_path(None, KOSHELF_DB_FILENAME@) is None,
{
}

} // verus!
