//! Installing a version: the plan of an install, and the sequence of steps that
//! stages it outside the store and commits it with a single rename.
use vstd::prelude::*;
use crate::error::{IoKind, RnmError};
use crate::platform::{ArchiveKind, extension_of, resolve, arch_name_of, os_name_of, archive_of};
use crate::store::{Manager, marker};
use crate::text::{concat, trim_leading, trim_start_char};

verus! {

/// The mirror that serves the listing and the release archives.
pub const NODE_MIRROR: &'static str = "https://nodejs.org/dist";

/// Everything an install needs to know, decided before any download.
#[derive(Clone, Debug, PartialEq, Eq)]
pub struct InstallPlan {
    /// The version, without its leading `v`s.
    pub version: String,
    /// Where the version is committed in the store.
    pub version_path: String,
    /// The archive's file name.
    pub filename: String,
    /// Where the archive is downloaded from.
    pub url: String,
    /// The top-level directory the archive unpacks to.
    pub extracted_dir: String,
    pub archive: ArchiveKind,
}

/// The archive's base name: `node-v{version}-{os}-{arch}`.
pub open spec fn base_name(v: Seq<char>, os_name: Seq<char>, arch_name: Seq<char>) -> Seq<char> {
    marker() + v + "-"@ + os_name + "-"@ + arch_name
}

/// The archive's file name: its base name and extension.
pub open spec fn file_name(v: Seq<char>, os_name: Seq<char>, arch_name: Seq<char>, k: ArchiveKind) -> Seq<char> {
    base_name(v, os_name, arch_name) + "."@ + extension_of(k)
}

/// The download address: `{mirror}/v{version}/{file name}`.
pub open spec fn url_of(v: Seq<char>, file: Seq<char>) -> Seq<char> {
    NODE_MIRROR@ + "/v"@ + v + "/"@ + file
}

/// The steps of an install. Only `Commit` touches the store.
#[derive(Clone, Debug, PartialEq, Eq)]
pub enum InstallStep {
    /// Download the archive into a private temporary directory.
    Download,
    /// Unpack the archive inside that temporary directory.
    Extract,
    /// Check that the expected top-level directory was unpacked.
    CheckLayout,
    /// Rename the unpacked directory into the store.
    Commit,
    /// Remove the downloaded archive.
    Cleanup,
    /// The version is installed.
    Installed,
    /// The install stopped with an error.
    Failed(RnmError),
}

/// How the current step went.
#[derive(Clone, Debug, PartialEq, Eq)]
pub enum StepOutcome {
    Succeeded,
    Failed(RnmError),
}

/// The step after `s` when it ended with `o`. A failure before the commit
/// stops the install; a failed cleanup does not undo a committed install.
pub open spec fn next_step(s: InstallStep, o: StepOutcome) -> InstallStep {
    match s {
        InstallStep::Installed => InstallStep::Installed,
        InstallStep::Failed(e) => InstallStep::Failed(e),
        InstallStep::Cleanup => InstallStep::Installed,
        _ => match o {
            StepOutcome::Failed(e) => InstallStep::Failed(e),
            StepOutcome::Succeeded => match s {
                InstallStep::Download => InstallStep::Extract,
                InstallStep::Extract => InstallStep::CheckLayout,
                InstallStep::CheckLayout => InstallStep::Commit,
                _ => InstallStep::Cleanup,
            },
        },
    }
}

/// The directories of the store after step `s` ended with `o`, when the
/// install commits the directory `name`: only a successful commit adds it.
pub open spec fn store_after(store: Set<Seq<char>>, name: Seq<char>, s: InstallStep, o: StepOutcome) -> Set<Seq<char>> {
    if s == InstallStep::Commit && o == StepOutcome::Succeeded {
        store.insert(name)
    } else {
        store
    }
}

/// The step and the store after a sequence of outcomes, starting from step `s`.
pub open spec fn run(s: InstallStep, outcomes: Seq<StepOutcome>, store: Set<Seq<char>>, name: Seq<char>) -> (InstallStep, Set<Seq<char>>)
    decreases outcomes.len(),
{
    if outcomes.len() == 0 {
        (s, store)
    } else {
        run(
            next_step(s, outcomes[0]),
            outcomes.subrange(1, outcomes.len() as int),
            store_after(store, name, s, outcomes[0]),
            name,
        )
    }
}

/// An install in progress: its plan and its current step.
pub struct Install {
    pub plan: InstallPlan,
    pub step: InstallStep,
}

impl Install {
    /// Moves past the current step, given how it went.
    pub fn advance(&mut self, outcome: StepOutcome)
        ensures
            final(self).plan == old(self).plan,
            final(self).step == next_step(old(self).step, outcome),
    {
        let mut current = InstallStep::Installed;
        core::mem::swap(&mut current, &mut self.step);
        let next = match current {
            InstallStep::Installed => InstallStep::Installed,
            InstallStep::Failed(e) => InstallStep::Failed(e),
            InstallStep::Cleanup => InstallStep::Installed,
            InstallStep::Download => match outcome {
                StepOutcome::Failed(e) => InstallStep::Failed(e),
                StepOutcome::Succeeded => InstallStep::Extract,
            },
            InstallStep::Extract => match outcome {
                StepOutcome::Failed(e) => InstallStep::Failed(e),
                StepOutcome::Succeeded => InstallStep::CheckLayout,
            },
            InstallStep::CheckLayout => match outcome {
                StepOutcome::Failed(e) => InstallStep::Failed(e),
                StepOutcome::Succeeded => InstallStep::Commit,
            },
            InstallStep::Commit => match outcome {
                StepOutcome::Failed(e) => InstallStep::Failed(e),
                StepOutcome::Succeeded => InstallStep::Cleanup,
            },
        };
        self.step = next;
    }

    /// Whether the install has ended, installed or failed.
    pub fn is_finished(&self) -> (r: bool)
        ensures
            r == (self.step is Installed || self.step is Failed),
    {
        match self.step {
            InstallStep::Installed | InstallStep::Failed(_) => true,
            _ => false,
        }
    }
}

/// The outcome of the layout check: the unpacked top-level directory at `path`
/// must exist.
pub fn layout_outcome(present: bool, path: &str) -> (r: StepOutcome)
    ensures
        present ==> r == StepOutcome::Succeeded,
        !present ==> (r matches StepOutcome::Failed(RnmError::FileIoError(k, _)) && k == IoKind::NotFound),
{
    if present {
        StepOutcome::Succeeded
    } else {
        let msg = concat("the unpacked directory does not exist: ", path);
        StepOutcome::Failed(RnmError::FileIoError(IoKind::NotFound, msg))
    }
}

impl Manager {
    /// Plans the install of `version` for the platform `os`/`arch`. `present` says
    /// whether the version's directory already exists in the store; then the
    /// install fails with `AlreadyInstalled` before anything else happens.
    pub fn install(&self, version: &str, present: bool, os: &str, arch: &str) -> (r: Result<Install, RnmError>)
        ensures
            ({
                let v = trim_leading(version@, 'v');
                &&& present ==> (r matches Err(RnmError::AlreadyInstalled(s)) && s@ == v)
                &&& !present && arch_name_of(arch@) is None ==> (r matches Err(RnmError::UnsupportedArch(a)) && a@ == arch@)
                &&& !present && arch_name_of(arch@) is Some && os_name_of(os@) is None ==> (r matches Err(RnmError::UnsupportedPlatform(o, a)) && o@ == os@ && a@ == arch_name_of(arch@).unwrap())
                &&& !present && arch_name_of(arch@) is Some && os_name_of(os@) is Some ==> (r matches Ok(i) && {
                    let on = os_name_of(os@).unwrap();
                    let an = arch_name_of(arch@).unwrap();
                    let k = archive_of(os@);
                    &&& i.step == InstallStep::Download
                    &&& i.plan.version@ == v
                    &&& i.plan.version_path@ == self.version_path_spec(version@)
                    &&& i.plan.archive == k
                    &&& i.plan.filename@ == file_name(v, on, an, k)
                    &&& i.plan.url@ == url_of(v, file_name(v, on, an, k))
                    &&& i.plan.extracted_dir@ == base_name(v, on, an)
                })
            }),
    {
        proof {
            reveal_strlit("node-v");
            reveal_strlit("-");
            reveal_strlit(".");
            reveal_strlit("/v");
            reveal_strlit("/");
        }
        let v = trim_start_char(version, 'v');
        if present {
            return Err(RnmError::AlreadyInstalled(v));
        }
        let platform = resolve(os, arch)?;
        let mut base = concat("node-v", v.as_str());
        base.append("-");
        base.append(platform.os_name.as_str());
        base.append("-");
        base.append(platform.arch_name.as_str());
        let mut filename = concat(base.as_str(), ".");
        filename.append(platform.archive.extension());
        let mut url = concat(NODE_MIRROR, "/v");
        url.append(v.as_str());
        url.append("/");
        url.append(filename.as_str());
        let version_path = self.version_path(version);
        let plan = InstallPlan {
            version: v,
            version_path,
            filename,
            url,
            extracted_dir: base,
            archive: platform.archive,
        };
        Ok(Install { plan, step: InstallStep::Download })
    }
}

/// The steps before the commit, the commit included.
pub open spec fn before_commit(s: InstallStep) -> bool {
    s is Download || s is Extract || s is CheckLayout || s is Commit
}

proof fn lemma_run_cases(s: InstallStep, outcomes: Seq<StepOutcome>, store: Set<Seq<char>>, name: Seq<char>)
    ensures
        ({
            let (f, st) = run(s, outcomes, store, name);
            &&& before_commit(s) ==> (before_commit(f) || f is Failed) && st == store
                || !before_commit(f) && !(f is Failed) && st == store.insert(name)
            &&& (s is Cleanup || s is Installed) ==> (f is Cleanup || f is Installed) && st == store
            &&& s is Failed ==> f == s && st == store
        }),
    decreases outcomes.len(),
{
    if outcomes.len() > 0 {
        let o = outcomes[0];
        let rest = outcomes.subrange(1, outcomes.len() as int);
        let s2 = next_step(s, o);
        let store2 = store_after(store, name, s, o);
        lemma_run_cases(s2, rest, store2, name);
    }
}

/// Whatever happens during an install, the store either stays as it was or
/// gains exactly the version's directory; it gains it only when the install
/// ends installed, and a failure at any step before the rename leaves it as
/// it was.
pub proof fn lemma_install_stages_outside_store(outcomes: Seq<StepOutcome>, store: Set<Seq<char>>, name: Seq<char>)
    ensures
        ({
            let (f, st) = run(InstallStep::Download, outcomes, store, name);
            &&& f is Failed ==> st == store
            &&& f is Installed ==> st == store.insert(name)
            &&& st == store || st == store.insert(name)
        }),
{
    lemma_run_cases(InstallStep::Download, outcomes, store, name);
}

/// After an install ends installed, the version's directory is in the store,
/// so a second install of the same version finds it present and is refused
/// with `AlreadyInstalled` before any step runs.
pub proof fn lemma_second_install_sees_directory(outcomes: Seq<StepOutcome>, store: Set<Seq<char>>, name: Seq<char>)
    requires
        run(InstallStep::Download, outcomes, store, name).0 is Installed,
    ensures
        run(InstallStep::Download, outcomes, store, name).1.contains(name),
{
    lemma_run_cases(InstallStep::Download, outcomes, store, name);
}

} // verus!
