use vstd::multiset::Multiset;
use vstd::prelude::*;
use vstd::seq_lib::group_to_multiset_ensures;
use vstd::string::{StrSliceExecFns, StringExecFns};

use crate::error::Error;
use crate::pkg::{Package, PackageModel};
use crate::strutil;

verus! {

/// How many teardown passes are attempted before the sandbox gives up and
/// aborts rather than risk deleting a directory with live mounts in it.
pub const MAX_UNMOUNT_PASSES: u32 = 10;

/// The exit code reported when the sandboxed child's own code cannot be
/// obtained (for example when a signal killed it).
pub const EXIT_CODE_UNOBTAINABLE: i32 = 89;

/// Where ephemeral sandbox roots are allocated: the configured location if
/// one is set, else the built-in default.
pub fn get_run_location(configured: Option<String>) -> (r: String)
    ensures
        r@ == (match configured {
            Some(x) => x@,
            None => "/fpkg/run/"@,
        }),
{
    match configured {
        Some(x) => x,
        None => String::from_str("/fpkg/run/"),
    }
}

/// Where synthetic meta-packages are allocated: the configured location if
/// one is set, else the built-in default.
pub fn get_tmp_location(configured: Option<String>) -> (r: String)
    ensures
        r@ == (match configured {
            Some(x) => x@,
            None => "/fpkg/tmp"@,
        }),
{
    match configured {
        Some(x) => x,
        None => String::from_str("/fpkg/tmp"),
    }
}

/// An ASCII letter or digit.
pub open spec fn spec_alphanumeric(c: char) -> bool {
    ('a' <= c && c <= 'z') || ('A' <= c && c <= 'Z') || ('0' <= c && c <= '9')
}

/// Relies on `rand`: one sample of the `Alphanumeric` distribution from the
/// thread-local generator is an ASCII letter or digit.
#[verifier::external_body]
fn random_alphanumeric() -> (c: char)
    ensures
        spec_alphanumeric(c),
{
    let mut rng = rand::rng();
    let b: u8 = rand::Rng::sample(&mut rng, rand::distr::Alphanumeric);
    b as char
}

/// A fresh random name component: `length` ASCII letters and digits.
pub fn get_random_string(length: usize) -> (r: String)
    ensures
        r@.len() == length,
        forall|i: int| 0 <= i < length ==> spec_alphanumeric(#[trigger] r@[i]),
{
    let mut ret = String::new();
    let mut i: usize = 0;
    while i < length
        invariant
            i <= length,
            ret@.len() == i,
            forall|k: int| 0 <= k < i ==> spec_alphanumeric(#[trigger] ret@[k]),
        decreases length - i,
    {
        let c = random_alphanumeric();
        ret.push(c);
        i += 1;
    }
    ret
}

/// A path without its one leading `/`, if it has one.
pub open spec fn spec_make_path_relative(a: Seq<char>) -> Seq<char> {
    if a.len() > 0 && a[0] == '/' {
        a.subrange(1, a.len() as int)
    } else {
        a
    }
}

/// Strip the leading `/` from an absolute path; a relative path is kept
/// as it is.
pub fn make_path_relative(a: &str) -> (r: String)
    ensures
        r@ == spec_make_path_relative(a@),
{
    let n = a.unicode_len();
    if n > 0 && a.get_char(0) == '/' {
        a.substring_char(1, n).to_owned()
    } else {
        a.to_owned()
    }
}

/// What joining `b` under the directory `a` yields: `b` is made relative
/// first, and exactly one `/` separates the two.
pub open spec fn spec_join_proper(a: Seq<char>, b: Seq<char>) -> Seq<char> {
    let rel = spec_make_path_relative(b);
    if a.len() > 0 && a.last() == '/' {
        a + rel
    } else {
        a + "/"@ + rel
    }
}

/// Join a (possibly absolute) path under a directory.
pub fn join_proper(a: &str, b: &str) -> (r: String)
    ensures
        r@ == spec_join_proper(a@, b@),
{
    let rel = make_path_relative(b);
    let n = a.unicode_len();
    if n > 0 && a.get_char(n - 1) == '/' {
        a.to_owned().concat(rel.as_str())
    } else {
        a.to_owned().concat("/").concat(rel.as_str())
    }
}

/// Relies on `nix::mount::mount`: makes `src`'s contents show up at
/// `target` by a recursive bind mount, then marks the mount slave and
/// recursive so that remounts inside the sandbox do not propagate back to
/// the host's other views. Nothing is promised of the mount table itself;
/// an `Err` carries the failed call's description.
#[verifier::external_body]
pub fn mount(src: &str, target: &str) -> (r: Result<(), Error>) {
    let bind = nix::mount::MsFlags::MS_BIND.union(nix::mount::MsFlags::MS_REC);
    let slave = nix::mount::MsFlags::MS_SLAVE.union(nix::mount::MsFlags::MS_REC);
    if let Err(e) = nix::mount::mount(Some(src), target, Option::<&str>::None, bind, Option::<&str>::None) {
        return Err(Error::Syscall(format!("mount: {}", e)));
    }
    if let Err(e) = nix::mount::mount(Option::<&str>::None, target, Option::<&str>::None, slave, Option::<&str>::None) {
        return Err(Error::Syscall(format!("mount: {}", e)));
    }
    Ok(())
}

/// What one top-level entry of the environment directory is.
#[derive(Debug, Clone, Copy, PartialEq, Eq, Structural)]
pub enum EntryKind {
    RegularFile,
    Directory,
    Symlink,
    Other,
}

/// One top-level entry of the environment directory.
#[derive(Debug)]
pub struct EnvEntry {
    pub name: String,
    pub kind: EntryKind,
}

/// The mathematical value of an `EnvEntry`.
pub struct EnvEntryModel {
    pub name: Seq<char>,
    pub kind: EntryKind,
}

impl View for EnvEntry {
    type V = EnvEntryModel;

    open spec fn view(&self) -> EnvEntryModel {
        EnvEntryModel { name: self.name@, kind: self.kind }
    }
}

impl DeepView for EnvEntry {
    type V = EnvEntryModel;

    open spec fn deep_view(&self) -> EnvEntryModel {
        self.view()
    }
}

/// One step of sandbox construction: bind-mount a directory onto an empty
/// directory placeholder, bind-mount a file onto an empty file
/// placeholder, or hard-link a symbolic link (bind-mounting a symlink
/// would mount its target and lose the link).
#[derive(Debug)]
pub enum SetupAction {
    MountDir { source: String, target: String },
    MountFile { source: String, target: String },
    HardLink { source: String, target: String },
}

/// The mathematical value of a `SetupAction`.
pub enum SetupActionModel {
    MountDir { source: Seq<char>, target: Seq<char> },
    MountFile { source: Seq<char>, target: Seq<char> },
    HardLink { source: Seq<char>, target: Seq<char> },
}

impl View for SetupAction {
    type V = SetupActionModel;

    open spec fn view(&self) -> SetupActionModel {
        match self {
            SetupAction::MountDir { source, target } => SetupActionModel::MountDir {
                source: source@,
                target: target@,
            },
            SetupAction::MountFile { source, target } => SetupActionModel::MountFile {
                source: source@,
                target: target@,
            },
            SetupAction::HardLink { source, target } => SetupActionModel::HardLink {
                source: source@,
                target: target@,
            },
        }
    }
}

impl DeepView for SetupAction {
    type V = SetupActionModel;

    open spec fn deep_view(&self) -> SetupActionModel {
        self.view()
    }
}

/// The construction step owed to one environment entry: symbolic links
/// are hard-linked, directories become directory mounts, everything else
/// becomes a file mount; sources live under the environment directory and
/// targets at the matching spot under the sandbox root.
pub open spec fn spec_plan_entry(
    env_dir: Seq<char>,
    out_dir: Seq<char>,
    e: EnvEntryModel,
) -> SetupActionModel {
    let source = spec_join_proper(env_dir, e.name);
    let target = spec_join_proper(out_dir, e.name);
    match e.kind {
        EntryKind::Symlink => SetupActionModel::HardLink { source, target },
        EntryKind::Directory => SetupActionModel::MountDir { source, target },
        EntryKind::RegularFile => SetupActionModel::MountFile { source, target },
        EntryKind::Other => SetupActionModel::MountFile { source, target },
    }
}

/// Plan the construction step for one environment entry.
pub fn plan_env_entry(env_dir: &str, out_dir: &str, e: &EnvEntry) -> (r: SetupAction)
    ensures
        r@ == spec_plan_entry(env_dir@, out_dir@, e@),
{
    let source = join_proper(env_dir, e.name.as_str());
    let target = join_proper(out_dir, e.name.as_str());
    match e.kind {
        EntryKind::Symlink => SetupAction::HardLink { source, target },
        EntryKind::Directory => SetupAction::MountDir { source, target },
        EntryKind::RegularFile => SetupAction::MountFile { source, target },
        EntryKind::Other => SetupAction::MountFile { source, target },
    }
}

/// Plan the construction steps for all top-level entries of the
/// environment directory, in listing order.
pub fn plan_env_entries(env_dir: &str, out_dir: &str, entries: &Vec<EnvEntry>) -> (r: Vec<
    SetupAction,
>)
    ensures
        r@.len() == entries@.len(),
        forall|i: int|
            0 <= i < entries@.len() ==> #[trigger] r.deep_view()[i] == spec_plan_entry(
                env_dir@,
                out_dir@,
                entries.deep_view()[i],
            ),
{
    let mut r: Vec<SetupAction> = Vec::new();
    let mut i: usize = 0;
    while i < entries.len()
        invariant
            i <= entries@.len(),
            r@.len() == i,
            forall|k: int|
                0 <= k < i ==> #[trigger] r.deep_view()[k] == spec_plan_entry(
                    env_dir@,
                    out_dir@,
                    entries.deep_view()[k],
                ),
        decreases entries@.len() - i,
    {
        let a = plan_env_entry(env_dir, out_dir, &entries[i]);
        let ghost old_r = r;
        r.push(a);
        i += 1;
        proof {
            assert(r.deep_view()[i - 1] == r@[i - 1]@);
            assert forall|k: int| 0 <= k < i - 1 implies #[trigger] r.deep_view()[k]
                == spec_plan_entry(env_dir@, out_dir@, entries.deep_view()[k]) by {
                assert(r@[k] == old_r@[k]);
                assert(old_r.deep_view()[k] == old_r@[k]@);
                assert(r.deep_view()[k] == r@[k]@);
            }
        }
    }
    r
}

/// Whether a planned step creates a mount that teardown must clear. A
/// hard link is not a mount point and is never recorded.
pub open spec fn spec_action_mounts(a: SetupActionModel) -> bool {
    !(a is HardLink)
}

/// A symbolic-link entry of the environment directory appears in the
/// sandbox as a link, never as a mount: its planned step is a hard link,
/// which is not recorded as a mount target.
pub proof fn lemma_symlink_entries_become_links(
    env_dir: Seq<char>,
    out_dir: Seq<char>,
    e: EnvEntryModel,
)
    requires
        e.kind == EntryKind::Symlink,
    ensures
        spec_plan_entry(env_dir, out_dir, e) is HardLink,
        !spec_action_mounts(spec_plan_entry(env_dir, out_dir, e)),
{
}

/// The fixed allow-list of host directories that are exposed through the
/// sandbox when present and not already shadowed.
pub fn host_allow_list() -> (r: Vec<String>)
    ensures
        r.deep_view() =~= seq![
            "dev"@,
            "mnt"@,
            "media"@,
            "run"@,
            "var"@,
            "home"@,
            "tmp"@,
            "proc"@,
        ],
{
    let mut v: Vec<String> = Vec::new();
    v.push(String::from_str("dev"));
    v.push(String::from_str("mnt"));
    v.push(String::from_str("media"));
    v.push(String::from_str("run"));
    v.push(String::from_str("var"));
    v.push(String::from_str("home"));
    v.push(String::from_str("tmp"));
    v.push(String::from_str("proc"));
    v
}

/// Which of the first `upto` allow-listed directories get bound through:
/// those that exist on the host and are not already present under the
/// sandbox root.
pub open spec fn spec_host_binds(
    dirs: Seq<Seq<char>>,
    host_exists: Seq<bool>,
    target_exists: Seq<bool>,
    upto: int,
) -> Seq<Seq<char>>
    decreases upto,
{
    if upto <= 0 {
        seq![]
    } else {
        let rest = spec_host_binds(dirs, host_exists, target_exists, upto - 1);
        if host_exists[upto - 1] && !target_exists[upto - 1] {
            rest.push(dirs[upto - 1])
        } else {
            rest
        }
    }
}

/// Select, in order, the allow-listed host directories to bind through:
/// one is skipped when the host lacks it or the sandbox already has that
/// path.
pub fn plan_host_binds(
    dirs: &Vec<String>,
    host_exists: &Vec<bool>,
    target_exists: &Vec<bool>,
) -> (r: Vec<String>)
    requires
        host_exists@.len() == dirs@.len(),
        target_exists@.len() == dirs@.len(),
    ensures
        r.deep_view() == spec_host_binds(
            dirs.deep_view(),
            host_exists@,
            target_exists@,
            dirs@.len() as int,
        ),
{
    let mut r: Vec<String> = Vec::new();
    let mut i: usize = 0;
    while i < dirs.len()
        invariant
            i <= dirs@.len(),
            host_exists@.len() == dirs@.len(),
            target_exists@.len() == dirs@.len(),
            r.deep_view() == spec_host_binds(
                dirs.deep_view(),
                host_exists@,
                target_exists@,
                i as int,
            ),
        decreases dirs@.len() - i,
    {
        let ghost old_r = r;
        if host_exists[i] && !target_exists[i] {
            let d = dirs[i].clone();
            r.push(d);
            proof {
                assert(r.deep_view() =~= old_r.deep_view().push(dirs.deep_view()[i as int]));
            }
        }
        i += 1;
    }
    r
}

/// Where the command is found under the sandbox root: `/bin` is checked
/// first and wins; `/usr/bin` is second; nothing else is searched.
pub open spec fn spec_resolve_prefix(in_bin: bool, in_usr_bin: bool) -> Option<Seq<char>> {
    if in_bin {
        Some("/bin"@)
    } else if in_usr_bin {
        Some("/usr/bin"@)
    } else {
        None
    }
}

/// Resolve the executable prefix from the two existence checks, `/bin`
/// before `/usr/bin`. `None` means no executable was found: the caller
/// skips execution, still runs full teardown, and reports exit code 0.
pub fn resolve_exec_prefix(in_bin: bool, in_usr_bin: bool) -> (r: Option<String>)
    ensures
        match r {
            Some(p) => spec_resolve_prefix(in_bin, in_usr_bin) == Some(p@),
            None => spec_resolve_prefix(in_bin, in_usr_bin) is None,
        },
{
    if in_bin {
        Some(String::from_str("/bin"))
    } else if in_usr_bin {
        Some(String::from_str("/usr/bin"))
    } else {
        None
    }
}

/// `/bin` wins executable resolution whenever the command exists there,
/// whatever `/usr/bin` holds.
pub proof fn lemma_bin_wins(in_usr_bin: bool)
    ensures
        spec_resolve_prefix(true, in_usr_bin) == Some("/bin"@),
{
}

/// The exit code handed back for a finished child: its own code, or the
/// sentinel when the code cannot be obtained.
pub fn exit_code_or_sentinel(code: Option<i32>) -> (r: i32)
    ensures
        r == (match code {
            Some(c) => c,
            None => EXIT_CODE_UNOBTAINABLE,
        }),
{
    match code {
        Some(c) => c,
        None => EXIT_CODE_UNOBTAINABLE,
    }
}

/// The mount targets created during one sandbox construction, in creation
/// order. The record is exclusively owned by that invocation and must be
/// drained to empty by teardown before the ephemeral root may be deleted.
#[derive(Debug)]
pub struct MountRecord {
    pub targets: Vec<String>,
}

impl MountRecord {
    /// An empty record.
    pub fn new() -> (r: MountRecord)
        ensures
            r.targets@.len() == 0,
    {
        MountRecord { targets: Vec::new() }
    }

    /// Note one more created mount target.
    pub fn record(&mut self, target: String)
        ensures
            final(self).targets@ == old(self).targets@.push(target),
    {
        self.targets.push(target);
    }
}

/// What one unmount attempt on one pending target came to.
#[derive(Debug, Clone, Copy, PartialEq, Eq, Structural)]
pub enum UnmountOutcome {
    /// The unmount call failed; the target stays pending.
    Failed,
    /// The unmount succeeded and the directory is gone or empty: cleared.
    CleanlyUnmounted,
    /// The unmount succeeded but content is still visible under the
    /// target (nested mounts); the caller sweeps the subtree and the
    /// target stays pending for a later verification pass.
    LeftResidue,
}

/// The end of a teardown: delete the ephemeral root, or abort the whole
/// process because live mounts survived every pass — deleting then would
/// delete real files reachable through the mounts.
#[derive(Debug, Clone, Copy, PartialEq, Eq, Structural)]
pub enum TeardownVerdict {
    DeleteRoot,
    Abort,
}

/// The targets among the first `upto` that stay pending after a pass.
pub open spec fn spec_retained(
    pending: Seq<Seq<char>>,
    outcomes: Seq<UnmountOutcome>,
    upto: int,
) -> Seq<Seq<char>>
    decreases upto,
{
    if upto <= 0 {
        seq![]
    } else {
        let rest = spec_retained(pending, outcomes, upto - 1);
        if outcomes[upto - 1] is CleanlyUnmounted {
            rest
        } else {
            rest.push(pending[upto - 1])
        }
    }
}

/// The targets among the first `upto` that a pass cleared.
pub open spec fn spec_cleared(
    pending: Seq<Seq<char>>,
    outcomes: Seq<UnmountOutcome>,
    upto: int,
) -> Seq<Seq<char>>
    decreases upto,
{
    if upto <= 0 {
        seq![]
    } else {
        let rest = spec_cleared(pending, outcomes, upto - 1);
        if outcomes[upto - 1] is CleanlyUnmounted {
            rest.push(pending[upto - 1])
        } else {
            rest
        }
    }
}

/// A pass only moves targets: together, what it retains and what it
/// clears are exactly what was pending.
proof fn lemma_pass_partitions(
    pending: Seq<Seq<char>>,
    outcomes: Seq<UnmountOutcome>,
    upto: int,
)
    requires
        0 <= upto <= pending.len(),
    ensures
        spec_retained(pending, outcomes, upto).to_multiset().add(
            spec_cleared(pending, outcomes, upto).to_multiset(),
        ) == pending.subrange(0, upto).to_multiset(),
    decreases upto,
{
    broadcast use group_to_multiset_ensures;
    broadcast use vstd::multiset::group_multiset_axioms;

    if upto <= 0 {
        assert(pending.subrange(0, 0) =~= Seq::<Seq<char>>::empty());
        assert(spec_retained(pending, outcomes, 0).to_multiset().add(
            spec_cleared(pending, outcomes, 0).to_multiset(),
        ) =~= pending.subrange(0, 0).to_multiset());
    } else {
        lemma_pass_partitions(pending, outcomes, upto - 1);
        assert(pending.subrange(0, upto) =~= pending.subrange(0, upto - 1).push(
            pending[upto - 1],
        ));
        assert(spec_retained(pending, outcomes, upto).to_multiset().add(
            spec_cleared(pending, outcomes, upto).to_multiset(),
        ) =~= pending.subrange(0, upto).to_multiset());
    }
}

/// The teardown of one sandbox: every recorded mount target starts out
/// pending, each pass reports per target whether it was cleared, and the
/// ephemeral root may be deleted only once nothing is pending — the
/// central safety contract of the sandbox builder.
#[derive(Debug)]
pub struct Teardown {
    created: Vec<String>,
    pending: Vec<String>,
    cleared: Vec<String>,
    passes: u32,
}

impl Teardown {
    /// Every mount target the construction recorded.
    pub closed spec fn created_targets(self) -> Seq<Seq<char>> {
        self.created.deep_view()
    }

    /// The targets still believed mounted.
    pub closed spec fn pending_targets(self) -> Seq<Seq<char>> {
        self.pending.deep_view()
    }

    /// The targets whose unmount was confirmed.
    pub closed spec fn cleared_targets(self) -> Seq<Seq<char>> {
        self.cleared.deep_view()
    }

    /// How many passes ran.
    pub closed spec fn passes_done(self) -> nat {
        self.passes as nat
    }

    /// The teardown invariant: no target is ever lost or invented — the
    /// pending and the cleared targets together are exactly the created
    /// ones.
    pub open spec fn wf(self) -> bool {
        &&& self.pending_targets().to_multiset().add(self.cleared_targets().to_multiset())
            == self.created_targets().to_multiset()
        &&& self.passes_done() <= MAX_UNMOUNT_PASSES
    }

    /// Start a teardown: everything recorded is pending, nothing is
    /// cleared yet.
    pub fn new(record: MountRecord) -> (t: Teardown)
        ensures
            t.wf(),
            t.created_targets() == record.targets.deep_view(),
            t.pending_targets() == record.targets.deep_view(),
            t.cleared_targets() == Seq::<Seq<char>>::empty(),
            t.passes_done() == 0,
    {
        broadcast use group_to_multiset_ensures;
        broadcast use vstd::multiset::group_multiset_axioms;

        let pending = record.targets.clone();
        proof {
            assert(pending@ =~= record.targets@);
            assert(pending.deep_view() =~= record.targets.deep_view());
        }
        let t = Teardown { created: record.targets, pending, cleared: Vec::new(), passes: 0 };
        proof {
            assert(t.cleared_targets() =~= Seq::<Seq<char>>::empty());
            assert(t.pending_targets().to_multiset().add(t.cleared_targets().to_multiset())
                =~= t.created_targets().to_multiset());
        }
        t
    }

    /// Whether another pass is owed: targets are pending and the pass
    /// budget is not exhausted.
    pub fn in_progress(&self) -> (b: bool)
        ensures
            b == (self.passes_done() < MAX_UNMOUNT_PASSES && self.pending_targets().len() > 0),
    {
        self.passes < MAX_UNMOUNT_PASSES && self.pending.len() > 0
    }

    /// The targets the next pass must attempt, in order.
    pub fn current_targets(&self) -> (v: Vec<String>)
        ensures
            v.deep_view() == self.pending_targets(),
    {
        let v = self.pending.clone();
        proof {
            assert(v@ =~= self.pending@);
            assert(v.deep_view() =~= self.pending.deep_view());
        }
        v
    }

    /// Feed back one pass: `outcomes[i]` reports the attempt on the
    /// `i`-th pending target. Cleared targets move to the cleared list;
    /// everything else stays pending for the next pass.
    pub fn apply_pass(&mut self, outcomes: &Vec<UnmountOutcome>)
        requires
            old(self).wf(),
            old(self).passes_done() < MAX_UNMOUNT_PASSES,
            outcomes@.len() == old(self).pending_targets().len(),
        ensures
            final(self).wf(),
            final(self).created_targets() == old(self).created_targets(),
            final(self).passes_done() == old(self).passes_done() + 1,
            final(self).pending_targets() == spec_retained(
                old(self).pending_targets(),
                outcomes@,
                outcomes@.len() as int,
            ),
            final(self).cleared_targets() == old(self).cleared_targets() + spec_cleared(
                old(self).pending_targets(),
                outcomes@,
                outcomes@.len() as int,
            ),
    {
        let ghost pdv = self.pending.deep_view();
        let ghost old_cleared = self.cleared.deep_view();
        let n = self.pending.len();
        let mut retained: Vec<String> = Vec::new();
        let mut newly_cleared: Vec<String> = Vec::new();
        let mut i: usize = 0;
        while i < n
            invariant
                i <= n,
                n == self.pending@.len(),
                outcomes@.len() == n,
                pdv == self.pending.deep_view(),
                retained.deep_view() == spec_retained(pdv, outcomes@, i as int),
                newly_cleared.deep_view() == spec_cleared(pdv, outcomes@, i as int),
            decreases n - i,
        {
            let t = self.pending[i].clone();
            proof {
                assert(t@ == self.pending@[i as int]@);
                assert(pdv[i as int] == self.pending@[i as int]@);
            }
            let ghost old_retained = retained;
            let ghost old_newly = newly_cleared;
            if outcomes[i] == UnmountOutcome::CleanlyUnmounted {
                newly_cleared.push(t);
                proof {
                    assert(newly_cleared.deep_view() =~= old_newly.deep_view().push(
                        pdv[i as int],
                    ));
                }
            } else {
                retained.push(t);
                proof {
                    assert(retained.deep_view() =~= old_retained.deep_view().push(
                        pdv[i as int],
                    ));
                }
            }
            i += 1;
        }
        let mut cleared_all = Vec::new();
        core::mem::swap(&mut cleared_all, &mut self.cleared);
        let mut j: usize = 0;
        while j < newly_cleared.len()
            invariant
                j <= newly_cleared@.len(),
                cleared_all.deep_view() == old_cleared + newly_cleared.deep_view().subrange(
                    0,
                    j as int,
                ),
            decreases newly_cleared@.len() - j,
        {
            let ghost before = cleared_all.deep_view();
            let t = newly_cleared[j].clone();
            proof {
                assert(t@ == newly_cleared@[j as int]@);
            }
            cleared_all.push(t);
            j += 1;
            proof {
                assert(cleared_all.deep_view() =~= before.push(
                    newly_cleared.deep_view()[j - 1],
                ));
                assert(old_cleared + newly_cleared.deep_view().subrange(0, j as int) =~= (
                old_cleared + newly_cleared.deep_view().subrange(0, j - 1)).push(
                    newly_cleared.deep_view()[j - 1],
                ));
            }
        }
        self.pending = retained;
        self.cleared = cleared_all;
        self.passes = self.passes + 1;
        proof {
            broadcast use group_to_multiset_ensures;
            broadcast use vstd::multiset::group_multiset_axioms;
            broadcast use vstd::seq_lib::lemma_multiset_commutative;

            assert(newly_cleared.deep_view().subrange(0, newly_cleared@.len() as int)
                =~= newly_cleared.deep_view());
            lemma_pass_partitions(pdv, outcomes@, n as int);
            assert(pdv.subrange(0, n as int) =~= pdv);
            assert(self.pending_targets().to_multiset().add(
                self.cleared_targets().to_multiset(),
            ) =~= old(self).created_targets().to_multiset());
        }
    }

    /// The verdict once no pass is owed any more: the root may be deleted
    /// exactly when nothing is pending, and then every created mount
    /// target was confirmed cleared. Anything still pending means abort —
    /// never delete.
    pub fn verdict(&self) -> (v: TeardownVerdict)
        requires
            self.wf(),
        ensures
            v == TeardownVerdict::DeleteRoot <==> self.pending_targets().len() == 0,
            v == TeardownVerdict::DeleteRoot ==> self.cleared_targets().to_multiset()
                == self.created_targets().to_multiset(),
    {
        proof {
            broadcast use group_to_multiset_ensures;
            broadcast use vstd::multiset::group_multiset_axioms;

            if self.pending_targets().len() == 0 {
                assert(self.pending_targets() =~= Seq::<Seq<char>>::empty());
                assert(self.pending_targets().to_multiset() =~= Multiset::<Seq<char>>::empty());
                assert(Multiset::<Seq<char>>::empty().add(self.cleared_targets().to_multiset())
                    =~= self.cleared_targets().to_multiset());
            }
        }
        if self.pending.len() == 0 {
            TeardownVerdict::DeleteRoot
        } else {
            TeardownVerdict::Abort
        }
    }
}

/// The no-deletion-without-full-unmount law: in any well-formed teardown
/// state with nothing pending, the cleared targets are exactly the
/// created ones — and whenever a target is still pending, the verdict is
/// `Abort`, so the ephemeral root is never deleted over a live mount.
pub proof fn lemma_no_deletion_without_full_unmount(t: Teardown)
    requires
        t.wf(),
        t.pending_targets().len() == 0,
    ensures
        t.cleared_targets().to_multiset() == t.created_targets().to_multiset(),
{
    broadcast use group_to_multiset_ensures;
    broadcast use vstd::multiset::group_multiset_axioms;

    assert(t.pending_targets() =~= Seq::<Seq<char>>::empty());
    assert(t.pending_targets().to_multiset() =~= Multiset::<Seq<char>>::empty());
    assert(Multiset::<Seq<char>>::empty().add(t.cleared_targets().to_multiset())
        =~= t.cleared_targets().to_multiset());
}

/// A run needs at least one package; an empty request is refused before
/// anything is set up.
pub fn require_packages(pkgs: &Vec<Package>) -> (r: Result<(), Error>)
    ensures
        r is Ok <==> pkgs@.len() > 0,
        r matches Err(e) ==> e is NoPackages,
{
    if pkgs.len() == 0 {
        Err(Error::NoPackages)
    } else {
        Ok(())
    }
}

/// The synthetic package's name for one multi-package run: the fixed
/// prefix plus a fresh random suffix.
pub fn meta_package_name(suffix: &str) -> (r: String)
    ensures
        r@ == "tmp-env-"@ + suffix@,
{
    let mut s = String::from_str("tmp-env-");
    s.append(suffix);
    s
}

/// One `depends` block of a synthetic manifest, pinning `p` to its exact
/// installed version.
pub open spec fn spec_depends_block(p: PackageModel) -> Seq<char> {
    "depends \""@ + p.name + "\" {\n    version \""@ + p.version + "\"\n}\n"@
}

/// The `depends` blocks of the first `upto` requested packages, in order.
pub open spec fn spec_meta_depends(pkgs: Seq<PackageModel>, upto: int) -> Seq<char>
    decreases upto,
{
    if upto <= 0 {
        Seq::empty()
    } else {
        spec_meta_depends(pkgs, upto - 1) + spec_depends_block(pkgs[upto - 1])
    }
}

/// The whole synthetic manifest: the meta-package's name, version
/// `1.0.0`, and one exactly-pinned `depends` block per requested package.
pub open spec fn spec_meta_manifest(name: Seq<char>, pkgs: Seq<PackageModel>) -> Seq<char> {
    "name \""@ + name + "\"\nversion \"1.0.0\"\n"@ + spec_meta_depends(pkgs, pkgs.len() as int)
}

/// Render the manifest of the synthetic meta-package that pins every
/// requested package to its exact installed version.
pub fn meta_package_manifest(name: &str, pkgs: &Vec<Package>) -> (r: String)
    ensures
        r@ == spec_meta_manifest(name@, pkgs.deep_view()),
{
    let ghost dv = pkgs.deep_view();
    let mut s = String::from_str("name \"");
    s.append(name);
    s.append("\"\nversion \"1.0.0\"\n");
    proof {
        assert(s@ =~= "name \""@ + name@ + "\"\nversion \"1.0.0\"\n"@);
    }
    let ghost header = s@;
    let mut i: usize = 0;
    while i < pkgs.len()
        invariant
            i <= pkgs@.len(),
            dv == pkgs.deep_view(),
            dv.len() == pkgs@.len(),
            s@ == header + spec_meta_depends(dv, i as int),
            header == "name \""@ + name@ + "\"\nversion \"1.0.0\"\n"@,
        decreases pkgs@.len() - i,
    {
        let ghost before = s@;
        s.append("depends \"");
        s.append(pkgs[i].name.as_str());
        s.append("\" {\n    version \"");
        s.append(pkgs[i].version.as_str());
        s.append("\"\n}\n");
        proof {
            assert(dv[i as int].name == pkgs@[i as int]@.name);
            assert(s@ =~= before + spec_depends_block(dv[i as int]));
            assert(header + spec_meta_depends(dv, i + 1) =~= (header + spec_meta_depends(
                dv,
                i as int,
            )) + spec_depends_block(dv[i as int]));
        }
        i += 1;
    }
    s
}

/// The `depends` line that opens one block of the generated manifest.
spec fn spec_dep_line(p: PackageModel) -> Seq<char> {
    Seq::new(0nat, |i: int| ' ') + "depends"@ + seq![' ', '"'] + p.name + seq!['"', ' ', '{']
}

/// The indented `version` line inside one generated block.
spec fn spec_dep_version_line(p: PackageModel) -> Seq<char> {
    Seq::new(4nat, |i: int| ' ') + "version"@ + seq![' ', '"'] + p.version + seq!['"']
}

/// The generated blocks from package `j` on, as text.
spec fn spec_deps_text_from(pkgs: Seq<PackageModel>, j: int) -> Seq<char>
    decreases pkgs.len() - j,
{
    if j >= pkgs.len() {
        Seq::empty()
    } else {
        spec_depends_block(pkgs[j]) + spec_deps_text_from(pkgs, j + 1)
    }
}

/// The generated blocks from package `j` on, as lines.
spec fn spec_deps_lines_from(pkgs: Seq<PackageModel>, j: int) -> Seq<Seq<char>>
    decreases pkgs.len() - j,
{
    if j >= pkgs.len() {
        seq![]
    } else {
        seq![spec_dep_line(pkgs[j]), spec_dep_version_line(pkgs[j]), seq!['}']]
            + spec_deps_lines_from(pkgs, j + 1)
    }
}

/// The dependencies the generated blocks stand for, from `j` on.
pub open spec fn spec_dep_models_from(pkgs: Seq<PackageModel>, j: int) -> Seq<
    crate::pkg::DependencyModel,
>
    decreases pkgs.len() - j,
{
    if j >= pkgs.len() {
        seq![]
    } else {
        seq![
            (crate::pkg::DependencyModel { name: pkgs[j].name, version_mask: pkgs[j].version }),
        ] + spec_dep_models_from(pkgs, j + 1)
    }
}

/// The depends blocks accumulate the same text whether they are built up
/// from the front or appended at the back.
proof fn lemma_meta_depends_flat(pkgs: Seq<PackageModel>, k: int)
    requires
        0 <= k <= pkgs.len(),
    ensures
        spec_meta_depends(pkgs, k) + spec_deps_text_from(pkgs, k) == spec_deps_text_from(pkgs, 0),
    decreases k,
{
    if k == 0 {
        assert(spec_meta_depends(pkgs, 0) + spec_deps_text_from(pkgs, 0) =~= spec_deps_text_from(
            pkgs,
            0,
        ));
    } else {
        lemma_meta_depends_flat(pkgs, k - 1);
        assert(spec_meta_depends(pkgs, k) + spec_deps_text_from(pkgs, k) =~= spec_meta_depends(
            pkgs,
            k - 1,
        ) + (spec_depends_block(pkgs[k - 1]) + spec_deps_text_from(pkgs, k)));
        assert(spec_depends_block(pkgs[k - 1]) + spec_deps_text_from(pkgs, k)
            =~= spec_deps_text_from(pkgs, k - 1));
    }
}

/// One generated block is exactly its three lines glued with line feeds.
proof fn lemma_block_decomposes(p: PackageModel)
    ensures
        spec_depends_block(p) =~= spec_dep_line(p) + seq!['\n'] + spec_dep_version_line(p)
            + seq!['\n'] + seq!['}'] + seq!['\n'],
{
    reveal_strlit("depends \"");
    reveal_strlit("\" {\n    version \"");
    reveal_strlit("\"\n}\n");
    reveal_strlit("depends");
    reveal_strlit("version");
}

/// No character of a generated node line is a line feed.
proof fn lemma_dep_line_no_newline(p: PackageModel)
    requires
        crate::doc::spec_is_ident(p.name),
        crate::doc::spec_is_ident(p.version),
    ensures
        forall|i: int| 0 <= i < spec_dep_line(p).len() ==> spec_dep_line(p)[i] != '\n',
        forall|i: int|
            0 <= i < spec_dep_version_line(p).len() ==> spec_dep_version_line(p)[i] != '\n',
{
    reveal_strlit("depends");
    reveal_strlit("version");
    assert forall|i: int| 0 <= i < spec_dep_line(p).len() implies spec_dep_line(p)[i] != '\n' by {
        let l = spec_dep_line(p);
        if 7 + 2 <= i < 7 + 2 + p.name.len() {
            assert(l[i] == p.name[i - 9]);
            assert(crate::doc::spec_ident_char(p.name[i - 9]));
        }
    }
    assert forall|i: int| 0 <= i < spec_dep_version_line(p).len() implies spec_dep_version_line(
        p,
    )[i] != '\n' by {
        let l = spec_dep_version_line(p);
        if 4 + 7 + 2 <= i < 4 + 7 + 2 + p.version.len() {
            assert(l[i] == p.version[i - 13]);
            assert(crate::doc::spec_ident_char(p.version[i - 13]));
        }
    }
}

/// The generated blocks split into exactly their lines.
proof fn lemma_deps_lines(pkgs: Seq<PackageModel>, j: int)
    requires
        0 <= j <= pkgs.len(),
        forall|k: int|
            0 <= k < pkgs.len() ==> crate::doc::spec_is_ident(#[trigger] pkgs[k].name)
                && crate::doc::spec_is_ident(pkgs[k].version),
    ensures
        crate::doc::spec_split_lines_rest(spec_deps_text_from(pkgs, j), Seq::empty())
            == spec_deps_lines_from(pkgs, j),
    decreases pkgs.len() - j,
{
    if j >= pkgs.len() {
        assert(crate::doc::spec_split_lines_rest(Seq::empty(), Seq::empty())
            =~= Seq::<Seq<char>>::empty());
        assert(spec_deps_lines_from(pkgs, j) =~= Seq::<Seq<char>>::empty());
    } else {
        let p = pkgs[j];
        let rest_text = spec_deps_text_from(pkgs, j + 1);
        lemma_block_decomposes(p);
        lemma_dep_line_no_newline(p);
        let t1 = seq!['\n'] + (spec_dep_version_line(p) + (seq!['\n'] + (seq!['}'] + (seq!['\n']
            + rest_text))));
        assert(spec_deps_text_from(pkgs, j) =~= spec_dep_line(p) + t1);
        crate::doc::lemma_lines_skip(spec_dep_line(p), t1, Seq::empty());
        assert(Seq::<char>::empty() + spec_dep_line(p) =~= spec_dep_line(p));
        let t2 = spec_dep_version_line(p) + (seq!['\n'] + (seq!['}'] + (seq!['\n'] + rest_text)));
        crate::doc::lemma_lines_newline(t2, spec_dep_line(p));
        let t3 = seq!['\n'] + (seq!['}'] + (seq!['\n'] + rest_text));
        crate::doc::lemma_lines_skip(spec_dep_version_line(p), t3, Seq::empty());
        assert(Seq::<char>::empty() + spec_dep_version_line(p) =~= spec_dep_version_line(p));
        let t4 = seq!['}'] + (seq!['\n'] + rest_text);
        crate::doc::lemma_lines_newline(t4, spec_dep_version_line(p));
        assert(forall|i: int| 0 <= i < seq!['}'].len() ==> seq!['}'][i] != '\n');
        crate::doc::lemma_lines_skip(seq!['}'], seq!['\n'] + rest_text, Seq::empty());
        assert(Seq::<char>::empty() + seq!['}'] =~= seq!['}']);
        crate::doc::lemma_lines_newline(rest_text, seq!['}']);
        lemma_deps_lines(pkgs, j + 1);
        assert(crate::doc::spec_split_lines_rest(spec_deps_text_from(pkgs, j), Seq::empty())
            =~= seq![spec_dep_line(p), spec_dep_version_line(p), seq!['}']]
            + spec_deps_lines_from(pkgs, j + 1));
    }
}

/// Folding the manifest reader over the generated blocks collects
/// exactly the pinned dependencies and comes back to the top level.
proof fn lemma_fold_blocks(
    lines: Seq<Seq<char>>,
    i: int,
    pkgs: Seq<PackageModel>,
    j: int,
    st: crate::pkg::MStateModel,
)
    requires
        0 <= j <= pkgs.len(),
        0 <= i <= lines.len(),
        lines.len() - i == 3 * (pkgs.len() - j),
        lines.subrange(i, lines.len() as int) == spec_deps_lines_from(pkgs, j),
        st.ctx == crate::pkg::MCtxModel::Top,
        forall|k: int|
            0 <= k < pkgs.len() ==> crate::doc::spec_is_ident(#[trigger] pkgs[k].name)
                && crate::doc::spec_is_ident(pkgs[k].version),
    ensures
        crate::pkg::spec_mfold(lines, i, st) == Some(
            crate::pkg::MStateModel {
                depends: st.depends + spec_dep_models_from(pkgs, j),
                ..st
            },
        ),
    decreases pkgs.len() - j,
{
    reveal_strlit("depends");
    reveal_strlit("version");
    reveal_strlit("name");
    if j >= pkgs.len() {
        assert(i == lines.len());
        assert(st.depends + spec_dep_models_from(pkgs, j) =~= st.depends);
        assert((crate::pkg::MStateModel { depends: st.depends, ..st }) == st);
    } else {
        let p = pkgs[j];
        let tail = lines.subrange(i, lines.len() as int);
        assert(tail[0] == spec_dep_line(p));
        assert(tail[1] == spec_dep_version_line(p));
        assert(tail[2] == seq!['}']);
        assert(lines[i] == spec_dep_line(p));
        assert(lines[i + 1] == spec_dep_version_line(p));
        assert(lines[i + 2] == seq!['}']);
        assert forall|t: int| 0 <= t < p.name.len() implies #[trigger] p.name[t] != '"'
            && !crate::doc::spec_space(p.name[t]) && p.name[t] != '\n' by {
            assert(crate::doc::spec_ident_char(p.name[t]));
        }
        assert forall|t: int| 0 <= t < p.version.len() implies #[trigger] p.version[t] != '"'
            && !crate::doc::spec_space(p.version[t]) && p.version[t] != '\n' by {
            assert(crate::doc::spec_ident_char(p.version[t]));
        }
        assert(crate::doc::spec_is_ident("depends"@)) by {
            assert forall|t: int| 0 <= t < "depends"@.len() implies crate::doc::spec_ident_char(
                #[trigger] "depends"@[t],
            ) by {}
        }
        assert(crate::doc::spec_is_ident("version"@)) by {
            assert forall|t: int| 0 <= t < "version"@.len() implies crate::doc::spec_ident_char(
                #[trigger] "version"@[t],
            ) by {}
        }
        crate::doc::lemma_line_node(0, "depends"@, p.name, true);
        assert(crate::doc::spec_line_of(lines[i]) == Some(
            Some(
                crate::doc::LineModel::Node {
                    name: "depends"@,
                    args: seq![p.name],
                    props: Seq::empty(),
                    opens: true,
                },
            ),
        ));
        crate::doc::lemma_line_node(4, "version"@, p.version, false);
        assert(crate::doc::spec_line_of(lines[i + 1]) == Some(
            Some(
                crate::doc::LineModel::Node {
                    name: "version"@,
                    args: seq![p.version],
                    props: Seq::empty(),
                    opens: false,
                },
            ),
        ));
        crate::doc::lemma_line_close();
        assert(crate::doc::spec_line_of(lines[i + 2]) == Some(
            Some(crate::doc::LineModel::Close),
        ));
        // three steps: open the depends block, read the mask, close it
        let st1 = crate::pkg::MStateModel {
            ctx: crate::pkg::MCtxModel::InDep { dname: p.name, mask: Seq::empty() },
            ..st
        };
        let st2 = crate::pkg::MStateModel {
            ctx: crate::pkg::MCtxModel::InDep { dname: p.name, mask: p.version },
            ..st
        };
        let st3 = crate::pkg::MStateModel {
            depends: st.depends.push(
                (crate::pkg::DependencyModel { name: p.name, version_mask: p.version }),
            ),
            ctx: crate::pkg::MCtxModel::Top,
            ..st
        };
        assert(crate::pkg::spec_mstep(
            st,
            crate::doc::LineModel::Node {
                name: "depends"@,
                args: seq![p.name],
                props: Seq::empty(),
                opens: true,
            },
        ) == Some(st1));
        assert(crate::pkg::spec_mstep(
            st1,
            crate::doc::LineModel::Node {
                name: "version"@,
                args: seq![p.version],
                props: Seq::empty(),
                opens: false,
            },
        ) == Some(st2));
        assert(crate::pkg::spec_mstep(st2, crate::doc::LineModel::Close) == Some(st3));
        assert(crate::pkg::spec_mfold(lines, i, st) == crate::pkg::spec_mfold(lines, i + 1, st1));
        assert(crate::pkg::spec_mfold(lines, i + 1, st1) == crate::pkg::spec_mfold(
            lines,
            i + 2,
            st2,
        ));
        assert(crate::pkg::spec_mfold(lines, i + 2, st2) == crate::pkg::spec_mfold(
            lines,
            i + 3,
            st3,
        ));
        assert(lines.subrange(i + 3, lines.len() as int) =~= spec_deps_lines_from(pkgs, j + 1))
            by {
            lemma_deps_lines_len(pkgs, j + 1);
            assert forall|t: int| 0 <= t < lines.len() - i - 3 implies #[trigger] lines.subrange(
                i + 3,
                lines.len() as int,
            )[t] == spec_deps_lines_from(pkgs, j + 1)[t] by {
                assert(lines.subrange(i + 3, lines.len() as int)[t] == lines[i + 3 + t]);
                assert(lines[i + 3 + t] == tail[t + 3]);
                assert(tail[t + 3] == spec_deps_lines_from(pkgs, j)[t + 3]);
                assert(spec_deps_lines_from(pkgs, j)[t + 3] == spec_deps_lines_from(
                    pkgs,
                    j + 1,
                )[t]);
            }
        }
        assert forall|k: int| 0 <= k < pkgs.len() implies crate::doc::spec_is_ident(
            #[trigger] pkgs[k].name,
        ) && crate::doc::spec_is_ident(pkgs[k].version) by {}
        lemma_fold_blocks(lines, i + 3, pkgs, j + 1, st3);
        assert(st.depends.push(
            (crate::pkg::DependencyModel { name: p.name, version_mask: p.version }),
        ) + spec_dep_models_from(pkgs, j + 1) =~= st.depends + spec_dep_models_from(pkgs, j));
    }
}

/// Parsing the rendered meta-manifest gives back exactly the synthesized
/// configuration: the meta-package's name, version `1.0.0`, and one
/// dependency per requested package pinned to its exact version — for
/// every package list whose names and versions are plain words of the
/// grammar.
pub proof fn lemma_meta_manifest_parses_back(name: Seq<char>, pkgs: Seq<PackageModel>)
    requires
        crate::doc::spec_is_ident(name),
        forall|k: int|
            0 <= k < pkgs.len() ==> crate::doc::spec_is_ident(#[trigger] pkgs[k].name)
                && crate::doc::spec_is_ident(pkgs[k].version),
    ensures
        crate::pkg::spec_manifest(spec_meta_manifest(name, pkgs)) == Some(
            crate::pkg::PackageConfigModel {
                name: name,
                version: "1.0.0"@,
                depends: spec_dep_models_from(pkgs, 0),
            },
        ),
{
    reveal_strlit("name \"");
    reveal_strlit("\"\nversion \"1.0.0\"\n");
    reveal_strlit("name");
    reveal_strlit("version");
    reveal_strlit("depends");
    reveal_strlit("1.0.0");
    let text = spec_meta_manifest(name, pkgs);
    let l_name = Seq::new(0nat, |i: int| ' ') + "name"@ + seq![' ', '"'] + name + seq!['"'];
    let l_version = Seq::new(0nat, |i: int| ' ') + "version"@ + seq![' ', '"'] + "1.0.0"@
        + seq!['"'];
    let deps_text = spec_deps_text_from(pkgs, 0);
    lemma_meta_depends_flat(pkgs, pkgs.len() as int);
    assert(spec_deps_text_from(pkgs, pkgs.len() as int) =~= Seq::<char>::empty());
    assert(spec_meta_depends(pkgs, pkgs.len() as int) =~= deps_text);
    let t2 = l_version + (seq!['\n'] + deps_text);
    let t1 = seq!['\n'] + t2;
    assert(text =~= l_name + t1);
    assert forall|i: int| 0 <= i < l_name.len() implies l_name[i] != '\n' by {
        if 6 <= i < 6 + name.len() {
            assert(l_name[i] == name[i - 6]);
            assert(crate::doc::spec_ident_char(name[i - 6]));
        }
    }
    assert forall|i: int| 0 <= i < l_version.len() implies l_version[i] != '\n' by {}
    crate::doc::lemma_lines_skip(l_name, t1, Seq::empty());
    assert(Seq::<char>::empty() + l_name =~= l_name);
    crate::doc::lemma_lines_newline(t2, l_name);
    crate::doc::lemma_lines_skip(l_version, seq!['\n'] + deps_text, Seq::empty());
    assert(Seq::<char>::empty() + l_version =~= l_version);
    crate::doc::lemma_lines_newline(deps_text, l_version);
    assert forall|k: int| 0 <= k < pkgs.len() implies crate::doc::spec_is_ident(
        #[trigger] pkgs[k].name,
    ) && crate::doc::spec_is_ident(pkgs[k].version) by {}
    lemma_deps_lines(pkgs, 0);
    let lines = crate::doc::spec_split_lines(text);
    assert(lines =~= seq![l_name, l_version] + spec_deps_lines_from(pkgs, 0));

    // the two header lines
    assert(crate::doc::spec_is_ident("name"@)) by {
        assert forall|t: int| 0 <= t < "name"@.len() implies crate::doc::spec_ident_char(
            #[trigger] "name"@[t],
        ) by {}
    }
    assert(crate::doc::spec_is_ident("version"@)) by {
        assert forall|t: int| 0 <= t < "version"@.len() implies crate::doc::spec_ident_char(
            #[trigger] "version"@[t],
        ) by {}
    }
    assert forall|t: int| 0 <= t < name.len() implies #[trigger] name[t] != '"'
        && !crate::doc::spec_space(name[t]) && name[t] != '\n' by {
        assert(crate::doc::spec_ident_char(name[t]));
    }
    assert forall|t: int| 0 <= t < "1.0.0"@.len() implies #[trigger] "1.0.0"@[t] != '"'
        && !crate::doc::spec_space("1.0.0"@[t]) && "1.0.0"@[t] != '\n' by {}
    crate::doc::lemma_line_node(0, "name"@, name, false);
    crate::doc::lemma_line_node(0, "version"@, "1.0.0"@, false);
    assert(lines[0] == l_name);
    assert(lines[1] == l_version);
    let init = crate::pkg::spec_manifest_init();
    assert("name"@ != "depends"@) by {
        assert("name"@.len() == 4 && "depends"@.len() == 7);
    }
    assert("version"@ != "depends"@) by {
        assert("version"@[0] == 'v' && "depends"@[0] == 'd');
    }
    assert("version"@ != "name"@) by {
        assert("version"@.len() == 7 && "name"@.len() == 4);
    }
    let st1 = crate::pkg::MStateModel {
        name: crate::pkg::FieldModel::Val(name),
        version: crate::pkg::FieldModel::Unset,
        depends: Seq::empty(),
        ctx: crate::pkg::MCtxModel::Top,
    };
    let st2 = crate::pkg::MStateModel {
        name: crate::pkg::FieldModel::Val(name),
        version: crate::pkg::FieldModel::Val("1.0.0"@),
        depends: Seq::empty(),
        ctx: crate::pkg::MCtxModel::Top,
    };
    assert(crate::pkg::spec_mstep(
        init,
        crate::doc::LineModel::Node {
            name: "name"@,
            args: seq![name],
            props: Seq::empty(),
            opens: false,
        },
    ) == Some(st1));
    assert(crate::pkg::spec_mstep(
        st1,
        crate::doc::LineModel::Node {
            name: "version"@,
            args: seq!["1.0.0"@],
            props: Seq::empty(),
            opens: false,
        },
    ) == Some(st2));
    lemma_deps_lines_len(pkgs, 0);
    assert(lines.subrange(2, lines.len() as int) =~= spec_deps_lines_from(pkgs, 0));
    assert(crate::pkg::spec_mfold(lines, 0, init) == crate::pkg::spec_mfold(lines, 1, st1));
    assert(crate::pkg::spec_mfold(lines, 1, st1) == crate::pkg::spec_mfold(lines, 2, st2));
    lemma_fold_blocks(lines, 2, pkgs, 0, st2);
    assert(st2.depends + spec_dep_models_from(pkgs, 0) =~= spec_dep_models_from(pkgs, 0));
    assert(crate::pkg::spec_mfold(lines, 2, st2) == Some(
        crate::pkg::MStateModel {
            name: crate::pkg::FieldModel::Val(name),
            version: crate::pkg::FieldModel::Val("1.0.0"@),
            depends: spec_dep_models_from(pkgs, 0),
            ctx: crate::pkg::MCtxModel::Top,
        },
    ));
}

/// The generated blocks make three lines per package.
proof fn lemma_deps_lines_len(pkgs: Seq<PackageModel>, j: int)
    requires
        0 <= j <= pkgs.len(),
    ensures
        spec_deps_lines_from(pkgs, j).len() == 3 * (pkgs.len() - j),
    decreases pkgs.len() - j,
{
    if j < pkgs.len() {
        lemma_deps_lines_len(pkgs, j + 1);
    }
}

/// Build the synthetic meta-package's parsed form directly: version
/// `1.0.0` and one dependency per requested package, each pinned by its
/// exact installed version as the mask.
pub fn meta_package_config(name: &str, pkgs: &Vec<Package>) -> (r: crate::pkg::PackageConfig)
    ensures
        r@.name == name@,
        r@.version == "1.0.0"@,
        r@.depends.len() == pkgs@.len(),
        forall|i: int|
            0 <= i < pkgs@.len() ==> #[trigger] r@.depends[i] == (crate::pkg::DependencyModel {
                name: pkgs.deep_view()[i].name,
                version_mask: pkgs.deep_view()[i].version,
            }),
{
    let ghost dv = pkgs.deep_view();
    let mut depends: Vec<crate::pkg::Dependency> = Vec::new();
    let mut i: usize = 0;
    while i < pkgs.len()
        invariant
            i <= pkgs@.len(),
            dv == pkgs.deep_view(),
            depends@.len() == i,
            forall|k: int|
                0 <= k < i ==> #[trigger] depends.deep_view()[k] == (crate::pkg::DependencyModel {
                    name: dv[k].name,
                    version_mask: dv[k].version,
                }),
        decreases pkgs@.len() - i,
    {
        let d = crate::pkg::Dependency {
            name: pkgs[i].name.clone(),
            version_mask: pkgs[i].version.clone(),
        };
        let ghost old_depends = depends;
        depends.push(d);
        i += 1;
        proof {
            assert forall|k: int| 0 <= k < i implies #[trigger] depends.deep_view()[k]
                == (crate::pkg::DependencyModel { name: dv[k].name, version_mask: dv[k].version })
                by {
                assert(depends.deep_view()[k] == depends@[k]@);
                if k < i - 1 {
                    assert(depends@[k] == old_depends@[k]);
                    assert(old_depends.deep_view()[k] == old_depends@[k]@);
                }
            }
        }
    }
    crate::pkg::PackageConfig {
        name: name.to_owned(),
        version: String::from_str("1.0.0"),
        depends,
    }
}

/// The command a run defaults to when none is given: the (first)
/// requested package's name.
pub fn default_command(pkg_name: &str, cmd: Option<&str>) -> (r: String)
    ensures
        r@ == (match cmd {
            Some(c) => c@,
            None => pkg_name@,
        }),
{
    match cmd {
        Some(c) => c.to_owned(),
        None => pkg_name.to_owned(),
    }
}

} // verus!
