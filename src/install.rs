//! The provisioning run: a fixed sequence of tasks on the target device,
//! handed out one at a time and advanced by what performing each one gave.
//!
//! `Start → AssertPreconditions → [Cleanup] → PartitionDisk → ResolvePartitions
//! → WipePartitions → FormatBoot → FormatRoot → Done`. The first failure ends
//! the run; nothing already done is rolled back. A run that failed part way
//! is recovered by running again with `clean_first` set.
use vstd::prelude::*;

use crate::device::{dev_path, Device};
use crate::error::StorageError;
use crate::filesystem::{
    argv, argvs, cleanup_argvs, dependency_argv, init_argvs, words, Filesystem,
};
use crate::topology::{
    described_by, dense_indices, gapless, owned_entries, Partition, PartitionEntry,
};

verus! {

/// How many times the partition table is read after partitioning before the
/// run gives up waiting for the three partitions to appear.
pub const MAX_TOPOLOGY_READS: usize = 10;

/// What to install onto, and how.
#[derive(Debug)]
pub struct Plan {
    pub device: Device,
    /// The root partition's filesystem.
    pub filesystem: Filesystem,
    /// Tear down what an earlier, failed run left behind before partitioning.
    pub clean_first: bool,
}

/// The step of the run that a task belongs to.
#[derive(Clone, Copy, Debug, PartialEq, Eq, Structural)]
pub enum Stage {
    /// Check that the system is booted in EFI mode; no command.
    Preconditions,
    /// Run the command that shows the filesystem's kernel support is there.
    Dependencies,
    /// Run one of the filesystem's teardown commands.
    Cleanup,
    /// Write the partition table.
    PartitionDisk,
    /// Read the device's partitions; no command.
    ResolvePartitions,
    /// Erase old signatures from a partition.
    WipePartitions,
    /// Create the boot partition's filesystem.
    FormatBoot,
    /// Create the root partition's filesystem.
    FormatRoot,
}

/// One thing for the caller to do.
#[derive(Debug)]
pub struct Task {
    pub stage: Stage,
    /// The command line to run; empty for the stages that run none.
    pub command: Vec<String>,
    /// The device or partition the task acts on; empty when it acts on none.
    pub target: String,
}

/// What performing the current task gave.
#[derive(Debug)]
pub enum Outcome {
    /// The check passed or the command exited successfully.
    Succeeded,
    /// The command ran to completion but exited unsuccessfully.
    ExitedNonZero,
    /// The check failed, or the command could not be started.
    Failed,
    /// The block entries read for `ResolvePartitions`.
    Entries(Vec<PartitionEntry>),
}

pub open spec fn task_view(t: Task) -> (Stage, Seq<Seq<char>>, Seq<char>) {
    (t.stage, argv(t.command), t.target@)
}

pub open spec fn tasks_view(ts: Seq<Task>) -> Seq<(Stage, Seq<Seq<char>>, Seq<char>)> {
    ts.map_values(|t: Task| task_view(t))
}

/// Each command of `cs` as a task of `stage` on `target`.
pub open spec fn runs(stage: Stage, cs: Seq<Seq<Seq<char>>>, target: Seq<char>) -> Seq<
    (Stage, Seq<Seq<char>>, Seq<char>),
> {
    cs.map_values(|c: Seq<Seq<char>>| (stage, c, target))
}

/// The GPT layout: an EFI system partition from 1MiB to 2GiB with the boot
/// flag, a small persistent partition from 2GiB to 3GiB, and the root
/// partition from 3GiB to the end of the device.
pub open spec fn partition_argv(dev: Seq<char>) -> Seq<Seq<char>> {
    seq![
        "parted"@, "--script"@, dev, "--"@,
        "mklabel"@, "gpt"@,
        "mkpart"@, "ESP"@, "fat32"@, "1MiB"@, "2GiB"@,
        "set"@, "1"@, "boot"@, "on"@,
        "mkpart"@, "primary"@, "ext4"@, "2GiB"@, "3GiB"@,
        "mkpart"@, "primary"@, "ext4"@, "3GiB"@, "100%"@,
    ]
}

/// Erases every filesystem and partition-table signature on `dev`.
pub open spec fn wipe_argv(dev: Seq<char>) -> Seq<Seq<char>> {
    seq!["wipefs"@, "-a"@, dev]
}

/// The tasks up to and including reading the new partitions.
pub open spec fn opening_tasks(fs: Filesystem, clean_first: bool, dev: Seq<char>) -> Seq<
    (Stage, Seq<Seq<char>>, Seq<char>),
> {
    seq![(Stage::Preconditions, Seq::<Seq<char>>::empty(), Seq::<char>::empty())] + match dependency_argv(fs) {
        Some(a) => seq![(Stage::Dependencies, a, Seq::<char>::empty())],
        None => Seq::empty(),
    } + if clean_first {
        runs(Stage::Cleanup, cleanup_argvs(fs), Seq::<char>::empty())
    } else {
        Seq::empty()
    } + seq![
        (Stage::PartitionDisk, partition_argv(dev), dev),
        (Stage::ResolvePartitions, Seq::<Seq<char>>::empty(), dev),
    ]
}

/// The tasks after the partitions are known: wipe boot and root, then format
/// boot as FAT32 and root with the plan's filesystem.
pub open spec fn closing_tasks(fs: Filesystem, boot: Seq<char>, root: Seq<char>) -> Seq<
    (Stage, Seq<Seq<char>>, Seq<char>),
> {
    seq![
        (Stage::WipePartitions, wipe_argv(boot), boot),
        (Stage::WipePartitions, wipe_argv(root), root),
    ] + runs(Stage::FormatBoot, init_argvs(Filesystem::Fat32, boot), boot) + runs(
        Stage::FormatRoot,
        init_argvs(fs, root),
        root,
    )
}

/// Whether `outcome` lets a task of `stage` count as done. A teardown command
/// that ran but exited unsuccessfully still counts: what it would undo (a
/// mount, a pool) need not exist after a failed run.
pub open spec fn completes(stage: Stage, outcome: Outcome) -> bool {
    outcome is Succeeded || (stage == Stage::Cleanup && outcome is ExitedNonZero)
}

/// The error that a failed task ends the run with.
pub open spec fn failure_of(t: (Stage, Seq<Seq<char>>, Seq<char>), e: StorageError) -> bool {
    match t.0 {
        Stage::Preconditions => e is Precondition,
        Stage::Dependencies => e is Dependency,
        Stage::ResolvePartitions => e is Resolution,
        _ => e matches StorageError::Command { command, target } && argv(command) == t.1
            && target@ == t.2,
    }
}

/// A run in progress.
pub struct Installer {
    pub plan: Plan,
    pub tasks: Vec<Task>,
    /// Position of the task in hand.
    pub cursor: usize,
    /// The run has ended, in success or failure.
    pub finished: bool,
    /// How often the partition table has been read.
    pub reads: usize,
    /// The three partitions, once they are known; empty before.
    pub partitions: Vec<Partition>,
}

impl Installer {
    /// The tasks of this run up to and including reading the new partitions.
    pub open spec fn opening(&self) -> Seq<(Stage, Seq<Seq<char>>, Seq<char>)> {
        opening_tasks(self.plan.filesystem, self.plan.clean_first, dev_path(self.plan.device.name@))
    }

    /// The task in hand exists; before the partitions are known the tasks are
    /// the opening ones, and after, the opening ones followed by the closing
    /// ones on the first and third of the three partitions.
    pub open spec fn wf(&self) -> bool {
        &&& self.cursor < self.tasks@.len()
        &&& self.reads <= MAX_TOPOLOGY_READS
        &&& !self.finished && self.partitions@.len() == 0 ==> self.reads < MAX_TOPOLOGY_READS
        &&& if self.partitions@.len() == 0 {
            &&& tasks_view(self.tasks@) == self.opening()
            &&& self.cursor < self.opening().len()
        } else {
            &&& self.partitions@.len() == 3
            &&& gapless(self.partitions@)
            &&& tasks_view(self.tasks@) == self.opening() + closing_tasks(
                self.plan.filesystem,
                self.partitions@[0].path@,
                self.partitions@[2].path@,
            )
            &&& self.cursor >= self.opening().len()
        }
    }
}

fn copy_command(c: &Vec<String>) -> (r: Vec<String>)
    ensures
        argv(r) == argv(*c),
{
    let mut r: Vec<String> = Vec::new();
    let mut i: usize = 0;
    while i < c.len()
        invariant
            i <= c@.len(),
            argv(r) == argv(*c).subrange(0, i as int),
        decreases c@.len() - i,
    {
        let ghost before = r@;
        r.push(c[i].clone());
        assert(argv(r) =~= before.map_values(|w: String| w@).push(c@[i as int]@));
        assert(argv(*c).subrange(0, i as int + 1) =~= argv(*c).subrange(0, i as int).push(
            c@[i as int]@,
        ));
        i = i + 1;
    }
    assert(argv(*c).subrange(0, i as int) =~= argv(*c));
    r
}

fn push_task(ts: &mut Vec<Task>, stage: Stage, command: Vec<String>, target: String)
    ensures
        tasks_view(final(ts)@) == tasks_view(old(ts)@).push((stage, argv(command), target@)),
{
    let ghost a = argv(command);
    let ghost t = target@;
    ts.push(Task { stage, command, target });
    assert(tasks_view(ts@) =~= tasks_view(old(ts)@).push((stage, a, t)));
}

fn push_runs(ts: &mut Vec<Task>, stage: Stage, cs: &Vec<Vec<String>>, target: &String)
    ensures
        tasks_view(final(ts)@) == tasks_view(old(ts)@) + runs(stage, argvs(*cs), target@),
{
    let mut i: usize = 0;
    while i < cs.len()
        invariant
            i <= cs@.len(),
            tasks_view(ts@) == tasks_view(old(ts)@) + runs(stage, argvs(*cs), target@).subrange(
                0,
                i as int,
            ),
        decreases cs@.len() - i,
    {
        push_task(ts, stage, copy_command(&cs[i]), target.clone());
        assert(runs(stage, argvs(*cs), target@).subrange(0, i as int + 1) =~= runs(
            stage,
            argvs(*cs),
            target@,
        ).subrange(0, i as int).push((stage, argv(cs@[i as int]), target@)));
        i = i + 1;
    }
    assert(runs(stage, argvs(*cs), target@).subrange(0, i as int) =~= runs(
        stage,
        argvs(*cs),
        target@,
    ));
}

/// The command that writes the fixed partition table onto `device`.
pub fn partition(device: &Device) -> (r: Vec<String>)
    ensures
        argv(r) == partition_argv(dev_path(device.name@)),
{
    let node = device.dev();
    let dev = node.as_str();
    let r = words(
        &[
            "parted", "--script", dev, "--",
            "mklabel", "gpt",
            "mkpart", "ESP", "fat32", "1MiB", "2GiB",
            "set", "1", "boot", "on",
            "mkpart", "primary", "ext4", "2GiB", "3GiB",
            "mkpart", "primary", "ext4", "3GiB", "100%",
        ],
    );
    assert(argv(r) =~= partition_argv(dev@));
    r
}

/// The command that erases old signatures from `partition`.
pub fn wipe(partition: &Partition) -> (r: Vec<String>)
    ensures
        argv(r) == wipe_argv(partition.path@),
{
    let dev = partition.path.as_str();
    let r = words(&["wipefs", "-a", dev]);
    assert(argv(r) =~= wipe_argv(dev@));
    r
}

/// The error that task `t` ends the run with when it fails.
fn failure(t: &Task) -> (e: StorageError)
    ensures
        failure_of(task_view(*t), e),
{
    match t.stage {
        Stage::Preconditions => StorageError::Precondition,
        Stage::Dependencies => StorageError::Dependency,
        Stage::ResolvePartitions => StorageError::Resolution,
        _ => StorageError::Command { command: copy_command(&t.command), target: t.target.clone() },
    }
}

proof fn lemma_single_resolve(fs: Filesystem, clean_first: bool, dev: Seq<char>, boot: Seq<char>, root: Seq<char>)
    ensures
        forall|k: int|
            0 <= k < opening_tasks(fs, clean_first, dev).len() - 1 ==> (#[trigger] opening_tasks(
                fs,
                clean_first,
                dev,
            )[k]).0 != Stage::ResolvePartitions,
        opening_tasks(fs, clean_first, dev).last().0 == Stage::ResolvePartitions,
        forall|k: int|
            0 <= k < closing_tasks(fs, boot, root).len() ==> (#[trigger] closing_tasks(
                fs,
                boot,
                root,
            )[k]).0 != Stage::ResolvePartitions,
{
    let a = seq![(Stage::Preconditions, Seq::<Seq<char>>::empty(), Seq::<char>::empty())];
    let b: Seq<(Stage, Seq<Seq<char>>, Seq<char>)> = match dependency_argv(fs) {
        Some(x) => seq![(Stage::Dependencies, x, Seq::<char>::empty())],
        None => Seq::empty(),
    };
    let c: Seq<(Stage, Seq<Seq<char>>, Seq<char>)> = if clean_first {
        runs(Stage::Cleanup, cleanup_argvs(fs), Seq::<char>::empty())
    } else {
        Seq::empty()
    };
    let d = seq![
        (Stage::PartitionDisk, partition_argv(dev), dev),
        (Stage::ResolvePartitions, Seq::<Seq<char>>::empty(), dev),
    ];
    let o = opening_tasks(fs, clean_first, dev);
    assert(o == a + b + c + d);
    assert forall|k: int| 0 <= k < o.len() - 1 implies (#[trigger] o[k]).0 != Stage::ResolvePartitions by {
        if k < a.len() {
            assert(o[k] == a[k]);
        } else if k < a.len() + b.len() {
            assert(o[k] == b[k - a.len()]);
        } else if k < a.len() + b.len() + c.len() {
            assert(o[k] == c[k - a.len() - b.len()]);
        } else {
            assert(o[k] == d[k - a.len() - b.len() - c.len()]);
        }
    }
    assert(o.last() == d.last());
    let w = seq![
        (Stage::WipePartitions, wipe_argv(boot), boot),
        (Stage::WipePartitions, wipe_argv(root), root),
    ];
    let f = runs(Stage::FormatBoot, init_argvs(Filesystem::Fat32, boot), boot);
    let g = runs(Stage::FormatRoot, init_argvs(fs, root), root);
    let cl = closing_tasks(fs, boot, root);
    assert forall|k: int| 0 <= k < cl.len() implies (#[trigger] cl[k]).0 != Stage::ResolvePartitions by {
        if k < w.len() {
            assert(cl[k] == w[k]);
        } else if k < w.len() + f.len() {
            assert(cl[k] == f[k - w.len()]);
        } else {
            assert(cl[k] == g[k - w.len() - f.len()]);
        }
    }
}

impl Installer {
    /// A run of `plan` that has not started: its first task is the EFI check.
    pub fn new(plan: Plan) -> (r: Installer)
        ensures
            r.wf(),
            r.plan == plan,
            r.cursor == 0,
            !r.finished,
            r.reads == 0,
            r.partitions@.len() == 0,
            tasks_view(r.tasks@) == opening_tasks(
                plan.filesystem,
                plan.clean_first,
                dev_path(plan.device.name@),
            ),
    {
        let dev = plan.device.dev();
        let mut tasks: Vec<Task> = Vec::new();
        let none: Vec<String> = Vec::new();
        assert(argv(none) =~= Seq::<Seq<char>>::empty());
        push_task(&mut tasks, Stage::Preconditions, none, String::new());
        let ghost a = tasks_view(tasks@);
        match plan.filesystem.dependency_command() {
            Some(c) => push_task(&mut tasks, Stage::Dependencies, c, String::new()),
            None => {},
        }
        let ghost b = tasks_view(tasks@);
        if plan.clean_first {
            let cs = plan.filesystem.cleanup_commands();
            push_runs(&mut tasks, Stage::Cleanup, &cs, &String::new());
        }
        let ghost c = tasks_view(tasks@);
        push_task(&mut tasks, Stage::PartitionDisk, partition(&plan.device), dev.clone());
        let none: Vec<String> = Vec::new();
        assert(argv(none) =~= Seq::<Seq<char>>::empty());
        push_task(&mut tasks, Stage::ResolvePartitions, none, dev);
        proof {
            let fs = plan.filesystem;
            let e = Seq::<char>::empty();
            assert(a =~= seq![(Stage::Preconditions, Seq::<Seq<char>>::empty(), e)]);
            let db: Seq<(Stage, Seq<Seq<char>>, Seq<char>)> = match dependency_argv(fs) {
                Some(x) => seq![(Stage::Dependencies, x, e)],
                None => Seq::empty(),
            };
            assert(b =~= a + db);
            let cb: Seq<(Stage, Seq<Seq<char>>, Seq<char>)> = if plan.clean_first {
                runs(Stage::Cleanup, cleanup_argvs(fs), e)
            } else {
                Seq::empty()
            };
            assert(c =~= a + db + cb);
            assert(tasks_view(tasks@) =~= opening_tasks(
                fs,
                plan.clean_first,
                dev_path(plan.device.name@),
            ));
        }
        Installer { plan, tasks, cursor: 0, finished: false, reads: 0, partitions: Vec::new() }
    }

    /// The task to perform next; `None` once the run has ended.
    pub fn current(&self) -> (r: Option<&Task>)
        requires
            self.wf(),
        ensures
            match r {
                Some(t) => !self.finished && *t == self.tasks@[self.cursor as int],
                None => self.finished,
            },
    {
        if self.finished {
            None
        } else {
            Some(&self.tasks[self.cursor])
        }
    }

    /// Advances the run by what performing the current task gave. Returns
    /// `Some` with the run's result once it has ended.
    ///
    /// A task that fails ends the run with its error. Success moves to the
    /// next task, and after the last one ends the run with `Ok`. A teardown
    /// command of `Cleanup` that ran but exited unsuccessfully moves on as
    /// success does; only one that could not be started ends the run. Reading the
    /// partitions succeeds when the device shows exactly three, with indices
    /// 1, 2 and 3; the closing tasks then act on the first and third. Until
    /// then the read is repeated, up to `MAX_TOPOLOGY_READS` reads in all.
    pub fn report(&mut self, outcome: Outcome) -> (r: Option<Result<(), StorageError>>)
        requires
            old(self).wf(),
            !old(self).finished,
        ensures
            final(self).wf(),
            final(self).plan == old(self).plan,
            ({
                let t = tasks_view(old(self).tasks@)[old(self).cursor as int];
                let name = old(self).plan.device.name@;
                if t.0 == Stage::ResolvePartitions {
                    match outcome {
                        Outcome::Entries(es) => {
                            let o = owned_entries(name, es@);
                            if dense_indices(o) && o.len() == 3 {
                                &&& r is None
                                &&& !final(self).finished
                                &&& final(self).cursor == old(self).cursor + 1
                                &&& final(self).partitions@.len() == 3
                                &&& forall|k: int|
                                    0 <= k < 3 ==> described_by(
                                        name,
                                        o,
                                        (k + 1) as nat,
                                        #[trigger] final(self).partitions@[k],
                                    )
                            } else if old(self).reads + 1 < MAX_TOPOLOGY_READS {
                                &&& r is None
                                &&& !final(self).finished
                                &&& final(self).cursor == old(self).cursor
                                &&& final(self).tasks@ == old(self).tasks@
                                &&& final(self).reads == old(self).reads + 1
                            } else {
                                final(self).finished && (r matches Some(Err(e)) && e is Resolution)
                            }
                        },
                        _ => final(self).finished && (r matches Some(Err(e)) && e is Resolution),
                    }
                } else {
                    if completes(t.0, outcome) {
                        if old(self).cursor + 1 == old(self).tasks@.len() {
                            final(self).finished && r == Some(Ok::<(), StorageError>(()))
                        } else {
                            &&& r is None
                            &&& !final(self).finished
                            &&& final(self).cursor == old(self).cursor + 1
                            &&& final(self).tasks@ == old(self).tasks@
                        }
                    } else {
                        final(self).finished && (r matches Some(Err(e)) && failure_of(t, e))
                    }
                }
            }),
    {
        let ghost pre = *self;
        let ghost fs = self.plan.filesystem;
        let ghost dev = dev_path(self.plan.device.name@);
        proof {
            let boot = if self.partitions@.len() == 3 { self.partitions@[0].path@ } else { dev };
            let root = if self.partitions@.len() == 3 { self.partitions@[2].path@ } else { dev };
            lemma_single_resolve(fs, self.plan.clean_first, dev, boot, root);
            assert(tasks_view(self.tasks@)[self.cursor as int] == task_view(self.tasks@[self.cursor as int]));
        }
        let stage = self.tasks[self.cursor].stage;
        if stage != Stage::ResolvePartitions {
            let done = match outcome {
                Outcome::Succeeded => true,
                Outcome::ExitedNonZero => stage == Stage::Cleanup,
                _ => false,
            };
            if done {
                if self.cursor == self.tasks.len() - 1 {
                    self.finished = true;
                    return Some(Ok(()));
                }
                self.cursor = self.cursor + 1;
                return None;
            } else {
                let e = failure(&self.tasks[self.cursor]);
                self.finished = true;
                return Some(Err(e));
            }
        }
        proof {
            if self.partitions@.len() != 0 {
                let k = self.cursor - self.opening().len();
                let cl = closing_tasks(fs, self.partitions@[0].path@, self.partitions@[2].path@);
                let whole = self.opening() + cl;
                assert(tasks_view(self.tasks@).len() == self.tasks@.len());
                assert(whole == tasks_view(self.tasks@));
                assert(self.opening().len() <= self.cursor < whole.len());
                assert(whole[self.cursor as int] == cl[k]);
                assert(cl[k].0 != Stage::ResolvePartitions);
            }
            assert(self.partitions@.len() == 0);
            assert(self.cursor == self.opening().len() - 1);
        }
        let es = match outcome {
            Outcome::Entries(es) => es,
            _ => {
                self.finished = true;
                return Some(Err(StorageError::Resolution));
            },
        };
        self.reads = self.reads + 1;
        match self.plan.device.partitions(&es) {
            Ok(ps) => {
                if ps.len() == 3 {
                    let fat = Filesystem::Fat32;
                    push_task(&mut self.tasks, Stage::WipePartitions, wipe(&ps[0]), ps[0].path.clone());
                    push_task(&mut self.tasks, Stage::WipePartitions, wipe(&ps[2]), ps[2].path.clone());
                    let boot_cmds = fat.init_commands(&ps[0]);
                    push_runs(&mut self.tasks, Stage::FormatBoot, &boot_cmds, &ps[0].path);
                    let root_cmds = self.plan.filesystem.init_commands(&ps[2]);
                    push_runs(&mut self.tasks, Stage::FormatRoot, &root_cmds, &ps[2].path);
                    proof {
                        let boot = ps@[0].path@;
                        let root = ps@[2].path@;
                        assert(tasks_view(self.tasks@) =~= pre.opening() + closing_tasks(fs, boot, root));
                    }
                    self.partitions = ps;
                    self.cursor = self.cursor + 1;
                    return None;
                }
            },
            Err(_) => {},
        }
        if self.reads < MAX_TOPOLOGY_READS {
            None
        } else {
            self.finished = true;
            Some(Err(StorageError::Resolution))
        }
    }
}


/// A stage that changes what is on a disk or what is mounted.
pub open spec fn mutates(s: Stage) -> bool {
    !(s is Preconditions || s is Dependencies || s is ResolvePartitions)
}

/// For a filesystem with kernel dependencies, the run checks them right after
/// the EFI check, before any task that changes a disk or a mount; by `report`,
/// a failed check ends the run there with `Dependency`.
pub proof fn lemma_dependency_check_first(fs: Filesystem, clean_first: bool, dev: Seq<char>)
    requires
        dependency_argv(fs) is Some,
    ensures
        opening_tasks(fs, clean_first, dev)[0].0 == Stage::Preconditions,
        opening_tasks(fs, clean_first, dev)[1] == (
            Stage::Dependencies,
            dependency_argv(fs)->Some_0,
            Seq::<char>::empty(),
        ),
        forall|k: int|
            0 <= k <= 1 ==> !mutates((#[trigger] opening_tasks(fs, clean_first, dev)[k]).0),
{
    let o = opening_tasks(fs, clean_first, dev);
    let a = seq![(Stage::Preconditions, Seq::<Seq<char>>::empty(), Seq::<char>::empty())];
    let b = seq![(Stage::Dependencies, dependency_argv(fs)->Some_0, Seq::<char>::empty())];
    assert(o[0] == a[0]);
    assert(o[1] == b[0]);
}

/// The run writes the fixed three-partition layout, and once it is past
/// reading the partitions it holds exactly three, with indices 1, 2 and 3,
/// and its remaining tasks wipe and format the first and the third.
pub proof fn lemma_layout(inst: Installer)
    requires
        inst.wf(),
        inst.cursor >= inst.opening().len(),
    ensures
        inst.opening()[inst.opening().len() - 2] == (
            Stage::PartitionDisk,
            partition_argv(dev_path(inst.plan.device.name@)),
            dev_path(inst.plan.device.name@),
        ),
        inst.partitions@.len() == 3,
        inst.partitions@[0].index == 1,
        inst.partitions@[1].index == 2,
        inst.partitions@[2].index == 3,
        tasks_view(inst.tasks@) == inst.opening() + closing_tasks(
            inst.plan.filesystem,
            inst.partitions@[0].path@,
            inst.partitions@[2].path@,
        ),
{
    let o = inst.opening();
    assert(o[o.len() - 2] == (
        Stage::PartitionDisk,
        partition_argv(dev_path(inst.plan.device.name@)),
        dev_path(inst.plan.device.name@),
    ));
}

/// A run with `clean_first` runs all of the filesystem's teardown commands, in
/// order, before it partitions, and so before it creates the filesystem again
/// (the last tasks of the run); a run without it tears nothing down. Creating
/// a filesystem is not idempotent: only a teardown in between makes a second
/// creation on the same partition safe, and a creation that fails (a pool that
/// still exists) is never counted as done, unlike a teardown command that
/// finds nothing to undo.
pub proof fn lemma_cleanup_before_init(fs: Filesystem, dev: Seq<char>, boot: Seq<char>, root: Seq<char>)
    ensures
        ({
            let o = opening_tasks(fs, true, dev);
            let start = if dependency_argv(fs) is Some { 2int } else { 1int };
            let n = cleanup_argvs(fs).len() as int;
            let full = o + closing_tasks(fs, boot, root);
            let m = init_argvs(fs, root).len() as int;
            &&& start + n < o.len()
            &&& o.subrange(start, start + n) == runs(Stage::Cleanup, cleanup_argvs(fs), Seq::<char>::empty())
            &&& o[start + n].0 == Stage::PartitionDisk
            &&& full.subrange(full.len() - m, full.len() as int) == runs(Stage::FormatRoot, init_argvs(fs, root), root)
        }),
        completes(Stage::Cleanup, Outcome::ExitedNonZero),
        !completes(Stage::FormatRoot, Outcome::ExitedNonZero),
        !completes(Stage::FormatRoot, Outcome::Failed),
        forall|k: int|
            0 <= k < opening_tasks(fs, false, dev).len() ==> (#[trigger] opening_tasks(fs, false, dev)[k]).0
                != Stage::Cleanup,
{
    let e = Seq::<char>::empty();
    let a = seq![(Stage::Preconditions, Seq::<Seq<char>>::empty(), e)];
    let b: Seq<(Stage, Seq<Seq<char>>, Seq<char>)> = match dependency_argv(fs) {
        Some(x) => seq![(Stage::Dependencies, x, e)],
        None => Seq::empty(),
    };
    let c = runs(Stage::Cleanup, cleanup_argvs(fs), e);
    let d = seq![
        (Stage::PartitionDisk, partition_argv(dev), dev),
        (Stage::ResolvePartitions, Seq::<Seq<char>>::empty(), dev),
    ];
    let o = opening_tasks(fs, true, dev);
    assert(o == a + b + c + d);
    let start = (a.len() + b.len()) as int;
    assert(o.subrange(start, start + c.len()) =~= c);
    assert(o[start + c.len()] == d[0]);
    let w = seq![
        (Stage::WipePartitions, wipe_argv(boot), boot),
        (Stage::WipePartitions, wipe_argv(root), root),
    ];
    let f = runs(Stage::FormatBoot, init_argvs(Filesystem::Fat32, boot), boot);
    let g = runs(Stage::FormatRoot, init_argvs(fs, root), root);
    let full = o + closing_tasks(fs, boot, root);
    assert(full == o + w + f + g);
    assert(full.subrange(full.len() - g.len(), full.len() as int) =~= g);
    let o2 = opening_tasks(fs, false, dev);
    assert(o2 == a + b + d);
    assert forall|k: int| 0 <= k < o2.len() implies (#[trigger] o2[k]).0 != Stage::Cleanup by {
        if k < a.len() {
            assert(o2[k] == a[k]);
        } else if k < a.len() + b.len() {
            assert(o2[k] == b[k - a.len()]);
        } else {
            assert(o2[k] == d[k - a.len() - b.len()]);
        }
    }
}

} // verus!
