//! The consumer's view of a running batch: each item's status, the permanent
//! log and the live line. It marks unfinished items cancelled when the batch
//! is aborted.
use vstd::prelude::*;
use vstd::string::StringExecFns;

use crate::batch::InstallProgress;
use crate::text::texts;

verus! {

/// The status of one item of a batch. It only moves forward.
#[derive(Debug, Clone)]
pub enum PackageStatus {
    Pending,
    Installing,
    Done,
    Failed(String),
    Cancelled,
}

/// The most lines the log keeps after a log event.
pub const LOG_CAP: usize = 200;

/// The last `LOG_CAP` lines of `s`.
pub open spec fn capped(s: Seq<Seq<char>>) -> Seq<Seq<char>> {
    if s.len() > LOG_CAP {
        s.subrange(s.len() - LOG_CAP, s.len() as int)
    } else {
        s
    }
}

/// The heading logged when item `index` starts: the action and its name
/// (`...` when there is no such item).
pub open spec fn heading(action: Seq<char>, names: Seq<String>, index: int) -> Seq<char> {
    "--- "@ + action + " "@ + (if 0 <= index < names.len() {
        names[index]@
    } else {
        "..."@
    }) + " ---"@
}

/// 0 pending, 1 installing, 2 done, 3 failed, 4 cancelled.
pub open spec fn status_code(s: PackageStatus) -> int {
    match s {
        PackageStatus::Pending => 0,
        PackageStatus::Installing => 1,
        PackageStatus::Done => 2,
        PackageStatus::Failed(_) => 3,
        PackageStatus::Cancelled => 4,
    }
}

/// How many statuses in `s` have the code `code`.
pub open spec fn count_code(s: Seq<PackageStatus>, code: int) -> nat
    decreases s.len(),
{
    if s.len() == 0 {
        0
    } else {
        count_code(s.drop_last(), code) + if status_code(s.last()) == code {
            1nat
        } else {
            0nat
        }
    }
}

/// Statuses only move forward: pending to running, and pending or running
/// to an end (done, failed, cancelled).
pub open spec fn moves_to(from: PackageStatus, to: PackageStatus) -> bool {
    match to {
        PackageStatus::Pending => false,
        PackageStatus::Installing => from is Pending,
        _ => from is Pending || from is Installing,
    }
}

/// `s` with item `index` moved to `st`, when it exists and the move is
/// forward; otherwise `s` unchanged.
pub open spec fn set_status(s: Seq<PackageStatus>, index: int, st: PackageStatus) -> Seq<PackageStatus> {
    if 0 <= index < s.len() && moves_to(s[index], st) {
        s.update(index, st)
    } else {
        s
    }
}

/// Progress of an install or upgrade batch, as shown to the user.
pub struct ProgressState {
    pub statuses: Vec<PackageStatus>,
    pub current: usize,
    pub log: Vec<String>,
    pub live_line: String,
    pub done: bool,
    pub copy_status: bool,
}

impl ProgressState {
    pub fn new() -> (r: ProgressState)
        ensures
            r.statuses@.len() == 0,
            r.current == 0,
            r.log@.len() == 0,
            r.live_line@.len() == 0,
            !r.done,
            !r.copy_status,
    {
        ProgressState {
            statuses: Vec::new(),
            current: 0,
            log: Vec::new(),
            live_line: String::new(),
            done: false,
            copy_status: false,
        }
    }

    /// Starts tracking a batch of `count` items, all pending.
    pub fn start(&mut self, count: usize)
        ensures
            final(self).statuses@.len() == count,
            forall|i: int| 0 <= i < count ==> #[trigger] final(self).statuses@[i] is Pending,
            final(self).current == 0,
            final(self).log@.len() == 0,
            final(self).live_line@.len() == 0,
            !final(self).done,
            !final(self).copy_status,
    {
        let mut statuses: Vec<PackageStatus> = Vec::new();
        let mut i: usize = 0;
        while i < count
            invariant
                i <= count,
                statuses@.len() == i,
                forall|j: int| 0 <= j < i ==> #[trigger] statuses@[j] is Pending,
            decreases count - i,
        {
            statuses.push(PackageStatus::Pending);
            i += 1;
        }
        self.statuses = statuses;
        self.current = 0;
        self.log = Vec::new();
        self.live_line = String::new();
        self.done = false;
        self.copy_status = false;
    }

    fn set(&mut self, index: usize, st: PackageStatus)
        ensures
            final(self).statuses@ == set_status(old(self).statuses@, index as int, st),
            final(self).current == old(self).current,
            final(self).log == old(self).log,
            final(self).live_line == old(self).live_line,
            final(self).done == old(self).done,
            final(self).copy_status == old(self).copy_status,
    {
        if index < self.statuses.len() {
            let forward = match (&self.statuses[index], &st) {
                (_, PackageStatus::Pending) => false,
                (PackageStatus::Pending, _) => true,
                (PackageStatus::Installing, PackageStatus::Installing) => false,
                (PackageStatus::Installing, _) => true,
                _ => false,
            };
            if forward {
                self.statuses[index] = st;
            }
        }
    }

    /// Applies one progress event. `action` and `names` make the heading
    /// logged when an item starts. Statuses only move forward (`moves_to`):
    /// an event that would move one back leaves it as it is.
    pub fn handle_event(&mut self, event: &InstallProgress, action: &str, names: &[String])
        ensures
            final(self).copy_status == old(self).copy_status,
            match *event {
                InstallProgress::Started { index } => {
                    &&& final(self).statuses@ == set_status(
                        old(self).statuses@,
                        index as int,
                        PackageStatus::Installing,
                    )
                    &&& final(self).current == index
                    &&& final(self).live_line@.len() == 0
                    &&& texts(final(self).log@) == texts(old(self).log@) + (if index > 0 {
                        seq![Seq::<char>::empty()]
                    } else {
                        seq![]
                    }) + seq![heading(action@, names@, index as int)]
                    &&& final(self).done == old(self).done
                },
                InstallProgress::Log { index: _, line } => {
                    &&& final(self).statuses@ == old(self).statuses@
                    &&& final(self).current == old(self).current
                    &&& final(self).live_line@.len() == 0
                    &&& texts(final(self).log@) == capped(texts(old(self).log@).push(line@))
                    &&& final(self).done == old(self).done
                },
                InstallProgress::Activity { index: _, line } => {
                    &&& final(self).statuses@ == old(self).statuses@
                    &&& final(self).current == old(self).current
                    &&& final(self).live_line@ == line@
                    &&& final(self).log@ == old(self).log@
                    &&& final(self).done == old(self).done
                },
                InstallProgress::Succeeded { index } => {
                    &&& final(self).statuses@ == set_status(old(self).statuses@, index as int, PackageStatus::Done)
                    &&& final(self).current == old(self).current
                    &&& final(self).live_line@.len() == 0
                    &&& final(self).log@ == old(self).log@
                    &&& final(self).done == old(self).done
                },
                InstallProgress::Failed { index, error } => {
                    &&& final(self).statuses@ == set_status(
                        old(self).statuses@,
                        index as int,
                        PackageStatus::Failed(error),
                    )
                    &&& final(self).current == old(self).current
                    &&& final(self).live_line@.len() == 0
                    &&& final(self).log@ == old(self).log@
                    &&& final(self).done == old(self).done
                },
                InstallProgress::Completed => {
                    &&& final(self).statuses@ == old(self).statuses@
                    &&& final(self).current == old(self).current
                    &&& final(self).live_line@.len() == 0
                    &&& final(self).log@ == old(self).log@
                    &&& final(self).done
                },
            },
    {
        match event {
            InstallProgress::Started { index } => {
                let index = *index;
                self.set(index, PackageStatus::Installing);
                self.current = index;
                self.live_line = String::new();
                let ghost before = self.log@;
                if index > 0 {
                    self.log.push(String::new());
                }
                let ghost mid = self.log@;
                let mut line = "--- ".to_owned();
                line.append(action);
                line.append(" ");
                if index < names.len() {
                    line.append(names[index].as_str());
                } else {
                    line.append("...");
                }
                line.append(" ---");
                self.log.push(line);
                assert(texts(self.log@) =~= texts(before) + (if index > 0 {
                    seq![Seq::<char>::empty()]
                } else {
                    seq![]
                }) + seq![heading(action@, names@, index as int)]);
            },
            InstallProgress::Log { index: _, line } => {
                let ghost before = self.log@;
                self.log.push(line.clone());
                self.live_line = String::new();
                let n = self.log.len();
                if n > LOG_CAP {
                    let tail = self.log.split_off(n - LOG_CAP);
                    self.log = tail;
                }
                assert(texts(self.log@) =~= capped(texts(before).push(line@)));
            },
            InstallProgress::Activity { index: _, line } => {
                self.live_line = line.clone();
            },
            InstallProgress::Succeeded { index } => {
                self.set(*index, PackageStatus::Done);
                self.live_line = String::new();
            },
            InstallProgress::Failed { index, error } => {
                self.set(*index, PackageStatus::Failed(error.clone()));
                self.live_line = String::new();
            },
            InstallProgress::Completed => {
                self.done = true;
                self.live_line = String::new();
            },
        }
    }

    /// Stops tracking after the batch was aborted: every pending or running
    /// item becomes cancelled, and the log says so.
    pub fn cancel(&mut self, label: &str)
        ensures
            final(self).statuses@.len() == old(self).statuses@.len(),
            forall|i: int|
                0 <= i < old(self).statuses@.len() ==> (#[trigger] final(self).statuses@[i]) == if old(
                    self,
                ).statuses@[i] is Pending || old(self).statuses@[i] is Installing {
                    PackageStatus::Cancelled
                } else {
                    old(self).statuses@[i]
                },
            final(self).done,
            !final(self).copy_status,
            final(self).current == old(self).current,
            final(self).live_line@.len() == 0,
            texts(final(self).log@) == texts(old(self).log@) + seq![
                Seq::<char>::empty(),
                "--- "@ + label@ + " cancelled ---"@,
            ],
    {
        self.copy_status = false;
        let n = self.statuses.len();
        let mut i: usize = 0;
        while i < n
            invariant
                n == old(self).statuses@.len(),
                self.statuses@.len() == n,
                i <= n,
                self.log == old(self).log,
                self.current == old(self).current,
                !self.copy_status,
                forall|j: int|
                    0 <= j < i ==> (#[trigger] self.statuses@[j]) == if old(self).statuses@[j] is Pending
                        || old(self).statuses@[j] is Installing {
                        PackageStatus::Cancelled
                    } else {
                        old(self).statuses@[j]
                    },
                forall|j: int| i <= j < n ==> #[trigger] self.statuses@[j] == old(self).statuses@[j],
            decreases n - i,
        {
            if matches!(self.statuses[i], PackageStatus::Installing | PackageStatus::Pending) {
                self.statuses[i] = PackageStatus::Cancelled;
            }
            i += 1;
        }
        self.done = true;
        self.live_line = String::new();
        let ghost before = self.log@;
        self.log.push(String::new());
        let mut line = "--- ".to_owned();
        line.append(label);
        line.append(" cancelled ---");
        self.log.push(line);
        assert(texts(self.log@) =~= texts(before) + seq![
            Seq::<char>::empty(),
            "--- "@ + label@ + " cancelled ---"@,
        ]);
    }

    /// How many items are done, failed and cancelled.
    pub fn status_counts(&self) -> (r: (usize, usize, usize))
        ensures
            r.0 == count_code(self.statuses@, 2),
            r.1 == count_code(self.statuses@, 3),
            r.2 == count_code(self.statuses@, 4),
    {
        let mut done: usize = 0;
        let mut failed: usize = 0;
        let mut cancelled: usize = 0;
        let mut i: usize = 0;
        assert(self.statuses@.subrange(0, 0) =~= Seq::<PackageStatus>::empty());
        while i < self.statuses.len()
            invariant
                i <= self.statuses@.len(),
                done == count_code(self.statuses@.subrange(0, i as int), 2),
                failed == count_code(self.statuses@.subrange(0, i as int), 3),
                cancelled == count_code(self.statuses@.subrange(0, i as int), 4),
                done + failed + cancelled <= i,
            decreases self.statuses@.len() - i,
        {
            assert(self.statuses@.subrange(0, i + 1).drop_last() =~= self.statuses@.subrange(0, i as int));
            match &self.statuses[i] {
                PackageStatus::Done => done += 1,
                PackageStatus::Failed(_) => failed += 1,
                PackageStatus::Cancelled => cancelled += 1,
                _ => {},
            }
            i += 1;
        }
        assert(self.statuses@.subrange(0, i as int) =~= self.statuses@);
        (done, failed, cancelled)
    }
}

} // verus!
