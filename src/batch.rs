//! Sequences a batch of install or upgrade operations. The decisions live
//! here as a state machine; the caller performs each action it asks for (run
//! a command, pause) and reports how the command ended.
use vstd::prelude::*;
use vstd::string::StringExecFns;

use crate::catalog::{install_operation, Package};
use crate::table::{upgrade_operation, UpgradeablePackage};
use crate::text::texts;

verus! {

/// Whether a batch installs or upgrades.
#[derive(Debug, Clone, Copy, PartialEq, Eq, Structural)]
pub enum Verb {
    Install,
    Upgrade,
}

/// How an item is run.
#[derive(Debug, Clone)]
pub enum Invocation {
    /// A raw command line, run through the platform shell.
    Shell(String),
    /// The package manager, on this package identifier.
    Package(String),
    /// Neither is defined: the item cannot be run.
    Missing,
}

/// One thing to install or upgrade.
#[derive(Debug, Clone)]
pub struct OperationItem {
    pub invocation: Invocation,
    /// A shell command to run after a successful install.
    pub post_install: Option<String>,
}

/// A progress event, as the consumer sees it.
pub enum ProgressEvent {
    Started(int),
    Log(int, Seq<char>),
    Activity(int, Seq<char>),
    Succeeded(int),
    Failed(int, Seq<char>),
    Completed,
}

/// A progress event pushed to the consumer.
#[derive(Debug, Clone)]
pub enum InstallProgress {
    Started { index: usize },
    /// A finalized line, appended to the permanent log.
    Log { index: usize, line: String },
    /// A transient line that replaces the live line.
    Activity { index: usize, line: String },
    Succeeded { index: usize },
    Failed { index: usize, error: String },
    Completed,
}

impl View for InstallProgress {
    type V = ProgressEvent;

    open spec fn view(&self) -> ProgressEvent {
        match self {
            InstallProgress::Started { index } => ProgressEvent::Started(*index as int),
            InstallProgress::Log { index, line } => ProgressEvent::Log(*index as int, line@),
            InstallProgress::Activity { index, line } => ProgressEvent::Activity(*index as int, line@),
            InstallProgress::Succeeded { index } => ProgressEvent::Succeeded(*index as int),
            InstallProgress::Failed { index, error } => ProgressEvent::Failed(*index as int, error@),
            InstallProgress::Completed => ProgressEvent::Completed,
        }
    }
}

pub open spec fn progress_views(v: Seq<InstallProgress>) -> Seq<ProgressEvent> {
    v.map_values(|e: InstallProgress| e@)
}

/// A command to run: a program and its arguments.
#[derive(Debug, Clone)]
pub struct Command {
    pub program: String,
    pub args: Vec<String>,
}

impl View for Command {
    type V = (Seq<char>, Seq<Seq<char>>);

    open spec fn view(&self) -> (Seq<char>, Seq<Seq<char>>) {
        (self.program@, texts(self.args@))
    }
}

/// What the caller must do next.
#[derive(Debug, Clone)]
pub enum Action {
    /// Run the command and report how it ended.
    Run(Command),
    /// Wait this many milliseconds, then report success.
    Pause(u64),
    /// The batch is over.
    Done,
}

/// How the run of one item went: its main command, and its post-install
/// command. Parts that were never run are ignored.
pub struct ItemOutcome {
    pub main: Result<(), Seq<char>>,
    pub post: Result<(), Seq<char>>,
}

pub open spec fn verb_word(verb: Verb) -> Seq<char> {
    match verb {
        Verb::Install => "install"@,
        Verb::Upgrade => "upgrade"@,
    }
}

pub open spec fn no_method_message() -> Seq<char> {
    "No install method defined"@
}

/// What a dry run says it would run for an item.
pub open spec fn describe(item: OperationItem, verb: Verb) -> Seq<char> {
    match item.invocation {
        Invocation::Shell(c) => "cmd /C "@ + c@,
        Invocation::Package(id) => "winget "@ + verb_word(verb) + " --id "@ + id@ + " -e"@,
        Invocation::Missing => no_method_message(),
    }
}

pub open spec fn dry_run_line(item: OperationItem, verb: Verb) -> Seq<char> {
    "[DRY RUN] Would run: "@ + describe(item, verb)
}

pub open spec fn dry_run_post_line(post: Seq<char>) -> Seq<char> {
    "[DRY RUN] Would run post-install: "@ + post
}

pub open spec fn post_install_line(post: Seq<char>) -> Seq<char> {
    "Running post-install: "@ + post
}

pub open spec fn post_warning_line(error: Seq<char>) -> Seq<char> {
    "Post-install warning: "@ + error
}

/// The item's main command: the shell on a custom command line, or the
/// package manager with the agreements accepted and the extra flags appended.
pub open spec fn main_command(item: OperationItem, verb: Verb, extra: Seq<Seq<char>>) -> (Seq<char>, Seq<Seq<char>>) {
    match item.invocation {
        Invocation::Shell(c) => ("cmd"@, seq!["/C"@, c@]),
        _ => (
            "winget"@,
            seq![
                verb_word(verb),
                "--id"@,
                match item.invocation {
                    Invocation::Package(id) => id@,
                    _ => Seq::empty(),
                },
                "-e"@,
                "--accept-package-agreements"@,
                "--accept-source-agreements"@,
            ] + extra,
        ),
    }
}

pub open spec fn post_command(post: Seq<char>) -> (Seq<char>, Seq<Seq<char>>) {
    ("cmd"@, seq!["/C"@, post])
}

/// The pause between dry-run items, in milliseconds.
pub const DRY_RUN_PAUSE_MS: u64 = 150;

/// Whether item `i` ends with `Succeeded`: always in a dry run, otherwise
/// when it can be run and its main command succeeds.
pub open spec fn item_succeeds(item: OperationItem, dry_run: bool, outcome: ItemOutcome) -> bool {
    dry_run || (!(item.invocation is Missing) && outcome.main is Ok)
}

/// The lifecycle events of item `i`, in order.
pub open spec fn item_events(item: OperationItem, i: int, dry_run: bool, verb: Verb, outcome: ItemOutcome) -> Seq<ProgressEvent> {
    if dry_run {
        seq![ProgressEvent::Started(i), ProgressEvent::Log(i, dry_run_line(item, verb))]
            + match item.post_install {
            Some(p) => seq![ProgressEvent::Log(i, dry_run_post_line(p@))],
            None => seq![],
        } + seq![ProgressEvent::Succeeded(i)]
    } else if item.invocation is Missing {
        seq![ProgressEvent::Started(i), ProgressEvent::Failed(i, no_method_message())]
    } else {
        match outcome.main {
            Err(e) => seq![ProgressEvent::Started(i), ProgressEvent::Failed(i, e)],
            Ok(_) => match item.post_install {
                None => seq![ProgressEvent::Started(i), ProgressEvent::Succeeded(i)],
                Some(p) => seq![ProgressEvent::Started(i), ProgressEvent::Log(i, post_install_line(p@))]
                    + match outcome.post {
                    Err(e) => seq![ProgressEvent::Log(i, post_warning_line(e))],
                    Ok(_) => seq![],
                } + seq![ProgressEvent::Succeeded(i)],
            },
        }
    }
}

/// The lifecycle events of all items, item `i` having had `outcomes[i]`.
pub open spec fn items_events(items: Seq<OperationItem>, dry_run: bool, verb: Verb, outcomes: Seq<ItemOutcome>) -> Seq<ProgressEvent>
    decreases items.len(),
{
    if items.len() == 0 {
        seq![]
    } else {
        let i = items.len() - 1;
        items_events(items.drop_last(), dry_run, verb, outcomes) + item_events(items.last(), i, dry_run, verb, outcomes[i])
    }
}

/// The lifecycle events of a whole batch: every item in order, then
/// `Completed`.
pub open spec fn batch_events(items: Seq<OperationItem>, dry_run: bool, verb: Verb, outcomes: Seq<ItemOutcome>) -> Seq<ProgressEvent> {
    items_events(items, dry_run, verb, outcomes) + seq![ProgressEvent::Completed]
}

proof fn lemma_items_events_frame(items: Seq<OperationItem>, dry_run: bool, verb: Verb, a: Seq<ItemOutcome>, b: Seq<ItemOutcome>)
    requires
        forall|j: int| 0 <= j < items.len() ==> a[j] == b[j],
    ensures
        items_events(items, dry_run, verb, a) == items_events(items, dry_run, verb, b),
    decreases items.len(),
{
    if items.len() > 0 {
        lemma_items_events_frame(items.drop_last(), dry_run, verb, a, b);
    }
}

/// The lifecycle events that carry an item index.
#[derive(Debug, Clone, Copy, PartialEq, Eq, Structural)]
pub enum Mark {
    Started,
    Succeeded,
    Failed,
}

/// The index of `e` when it is an event of kind `m`.
pub open spec fn mark_of(e: ProgressEvent, m: Mark) -> Seq<int> {
    match e {
        ProgressEvent::Started(i) => if m == Mark::Started {
            seq![i]
        } else {
            seq![]
        },
        ProgressEvent::Succeeded(i) => if m == Mark::Succeeded {
            seq![i]
        } else {
            seq![]
        },
        ProgressEvent::Failed(i, _) => if m == Mark::Failed {
            seq![i]
        } else {
            seq![]
        },
        _ => seq![],
    }
}

/// The indices of the events of kind `m`, in the order emitted.
pub open spec fn marked(evs: Seq<ProgressEvent>, m: Mark) -> Seq<int>
    decreases evs.len(),
{
    if evs.len() == 0 {
        seq![]
    } else {
        marked(evs.drop_last(), m) + mark_of(evs.last(), m)
    }
}

proof fn lemma_marked_concat(a: Seq<ProgressEvent>, b: Seq<ProgressEvent>, m: Mark)
    ensures
        marked(a + b, m) == marked(a, m) + marked(b, m),
    decreases b.len(),
{
    if b.len() == 0 {
        assert(a + b =~= a);
        assert(marked(a, m) + marked(b, m) =~= marked(a, m));
    } else {
        assert((a + b).drop_last() =~= a + b.drop_last());
        lemma_marked_concat(a, b.drop_last(), m);
        assert(marked(a, m) + marked(b.drop_last(), m) + mark_of(b.last(), m) =~= marked(a, m) + (marked(
            b.drop_last(),
            m,
        ) + mark_of(b.last(), m)));
    }
}

proof fn lemma_marked_push(s: Seq<ProgressEvent>, e: ProgressEvent, m: Mark)
    ensures
        marked(s.push(e), m) == marked(s, m) + mark_of(e, m),
{
    assert(s.push(e).drop_last() =~= s);
}

proof fn lemma_marked4(a: ProgressEvent, b: ProgressEvent, c: ProgressEvent, d: ProgressEvent, m: Mark)
    ensures
        marked(seq![a, b], m) == mark_of(a, m) + mark_of(b, m),
        marked(seq![a, b, c], m) == mark_of(a, m) + mark_of(b, m) + mark_of(c, m),
        marked(seq![a, b, c, d], m) == mark_of(a, m) + mark_of(b, m) + mark_of(c, m) + mark_of(d, m),
{
    let e: Seq<ProgressEvent> = seq![];
    assert(marked(e, m) =~= seq![]);
    lemma_marked_push(e, a, m);
    assert(e.push(a) =~= seq![a]);
    assert(marked(seq![a], m) =~= mark_of(a, m));
    lemma_marked_push(seq![a], b, m);
    assert(seq![a].push(b) =~= seq![a, b]);
    lemma_marked_push(seq![a, b], c, m);
    assert(seq![a, b].push(c) =~= seq![a, b, c]);
    lemma_marked_push(seq![a, b, c], d, m);
    assert(seq![a, b, c].push(d) =~= seq![a, b, c, d]);
}

/// The indices that item `i`'s events carry, for events of kind `m`.
pub open spec fn item_marks(item: OperationItem, i: int, dry_run: bool, o: ItemOutcome, m: Mark) -> Seq<int> {
    if m == Mark::Started {
        seq![i]
    } else if (m == Mark::Succeeded) == item_succeeds(item, dry_run, o) {
        seq![i]
    } else {
        seq![]
    }
}

proof fn lemma_item_marks(item: OperationItem, i: int, dry_run: bool, verb: Verb, o: ItemOutcome, m: Mark)
    ensures
        marked(item_events(item, i, dry_run, verb, o), m) == item_marks(item, i, dry_run, o, m),
        forall|j: int|
            0 <= j < item_events(item, i, dry_run, verb, o).len() ==> !(#[trigger] item_events(
                item,
                i,
                dry_run,
                verb,
                o,
            )[j] is Completed),
{
    let evs = item_events(item, i, dry_run, verb, o);
    let st = ProgressEvent::Started(i);
    let ok = ProgressEvent::Succeeded(i);
    if dry_run {
        let l1 = ProgressEvent::Log(i, dry_run_line(item, verb));
        match item.post_install {
            Some(p) => {
                let l2 = ProgressEvent::Log(i, dry_run_post_line(p@));
                assert(evs =~= seq![st, l1, l2, ok]);
                lemma_marked4(st, l1, l2, ok, m);
            },
            None => {
                assert(evs =~= seq![st, l1, ok]);
                lemma_marked4(st, l1, ok, ok, m);
            },
        }
    } else if item.invocation is Missing {
        let f = ProgressEvent::Failed(i, no_method_message());
        assert(evs =~= seq![st, f]);
        lemma_marked4(st, f, f, f, m);
    } else {
        match o.main {
            Err(er) => {
                let f = ProgressEvent::Failed(i, er);
                assert(evs =~= seq![st, f]);
                lemma_marked4(st, f, f, f, m);
            },
            Ok(_) => match item.post_install {
                None => {
                    assert(evs =~= seq![st, ok]);
                    lemma_marked4(st, ok, ok, ok, m);
                },
                Some(p) => {
                    let l1 = ProgressEvent::Log(i, post_install_line(p@));
                    match o.post {
                        Err(er) => {
                            let l2 = ProgressEvent::Log(i, post_warning_line(er));
                            assert(evs =~= seq![st, l1, l2, ok]);
                            lemma_marked4(st, l1, l2, ok, m);
                        },
                        Ok(_) => {
                            assert(evs =~= seq![st, l1, ok]);
                            lemma_marked4(st, l1, ok, ok, m);
                        },
                    }
                },
            },
        }
    }
    assert(marked(evs, m) =~= item_marks(item, i, dry_run, o, m));
    assert forall|j: int| 0 <= j < evs.len() implies !(#[trigger] evs[j] is Completed) by {
        if j == 0 {
        } else if j == 1 {
        } else if j == 2 {
        } else {
        }
    }
}

/// The items' events hold `Started` for each index in order, and no
/// `Completed`.
proof fn lemma_items_shape(items: Seq<OperationItem>, dry_run: bool, verb: Verb, outcomes: Seq<ItemOutcome>)
    ensures
        marked(items_events(items, dry_run, verb, outcomes), Mark::Started) == Seq::new(
            items.len(),
            |j: int| j,
        ),
        forall|j: int|
            0 <= j < items_events(items, dry_run, verb, outcomes).len() ==> !(#[trigger] items_events(
                items,
                dry_run,
                verb,
                outcomes,
            )[j] is Completed),
    decreases items.len(),
{
    let evs = items_events(items, dry_run, verb, outcomes);
    if items.len() == 0 {
        assert(marked(evs, Mark::Started) =~= Seq::new(0, |j: int| j));
    } else {
        let i = items.len() - 1;
        let pre = items_events(items.drop_last(), dry_run, verb, outcomes);
        let last = item_events(items.last(), i, dry_run, verb, outcomes[i]);
        lemma_items_shape(items.drop_last(), dry_run, verb, outcomes);
        lemma_item_marks(items.last(), i, dry_run, verb, outcomes[i], Mark::Started);
        lemma_marked_concat(pre, last, Mark::Started);
        assert(Seq::new(i as nat, |j: int| j) + seq![i] =~= Seq::new(items.len(), |j: int| j));
        assert forall|j: int| 0 <= j < evs.len() implies !(#[trigger] evs[j] is Completed) by {
            if j < pre.len() {
                assert(evs[j] == pre[j]);
            } else {
                assert(evs[j] == last[j - pre.len()]);
            }
        }
    }
}

/// When every item succeeds, the items' events hold `Succeeded` for each
/// index in order, and no `Failed`.
proof fn lemma_items_all_succeed(items: Seq<OperationItem>, dry_run: bool, verb: Verb, outcomes: Seq<ItemOutcome>)
    requires
        forall|j: int| 0 <= j < items.len() ==> item_succeeds(#[trigger] items[j], dry_run, outcomes[j]),
    ensures
        marked(items_events(items, dry_run, verb, outcomes), Mark::Succeeded) == Seq::new(
            items.len(),
            |j: int| j,
        ),
        marked(items_events(items, dry_run, verb, outcomes), Mark::Failed) == Seq::<int>::empty(),
    decreases items.len(),
{
    let evs = items_events(items, dry_run, verb, outcomes);
    if items.len() == 0 {
        assert(marked(evs, Mark::Succeeded) =~= Seq::new(0, |j: int| j));
    } else {
        let i = items.len() - 1;
        let pre = items_events(items.drop_last(), dry_run, verb, outcomes);
        let last = item_events(items.last(), i, dry_run, verb, outcomes[i]);
        assert(item_succeeds(items[i], dry_run, outcomes[i]));
        lemma_items_all_succeed(items.drop_last(), dry_run, verb, outcomes);
        lemma_item_marks(items.last(), i, dry_run, verb, outcomes[i], Mark::Succeeded);
        lemma_item_marks(items.last(), i, dry_run, verb, outcomes[i], Mark::Failed);
        lemma_marked_concat(pre, last, Mark::Succeeded);
        lemma_marked_concat(pre, last, Mark::Failed);
        assert(Seq::new(i as nat, |j: int| j) + seq![i] =~= Seq::new(items.len(), |j: int| j));
        assert(Seq::<int>::empty() + Seq::<int>::empty() =~= Seq::<int>::empty());
    }
}

/// When item `k` alone fails, the items' events hold `Failed` for `k` only
/// and `Succeeded` for every other index, in order.
proof fn lemma_items_one_failure(items: Seq<OperationItem>, verb: Verb, outcomes: Seq<ItemOutcome>, k: int)
    requires
        0 <= k < items.len(),
        !item_succeeds(items[k], false, outcomes[k]),
        forall|j: int| 0 <= j < items.len() && j != k ==> item_succeeds(#[trigger] items[j], false, outcomes[j]),
    ensures
        marked(items_events(items, false, verb, outcomes), Mark::Failed) == seq![k],
        marked(items_events(items, false, verb, outcomes), Mark::Succeeded) == Seq::new(
            (items.len() - 1) as nat,
            |j: int| if j < k { j } else { j + 1 },
        ),
    decreases items.len(),
{
    let i = items.len() - 1;
    let pre = items_events(items.drop_last(), false, verb, outcomes);
    let last = item_events(items.last(), i, false, verb, outcomes[i]);
    lemma_item_marks(items.last(), i, false, verb, outcomes[i], Mark::Succeeded);
    lemma_item_marks(items.last(), i, false, verb, outcomes[i], Mark::Failed);
    lemma_marked_concat(pre, last, Mark::Succeeded);
    lemma_marked_concat(pre, last, Mark::Failed);
    if k == i {
        assert forall|j: int| 0 <= j < items.drop_last().len() implies item_succeeds(
            #[trigger] items.drop_last()[j],
            false,
            outcomes[j],
        ) by {
            assert(items.drop_last()[j] == items[j]);
        }
        lemma_items_all_succeed(items.drop_last(), false, verb, outcomes);
        assert(Seq::<int>::empty() + seq![k] =~= seq![k]);
        assert(Seq::new(i as nat, |j: int| j) + Seq::<int>::empty() =~= Seq::new(
            (items.len() - 1) as nat,
            |j: int| if j < k { j } else { j + 1 },
        ));
    } else {
        assert(item_succeeds(items[i], false, outcomes[i]));
        assert forall|j: int| 0 <= j < items.drop_last().len() && j != k implies item_succeeds(
            #[trigger] items.drop_last()[j],
            false,
            outcomes[j],
        ) by {
            assert(items.drop_last()[j] == items[j]);
        }
        lemma_items_one_failure(items.drop_last(), verb, outcomes, k);
        assert(seq![k] + Seq::<int>::empty() =~= seq![k]);
        assert(Seq::new((i - 1) as nat, |j: int| if j < k { j } else { j + 1 }) + seq![i] =~= Seq::new(
            (items.len() - 1) as nat,
            |j: int| if j < k { j } else { j + 1 },
        ));
    }
}

proof fn lemma_completed_last(items: Seq<OperationItem>, dry_run: bool, verb: Verb, outcomes: Seq<ItemOutcome>)
    ensures
        ({
            let evs = batch_events(items, dry_run, verb, outcomes);
            &&& evs.last() is Completed
            &&& forall|j: int| 0 <= j < evs.len() - 1 ==> !(#[trigger] evs[j] is Completed)
            &&& forall|m: Mark| #[trigger] marked(evs, m) == marked(items_events(items, dry_run, verb, outcomes), m)
        }),
{
    let pre = items_events(items, dry_run, verb, outcomes);
    let evs = batch_events(items, dry_run, verb, outcomes);
    lemma_items_shape(items, dry_run, verb, outcomes);
    assert(evs =~= pre.push(ProgressEvent::Completed));
    assert forall|j: int| 0 <= j < evs.len() - 1 implies !(#[trigger] evs[j] is Completed) by {
        assert(evs[j] == pre[j]);
    }
    assert forall|m: Mark| #[trigger] marked(evs, m) == marked(pre, m) by {
        lemma_marked_push(pre, ProgressEvent::Completed, m);
        assert(marked(pre, m) + mark_of(ProgressEvent::Completed, m) =~= marked(pre, m));
    }
}

/// Best effort with one failure: when item `k` fails (it has no install
/// method, or its main command fails) and every other item succeeds, the
/// batch emits `Started` for indices 0 to n-1 in order, with no gap or
/// repeat; exactly one `Failed`, for `k`; `Succeeded` for every other index,
/// once each and in order; and one `Completed`, last.
pub proof fn lemma_one_failure(items: Seq<OperationItem>, verb: Verb, outcomes: Seq<ItemOutcome>, k: int)
    requires
        0 <= k < items.len(),
        !item_succeeds(items[k], false, outcomes[k]),
        forall|j: int| 0 <= j < items.len() && j != k ==> item_succeeds(#[trigger] items[j], false, outcomes[j]),
    ensures
        ({
            let evs = batch_events(items, false, verb, outcomes);
            &&& marked(evs, Mark::Started) == Seq::new(items.len(), |j: int| j)
            &&& marked(evs, Mark::Failed) == seq![k]
            &&& marked(evs, Mark::Succeeded) == Seq::new(
                (items.len() - 1) as nat,
                |j: int| if j < k { j } else { j + 1 },
            )
            &&& evs.last() is Completed
            &&& forall|j: int| 0 <= j < evs.len() - 1 ==> !(#[trigger] evs[j] is Completed)
        }),
{
    lemma_completed_last(items, false, verb, outcomes);
    lemma_items_shape(items, false, verb, outcomes);
    lemma_items_one_failure(items, verb, outcomes, k);
    let evs = batch_events(items, false, verb, outcomes);
    let pre = items_events(items, false, verb, outcomes);
    assert(marked(evs, Mark::Started) == marked(pre, Mark::Started));
    assert(marked(evs, Mark::Failed) == marked(pre, Mark::Failed));
    assert(marked(evs, Mark::Succeeded) == marked(pre, Mark::Succeeded));
}

/// A dry run never fails: whatever the items and however the caller reports
/// on them, it emits no `Failed`, `Started` and `Succeeded` once for every
/// index in order, and one `Completed`, last.
pub proof fn lemma_dry_run_never_fails(items: Seq<OperationItem>, verb: Verb, outcomes: Seq<ItemOutcome>)
    ensures
        ({
            let evs = batch_events(items, true, verb, outcomes);
            &&& marked(evs, Mark::Failed) == Seq::<int>::empty()
            &&& marked(evs, Mark::Started) == Seq::new(items.len(), |j: int| j)
            &&& marked(evs, Mark::Succeeded) == Seq::new(items.len(), |j: int| j)
            &&& evs.last() is Completed
            &&& forall|j: int| 0 <= j < evs.len() - 1 ==> !(#[trigger] evs[j] is Completed)
        }),
{
    lemma_completed_last(items, true, verb, outcomes);
    lemma_items_shape(items, true, verb, outcomes);
    lemma_items_all_succeed(items, true, verb, outcomes);
    let evs = batch_events(items, true, verb, outcomes);
    let pre = items_events(items, true, verb, outcomes);
    assert(marked(evs, Mark::Started) == marked(pre, Mark::Started));
    assert(marked(evs, Mark::Failed) == marked(pre, Mark::Failed));
    assert(marked(evs, Mark::Succeeded) == marked(pre, Mark::Succeeded));
}

proof fn lemma_items_events_step(
    items: Seq<OperationItem>,
    i: int,
    dry_run: bool,
    verb: Verb,
    outcomes: Seq<ItemOutcome>,
    o: ItemOutcome,
)
    requires
        0 <= i < items.len(),
        outcomes.len() == i,
    ensures
        items_events(items.subrange(0, i + 1), dry_run, verb, outcomes.push(o)) == items_events(
            items.subrange(0, i),
            dry_run,
            verb,
            outcomes,
        ) + item_events(items[i], i, dry_run, verb, o),
{
    let next = items.subrange(0, i + 1);
    assert(next.drop_last() =~= items.subrange(0, i));
    lemma_items_events_frame(items.subrange(0, i), dry_run, verb, outcomes.push(o), outcomes);
}

fn join(a: &str, b: &str) -> (r: String)
    ensures
        r@ == a@ + b@,
{
    let mut s = a.to_owned();
    s.append(b);
    s
}

/// The outcome recorded for an item whose commands did not run.
pub open spec fn not_run() -> ItemOutcome {
    ItemOutcome { main: Ok(()), post: Ok(()) }
}

pub open spec fn result_view(r: Result<(), String>) -> Result<(), Seq<char>> {
    match r {
        Ok(_) => Ok(()),
        Err(e) => Err(e@),
    }
}

fn verb_str(verb: Verb) -> (r: &'static str)
    ensures
        r@ == verb_word(verb),
{
    match verb {
        Verb::Install => "install",
        Verb::Upgrade => "upgrade",
    }
}

/// What a dry run says it would run for `item`.
pub fn describe_item(item: &OperationItem, verb: Verb) -> (r: String)
    ensures
        r@ == describe(*item, verb),
{
    match &item.invocation {
        Invocation::Shell(c) => join("cmd /C ", c.as_str()),
        Invocation::Package(id) => {
            let mut s = join("winget ", verb_str(verb));
            s.append(" --id ");
            s.append(id.as_str());
            s.append(" -e");
            s
        },
        Invocation::Missing => "No install method defined".to_owned(),
    }
}

fn shell_command(line: &String) -> (c: Command)
    ensures
        c@ == post_command(line@),
{
    let mut args: Vec<String> = Vec::new();
    args.push("/C".to_owned());
    args.push(line.clone());
    let c = Command { program: "cmd".to_owned(), args };
    assert(texts(c.args@) =~= seq!["/C"@, line@]);
    c
}

/// The main command of an item that can be run.
pub fn main_command_of(item: &OperationItem, verb: Verb, extra_args: &Vec<String>) -> (c: Command)
    requires
        !(item.invocation is Missing),
    ensures
        c@ == main_command(*item, verb, texts(extra_args@)),
{
    match &item.invocation {
        Invocation::Shell(line) => shell_command(line),
        Invocation::Package(id) => {
            let mut args: Vec<String> = Vec::new();
            args.push(verb_str(verb).to_owned());
            args.push("--id".to_owned());
            args.push(id.clone());
            args.push("-e".to_owned());
            args.push("--accept-package-agreements".to_owned());
            args.push("--accept-source-agreements".to_owned());
            let ghost fixed = texts(args@);
            let mut k: usize = 0;
            while k < extra_args.len()
                invariant
                    k <= extra_args@.len(),
                    texts(args@) == fixed + texts(extra_args@.subrange(0, k as int)),
                decreases extra_args@.len() - k,
            {
                let ghost before = args@;
                args.push(extra_args[k].clone());
                assert(extra_args@.subrange(0, k + 1) =~= extra_args@.subrange(0, k as int).push(extra_args@[k as int]));
                assert(texts(args@) =~= texts(before).push(extra_args@[k as int]@));
                assert(texts(extra_args@.subrange(0, k + 1)) =~= texts(extra_args@.subrange(0, k as int)).push(extra_args@[k as int]@));
                k += 1;
            }
            assert(extra_args@.subrange(0, k as int) =~= extra_args@);
            let c = Command { program: "winget".to_owned(), args };
            assert(fixed =~= seq![
                verb_word(verb),
                "--id"@,
                id@,
                "-e"@,
                "--accept-package-agreements"@,
                "--accept-source-agreements"@,
            ]);
            c
        },
        Invocation::Missing => {
            // unreachable by the precondition
            Command { program: String::new(), args: Vec::new() }
        },
    }
}

/// Where a batch stands between two calls.
#[derive(Debug, Clone, Copy, PartialEq, Eq, Structural)]
pub enum Stage {
    /// About to start the item at the current index (or to complete).
    Ready,
    /// The item's main command is running.
    Main,
    /// The item's post-install command is running.
    Post,
    /// A dry-run pause is under way.
    Pause,
    /// `Completed` was emitted.
    Finished,
}

/// What one call hands back: events to push, in order, then an action.
pub struct Turn {
    pub events: Vec<InstallProgress>,
    pub action: Action,
}

/// A batch of operations, run strictly one item after another.
pub struct Batch {
    items: Vec<OperationItem>,
    verb: Verb,
    dry_run: bool,
    extra_args: Vec<String>,
    index: usize,
    stage: Stage,
    emitted: Ghost<Seq<ProgressEvent>>,
    outcomes: Ghost<Seq<ItemOutcome>>,
}

impl Batch {
    pub closed spec fn items(&self) -> Seq<OperationItem> {
        self.items@
    }

    pub closed spec fn verb(&self) -> Verb {
        self.verb
    }

    pub closed spec fn dry_run(&self) -> bool {
        self.dry_run
    }

    pub closed spec fn extra_args(&self) -> Seq<Seq<char>> {
        texts(self.extra_args@)
    }

    /// The item under way, or the number of items once all are done.
    pub closed spec fn index(&self) -> int {
        self.index as int
    }

    pub closed spec fn stage(&self) -> Stage {
        self.stage
    }

    /// Every lifecycle event handed out so far.
    pub closed spec fn emitted(&self) -> Seq<ProgressEvent> {
        self.emitted@
    }

    /// How each finished item went, as reported by the caller.
    pub closed spec fn outcomes(&self) -> Seq<ItemOutcome> {
        self.outcomes@
    }

    /// A bound on the calls to `advance` left before `Done`: every call
    /// before the end lowers it.
    pub open spec fn remaining(&self) -> nat {
        let left = self.items().len() - self.index();
        let stage: int = match self.stage() {
            Stage::Ready => 3,
            Stage::Main => 2,
            Stage::Pause => 2,
            Stage::Post => 1,
            Stage::Finished => 0,
        };
        if self.stage() == Stage::Finished || left < 0 {
            0
        } else {
            (3 * left + stage) as nat
        }
    }

    pub closed spec fn wf(&self) -> bool {
        let n = self.items@.len();
        let i = self.index as int;
        let done = items_events(self.items@.subrange(0, i), self.dry_run, self.verb, self.outcomes@);
        &&& i <= n
        &&& self.outcomes@.len() == i
        &&& match self.stage {
            Stage::Ready => self.emitted@ == done,
            Stage::Main => {
                &&& i < n
                &&& !self.dry_run
                &&& !(self.items@[i].invocation is Missing)
                &&& self.emitted@ == done + seq![ProgressEvent::Started(i)]
            },
            Stage::Post => {
                &&& i < n
                &&& !self.dry_run
                &&& !(self.items@[i].invocation is Missing)
                &&& self.items@[i].post_install is Some
                &&& self.emitted@ == done + seq![
                    ProgressEvent::Started(i),
                    ProgressEvent::Log(i, post_install_line(self.items@[i].post_install->0@)),
                ]
            },
            Stage::Pause => {
                &&& i < n
                &&& self.dry_run
                &&& self.emitted@.push(ProgressEvent::Succeeded(i)) == done + item_events(
                    self.items@[i],
                    i,
                    true,
                    self.verb,
                    not_run(),
                )
            },
            Stage::Finished => i == n && self.emitted@ == done + seq![ProgressEvent::Completed],
        }
    }

    /// A batch over `items`, in order; nothing has run yet.
    pub fn new(items: Vec<OperationItem>, verb: Verb, dry_run: bool, extra_args: Vec<String>) -> (r: Batch)
        ensures
            r.wf(),
            r.items() == items@,
            r.verb() == verb,
            r.dry_run() == dry_run,
            r.extra_args() == texts(extra_args@),
            r.index() == 0,
            r.stage() == Stage::Ready,
            r.emitted() == Seq::<ProgressEvent>::empty(),
            r.outcomes() == Seq::<ItemOutcome>::empty(),
    {
        let r = Batch {
            items,
            verb,
            dry_run,
            extra_args,
            index: 0,
            stage: Stage::Ready,
            emitted: Ghost(Seq::empty()),
            outcomes: Ghost(Seq::empty()),
        };
        assert(r.items@.subrange(0, 0) =~= Seq::<OperationItem>::empty());
        r
    }

    /// Records that the item under way ended with `o`, its events being now
    /// all emitted, and moves to the next item.
    fn finish_item(&mut self, Ghost(o): Ghost<ItemOutcome>, Ghost(emitted): Ghost<Seq<ProgressEvent>>)
        requires
            old(self).index < old(self).items@.len(),
            old(self).outcomes@.len() == old(self).index,
            emitted == items_events(
                old(self).items@.subrange(0, old(self).index as int),
                old(self).dry_run,
                old(self).verb,
                old(self).outcomes@,
            ) + item_events(
                old(self).items@[old(self).index as int],
                old(self).index as int,
                old(self).dry_run,
                old(self).verb,
                o,
            ),
        ensures
            final(self).wf(),
            final(self).stage == Stage::Ready,
            final(self).index == old(self).index + 1,
            final(self).outcomes@ == old(self).outcomes@.push(o),
            final(self).emitted@ == emitted,
            final(self).items == old(self).items,
            final(self).verb == old(self).verb,
            final(self).dry_run == old(self).dry_run,
            final(self).extra_args == old(self).extra_args,
    {
        proof {
            lemma_items_events_step(self.items@, self.index as int, self.dry_run, self.verb, self.outcomes@, o);
        }
        let n = self.items.len();
        assert(self.index < n);
        self.outcomes = Ghost(self.outcomes@.push(o));
        self.index = self.index + 1;
        self.stage = Stage::Ready;
        self.emitted = Ghost(emitted);
    }

    /// Starts items from the current one until one needs outside work (a
    /// command to run, a pause) or all are through, in which case `Completed`
    /// is emitted.
    fn start_items(&mut self, events: &mut Vec<InstallProgress>, Ghost(start): Ghost<Seq<ProgressEvent>>) -> (action: Action)
        requires
            old(self).wf(),
            old(self).stage == Stage::Ready,
            old(self).emitted@ == start + progress_views(old(events)@),
        ensures
            final(self).wf(),
            final(self).items == old(self).items,
            final(self).verb == old(self).verb,
            final(self).dry_run == old(self).dry_run,
            final(self).extra_args == old(self).extra_args,
            final(self).emitted@ == start + progress_views(final(events)@),
            old(self).outcomes@.len() <= final(self).outcomes@.len(),
            forall|j: int| 0 <= j < old(self).outcomes@.len() ==> final(self).outcomes@[j] == old(self).outcomes@[j],
            forall|j: int|
                old(self).outcomes@.len() <= j < final(self).outcomes@.len() ==> final(self).dry_run
                    || (#[trigger] final(self).items@[j]).invocation is Missing,
            final(self).stage != Stage::Ready,
            action is Done <==> final(self).stage == Stage::Finished,
            final(self).stage == Stage::Finished ==> final(self).emitted@ == batch_events(
                final(self).items@,
                final(self).dry_run,
                final(self).verb,
                final(self).outcomes@,
            ),
            action matches Action::Run(c) ==> final(self).stage == Stage::Main && c@ == main_command(
                final(self).items@[final(self).index as int],
                final(self).verb,
                texts(final(self).extra_args@),
            ),
            action matches Action::Pause(ms) ==> final(self).stage == Stage::Pause && ms == DRY_RUN_PAUSE_MS,
    {
        let n = self.items.len();
        let ghost settled = self.outcomes@;
        while self.index < n
            invariant
                self.wf(),
                self.stage == Stage::Ready,
                n == self.items@.len(),
                self.emitted@ == start + progress_views(events@),
                self.items == old(self).items,
                self.verb == old(self).verb,
                self.dry_run == old(self).dry_run,
                self.extra_args == old(self).extra_args,
                settled == old(self).outcomes@,
                settled.len() <= self.outcomes@.len(),
                forall|j: int| 0 <= j < settled.len() ==> self.outcomes@[j] == settled[j],
                forall|j: int|
                    settled.len() <= j < self.outcomes@.len() ==> self.dry_run
                        || (#[trigger] self.items@[j]).invocation is Missing,
            decreases n - self.index,
        {
            let i = self.index;
            let ghost done_i = items_events(self.items@.subrange(0, i as int), self.dry_run, self.verb, self.outcomes@);
            events.push(InstallProgress::Started { index: i });
            if self.dry_run {
                let line = join("[DRY RUN] Would run: ", describe_item(&self.items[i], self.verb).as_str());
                events.push(InstallProgress::Log { index: i, line });
                let post: Option<String> = match &self.items[i].post_install {
                    Some(p) => Some(join("[DRY RUN] Would run post-install: ", p.as_str())),
                    None => None,
                };
                if let Some(l) = post {
                    events.push(InstallProgress::Log { index: i, line: l });
                }
                self.stage = Stage::Pause;
                self.emitted = Ghost(start + progress_views(events@));
                assert(self.emitted@.push(ProgressEvent::Succeeded(i as int)) =~= done_i + item_events(
                    self.items@[i as int],
                    i as int,
                    true,
                    self.verb,
                    not_run(),
                ));
                return Action::Pause(DRY_RUN_PAUSE_MS);
            }
            if matches!(self.items[i].invocation, Invocation::Missing) {
                events.push(InstallProgress::Failed { index: i, error: "No install method defined".to_owned() });
                assert(start + progress_views(events@) =~= done_i + item_events(self.items@[i as int], i as int, false, self.verb, not_run()));
                self.finish_item(Ghost(not_run()), Ghost(start + progress_views(events@)));
            } else {
                let c = main_command_of(&self.items[i], self.verb, &self.extra_args);
                self.stage = Stage::Main;
                self.emitted = Ghost(start + progress_views(events@));
                assert(self.emitted@ =~= done_i + seq![ProgressEvent::Started(i as int)]);
                return Action::Run(c);
            }
        }
        let ghost before = self.emitted@;
        let ghost before_events = events@;
        events.push(InstallProgress::Completed);
        assert(progress_views(events@) =~= progress_views(before_events).push(ProgressEvent::Completed));
        self.stage = Stage::Finished;
        self.emitted = Ghost(start + progress_views(events@));
        assert(self.emitted@ =~= before + seq![ProgressEvent::Completed]);
        assert(self.items@.subrange(0, n as int) =~= self.items@);
        Action::Done
    }

    /// Moves the batch on. `last` reports how the command of the previous
    /// `Run` ended (it is ignored after any other action). Returns the events
    /// to push, in order, and what to do next. Items without an install
    /// method fail at once; a failed item never stops the batch; a failed
    /// post-install command is only a warning. Every call settles the item
    /// under way (or, after a successful main command, starts its
    /// post-install command), so `remaining` drops at each call and the
    /// batch reaches `Done`. Once every item is through, `Completed` is
    /// emitted, exactly once. A dry run never asks to run a command.
    pub fn advance(&mut self, last: Result<(), String>) -> (turn: Turn)
        requires
            old(self).wf(),
        ensures
            final(self).wf(),
            final(self).items() == old(self).items(),
            final(self).verb() == old(self).verb(),
            final(self).dry_run() == old(self).dry_run(),
            final(self).extra_args() == old(self).extra_args(),
            final(self).emitted() == old(self).emitted() + progress_views(turn.events@),
            old(self).outcomes().is_prefix_of(final(self).outcomes()),
            old(self).stage() == Stage::Main && final(self).outcomes().len() > old(self).index()
                ==> final(self).outcomes()[old(self).index()].main == result_view(last),
            old(self).stage() == Stage::Post ==> final(self).outcomes()[old(self).index()] == (ItemOutcome {
                main: Ok(()),
                post: result_view(last),
            }),
            old(self).stage() == Stage::Finished ==> turn.events@.len() == 0,
            final(self).outcomes().len() == final(self).index(),
            old(self).index() <= final(self).index() <= final(self).items().len(),
            old(self).stage() == Stage::Pause ==> final(self).outcomes().len() > old(self).index(),
            old(self).stage() == Stage::Post ==> final(self).outcomes().len() > old(self).index(),
            old(self).stage() == Stage::Main ==> if last is Ok && old(self).items()[old(
                self,
            ).index()].post_install is Some {
                final(self).stage() == Stage::Post && final(self).index() == old(self).index()
            } else {
                final(self).outcomes().len() > old(self).index()
            },
            final(self).dry_run() ==> !(turn.action is Run),
            forall|j: int|
                old(self).outcomes().len() <= j < final(self).outcomes().len() && !final(self).dry_run()
                    && !(#[trigger] final(self).items()[j].invocation is Missing) ==> j == old(self).index()
                    && (old(self).stage() == Stage::Main || old(self).stage() == Stage::Post),
            final(self).stage() == Stage::Main ==> !(final(self).items()[final(self).index()].invocation is Missing),
            old(self).stage() != Stage::Finished ==> final(self).remaining() < old(self).remaining(),
            final(self).stage() != Stage::Ready,
            turn.action is Done <==> final(self).stage() == Stage::Finished,
            final(self).stage() == Stage::Finished ==> final(self).emitted() == batch_events(
                final(self).items(),
                final(self).dry_run(),
                final(self).verb(),
                final(self).outcomes(),
            ),
            turn.action matches Action::Run(c) ==> {
                ||| final(self).stage() == Stage::Main && c@ == main_command(
                    final(self).items()[final(self).index()],
                    final(self).verb(),
                    final(self).extra_args(),
                )
                ||| final(self).stage() == Stage::Post && c@ == post_command(
                    final(self).items()[final(self).index()].post_install->0@,
                )
            },
            turn.action matches Action::Pause(ms) ==> final(self).stage() == Stage::Pause && ms
                == DRY_RUN_PAUSE_MS,
    {
        let ghost start = self.emitted@;
        let ghost first = self.index as int;
        let ghost start_outcomes = self.outcomes@;
        let mut events: Vec<InstallProgress> = Vec::new();
        let n = self.items.len();
        if self.stage == Stage::Finished {
            assert(progress_views(events@) =~= seq![]);
            assert(self.items@.subrange(0, n as int) =~= self.items@);
            assert(start + progress_views(events@) =~= start);
            return Turn { events, action: Action::Done };
        }
        let ghost done = items_events(self.items@.subrange(0, first), self.dry_run, self.verb, self.outcomes@);
        if self.stage == Stage::Main {
            let i = self.index;
            let post: Option<String> = match &self.items[i].post_install {
                Some(p) => Some(p.clone()),
                None => None,
            };
            match last {
                Ok(()) => match post {
                    Some(p) => {
                        let line = join("Running post-install: ", p.as_str());
                        events.push(InstallProgress::Log { index: i, line });
                        let c = shell_command(&p);
                        self.stage = Stage::Post;
                        self.emitted = Ghost(start + progress_views(events@));
                        assert(self.emitted@ =~= done + seq![
                            ProgressEvent::Started(i as int),
                            ProgressEvent::Log(i as int, post_install_line(p@)),
                        ]);
                        return Turn { events, action: Action::Run(c) };
                    },
                    None => {
                        events.push(InstallProgress::Succeeded { index: i });
                        let ghost o = ItemOutcome { main: Ok(()), post: Ok(()) };
                        assert(start + progress_views(events@) =~= done + item_events(self.items@[first], first, false, self.verb, o));
                        self.finish_item(Ghost(o), Ghost(start + progress_views(events@)));
                    },
                },
                Err(e) => {
                    let ghost o = ItemOutcome { main: Err(e@), post: Ok(()) };
                    events.push(InstallProgress::Failed { index: i, error: e });
                    assert(start + progress_views(events@) =~= done + item_events(self.items@[first], first, false, self.verb, o));
                    self.finish_item(Ghost(o), Ghost(start + progress_views(events@)));
                },
            }
        } else if self.stage == Stage::Post {
            let i = self.index;
            let ghost o = ItemOutcome { main: Ok(()), post: result_view(last) };
            let ghost p = self.items@[first].post_install->0;
            if let Err(e) = last {
                let line = join("Post-install warning: ", e.as_str());
                events.push(InstallProgress::Log { index: i, line });
            }
            events.push(InstallProgress::Succeeded { index: i });
            assert(start + progress_views(events@) =~= done + item_events(self.items@[first], first, false, self.verb, o));
            self.finish_item(Ghost(o), Ghost(start + progress_views(events@)));
        } else if self.stage == Stage::Pause {
            let i = self.index;
            events.push(InstallProgress::Succeeded { index: i });
            assert(start + progress_views(events@) =~= start.push(ProgressEvent::Succeeded(first)));
            self.finish_item(Ghost(not_run()), Ghost(start + progress_views(events@)));
        }
        let ghost settled = self.outcomes@;
        let action = self.start_items(&mut events, Ghost(start));
        proof {
            assert(start_outcomes =~= self.outcomes@.subrange(0, start_outcomes.len() as int));
            if old(self).stage == Stage::Main && self.outcomes@.len() > first {
                assert(self.outcomes@[first] == settled[first]);
            }
            if old(self).stage == Stage::Post {
                assert(self.outcomes@[first] == settled[first]);
            }
        }
        Turn { events, action }
    }
}

/// A batch that installs `packages` in order, with `extra_args` appended to
/// every package manager invocation.
pub fn install_all(packages: &[Package], dry_run: bool, extra_args: Vec<String>) -> (r: Batch)
    ensures
        r.wf(),
        r.items() == packages@.map_values(|p: Package| install_operation(p)),
        r.verb() == Verb::Install,
        r.dry_run() == dry_run,
        r.extra_args() == texts(extra_args@),
        r.stage() == Stage::Ready,
        r.emitted() == Seq::<ProgressEvent>::empty(),
{
    let mut items: Vec<OperationItem> = Vec::new();
    let mut i: usize = 0;
    while i < packages.len()
        invariant
            i <= packages@.len(),
            items@ == packages@.subrange(0, i as int).map_values(|p: Package| install_operation(p)),
        decreases packages@.len() - i,
    {
        items.push(packages[i].install_item());
        assert(packages@.subrange(0, i + 1).map_values(|p: Package| install_operation(p)) =~= packages@.subrange(
            0,
            i as int,
        ).map_values(|p: Package| install_operation(p)).push(install_operation(packages@[i as int])));
        i += 1;
    }
    assert(packages@.subrange(0, i as int) =~= packages@);
    Batch::new(items, Verb::Install, dry_run, extra_args)
}

/// A batch that upgrades `packages` in order, with `extra_args` appended to
/// every package manager invocation.
pub fn upgrade_all(packages: &[UpgradeablePackage], dry_run: bool, extra_args: Vec<String>) -> (r: Batch)
    ensures
        r.wf(),
        r.items() == packages@.map_values(|p: UpgradeablePackage| upgrade_operation(p)),
        r.verb() == Verb::Upgrade,
        r.dry_run() == dry_run,
        r.extra_args() == texts(extra_args@),
        r.stage() == Stage::Ready,
        r.emitted() == Seq::<ProgressEvent>::empty(),
{
    let mut items: Vec<OperationItem> = Vec::new();
    let mut i: usize = 0;
    while i < packages.len()
        invariant
            i <= packages@.len(),
            items@ == packages@.subrange(0, i as int).map_values(|p: UpgradeablePackage| upgrade_operation(p)),
        decreases packages@.len() - i,
    {
        items.push(packages[i].upgrade_item());
        assert(packages@.subrange(0, i + 1).map_values(|p: UpgradeablePackage| upgrade_operation(p))
            =~= packages@.subrange(0, i as int).map_values(|p: UpgradeablePackage| upgrade_operation(p)).push(
            upgrade_operation(packages@[i as int]),
        ));
        i += 1;
    }
    assert(packages@.subrange(0, i as int) =~= packages@);
    Batch::new(items, Verb::Upgrade, dry_run, extra_args)
}

} // verus!
