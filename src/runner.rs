//! The decisions of the process runner and of the scans: how a classified
//! output line becomes a progress event, and how an exit status becomes a
//! result. Spawning, reading and waiting are the caller's.
use vstd::prelude::*;

use crate::batch::InstallProgress;
use crate::text::texts;
use crate::classify::LineEvent;
use crate::table::{InstalledPackage, UpgradeablePackage};
use crate::transient::{is_transient, transient};

verus! {

/// The progress event for a line of item `index`'s output: finalized lines
/// that look like redraw noise are demoted to activity; everything else keeps
/// its kind.
pub fn progress_for_line(index: usize, event: LineEvent) -> (r: InstallProgress)
    ensures
        match event {
            LineEvent::Log(l) => if transient(l@) {
                r matches InstallProgress::Activity { index: i, line } && i == index && line@ == l@
            } else {
                r matches InstallProgress::Log { index: i, line } && i == index && line@ == l@
            },
            LineEvent::Activity(l) => r matches InstallProgress::Activity { index: i, line } && i
                == index && line@ == l@,
        },
{
    match event {
        LineEvent::Log(line) => {
            if is_transient(line.as_str()) {
                InstallProgress::Activity { index, line }
            } else {
                InstallProgress::Log { index, line }
            }
        },
        LineEvent::Activity(line) => InstallProgress::Activity { index, line },
    }
}

/// The decimal digits of `n`.
pub open spec fn digits(n: nat) -> Seq<char>
    decreases n,
{
    let d = ((n % 10) + 48) as char;
    if n < 10 {
        seq![d]
    } else {
        digits(n / 10).push(d)
    }
}

/// `n` in decimal, with a leading `-` when negative.
pub open spec fn decimal(n: int) -> Seq<char> {
    if n < 0 {
        seq!['-'] + digits((-n) as nat)
    } else {
        digits(n as nat)
    }
}

/// The text of the decimal digit `d`.
fn digit_text(d: u64) -> (r: &'static str)
    requires
        d < 10,
    ensures
        r@ == seq![(d + 48) as char],
{
    proof {
        reveal_strlit("0");
        reveal_strlit("1");
        reveal_strlit("2");
        reveal_strlit("3");
        reveal_strlit("4");
        reveal_strlit("5");
        reveal_strlit("6");
        reveal_strlit("7");
        reveal_strlit("8");
        reveal_strlit("9");
    }
    let r = if d == 0 {
        "0"
    } else if d == 1 {
        "1"
    } else if d == 2 {
        "2"
    } else if d == 3 {
        "3"
    } else if d == 4 {
        "4"
    } else if d == 5 {
        "5"
    } else if d == 6 {
        "6"
    } else if d == 7 {
        "7"
    } else if d == 8 {
        "8"
    } else {
        "9"
    };
    assert(r@ =~= seq![(d + 48) as char]);
    r
}

/// Appends the decimal digits of `n` to `s`.
fn push_digits(s: &mut String, n: u64)
    ensures
        final(s)@ == old(s)@ + digits(n as nat),
    decreases n,
{
    if n >= 10 {
        push_digits(s, n / 10);
    }
    s.append(digit_text(n % 10));
    assert(final(s)@ =~= old(s)@ + digits(n as nat));
}

/// `n` in decimal, with a leading `-` when negative.
fn decimal_string(n: i32) -> (r: String)
    ensures
        r@ == decimal(n as int),
{
    let mut s = String::new();
    if n < 0 {
        s.append("-");
        let m: u64 = (0i64 - n as i64) as u64;
        push_digits(&mut s, m);
        proof {
            reveal_strlit("-");
        }
        assert(s@ =~= seq!['-'] + digits((-(n as int)) as nat));
    } else {
        push_digits(&mut s, n as u64);
        assert(s@ =~= digits(n as nat));
    }
    s
}

/// The exit code reported when the process gave none.
pub const NO_EXIT_CODE: i32 = -1;

pub open spec fn exit_message(code: Option<i32>) -> Seq<char> {
    "Exit code: "@ + decimal(
        match code {
            Some(c) => c as int,
            None => NO_EXIT_CODE as int,
        },
    )
}

/// The result of a command from its exit status: success, or the exit code
/// (or `-1` when there is none).
pub fn exit_result(success: bool, code: Option<i32>) -> (r: Result<(), String>)
    ensures
        success ==> r is Ok,
        !success ==> (r matches Err(e) && e@ == exit_message(code)),
{
    if success {
        Ok(())
    } else {
        let c = match code {
            Some(c) => c,
            None => NO_EXIT_CODE,
        };
        let mut msg = "Exit code: ".to_owned();
        let digits = decimal_string(c);
        msg.append(digits.as_str());
        Err(msg)
    }
}

/// Progress of a scan of the installed packages.
#[derive(Debug, Clone)]
pub enum InstalledScanProgress {
    Activity { line: String },
    Completed { packages: Vec<InstalledPackage> },
    Failed { error: String },
}

/// Progress of a scan for upgradeable packages.
#[derive(Debug, Clone)]
pub enum ScanProgress {
    Activity { line: String },
    Log { line: String },
    Completed { packages: Vec<UpgradeablePackage> },
    Failed { error: String },
}

/// A line of `list` output, as progress: every line is shown as activity.
pub fn installed_scan_progress(event: LineEvent) -> (r: InstalledScanProgress)
    ensures
        r matches InstalledScanProgress::Activity { line } && line@ == event@.1,
{
    match event {
        LineEvent::Log(line) => InstalledScanProgress::Activity { line },
        LineEvent::Activity(line) => InstalledScanProgress::Activity { line },
    }
}

/// A line of `upgrade` output, as progress: it keeps its kind.
pub fn upgrade_scan_progress(event: LineEvent) -> (r: ScanProgress)
    ensures
        match event {
            LineEvent::Log(l) => r matches ScanProgress::Log { line } && line@ == l@,
            LineEvent::Activity(l) => r matches ScanProgress::Activity { line } && line@ == l@,
        },
{
    match event {
        LineEvent::Log(line) => ScanProgress::Log { line },
        LineEvent::Activity(line) => ScanProgress::Activity { line },
    }
}

/// The finalized lines among `events`, kept for the table parser.
pub open spec fn finalized_texts(events: Seq<LineEvent>) -> Seq<Seq<char>>
    decreases events.len(),
{
    if events.len() == 0 {
        seq![]
    } else {
        let rest = finalized_texts(events.drop_last());
        match events.last() {
            LineEvent::Log(l) => rest.push(l@),
            LineEvent::Activity(_) => rest,
        }
    }
}

/// Appends the finalized lines among `events` to `lines`, in order.
pub fn collect_finalized(lines: &mut Vec<String>, events: &Vec<LineEvent>)
    ensures
        texts(final(lines)@) == texts(old(lines)@) + finalized_texts(
            events@,
        ),
{
    let mut i: usize = 0;
    assert(events@.subrange(0, 0) =~= Seq::<LineEvent>::empty());
    assert(texts(lines@) =~= texts(old(lines)@) + Seq::<Seq<char>>::empty());
    while i < events.len()
        invariant
            i <= events@.len(),
            texts(lines@) == texts(old(lines)@) + finalized_texts(
                events@.subrange(0, i as int),
            ),
        decreases events@.len() - i,
    {
        assert(events@.subrange(0, i + 1).drop_last() =~= events@.subrange(0, i as int));
        let ghost prev = lines@;
        match &events[i] {
            LineEvent::Log(l) => {
                lines.push(l.clone());
                assert(texts(lines@) =~= texts(prev).push(l@));
            },
            LineEvent::Activity(_) => {},
        }
        i += 1;
    }
    assert(events@.subrange(0, i as int) =~= events@);
}

/// The arguments of an upgrade scan.
pub fn upgrade_scan_args(include_unknown: bool) -> (r: Vec<String>)
    ensures
        texts(r@) == if include_unknown {
            seq!["upgrade"@, "--include-unknown"@]
        } else {
            seq!["upgrade"@]
        },
{
    let mut args: Vec<String> = Vec::new();
    args.push("upgrade".to_owned());
    if include_unknown {
        args.push("--include-unknown".to_owned());
    }
    proof {
        if include_unknown {
            assert(texts(args@) =~= seq!["upgrade"@, "--include-unknown"@]);
        } else {
            assert(texts(args@) =~= seq!["upgrade"@]);
        }
    }
    args
}

} // verus!
