//! Handing the terminal to a remote shell and taking it back.
//!
//! A hand-off takes up to four steps: the terminal is given away, the remote
//! shell runs, the user acknowledges its exit status, and the terminal is
//! taken back. `Handoff` says which step is next; its caller takes the step
//! and reports whether it succeeded. Once the terminal has been given away it
//! is taken back, whatever happens in between.

use crate::models::{Connection, ConnectionView};
use crate::text::{decimal, push_decimal};
use vstd::prelude::*;
use vstd::string::*;

verus! {

/// A step of a hand-off.
#[derive(Debug, Clone, Copy, PartialEq, Eq, Structural)]
pub enum Step {
    /// Give the terminal away: leave raw mode and the alternate screen, stop
    /// mouse reports.
    Release,
    /// Start the remote shell in the foreground and wait until it exits.
    Launch,
    /// Show the exit status and wait for one key.
    Acknowledge,
    /// Take the terminal back: enter the alternate screen, start mouse
    /// reports, enter raw mode.
    Restore,
    /// Nothing is left to do.
    Done,
}

/// The step of the hand-off that failed.
#[derive(Debug, Clone, Copy, PartialEq, Eq, Structural)]
pub enum Failure {
    /// The terminal could not be given away.
    Release,
    /// The remote shell could not be started or waited for.
    Launch,
    /// The terminal could not be taken back.
    Restore,
}

/// Where a hand-off stands.
#[derive(Debug, Clone, Copy, PartialEq, Eq, Structural)]
pub struct Handoff {
    /// The step to take next.
    pub next: Step,
    /// What has failed so far.
    pub failure: Option<Failure>,
}

impl Handoff {
    /// A hand-off of which no step has been taken.
    pub open spec fn start() -> Handoff {
        Handoff { next: Step::Release, failure: None }
    }

    /// Where the hand-off stands once the step `self.next` has been taken
    /// and has succeeded (`ok`) or failed.
    ///
    /// Without the terminal given away nothing is run. A remote shell that
    /// cannot be run is a failure, but the terminal is taken back all the
    /// same. That no key could be read is ignored. A failure to take the
    /// terminal back is reported in place of any earlier one.
    pub open spec fn after(self, ok: bool) -> Handoff {
        match self.next {
            Step::Release => if ok {
                Handoff { next: Step::Launch, ..self }
            } else {
                Handoff { next: Step::Done, failure: Some(Failure::Release) }
            },
            Step::Launch => if ok {
                Handoff { next: Step::Acknowledge, ..self }
            } else {
                Handoff { next: Step::Restore, failure: Some(Failure::Launch) }
            },
            Step::Acknowledge => Handoff { next: Step::Restore, ..self },
            Step::Restore => if ok {
                Handoff { next: Step::Done, ..self }
            } else {
                Handoff { next: Step::Done, failure: Some(Failure::Restore) }
            },
            Step::Done => self,
        }
    }

    /// Where the hand-off stands after the steps whose outcomes are
    /// `reports`, in that order.
    pub open spec fn run(self, reports: Seq<bool>) -> Handoff
        decreases reports.len(),
    {
        if reports.len() == 0 {
            self
        } else {
            self.after(reports[0]).run(reports.drop_first())
        }
    }

    /// The steps that are taken, in order, while the outcomes `reports` come
    /// in.
    pub open spec fn steps(self, reports: Seq<bool>) -> Seq<Step>
        decreases reports.len(),
    {
        if reports.len() == 0 || self.next == Step::Done {
            Seq::empty()
        } else {
            seq![self.next] + self.after(reports[0]).steps(reports.drop_first())
        }
    }

    /// A hand-off of which no step has been taken.
    pub fn new() -> (h: Handoff)
        ensures
            h == Handoff::start(),
    {
        Handoff { next: Step::Release, failure: None }
    }

    /// Records whether the step `self.next` succeeded, and moves on.
    pub fn advance(&mut self, ok: bool)
        ensures
            *final(self) == old(self).after(ok),
    {
        match self.next {
            Step::Release => {
                if ok {
                    self.next = Step::Launch;
                } else {
                    self.next = Step::Done;
                    self.failure = Some(Failure::Release);
                }
            },
            Step::Launch => {
                if ok {
                    self.next = Step::Acknowledge;
                } else {
                    self.next = Step::Restore;
                    self.failure = Some(Failure::Launch);
                }
            },
            Step::Acknowledge => {
                self.next = Step::Restore;
            },
            Step::Restore => {
                self.next = Step::Done;
                if !ok {
                    self.failure = Some(Failure::Restore);
                }
            },
            Step::Done => {},
        }
    }
}

/// A finished hand-off stays as it is.
pub proof fn lemma_done_stays(h: Handoff, reports: Seq<bool>)
    requires
        h.next == Step::Done,
    ensures
        h.run(reports) == h,
        h.steps(reports) == Seq::<Step>::empty(),
    decreases reports.len(),
{
    if reports.len() > 0 {
        lemma_done_stays(h, reports.drop_first());
    }
}

/// The course of every hand-off. It is over after four steps at most. Where
/// the terminal cannot be given away, nothing else is tried. Where it has
/// been given away, it is taken back exactly once, as the last step, whether
/// or not the remote shell could be run; the exit status is acknowledged only
/// where the shell did run. The hand-off succeeds if and only if the
/// terminal was given away, the shell ran, and the terminal was taken back.
pub proof fn lemma_handoff_course(reports: Seq<bool>)
    requires
        reports.len() >= 4,
    ensures
        Handoff::start().run(reports).next == Step::Done,
        !reports[0] ==> Handoff::start().steps(reports) == seq![Step::Release]
            && Handoff::start().run(reports).failure == Some(Failure::Release),
        reports[0] && !reports[1] ==> Handoff::start().steps(reports) == seq![
            Step::Release,
            Step::Launch,
            Step::Restore,
        ] && Handoff::start().run(reports).failure == Some(
            if reports[2] {
                Failure::Launch
            } else {
                Failure::Restore
            },
        ),
        reports[0] && reports[1] ==> Handoff::start().steps(reports) == seq![
            Step::Release,
            Step::Launch,
            Step::Acknowledge,
            Step::Restore,
        ] && Handoff::start().run(reports).failure == (if reports[3] {
            None
        } else {
            Some(Failure::Restore)
        }),
{
    let h0 = Handoff::start();
    let r1 = reports.drop_first();
    let r2 = r1.drop_first();
    let r3 = r2.drop_first();
    let r4 = r3.drop_first();
    let h1 = h0.after(reports[0]);
    let h2 = h1.after(r1[0]);
    let h3 = h2.after(r2[0]);
    let h4 = h3.after(r3[0]);
    assert(r1[0] == reports[1] && r2[0] == reports[2] && r3[0] == reports[3]);
    assert(h0.run(reports) == h1.run(r1));
    assert(h1.run(r1) == h2.run(r2));
    assert(h2.run(r2) == h3.run(r3));
    assert(h3.run(r3) == h4.run(r4));
    assert(h0.steps(reports) == seq![h0.next] + h1.steps(r1));
    if !reports[0] {
        lemma_done_stays(h1, r1);
        assert(h0.steps(reports) =~= seq![Step::Release]);
    } else {
        assert(h1.steps(r1) == seq![h1.next] + h2.steps(r2));
        assert(h2.steps(r2) == seq![h2.next] + h3.steps(r3));
        if !reports[1] {
            lemma_done_stays(h3, r3);
            assert(h0.steps(reports) =~= seq![Step::Release, Step::Launch, Step::Restore]);
        } else {
            assert(h3.steps(r3) == seq![h3.next] + h4.steps(r4));
            lemma_done_stays(h4, r4);
            assert(h0.steps(reports) =~= seq![
                Step::Release,
                Step::Launch,
                Step::Acknowledge,
                Step::Restore,
            ]);
        }
    }
}

/// How the remote shell is started.
#[derive(Debug)]
pub struct Launch {
    /// The program to run.
    pub program: String,
    /// Its arguments.
    pub args: Vec<String>,
    /// The value of the environment variable `TERM`.
    pub term: String,
}

/// The views of the strings in `v`.
pub open spec fn string_views(v: Seq<String>) -> Seq<Seq<char>> {
    v.map_values(|s: String| s@)
}

/// The arguments of the remote shell: `user@host`, then `-p` and the port
/// where a port is set.
pub open spec fn arguments_of(c: ConnectionView) -> Seq<Seq<char>> {
    seq![c.user + seq!['@'] + c.host] + match c.port {
        Some(p) => seq!["-p"@, decimal(p as nat)],
        None => Seq::empty(),
    }
}

/// The terminal type of a connection: its own, or `xterm-256color`.
pub open spec fn term_of(c: ConnectionView) -> Seq<char> {
    match c.term {
        Some(t) => t,
        None => "xterm-256color"@,
    }
}

/// How the remote shell is started for `conn`.
pub fn launch_of(conn: &Connection) -> (l: Launch)
    ensures
        l.program@ == "ssh"@,
        string_views(l.args@) == arguments_of(conn@),
        l.term@ == term_of(conn@),
{
    let mut target = conn.user.clone();
    target.push('@');
    target.append(conn.host.as_str());
    assert(target@ =~= conn@.user + seq!['@'] + conn@.host);
    let mut args: Vec<String> = Vec::new();
    args.push(target);
    assert(string_views(args@) =~= seq![conn@.user + seq!['@'] + conn@.host]);
    match conn.port {
        Some(p) => {
            let mut number = String::new();
            push_decimal(&mut number, p as u64);
            assert(number@ =~= decimal(p as nat));
            let flag = String::from_str("-p");
            let ghost one = string_views(args@);
            args.push(flag);
            args.push(number);
            assert(string_views(args@) =~= one + seq!["-p"@, decimal(p as nat)]);
        },
        None => {
            assert(string_views(args@) =~= string_views(args@) + Seq::<Seq<char>>::empty());
        },
    }
    let term = match &conn.term {
        Some(t) => t.clone(),
        None => String::from_str("xterm-256color"),
    };
    Launch { program: String::from_str("ssh"), args, term }
}

} // verus!
