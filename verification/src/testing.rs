//! A scripted launcher, so the whole transcript pipeline runs with no credentials and no network.
//!
//! Every claim the crate makes — that a blocking hook cannot replace the report, that a failure
//! keeps what it collected, that the child does not inherit the host session — is about what
//! happens between a spawn and a stream, and none of it is testable against a real CLI.
//!
//! The launcher decides what a scripted child writes and how it answers; whoever drives it puts
//! the text into the capture files.

use vstd::prelude::*;

use crate::launch::{holds_pid, ExitStatus, Launched, Liveness};
use crate::ordered::TextMap;
use crate::text::{list_holds, listed, same, text_of};

verus! {

/// What one scripted child does when it is launched.
pub struct Script {
    /// The event stream the child writes to its capture file.
    pub events: String,
    /// What the child writes to its stderr file.
    pub stderr: String,
    /// The exit status a later reap reports, or `None` for a child that is still running.
    pub exit: Option<ExitStatus>,
    /// Events appended to the capture file the first time this child is observed leaving.
    ///
    /// A child that exits on its own flushes at its first observation; one that is still running
    /// flushes once it has been asked to stop.
    /// Both model a real child flushing the tail of its stream as it exits.
    pub flush_on_departure: Option<String>,
}

/// What a [`Script`] says.
#[verifier::ext_equal]
pub struct ScriptModel {
    /// The event stream.
    pub events: Seq<char>,
    /// The stderr text.
    pub stderr: Seq<char>,
    /// The exit status.
    pub exit: Option<ExitStatus>,
    /// The tail flushed on departure.
    pub flush_on_departure: Option<Seq<char>>,
}

impl View for Script {
    type V = ScriptModel;

    open spec fn view(&self) -> ScriptModel {
        ScriptModel {
            events: self.events@,
            stderr: self.stderr@,
            exit: self.exit,
            flush_on_departure: text_of(self.flush_on_departure),
        }
    }
}

/// A clean exit.
pub open spec fn exit_code(code: i32) -> Option<ExitStatus> {
    Some(ExitStatus { code: Some(code), signal: None })
}

impl Default for Script {
    fn default() -> (r: Self)
        ensures
            r@ == (ScriptModel {
                events: Seq::empty(),
                stderr: Seq::empty(),
                exit: None,
                flush_on_departure: None,
            }),
    {
        Script {
            events: String::new(),
            stderr: String::new(),
            exit: None,
            flush_on_departure: None,
        }
    }
}

impl Clone for Script {
    fn clone(&self) -> (r: Self)
        ensures
            r@ == self@,
    {
        Script {
            events: self.events.clone(),
            stderr: self.stderr.clone(),
            exit: self.exit,
            flush_on_departure: self.flush_on_departure.clone(),
        }
    }
}

impl Script {
    /// A child that emits `events` and exits cleanly.
    pub fn completed(events: &str) -> (r: Self)
        ensures
            r@ == (ScriptModel {
                events: events@,
                stderr: Seq::empty(),
                exit: exit_code(0),
                flush_on_departure: None,
            }),
    {
        Script {
            events: events.to_owned(),
            stderr: String::new(),
            exit: Some(ExitStatus { code: Some(0), signal: None }),
            flush_on_departure: None,
        }
    }

    /// A child that emits `events`, writes `stderr`, and exits with `code`.
    pub fn exited(events: &str, stderr: &str, code: i32) -> (r: Self)
        ensures
            r@ == (ScriptModel {
                events: events@,
                stderr: stderr@,
                exit: exit_code(code),
                flush_on_departure: None,
            }),
    {
        Script {
            events: events.to_owned(),
            stderr: stderr.to_owned(),
            exit: Some(ExitStatus { code: Some(code), signal: None }),
            flush_on_departure: None,
        }
    }

    /// A child that emits `events` and is still running.
    pub fn running(events: &str) -> (r: Self)
        ensures
            r@ == (ScriptModel {
                events: events@,
                stderr: Seq::empty(),
                exit: None,
                flush_on_departure: None,
            }),
    {
        Script {
            events: events.to_owned(),
            stderr: String::new(),
            exit: None,
            flush_on_departure: None,
        }
    }

    /// A child that emits `events`, then flushes `tail` and exits at the moment it is first
    /// observed.
    ///
    /// This reproduces the one interleaving that matters: agentmux reads the capture file, the
    /// child writes its terminal event and exits, and only then is the process observed.
    pub fn flushes_as_it_exits(events: &str, tail: &str) -> (r: Self)
        ensures
            r@ == (ScriptModel {
                events: events@,
                stderr: Seq::empty(),
                exit: exit_code(0),
                flush_on_departure: Some(tail@),
            }),
    {
        Script {
            events: events.to_owned(),
            stderr: String::new(),
            exit: Some(ExitStatus { code: Some(0), signal: None }),
            flush_on_departure: Some(tail.to_owned()),
        }
    }

    /// A child that emits `events`, keeps running, and flushes `tail` as it dies once it has been
    /// asked to stop.
    ///
    /// Models a delegate that had already finished its turn when the signal landed and got its
    /// terminal event out before going.
    pub fn flushes_when_stopped(events: &str, tail: &str) -> (r: Self)
        ensures
            r@ == (ScriptModel {
                events: events@,
                stderr: Seq::empty(),
                exit: None,
                flush_on_departure: Some(tail@),
            }),
    {
        Script {
            events: events.to_owned(),
            stderr: String::new(),
            exit: None,
            flush_on_departure: Some(tail.to_owned()),
        }
    }
}

/// What a scripted launcher was actually asked to run.
pub struct RecordedLaunch {
    /// The executable name.
    pub program: String,
    /// The argument vector, excluding `argv[0]`.
    pub args: Vec<String>,
    /// The child's entire environment.
    pub env: TextMap<String>,
    /// The directory the child was started in.
    pub cwd: String,
    /// Where the child's event stream was captured.
    pub events: String,
    /// The question that would have been the child's stdin.
    pub question: String,
}

impl RecordedLaunch {
    /// Whether the argument vector contains `flag` followed by exactly `value`.
    pub fn has_flag_with(&self, flag: &str, value: &str) -> (r: bool)
        ensures
            r == exists|i: int|
                0 <= i < self.args@.len() - 1 && (#[trigger] self.args@[i])@ == flag@
                    && self.args@[i + 1]@ == value@,
    {
        let mut i: usize = 0;
        while self.args.len() > 1 && i < self.args.len() - 1
            invariant
                i <= self.args.len(),
                forall|j: int|
                    0 <= j < i && j < self.args@.len() - 1 ==> !((#[trigger] self.args@[j])@
                        == flag@ && self.args@[j + 1]@ == value@),
            decreases self.args.len() - i,
        {
            if same(self.args[i].as_str(), flag) && same(self.args[i + 1].as_str(), value) {
                assert(self.args@[i as int]@ == flag@);
                return true;
            }
            i = i + 1;
        }
        false
    }

    /// Whether the argument vector contains `flag` at all.
    pub fn has_flag(&self, flag: &str) -> (r: bool)
        ensures
            r == listed(self.args@, flag@),
    {
        list_holds(&self.args, flag)
    }
}

/// Pids above `i32::MAX` so a stray reap can never name a real process.
pub const FAKE_PID_BASE: u32 = 4_000_000_000;

/// A launcher that plays back canned event streams instead of starting processes.
pub struct ScriptedLauncher {
    scripts: Vec<Script>,
    launches: Vec<RecordedLaunch>,
    terminated: Vec<u32>,
    killed: Vec<u32>,
    flushed: Vec<u32>,
}

/// What a [`ScriptedLauncher`] knows.
#[verifier::ext_equal]
pub struct ScriptedModel {
    /// The scripts, one per launch.
    pub scripts: Seq<ScriptModel>,
    /// What the launcher was asked to run, in order.
    pub launches: Seq<RecordedLaunch>,
    /// The pids asked to stop.
    pub terminated: Seq<u32>,
    /// The pids stopped outright.
    pub killed: Seq<u32>,
    /// The pids whose tail has been handed out.
    pub flushed: Seq<u32>,
}

impl View for ScriptedLauncher {
    type V = ScriptedModel;

    closed spec fn view(&self) -> ScriptedModel {
        ScriptedModel {
            scripts: self.scripts@.map_values(|s: Script| s@),
            launches: self.launches@,
            terminated: self.terminated@,
            killed: self.killed@,
            flushed: self.flushed@,
        }
    }
}

/// The script a launch plays; a launch beyond the last script plays nothing and keeps running.
pub open spec fn script_at(scripts: Seq<ScriptModel>, index: int) -> ScriptModel {
    if 0 <= index < scripts.len() {
        scripts[index]
    } else {
        ScriptModel {
            events: Seq::empty(),
            stderr: Seq::empty(),
            exit: None,
            flush_on_departure: None,
        }
    }
}

/// Which launch a pid belongs to.
pub open spec fn launch_of(pid: u32) -> int {
    if pid >= FAKE_PID_BASE {
        pid - FAKE_PID_BASE
    } else {
        0
    }
}

impl ScriptedModel {
    /// Whether a scripted child has been asked to stop.
    ///
    /// A scripted child is cooperative: it dies on the first request.
    pub open spec fn stopped(self, pid: u32) -> bool {
        self.terminated.contains(pid) || self.killed.contains(pid)
    }

    /// The script of a child.
    pub open spec fn script(self, pid: u32) -> ScriptModel {
        script_at(self.scripts, launch_of(pid))
    }

    /// Whether a child is leaving.
    pub open spec fn leaving(self, pid: u32) -> bool {
        self.script(pid).exit is Some || self.stopped(pid)
    }

    /// The tail a child flushes when it is observed now.
    pub open spec fn due(self, pid: u32) -> Option<Seq<char>> {
        if self.leaving(pid) && !self.flushed.contains(pid) {
            self.script(pid).flush_on_departure
        } else {
            None
        }
    }

    /// The launcher after a child was observed.
    pub open spec fn observed(self, pid: u32) -> ScriptedModel {
        if self.due(pid) is Some {
            ScriptedModel { flushed: self.flushed.push(pid), ..self }
        } else {
            self
        }
    }
}

/// What one observation of a scripted child comes to.
pub struct Observation {
    /// What the child flushes to its capture file first, where it flushes anything.
    pub flush: Option<String>,
    /// Whether it is still there.
    pub liveness: Liveness,
    /// Its exit status, where it has one.
    pub exit: Option<ExitStatus>,
}

impl ScriptedLauncher {
    /// A launcher that will play `scripts` in order, one per launch.
    pub fn new(scripts: Vec<Script>) -> (r: Self)
        ensures
            r@ == (ScriptedModel {
                scripts: scripts@.map_values(|s: Script| s@),
                launches: Seq::empty(),
                terminated: Seq::empty(),
                killed: Seq::empty(),
                flushed: Seq::empty(),
            }),
    {
        ScriptedLauncher {
            scripts,
            launches: Vec::new(),
            terminated: Vec::new(),
            killed: Vec::new(),
            flushed: Vec::new(),
        }
    }

    /// Everything the launcher was asked to run, in order.
    pub fn launches(&self) -> (r: &Vec<RecordedLaunch>)
        ensures
            r@ == self@.launches,
    {
        &self.launches
    }

    /// The pids the launcher was asked to terminate.
    pub fn terminated(&self) -> (r: &Vec<u32>)
        ensures
            r@ == self@.terminated,
    {
        &self.terminated
    }

    /// The pids the launcher was asked to kill outright, after termination was not enough.
    pub fn killed(&self) -> (r: &Vec<u32>)
        ensures
            r@ == self@.killed,
    {
        &self.killed
    }

    fn script_for(&self, index: usize) -> (r: Script)
        ensures
            r@ == script_at(self@.scripts, index as int),
    {
        if index < self.scripts.len() {
            assert(self@.scripts[index as int] == self.scripts@[index as int]@);
            self.scripts[index].clone()
        } else {
            Script::default()
        }
    }

    fn stopped(&self, pid: u32) -> (r: bool)
        ensures
            r == self@.stopped(pid),
    {
        holds_pid(&self.terminated, pid) || holds_pid(&self.killed, pid)
    }

    /// Record a launch, and say what its child writes to its capture file and to stderr.
    pub fn launch(&mut self, recorded: RecordedLaunch) -> (r: (Launched, Script))
        ensures
            final(self)@ == (ScriptedModel {
                launches: old(self)@.launches.push(recorded),
                ..old(self)@
            }),
            r.0 == (Launched {
                pid: if FAKE_PID_BASE + old(self)@.launches.len() <= u32::MAX {
                    (FAKE_PID_BASE + old(self)@.launches.len()) as u32
                } else if old(self)@.launches.len() <= u32::MAX {
                    u32::MAX
                } else {
                    FAKE_PID_BASE
                },
                process_group: None,
                started: None,
            }),
            r.1@ == script_at(old(self)@.scripts, old(self)@.launches.len() as int),
    {
        let index: usize = self.launches.len();
        let script = self.script_for(index);
        self.launches.push(recorded);
        let offset: u32 = if index <= 4_294_967_295usize {
            index as u32
        } else {
            0
        };
        (
            Launched {
                pid: FAKE_PID_BASE.saturating_add(offset),
                process_group: None,
                started: None,
            },
            script,
        )
    }

    /// Observe a child: what it flushes first, whether it is there, and how it ended.
    ///
    /// The flush happens before the answer, so a caller that reads the capture file and then
    /// observes the process sees exactly the interleaving a real exiting child produces.
    /// A stopped child reports the signal that stopped it, as a real one would.
    pub fn observe(&mut self, launched: Launched) -> (r: Observation)
        ensures
            final(self)@ == old(self)@.observed(launched.pid),
            text_of(r.flush) == old(self)@.due(launched.pid),
            r.liveness == if old(self)@.leaving(launched.pid) {
                Liveness::Gone
            } else {
                Liveness::Alive
            },
            r.exit == match old(self)@.script(launched.pid).exit {
                Some(status) => Some(status),
                None => if old(self)@.stopped(launched.pid) {
                    Some(ExitStatus { code: None, signal: Some(15i32) })
                } else {
                    None
                },
            },
    {
        let pid: u32 = launched.pid;
        let index: usize = if pid >= FAKE_PID_BASE {
            (pid - FAKE_PID_BASE) as usize
        } else {
            0
        };
        let script = self.script_for(index);
        let stopped = self.stopped(pid);
        let leaving = script.exit.is_some() || stopped;
        let due = leaving && script.flush_on_departure.is_some() && !holds_pid(&self.flushed, pid);
        let flush = if due {
            self.flushed.push(pid);
            script.flush_on_departure.clone()
        } else {
            None
        };
        Observation {
            flush,
            liveness: if leaving {
                Liveness::Gone
            } else {
                Liveness::Alive
            },
            exit: match script.exit {
                Some(status) => Some(status),
                None => if stopped {
                    Some(ExitStatus { code: None, signal: Some(15) })
                } else {
                    None
                },
            },
        }
    }

    /// Ask a child to stop.
    ///
    /// Recorded only for a child that is still there, as the real launcher delivers it.
    /// What the observation flushes is handed back.
    pub fn terminate(&mut self, launched: Launched) -> (r: Option<String>)
        ensures
            text_of(r) == old(self)@.due(launched.pid),
            final(self)@ == if old(self)@.leaving(launched.pid) {
                old(self)@.observed(launched.pid)
            } else {
                ScriptedModel {
                    terminated: old(self)@.terminated.push(launched.pid),
                    ..old(self)@
                }
            },
    {
        let seen = self.observe(launched);
        if seen.liveness == Liveness::Alive {
            self.terminated.push(launched.pid);
        }
        seen.flush
    }

    /// Stop a child outright.
    pub fn kill(&mut self, launched: Launched) -> (r: Option<String>)
        ensures
            text_of(r) == old(self)@.due(launched.pid),
            final(self)@ == if old(self)@.leaving(launched.pid) {
                old(self)@.observed(launched.pid)
            } else {
                ScriptedModel { killed: old(self)@.killed.push(launched.pid), ..old(self)@ }
            },
    {
        let seen = self.observe(launched);
        if seen.liveness == Liveness::Alive {
            self.killed.push(launched.pid);
        }
        seen.flush
    }
}

/// A child flushes once: after it has been observed leaving, there is nothing left to flush.
pub proof fn a_child_flushes_once(launcher: ScriptedModel, pid: u32)
    requires
        launcher.leaving(pid),
    ensures
        launcher.observed(pid).due(pid) is None,
{
    if launcher.due(pid) is Some {
        let after = launcher.flushed.push(pid);
        assert(after[after.len() - 1] == pid);
    }
}

/// A child asked to stop has gone at the next look.
pub proof fn a_stopped_child_has_gone(launcher: ScriptedModel, pid: u32)
    ensures
        (ScriptedModel { terminated: launcher.terminated.push(pid), ..launcher }).leaving(pid),
{
    let after = launcher.terminated.push(pid);
    assert(after[after.len() - 1] == pid);
}

} // verus!
