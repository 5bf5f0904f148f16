//! Readiness: what is probed, and when waiting ends.

use crate::cli::wait;
use crate::text;
use vstd::prelude::*;

verus! {

/// What is waited for, and for how long.
#[derive(Debug)]
pub struct Probe {
    pub what: String,
    pub timeout_secs: u64,
}

/// What a round of waiting comes to.
#[derive(Debug)]
pub enum PollStep {
    Ready,
    Wait,
    Failed(String),
}

/// Wait for a service to answer on its allocated port: at an HTTP path, or with any connection.
pub fn wait_for_port(port: u16, http_path: &Option<String>, timeout_secs: u64) -> (r: Probe)
    ensures
        r.timeout_secs == timeout_secs,
        r.what@ == (match *http_path {
            Some(path) => "http://localhost:"@ + text::decimal_of(port as nat) + path@,
            None => "tcp localhost:"@ + text::decimal_of(port as nat),
        }),
{
    let what = match http_path {
        Some(path) => {
            let mut r = text::own("http://localhost:");
            r.append(&text::decimal(port as u64));
            r.append(path);
            r
        },
        None => text::concat("tcp localhost:", &text::decimal(port as u64)),
    };
    Probe { what, timeout_secs }
}

/// Wait for a command to succeed.
pub fn wait_for_command(command: &str, timeout_secs: u64) -> (r: Probe)
    ensures
        r.timeout_secs == timeout_secs,
        r.what@ == "`"@ + command@ + "`"@,
{
    let mut what = text::own("`");
    what.append(command);
    what.append("`");
    Probe { what, timeout_secs }
}

impl Probe {
    /// What a round comes to: the probe's answer decides first; a service whose process is gone
    /// will never answer; and waiting ends with the time it was given.
    pub fn step(&self, answered: bool, alive: Option<bool>, elapsed_millis: u64) -> (r: PollStep)
        ensures
            match r {
                PollStep::Ready => answered,
                PollStep::Failed(e) => !answered && (if alive == Some(false) {
                    e@ == "the process exited during startup"@
                } else {
                    elapsed_millis >= self.timeout_secs * 1000 && e@ == "timed out after "@
                        + text::decimal_of(self.timeout_secs as nat) + "s waiting for "@
                        + self.what@
                }),
                PollStep::Wait => !answered && alive != Some(false) && elapsed_millis
                    < self.timeout_secs * 1000,
            },
            wait::round_of(r) == wait::probe_round(
                self.what@,
                self.timeout_secs,
                answered,
                alive,
                elapsed_millis,
            ),
    {
        if answered {
            return PollStep::Ready;
        }
        if let Some(alive) = alive {
            if !alive {
                return PollStep::Failed(text::own("the process exited during startup"));
            }
        }
        if elapsed_millis as u128 >= self.timeout_secs as u128 * 1000 {
            let mut e = text::own("timed out after ");
            e.append(&text::decimal(self.timeout_secs));
            e.append("s waiting for ");
            e.append(&self.what);
            return PollStep::Failed(e);
        }
        PollStep::Wait
    }
}

/// The loopback addresses a local service may bind, with a port. A dev server asked to listen on
/// `localhost` often binds IPv6 only, so probing a single family reports a healthy service as
/// unreachable.
pub fn addresses(port: u16) -> (r: Vec<String>)
    ensures
        text::views(r@) == seq![
            "127.0.0.1:"@ + text::decimal_of(port as nat),
            "[::1]:"@ + text::decimal_of(port as nat),
        ],
{
    let mut r: Vec<String> = Vec::new();
    let number = text::decimal(port as u64);
    text::add(&mut r, &text::concat("127.0.0.1:", &number));
    text::add(&mut r, &text::concat("[::1]:", &number));
    assert(text::views(r@) =~= seq![
        "127.0.0.1:"@ + text::decimal_of(port as nat),
        "[::1]:"@ + text::decimal_of(port as nat),
    ]);
    r
}

} // verus!
