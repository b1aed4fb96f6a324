use vstd::prelude::*;

use crate::text::{chars_of, contains, contains_chars, push_chars, push_str, signed_decimal, signed_decimal_chars, string_of};

verus! {

/// Bringing up atx-agent on a device: push the agent's binary and its
/// `atx.sh` script, set their permissions, start the daemon and check that it
/// runs. The steps alternate work on the device with decisions on how it
/// went; `AtxInit::step` makes the decisions and the caller does the work.
pub struct AtxInit;

/// The local files that an initialization pushes to the device.
pub struct AgentFiles {
    /// The atx-agent binary.
    pub agent: String,
    /// The `atx.sh` script.
    pub script: String,
}

/// Where an initialization stands: which step's outcome it waits for.
#[derive(PartialEq, Eq, Structural, Clone, Copy, Debug)]
pub enum InitState {
    /// Waiting for the output of `ps | grep atx-agent`.
    AwaitRunning,
    /// Waiting for the push of the agent's binary.
    AwaitPushAgent,
    /// Waiting for the push of `atx.sh`.
    AwaitPushScript,
    /// Waiting for the output of `ls /data/local/tmp/atx-agent`.
    AwaitBinary,
    /// Waiting for `chmod` to finish.
    AwaitChmod,
    /// Waiting for the agent's start command to finish.
    AwaitStart,
    /// Waiting for the pause that lets the agent come up.
    AwaitPause,
    /// Waiting for the output of `ps | grep atx-agent` after the start.
    AwaitReady,
    /// Initialization has finished.
    Finished,
}

/// What the caller does next.
#[derive(Debug)]
pub enum InitAction {
    /// Run this command in the device shell; report whether it succeeded,
    /// with what it printed or its error.
    Shell(String),
    /// Push the local file (first) to the device path (second); report
    /// whether it succeeded, with its error if not.
    Push(String, String),
    /// Wait this many seconds, then report success.
    Sleep(u64),
    /// Stop, with this result.
    Finish(Result<(), String>),
}

pub open spec fn ps_command() -> Seq<char> {
    "ps | grep atx-agent"@
}

pub open spec fn ls_command() -> Seq<char> {
    "ls /data/local/tmp/atx-agent"@
}

pub open spec fn chmod_command() -> Seq<char> {
    "chmod 755 /data/local/tmp/atx-agent /data/local/tmp/atx.sh"@
}

pub open spec fn start_command() -> Seq<char> {
    "/data/local/tmp/atx-agent server -d --addr :7912"@
}

/// Where the agent's binary goes on the device.
pub open spec fn remote_agent() -> Seq<char> {
    "/data/local/tmp/atx-agent"@
}

/// Where `atx.sh` goes on the device.
pub open spec fn remote_script() -> Seq<char> {
    "/data/local/tmp/atx.sh"@
}

/// The error when the binary is not on the device after the push.
pub open spec fn missing_binary_error() -> Seq<char> {
    "atx-agent binary not found on device"@
}

/// The error when the agent does not run after it was started.
pub open spec fn not_started_error() -> Seq<char> {
    "atx-agent did not start on device"@
}

/// The agent runs when the process list names it.
pub open spec fn agent_running(ps_output: Seq<char>) -> bool {
    contains(ps_output, "atx-agent"@)
}

/// The agent's binary is on the device when `ls` names it and does not say
/// that there is no such file.
pub open spec fn binary_present(ls_output: Seq<char>) -> bool {
    contains(ls_output, "atx-agent"@) && !contains(ls_output, "No such file"@)
}

/// The state that follows `state` once the caller reports the outcome of the
/// last step (`ok`, and what it printed or its error), and the action it asks
/// for. A process list or a listing that could not be read counts as one
/// that names nothing; a failed push ends the initialization with its error;
/// the outcome of `chmod` and of the start command is not looked at (the
/// readiness check shows whether the agent came up).
pub open spec fn step_spec(
    state: InitState,
    ok: bool,
    output: Seq<char>,
    agent: Seq<char>,
    script: Seq<char>,
) -> (InitState, InitActionView) {
    match state {
        InitState::AwaitRunning => if ok && agent_running(output) {
            (InitState::Finished, InitActionView::Finish(Ok(())))
        } else {
            (InitState::AwaitPushAgent, InitActionView::Push(agent, remote_agent()))
        },
        InitState::AwaitPushAgent => if ok {
            (InitState::AwaitPushScript, InitActionView::Push(script, remote_script()))
        } else {
            (InitState::Finished, InitActionView::Finish(Err(output)))
        },
        InitState::AwaitPushScript => if ok {
            (InitState::AwaitBinary, InitActionView::Shell(ls_command()))
        } else {
            (InitState::Finished, InitActionView::Finish(Err(output)))
        },
        InitState::AwaitBinary => if ok && binary_present(output) {
            (InitState::AwaitChmod, InitActionView::Shell(chmod_command()))
        } else {
            (InitState::Finished, InitActionView::Finish(Err(missing_binary_error())))
        },
        InitState::AwaitChmod => (InitState::AwaitStart, InitActionView::Shell(start_command())),
        InitState::AwaitStart => (InitState::AwaitPause, InitActionView::Sleep(2)),
        InitState::AwaitPause => (InitState::AwaitReady, InitActionView::Shell(ps_command())),
        InitState::AwaitReady => if ok && agent_running(output) {
            (InitState::Finished, InitActionView::Finish(Ok(())))
        } else {
            (InitState::Finished, InitActionView::Finish(Err(not_started_error())))
        },
        InitState::Finished => (InitState::Finished, InitActionView::Finish(Ok(()))),
    }
}

/// The model of an action.
pub enum InitActionView {
    Shell(Seq<char>),
    Push(Seq<char>, Seq<char>),
    Sleep(u64),
    Finish(Result<(), Seq<char>>),
}

impl View for InitAction {
    type V = InitActionView;

    open spec fn view(&self) -> InitActionView {
        match self {
            InitAction::Shell(c) => InitActionView::Shell(c@),
            InitAction::Push(l, r) => InitActionView::Push(l@, r@),
            InitAction::Sleep(s) => InitActionView::Sleep(*s),
            InitAction::Finish(Ok(())) => InitActionView::Finish(Ok(())),
            InitAction::Finish(Err(e)) => InitActionView::Finish(Err(e@)),
        }
    }
}

/// The error a failed step reports, passed on.
fn failed(output: &str) -> (r: (InitState, InitAction))
    ensures
        r.0 == InitState::Finished,
        r.1@ == InitActionView::Finish(Err(output@)),
{
    (InitState::Finished, InitAction::Finish(Err(output.to_string())))
}

impl AtxInit {
    /// How an initialization begins: it asks whether the agent runs already.
    pub fn start() -> (r: (InitState, InitAction))
        ensures
            r.0 == InitState::AwaitRunning,
            r.1@ == InitActionView::Shell(ps_command()),
    {
        (InitState::AwaitRunning, InitAction::Shell("ps | grep atx-agent".to_string()))
    }

    /// The next state and action, once the caller reports the outcome of the
    /// last step: whether it succeeded, and what it printed or its error.
    pub fn step(state: InitState, ok: bool, output: &str, files: &AgentFiles) -> (r: (InitState, InitAction))
        requires
            state != InitState::Finished,
        ensures
            (r.0, r.1@) == step_spec(state, ok, output@, files.agent@, files.script@),
    {
        let cs = chars_of(output);
        match state {
            InitState::AwaitRunning => {
                if ok && contains_chars(&cs, &chars_of("atx-agent")) {
                    (InitState::Finished, InitAction::Finish(Ok(())))
                } else {
                    (
                        InitState::AwaitPushAgent,
                        InitAction::Push(files.agent.clone(), "/data/local/tmp/atx-agent".to_string()),
                    )
                }
            },
            InitState::AwaitPushAgent => {
                if ok {
                    (
                        InitState::AwaitPushScript,
                        InitAction::Push(files.script.clone(), "/data/local/tmp/atx.sh".to_string()),
                    )
                } else {
                    failed(output)
                }
            },
            InitState::AwaitPushScript => {
                if ok {
                    (InitState::AwaitBinary, InitAction::Shell("ls /data/local/tmp/atx-agent".to_string()))
                } else {
                    failed(output)
                }
            },
            InitState::AwaitBinary => {
                if ok && contains_chars(&cs, &chars_of("atx-agent")) && !contains_chars(&cs, &chars_of("No such file")) {
                    (
                        InitState::AwaitChmod,
                        InitAction::Shell("chmod 755 /data/local/tmp/atx-agent /data/local/tmp/atx.sh".to_string()),
                    )
                } else {
                    (
                        InitState::Finished,
                        InitAction::Finish(Err("atx-agent binary not found on device".to_string())),
                    )
                }
            },
            InitState::AwaitChmod => (
                InitState::AwaitStart,
                InitAction::Shell("/data/local/tmp/atx-agent server -d --addr :7912".to_string()),
            ),
            InitState::AwaitStart => (InitState::AwaitPause, InitAction::Sleep(2)),
            InitState::AwaitPause => (InitState::AwaitReady, InitAction::Shell("ps | grep atx-agent".to_string())),
            _ => {
                if ok && contains_chars(&cs, &chars_of("atx-agent")) {
                    (InitState::Finished, InitAction::Finish(Ok(())))
                } else {
                    (InitState::Finished, InitAction::Finish(Err("atx-agent did not start on device".to_string())))
                }
            },
        }
    }

    /// The URL at which a ready agent answers.
    pub fn info_url(ip: &str, port: i64) -> (r: String)
        ensures
            r@ == "http://"@ + ip@ + ":"@ + signed_decimal(port as int) + "/info"@,
    {
        let mut out: Vec<char> = Vec::new();
        push_str(&mut out, "http://");
        push_str(&mut out, ip);
        push_str(&mut out, ":");
        push_chars(&mut out, &signed_decimal_chars(port));
        push_str(&mut out, "/info");
        string_of(&out)
    }
}

/// How many more reports an initialization in `state` needs at most.
pub open spec fn remaining_steps(state: InitState) -> nat {
    match state {
        InitState::AwaitRunning => 8,
        InitState::AwaitPushAgent => 7,
        InitState::AwaitPushScript => 6,
        InitState::AwaitBinary => 5,
        InitState::AwaitChmod => 4,
        InitState::AwaitStart => 3,
        InitState::AwaitPause => 2,
        InitState::AwaitReady => 1,
        InitState::Finished => 0,
    }
}

/// Each report brings an initialization closer to its end, whatever the
/// steps gave: it finishes after at most eight reports, and it asks for an
/// action that finishes it exactly when it moves to `Finished`.
pub proof fn lemma_init_progresses(state: InitState, ok: bool, output: Seq<char>, agent: Seq<char>, script: Seq<char>)
    requires
        state != InitState::Finished,
    ensures
        remaining_steps(step_spec(state, ok, output, agent, script).0) < remaining_steps(state),
        (step_spec(state, ok, output, agent, script).0 == InitState::Finished) == (step_spec(
            state,
            ok,
            output,
            agent,
            script,
        ).1 is Finish),
{
}

/// An initialization ends in an error only where a push failed (its error is
/// passed on), the binary was not found on the device after the pushes, or
/// the agent did not run after it was started. When the pushes succeed, the
/// binary is found and the agent runs, it ends in success, whatever `chmod`
/// and the start command reported.
pub proof fn lemma_init_fails_only_on_failed_step(
    state: InitState,
    ok: bool,
    output: Seq<char>,
    agent: Seq<char>,
    script: Seq<char>,
)
    requires
        state != InitState::Finished,
    ensures
        step_spec(state, ok, output, agent, script).1 is Finish && step_spec(state, ok, output, agent, script).1->Finish_0 is Err
            ==> {
            ||| !ok && (state == InitState::AwaitPushAgent || state == InitState::AwaitPushScript)
            ||| state == InitState::AwaitBinary && !(ok && binary_present(output))
            ||| state == InitState::AwaitReady && !(ok && agent_running(output))
        },
        (state == InitState::AwaitPushAgent || state == InitState::AwaitPushScript ==> ok) && (state
            == InitState::AwaitBinary ==> ok && binary_present(output)) && (state == InitState::AwaitReady ==> ok
            && agent_running(output)) ==> !(step_spec(state, ok, output, agent, script).1 matches InitActionView::Finish(Err(_))),
{
}

} // verus!
