//! The supervisor of the one server process: whether a launch is due, how
//! the process is launched, what is held afterwards, and how it is
//! stopped. The caller launches and signals; everything decided is decided
//! here.

use crate::binary::{resolve_server_binary, resolved_binary};
use crate::conf::{is_safe, is_seed_action, seed_server_conf, ConfFile, SeedAction};
use crate::paths::Platform;
use crate::text::{text_result, views};
use vstd::prelude::*;

verus! {

/// The handle of the server process, if one is held. `H` is whatever
/// the caller's process API hands out; at most one is held at any time.
pub struct ServerState<H> {
    tracked_child: Option<H>,
}

/// What a request to spawn comes to.
#[derive(Debug, Clone, Copy, PartialEq, Eq)]
pub enum SpawnDecision {
    /// A process is held: nothing is launched, the request has succeeded.
    AlreadyRunning,
    /// Nothing is held: seed the configuration, resolve the binary, and
    /// launch.
    Launch,
}

/// How the server is launched.
#[derive(Debug, Clone, PartialEq, Eq)]
pub struct LaunchCommand {
    /// The binary.
    pub program: String,
    /// The name of the one environment variable that is set.
    pub env_name: String,
    /// Its value.
    pub env_value: String,
    /// The arguments.
    pub args: Vec<String>,
}

/// The command that stops every process that goes by the server's name.
/// It goes by the name alone: a process of another program that happens to
/// carry the name is stopped as well.
#[derive(Debug, Clone, PartialEq, Eq)]
pub struct SweepCommand {
    /// The program.
    pub program: String,
    /// Its arguments.
    pub args: Vec<String>,
}

/// What a launch takes, once it is due.
#[derive(Debug, PartialEq, Eq)]
pub struct SpawnPlan {
    /// What to do about the configuration file, before anything else.
    pub seed: SeedAction,
    /// How to launch the server then; or why it cannot be launched, which
    /// is what the request fails with.
    pub launch: Result<LaunchCommand, String>,
}

/// What stopping the server takes.
pub struct KillPlan<H> {
    /// The process that was held, to be killed first; a failure to do so
    /// is of no account.
    pub child: Option<H>,
    /// The command to run after that, whatever came of the first step.
    pub sweep: SweepCommand,
}

/// What a request to spawn comes to, by what is held.
pub open spec fn decision<H>(held: Option<H>) -> SpawnDecision {
    if held is Some {
        SpawnDecision::AlreadyRunning
    } else {
        SpawnDecision::Launch
    }
}

/// What is held after a request to spawn. `launched` is what the launch
/// gives if it is made: a handle, or nothing where it fails.
pub open spec fn spawned<H>(held: Option<H>, launched: Option<H>) -> Option<H> {
    match decision(held) {
        SpawnDecision::AlreadyRunning => held,
        SpawnDecision::Launch => launched,
    }
}

/// What is held after a kill: nothing.
pub open spec fn killed<H>(held: Option<H>) -> Option<H> {
    None
}

/// What is held after `n` kills in a row.
pub open spec fn after_kills<H>(held: Option<H>, n: nat) -> Option<H>
    decreases n,
{
    if n == 0 {
        held
    } else {
        killed(after_kills(held, (n - 1) as nat))
    }
}

/// The program that sweeps on `platform`.
pub open spec fn sweep_program(platform: Platform) -> Seq<char> {
    match platform {
        Platform::Windows => "taskkill"@,
        _ => "pkill"@,
    }
}

/// The arguments of the sweep on `platform`: on Windows, force the end of
/// the images named `tachidesk*`; elsewhere, of the processes whose command
/// line holds `tachidesk`.
pub open spec fn sweep_args(platform: Platform) -> Seq<Seq<char>> {
    match platform {
        Platform::Windows => seq!["/F"@, "/FI"@, "IMAGENAME eq tachidesk*"@],
        _ => seq!["-f"@, "tachidesk"@],
    }
}

/// The argument that points the server at its root directory.
pub open spec fn root_dir_arg(data_dir: Seq<char>) -> Seq<char> {
    "-Dsuwayomi.tachidesk.config.server.rootDir="@ + data_dir
}

/// `c` launches `program` on the data directory `data_dir`: with
/// `JAVA_TOOL_OPTIONS` set so that no display is used, and the root
/// directory as the one argument.
pub open spec fn is_launch_of(c: LaunchCommand, program: Seq<char>, data_dir: Seq<char>) -> bool {
    &&& c.program@ == program
    &&& c.env_name@ == "JAVA_TOOL_OPTIONS"@
    &&& c.env_value@ == "-Djava.awt.headless=true"@
    &&& views(c.args@) == seq![root_dir_arg(data_dir)]
}

/// After any number of kills in a row, after each of them, nothing is
/// held.
pub proof fn lemma_kills_leave_nothing_held<H>(held: Option<H>, n: nat)
    ensures
        forall|k: nat| 1 <= k <= n ==> (#[trigger] after_kills(held, k)) is None,
{
    assert forall|k: nat| 1 <= k <= n implies (#[trigger] after_kills(held, k)) is None by {
        assert(after_kills(held, k) == killed(after_kills(held, (k - 1) as nat)));
    }
}

/// A request to spawn that follows one which left a process held, with
/// no kill between them, launches nothing and leaves that one process
/// held.
pub proof fn lemma_second_spawn_is_noop<H>(
    held: Option<H>,
    first: Option<H>,
    second: Option<H>,
)
    requires
        spawned(held, first) is Some,
    ensures
        decision(spawned(held, first)) == SpawnDecision::AlreadyRunning,
        spawned(spawned(held, first), second) == spawned(held, first),
{
}

impl<H> ServerState<H> {
    /// The handle that is held, if any.
    pub closed spec fn held(&self) -> Option<H> {
        self.tracked_child
    }

    /// A state that tracks nothing.
    pub fn new() -> (s: Self)
        ensures
            s.held() is None,
    {
        ServerState { tracked_child: None }
    }

    /// Tells whether a process is held.
    pub fn is_tracking(&self) -> (b: bool)
        ensures
            b == (self.held() is Some),
    {
        self.tracked_child.is_some()
    }

    /// Decides a request to spawn: with a process held there is nothing
    /// to do, and the request has succeeded.
    pub fn begin_spawn(&self) -> (d: SpawnDecision)
        ensures
            d == decision(self.held()),
    {
        if self.tracked_child.is_some() {
            SpawnDecision::AlreadyRunning
        } else {
            SpawnDecision::Launch
        }
    }

    /// Takes in what the launch gave. A handle is held from now on, and
    /// the request has succeeded; a failure is handed on as it is, and what
    /// is held stays.
    pub fn finish_spawn(&mut self, outcome: Result<H, String>) -> (r: Result<(), String>)
        ensures
            match outcome {
                Ok(child) => r is Ok && final(self).held() == Some(child),
                Err(reason) => r == Err::<(), String>(reason) && final(self).held() == old(
                    self,
                ).held(),
            },
            old(self).held() is None ==> final(self).held() == spawned(
                old(self).held(),
                match outcome {
                    Ok(child) => Some(child),
                    Err(_) => None,
                },
            ),
    {
        match outcome {
            Ok(child) => {
                self.tracked_child = Some(child);
                Ok(())
            },
            Err(reason) => Err(reason),
        }
    }

    /// Hands out the held handle and tracks nothing from then on.
    pub fn take_child(&mut self) -> (child: Option<H>)
        ensures
            child == old(self).held(),
            final(self).held() == killed(old(self).held()),
    {
        self.tracked_child.take()
    }
}

/// How the server `program` is launched on the data directory `data_dir`:
/// without a display of its own, and rooted in that directory.
pub fn launch_command(program: String, data_dir: &str) -> (c: LaunchCommand)
    ensures
        is_launch_of(c, program@, data_dir@),
{
    let mut arg = "-Dsuwayomi.tachidesk.config.server.rootDir=".to_owned();
    arg.append(data_dir);
    let mut args: Vec<String> = Vec::new();
    args.push(arg);
    assert(views(args@) =~= seq![root_dir_arg(data_dir@)]);
    LaunchCommand {
        program,
        env_name: "JAVA_TOOL_OPTIONS".to_owned(),
        env_value: "-Djava.awt.headless=true".to_owned(),
        args,
    }
}

/// Plans a launch that is due. `binary` is the user's choice of binary,
/// `data_dir` the server's data directory, `found` what stands where its
/// configuration file belongs, `resource_dir` the application's resource
/// directory or why it could not be located, and `present[i]` whether the
/// `i`-th bundled candidate lies there.
///
/// The configuration is seeded whether or not a binary is found, and what
/// is written switches the three settings off. The launch is that of the
/// resolved binary on `data_dir`; where none resolves, the plan holds the
/// reason instead.
pub fn plan_spawn(
    binary: &str,
    data_dir: &str,
    found: ConfFile,
    resource_dir: Result<String, String>,
    present: &Vec<bool>,
) -> (plan: SpawnPlan)
    ensures
        is_seed_action(found, plan.seed),
        plan.seed.text() matches Some(t) ==> is_safe(t),
        match resolved_binary(binary@, text_result(resource_dir), present@) {
            Ok(program) => plan.launch matches Ok(c) && is_launch_of(c, program, data_dir@),
            Err(reason) => plan.launch matches Err(e) && e@ == reason,
        },
{
    let seed = seed_server_conf(found);
    let launch = match resolve_server_binary(binary, resource_dir, present) {
        Ok(program) => Ok(launch_command(program, data_dir)),
        Err(reason) => Err(reason),
    };
    SpawnPlan { seed, launch }
}

/// The command that stops every process that goes by the server's name on
/// `platform`.
pub fn sweep_command(platform: Platform) -> (c: SweepCommand)
    ensures
        c.program@ == sweep_program(platform),
        views(c.args@) == sweep_args(platform),
{
    let mut args: Vec<String> = Vec::new();
    match platform {
        Platform::Windows => {
            args.push("/F".to_owned());
            args.push("/FI".to_owned());
            args.push("IMAGENAME eq tachidesk*".to_owned());
            assert(views(args@) =~= sweep_args(platform));
            SweepCommand { program: "taskkill".to_owned(), args }
        },
        _ => {
            args.push("-f".to_owned());
            args.push("tachidesk".to_owned());
            assert(views(args@) =~= sweep_args(platform));
            SweepCommand { program: "pkill".to_owned(), args }
        },
    }
}

/// Stops the server, as far as that is decided here: nothing is held
/// from now on, whatever was held is handed out to be killed, and the
/// sweep is to be run in any case. There is no failure to report.
pub fn kill_tachidesk<H>(state: &mut ServerState<H>, platform: Platform) -> (plan: KillPlan<H>)
    ensures
        final(state).held() is None,
        final(state).held() == killed(old(state).held()),
        plan.child == old(state).held(),
        plan.sweep.program@ == sweep_program(platform),
        views(plan.sweep.args@) == sweep_args(platform),
{
    let child = state.take_child();
    KillPlan { child, sweep: sweep_command(platform) }
}

} // verus!
