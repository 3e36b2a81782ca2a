use moku::conf::{ConfFile, SeedAction, DEFAULT_SERVER_CONF};
use moku::paths::Platform;
use moku::supervisor::{
    kill_tachidesk, launch_command, plan_spawn, sweep_command, LaunchCommand, ServerState,
    SpawnDecision,
};

#[test]
fn new_state_holds_nothing() {
    let state: ServerState<u32> = ServerState::new();
    assert!(!state.is_tracking());
    assert_eq!(state.begin_spawn(), SpawnDecision::Launch);
}

#[test]
fn repeated_kills_leave_nothing_held() {
    let mut state: ServerState<u32> = ServerState::new();
    for _ in 0..5 {
        let plan = kill_tachidesk(&mut state, Platform::Other);
        assert_eq!(plan.child, None);
        assert_eq!(plan.sweep.program, "pkill");
        assert!(!state.is_tracking());
    }
}

#[test]
fn kills_after_a_spawn_hand_the_child_out_once() {
    let mut state: ServerState<u32> = ServerState::new();
    assert_eq!(state.finish_spawn(Ok(7)), Ok(()));
    let plan = kill_tachidesk(&mut state, Platform::Other);
    assert_eq!(plan.child, Some(7));
    assert!(!state.is_tracking());
    let plan = kill_tachidesk(&mut state, Platform::Other);
    assert_eq!(plan.child, None);
    assert!(!state.is_tracking());
}

#[test]
fn second_spawn_is_a_noop() {
    let mut state: ServerState<u32> = ServerState::new();
    assert_eq!(state.begin_spawn(), SpawnDecision::Launch);
    assert_eq!(state.finish_spawn(Ok(41)), Ok(()));
    assert!(state.is_tracking());
    assert_eq!(state.begin_spawn(), SpawnDecision::AlreadyRunning);
    assert!(state.is_tracking());
    assert_eq!(state.take_child(), Some(41));
}

#[test]
fn failed_launch_leaves_the_state_empty() {
    let mut state: ServerState<u32> = ServerState::new();
    assert_eq!(state.finish_spawn(Err("No such file".to_string())), Err("No such file".to_string()));
    assert!(!state.is_tracking());
    assert_eq!(state.begin_spawn(), SpawnDecision::Launch);
}

#[test]
fn spawn_after_kill_launches_again() {
    let mut state: ServerState<u32> = ServerState::new();
    assert_eq!(state.finish_spawn(Ok(1)), Ok(()));
    let _ = kill_tachidesk(&mut state, Platform::Other);
    assert_eq!(state.begin_spawn(), SpawnDecision::Launch);
    assert_eq!(state.finish_spawn(Ok(2)), Ok(()));
    assert_eq!(state.take_child(), Some(2));
    assert_eq!(state.take_child(), None);
}

#[test]
fn launch_command_for_the_server() {
    let c = launch_command("/opt/suwayomi".to_string(), "/x/moku/tachidesk");
    assert_eq!(
        c,
        LaunchCommand {
            program: "/opt/suwayomi".to_string(),
            env_name: "JAVA_TOOL_OPTIONS".to_string(),
            env_value: "-Djava.awt.headless=true".to_string(),
            args: vec!["-Dsuwayomi.tachidesk.config.server.rootDir=/x/moku/tachidesk".to_string()],
        }
    );
}

#[test]
fn sweep_by_platform() {
    let c = sweep_command(Platform::Windows);
    assert_eq!(c.program, "taskkill");
    assert_eq!(c.args, vec!["/F", "/FI", "IMAGENAME eq tachidesk*"]);
    let c = sweep_command(Platform::Other);
    assert_eq!(c.program, "pkill");
    assert_eq!(c.args, vec!["-f", "tachidesk"]);
    let c = sweep_command(Platform::MacOs);
    assert_eq!(c.program, "pkill");
    assert_eq!(c.args, vec!["-f", "tachidesk"]);
}

#[test]
fn kill_plan_on_windows() {
    let mut state: ServerState<u32> = ServerState::new();
    assert_eq!(state.finish_spawn(Ok(9)), Ok(()));
    let plan = kill_tachidesk(&mut state, Platform::Windows);
    assert_eq!(plan.child, Some(9));
    assert_eq!(plan.sweep.program, "taskkill");
    assert_eq!(plan.sweep.args, vec!["/F", "/FI", "IMAGENAME eq tachidesk*"]);
}

#[test]
fn plan_with_an_override_and_no_conf() {
    let plan = plan_spawn("/bin/srv", "/d", ConfFile::Missing, Err("n/a".to_string()), &vec![]);
    assert_eq!(plan.seed, SeedAction::Create(DEFAULT_SERVER_CONF.to_string()));
    let c = plan.launch.unwrap();
    assert_eq!(c.program, "/bin/srv");
    assert_eq!(c.env_name, "JAVA_TOOL_OPTIONS");
    assert_eq!(c.env_value, "-Djava.awt.headless=true");
    assert_eq!(c.args, vec!["-Dsuwayomi.tachidesk.config.server.rootDir=/d"]);
}

#[test]
fn plan_with_a_bundled_binary() {
    let plan = plan_spawn(
        "",
        "/d",
        ConfFile::Present("server.systemTrayEnabled = true".to_string()),
        Ok("/res".to_string()),
        &vec![false, false, true],
    );
    assert_eq!(
        plan.seed,
        SeedAction::Rewrite(
            "server.systemTrayEnabled = false\nserver.webUIEnabled = false\n\
server.initialOpenInBrowserEnabled = false\n"
                .to_string()
        )
    );
    assert_eq!(plan.launch.unwrap().program, "/res/suwayomi-server");
}

#[test]
fn plan_seeds_even_where_no_binary_is_found() {
    let plan = plan_spawn("", "/d", ConfFile::Missing, Ok("/res".to_string()), &vec![]);
    assert_eq!(plan.seed, SeedAction::Create(DEFAULT_SERVER_CONF.to_string()));
    assert_eq!(
        plan.launch,
        Err("Suwayomi server binary not found. Please set the path in Settings.".to_string())
    );
}
