//! SSH addresses, command lines and the installation of the remote server.

use z3rm::remote_install::{
    download_command, ensure_action, install_plan, installed_path, make_dir_command,
    make_executable_command, os_from_lowercase, probe_home_command, probe_path_command, probe_step,
    remote_os, reported, shell_escape as install_shell_escape, trimmed_output, version_command,
    EnsureAction, InstallPlan, ProbeStep,
};
use z3rm::remote_setup::{
    connect_refusal, connect_ssh, ensure_remote_server, ConnectError, ConnectRun, ConnectState,
    ConnectStep, EnsureError, EnsureRun, EnsureState, EnsureStep, REMOTE_SOCKET,
};
use z3rm::ssh::{
    command_answer, daemon_command, exec_answer, shell_escape, upload_answer, SshConnectionOptions,
    SshError, SshUriError,
};

fn options(username: Option<&str>, port: Option<u16>) -> SshConnectionOptions {
    SshConnectionOptions {
        host: "myhost.com".to_string(),
        username: username.map(|name| name.to_string()),
        port,
        identity_file: None,
        extra_args: Vec::new(),
        connect_timeout: 30,
    }
}

#[test]
fn test_from_uri_simple_host() {
    let opts = SshConnectionOptions::from_uri("ssh://myhost.com").unwrap();
    assert_eq!(opts.host, "myhost.com");
    assert!(opts.username.is_none());
    assert!(opts.port.is_none());
}

#[test]
fn test_from_uri_with_user() {
    let opts = SshConnectionOptions::from_uri("ssh://alice@myhost.com").unwrap();
    assert_eq!(opts.host, "myhost.com");
    assert_eq!(opts.username, Some("alice".to_string()));
    assert!(opts.port.is_none());
}

#[test]
fn test_from_uri_with_user_and_port() {
    let opts = SshConnectionOptions::from_uri("ssh://bob@192.168.1.1:2222").unwrap();
    assert_eq!(opts.host, "192.168.1.1");
    assert_eq!(opts.username, Some("bob".to_string()));
    assert_eq!(opts.port, Some(2222));
}

#[test]
fn test_from_uri_host_only_port() {
    let opts = SshConnectionOptions::from_uri("ssh://server:8022").unwrap();
    assert_eq!(opts.host, "server");
    assert!(opts.username.is_none());
    assert_eq!(opts.port, Some(8022));
}

#[test]
fn test_from_uri_invalid_prefix() {
    let result = SshConnectionOptions::from_uri("http://host");
    assert!(result.is_err());
}

#[test]
fn test_destination_with_username() {
    let opts = options(Some("alice"), None);
    assert_eq!(opts.destination(), "alice@myhost.com");
}

#[test]
fn test_destination_without_username() {
    let opts = options(None, None);
    assert_eq!(opts.destination(), "myhost.com");
}

#[test]
fn test_build_ssh_args_default() {
    let args = options(None, None).build_ssh_args();
    assert!(args.contains(&"-o".to_string()));
    assert!(args.contains(&"ConnectTimeout=30".to_string()));
    assert!(args.contains(&"-o".to_string()));
    assert!(args.contains(&"StrictHostKeyChecking=no".to_string()));
    assert!(args.contains(&"-o".to_string()));
    assert!(args.contains(&"BatchMode=yes".to_string()));
}

#[test]
fn test_build_ssh_args_with_port_and_identity() {
    let opts = SshConnectionOptions {
        host: "myhost.com".to_string(),
        username: Some("alice".to_string()),
        port: Some(2222),
        identity_file: Some("/home/alice/.ssh/id_ed25519".to_string()),
        extra_args: Vec::new(),
        connect_timeout: 60,
    };
    let args = opts.build_ssh_args();
    assert!(args.contains(&"-p".to_string()));
    assert!(args.contains(&"2222".to_string()));
    assert!(args.contains(&"-i".to_string()));
    assert!(args.contains(&"/home/alice/.ssh/id_ed25519".to_string()));
    assert!(args.contains(&"ConnectTimeout=60".to_string()));
}

#[test]
fn ssh_test_shell_escape_simple() {
    assert_eq!(shell_escape("hello"), "hello".to_string());
}

#[test]
fn ssh_test_shell_escape_with_spaces() {
    assert_eq!(shell_escape("hello world"), "'hello world'".to_string());
}

#[test]
fn ssh_test_shell_escape_with_single_quote() {
    assert_eq!(shell_escape("it's"), "'it'\\''s'".to_string());
}

#[test]
fn ssh_test_shell_escape_empty() {
    assert_eq!(shell_escape(""), "''".to_string());
}

#[test]
fn what_a_shell_would_split_is_quoted() {
    assert_eq!(shell_escape("a\tb"), "'a\tb'");
    assert_eq!(shell_escape("a\nb"), "'a\nb'");
    assert_eq!(install_shell_escape("a\tb"), "'a\tb'");
    assert_eq!(install_shell_escape("a\nb"), "'a\nb'");
    assert_eq!(shell_escape("/usr/bin/z3rm-server_1.0"), "/usr/bin/z3rm-server_1.0");
}

#[test]
fn remote_install_test_shell_escape_simple() {
    assert_eq!(install_shell_escape("hello"), "hello".to_string());
}

#[test]
fn remote_install_test_shell_escape_with_spaces() {
    assert_eq!(install_shell_escape("hello world"), "'hello world'".to_string());
}

#[test]
fn remote_install_test_shell_escape_with_single_quote() {
    assert_eq!(install_shell_escape("it's"), "'it'\\''s'".to_string());
}

#[test]
fn remote_install_test_shell_escape_empty() {
    assert_eq!(install_shell_escape(""), "''".to_string());
}

#[test]
fn test_shell_escape_special_chars() {
    assert_eq!(install_shell_escape("hello $world"), "'hello $world'".to_string());
}

#[test]
fn options_have_their_defaults() {
    let opts = SshConnectionOptions::default();
    assert_eq!(opts.host, "");
    assert_eq!(opts.connect_timeout, 30);
    assert!(opts.username.is_none());
    assert!(opts.extra_args.is_empty());
}

#[test]
fn a_uri_reads_back_its_parts() {
    let opts = SshConnectionOptions::from_uri("ssh://me@h:1").unwrap();
    assert_eq!(opts.destination(), "me@h");
    assert_eq!(opts.port, Some(1));
    assert_eq!(opts.connect_timeout, 30);
}

#[test]
fn a_port_that_is_none_stays_in_the_host() {
    let opts = SshConnectionOptions::from_uri("ssh://host:70000").unwrap();
    assert_eq!(opts.host, "host:70000");
    assert_eq!(opts.port, None);
    let opts = SshConnectionOptions::from_uri("ssh://host:").unwrap();
    assert_eq!(opts.host, "host:");
    let opts = SshConnectionOptions::from_uri("ssh://a@b@c").unwrap();
    assert_eq!(opts.username.as_deref(), Some("a"));
    assert_eq!(opts.host, "b@c");
}

#[test]
fn another_scheme_is_named_in_the_error() {
    let error = SshConnectionOptions::from_uri("http://host").unwrap_err();
    assert!(matches!(&error, SshUriError::InvalidScheme(uri) if uri == "http://host"));
    assert_eq!(error.message(), "invalid SSH URI, must start with ssh://: http://host");
}

#[test]
fn every_command_line_starts_with_the_shared_arguments() {
    let mut opts = options(Some("al"), Some(22));
    opts.identity_file = Some("/k".to_string());
    opts.extra_args = vec!["-v".to_string()];
    let base = vec![
        "-p", "22", "-i", "/k", "-o", "ConnectTimeout=30", "-o", "StrictHostKeyChecking=no", "-o",
        "BatchMode=yes", "-v",
    ];
    assert_eq!(opts.build_ssh_args(), base);

    let with = |tail: &[&str]| -> Vec<String> {
        base.iter().chain(tail.iter()).map(|arg| arg.to_string()).collect()
    };
    assert_eq!(
        opts.master_args("/c"),
        with(&["-N", "-o", "ControlMaster=yes", "-o", "ControlPath=/c", "al@myhost.com"])
    );
    assert_eq!(
        opts.exec_args("/c", "uname"),
        with(&["-o", "ControlPath=/c", "al@myhost.com", "uname"])
    );
    assert_eq!(
        opts.upload_args("/c", "/a", "~/b"),
        with(&["-o", "ControlPath=/c", "-C", "/a", "al@myhost.com:~/b"])
    );
    assert_eq!(
        opts.forward_args("/c", "/l", "/r"),
        with(&["-o", "ControlPath=/c", "-L", "/l:/r", "al@myhost.com", "sleep", "999999"])
    );
}

#[test]
fn the_daemon_is_detached_from_the_terminal() {
    assert_eq!(
        daemon_command("/opt/my server"),
        "nohup '/opt/my server' --daemonize </dev/null >/dev/null 2>&1 &"
    );
}

#[test]
fn a_server_on_the_search_path_is_taken() {
    assert!(matches!(probe_step("/usr/bin/z3rm-server\n"), ProbeStep::Found(p)
        if p == "/usr/bin/z3rm-server"));
    assert!(matches!(probe_step("\n"), ProbeStep::LookInHome));
    assert_eq!(reported("  1.2.3 \n").as_deref(), Some("1.2.3"));
    assert_eq!(reported(" \t\n"), None);
    assert_eq!(trimmed_output("\u{3000}x\u{a0}"), "x");
    assert!(probe_path_command().starts_with("command -v z3rm-server"));
    assert!(probe_home_command().starts_with("ls ~/.z3rm-server/z3rm-server"));
    assert_eq!(version_command("/a b"), "'/a b' --version 2>/dev/null || echo ''");
}

#[test]
fn only_a_known_difference_of_versions_installs_again() {
    let path = || Some("/s".to_string());
    let version = |text: &str| Some(text.to_string());
    assert!(matches!(ensure_action(None, None, None), EnsureAction::Install));
    assert!(matches!(ensure_action(path(), version("1"), Some("2")), EnsureAction::Install));
    assert!(matches!(ensure_action(path(), version("1"), Some("1")),
        EnsureAction::UseExisting(p) if p == "/s"));
    assert!(matches!(ensure_action(path(), None, Some("2")), EnsureAction::UseExisting(_)));
    assert!(matches!(ensure_action(path(), version("1"), None), EnsureAction::UseExisting(_)));
}

#[test]
fn a_host_of_another_architecture_downloads() {
    assert!(matches!(install_plan("x86_64", "x86_64\n"), InstallPlan::Upload));
    assert!(matches!(install_plan("x86_64", "aarch64\n"),
        InstallPlan::Download { arch } if arch == "aarch64"));
    assert_eq!(remote_os("Darwin\n"), "macos");
    assert_eq!(remote_os(" Linux\n"), "linux");
    assert_eq!(os_from_lowercase("freebsd".to_string()), "freebsd");
    assert_eq!(
        download_command("aarch64", "linux"),
        "mkdir -p ~/.z3rm-server && curl -sfL \
         https://github.com/z3rm/zerm/releases/latest/download/z3rm-server-aarch64-linux \
         -o ~/.z3rm-server/z3rm-server && chmod +x ~/.z3rm-server/z3rm-server"
    );
    assert_eq!(make_dir_command(), "mkdir -p ~/.z3rm-server");
    assert_eq!(make_executable_command(), "chmod +x ~/.z3rm-server/z3rm-server");
    assert_eq!(installed_path(), "~/.z3rm-server/z3rm-server");
}

/// Runs a search against a host that answers each command, and notes the commands.
fn play(mut run: EnsureRun, host: &dyn Fn(&str) -> String) -> (EnsureRun, Vec<String>) {
    let mut log = Vec::new();
    loop {
        match run.step() {
            EnsureStep::Run(command) => {
                let output = host(&command);
                log.push(command);
                run.answered(Ok(output));
            }
            EnsureStep::FindBinary => run.answered(Ok("/usr/bin/z3rm-server".to_string())),
            EnsureStep::Upload { local, remote } => {
                log.push(format!("scp {local} {remote}"));
                run.answered(Ok(String::new()));
            }
            EnsureStep::Nothing => return (run, log),
        }
    }
}

fn search() -> EnsureRun {
    ensure_remote_server(Some("1.0".to_string()), "x86_64".to_string())
}

#[test]
fn a_fitting_server_is_used() {
    let (run, log) = play(search(), &|command| {
        if command.starts_with("command -v") { "/bin/s\n" } else { "1.0\n" }.to_string()
    });
    assert!(matches!(run.state, EnsureState::Done(path) if path == "/bin/s"));
    assert_eq!(log.len(), 2);
    assert_eq!(log[1], "/bin/s --version 2>/dev/null || echo ''");
}

#[test]
fn a_server_of_another_version_is_replaced() {
    let (run, log) = play(search(), &|command| {
        if command.starts_with("command -v") {
            "/bin/s\n"
        } else if command.starts_with("uname -m") {
            "x86_64\n"
        } else {
            "0.9\n"
        }
        .to_string()
    });
    assert!(matches!(run.state, EnsureState::Done(path) if path == "~/.z3rm-server/z3rm-server"));
    assert_eq!(
        log[2..],
        [
            "uname -m",
            "mkdir -p ~/.z3rm-server",
            "scp /usr/bin/z3rm-server ~/.z3rm-server/z3rm-server",
            "chmod +x ~/.z3rm-server/z3rm-server",
        ]
    );
}

#[test]
fn a_bare_host_of_another_architecture_downloads_a_server() {
    let (run, log) = play(search(), &|command| {
        match command {
            "uname -m" => "aarch64\n",
            "uname -s" => "Darwin\n",
            _ => "\n",
        }
        .to_string()
    });
    assert!(matches!(run.state, EnsureState::Done(path) if path == "~/.z3rm-server/z3rm-server"));
    assert_eq!(log.len(), 6);
    assert_eq!(log[5], download_command("aarch64", "macos"));
}

#[test]
fn a_step_that_goes_wrong_ends_the_search() {
    let fail = |state: EnsureState| -> EnsureError {
        let mut run = search();
        run.state = state;
        run.answered(Err("e".to_string()));
        match run.state {
            EnsureState::Failed(error) => error,
            state => panic!("{state:?}"),
        }
    };
    let binary = || "b".to_string();
    assert_eq!(fail(EnsureState::AskPath).message(), "e");
    assert!(matches!(fail(EnsureState::FindBinary), EnsureError::NoBinary(_)));
    assert!(matches!(fail(EnsureState::MakeDirectory(binary())), EnsureError::MakeDirectory(_)));
    assert!(matches!(fail(EnsureState::Upload(binary())), EnsureError::Upload(_)));
    assert!(matches!(fail(EnsureState::MakeExecutable), EnsureError::MakeExecutable(_)));
    let download = EnsureState::Download { arch: binary(), os: binary() };
    assert!(matches!(fail(download), EnsureError::Download(_)));
}

fn answer(run: &mut ConnectRun, text: &str) {
    run.answered(Ok(text.to_string()));
}

#[test]
fn a_connection_is_made_step_by_step() {
    let mut run = connect_ssh("ssh://me@host").unwrap();
    assert_eq!(run.options.destination(), "me@host");
    assert!(matches!(run.step(), ConnectStep::OpenSession));
    answer(&mut run, "");
    assert!(matches!(run.step(), ConnectStep::EnsureServer));
    answer(&mut run, "/s");
    assert!(matches!(run.step(), ConnectStep::Run(command) if command == daemon_command("/s")));
    answer(&mut run, "");
    assert!(matches!(run.step(), ConnectStep::Wait(1000)));
    answer(&mut run, "");
    assert!(matches!(run.step(), ConnectStep::Forward(socket) if socket == REMOTE_SOCKET));
    answer(&mut run, "/tmp/x/mux.sock");
    assert!(matches!(run.step(), ConnectStep::Connect(socket) if socket == "/tmp/x/mux.sock"));
    answer(&mut run, "");
    assert!(matches!(run.step(), ConnectStep::Nothing));
    assert!(matches!(run.state, ConnectState::Connected));
}

#[test]
fn a_connection_that_fails_says_where() {
    assert!(connect_ssh("http://host").is_err());
    assert_eq!(connect_refusal("x"), "\u{89e3}\u{6790} SSH URI \u{5931}\u{8d25}: x");
    let mut run = connect_ssh("ssh://host").unwrap();
    run.answered(Err("refused".to_string()));
    match &run.state {
        ConnectState::Failed(error) => {
            assert!(matches!(error, ConnectError::Session(_)));
            assert_eq!(error.message(), "refused");
        }
        state => panic!("{state:?}"),
    }
}

#[test]
fn a_command_answers_with_its_output() {
    assert_eq!(exec_answer(true, b"out\xff", b"").unwrap(), "out\u{fffd}");
    let error = exec_answer(false, b"out", b"err").unwrap_err();
    assert!(matches!(&error, SshError::Exec(text) if text == "err"));
    assert!(error.message().ends_with(": err"));
    assert!(upload_answer(true, b"x").is_ok());
    assert!(matches!(upload_answer(false, b"no").unwrap_err(), SshError::Upload(text) if text == "no"));
    assert_eq!(command_answer(true, "a".to_string(), "b".to_string()).unwrap(), "a");
}
