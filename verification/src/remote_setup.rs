//! The steps that lead to a connection with a server on a remote host.
//!
//! A run holds how far things have come. It says what to do next, and is told what came of it.
use vstd::prelude::*;
use vstd::string::*;

use crate::remote_install::{
    download_command, ensure_action, install_plan, installed_path, make_dir_command,
    make_executable_command, probe_home_command, probe_path_command, probe_step, remote_os,
    reported, trimmed_output, version_command, EnsureAction, InstallPlan, ProbeStep,
};
use crate::ssh::{daemon_command, join, SshConnectionOptions, SshUriError};

verus! {

/// Why no server could be had on the remote host.
#[derive(Debug)]
pub enum EnsureError {
    /// A question to the remote host failed.
    Question(String),
    /// This host has no binary to upload.
    NoBinary(String),
    /// The directory could not be made.
    MakeDirectory(String),
    /// The upload failed.
    Upload(String),
    /// The binary could not be made executable.
    MakeExecutable(String),
    /// The download failed.
    Download(String),
}

/// How far things have come.
#[derive(Debug)]
pub enum EnsureState {
    /// The search path has to be looked at.
    AskPath,
    /// The home directory has to be looked at.
    AskHome,
    /// The server at this path has to be asked for its version.
    AskVersion(String),
    /// The host has to be asked for its architecture.
    AskArch,
    /// The host is of another architecture, and has to be asked which one to download for.
    AskDownloadArch,
    /// The host of this architecture has to be asked for its system.
    AskSystem(String),
    /// The host has to download a binary for this architecture and system.
    Download {
        /// The architecture.
        arch: String,
        /// The system.
        os: String,
    },
    /// A binary has to be found on this host.
    FindBinary,
    /// The directory for this binary has to be made.
    MakeDirectory(String),
    /// This binary has to be uploaded.
    Upload(String),
    /// The uploaded binary has to be made executable.
    MakeExecutable,
    /// The server is at this path.
    Done(String),
    /// There is no server.
    Failed(EnsureError),
}

/// What an [`EnsureState`] says.
#[verifier::ext_equal]
pub enum EnsureView {
    AskPath,
    AskHome,
    AskVersion(Seq<char>),
    AskArch,
    AskDownloadArch,
    AskSystem(Seq<char>),
    Download { arch: Seq<char>, os: Seq<char> },
    FindBinary,
    MakeDirectory(Seq<char>),
    Upload(Seq<char>),
    MakeExecutable,
    Done(Seq<char>),
    Failed(EnsureErrorView),
}

/// What an [`EnsureError`] says.
#[verifier::ext_equal]
pub enum EnsureErrorView {
    Question(Seq<char>),
    NoBinary(Seq<char>),
    MakeDirectory(Seq<char>),
    Upload(Seq<char>),
    MakeExecutable(Seq<char>),
    Download(Seq<char>),
}

impl EnsureError {
    /// The error in words.
    pub fn message(&self) -> (text: String)
        ensures
            text@ == (match *self {
                EnsureError::Question(error) => error@,
                EnsureError::NoBinary(_) => "需要本地 z3rm-server 二进制以进行同架构安装"@,
                EnsureError::MakeDirectory(_) => "创建远程目录失败"@,
                EnsureError::Upload(_) => "SCP 上传失败"@,
                EnsureError::MakeExecutable(_) => "设置可执行权限失败"@,
                EnsureError::Download(_) => "远程下载安装失败"@,
            }),
    {
        match self {
            EnsureError::Question(error) => error.clone(),
            EnsureError::NoBinary(_) => "需要本地 z3rm-server 二进制以进行同架构安装".to_owned(),
            EnsureError::MakeDirectory(_) => "创建远程目录失败".to_owned(),
            EnsureError::Upload(_) => "SCP 上传失败".to_owned(),
            EnsureError::MakeExecutable(_) => "设置可执行权限失败".to_owned(),
            EnsureError::Download(_) => "远程下载安装失败".to_owned(),
        }
    }
}

impl View for EnsureError {
    type V = EnsureErrorView;

    open spec fn view(&self) -> EnsureErrorView {
        match *self {
            EnsureError::Question(text) => EnsureErrorView::Question(text@),
            EnsureError::NoBinary(text) => EnsureErrorView::NoBinary(text@),
            EnsureError::MakeDirectory(text) => EnsureErrorView::MakeDirectory(text@),
            EnsureError::Upload(text) => EnsureErrorView::Upload(text@),
            EnsureError::MakeExecutable(text) => EnsureErrorView::MakeExecutable(text@),
            EnsureError::Download(text) => EnsureErrorView::Download(text@),
        }
    }
}

impl View for EnsureState {
    type V = EnsureView;

    open spec fn view(&self) -> EnsureView {
        match *self {
            EnsureState::AskPath => EnsureView::AskPath,
            EnsureState::AskHome => EnsureView::AskHome,
            EnsureState::AskVersion(path) => EnsureView::AskVersion(path@),
            EnsureState::AskArch => EnsureView::AskArch,
            EnsureState::AskDownloadArch => EnsureView::AskDownloadArch,
            EnsureState::AskSystem(arch) => EnsureView::AskSystem(arch@),
            EnsureState::Download { arch, os } => EnsureView::Download { arch: arch@, os: os@ },
            EnsureState::FindBinary => EnsureView::FindBinary,
            EnsureState::MakeDirectory(binary) => EnsureView::MakeDirectory(binary@),
            EnsureState::Upload(binary) => EnsureView::Upload(binary@),
            EnsureState::MakeExecutable => EnsureView::MakeExecutable,
            EnsureState::Done(path) => EnsureView::Done(path@),
            EnsureState::Failed(error) => EnsureView::Failed(error@),
        }
    }
}

/// What has to be done next.
#[derive(Debug)]
pub enum EnsureStep {
    /// Run this command on the remote host. Its output is the answer.
    Run(String),
    /// Find the binary of the server on this host. Its path is the answer.
    FindBinary,
    /// Upload a file.
    Upload {
        /// The file here.
        local: String,
        /// Its path there.
        remote: String,
    },
    /// Nothing: the run is over.
    Nothing,
}

/// What the remote host has to run in a state, where it has to run something.
pub open spec fn command_in(state: EnsureView) -> Option<Seq<char>> {
    match state {
        EnsureView::AskPath => Some("command -v z3rm-server 2>/dev/null || echo ''"@),
        EnsureView::AskHome => Some("ls ~/.z3rm-server/z3rm-server 2>/dev/null || echo ''"@),
        EnsureView::AskVersion(path) => Some(
            crate::shell::shell_word(path, crate::remote_install::install_special())
                + " --version 2>/dev/null || echo ''"@,
        ),
        EnsureView::AskArch => Some("uname -m"@),
        EnsureView::AskDownloadArch => Some("uname -m"@),
        EnsureView::AskSystem(_) => Some("uname -s"@),
        EnsureView::Download { arch, os } => Some(
            "mkdir -p ~/.z3rm-server && curl -sfL "@ + crate::remote_install::download_url(arch, os)
                + " -o ~/.z3rm-server/z3rm-server && chmod +x ~/.z3rm-server/z3rm-server"@,
        ),
        EnsureView::MakeDirectory(_) => Some("mkdir -p ~/.z3rm-server"@),
        EnsureView::MakeExecutable => Some("chmod +x ~/.z3rm-server/z3rm-server"@),
        _ => None,
    }
}

/// A server that is there can be used: its version is not known to differ from the local one.
pub open spec fn fits(remote: Option<Seq<char>>, local: Option<Seq<char>>) -> bool {
    remote is None || local is None || remote == local
}

/// How far things have come after an answer. An answer is what came of the step, or what went
/// wrong with it.
pub open spec fn after(
    state: EnsureView,
    answer: Result<Seq<char>, Seq<char>>,
    local_version: Option<Seq<char>>,
    local_arch: Seq<char>,
) -> EnsureView {
    match answer {
        Ok(output) => match state {
            EnsureView::AskPath => match crate::remote_install::answer(output) {
                Some(path) => EnsureView::AskVersion(path),
                None => EnsureView::AskHome,
            },
            EnsureView::AskHome => match crate::remote_install::answer(output) {
                Some(path) => EnsureView::AskVersion(path),
                None => EnsureView::AskArch,
            },
            EnsureView::AskVersion(path) => if fits(
                crate::remote_install::answer(output),
                local_version,
            ) {
                EnsureView::Done(path)
            } else {
                EnsureView::AskArch
            },
            EnsureView::AskArch => if crate::text::trimmed(output) == local_arch {
                EnsureView::FindBinary
            } else {
                EnsureView::AskDownloadArch
            },
            EnsureView::AskDownloadArch => EnsureView::AskSystem(crate::text::trimmed(output)),
            EnsureView::AskSystem(arch) => EnsureView::Download {
                arch,
                os: crate::remote_install::os_name(output),
            },
            EnsureView::Download { .. } => EnsureView::Done("~/.z3rm-server/z3rm-server"@),
            EnsureView::FindBinary => EnsureView::MakeDirectory(output),
            EnsureView::MakeDirectory(binary) => EnsureView::Upload(binary),
            EnsureView::Upload(_) => EnsureView::MakeExecutable,
            EnsureView::MakeExecutable => EnsureView::Done("~/.z3rm-server/z3rm-server"@),
            over => over,
        },
        Err(error) => match state {
            EnsureView::Done(_) => state,
            EnsureView::Failed(_) => state,
            EnsureView::FindBinary => EnsureView::Failed(EnsureErrorView::NoBinary(error)),
            EnsureView::MakeDirectory(_) => EnsureView::Failed(
                EnsureErrorView::MakeDirectory(error),
            ),
            EnsureView::Upload(_) => EnsureView::Failed(EnsureErrorView::Upload(error)),
            EnsureView::MakeExecutable => EnsureView::Failed(
                EnsureErrorView::MakeExecutable(error),
            ),
            EnsureView::Download { .. } => EnsureView::Failed(EnsureErrorView::Download(error)),
            _ => EnsureView::Failed(EnsureErrorView::Question(error)),
        },
    }
}

/// What an optional text says.
pub open spec fn text_of(text: Option<String>) -> Option<Seq<char>> {
    match text {
        Some(text) => Some(text@),
        None => None,
    }
}

/// What an answer says.
pub open spec fn answer_of(answer: Result<String, String>) -> Result<Seq<char>, Seq<char>> {
    match answer {
        Ok(text) => Ok(text@),
        Err(text) => Err(text@),
    }
}

/// The search for a server on a remote host, and its installation where there is none that fits.
#[derive(Debug)]
pub struct EnsureRun {
    /// How far things have come.
    pub state: EnsureState,
    /// The version of the server on this host, where it is known.
    pub local_version: Option<String>,
    /// The architecture of this host.
    pub local_arch: String,
}

/// A search at its start.
pub fn ensure_remote_server(local_version: Option<String>, local_arch: String) -> (run: EnsureRun)
    ensures
        run.state@ == EnsureView::AskPath,
        text_of(run.local_version) == text_of(local_version),
        run.local_arch@ == local_arch@,
{
    EnsureRun { state: EnsureState::AskPath, local_version, local_arch }
}

impl EnsureRun {
    /// What has to be done next.
    pub fn step(&self) -> (step: EnsureStep)
        ensures
            match step {
                EnsureStep::Run(command) => command_in(self.state@) == Some(command@),
                EnsureStep::FindBinary => self.state@ is FindBinary,
                EnsureStep::Upload { local, remote } => self.state@ == EnsureView::Upload(local@)
                    && remote@ == "~/.z3rm-server/z3rm-server"@,
                EnsureStep::Nothing => self.state@ is Done || self.state@ is Failed,
            },
    {
        match &self.state {
            EnsureState::AskPath => EnsureStep::Run(probe_path_command()),
            EnsureState::AskHome => EnsureStep::Run(probe_home_command()),
            EnsureState::AskVersion(path) => EnsureStep::Run(version_command(path.as_str())),
            EnsureState::AskArch => EnsureStep::Run("uname -m".to_owned()),
            EnsureState::AskDownloadArch => EnsureStep::Run("uname -m".to_owned()),
            EnsureState::AskSystem(_) => EnsureStep::Run("uname -s".to_owned()),
            EnsureState::Download { arch, os } => EnsureStep::Run(
                download_command(arch.as_str(), os.as_str()),
            ),
            EnsureState::FindBinary => EnsureStep::FindBinary,
            EnsureState::MakeDirectory(_) => EnsureStep::Run(make_dir_command()),
            EnsureState::Upload(binary) => EnsureStep::Upload {
                local: binary.clone(),
                remote: installed_path(),
            },
            EnsureState::MakeExecutable => EnsureStep::Run(make_executable_command()),
            EnsureState::Done(_) => EnsureStep::Nothing,
            EnsureState::Failed(_) => EnsureStep::Nothing,
        }
    }

    /// The step was done, or went wrong.
    pub fn answered(&mut self, answer: Result<String, String>)
        ensures
            final(self).state@ == after(
                old(self).state@,
                answer_of(answer),
                text_of(old(self).local_version),
                old(self).local_arch@,
            ),
            final(self).local_version == old(self).local_version,
            final(self).local_arch == old(self).local_arch,
    {
        let mut state = EnsureState::AskPath;
        std::mem::swap(&mut state, &mut self.state);
        self.state =
        match answer {
            Ok(output) => self.advanced(state, output),
            Err(error) => EnsureRun::stopped(state, error),
        };
    }

    /// How far things have come after a step that was done.
    fn advanced(&self, state: EnsureState, output: String) -> (next: EnsureState)
        ensures
            next@ == after(state@, Ok(output@), text_of(self.local_version), self.local_arch@),
    {
        match state {
            EnsureState::AskPath => match probe_step(output.as_str()) {
                ProbeStep::Found(path) => EnsureState::AskVersion(path),
                ProbeStep::LookInHome => EnsureState::AskHome,
            },
            EnsureState::AskHome => match reported(output.as_str()) {
                Some(path) => EnsureState::AskVersion(path),
                None => EnsureState::AskArch,
            },
            EnsureState::AskVersion(path) => {
                let remote = reported(output.as_str());
                let local = match &self.local_version {
                    Some(version) => Some(version.as_str()),
                    None => None,
                };
                match ensure_action(Some(path), remote, local) {
                    EnsureAction::UseExisting(path) => EnsureState::Done(path),
                    EnsureAction::Install => EnsureState::AskArch,
                }
            },
            EnsureState::AskArch => match install_plan(
                self.local_arch.as_str(),
                output.as_str(),
            ) {
                InstallPlan::Upload => EnsureState::FindBinary,
                InstallPlan::Download { .. } => EnsureState::AskDownloadArch,
            },
            EnsureState::AskDownloadArch => EnsureState::AskSystem(
                trimmed_output(output.as_str()),
            ),
            EnsureState::AskSystem(arch) => EnsureState::Download {
                arch,
                os: remote_os(output.as_str()),
            },
            EnsureState::Download { .. } => EnsureState::Done(installed_path()),
            EnsureState::FindBinary => EnsureState::MakeDirectory(output),
            EnsureState::MakeDirectory(binary) => EnsureState::Upload(binary),
            EnsureState::Upload(_) => EnsureState::MakeExecutable,
            EnsureState::MakeExecutable => EnsureState::Done(installed_path()),
            EnsureState::Done(path) => EnsureState::Done(path),
            EnsureState::Failed(error) => EnsureState::Failed(error),
        }
    }

    /// How far things have come after a step that went wrong.
    fn stopped(state: EnsureState, error: String) -> (next: EnsureState)
        ensures
            forall|version: Option<Seq<char>>, arch: Seq<char>|
                next@ == #[trigger] after(state@, Err(error@), version, arch),
    {
        match state {
            EnsureState::Done(path) => EnsureState::Done(path),
            EnsureState::Failed(former) => EnsureState::Failed(former),
            EnsureState::FindBinary => EnsureState::Failed(EnsureError::NoBinary(error)),
            EnsureState::MakeDirectory(_) => EnsureState::Failed(
                EnsureError::MakeDirectory(error),
            ),
            EnsureState::Upload(_) => EnsureState::Failed(EnsureError::Upload(error)),
            EnsureState::MakeExecutable => EnsureState::Failed(EnsureError::MakeExecutable(error)),
            EnsureState::Download { .. } => EnsureState::Failed(EnsureError::Download(error)),
            _ => EnsureState::Failed(EnsureError::Question(error)),
        }
    }
}

/// How many answers a run needs at most from a state on.
pub open spec fn answers_left(state: EnsureView) -> nat {
    match state {
        EnsureView::AskPath => 8,
        EnsureView::AskHome => 7,
        EnsureView::AskVersion(_) => 6,
        EnsureView::AskArch => 5,
        EnsureView::FindBinary => 4,
        EnsureView::AskDownloadArch => 3,
        EnsureView::MakeDirectory(_) => 3,
        EnsureView::AskSystem(_) => 2,
        EnsureView::Upload(_) => 2,
        EnsureView::Download { .. } => 1,
        EnsureView::MakeExecutable => 1,
        EnsureView::Done(_) => 0,
        EnsureView::Failed(_) => 0,
    }
}

/// How far things have come after some answers.
pub open spec fn after_all(
    state: EnsureView,
    answers: Seq<Result<Seq<char>, Seq<char>>>,
    local_version: Option<Seq<char>>,
    local_arch: Seq<char>,
) -> EnsureView
    decreases answers.len(),
{
    if answers.len() == 0 {
        state
    } else {
        after_all(
            after(state, answers[0], local_version, local_arch),
            answers.drop_first(),
            local_version,
            local_arch,
        )
    }
}

/// A run is over.
pub open spec fn is_over(state: EnsureView) -> bool {
    state is Done || state is Failed
}

/// A run is over after eight answers at the latest, whatever they are.
pub proof fn law_run_comes_to_an_end(
    state: EnsureView,
    answers: Seq<Result<Seq<char>, Seq<char>>>,
    local_version: Option<Seq<char>>,
    local_arch: Seq<char>,
)
    requires
        answers.len() >= answers_left(state),
    ensures
        is_over(after_all(state, answers, local_version, local_arch)),
        answers_left(state) <= 8,
    decreases answers.len(),
{
    if answers.len() > 0 {
        let next = after(state, answers[0], local_version, local_arch);
        law_run_comes_to_an_end(next, answers.drop_first(), local_version, local_arch);
    }
}

/// A step that goes wrong ends the run.
pub proof fn law_first_failure_ends_the_run(
    state: EnsureView,
    error: Seq<char>,
    local_version: Option<Seq<char>>,
    local_arch: Seq<char>,
)
    requires
        !is_over(state),
    ensures
        after(state, Err(error), local_version, local_arch) is Failed,
{
}

/// A server on the search path is used unless its version is known to differ; nothing but its
/// version is asked for.
pub proof fn law_fitting_server_is_used(
    path_output: Seq<char>,
    version_output: Seq<char>,
    local_version: Option<Seq<char>>,
    local_arch: Seq<char>,
)
    requires
        crate::remote_install::answer(path_output) is Some,
        fits(crate::remote_install::answer(version_output), local_version),
    ensures
        after_all(
            EnsureView::AskPath,
            seq![Ok(path_output), Ok(version_output)],
            local_version,
            local_arch,
        ) == EnsureView::Done(crate::text::trimmed(path_output)),
{
    let answers: Seq<Result<Seq<char>, Seq<char>>> = seq![Ok(path_output), Ok(version_output)];
    assert(answers.drop_first() =~= seq![Ok(version_output)]);
    assert(answers.drop_first().drop_first() =~= Seq::empty());
    reveal_with_fuel(after_all, 3);
}

/// A host of the same architecture that has no server gets the binary of this host.
pub proof fn law_same_architecture_uploads(
    arch_output: Seq<char>,
    binary: Seq<char>,
    local_version: Option<Seq<char>>,
    local_arch: Seq<char>,
)
    requires
        crate::text::trimmed(arch_output) == local_arch,
    ensures
        after_all(
            EnsureView::AskArch,
            seq![Ok(arch_output), Ok(binary), Ok(Seq::empty())],
            local_version,
            local_arch,
        ) == EnsureView::Upload(binary),
        after_all(
            EnsureView::Upload(binary),
            seq![Ok(Seq::empty()), Ok(Seq::empty())],
            local_version,
            local_arch,
        ) == EnsureView::Done("~/.z3rm-server/z3rm-server"@),
{
    let first: Seq<Result<Seq<char>, Seq<char>>> = seq![
        Ok(arch_output),
        Ok(binary),
        Ok(Seq::empty()),
    ];
    assert(first.drop_first() =~= seq![Ok(binary), Ok(Seq::empty())]);
    assert(first.drop_first().drop_first() =~= seq![Ok(Seq::empty())]);
    assert(first.drop_first().drop_first().drop_first() =~= Seq::empty());
    let second: Seq<Result<Seq<char>, Seq<char>>> = seq![Ok(Seq::empty()), Ok(Seq::empty())];
    assert(second.drop_first() =~= seq![Ok(Seq::empty())]);
    assert(second.drop_first().drop_first() =~= Seq::empty());
    reveal_with_fuel(after_all, 4);
}

/// A host of another architecture that has no server downloads a binary for the architecture and
/// the system that it reports.
pub proof fn law_other_architecture_downloads(
    arch_output: Seq<char>,
    system_output: Seq<char>,
    local_version: Option<Seq<char>>,
    local_arch: Seq<char>,
)
    requires
        crate::text::trimmed(arch_output) != local_arch,
    ensures
        ({
            let state = after_all(
                EnsureView::AskArch,
                seq![Ok(arch_output), Ok(arch_output), Ok(system_output)],
                local_version,
                local_arch,
            );
            &&& state == EnsureView::Download {
                arch: crate::text::trimmed(arch_output),
                os: crate::remote_install::os_name(system_output),
            }
            &&& after(state, Ok(Seq::empty()), local_version, local_arch) == EnsureView::Done(
                "~/.z3rm-server/z3rm-server"@,
            )
        }),
{
    let answers: Seq<Result<Seq<char>, Seq<char>>> = seq![
        Ok(arch_output),
        Ok(arch_output),
        Ok(system_output),
    ];
    assert(answers.drop_first() =~= seq![Ok(arch_output), Ok(system_output)]);
    assert(answers.drop_first().drop_first() =~= seq![Ok(system_output)]);
    assert(answers.drop_first().drop_first().drop_first() =~= Seq::empty());
    reveal_with_fuel(after_all, 4);
}

/// The socket of a server on a remote host.
pub const REMOTE_SOCKET: &'static str = "/tmp/z3rm-mux.sock";

/// How long a server is given to start, in milliseconds.
pub const SERVER_START_MILLIS: u64 = 1_000;

/// Why there is no connection.
#[derive(Debug)]
pub enum ConnectError {
    /// No session with the host could be opened.
    Session(String),
    /// There is no server on the host.
    Server(String),
    /// The server could not be started.
    Start(String),
    /// Its socket could not be forwarded.
    Forward(String),
    /// The forwarded socket does not answer.
    Connect(String),
}

impl ConnectError {
    /// The error in words.
    pub fn message(&self) -> (text: String)
        ensures
            text@ == (match *self {
                ConnectError::Session(error) => error@,
                ConnectError::Server(error) => error@,
                ConnectError::Start(_) => "启动远程 mux_server 失败"@,
                ConnectError::Forward(error) => error@,
                ConnectError::Connect(_) => "通过转发的 socket 连接 mux_server 失败"@,
            }),
    {
        match self {
            ConnectError::Session(error) => error.clone(),
            ConnectError::Server(error) => error.clone(),
            ConnectError::Start(_) => "启动远程 mux_server 失败".to_owned(),
            ConnectError::Forward(error) => error.clone(),
            ConnectError::Connect(_) => "通过转发的 socket 连接 mux_server 失败".to_owned(),
        }
    }
}

/// How far a connection has come.
#[derive(Debug)]
pub enum ConnectState {
    /// A session with the host has to be opened.
    OpenSession,
    /// The host has to have a server.
    EnsureServer,
    /// The server at this path has to be started.
    StartServer(String),
    /// The server has to be given time to start.
    AwaitServer,
    /// Its socket has to be forwarded.
    ForwardSocket,
    /// The forwarded socket has to be connected to.
    Connect(String),
    /// There is a connection.
    Connected,
    /// There is none.
    Failed(ConnectError),
}

/// What has to be done next for a connection.
#[derive(Debug)]
pub enum ConnectStep {
    /// Open a session with the host.
    OpenSession,
    /// See to it that the host has a server. Its path is the answer.
    EnsureServer,
    /// Run this command on the host.
    Run(String),
    /// Wait for so many milliseconds.
    Wait(u64),
    /// Forward this socket of the host. The path of the local socket is the answer.
    Forward(&'static str),
    /// Connect to this local socket.
    Connect(String),
    /// Nothing: the run is over.
    Nothing,
}

/// A state is another one after a step was done; `output` is the answer.
pub open spec fn follows(state: ConnectState, output: Seq<char>, next: ConnectState) -> bool {
    match state {
        ConnectState::OpenSession => next is EnsureServer,
        ConnectState::EnsureServer => next matches ConnectState::StartServer(path) && path@
            == output,
        ConnectState::StartServer(_) => next is AwaitServer,
        ConnectState::AwaitServer => next is ForwardSocket,
        ConnectState::ForwardSocket => next matches ConnectState::Connect(socket) && socket@
            == output,
        ConnectState::Connect(_) => next is Connected,
        ConnectState::Connected => next is Connected,
        ConnectState::Failed(_) => next == state,
    }
}

/// A state is another one after a step went wrong. Waiting does not go wrong.
pub open spec fn breaks_off(state: ConnectState, error: Seq<char>, next: ConnectState) -> bool {
    match state {
        ConnectState::OpenSession => next matches ConnectState::Failed(ConnectError::Session(e))
            && e@ == error,
        ConnectState::EnsureServer => next matches ConnectState::Failed(ConnectError::Server(e))
            && e@ == error,
        ConnectState::StartServer(_) => next matches ConnectState::Failed(ConnectError::Start(e))
            && e@ == error,
        ConnectState::AwaitServer => next is ForwardSocket,
        ConnectState::ForwardSocket => next matches ConnectState::Failed(
            ConnectError::Forward(e),
        ) && e@ == error,
        ConnectState::Connect(_) => next matches ConnectState::Failed(ConnectError::Connect(e))
            && e@ == error,
        ConnectState::Connected => next is Connected,
        ConnectState::Failed(_) => next == state,
    }
}

/// A connection with a server on a remote host, as far as it has come.
#[derive(Debug)]
pub struct ConnectRun {
    /// How the host is reached.
    pub options: SshConnectionOptions,
    /// How far things have come.
    pub state: ConnectState,
}

/// A connection with the host in a URI, at its start.
pub fn connect_ssh(target: &str) -> (run: Result<ConnectRun, SshUriError>)
    ensures
        match run {
            Ok(run) => crate::text::stands_at(target@, crate::ssh::ssh_scheme(), 0)
                && run.state is OpenSession && crate::ssh::describes(run.options, target@),
            Err(SshUriError::InvalidScheme(given)) => !crate::text::stands_at(
                target@,
                crate::ssh::ssh_scheme(),
                0,
            ) && given@ == target@,
        },
{
    match SshConnectionOptions::from_uri(target) {
        Ok(options) => Ok(ConnectRun { options, state: ConnectState::OpenSession }),
        Err(error) => Err(error),
    }
}

/// What is said of a URI that names no host.
pub fn connect_refusal(target: &str) -> (text: String)
    ensures
        text@ == "解析 SSH URI 失败: "@ + target@,
{
    join("解析 SSH URI 失败: ", target)
}

impl ConnectRun {
    /// What has to be done next.
    pub fn step(&self) -> (step: ConnectStep)
        ensures
            match self.state {
                ConnectState::OpenSession => step is OpenSession,
                ConnectState::EnsureServer => step is EnsureServer,
                ConnectState::StartServer(path) => step matches ConnectStep::Run(command)
                    && command@ == "nohup "@ + crate::shell::shell_word(
                    path@,
                    crate::ssh::ssh_special(),
                ) + " --daemonize </dev/null >/dev/null 2>&1 &"@,
                ConnectState::AwaitServer => step == ConnectStep::Wait(SERVER_START_MILLIS),
                ConnectState::ForwardSocket => step matches ConnectStep::Forward(socket)
                    && socket@ == REMOTE_SOCKET@,
                ConnectState::Connect(socket) => step matches ConnectStep::Connect(s) && s@
                    == socket@,
                ConnectState::Connected => step is Nothing,
                ConnectState::Failed(_) => step is Nothing,
            },
    {
        match &self.state {
            ConnectState::OpenSession => ConnectStep::OpenSession,
            ConnectState::EnsureServer => ConnectStep::EnsureServer,
            ConnectState::StartServer(path) => ConnectStep::Run(daemon_command(path.as_str())),
            ConnectState::AwaitServer => ConnectStep::Wait(SERVER_START_MILLIS),
            ConnectState::ForwardSocket => ConnectStep::Forward(REMOTE_SOCKET),
            ConnectState::Connect(socket) => ConnectStep::Connect(socket.clone()),
            ConnectState::Connected => ConnectStep::Nothing,
            ConnectState::Failed(_) => ConnectStep::Nothing,
        }
    }

    /// The step was done, or went wrong.
    pub fn answered(&mut self, answer: Result<String, String>)
        ensures
            final(self).options == old(self).options,
            match answer {
                Ok(output) => follows(old(self).state, output@, final(self).state),
                Err(error) => breaks_off(old(self).state, error@, final(self).state),
            },
    {
        let mut state = ConnectState::Connected;
        std::mem::swap(&mut state, &mut self.state);
        self.state =
        match answer {
            Ok(output) => match state {
                ConnectState::OpenSession => ConnectState::EnsureServer,
                ConnectState::EnsureServer => ConnectState::StartServer(output),
                ConnectState::StartServer(_) => ConnectState::AwaitServer,
                ConnectState::AwaitServer => ConnectState::ForwardSocket,
                ConnectState::ForwardSocket => ConnectState::Connect(output),
                ConnectState::Connect(_) => ConnectState::Connected,
                over => over,
            },
            Err(error) => match state {
                ConnectState::OpenSession => ConnectState::Failed(ConnectError::Session(error)),
                ConnectState::EnsureServer => ConnectState::Failed(ConnectError::Server(error)),
                ConnectState::StartServer(_) => ConnectState::Failed(ConnectError::Start(error)),
                ConnectState::AwaitServer => ConnectState::ForwardSocket,
                ConnectState::ForwardSocket => ConnectState::Failed(ConnectError::Forward(error)),
                ConnectState::Connect(_) => ConnectState::Failed(ConnectError::Connect(error)),
                over => over,
            },
        };
    }
}

/// The search path is asked first, the home directory only where nothing was found there, and the
/// architecture only where nothing was found in either place.
pub proof fn law_home_is_asked_second(
    output: Seq<char>,
    local_version: Option<Seq<char>>,
    local_arch: Seq<char>,
)
    ensures
        crate::remote_install::answer(output) is None ==> after(
            EnsureView::AskPath,
            Ok(output),
            local_version,
            local_arch,
        ) == EnsureView::AskHome && after(
            EnsureView::AskHome,
            Ok(output),
            local_version,
            local_arch,
        ) == EnsureView::AskArch,
        crate::remote_install::answer(output) matches Some(path) ==> after(
            EnsureView::AskPath,
            Ok(output),
            local_version,
            local_arch,
        ) == EnsureView::AskVersion(path) && after(
            EnsureView::AskHome,
            Ok(output),
            local_version,
            local_arch,
        ) == EnsureView::AskVersion(path),
{
}

/// A server is used where its version is that of this host or one of the two is not known; where
/// both are known and differ, another one is put there.
pub proof fn law_other_version_is_replaced(
    path: Seq<char>,
    output: Seq<char>,
    version: Seq<char>,
    local_arch: Seq<char>,
)
    ensures
        crate::remote_install::answer(output) == Some(version) ==> after(
            EnsureView::AskVersion(path),
            Ok(output),
            Some(version),
            local_arch,
        ) == EnsureView::Done(path),
        crate::remote_install::answer(output) is None ==> after(
            EnsureView::AskVersion(path),
            Ok(output),
            Some(version),
            local_arch,
        ) == EnsureView::Done(path),
        after(EnsureView::AskVersion(path), Ok(output), None, local_arch) == EnsureView::Done(path),
        (crate::remote_install::answer(output) matches Some(other) && other != version) ==> after(
            EnsureView::AskVersion(path),
            Ok(output),
            Some(version),
            local_arch,
        ) == EnsureView::AskArch,
{
}

/// A failure says in which step it came, in the words it came with.
pub proof fn law_failure_names_its_step(
    text: Seq<char>,
    other: Seq<char>,
    error: Seq<char>,
    local_version: Option<Seq<char>>,
    local_arch: Seq<char>,
)
    ensures
        after(EnsureView::FindBinary, Err(error), local_version, local_arch) == EnsureView::Failed(
            EnsureErrorView::NoBinary(error),
        ),
        after(EnsureView::MakeDirectory(text), Err(error), local_version, local_arch)
            == EnsureView::Failed(EnsureErrorView::MakeDirectory(error)),
        after(EnsureView::Upload(text), Err(error), local_version, local_arch)
            == EnsureView::Failed(EnsureErrorView::Upload(error)),
        after(EnsureView::MakeExecutable, Err(error), local_version, local_arch)
            == EnsureView::Failed(EnsureErrorView::MakeExecutable(error)),
        after(EnsureView::Download { arch: text, os: other }, Err(error), local_version, local_arch)
            == EnsureView::Failed(EnsureErrorView::Download(error)),
        after(EnsureView::AskPath, Err(error), local_version, local_arch) == EnsureView::Failed(
            EnsureErrorView::Question(error),
        ),
        after(EnsureView::AskHome, Err(error), local_version, local_arch) == EnsureView::Failed(
            EnsureErrorView::Question(error),
        ),
        after(EnsureView::AskVersion(text), Err(error), local_version, local_arch)
            == EnsureView::Failed(EnsureErrorView::Question(error)),
        after(EnsureView::AskArch, Err(error), local_version, local_arch) == EnsureView::Failed(
            EnsureErrorView::Question(error),
        ),
        after(EnsureView::AskDownloadArch, Err(error), local_version, local_arch)
            == EnsureView::Failed(EnsureErrorView::Question(error)),
        after(EnsureView::AskSystem(text), Err(error), local_version, local_arch)
            == EnsureView::Failed(EnsureErrorView::Question(error)),
{
}

/// What is over stays as it ended.
pub proof fn law_run_stays_over(
    state: EnsureView,
    answer: Result<Seq<char>, Seq<char>>,
    local_version: Option<Seq<char>>,
    local_arch: Seq<char>,
)
    requires
        state is Done || state is Failed,
    ensures
        after(state, answer, local_version, local_arch) == state,
        is_over(state),
        command_in(state) is None,
{
}

/// Each question is asked with its own command, and the two steps on this host with none.
pub proof fn law_each_step_has_its_command(text: Seq<char>, other: Seq<char>)
    ensures
        command_in(EnsureView::AskPath) == Some("command -v z3rm-server 2>/dev/null || echo ''"@),
        command_in(EnsureView::AskHome) == Some(
            "ls ~/.z3rm-server/z3rm-server 2>/dev/null || echo ''"@,
        ),
        command_in(EnsureView::AskVersion(text)) == Some(
            crate::shell::shell_word(text, crate::remote_install::install_special())
                + " --version 2>/dev/null || echo ''"@,
        ),
        command_in(EnsureView::AskArch) == Some("uname -m"@),
        command_in(EnsureView::AskDownloadArch) == Some("uname -m"@),
        command_in(EnsureView::AskSystem(text)) == Some("uname -s"@),
        command_in(EnsureView::Download { arch: text, os: other }) == Some(
            "mkdir -p ~/.z3rm-server && curl -sfL "@ + (
            "https://github.com/z3rm/zerm/releases/latest/download/z3rm-server-"@ + text + "-"@
                + other)
                + " -o ~/.z3rm-server/z3rm-server && chmod +x ~/.z3rm-server/z3rm-server"@,
        ),
        command_in(EnsureView::MakeDirectory(text)) == Some("mkdir -p ~/.z3rm-server"@),
        command_in(EnsureView::MakeExecutable) == Some("chmod +x ~/.z3rm-server/z3rm-server"@),
        command_in(EnsureView::FindBinary) is None,
        command_in(EnsureView::Upload(text)) is None,
{
}

/// The place of a step on the way to a connection.
pub open spec fn place_on_the_way(state: ConnectState) -> int {
    match state {
        ConnectState::OpenSession => 0,
        ConnectState::EnsureServer => 1,
        ConnectState::StartServer(_) => 2,
        ConnectState::AwaitServer => 3,
        ConnectState::ForwardSocket => 4,
        ConnectState::Connect(_) => 5,
        ConnectState::Connected => 6,
        ConnectState::Failed(_) => -1,
    }
}

/// Each step that succeeds leads to the next one; the server that was found is the one that is
/// started, and the socket that was forwarded is the one that is connected to.
pub proof fn law_steps_lead_to_the_next(state: ConnectState, output: Seq<char>, next: ConnectState)
    requires
        follows(state, output, next),
    ensures
        0 <= place_on_the_way(state) < 6 ==> place_on_the_way(next) == place_on_the_way(state) + 1,
        state is Connected ==> next is Connected,
        state is Failed ==> next == state,
        (state is EnsureServer && next is StartServer) ==> next->StartServer_0@ == output,
        (state is ForwardSocket && next is Connect) ==> next->Connect_0@ == output,
{
}

/// A step that goes wrong breaks the connection off, in the words it came with, except that
/// waiting for the server to start goes on all the same.
pub proof fn law_failed_step_breaks_off(state: ConnectState, error: Seq<char>, next: ConnectState)
    requires
        breaks_off(state, error, next),
    ensures
        state is AwaitServer ==> next is ForwardSocket,
        state is Connected ==> next is Connected,
        state is Failed ==> next == state,
        state is OpenSession ==> (next matches ConnectState::Failed(ConnectError::Session(e)) && e@
            == error),
        state is EnsureServer ==> (next matches ConnectState::Failed(ConnectError::Server(e)) && e@
            == error),
        state is StartServer ==> (next matches ConnectState::Failed(ConnectError::Start(e)) && e@
            == error),
        state is ForwardSocket ==> (next matches ConnectState::Failed(ConnectError::Forward(e)) && e@
            == error),
        state is Connect ==> (next matches ConnectState::Failed(ConnectError::Connect(e)) && e@
            == error),
{
}

} // verus!
