//! Finding and installing the server on a remote host: the commands to run there, and what to
//! make of their output.
use crate::ssh::join;
use crate::text::{chars_of, lowered, same_text, string_of, trim};
use vstd::prelude::*;
use vstd::string::*;

verus! {

/// Characters that a shell would interpret.
pub open spec fn install_special() -> Seq<char> {
    seq![
        ' ', '\'', '"', '\\', '$', '`', '!', '#', '&', '|', ';', '(', ')', '<', '>', '*', '?', '[',
        ']', '{', '}', '~', '\t', '\n',
    ]
}

/// A shell word for a text.
pub fn shell_escape(s: &str) -> (word: String)
    ensures
        word@ == crate::shell::shell_word(s@, install_special()),
{
    let special: Vec<char> = vec![
        ' ', '\'', '"', '\\', '$', '`', '!', '#', '&', '|', ';', '(', ')', '<', '>', '*', '?', '[',
        ']', '{', '}', '~', '\t', '\n',
    ];
    assert(special@ =~= install_special());
    crate::shell::escape(s, special.as_slice())
}

/// A shell reads an escaped text as exactly one word, which is this text.
pub proof fn law_escaped_word_reads_back(s: Seq<char>)
    requires
        !s.contains('\0'),
    ensures
        crate::shell::read_word(crate::shell::shell_word(s, install_special())) == Some(s),
{
    let special = install_special();
    assert(special[0] == ' ');
    assert(special[1] == '\'');
    assert(special[2] == '"');
    assert(special[3] == '\\');
    assert(special[4] == '$');
    assert(special[5] == '`');
    assert(special[7] == '#');
    assert(special[8] == '&');
    assert(special[9] == '|');
    assert(special[10] == ';');
    assert(special[11] == '(');
    assert(special[12] == ')');
    assert(special[13] == '<');
    assert(special[14] == '>');
    assert(special[15] == '*');
    assert(special[16] == '?');
    assert(special[17] == '[');
    assert(special[21] == '~');
    assert(special[22] == '\t');
    assert(special[23] == '\n');
    crate::shell::law_shell_word_reads_back(s, special);
}

/// What a command's output says: its text without surrounding white space, if there is any.
pub open spec fn answer(output: Seq<char>) -> Option<Seq<char>> {
    let text = crate::text::trimmed(output);
    if text.len() == 0 {
        None
    } else {
        Some(text)
    }
}

/// The text of a command's output without surrounding white space.
pub fn trimmed_output(output: &str) -> (text: String)
    ensures
        text@ == crate::text::trimmed(output@),
{
    let chars = chars_of(output);
    let inner = trim(chars.as_slice());
    let text = string_of(inner.as_slice(), 0, inner.len());
    assert(text@ =~= inner@);
    text
}

/// What a command's output says: a path or a version, if it printed one.
pub fn reported(output: &str) -> (text: Option<String>)
    ensures
        match text {
            Some(t) => answer(output@) == Some(t@),
            None => answer(output@) is None,
        },
{
    let text = trimmed_output(output);
    if text.as_str().is_empty() {
        None
    } else {
        Some(text)
    }
}

/// What to ask a remote host next while looking for the server.
#[derive(Debug)]
pub enum ProbeStep {
    /// Run the second command.
    LookInHome,
    /// The server is here.
    Found(String),
}

/// The command that looks for the server on the search path.
pub fn probe_path_command() -> (command: String)
    ensures
        command@ == "command -v z3rm-server 2>/dev/null || echo ''"@,
{
    "command -v z3rm-server 2>/dev/null || echo ''".to_owned()
}

/// The command that looks for the server in the home directory.
pub fn probe_home_command() -> (command: String)
    ensures
        command@ == "ls ~/.z3rm-server/z3rm-server 2>/dev/null || echo ''"@,
{
    "ls ~/.z3rm-server/z3rm-server 2>/dev/null || echo ''".to_owned()
}

/// What the first look says: a server on the search path is taken without a second look.
pub fn probe_step(path_output: &str) -> (step: ProbeStep)
    ensures
        match answer(path_output@) {
            Some(path) => step matches ProbeStep::Found(p) && p@ == path,
            None => step == ProbeStep::LookInHome,
        },
{
    match reported(path_output) {
        Some(path) => ProbeStep::Found(path),
        None => ProbeStep::LookInHome,
    }
}

/// The command that asks a server for its version.
pub fn version_command(server_path: &str) -> (command: String)
    ensures
        command@ == crate::shell::shell_word(server_path@, install_special())
            + " --version 2>/dev/null || echo ''"@,
{
    let mut command = shell_escape(server_path);
    command.append(" --version 2>/dev/null || echo ''");
    command
}

/// The name of a remote system in download names.
pub open spec fn os_name(uname: Seq<char>) -> Seq<char> {
    let os = crate::text::lowercase(crate::text::trimmed(uname));
    if os == "darwin"@ {
        "macos"@
    } else {
        os
    }
}

/// The name of a system, given its lowercase `uname`.
pub fn os_from_lowercase(os: String) -> (name: String)
    ensures
        name@ == (if os@ == "darwin"@ {
            "macos"@
        } else {
            os@
        }),
{
    if same_text(os.as_str(), "darwin") {
        "macos".to_owned()
    } else {
        os
    }
}

/// The name of a remote system, given what `uname -s` prints there.
pub fn remote_os(uname_output: &str) -> (name: String)
    ensures
        name@ == os_name(uname_output@),
{
    let text = trimmed_output(uname_output);
    os_from_lowercase(lowered(text.as_str()))
}

/// Whether the server that is there can be used.
#[derive(Debug)]
pub enum EnsureAction {
    /// Use the server at this path.
    UseExisting(String),
    /// Install the server.
    Install,
}

/// What to do about a remote server: one that is missing, or whose version is known to differ from
/// the local one, is installed; one whose version cannot be told is taken to match.
pub fn ensure_action(
    found: Option<String>,
    remote_version: Option<String>,
    local_version: Option<&str>,
) -> (action: EnsureAction)
    ensures
        match found {
            None => action == EnsureAction::Install,
            Some(path) => if remote_version is Some && local_version is Some
                && remote_version->0@ != local_version->0@ {
                action == EnsureAction::Install
            } else {
                action matches EnsureAction::UseExisting(p) && p@ == path@
            },
        },
{
    match found {
        None => EnsureAction::Install,
        Some(path) => match (remote_version, local_version) {
            (Some(remote), Some(local)) => if same_text(remote.as_str(), local) {
                EnsureAction::UseExisting(path)
            } else {
                EnsureAction::Install
            },
            _ => EnsureAction::UseExisting(path),
        },
    }
}

/// How to install.
#[derive(Debug)]
pub enum InstallPlan {
    /// Upload the local binary.
    Upload,
    /// Have the remote host download a binary for its architecture.
    Download { arch: String },
}

/// How to install: a host of the same architecture gets the local binary.
pub fn install_plan(local_arch: &str, uname_machine: &str) -> (plan: InstallPlan)
    ensures
        ({
            let remote = crate::text::trimmed(uname_machine@);
            if local_arch@ == remote {
                plan == InstallPlan::Upload
            } else {
                plan matches InstallPlan::Download { arch } && arch@ == remote
            }
        }),
{
    let remote = trimmed_output(uname_machine);
    if same_text(local_arch, remote.as_str()) {
        InstallPlan::Upload
    } else {
        InstallPlan::Download { arch: remote }
    }
}

/// Where a binary for an architecture and a system can be downloaded.
pub open spec fn download_url(arch: Seq<char>, os: Seq<char>) -> Seq<char> {
    "https://github.com/z3rm/zerm/releases/latest/download/z3rm-server-"@ + arch + "-"@ + os
}

/// The command that downloads and installs the server.
pub fn download_command(arch: &str, os: &str) -> (command: String)
    ensures
        command@ == "mkdir -p ~/.z3rm-server && curl -sfL "@ + download_url(arch@, os@)
            + " -o ~/.z3rm-server/z3rm-server && chmod +x ~/.z3rm-server/z3rm-server"@,
{
    let mut url = join("https://github.com/z3rm/zerm/releases/latest/download/z3rm-server-", arch);
    url.append("-");
    url.append(os);
    let mut command = join("mkdir -p ~/.z3rm-server && curl -sfL ", url.as_str());
    command.append(" -o ~/.z3rm-server/z3rm-server && chmod +x ~/.z3rm-server/z3rm-server");
    command
}

/// The command that makes the remote directory.
pub fn make_dir_command() -> (command: String)
    ensures
        command@ == "mkdir -p ~/.z3rm-server"@,
{
    "mkdir -p ~/.z3rm-server".to_owned()
}

/// The command that makes the uploaded binary executable.
pub fn make_executable_command() -> (command: String)
    ensures
        command@ == "chmod +x ~/.z3rm-server/z3rm-server"@,
{
    "chmod +x ~/.z3rm-server/z3rm-server".to_owned()
}

/// Where the server is after an installation.
pub fn installed_path() -> (path: String)
    ensures
        path@ == "~/.z3rm-server/z3rm-server"@,
{
    "~/.z3rm-server/z3rm-server".to_owned()
}

/// What a command printed is its answer without the white space around it; printing nothing else
/// is no answer.
pub proof fn law_answer_stands_between_white_space(
    before: Seq<char>,
    text: Seq<char>,
    behind: Seq<char>,
)
    requires
        forall|i: int|
            0 <= i < before.len() ==> crate::text::unicode_white_space(#[trigger] before[i]),
        forall|i: int|
            0 <= i < behind.len() ==> crate::text::unicode_white_space(#[trigger] behind[i]),
        text.len() > 0 ==> !crate::text::unicode_white_space(text[0])
            && !crate::text::unicode_white_space(text.last()),
    ensures
        text.len() > 0 ==> answer(before + text + behind) == Some(text),
        text.len() == 0 ==> answer(before + text + behind) is None,
{
    crate::text::law_trimming_takes_the_white_space_at_the_ends(before, text, behind);
}

/// A system is called by its name in lower case, except that Darwin goes by the name of macOS.
pub proof fn law_darwin_is_macos(uname: Seq<char>)
    ensures
        crate::text::lowercase(crate::text::trimmed(uname)) == "darwin"@ ==> os_name(uname)
            == "macos"@,
        crate::text::lowercase(crate::text::trimmed(uname)) != "darwin"@ ==> os_name(uname)
            == crate::text::lowercase(crate::text::trimmed(uname)),
{
}

/// The download for a host names its architecture before its system.
pub proof fn law_download_names_architecture_and_system(arch: Seq<char>, os: Seq<char>)
    ensures
        download_url(arch, os)
            == "https://github.com/z3rm/zerm/releases/latest/download/z3rm-server-"@ + arch + "-"@
            + os,
{
}

} // verus!
