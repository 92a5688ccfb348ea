//! SSH targets and the command lines of the system's `ssh` and `scp`.
use crate::cwd::lossy_text;
use crate::text::{chars_of, find_char, found_at, parse_unsigned, push_decimal, rfind_char, string_of};
use vstd::prelude::*;
use vstd::string::*;

verus! {

/// Where and how to connect.
#[derive(Clone, Debug)]
pub struct SshConnectionOptions {
    pub host: String,
    /// Remote user; without one the current user's name is taken.
    pub username: Option<String>,
    /// Port; without one the default is taken.
    pub port: Option<u16>,
    /// Path of a key file.
    pub identity_file: Option<String>,
    pub extra_args: Vec<String>,
    /// Connection timeout in seconds.
    pub connect_timeout: u16,
}

impl Default for SshConnectionOptions {
    fn default() -> (options: Self)
        ensures
            options.host@ == Seq::<char>::empty(),
            options.username is None,
            options.port is None,
            options.identity_file is None,
            options.extra_args@ == Seq::<String>::empty(),
            options.connect_timeout == 30,
    {
        SshConnectionOptions {
            host: String::new(),
            username: None,
            port: None,
            identity_file: None,
            extra_args: Vec::new(),
            connect_timeout: 30,
        }
    }
}

/// Why a URI was refused.
#[derive(Debug)]
pub enum SshUriError {
    /// It does not start with `ssh://`.
    InvalidScheme(String),
}

impl SshUriError {
    /// The error in words.
    pub fn message(&self) -> (text: String)
        ensures
            match *self {
                SshUriError::InvalidScheme(uri) => text@
                    == "invalid SSH URI, must start with ssh://: "@ + uri@,
            },
    {
        match self {
            SshUriError::InvalidScheme(uri) => {
                let mut text = String::new();
                text.append("invalid SSH URI, must start with ssh://: ");
                text.append(uri.as_str());
                text
            },
        }
    }
}

/// The scheme of an SSH URI.
pub open spec fn ssh_scheme() -> Seq<char> {
    seq!['s', 's', 'h', ':', '/', '/']
}

/// The user in a target: what stands before the first `@`.
pub open spec fn target_user(target: Seq<char>) -> Option<Seq<char>> {
    let at = crate::text::first_pos(target, '@');
    if at < target.len() {
        Some(target.take(at))
    } else {
        None
    }
}

/// The target without its user.
pub open spec fn target_rest(target: Seq<char>) -> Seq<char> {
    let at = crate::text::first_pos(target, '@');
    if at < target.len() {
        target.skip(at + 1)
    } else {
        target
    }
}

/// The port in a host: what stands behind the last `:`, where that is a port number.
pub open spec fn host_port(host: Seq<char>) -> Option<nat> {
    let colon = crate::text::last_pos(host, ':');
    if colon >= 0 {
        crate::text::unsigned_decimal(host.skip(colon + 1), 0xffff)
    } else {
        None
    }
}

/// The host without its port.
pub open spec fn host_name(host: Seq<char>) -> Seq<char> {
    if host_port(host) is Some {
        host.take(crate::text::last_pos(host, ':'))
    } else {
        host
    }
}

/// What a list of arguments says.
pub open spec fn arg_views(args: Seq<String>) -> Seq<Seq<char>> {
    args.map_values(|a: String| a@)
}

/// Options are those in a URI.
pub open spec fn describes(options: SshConnectionOptions, uri: Seq<char>) -> bool {
    let target = uri.skip(6);
    let rest = target_rest(target);
    &&& options.host@ == host_name(rest)
    &&& match target_user(target) {
        Some(user) => options.username is Some && options.username->0@ == user,
        None => options.username is None,
    }
    &&& match host_port(rest) {
        Some(port) => options.port == Some(port as u16),
        None => options.port is None,
    }
    &&& options.identity_file is None
    &&& options.extra_args@ == Seq::<String>::empty()
    &&& options.connect_timeout == 30
}

impl SshConnectionOptions {
    /// The options in a URI of the form `ssh://[user@]host[:port]`.
    pub fn from_uri(uri: &str) -> (parsed: Result<Self, SshUriError>)
        ensures
            crate::text::stands_at(uri@, ssh_scheme(), 0) ==> (parsed matches Ok(options)
                && describes(options, uri@)),
            !crate::text::stands_at(uri@, ssh_scheme(), 0) ==> (parsed matches Err(
                SshUriError::InvalidScheme(given),
            ) && given@ == uri@),
    {
        let chars = chars_of(uri);
        let scheme: Vec<char> = vec!['s', 's', 'h', ':', '/', '/'];
        assert(scheme@ =~= ssh_scheme());
        if !found_at(chars.as_slice(), scheme.as_slice(), 0) {
            return Err(SshUriError::InvalidScheme(uri.to_owned()));
        }
        let target = vstd::slice::slice_subrange(chars.as_slice(), 6, chars.len());
        assert(target@ =~= uri@.skip(6));
        let mut username: Option<String> = None;
        let mut from: usize = 0;
        match find_char(target, '@') {
            Some(at) => {
                let user = string_of(target, 0, at);
                assert(user@ =~= target@.take(at as int));
                username = Some(user);
                from = at + 1;
            },
            None => {},
        }
        let rest = vstd::slice::slice_subrange(target, from, target.len());
        assert(rest@ =~= target_rest(target@));
        let mut port: Option<u16> = None;
        let mut end: usize = rest.len();
        match rfind_char(rest, ':') {
            Some(colon) => {
                let digits = vstd::slice::slice_subrange(rest, colon + 1, rest.len());
                assert(digits@ =~= rest@.skip(colon + 1));
                match parse_unsigned(digits, 0xffff) {
                    Some(p) => {
                        port = Some(p as u16);
                        end = colon;
                    },
                    None => {},
                }
            },
            None => {},
        }
        let host = string_of(rest, 0, end);
        assert(host@ =~= host_name(rest@));
        Ok(
            SshConnectionOptions {
                host,
                username,
                port,
                identity_file: None,
                extra_args: Vec::new(),
                connect_timeout: 30,
            },
        )
    }

    /// The target as `ssh` takes it.
    pub open spec fn target(&self) -> Seq<char> {
        match self.username {
            Some(user) => user@ + seq!['@'] + self.host@,
            None => self.host@,
        }
    }

    /// The target as `ssh` takes it: `user@host`, or the host alone.
    pub fn destination(&self) -> (destination: String)
        ensures
            destination@ == self.target(),
    {
        match &self.username {
            Some(user) => {
                let mut out = user.clone();
                out.push('@');
                out.append(self.host.as_str());
                assert(out@ =~= self.target());
                out
            },
            None => self.host.clone(),
        }
    }

    /// The arguments that every command line begins with.
    pub open spec fn base_args(&self) -> Seq<Seq<char>> {
        (match self.port {
            Some(port) => seq!["-p"@, crate::text::decimal_text(port as nat)],
            None => seq![],
        }) + (match self.identity_file {
            Some(file) => seq!["-i"@, file@],
            None => seq![],
        }) + seq![
            "-o"@,
            "ConnectTimeout="@ + crate::text::decimal_text(self.connect_timeout as nat),
            "-o"@,
            "StrictHostKeyChecking=no"@,
            "-o"@,
            "BatchMode=yes"@,
        ] + arg_views(self.extra_args@)
    }

    /// The arguments that every command line begins with.
    pub fn build_ssh_args(&self) -> (args: Vec<String>)
        ensures
            arg_views(args@) == self.base_args(),
    {
        let mut args: Vec<String> = Vec::new();
        match self.port {
            Some(port) => {
                args.push("-p".to_owned());
                let mut number = String::new();
                push_decimal(&mut number, port as u64);
                assert(number@ =~= crate::text::decimal_text(port as nat));
                args.push(number);
            },
            None => {},
        }
        match &self.identity_file {
            Some(file) => {
                args.push("-i".to_owned());
                args.push(file.clone());
            },
            None => {},
        }
        args.push("-o".to_owned());
        let mut timeout = "ConnectTimeout=".to_owned();
        push_decimal(&mut timeout, self.connect_timeout as u64);
        args.push(timeout);
        args.push("-o".to_owned());
        args.push("StrictHostKeyChecking=no".to_owned());
        args.push("-o".to_owned());
        args.push("BatchMode=yes".to_owned());
        let ghost fixed = arg_views(args@);
        assert(fixed + arg_views(self.extra_args@) =~= self.base_args());
        let mut i: usize = 0;
        assert(arg_views(args@) =~= fixed + arg_views(self.extra_args@).take(0));
        while i < self.extra_args.len()
            invariant
                i <= self.extra_args@.len(),
                arg_views(args@) == fixed + arg_views(self.extra_args@).take(i as int),
            decreases self.extra_args@.len() - i,
        {
            let ghost before = arg_views(args@);
            args.push(self.extra_args[i].clone());
            assert(arg_views(args@) =~= before.push(self.extra_args@[i as int]@));
            assert(arg_views(args@) =~= fixed + arg_views(self.extra_args@).take(i + 1));
            i += 1;
        }
        assert(arg_views(self.extra_args@).take(i as int) =~= arg_views(self.extra_args@));
        args
    }

    /// The option that names the control socket.
    pub open spec fn control_option(control_path: Seq<char>) -> Seq<char> {
        "ControlPath="@ + control_path
    }

    /// Arguments of the `ssh` that holds a connection open for the others.
    pub fn master_args(&self, control_path: &str) -> (args: Vec<String>)
        ensures
            arg_views(args@) == self.base_args() + seq![
                "-N"@,
                "-o"@,
                "ControlMaster=yes"@,
                "-o"@,
                Self::control_option(control_path@),
                self.target(),
            ],
    {
        let mut args = self.build_ssh_args();
        let ghost base = arg_views(args@);
        args.push("-N".to_owned());
        args.push("-o".to_owned());
        args.push("ControlMaster=yes".to_owned());
        args.push("-o".to_owned());
        args.push(join("ControlPath=", control_path));
        args.push(self.destination());
        assert(arg_views(args@) =~= base + seq![
            "-N"@,
            "-o"@,
            "ControlMaster=yes"@,
            "-o"@,
            Self::control_option(control_path@),
            self.target(),
        ]);
        args
    }

    /// Arguments of an `ssh` that runs a command over the open connection.
    pub fn exec_args(&self, control_path: &str, command: &str) -> (args: Vec<String>)
        ensures
            arg_views(args@) == self.base_args() + seq![
                "-o"@,
                Self::control_option(control_path@),
                self.target(),
                command@,
            ],
    {
        let mut args = self.build_ssh_args();
        let ghost base = arg_views(args@);
        args.push("-o".to_owned());
        args.push(join("ControlPath=", control_path));
        args.push(self.destination());
        args.push(command.to_owned());
        assert(arg_views(args@) =~= base + seq![
            "-o"@,
            Self::control_option(control_path@),
            self.target(),
            command@,
        ]);
        args
    }

    /// Arguments of an `scp` that uploads a file over the open connection, compressed.
    pub fn upload_args(&self, control_path: &str, local_path: &str, remote_path: &str) -> (args: Vec<
        String,
    >)
        ensures
            arg_views(args@) == self.base_args() + seq![
                "-o"@,
                Self::control_option(control_path@),
                "-C"@,
                local_path@,
                self.target() + seq![':'] + remote_path@,
            ],
    {
        let mut args = self.build_ssh_args();
        let ghost base = arg_views(args@);
        args.push("-o".to_owned());
        args.push(join("ControlPath=", control_path));
        args.push("-C".to_owned());
        args.push(local_path.to_owned());
        let mut remote = self.destination();
        remote.push(':');
        remote.append(remote_path);
        assert(remote@ =~= self.target() + seq![':'] + remote_path@);
        args.push(remote);
        assert(arg_views(args@) =~= base + seq![
            "-o"@,
            Self::control_option(control_path@),
            "-C"@,
            local_path@,
            self.target() + seq![':'] + remote_path@,
        ]);
        args
    }

    /// Arguments of an `ssh` that forwards a remote socket to a local one, kept alive by a long
    /// sleep.
    pub fn forward_args(&self, control_path: &str, local_socket: &str, remote_socket: &str) -> (args:
        Vec<String>)
        ensures
            arg_views(args@) == self.base_args() + seq![
                "-o"@,
                Self::control_option(control_path@),
                "-L"@,
                local_socket@ + seq![':'] + remote_socket@,
                self.target(),
                "sleep"@,
                "999999"@,
            ],
    {
        let mut args = self.build_ssh_args();
        let ghost base = arg_views(args@);
        args.push("-o".to_owned());
        args.push(join("ControlPath=", control_path));
        args.push("-L".to_owned());
        let mut forward = local_socket.to_owned();
        forward.push(':');
        forward.append(remote_socket);
        assert(forward@ =~= local_socket@ + seq![':'] + remote_socket@);
        args.push(forward);
        args.push(self.destination());
        args.push("sleep".to_owned());
        args.push("999999".to_owned());
        assert(arg_views(args@) =~= base + seq![
            "-o"@,
            Self::control_option(control_path@),
            "-L"@,
            local_socket@ + seq![':'] + remote_socket@,
            self.target(),
            "sleep"@,
            "999999"@,
        ]);
        args
    }
}

/// One text behind another.
pub(crate) fn join(a: &str, b: &str) -> (out: String)
    ensures
        out@ == a@ + b@,
{
    let mut out = a.to_owned();
    out.append(b);
    out
}

/// A port that is printed into a URI is read back from it, and so are host and user, as long as
/// the host has no `@` or `:` and the user no `@`.
pub proof fn law_uri_round_trip(user: Seq<char>, host: Seq<char>, port: u16)
    requires
        !user.contains('@'),
        !host.contains('@'),
        !host.contains(':'),
    ensures
        ({
            let target = user + seq!['@'] + host + seq![':'] + crate::text::decimal_text(
                port as nat,
            );
            let rest = target_rest(target);
            &&& target_user(target) == Some(user)
            &&& host_port(rest) == Some(port as nat)
            &&& host_name(rest) == host
        }),
{
    let digits = crate::text::decimal_text(port as nat);
    let target = user + seq!['@'] + host + seq![':'] + digits;
    let n = user.len() as int;
    crate::text::law_decimal_text_reads_back(port as nat);
    crate::text::lemma_first_pos(target, '@');
    assert(target[n] == '@');
    assert(crate::text::first_pos(target, '@') == n) by {
        let p = crate::text::first_pos(target, '@');
        if p < n {
            assert(target[p] == user[p]);
            assert(user.contains('@'));
        }
    }
    assert(target.take(n) =~= user);
    let rest = target.skip(n + 1);
    assert(rest =~= host + seq![':'] + digits);
    let m = host.len() as int;
    lemma_last_pos(rest, ':', m);
    assert(rest.skip(m + 1) =~= digits);
    assert(rest.take(m) =~= host);
    assert(digits[0] != '+') by {
        assert(crate::text::is_digit(digits[0]));
    }
}

proof fn lemma_last_pos(s: Seq<char>, c: char, at: int)
    requires
        0 <= at < s.len(),
        s[at] == c,
        forall|j: int| at < j < s.len() ==> #[trigger] s[j] != c || crate::text::is_digit(s[j]),
        !crate::text::is_digit(c),
    ensures
        crate::text::last_pos(s, c) == at,
    decreases s.len(),
{
    if at < s.len() - 1 {
        assert(s[s.len() - 1] != c);
        let head = s.drop_last();
        assert forall|j: int| at < j < head.len() implies #[trigger] head[j] != c
            || crate::text::is_digit(head[j]) by {
            assert(head[j] == s[j]);
        }
        lemma_last_pos(head, c, at);
    }
}

/// Characters that a shell would interpret.
pub open spec fn ssh_special() -> Seq<char> {
    seq![
        ' ', '\'', '"', '\\', '$', '`', '!', '#', '&', '|', ';', '(', ')', '<', '>', '*', '?', '[',
        ']', '~', '\t', '\n',
    ]
}

/// A shell word for a text.
pub fn shell_escape(s: &str) -> (word: String)
    ensures
        word@ == crate::shell::shell_word(s@, ssh_special()),
{
    let special: Vec<char> = vec![
        ' ', '\'', '"', '\\', '$', '`', '!', '#', '&', '|', ';', '(', ')', '<', '>', '*', '?', '[',
        ']', '~', '\t', '\n',
    ];
    assert(special@ =~= ssh_special());
    crate::shell::escape(s, special.as_slice())
}

/// A shell reads an escaped text as exactly one word, which is this text.
pub proof fn law_escaped_word_reads_back(s: Seq<char>)
    requires
        !s.contains('\0'),
    ensures
        crate::shell::read_word(crate::shell::shell_word(s, ssh_special())) == Some(s),
{
    let special = ssh_special();
    assert(special[0] == ' ');
    assert(special[1] == '\'');
    assert(special[2] == '"');
    assert(special[3] == '\\');
    assert(special[4] == '$');
    assert(special[5] == '`');
    assert(special[7] == '#');
    assert(special[8] == '&');
    assert(special[9] == '|');
    assert(special[10] == ';');
    assert(special[11] == '(');
    assert(special[12] == ')');
    assert(special[13] == '<');
    assert(special[14] == '>');
    assert(special[15] == '*');
    assert(special[16] == '?');
    assert(special[17] == '[');
    assert(special[19] == '~');
    assert(special[20] == '\t');
    assert(special[21] == '\n');
    crate::shell::law_shell_word_reads_back(s, special);
}

/// The command that starts a remote server in the background.
pub fn daemon_command(server_path: &str) -> (command: String)
    ensures
        command@ == "nohup "@ + crate::shell::shell_word(server_path@, ssh_special())
            + " --daemonize </dev/null >/dev/null 2>&1 &"@,
{
    let mut command = "nohup ".to_owned();
    command.append(shell_escape(server_path).as_str());
    command.append(" --daemonize </dev/null >/dev/null 2>&1 &");
    command
}

/// What a program that was run over the connection did not do.
#[derive(Debug)]
pub enum SshError {
    /// Run a command; this is what it printed on its error output.
    Exec(String),
    /// Upload a file.
    Upload(String),
}

impl SshError {
    /// The error in words.
    pub fn message(&self) -> (text: String)
        ensures
            text@ == (match *self {
                SshError::Exec(printed) => "SSH exec 失败: "@ + printed@,
                SshError::Upload(printed) => "SCP 上传失败: "@ + printed@,
            }),
    {
        match self {
            SshError::Exec(printed) => join("SSH exec 失败: ", printed.as_str()),
            SshError::Upload(printed) => join("SCP 上传失败: ", printed.as_str()),
        }
    }
}

/// What a command answers, given what it printed: its output where it succeeded.
pub fn command_answer(success: bool, output: String, errors: String) -> (answer: Result<
    String,
    SshError,
>)
    ensures
        match answer {
            Ok(text) => success && text@ == output@,
            Err(SshError::Exec(text)) => !success && text@ == errors@,
            Err(SshError::Upload(_)) => false,
        },
{
    if success {
        Ok(output)
    } else {
        Err(SshError::Exec(errors))
    }
}

/// What a command answers, given the bytes that it printed.
pub fn exec_answer(success: bool, stdout: &[u8], stderr: &[u8]) -> (answer: Result<
    String,
    SshError,
>)
    ensures
        match answer {
            Ok(text) => success && text@ == crate::cwd::utf8_lossy(stdout@),
            Err(SshError::Exec(text)) => !success && text@ == crate::cwd::utf8_lossy(stderr@),
            Err(SshError::Upload(_)) => false,
        },
{
    command_answer(success, lossy_text(stdout), lossy_text(stderr))
}

/// What came of an upload, given the bytes that it printed on its error output.
pub fn upload_answer(success: bool, stderr: &[u8]) -> (answer: Result<(), SshError>)
    ensures
        match answer {
            Ok(_) => success,
            Err(SshError::Upload(text)) => !success && text@ == crate::cwd::utf8_lossy(stderr@),
            Err(SshError::Exec(_)) => false,
        },
{
    if success {
        Ok(())
    } else {
        Err(SshError::Upload(lossy_text(stderr)))
    }
}

/// A target without a user is all host, and a host without a port is all name.
pub proof fn law_user_and_port_may_be_missing(target: Seq<char>, user: Seq<char>, host: Seq<char>)
    requires
        !target.contains('@'),
        !user.contains('@'),
        !host.contains(':'),
    ensures
        target_user(target) is None,
        target_rest(target) == target,
        target_user(user.push('@') + host) == Some(user),
        target_rest(user.push('@') + host) == host,
        host_port(host) is None,
        host_name(host) == host,
{
    crate::text::law_first_and_last_place(target, '@', Seq::empty());
    crate::text::law_first_and_last_place(user, '@', host);
    crate::text::law_first_and_last_place(host, ':', Seq::empty());
    let whole = user.push('@') + host;
    assert(whole.take(user.len() as int) =~= user);
    assert(whole.skip(user.len() as int + 1) =~= host);
}

/// A colon that no number of a port follows belongs to the name of the host.
pub proof fn law_colon_without_a_port_belongs_to_the_name(host: Seq<char>, behind: Seq<char>)
    requires
        !behind.contains(':'),
    ensures
        crate::text::unsigned_decimal(behind, 65_535) is None ==> host_port(
            host.push(':') + behind,
        ) is None && host_name(host.push(':') + behind) == host.push(':') + behind,
        crate::text::unsigned_decimal(behind, 65_535) is Some ==> host_port(host.push(':') + behind)
            == crate::text::unsigned_decimal(behind, 65_535) && host_name(host.push(':') + behind)
            == host,
{
    crate::text::law_first_and_last_place(host, ':', behind);
    let whole = host.push(':') + behind;
    assert(whole.skip(host.len() as int + 1) =~= behind);
    assert(whole.take(host.len() as int) =~= host);
}

/// The options that a URI describes are those it spells out, with half a minute to connect and
/// nothing else.
pub proof fn law_uri_spells_out_the_options(
    options: SshConnectionOptions,
    user: Seq<char>,
    host: Seq<char>,
    port: u16,
)
    requires
        !user.contains('@'),
        !host.contains('@'),
        !host.contains(':'),
        describes(
            options,
            seq!['s', 's', 'h', ':', '/', '/'] + (user + seq!['@'] + host + seq![':']
                + crate::text::decimal_text(port as nat)),
        ),
    ensures
        options.username is Some,
        options.username->0@ == user,
        options.host@ == host,
        options.port == Some(port),
        options.identity_file is None,
        options.extra_args@.len() == 0,
        options.connect_timeout == 30,
        options.target() == user + seq!['@'] + host,
        ssh_scheme() == seq!['s', 's', 'h', ':', '/', '/'],
{
    law_uri_round_trip(user, host, port);
    let target = user + seq!['@'] + host + seq![':'] + crate::text::decimal_text(port as nat);
    assert((seq!['s', 's', 'h', ':', '/', '/'] + target).skip(6) =~= target);
}

/// The port and the key come first where there are any; then the connection is told how long to
/// wait, to take the host's key as it is and never to ask; what the user added comes last.
pub proof fn law_arguments_come_in_order(options: SshConnectionOptions)
    ensures
        ({
            let args = options.base_args();
            let key = if options.port is Some {
                2int
            } else {
                0
            };
            let fixed = key + (if options.identity_file is Some {
                2int
            } else {
                0
            });
            &&& args.len() == fixed + 6 + options.extra_args@.len()
            &&& options.port matches Some(port) ==> args[0] == "-p"@ && args[1]
                == crate::text::decimal_text(port as nat)
            &&& options.identity_file matches Some(file) ==> args[key] == "-i"@ && args[key + 1]
                == file@
            &&& args[fixed] == "-o"@ && args[fixed + 1] == "ConnectTimeout="@
                + crate::text::decimal_text(options.connect_timeout as nat)
            &&& args[fixed + 2] == "-o"@ && args[fixed + 3] == "StrictHostKeyChecking=no"@
            &&& args[fixed + 4] == "-o"@ && args[fixed + 5] == "BatchMode=yes"@
            &&& forall|i: int|
                0 <= i < options.extra_args@.len() ==> args[fixed + 6 + i]
                    == #[trigger] options.extra_args@[i]@
        }),
{
}

/// A user is written before the host, with an at sign between them.
pub proof fn law_target_names_the_user(options: SshConnectionOptions, path: Seq<char>)
    ensures
        options.username is None ==> options.target() == options.host@,
        options.username matches Some(user) ==> options.target() == user@.push('@') + options.host@,
        SshConnectionOptions::control_option(path) == "ControlPath="@ + path,
{
    match options.username {
        Some(user) => {
            assert(user@ + seq!['@'] + options.host@ =~= user@.push('@') + options.host@);
        },
        None => {},
    }
}

/// Letters, digits and what paths are made of need no quotes.
pub proof fn law_path_characters_are_plain(c: char)
    requires
        ('a' <= c <= 'z') || ('A' <= c <= 'Z') || ('0' <= c <= '9') || c == '/' || c == '.' || c
            == '-' || c == '_' || c == ':' || c == '@' || c == '=' || c == '+' || c == ',',
    ensures
        !ssh_special().contains(c),
        !crate::remote_install::install_special().contains(c),
{
}

} // verus!
