//! Where the server, its socket and its extensions lie.
use vstd::prelude::*;
use vstd::string::*;

use crate::text::chars_of;

verus! {

/// A path below a directory.
pub open spec fn joined(dir: Seq<char>, name: Seq<char>) -> Seq<char> {
    if dir.len() == 0 {
        name
    } else if dir.last() == '/' {
        dir + name
    } else {
        dir + "/"@ + name
    }
}

/// A path below a directory; the name does not start with a slash.
pub fn join_path(dir: &str, name: &str) -> (path: String)
    requires
        name@.len() > 0,
        name@[0] != '/',
    ensures
        path@ == joined(dir@, name@),
{
    let chars = chars_of(dir);
    let mut path = String::new();
    path.append(dir);
    if chars.len() > 0 && chars[chars.len() - 1] != '/' {
        path.append("/");
    }
    path.append(name);
    assert(path@ =~= joined(dir@, name@));
    path
}

/// The socket of the server: below the runtime directory, or else below `/tmp`.
pub fn default_socket_path(runtime_dir: Option<&str>) -> (path: String)
    ensures
        path@ == joined(
            match runtime_dir {
                Some(dir) => dir@,
                None => "/tmp"@,
            },
            "z3rm/mux.sock"@,
        ),
{
    proof {
        reveal_strlit("z3rm/mux.sock");
    }
    join_path(
        match runtime_dir {
            Some(dir) => dir,
            None => "/tmp",
        },
        "z3rm/mux.sock",
    )
}

/// The extensions of the user: below the configuration directory, or else below the home
/// directory.
pub fn default_extensions_dir(config_dir: Option<&str>) -> (path: String)
    ensures
        path@ == joined(
            match config_dir {
                Some(dir) => dir@,
                None => "~"@,
            },
            "zerm/extensions"@,
        ),
{
    proof {
        reveal_strlit("zerm/extensions");
    }
    join_path(
        match config_dir {
            Some(dir) => dir,
            None => "~",
        },
        "zerm/extensions",
    )
}

/// The places where the server may be installed, in the order in which they are looked at:
/// beside this program, whose directory is given if it is known, and in the usual directories.
pub open spec fn server_places(own_dir: Option<Seq<char>>) -> Seq<Seq<char>> {
    let usual = seq!["/usr/local/bin/z3rm-server"@, "/usr/bin/z3rm-server"@];
    match own_dir {
        Some(dir) => seq![joined(dir, "z3rm-server"@)] + usual,
        None => usual,
    }
}

/// The places where the server may be installed, in the order in which they are looked at.
pub fn server_candidates(own_dir: Option<&str>) -> (candidates: Vec<String>)
    ensures
        candidates@.map_values(|path: String| path@) == server_places(
            match own_dir {
                Some(dir) => Some(dir@),
                None => None,
            },
        ),
{
    let mut candidates: Vec<String> = Vec::new();
    match own_dir {
        Some(dir) => {
            proof {
                reveal_strlit("z3rm-server");
            }
            candidates.push(join_path(dir, "z3rm-server"));
        },
        None => {},
    }
    candidates.push("/usr/local/bin/z3rm-server".to_owned());
    candidates.push("/usr/bin/z3rm-server".to_owned());
    assert(candidates@.map_values(|path: String| path@) =~= server_places(
        match own_dir {
            Some(dir) => Some(dir@),
            None => None,
        },
    ));
    candidates
}

/// No server is installed on this host.
#[derive(Clone, Copy, Debug, PartialEq, Eq, Structural)]
pub struct ServerNotFound {}

/// The server on this host: the first candidate that exists, or else the one on the search
/// path. `exists` says of each candidate whether it does; `on_path` is what the search path
/// has, if that exists.
pub fn find_local_server_binary(
    candidates: &Vec<String>,
    exists: &Vec<bool>,
    on_path: Option<String>,
) -> (found: Result<String, ServerNotFound>)
    requires
        candidates@.len() == exists@.len(),
    ensures
        match found {
            Ok(path) => {
                ||| exists|i: int|
                    0 <= i < exists@.len() && #[trigger] exists@[i] && path@ == candidates@[i]@
                        && forall|j: int| 0 <= j < i ==> !(#[trigger] exists@[j])
                ||| (forall|i: int| 0 <= i < exists@.len() ==> !(#[trigger] exists@[i]))
                    && on_path == Some(path)
            },
            Err(_) => on_path is None && forall|i: int|
                0 <= i < exists@.len() ==> !(#[trigger] exists@[i]),
        },
{
    let mut i: usize = 0;
    while i < candidates.len()
        invariant
            candidates@.len() == exists@.len(),
            i <= exists@.len(),
            forall|j: int| 0 <= j < i ==> !(#[trigger] exists@[j]),
        decreases candidates@.len() - i,
    {
        if exists[i] {
            let path = candidates[i].clone();
            assert(exists@[i as int] && path@ == candidates@[i as int]@);
            return Ok(path);
        }
        i += 1;
    }
    match on_path {
        Some(path) => Ok(path),
        None => Err(ServerNotFound {  }),
    }
}

/// Exactly one slash stands between a directory and a name below it, whether or not the directory
/// is written with one at its end.
pub proof fn law_one_slash_between(dir: Seq<char>, name: Seq<char>)
    requires
        dir.len() > 0,
        dir.last() != '/',
    ensures
        joined(dir, name) == dir + seq!['/'] + name,
        joined(dir.push('/'), name) == dir + seq!['/'] + name,
        joined(Seq::empty(), name) == name,
{
    reveal_strlit("/");
    assert("/"@ == seq!['/']);
    assert(dir.push('/') == dir + seq!['/']);
}

/// The server beside this program is looked at first, then the one that the host's owner put
/// there, then that of the system.
pub proof fn law_own_server_comes_first(dir: Seq<char>)
    ensures
        server_places(Some(dir)).len() == 3,
        server_places(Some(dir))[0] == joined(dir, "z3rm-server"@),
        server_places(Some(dir))[1] == "/usr/local/bin/z3rm-server"@,
        server_places(Some(dir))[2] == "/usr/bin/z3rm-server"@,
        server_places(None) == server_places(Some(dir)).skip(1),
{
    assert(server_places(None) =~= server_places(Some(dir)).skip(1));
}

} // verus!
