//! Which local extensions go to a remote server, and what its answers mean.
use vstd::prelude::*;
use vstd::string::*;

verus! {

/// Where an extension runs.
#[derive(Clone, Copy, Debug, PartialEq, Eq, Structural)]
pub enum ExtensionRuntimeSide {
    ClientSide,
    ServerSide,
    Both,
}

/// An extension.
#[derive(Debug)]
pub struct ExtensionInfo {
    pub name: String,
    pub version: String,
    pub runtime_side: ExtensionRuntimeSide,
    /// Whether it is to be synchronized.
    pub sync: bool,
    /// Directory of its sources.
    pub source_dir: String,
}

/// A directory with a manifest: the extension that the manifest describes, unless it could not
/// be parsed.
#[derive(Debug)]
pub struct ScannedExtension {
    pub directory_name: String,
    pub source_dir: String,
    pub manifest: Option<ExtensionInfo>,
}

impl ExtensionInfo {
    /// Whether the extension goes to the server: it runs there, and is to be synchronized.
    pub open spec fn goes_to_server(self) -> bool {
        self.sync && self.runtime_side != ExtensionRuntimeSide::ClientSide
    }

    /// Whether the extension goes to the server.
    pub fn is_synced(&self) -> (synced: bool)
        ensures
            synced == self.goes_to_server(),
    {
        match self.runtime_side {
            ExtensionRuntimeSide::ServerSide | ExtensionRuntimeSide::Both => self.sync,
            ExtensionRuntimeSide::ClientSide => false,
        }
    }

    /// The extension that stands for an unreadable manifest: named after its directory, and on
    /// the client only.
    pub fn unreadable(directory_name: String, source_dir: String) -> (info: Self)
        ensures
            info.name@ == directory_name@,
            info.version@ == "0.0.0"@,
            info.runtime_side == ExtensionRuntimeSide::ClientSide,
            info.sync,
            info.source_dir@ == source_dir@,
    {
        ExtensionInfo {
            name: directory_name,
            version: "0.0.0".to_owned(),
            runtime_side: ExtensionRuntimeSide::ClientSide,
            sync: true,
            source_dir,
        }
    }
}

/// The extensions that go to the server, in the order in which they were found.
pub open spec fn selected(scanned: Seq<ScannedExtension>) -> Seq<ExtensionInfo>
    decreases scanned.len(),
{
    if scanned.len() == 0 {
        Seq::empty()
    } else {
        let head = selected(scanned.drop_last());
        match scanned.last().manifest {
            Some(info) => if info.goes_to_server() {
                head.push(info)
            } else {
                head
            },
            None => head,
        }
    }
}

proof fn lemma_selected_concat(a: Seq<ScannedExtension>, b: Seq<ScannedExtension>)
    ensures
        selected(a + b) == selected(a) + selected(b),
    decreases b.len(),
{
    if b.len() == 0 {
        assert(a + b =~= a);
        assert(selected(a) + selected(b) =~= selected(a));
    } else {
        lemma_selected_concat(a, b.drop_last());
        assert((a + b).drop_last() =~= a + b.drop_last());
        assert(selected(a + b) =~= selected(a) + selected(b));
    }
}

/// The extensions that go to the server. One with an unreadable manifest counts as running on the
/// client only, so it stays.
pub fn select_extensions(scanned: Vec<ScannedExtension>) -> (extensions: Vec<ExtensionInfo>)
    ensures
        extensions@ == selected(scanned@),
{
    let mut rest = scanned;
    let ghost all = scanned@;
    let mut reversed: Vec<ExtensionInfo> = Vec::new();
    assert(all.skip(all.len() as int) =~= Seq::<ScannedExtension>::empty());
    assert(rest@ =~= all.take(all.len() as int));
    assert(reversed@.reverse() =~= selected(all.skip(all.len() as int)));
    while rest.len() > 0
        invariant
            rest@.len() <= all.len(),
            rest@ == all.take(rest@.len() as int),
            reversed@.reverse() == selected(all.skip(rest@.len() as int)),
        decreases rest@.len(),
    {
        let ghost n = rest@.len() as int;
        match rest.pop() {
            Some(entry) => {
                assert(entry == all[n - 1]);
                assert(rest@ =~= all.take(n - 1));
                let ghost one = seq![entry];
                proof {
                    assert(all.skip(n - 1) =~= one + all.skip(n));
                    lemma_selected_concat(one, all.skip(n));
                    assert(one.drop_last() =~= Seq::<ScannedExtension>::empty());
                    assert(selected(one.drop_last()) == Seq::<ExtensionInfo>::empty());
                }
                let ghost before = reversed@;
                let readable = entry.manifest.is_some();
                let info = match entry.manifest {
                    Some(info) => info,
                    None => ExtensionInfo::unreadable(entry.directory_name, entry.source_dir),
                };
                if info.is_synced() {
                    reversed.push(info);
                    proof {
                        assert(readable);
                        assert(selected(one) =~= seq![info]);
                        assert(reversed@.reverse() =~= seq![info] + before.reverse());
                    }
                } else {
                    assert(selected(one) =~= Seq::<ExtensionInfo>::empty());
                    assert(Seq::<ExtensionInfo>::empty() + before.reverse() =~= before.reverse());
                }
            },
            None => {},
        }
    }
    assert(all.skip(0) =~= all);
    let mut extensions: Vec<ExtensionInfo> = Vec::new();
    let ghost backwards = reversed@;
    assert(extensions@ + reversed@.reverse() =~= backwards.reverse());
    while reversed.len() > 0
        invariant
            extensions@ + reversed@.reverse() == backwards.reverse(),
        decreases reversed@.len(),
    {
        let ghost before = reversed@;
        let ghost done = extensions@;
        match reversed.pop() {
            Some(info) => {
                extensions.push(info);
                assert(before.reverse() =~= seq![info] + reversed@.reverse());
                assert(extensions@ + reversed@.reverse() =~= done + before.reverse());
            },
            None => {},
        }
    }
    assert(extensions@ + reversed@.reverse() =~= extensions@);
    extensions
}

/// The bytes that the `flate2` crate's gzip encoder makes of bytes at its default level, if it
/// finishes.
pub uninterp spec fn gzip_encoded(bytes: Seq<u8>) -> Option<Seq<u8>>;

/// `flate2::write::GzEncoder` over a `Vec` at the default level, written to and finished: the
/// result depends on the bytes alone. What compression does is not restated here.
#[verifier::external_body]
fn gzip(bytes: &[u8]) -> (encoded: Option<Vec<u8>>)
    ensures
        match encoded {
            Some(out) => gzip_encoded(bytes@) == Some(out@),
            None => gzip_encoded(bytes@) is None,
        },
{
    let mut encoder = flate2::write::GzEncoder::new(Vec::new(), flate2::Compression::default());
    std::io::Write::write_all(&mut encoder, bytes).ok()?;
    encoder.finish().ok()
}

/// Why an extension was not packed.
#[derive(Clone, Copy, Debug, PartialEq, Eq, Structural)]
pub enum PackError {
    /// The archive could not be compressed.
    Compression,
}

/// Compress the archive of an extension for the way to the server.
pub fn compress_archive(archive: &[u8]) -> (packed: Result<Vec<u8>, PackError>)
    ensures
        match gzip_encoded(archive@) {
            Some(bytes) => packed matches Ok(p) && p@ == bytes,
            None => packed matches Err(e) && e == PackError::Compression,
        },
{
    match gzip(archive) {
        Some(bytes) => Ok(bytes),
        None => Err(PackError::Compression),
    }
}

/// What a server answered to an installation.
#[derive(Debug)]
pub enum InstallReply {
    /// It tried: whether it succeeded, and the error if not.
    Installed { success: bool, error: String },
    /// It answered something else.
    Other,
}

/// Why an extension is not installed.
#[derive(Debug)]
pub enum InstallError {
    /// The server says why.
    Failed(String),
    /// The server's answer does not fit.
    UnexpectedReply,
}

/// What an answer means.
pub fn check_install_reply(reply: InstallReply) -> (checked: Result<(), InstallError>)
    ensures
        match reply {
            InstallReply::Installed { success, error } => if success {
                checked is Ok
            } else {
                checked matches Err(InstallError::Failed(e)) && e@ == error@
            },
            InstallReply::Other => checked == Err::<(), InstallError>(
                InstallError::UnexpectedReply,
            ),
        },
{
    match reply {
        InstallReply::Installed { success, error } => if success {
            Ok(())
        } else {
            Err(InstallError::Failed(error))
        },
        InstallReply::Other => Err(InstallError::UnexpectedReply),
    }
}

/// An extension goes to the server unless it runs on the client only or is not to be synced.
pub proof fn law_server_side_extensions_go(info: ExtensionInfo)
    ensures
        !info.sync ==> !info.goes_to_server(),
        info.runtime_side == ExtensionRuntimeSide::ClientSide ==> !info.goes_to_server(),
        info.sync && info.runtime_side != ExtensionRuntimeSide::ClientSide ==> info.goes_to_server(),
{
}

/// Just the extensions with a readable manifest that go to the server are selected, in the order
/// in which they were found.
pub proof fn law_selected_in_order(scanned: Seq<ScannedExtension>, next: ScannedExtension)
    ensures
        selected(Seq::<ScannedExtension>::empty()).len() == 0,
        next.manifest is None ==> selected(scanned.push(next)) == selected(scanned),
        next.manifest matches Some(info) ==> selected(scanned.push(next)) == (if info.sync
            && info.runtime_side != ExtensionRuntimeSide::ClientSide {
            selected(scanned).push(info)
        } else {
            selected(scanned)
        }),
{
    assert(scanned.push(next).drop_last() == scanned);
}

} // verus!
