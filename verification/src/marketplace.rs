//! The registry of extensions that can be installed.
use vstd::prelude::*;
use vstd::string::*;

use crate::blob_store::hash_to_hex;
use crate::hashing::sha256;
use crate::text::{chars_of, contains_chars, lowered, push_decimal, same_text};

verus! {

/// Where the registry is found.
pub const DEFAULT_REGISTRY_URL: &'static str = "https://extensions.z3rm.dev/registry.json";

/// The version of an extension.
#[derive(Debug)]
pub struct Version {
    /// The major number.
    pub major: u64,
    /// The minor number.
    pub minor: u64,
    /// The patch number.
    pub patch: u64,
    /// The pre-release part, or nothing.
    pub pre: String,
    /// The build part, or nothing.
    pub build: String,
}

/// A version as text.
pub open spec fn version_text(version: Version) -> Seq<char> {
    crate::text::decimal_text(version.major as nat) + "."@ + crate::text::decimal_text(
        version.minor as nat,
    ) + "."@ + crate::text::decimal_text(version.patch as nat) + (if version.pre@.len() > 0 {
        "-"@ + version.pre@
    } else {
        Seq::empty()
    }) + (if version.build@.len() > 0 {
        "+"@ + version.build@
    } else {
        Seq::empty()
    })
}

impl Version {
    /// A version without pre-release and build parts.
    pub fn new(major: u64, minor: u64, patch: u64) -> (version: Version)
        ensures
            version.major == major,
            version.minor == minor,
            version.patch == patch,
            version.pre@ == Seq::<char>::empty(),
            version.build@ == Seq::<char>::empty(),
    {
        Version { major, minor, patch, pre: String::new(), build: String::new() }
    }

    /// The version as text.
    pub fn to_text(&self) -> (text: String)
        ensures
            text@ == version_text(*self),
    {
        let mut text = String::new();
        push_decimal(&mut text, self.major);
        text.append(".");
        push_decimal(&mut text, self.minor);
        text.append(".");
        push_decimal(&mut text, self.patch);
        let ghost numbers = text@;
        if !is_empty(self.pre.as_str()) {
            text.append("-");
            text.append(self.pre.as_str());
            assert(text@ =~= numbers + ("-"@ + self.pre@));
        }
        let ghost with_pre = text@;
        if !is_empty(self.build.as_str()) {
            text.append("+");
            text.append(self.build.as_str());
            assert(text@ =~= with_pre + ("+"@ + self.build@));
        }
        assert(text@ =~= version_text(*self));
        text
    }
}

/// Whether a text has no characters.
fn is_empty(text: &str) -> (empty: bool)
    ensures
        empty == (text@.len() == 0),
{
    chars_of(text).len() == 0
}

/// One extension of the registry.
#[derive(Debug)]
pub struct MarketplaceEntry {
    /// Identifies the extension.
    pub id: String,
    /// The name that is shown.
    pub name: String,
    /// The version.
    pub version: Version,
    /// What the extension does.
    pub description: String,
    /// Who made it.
    pub author: String,
    /// Where its source is found.
    pub repository: Option<String>,
    /// Where its archive is found.
    pub download_url: String,
    /// The SHA-256 digest of the archive as text.
    pub checksum: String,
}

/// Two extensions say the same.
pub open spec fn same_entry(one: MarketplaceEntry, two: MarketplaceEntry) -> bool {
    &&& one.id@ == two.id@
    &&& one.name@ == two.name@
    &&& one.version.major == two.version.major
    &&& one.version.minor == two.version.minor
    &&& one.version.patch == two.version.patch
    &&& one.version.pre@ == two.version.pre@
    &&& one.version.build@ == two.version.build@
    &&& one.description@ == two.description@
    &&& one.author@ == two.author@
    &&& match (one.repository, two.repository) {
        (Some(first), Some(second)) => first@ == second@,
        (None, None) => true,
        _ => false,
    }
    &&& one.download_url@ == two.download_url@
    &&& one.checksum@ == two.checksum@
}

impl Clone for Version {
    fn clone(&self) -> (copy: Version)
        ensures
            copy.major == self.major,
            copy.minor == self.minor,
            copy.patch == self.patch,
            copy.pre@ == self.pre@,
            copy.build@ == self.build@,
    {
        Version {
            major: self.major,
            minor: self.minor,
            patch: self.patch,
            pre: self.pre.clone(),
            build: self.build.clone(),
        }
    }
}

impl Clone for MarketplaceEntry {
    fn clone(&self) -> (copy: MarketplaceEntry)
        ensures
            same_entry(copy, *self),
    {
        MarketplaceEntry {
            id: self.id.clone(),
            name: self.name.clone(),
            version: self.version.clone(),
            description: self.description.clone(),
            author: self.author.clone(),
            repository: match &self.repository {
                Some(repository) => Some(repository.clone()),
                None => None,
            },
            download_url: self.download_url.clone(),
            checksum: self.checksum.clone(),
        }
    }
}

/// A registry.
#[derive(Debug)]
pub struct MarketplaceRegistry {
    /// The version of the registry's format.
    pub registry_version: u32,
    /// The extensions.
    pub entries: Vec<MarketplaceEntry>,
}

/// An extension matches a query: its name, its description or its identifier contains it, in
/// any case of letters.
pub open spec fn matches_query(entry: MarketplaceEntry, query: Seq<char>) -> bool {
    let wanted = crate::text::lowercase(query);
    ||| crate::text::contains_seq(crate::text::lowercase(entry.name@), wanted)
    ||| crate::text::contains_seq(crate::text::lowercase(entry.description@), wanted)
    ||| crate::text::contains_seq(crate::text::lowercase(entry.id@), wanted)
}

/// An extension matches a query, given its texts and the query in lower case.
pub open spec fn lowered_match(
    name: Seq<char>,
    description: Seq<char>,
    id: Seq<char>,
    wanted: Seq<char>,
) -> bool {
    ||| crate::text::contains_seq(name, wanted)
    ||| crate::text::contains_seq(description, wanted)
    ||| crate::text::contains_seq(id, wanted)
}

/// The extensions that match a query, in the order of the registry.
pub open spec fn found(entries: Seq<MarketplaceEntry>, query: Seq<char>) -> Seq<MarketplaceEntry>
    decreases entries.len(),
{
    if entries.len() == 0 {
        Seq::empty()
    } else if matches_query(entries.last(), query) {
        found(entries.drop_last(), query).push(entries.last())
    } else {
        found(entries.drop_last(), query)
    }
}

/// Whether one of three texts contains a fourth.
pub fn contains_any(name: &str, description: &str, id: &str, wanted: &str) -> (contained: bool)
    ensures
        contained == lowered_match(name@, description@, id@, wanted@),
{
    let needle = chars_of(wanted);
    contains_chars(&chars_of(name), &needle) || contains_chars(&chars_of(description), &needle)
        || contains_chars(&chars_of(id), &needle)
}

impl MarketplaceRegistry {
    /// The first extension with an identifier.
    pub fn get(&self, id: &str) -> (entry: Option<&MarketplaceEntry>)
        ensures
            match entry {
                Some(entry) => exists|i: int|
                    0 <= i < self.entries@.len() && #[trigger] self.entries@[i] == *entry
                        && entry.id@ == id@ && forall|j: int|
                        0 <= j < i ==> (#[trigger] self.entries@[j]).id@ != id@,
                None => forall|i: int|
                    0 <= i < self.entries@.len() ==> (#[trigger] self.entries@[i]).id@ != id@,
            },
    {
        let mut i: usize = 0;
        while i < self.entries.len()
            invariant
                i <= self.entries@.len(),
                forall|j: int| 0 <= j < i ==> (#[trigger] self.entries@[j]).id@ != id@,
            decreases self.entries@.len() - i,
        {
            if same_text(self.entries[i].id.as_str(), id) {
                assert(self.entries@[i as int].id@ == id@);
                return Some(&self.entries[i]);
            }
            i += 1;
        }
        None
    }

    /// The extensions that match a query.
    pub fn search(&self, query: &str) -> (results: Vec<&MarketplaceEntry>)
        ensures
            results@.map_values(|entry: &MarketplaceEntry| *entry) == found(
                self.entries@,
                query@,
            ),
    {
        let wanted = lowered(query);
        let mut results: Vec<&MarketplaceEntry> = Vec::new();
        let mut i: usize = 0;
        assert(results@.map_values(|entry: &MarketplaceEntry| *entry)
            =~= Seq::<MarketplaceEntry>::empty());
        while i < self.entries.len()
            invariant
                i <= self.entries@.len(),
                wanted@ == crate::text::lowercase(query@),
                results@.map_values(|entry: &MarketplaceEntry| *entry) == found(
                    self.entries@.take(i as int),
                    query@,
                ),
            decreases self.entries@.len() - i,
        {
            let entry = &self.entries[i];
            let ghost before = results@;
            assert(self.entries@.take(i + 1).drop_last() =~= self.entries@.take(i as int));
            let name = lowered(entry.name.as_str());
            let description = lowered(entry.description.as_str());
            let id = lowered(entry.id.as_str());
            if contains_any(name.as_str(), description.as_str(), id.as_str(), wanted.as_str()) {
                results.push(entry);
                assert(results@.map_values(|entry: &MarketplaceEntry| *entry)
                    =~= before.map_values(|entry: &MarketplaceEntry| *entry).push(*entry));
            }
            i += 1;
        }
        assert(self.entries@.take(self.entries@.len() as int) =~= self.entries@);
        results
    }
}

/// Why the marketplace did not answer as hoped.
#[derive(Debug)]
pub enum MarketplaceError {
    /// The registry answered with this status.
    RegistryStatus(String),
    /// The download answered with this status.
    DownloadStatus(String),
    /// The archive is not the one that the registry announced.
    ChecksumMismatch {
        /// What the registry announced.
        expected: String,
        /// What came.
        computed: String,
    },
}

impl MarketplaceError {
    /// The error as text.
    pub fn message(&self) -> (text: String)
        ensures
            text@ == (match *self {
                MarketplaceError::RegistryStatus(status) => "marketplace registry request failed: "@
                    + status@,
                MarketplaceError::DownloadStatus(status) => "extension download failed: "@
                    + status@,
                MarketplaceError::ChecksumMismatch { expected, computed } =>
                "extension checksum mismatch: expected "@ + expected@ + ", got "@ + computed@,
            }),
    {
        let mut text = String::new();
        match self {
            MarketplaceError::RegistryStatus(status) => {
                text.append("marketplace registry request failed: ");
                text.append(status.as_str());
            },
            MarketplaceError::DownloadStatus(status) => {
                text.append("extension download failed: ");
                text.append(status.as_str());
            },
            MarketplaceError::ChecksumMismatch { expected, computed } => {
                text.append("extension checksum mismatch: expected ");
                text.append(expected.as_str());
                text.append(", got ");
                text.append(computed.as_str());
            },
        }
        assert(text@ =~= (match *self {
            MarketplaceError::RegistryStatus(status) => "marketplace registry request failed: "@
                + status@,
            MarketplaceError::DownloadStatus(status) => "extension download failed: "@ + status@,
            MarketplaceError::ChecksumMismatch { expected, computed } =>
            "extension checksum mismatch: expected "@ + expected@ + ", got "@ + computed@,
        }));
        text
    }
}

/// A status says that a request succeeded.
pub open spec fn is_success(status: u16) -> bool {
    200 <= status < 300
}

/// The body of the registry's answer, unless its status says that the request failed.
pub fn fetch_registry(status: u16, status_text: &str, body: Vec<u8>) -> (outcome: Result<
    Vec<u8>,
    MarketplaceError,
>)
    ensures
        match outcome {
            Ok(bytes) => is_success(status) && bytes@ == body@,
            Err(error) => !is_success(status) && (error matches MarketplaceError::RegistryStatus(text)
                && text@ == status_text@),
        },
{
    if status >= 200 && status < 300 {
        Ok(body)
    } else {
        Err(MarketplaceError::RegistryStatus(status_text.to_owned()))
    }
}

/// The body of a download's answer, given its digest as text, unless the status says that the
/// request failed or the digest is not the expected one.
pub fn check_download(
    status: u16,
    status_text: &str,
    body: Vec<u8>,
    computed: String,
    expected_checksum: &str,
) -> (outcome: Result<Vec<u8>, MarketplaceError>)
    ensures
        match outcome {
            Ok(bytes) => is_success(status) && computed@ == expected_checksum@ && bytes@ == body@,
            Err(MarketplaceError::DownloadStatus(text)) => !is_success(status) && text@
                == status_text@,
            Err(
                MarketplaceError::ChecksumMismatch { expected, computed: got },
            ) => is_success(status) && computed@ != expected_checksum@ && expected@
                == expected_checksum@ && got@ == computed@,
            Err(MarketplaceError::RegistryStatus(_)) => false,
        },
{
    if !(status >= 200 && status < 300) {
        return Err(MarketplaceError::DownloadStatus(status_text.to_owned()));
    }
    if same_text(computed.as_str(), expected_checksum) {
        Ok(body)
    } else {
        Err(
            MarketplaceError::ChecksumMismatch {
                expected: expected_checksum.to_owned(),
                computed,
            },
        )
    }
}

/// The archive in a download's answer, unless the status says that the request failed or the
/// digest of the archive is not the one that the registry announced.
pub fn download_extension(
    status: u16,
    status_text: &str,
    body: Vec<u8>,
    expected_checksum: &str,
) -> (outcome: Result<Vec<u8>, MarketplaceError>)
    ensures
        ({
            let computed = crate::hashing::hex_text(crate::hashing::sha256_digest(body@));
            match outcome {
                Ok(bytes) => is_success(status) && computed == expected_checksum@ && bytes@
                    == body@,
                Err(MarketplaceError::DownloadStatus(text)) => !is_success(status) && text@
                    == status_text@,
                Err(
                    MarketplaceError::ChecksumMismatch { expected, computed: got },
                ) => is_success(status) && computed != expected_checksum@ && expected@
                    == expected_checksum@ && got@ == computed,
                Err(MarketplaceError::RegistryStatus(_)) => false,
            }
        }),
{
    let digest = sha256(&body);
    let computed = hash_to_hex(&digest);
    check_download(status, status_text, body, computed, expected_checksum)
}

/// What the extension store keeps of an extension's manifest.
#[derive(Debug)]
pub struct ExtensionMetadataManifest {
    /// The version as text.
    pub version: String,
    /// The version of the manifest's format.
    pub schema_version: Option<i32>,
    /// The version of the interface that the extension uses.
    pub wasm_api_version: Option<String>,
    /// The name that is shown.
    pub name: String,
    /// What the extension does.
    pub description: Option<String>,
    /// Where its source is found.
    pub repository: Option<String>,
    /// Who made it.
    pub authors: Vec<String>,
    /// What it provides.
    pub provides_list: Vec<String>,
}

/// What the extension store keeps of an extension.
#[derive(Debug)]
pub struct ExtensionMetadata {
    /// Identifies the extension.
    pub id: String,
    /// Whether it is under development.
    pub dev: bool,
    /// What its manifest says.
    pub manifest: ExtensionMetadataManifest,
    /// When it was published, in seconds since the epoch.
    pub published_at: Option<i64>,
    /// How often it was downloaded.
    pub download_count: u64,
}

/// An extension of the registry as the extension store keeps it.
pub fn marketplace_entry_to_metadata(entry: &MarketplaceEntry) -> (metadata: ExtensionMetadata)
    ensures
        metadata.id@ == entry.id@,
        !metadata.dev,
        metadata.manifest.version@ == version_text(entry.version),
        metadata.manifest.schema_version is None,
        metadata.manifest.wasm_api_version is None,
        metadata.manifest.name@ == entry.name@,
        metadata.manifest.description is Some,
        metadata.manifest.description->0@ == entry.description@,
        match (metadata.manifest.repository, entry.repository) {
            (Some(kept), Some(given)) => kept@ == given@,
            (None, None) => true,
            _ => false,
        },
        metadata.manifest.authors@.len() == 1,
        metadata.manifest.authors@[0]@ == entry.author@,
        metadata.manifest.provides_list@.len() == 0,
        metadata.published_at is None,
        metadata.download_count == 0,
{
    let mut authors: Vec<String> = Vec::new();
    authors.push(entry.author.clone());
    ExtensionMetadata {
        id: entry.id.clone(),
        dev: false,
        manifest: ExtensionMetadataManifest {
            version: entry.version.to_text(),
            schema_version: None,
            wasm_api_version: None,
            name: entry.name.clone(),
            description: Some(entry.description.clone()),
            repository: match &entry.repository {
                Some(repository) => Some(repository.clone()),
                None => None,
            },
            authors,
            provides_list: Vec::new(),
        },
        published_at: None,
        download_count: 0,
    }
}

/// A search finds exactly the extensions of the registry that match.
pub proof fn law_search_finds_the_matches(
    entries: Seq<MarketplaceEntry>,
    query: Seq<char>,
    entry: MarketplaceEntry,
)
    ensures
        found(entries, query).contains(entry) <==> entries.contains(entry) && matches_query(
            entry,
            query,
        ),
    decreases entries.len(),
{
    if entries.len() > 0 {
        let shorter = entries.drop_last();
        let before = found(shorter, query);
        law_search_finds_the_matches(shorter, query, entry);
        assert(entries =~= shorter.push(entries.last()));
        if shorter.contains(entry) {
            let i = choose|i: int| 0 <= i < shorter.len() && shorter[i] == entry;
            assert(entries[i] == entry);
        }
        if entries.contains(entry) && entry != entries.last() {
            let i = choose|i: int| 0 <= i < entries.len() && entries[i] == entry;
            assert(shorter[i] == entry);
        }
        assert(entries[entries.len() - 1] == entries.last());
        if matches_query(entries.last(), query) {
            let after = before.push(entries.last());
            if before.contains(entry) {
                let i = choose|i: int| 0 <= i < before.len() && before[i] == entry;
                assert(after[i] == entry);
            }
            if after.contains(entry) && entry != entries.last() {
                let i = choose|i: int| 0 <= i < after.len() && after[i] == entry;
                assert(before[i] == entry);
            }
            assert(after[before.len() as int] == entries.last());
        }
    }
}

/// An extension matches a search whose text, without regard to case, occurs in its name, its
/// description or its identifier, and no other does.
pub proof fn law_search_looks_at_three_texts(
    entry: MarketplaceEntry,
    query: Seq<char>,
    before: Seq<char>,
    behind: Seq<char>,
)
    ensures
        ({
            let hit = before + crate::text::lowercase(query) + behind;
            crate::text::lowercase(entry.name@) == hit || crate::text::lowercase(entry.description@)
                == hit || crate::text::lowercase(entry.id@) == hit ==> matches_query(entry, query)
        }),
        matches_query(entry, query) ==> exists|at: int|
            #![trigger crate::text::stands_at(crate::text::lowercase(entry.name@), crate::text::lowercase(query), at)]
            crate::text::stands_at(
                crate::text::lowercase(entry.name@),
                crate::text::lowercase(query),
                at,
            ) || crate::text::stands_at(
                crate::text::lowercase(entry.description@),
                crate::text::lowercase(query),
                at,
            ) || crate::text::stands_at(
                crate::text::lowercase(entry.id@),
                crate::text::lowercase(query),
                at,
            ),
{
    let wanted = crate::text::lowercase(query);
    crate::text::law_contained_text_stands_between(before, wanted, behind);
    if matches_query(entry, query) {
        let name = crate::text::lowercase(entry.name@);
        let description = crate::text::lowercase(entry.description@);
        let id = crate::text::lowercase(entry.id@);
        let at = if crate::text::contains_seq(name, wanted) {
            choose|at: int| crate::text::stands_at(name, wanted, at)
        } else if crate::text::contains_seq(description, wanted) {
            choose|at: int| crate::text::stands_at(description, wanted, at)
        } else {
            choose|at: int| crate::text::stands_at(id, wanted, at)
        };
        assert(crate::text::stands_at(name, wanted, at) || crate::text::stands_at(
            description,
            wanted,
            at,
        ) || crate::text::stands_at(id, wanted, at));
    }
}

/// What a search finds comes in the order of the registry.
pub proof fn law_found_in_the_order_of_the_registry(
    entries: Seq<MarketplaceEntry>,
    entry: MarketplaceEntry,
    query: Seq<char>,
)
    ensures
        found(Seq::<MarketplaceEntry>::empty(), query).len() == 0,
        matches_query(entry, query) ==> found(entries.push(entry), query) == found(
            entries,
            query,
        ).push(entry),
        !matches_query(entry, query) ==> found(entries.push(entry), query) == found(entries, query),
{
    assert(entries.push(entry).drop_last() =~= entries);
}

/// A version is written as its three numbers with points between them, a pre-release behind a dash
/// and a build behind a plus sign.
pub proof fn law_version_is_written_out(version: Version)
    ensures
        ({
            let numbers = crate::text::decimal_text(version.major as nat) + "."@
                + crate::text::decimal_text(version.minor as nat) + "."@
                + crate::text::decimal_text(version.patch as nat);
            &&& version.pre@.len() == 0 && version.build@.len() == 0 ==> version_text(version)
                == numbers
            &&& version.pre@.len() > 0 && version.build@.len() == 0 ==> version_text(version)
                == numbers + ("-"@ + version.pre@)
            &&& version.pre@.len() == 0 && version.build@.len() > 0 ==> version_text(version)
                == numbers + ("+"@ + version.build@)
            &&& version.pre@.len() > 0 && version.build@.len() > 0 ==> version_text(version)
                == numbers + ("-"@ + version.pre@) + ("+"@ + version.build@)
        }),
{
    let numbers = crate::text::decimal_text(version.major as nat) + "."@
        + crate::text::decimal_text(version.minor as nat) + "."@ + crate::text::decimal_text(
        version.patch as nat,
    );
    assert(numbers + Seq::<char>::empty() =~= numbers);
    if version.pre@.len() > 0 {
        assert(numbers + ("-"@ + version.pre@) + Seq::<char>::empty() =~= numbers + ("-"@
            + version.pre@));
    }
}

/// An answer succeeded where its status is in the two hundreds.
pub proof fn law_two_hundreds_are_success(status: u16)
    ensures
        is_success(status) <==> status / 100 == 2,
{
}

/// Two entries are the same only where every text and number of theirs is.
pub proof fn law_same_entries_agree(one: MarketplaceEntry, two: MarketplaceEntry)
    ensures
        same_entry(one, one),
        same_entry(one, two) ==> same_entry(two, one),
        same_entry(one, two) ==> one.id@ == two.id@ && one.name@ == two.name@ && one.description@
            == two.description@ && one.author@ == two.author@ && one.download_url@
            == two.download_url@ && one.checksum@ == two.checksum@ && version_text(one.version)
            == version_text(two.version) && (one.repository is Some <==> two.repository is Some),
        same_entry(one, two) && one.repository is Some ==> one.repository->0@
            == two.repository->0@,
{
}

} // verus!
