//! The extension registry, its downloads and the page that shows it; extensions for the server.

use std::io::{Read, Write};
use z3rm::marketplace::{
    check_download, contains_any, download_extension, fetch_registry,
    marketplace_entry_to_metadata, MarketplaceEntry, MarketplaceError, MarketplaceRegistry,
    Version, DEFAULT_REGISTRY_URL,
};
use z3rm::marketplace_browser::{
    open_marketplace, BrowserBody, MarketplaceBrowser, MarketplaceExtension, OpenAction, RowAction,
};
use z3rm::sync::{
    check_install_reply, compress_archive, select_extensions, ExtensionInfo, ExtensionRuntimeSide,
    InstallError, InstallReply, ScannedExtension,
};
use z3rm::text_map::TextMap;

fn make_tar_gz() -> Vec<u8> {
    let mut encoder = flate2::write::GzEncoder::new(Vec::new(), flate2::Compression::default());
    let tar_header = [0u8; 512];
    encoder.write_all(&tar_header).unwrap();
    encoder.finish().unwrap()
}

fn compute_checksum(bytes: &[u8]) -> String {
    let digest = <sha2::Sha256 as sha2::Digest>::digest(bytes);
    digest.iter().map(|byte| format!("{byte:02x}")).collect()
}

fn entry(id: &str, name: &str, version: Version, description: &str) -> MarketplaceEntry {
    MarketplaceEntry {
        id: id.into(),
        name: name.into(),
        version,
        description: description.into(),
        author: "z3rm".into(),
        repository: None,
        download_url: format!("https://example.com/{id}.tar.gz"),
        checksum: "abc".into(),
    }
}

fn two_languages() -> MarketplaceRegistry {
    MarketplaceRegistry {
        registry_version: 1,
        entries: vec![
            entry("rust", "Rust", Version::new(1, 0, 0), "Rust language support"),
            entry("python", "Python", Version::new(1, 0, 0), "Python language support"),
        ],
    }
}

#[test]
fn test_search() {
    let registry = two_languages();

    let results = registry.search("rust");
    assert_eq!(results.len(), 1);
    assert_eq!(results[0].id, "rust");

    let results = registry.search("language");
    assert_eq!(results.len(), 2);

    let results = registry.search("java");
    assert!(results.is_empty());
}

#[test]
fn test_get_by_id() {
    let registry = MarketplaceRegistry {
        registry_version: 1,
        entries: vec![entry("go", "Go", Version::new(1, 0, 0), "Go language support")],
    };

    assert!(registry.get("go").is_some());
    assert!(registry.get("rust").is_none());
}

#[test]
fn test_fetch_registry() {
    let json = b"{\"registry_version\":1,\"entries\":[]}".to_vec();
    let body = fetch_registry(200, "200 OK", json.clone()).unwrap();
    assert_eq!(body, json);
}

#[test]
fn test_download_with_checksum() {
    let tar_bytes = make_tar_gz();
    let checksum = compute_checksum(&tar_bytes);

    let result = download_extension(200, "200 OK", tar_bytes.clone(), &checksum);
    assert!(result.is_ok());
    assert_eq!(result.unwrap(), tar_bytes);

    let result = download_extension(200, "200 OK", tar_bytes, "wrong_checksum");
    assert!(result.is_err());
    assert!(result.unwrap_err().message().contains("checksum mismatch"));
}

#[test]
fn test_entry_to_metadata() {
    let entry = MarketplaceEntry {
        id: "test".into(),
        name: "Test Extension".into(),
        version: Version::new(0, 1, 0),
        description: "A test extension".into(),
        author: "tester".into(),
        repository: Some("https://github.com/test".into()),
        download_url: "https://example.com/test.tar.gz".into(),
        checksum: "abc".into(),
    };

    let metadata = marketplace_entry_to_metadata(&entry);
    assert_eq!(metadata.id, "test");
    assert!(!metadata.dev);
    assert_eq!(metadata.manifest.name, "Test Extension");
    assert_eq!(metadata.manifest.authors, vec!["tester"]);
    assert_eq!(metadata.manifest.version, "0.1.0");
    assert_eq!(metadata.manifest.repository.as_deref(), Some("https://github.com/test"));
}

#[test]
fn test_marketplace_entry_filtering() {
    let entries = vec![
        MarketplaceExtension {
            entry: entry("rust", "Rust", Version::new(1, 0, 0), "Rust language support"),
            installed: true,
            installed_version: "1.0.0".to_string(),
        },
        MarketplaceExtension {
            entry: entry("python", "Python", Version::new(2, 0, 0), "Python language support"),
            installed: false,
            installed_version: "not installed".to_string(),
        },
    ];

    let matching = |query: &str| -> Vec<usize> {
        let query = query.to_lowercase();
        entries
            .iter()
            .enumerate()
            .filter(|(_, entry)| {
                entry.entry.name.to_lowercase().contains(&query)
                    || entry.entry.description.to_lowercase().contains(&query)
            })
            .map(|(i, _)| i)
            .collect()
    };

    assert_eq!(matching("rust"), vec![0]);
    assert_eq!(matching("language"), vec![0, 1]);
}

#[test]
fn a_search_ignores_case_and_looks_at_identifiers() {
    let mut registry = two_languages();
    registry.entries[1].id = "py-LANG".to_string();
    assert_eq!(registry.search("RUST").len(), 1);
    assert_eq!(registry.search("Py-lang").len(), 1);
    assert_eq!(registry.search("").len(), 2);
    assert!(contains_any("ab", "cd", "ef", "d"));
    assert!(!contains_any("ab", "cd", "ef", "bc"));
    assert_eq!(DEFAULT_REGISTRY_URL, "https://extensions.z3rm.dev/registry.json");
}

#[test]
fn the_first_of_two_identifiers_is_found() {
    let mut registry = two_languages();
    registry.entries[1].id = "rust".to_string();
    assert_eq!(registry.get("rust").unwrap().name, "Rust");
}

#[test]
fn a_failed_request_names_its_status() {
    let error = fetch_registry(404, "404 Not Found", vec![1]).unwrap_err();
    assert!(matches!(error, MarketplaceError::RegistryStatus(_)));
    assert_eq!(error.message(), "marketplace registry request failed: 404 Not Found");
    let error = download_extension(500, "500", Vec::new(), "x").unwrap_err();
    assert_eq!(error.message(), "extension download failed: 500");
    let error = check_download(200, "200", vec![1], "aa".to_string(), "bb").unwrap_err();
    assert_eq!(error.message(), "extension checksum mismatch: expected bb, got aa");
    assert_eq!(check_download(299, "", vec![1], "aa".to_string(), "aa").unwrap(), vec![1]);
    assert!(check_download(300, "", vec![1], "aa".to_string(), "aa").is_err());
}

#[test]
fn a_digest_is_that_of_the_bytes() {
    let abc = "ba7816bf8f01cfea414140de5dae2223b00361a396177a9cb410ff61f20015ad";
    assert!(download_extension(200, "200 OK", b"abc".to_vec(), abc).is_ok());
}

#[test]
fn a_version_prints_its_parts() {
    let mut version = Version::new(1, 20, 3);
    assert_eq!(version.to_text(), "1.20.3");
    version.pre = "rc.1".to_string();
    assert_eq!(version.to_text(), "1.20.3-rc.1");
    version.build = "b7".to_string();
    assert_eq!(version.to_text(), "1.20.3-rc.1+b7");
    let parsed = semver::Version::parse("1.20.3-rc.1+b7").unwrap();
    assert_eq!(version.to_text(), parsed.to_string());
}

#[test]
fn the_page_shows_what_can_be_installed() {
    let mut browser = MarketplaceBrowser::new();
    let page = browser.render();
    assert!(matches!(page.body, BrowserBody::Message("Loading marketplace extensions...")));
    assert_eq!(page.footer, "0 extensions available");

    let mut installed: TextMap<String> = TextMap::new();
    installed.insert("rust".to_string(), "0.9.0".to_string());
    browser.finish_refresh(Some(&two_languages()), &installed);
    assert_eq!(browser.entries[0].installed_version, "0.9.0");
    assert_eq!(browser.entries[1].installed_version, "not installed");
    let page = browser.render();
    assert_eq!(page.footer, "2 extensions available");
    match page.body {
        BrowserBody::Rows(rows) => {
            assert_eq!(rows[0].details, "rust \u{b7} v1.0.0 \u{b7} by z3rm");
            assert_eq!(rows[0].button_label, "Uninstall");
            assert!(matches!(&rows[0].action, RowAction::Uninstall { id } if id == "rust"));
            assert_eq!(rows[1].button_id, "install-python");
            assert!(matches!(&rows[1].action, RowAction::Install { id, version }
                if id == "python" && version == "1.0.0"));
        }
        BrowserBody::Message(_) => panic!("no rows"),
    }

    browser.begin_refresh();
    browser.finish_refresh(None, &installed);
    let page = browser.render();
    assert!(matches!(page.body, BrowserBody::Message("Failed to load marketplace extensions")));
}

#[test]
fn one_page_is_enough() {
    assert_eq!(open_marketplace(&[false, true, true]), OpenAction::Activate(1));
    assert_eq!(open_marketplace(&[false]), OpenAction::Add);
}

#[test]
fn test_extension_runtime_side_debug() {
    let client = ExtensionRuntimeSide::ClientSide;
    let server = ExtensionRuntimeSide::ServerSide;
    let both = ExtensionRuntimeSide::Both;

    assert_ne!(client, server);
    assert_ne!(client, both);
    assert_ne!(server, both);
}

fn info(name: &str, runtime_side: ExtensionRuntimeSide, sync: bool) -> ExtensionInfo {
    ExtensionInfo {
        name: name.to_string(),
        version: "1.0.0".to_string(),
        runtime_side,
        sync,
        source_dir: format!("/ext/{name}"),
    }
}

fn scanned(name: &str, manifest: Option<ExtensionInfo>) -> ScannedExtension {
    ScannedExtension {
        directory_name: name.to_string(),
        source_dir: format!("/ext/{name}"),
        manifest,
    }
}

#[test]
fn extensions_for_the_server_keep_their_order() {
    let chosen = select_extensions(vec![
        scanned("a", Some(info("a", ExtensionRuntimeSide::ServerSide, true))),
        scanned("b", Some(info("b", ExtensionRuntimeSide::ClientSide, true))),
        scanned("c", None),
        scanned("d", Some(info("d", ExtensionRuntimeSide::Both, false))),
        scanned("e", Some(info("e", ExtensionRuntimeSide::Both, true))),
    ]);
    let names: Vec<&str> = chosen.iter().map(|info| info.name.as_str()).collect();
    assert_eq!(names, vec!["a", "e"]);
    let unreadable = ExtensionInfo::unreadable("c".to_string(), "/ext/c".to_string());
    assert_eq!(unreadable.version, "0.0.0");
    assert!(!unreadable.is_synced());
}

#[test]
fn an_archive_unpacks_to_what_was_packed() {
    let archive = vec![7u8; 4096];
    let packed = compress_archive(&archive).unwrap();
    assert!(packed.len() < archive.len());
    let mut unpacked = Vec::new();
    flate2::read::GzDecoder::new(packed.as_slice()).read_to_end(&mut unpacked).unwrap();
    assert_eq!(unpacked, archive);
}

#[test]
fn an_installation_is_confirmed_or_fails() {
    let installed = |success: bool| InstallReply::Installed { success, error: "disk".to_string() };
    assert!(check_install_reply(installed(true)).is_ok());
    assert!(matches!(check_install_reply(installed(false)),
        Err(InstallError::Failed(text)) if text == "disk"));
    assert!(matches!(check_install_reply(InstallReply::Other), Err(InstallError::UnexpectedReply)));
}
