use std::io::{Cursor, Write};

use osrs_random::update::{
    available, checksum, extract_binary, is_newer, platform, select_asset, validate_asset,
    verify_download, Asset, Release, UpdateError, DOWNLOAD_URL, MAX_ASSET_SIZE,
};

fn asset(bytes: &[u8]) -> Asset {
    Asset {
        name: "osrs-random-linux.zip".into(),
        browser_download_url: format!("{DOWNLOAD_URL}v1.2.0/osrs-random-linux.zip"),
        size: bytes.len() as u64,
        digest: Some(checksum(bytes)),
    }
}

fn release(tag: &str, assets: Vec<Asset>) -> Release {
    Release { tag_name: tag.into(), draft: false, prerelease: false, assets }
}

#[test]
fn compares_semantic_versions_without_downgrading() {
    assert!(is_newer("1.9.0", "v1.10.0").unwrap());
    assert!(!is_newer("v1.10.0", "1.9.0").unwrap());
    assert!(!is_newer("1.2.0", "v1.2.0").unwrap());
    assert!(!is_newer("1.2.0+local", "v1.2.0+release").unwrap());
    assert!(is_newer("1.2.0", "v1.3.0-beta.1").is_err());
}

#[test]
fn compares_timestamp_releases_without_downgrading() {
    assert!(is_newer("v20260704150523", "v20260912090000").unwrap());
    assert!(!is_newer("v20260912090000", "v20260704150523").unwrap());
    assert!(!is_newer("v20260912090000", "v20260912090000").unwrap());
    assert!(is_newer("1.1.0", "v20260912090000").is_err());
    assert!(is_newer("1.1.0", "invalid").is_err());
}

#[test]
fn version_errors_are_told_apart() {
    assert_eq!(is_newer("1.1.0", "v20260912090000"), Err(UpdateError::IncomparableVersions));
    assert_eq!(is_newer("1.1.0", "invalid"), Err(UpdateError::InvalidReleaseVersion));
    assert_eq!(is_newer("local", "1.1.0"), Err(UpdateError::InvalidInstalledVersion));
    assert_eq!(is_newer("1.2.0", "v1.3.0-beta.1"), Err(UpdateError::PrereleaseLatest));
    assert_eq!(is_newer("1.3.0-beta.1", "1.3.0"), Ok(true));
    assert_eq!(is_newer("vv1.0.0", "1.0.0"), Err(UpdateError::InvalidInstalledVersion));
    assert_eq!(is_newer("2026070415052", "20260704150523"), Err(UpdateError::IncomparableVersions));
}

#[test]
fn only_stable_newer_releases_are_offered() {
    let mut r = release("v1.3.0", vec![]);
    r.draft = true;
    assert_eq!(available(r, "1.2.0").err(), Some(UpdateError::NotStable));
    let mut r = release("v1.3.0", vec![]);
    r.prerelease = true;
    assert_eq!(available(r, "1.2.0").err(), Some(UpdateError::NotStable));
    let offered = available(release("v1.3.0", vec![]), "1.2.0").unwrap().unwrap();
    assert_eq!(offered.tag_name, "v1.3.0");
    assert!(available(release("v1.2.0", vec![]), "1.2.0").unwrap().is_none());
}

#[test]
fn rejects_unsupported_architectures_and_abis() {
    assert!(platform("x86_64-unknown-linux-gnu").is_ok());
    assert!(platform("x86_64-pc-windows-msvc").is_ok());
    assert!(platform("aarch64-unknown-linux-gnu").is_err());
    assert!(platform("x86_64-unknown-linux-musl").is_err());
    assert!(platform("x86_64-pc-windows-gnu").is_err());
}

#[test]
fn platforms_name_their_assets() {
    assert_eq!(
        platform("x86_64-unknown-linux-gnu"),
        Ok(("osrs-random-linux.zip", "osrs-random"))
    );
    assert_eq!(
        platform("x86_64-pc-windows-msvc"),
        Ok(("osrs-random-windows.zip", "osrs-random.exe"))
    );
    assert_eq!(
        platform("riscv64gc-unknown-linux-gnu"),
        Err(UpdateError::UnsupportedPlatform("riscv64gc-unknown-linux-gnu".into()))
    );
}

#[test]
fn rejects_missing_digests_foreign_urls_and_tampered_downloads() {
    let mut asset = asset(b"archive");
    validate_asset(&asset, "v1.2.0").unwrap();
    verify_download(&asset, b"archive").unwrap();
    assert!(verify_download(&asset, b"changed").is_err());
    assert!(verify_download(&asset, b"short").is_err());
    asset.browser_download_url = "https://example.com/archive.zip".into();
    assert!(validate_asset(&asset, "v1.2.0").is_err());
    asset.digest = None;
    assert!(verify_download(&asset, b"archive").is_err());
}

#[test]
fn checksums_are_lower_case_sha256() {
    assert_eq!(
        checksum(b""),
        "sha256:e3b0c44298fc1c149afbf4c8996fb92427ae41e4649b934ca495991b7852b855"
    );
    assert_eq!(
        checksum(b"abc"),
        "sha256:ba7816bf8f01cfea414140de5dae2223b00361a396177a9cb410ff61f20015ad"
    );
    let mut a = asset(b"archive");
    a.digest = Some(checksum(b"archive").to_uppercase().replace("SHA256:", "sha256:"));
    assert_eq!(verify_download(&a, b"archive"), Ok(()));
    assert_eq!(verify_download(&a, b"archivE"), Err(UpdateError::DigestMismatch));
    assert_eq!(verify_download(&a, b"archive!"), Err(UpdateError::IncompleteDownload));
}

#[test]
fn asset_metadata_checks_are_told_apart() {
    let good = asset(b"archive");
    let mut a = asset(b"archive");
    a.size = 0;
    assert_eq!(validate_asset(&a, "v1.2.0"), Err(UpdateError::InvalidAssetSize));
    a.size = MAX_ASSET_SIZE + 1;
    assert_eq!(validate_asset(&a, "v1.2.0"), Err(UpdateError::InvalidAssetSize));
    a.size = MAX_ASSET_SIZE;
    assert_eq!(validate_asset(&a, "v1.2.0"), Ok(()));
    assert_eq!(validate_asset(&good, "v1.2.1"), Err(UpdateError::UnexpectedDownloadUrl));
    let mut a = asset(b"archive");
    a.digest = Some("md5:abc".into());
    assert_eq!(validate_asset(&a, "v1.2.0"), Err(UpdateError::MissingDigest));
    a.digest = None;
    assert_eq!(validate_asset(&a, "v1.2.0"), Err(UpdateError::MissingDigest));
    a.digest = Some(format!("sha256:{}", "g".repeat(64)));
    assert_eq!(validate_asset(&a, "v1.2.0"), Err(UpdateError::InvalidDigest));
    a.digest = Some(format!("sha256:{}", "A".repeat(63)));
    assert_eq!(validate_asset(&a, "v1.2.0"), Err(UpdateError::InvalidDigest));
}

#[test]
fn the_platform_asset_is_chosen_by_name() {
    let mut windows = asset(b"win");
    windows.name = "osrs-random-windows.zip".into();
    windows.browser_download_url = format!("{DOWNLOAD_URL}v1.2.0/osrs-random-windows.zip");
    let r = release("v1.2.0", vec![windows, asset(b"linux")]);
    assert_eq!(select_asset(&r, "osrs-random-linux.zip"), Ok(1));
    assert_eq!(select_asset(&r, "osrs-random-windows.zip"), Ok(0));
    assert_eq!(select_asset(&r, "osrs-random-mac.zip"), Err(UpdateError::NoAssetForPlatform));
    let r = release("v1.3.0", vec![asset(b"linux")]);
    assert_eq!(
        select_asset(&r, "osrs-random-linux.zip"),
        Err(UpdateError::UnexpectedDownloadUrl)
    );
}

fn archive(files: &[(&str, &[u8])]) -> Vec<u8> {
    let mut writer = zip::ZipWriter::new(Cursor::new(Vec::new()));
    let options = zip::write::SimpleFileOptions::default();
    for (name, data) in files {
        writer.start_file(*name, options).unwrap();
        writer.write_all(data).unwrap();
    }
    writer.finish().unwrap().into_inner()
}

#[test]
fn extracts_only_the_expected_binary() {
    let bytes = archive(&[("../outside", b"unwanted"), ("osrs-random", b"executable")]);
    let binary = extract_binary(&bytes, "osrs-random").unwrap();
    assert_eq!(binary, b"executable");
    assert!(extract_binary(&bytes, "osrs-random.exe").is_err());
    assert!(extract_binary(b"broken", "osrs-random").is_err());
}

#[test]
fn archive_errors_are_told_apart() {
    let bytes = archive(&[("osrs-random", b"")]);
    assert_eq!(extract_binary(&bytes, "osrs-random"), Err(UpdateError::InvalidExecutableSize));
    assert_eq!(extract_binary(&bytes, "other"), Err(UpdateError::MissingExecutable));
    assert_eq!(extract_binary(b"broken", "osrs-random"), Err(UpdateError::InvalidArchive));
    let mut writer = zip::ZipWriter::new(Cursor::new(Vec::new()));
    writer
        .add_directory("osrs-random", zip::write::SimpleFileOptions::default())
        .unwrap();
    let bytes = writer.finish().unwrap().into_inner();
    assert_eq!(extract_binary(&bytes, "osrs-random/"), Err(UpdateError::InvalidExecutable));
}

#[test]
fn own_checksums_are_accepted_digests() {
    let digest = checksum(b"archive");
    assert_eq!(digest.len(), 71);
    assert!(digest.starts_with("sha256:"));
    assert!(digest[7..].chars().all(|c| c.is_ascii_hexdigit() && !c.is_ascii_uppercase()));
    assert_eq!(validate_asset(&asset(b"archive"), "v1.2.0"), Ok(()));
}
