use ed25519_dalek::{Signer, SigningKey};
use rustzen_core::deploy_artifact::{
    append_marker_bounds, binary_arch_from_str, deploy_signature_payload, detect_binary_arch,
    find_last_subslice, find_subslice, hex_encode, is_macho_or_fat, is_script, is_zip,
    normalize_binary_arch, sha256_hex, validate_binary_marker, validate_deploy_signature_marker,
    validate_web_dist_zip, zip_extract_step, zip_path_name, ExtractStep, BinaryArch, DeployArtifactError, DeploySignatureMarker,
    SignatureValidationInput, WebZipValidationConfig,
};
use std::io::{Cursor, Write};
use zip::{write::SimpleFileOptions, ZipWriter};

fn build_web_zip(extra_entry: &str, extra_content: &[u8]) -> Vec<u8> {
    let mut cursor = Cursor::new(Vec::new());
    {
        let mut zip = ZipWriter::new(&mut cursor);
        let options = SimpleFileOptions::default();
        zip.start_file("dist/index.html", options).unwrap();
        zip.write_all(b"<html></html>").unwrap();
        zip.start_file("dist/assets/app.js", options).unwrap();
        zip.write_all(b"console.log('ok')").unwrap();
        zip.start_file(extra_entry, options).unwrap();
        zip.write_all(extra_content).unwrap();
        zip.finish().unwrap();
    }
    cursor.into_inner()
}

fn hex(bytes: &[u8]) -> String {
    bytes.iter().map(|byte| format!("{byte:02x}")).collect()
}

fn message(err: DeployArtifactError) -> String {
    err.to_display_string()
}

#[test]
fn detects_elf_arch() {
    let mut bytes = vec![0_u8; 64];
    bytes[0] = 0x7f;
    bytes[1] = b'E';
    bytes[2] = b'L';
    bytes[3] = b'F';
    bytes[4] = 2;
    bytes[5] = 1;
    bytes[18] = 62;

    assert_eq!(detect_binary_arch(&bytes).unwrap(), Some(BinaryArch::X86_64));
}

#[test]
fn validates_web_zip_and_computes_content_hash() {
    let zip = build_web_zip("dist/__rustzen_marker__.json", br#"{"component":"web"}"#);
    let report =
        validate_web_dist_zip(&zip, &WebZipValidationConfig::new("dist/__rustzen_marker__.json"))
            .unwrap();

    assert_eq!(report.marker_content, r#"{"component":"web"}"#);
    assert_eq!(report.content_sha256.len(), 64);
}

#[test]
fn rejects_unsafe_web_zip_path() {
    let zip = build_web_zip("../config/app.env", b"bad");
    let err =
        validate_web_dist_zip(&zip, &WebZipValidationConfig::new("dist/__rustzen_marker__.json"))
            .unwrap_err();

    assert!(err.to_display_string().contains("invalid paths"));
}

#[test]
fn validates_deploy_signature_marker() {
    let signing_key = SigningKey::from_bytes(&[3; 32]);
    let verify_key = hex(signing_key.verifying_key().as_bytes());
    let content_hash = "ab".repeat(32);
    let payload =
        deploy_signature_payload("rustzen-admin-deploy-v1", "server", "v1.0.0", "x86_64", &content_hash);
    let signature = signing_key.sign(payload.as_bytes());
    let marker = DeploySignatureMarker {
        schema_version: 1,
        component: "server".to_string(),
        version: "v1.0.0".to_string(),
        arch: "x86_64".to_string(),
        content_sha256: content_hash.clone(),
        signature: hex(&signature.to_bytes()),
    };

    validate_deploy_signature_marker(
        &marker,
        &SignatureValidationInput {
            payload_version: "rustzen-admin-deploy-v1",
            expected_schema_version: 1,
            expected_component: "server",
            expected_version: "v1.0.0",
            expected_arch: "x86_64",
            expected_content_sha256: &content_hash,
            verify_key_hex: &verify_key,
        },
    )
    .unwrap();
}

#[test]
fn signature_marker_errors_name_the_mismatch() {
    let signing_key = SigningKey::from_bytes(&[7; 32]);
    let verify_key = hex(signing_key.verifying_key().as_bytes());
    let content_hash = "cd".repeat(32);
    let payload = deploy_signature_payload("v1", "web", "1.2.3", "aarch64", &content_hash);
    let signature = signing_key.sign(payload.as_bytes());
    let marker = DeploySignatureMarker {
        schema_version: 1,
        component: "web".to_string(),
        version: "1.2.3".to_string(),
        arch: "aarch64".to_string(),
        content_sha256: content_hash.clone(),
        signature: hex(&signature.to_bytes()),
    };
    let input = SignatureValidationInput {
        payload_version: "v1",
        expected_schema_version: 1,
        expected_component: "web",
        expected_version: "1.2.3",
        expected_arch: "aarch64",
        expected_content_sha256: &content_hash,
        verify_key_hex: &verify_key,
    };
    assert!(validate_deploy_signature_marker(&marker, &input).is_ok());

    let wrong_schema = SignatureValidationInput { expected_schema_version: 2, ..input.clone() };
    assert_eq!(
        message(validate_deploy_signature_marker(&marker, &wrong_schema).unwrap_err()),
        "deploy signature marker schema version is invalid"
    );
    let wrong_component = SignatureValidationInput { expected_component: "server", ..input.clone() };
    assert_eq!(
        message(validate_deploy_signature_marker(&marker, &wrong_component).unwrap_err()),
        "deploy signature component mismatch: expected server"
    );
    let wrong_version = SignatureValidationInput { expected_version: "9", ..input.clone() };
    assert_eq!(
        message(validate_deploy_signature_marker(&marker, &wrong_version).unwrap_err()),
        "deploy signature version mismatch: expected 9"
    );
    let wrong_arch = SignatureValidationInput { expected_arch: "x86_64", ..input.clone() };
    assert_eq!(
        message(validate_deploy_signature_marker(&marker, &wrong_arch).unwrap_err()),
        "deploy signature arch mismatch: expected x86_64"
    );
    let other_hash = "ef".repeat(32);
    let wrong_hash = SignatureValidationInput { expected_content_sha256: &other_hash, ..input.clone() };
    assert_eq!(
        message(validate_deploy_signature_marker(&marker, &wrong_hash).unwrap_err()),
        "deploy signature content hash mismatch"
    );
    let other_key = hex(SigningKey::from_bytes(&[9; 32]).verifying_key().as_bytes());
    let wrong_key = SignatureValidationInput { verify_key_hex: &other_key, ..input.clone() };
    assert_eq!(
        message(validate_deploy_signature_marker(&marker, &wrong_key).unwrap_err()),
        "deploy signature verification failed"
    );
}

#[test]
fn web_zip_requires_marker_and_assets() {
    let zip = build_web_zip("dist/other.txt", b"x");
    let err = validate_web_dist_zip(&zip, &WebZipValidationConfig::new("dist/marker.json"))
        .unwrap_err();
    assert_eq!(message(err), "web zip must contain dist/marker.json");
    let err = validate_web_dist_zip(b"not a zip", &WebZipValidationConfig::new("m"))
        .unwrap_err();
    assert_eq!(message(err), "web artifact must be a zip file");
    let err = validate_web_dist_zip(b"PK garbage", &WebZipValidationConfig::new("m"))
        .unwrap_err();
    assert_eq!(message(err), "web zip cannot be parsed");
}

#[test]
fn web_zip_hash_ignores_marker_content() {
    let a = build_web_zip("dist/m.json", b"one");
    let b = build_web_zip("dist/m.json", b"two");
    let config = WebZipValidationConfig::new("dist/m.json");
    let ra = validate_web_dist_zip(&a, &config).unwrap();
    let rb = validate_web_dist_zip(&b, &config).unwrap();
    assert_eq!(ra.content_sha256, rb.content_sha256);
    assert_ne!(ra.marker_content, rb.marker_content);
}

#[test]
fn binary_marker_rules() {
    let mut elf = vec![0x7f, b'E', b'L', b'F', 0, 0];
    elf.extend_from_slice(b"RZMARK");
    assert!(validate_binary_marker(&elf, b"RZMARK", false).is_ok());
    assert_eq!(
        message(validate_binary_marker(&elf, b"OTHER", false).unwrap_err()),
        "binary artifact marker check failed"
    );
    let script = b"#!/bin/sh\n# RZMARK\n".to_vec();
    assert!(is_script(&script));
    assert!(validate_binary_marker(&script, b"RZMARK", true).is_ok());
    assert_eq!(
        message(validate_binary_marker(&script, b"RZMARK", false).unwrap_err()),
        "binary artifact must be an executable binary"
    );
}

#[test]
fn appended_marker_bounds_use_last_begin() {
    let data = b"xxBEGIN1ENDyyBEGIN22END";
    let bounds = append_marker_bounds(data, b"BEGIN", b"END").unwrap();
    assert_eq!(bounds.marker_start, 13);
    assert_eq!(bounds.marker_content_start, 18);
    assert_eq!(bounds.marker_end, 20);
    assert_eq!(
        message(append_marker_bounds(b"no marker", b"BEGIN", b"END").unwrap_err()),
        "appended marker is required"
    );
    assert_eq!(
        message(append_marker_bounds(b"xxBEGINabc", b"BEGIN", b"END").unwrap_err()),
        "appended marker is incomplete"
    );
}

#[test]
fn subslice_search() {
    assert_eq!(find_subslice(b"abcabc", b"bc"), Some(1));
    assert_eq!(find_last_subslice(b"abcabc", b"bc"), Some(4));
    assert_eq!(find_subslice(b"abc", b""), Some(0));
    assert_eq!(find_last_subslice(b"abc", b""), Some(3));
    assert_eq!(find_subslice(b"abc", b"x"), None);
}

#[test]
fn arch_names_and_magic() {
    assert_eq!(binary_arch_from_str(" AMD64 "), Some(BinaryArch::X86_64));
    assert_eq!(binary_arch_from_str("arm64"), Some(BinaryArch::Aarch64));
    assert_eq!(binary_arch_from_str("mips"), None);
    assert_eq!(normalize_binary_arch("Aarch64"), Some("aarch64"));
    assert!(is_zip(b"PK\x03\x04"));
    assert!(is_macho_or_fat(&[0xcf, 0xfa, 0xed, 0xfe]));
    let mut macho = vec![0xcf, 0xfa, 0xed, 0xfe, 0x0c, 0x00, 0x00, 0x01];
    macho.extend_from_slice(&[0; 8]);
    assert_eq!(detect_binary_arch(&macho).unwrap(), Some(BinaryArch::Aarch64));
    assert_eq!(detect_binary_arch(b"plain text").unwrap(), None);
}

#[test]
fn sha256_and_hex() {
    assert_eq!(
        sha256_hex(b"abc"),
        "ba7816bf8f01cfea414140de5dae2223b00361a396177a9cb410ff61f20015ad"
    );
    assert_eq!(hex_encode(&[0x00, 0xab, 0x7f]), "00ab7f");
}

#[test]
fn zip_names_keep_normal_components() {
    assert_eq!(zip_path_name("dist/assets/app.js"), Some("dist/assets/app.js".to_string()));
    assert_eq!(zip_path_name("dist/../x"), None);
}

fn build_zip(entries: &[(&str, &[u8])]) -> Vec<u8> {
    let mut cursor = Cursor::new(Vec::new());
    {
        let mut zip = ZipWriter::new(&mut cursor);
        let options = SimpleFileOptions::default();
        for (name, content) in entries {
            zip.start_file(*name, options).unwrap();
            zip.write_all(content).unwrap();
        }
        zip.finish().unwrap();
    }
    cursor.into_inner()
}

#[test]
fn web_zip_hash_ignores_entry_order() {
    let config = WebZipValidationConfig::new("dist/m.json");
    let a = build_zip(&[
        ("dist/index.html", b"<html></html>"),
        ("dist/assets/app.js", b"1"),
        ("dist/assets/app.css", b"2"),
        ("dist/m.json", b"{}"),
    ]);
    let b = build_zip(&[
        ("dist/m.json", b"{}"),
        ("dist/assets/app.css", b"2"),
        ("dist/index.html", b"<html></html>"),
        ("dist/assets/app.js", b"1"),
    ]);
    let c = build_zip(&[
        ("dist/m.json", b"{}"),
        ("dist/assets/app.css", b"3"),
        ("dist/index.html", b"<html></html>"),
        ("dist/assets/app.js", b"1"),
    ]);
    let ha = validate_web_dist_zip(&a, &config).unwrap().content_sha256;
    let hb = validate_web_dist_zip(&b, &config).unwrap().content_sha256;
    let hc = validate_web_dist_zip(&c, &config).unwrap().content_sha256;
    assert_eq!(ha, hb);
    assert_ne!(ha, hc);
}

#[test]
fn web_zip_limits_are_enforced() {
    let zip = build_web_zip("dist/m.json", b"{}");
    let mut config = WebZipValidationConfig::new("dist/m.json");
    config.max_single_uncompressed = 15;
    assert_eq!(
        message(validate_web_dist_zip(&zip, &config).unwrap_err()),
        "web zip file is too large after unzip: dist/assets/app.js"
    );
    let mut config = WebZipValidationConfig::new("dist/m.json");
    config.max_total_uncompressed = 20;
    assert_eq!(
        message(validate_web_dist_zip(&zip, &config).unwrap_err()),
        "web zip total uncompressed size is too large"
    );
    let mut config = WebZipValidationConfig::new("dist/m.json");
    config.max_files = 2;
    assert_eq!(
        message(validate_web_dist_zip(&zip, &config).unwrap_err()),
        "web zip file count is invalid: 3"
    );
}

#[test]
fn hex_written_by_library_is_read_back() {
    let signing_key = SigningKey::from_bytes(&[5; 32]);
    let verify_key = hex_encode(signing_key.verifying_key().as_bytes());
    assert_eq!(verify_key.len(), 64);
    let content_hash = sha256_hex(b"payload");
    let payload = deploy_signature_payload("v2", "server", "2.0.0", "x86_64", &content_hash);
    let signature = hex_encode(&signing_key.sign(payload.as_bytes()).to_bytes());
    let marker = DeploySignatureMarker {
        schema_version: 2,
        component: "server".to_string(),
        version: "2.0.0".to_string(),
        arch: "x86_64".to_string(),
        content_sha256: content_hash.clone(),
        signature: format!("  {}\n", signature.to_uppercase()),
    };
    let input = SignatureValidationInput {
        payload_version: "v2",
        expected_schema_version: 2,
        expected_component: "server",
        expected_version: "2.0.0",
        expected_arch: "x86_64",
        expected_content_sha256: &content_hash,
        verify_key_hex: &verify_key,
    };
    assert!(validate_deploy_signature_marker(&marker, &input).is_ok());
    let short = DeploySignatureMarker { signature: "abcd".to_string(), ..marker.clone() };
    assert_eq!(
        message(validate_deploy_signature_marker(&short, &input).unwrap_err()),
        "deploy signature must be 64 bytes"
    );
    let odd = DeploySignatureMarker { signature: "abc".to_string(), ..marker.clone() };
    assert_eq!(
        message(validate_deploy_signature_marker(&odd, &input).unwrap_err()),
        "deploy signature is invalid: hex length must be even"
    );
    let bad_key = SignatureValidationInput { verify_key_hex: "zz", ..input.clone() };
    assert_eq!(
        message(validate_deploy_signature_marker(&marker, &bad_key).unwrap_err()),
        "deploy verify key is invalid: invalid hex character"
    );
}

#[test]
fn extract_steps_join_enclosed_names() {
    assert_eq!(
        zip_extract_step("/srv/web", Some("dist/index.html"), false).unwrap(),
        ExtractStep::WriteFile("/srv/web/dist/index.html".to_string())
    );
    assert_eq!(
        zip_extract_step("/srv/web/", Some("dist/assets"), true).unwrap(),
        ExtractStep::CreateDir("/srv/web/dist/assets".to_string())
    );
    assert_eq!(
        message(zip_extract_step("/srv/web", None, false).unwrap_err()),
        "web zip contains invalid paths"
    );
}

#[test]
fn web_zip_hash_ignores_directories_and_marker() {
    let config = WebZipValidationConfig::new("dist/m.json");
    let a = build_zip(&[
        ("dist/index.html", b"<html></html>"),
        ("dist/assets/app.js", b"1"),
        ("dist/m.json", b"{\"v\":1}"),
    ]);
    let mut cursor = Cursor::new(Vec::new());
    {
        let mut zip = ZipWriter::new(&mut cursor);
        let options = SimpleFileOptions::default();
        zip.add_directory("dist/assets/", options).unwrap();
        zip.start_file("dist/m.json", options).unwrap();
        zip.write_all(b"{\"v\":2}").unwrap();
        zip.start_file("dist/assets/app.js", options).unwrap();
        zip.write_all(b"1").unwrap();
        zip.start_file("dist/index.html", options).unwrap();
        zip.write_all(b"<html></html>").unwrap();
        zip.finish().unwrap();
    }
    let b = cursor.into_inner();
    let ra = validate_web_dist_zip(&a, &config).unwrap();
    let rb = validate_web_dist_zip(&b, &config).unwrap();
    assert_eq!(ra.content_sha256, rb.content_sha256);
    assert!(ra.content_sha256.chars().all(|c| c.is_ascii_digit() || ('a'..='f').contains(&c)));
}
