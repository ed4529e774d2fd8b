//! The settings model: default-suppressing persistence and field access.

use volumetric::error::Error;
use volumetric::repository::settings::DeploymentPolicy;
use volumetric::repository::settings::Settings;
use volumetric::runtime::OciRuntimeType;

#[test]
fn settings_default_round_trip() {
    let s = Settings::default();
    let bytes = s.store().unwrap();
    let loaded = Settings::load(&bytes).unwrap();
    assert_eq!(loaded, s);
}

#[test]
fn settings_full_round_trip() {
    let mut s = Settings::default();
    s.set("oci_runtime", Some("podman")).unwrap();
    s.set("remote_uri", Some("file:///srv/volumes")).unwrap();
    s.set("deployment_policy", Some("overwrite")).unwrap();
    s.set("version", Some("0.2.0")).unwrap();
    let bytes = s.store().unwrap();
    let loaded = Settings::load(&bytes).unwrap();
    assert_eq!(loaded, s);
}

#[test]
fn settings_tilde_uri_round_trips() {
    let mut s = Settings::default();
    s.set("remote_uri", Some("~")).unwrap();
    let bytes = s.store().unwrap();
    let loaded = Settings::load(&bytes).unwrap();
    assert_eq!(loaded.remote_uri, Some("~".to_owned()));
    assert_eq!(loaded, s);
}

#[test]
fn settings_default_store_only_carries_version() {
    let s = Settings::default();
    let bytes = s.store().unwrap();
    let text = String::from_utf8(bytes).unwrap();
    assert!(text.contains("version"));
    assert!(!text.contains("oci_runtime"));
    assert!(!text.contains("remote_uri"));
    assert!(!text.contains("deployment_policy"));
}

#[test]
fn settings_unknown_key_is_variant_error() {
    let mut s = Settings::default();
    let before = s.clone();
    let r = s.set("no_such_key", Some("x"));
    assert!(r.is_err());
    assert_eq!(r.unwrap_err().variant().as_str(), "no_such_key");
    assert_eq!(s, before);
}

#[test]
fn settings_unknown_value_is_variant_error() {
    let mut s = Settings::default();
    let before = s.clone();
    assert!(s.set("oci_runtime", Some("rocket")).is_err());
    assert!(s.set("deployment_policy", Some("sometimes")).is_err());
    assert_eq!(s, before);
}

#[test]
fn settings_unknown_key_in_document_is_malformed() {
    let bytes = b"version: 0.1.0\nfrobnicate: yes\n".to_vec();
    match Settings::load(&bytes) {
        Err(Error::Malformed(k)) => assert_eq!(k, "frobnicate"),
        other => panic!("expected a malformed document, got {:?}", other),
    }
}

#[test]
fn settings_unset_restores_default() {
    let mut s = Settings::default();
    s.set("oci_runtime", Some("podman")).unwrap();
    s.set("oci_runtime", None).unwrap();
    assert_eq!(s.oci_runtime, OciRuntimeType::Docker);
}

#[test]
fn settings_get_renders_fields() {
    let s = Settings::default();
    assert_eq!(s.get("version").unwrap(), "0.1.0");
    assert_eq!(s.get("oci_runtime").unwrap(), "Docker");
    assert_eq!(s.get("remote_uri").unwrap(), "~");
    assert_eq!(s.get("deployment_policy").unwrap(), "NoOverwrite");
    assert!(s.get("nope").is_err());
}

#[test]
fn settings_iter_lists_every_field() {
    let s = Settings::default();
    let pairs = s.iter();
    assert_eq!(pairs.len(), 4);
    assert_eq!(pairs[0], ("version".to_owned(), "0.1.0".to_owned()));
    assert_eq!(pairs[1], ("oci_runtime".to_owned(), "Docker".to_owned()));
    assert_eq!(pairs[2], ("remote_uri".to_owned(), "~".to_owned()));
    assert_eq!(pairs[3], ("deployment_policy".to_owned(), "NoOverwrite".to_owned()));
}

#[test]
fn runtime_kind_parses_ignoring_case() {
    assert_eq!(OciRuntimeType::try_from("Docker").unwrap(), OciRuntimeType::Docker);
    assert_eq!(OciRuntimeType::try_from("PODMAN").unwrap(), OciRuntimeType::Podman);
    assert!(OciRuntimeType::try_from("rocket").is_err());
}

#[test]
fn deployment_policy_parses_ignoring_case() {
    assert_eq!(DeploymentPolicy::try_from("Overwrite").unwrap(), DeploymentPolicy::Overwrite);
    assert_eq!(
        DeploymentPolicy::try_from("DoNotOverwrite").unwrap(),
        DeploymentPolicy::NoOverwrite
    );
    assert!(DeploymentPolicy::try_from("nooverwrite").is_err());
}
