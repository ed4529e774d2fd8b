//! Volume field encoding, histories, configurations and small helpers.

use volumetric::configuration::add_external;
use volumetric::configuration::Configuration;
use volumetric::configuration::ExternalVolume;
use volumetric::configuration::VolumeConfig;
use volumetric::error::Error;
use volumetric::repository::history::History;
use volumetric::repository::RepositoryStructure;
use volumetric::strutil::direct_child;
use volumetric::strutil::eq_ignore_case;
use volumetric::volume::Volume;

#[test]
fn volume_fields_round_trip_each_shape() {
    let shapes = [
        Volume::managed("fresh"),
        Volume::external("mirror", "abcd", "file:///m"),
        {
            let mut v = Volume::managed("db");
            v.set_hash("eeee");
            v
        },
    ];
    for v in shapes {
        let fields = v.to_fields();
        let back = Volume::from_fields(v.get_name(), &fields).unwrap();
        assert_eq!(back, v);
    }
}

#[test]
fn volume_from_fields_rejects_unknown_shapes() {
    let fields = vec![("color".to_owned(), "blue".to_owned())];
    match Volume::from_fields("db", &fields) {
        Err(Error::Malformed(name)) => assert_eq!(name, "db"),
        other => panic!("expected a malformed volume, got {:?}", other),
    }
    assert!(Volume::from_fields("db", &Vec::new()).is_err());
}

#[test]
fn history_renders_one_digest_per_line() {
    let mut h = History::default();
    assert_eq!(h.len(), 0);
    h.append("aaaa");
    h.append("bbbb");
    assert_eq!(h.len(), 2);
    assert_eq!(h.index(0).as_str(), "aaaa");
    assert_eq!(h.store(), b"aaaa\nbbbb\n".to_vec());
}

#[test]
fn repository_layout_is_fixed() {
    let paths = RepositoryStructure::default();
    assert_eq!(paths.get_volumetric(), "volumetric.yaml");
    assert_eq!(paths.get_data(), ".volumetric");
    assert_eq!(paths.get_lock(), ".volumetric/lock");
    assert_eq!(paths.get_settings(), ".volumetric/settings");
    assert_eq!(paths.get_history(), ".volumetric/history");
    assert_eq!(paths.get_objects(), ".volumetric/objects");
    assert_eq!(paths.get_changes(), ".volumetric/changes");
    let stage = paths.get_stage();
    assert_eq!(stage.get_stage(), ".volumetric/staging");
    assert_eq!(stage.get_tmp(), ".volumetric/staging/tmp");
    assert_eq!(stage.get_lock(), ".volumetric/staging/lock");
    assert_eq!(stage.get_objects(), ".volumetric/staging/objects");
}

#[test]
fn configuration_records_external_volumes() {
    let mut config = Configuration::default();
    assert_eq!(config.version, 1);
    add_external(&mut config, "assets", "file:///mirror", "abc123");
    assert_eq!(config.volumes.len(), 1);
    let (name, entry) = &config.volumes[0];
    assert_eq!(name, "assets");
    assert_eq!(
        entry,
        &VolumeConfig::External { url: "file:///mirror".to_owned(), revision: "abc123".to_owned() }
    );
    let v = ExternalVolume::new("assets", "file:///mirror", "abc123");
    assert_eq!(v.get_name(), "assets");
}

#[test]
fn direct_child_recognizes_one_level() {
    assert!(direct_child("a/b", "a/b/c"));
    assert!(!direct_child("a/b", "a/b/c/d"));
    assert!(!direct_child("a/b", "a/b"));
    assert!(!direct_child("a/b", "a/bc"));
}

#[test]
fn case_insensitive_compare_targets_lowercase() {
    assert!(eq_ignore_case("DoCkEr", "docker"));
    assert!(eq_ignore_case("docker", "docker"));
    assert!(!eq_ignore_case("docker", "podman"));
    assert!(!eq_ignore_case("docker", "Docker"));
}
