//! End-to-end command flows over the in-memory transport, runtime and
//! archiver.

use volumetric::archiver::Archiver;
use volumetric::archiver::MemoryArchiver;
use volumetric::command::add::Add;
use volumetric::command::commit::Commit;
use volumetric::command::deploy::Deploy;
use volumetric::command::external::External;
use volumetric::command::generate::Generate;
use volumetric::command::init::Init;
use volumetric::command::load_settings;
use volumetric::command::status::print_status;
use volumetric::command::status::Status;
use volumetric::command::write_settings;
use volumetric::error::Error;
use volumetric::hash::sha256sum;
use volumetric::remote::memory_remote::MemoryRemote;
use volumetric::remote::ReadRemote;
use volumetric::remote::WriteRemote;
use volumetric::repository::lock::Lock;
use volumetric::repository::object_store::ObjectStore;
use volumetric::repository::settings::DeploymentPolicy;
use volumetric::repository::settings::Settings;
use volumetric::repository::stage::Stage;
use volumetric::runtime::MemoryRuntime;
use volumetric::runtime::OciRuntime;

fn fresh_repository() -> MemoryRemote {
    let transport = MemoryRemote::new("/repo");
    let mut init = Init::new(transport, Settings::default());
    init.init().unwrap();
    init.into_transport()
}

#[test]
fn init_writes_the_initial_artifacts() {
    let t = fresh_repository();
    assert!(t.get_file(".volumetric/settings").is_ok());
    assert!(t.get_file(".volumetric/lock").is_ok());
    assert_eq!(t.get_file(".volumetric/history").unwrap(), Vec::<u8>::new());
    let lock = Lock::load(&t.get_file(".volumetric/lock").unwrap()).unwrap();
    assert_eq!(lock.len(), 0);
}

#[test]
fn status_on_fresh_repository_is_empty() {
    let t = fresh_repository();
    let status = Status::new(t);
    assert_eq!(status.status().unwrap(), Vec::<(String, String)>::new());
}

#[test]
fn add_commit_status_cycle() {
    // A runtime volume holding content with a known digest.
    let t = fresh_repository();
    let mut runtime = MemoryRuntime::new();
    runtime.create_volume("db").unwrap();
    let mut archiver = MemoryArchiver::new();
    let content_x = b"database files, first snapshot".to_vec();
    let h1 = sha256sum(&content_x);
    archiver.set_content("/volumes/db", content_x.clone());

    // Add stages the snapshot and reports the volume as added.
    let mut add = Add::new(t, runtime, archiver);
    add.add("db".to_owned()).unwrap();
    let (t, runtime, archiver) = add.into_parts();
    let staged_object = format!(".volumetric/staging/objects/{}", h1);
    assert_eq!(t.get_file(&staged_object).unwrap(), content_x);
    // Add mutated the staging area only: the committed manifest, the
    // history and the permanent objects are untouched.
    assert_eq!(Lock::load(&t.get_file(".volumetric/lock").unwrap()).unwrap().len(), 0);
    assert_eq!(t.get_file(".volumetric/history").unwrap(), Vec::<u8>::new());
    assert!(t.get_file(&format!(".volumetric/objects/{}", h1)).is_err());
    let status = Status::new(t);
    assert_eq!(
        status.status().unwrap(),
        vec![("db".to_owned(), "Added".to_owned())]
    );
    let t = status.into_transport();

    // Commit promotes the staging area.
    let staged_manifest = t.get_file(".volumetric/staging/lock").unwrap();
    let manifest_digest = sha256sum(&staged_manifest);
    let mut commit = Commit::new(t);
    commit.commit().unwrap();
    let t = commit.into_transport();

    // The manifest now tracks the volume under its content digest.
    let manifest_bytes = t.get_file(".volumetric/lock").unwrap();
    assert_eq!(manifest_bytes, staged_manifest);
    let manifest = Lock::load(&manifest_bytes).unwrap();
    assert_eq!(manifest.len(), 1);
    assert_eq!(manifest.get("db").unwrap().get_hash(), &Some(h1.clone()));

    // The history gained exactly one entry: the manifest's digest.
    let history = t.get_file(".volumetric/history").unwrap();
    assert_eq!(history, format!("{}\n", manifest_digest).into_bytes());

    // The staged object moved into the permanent store, the staging
    // manifest is gone, and the audit copy is archived.
    assert_eq!(
        t.get_file(&format!(".volumetric/objects/{}", h1)).unwrap(),
        content_x
    );
    assert!(t.get_file(&staged_object).is_err());
    assert!(t.get_file(".volumetric/staging/lock").is_err());
    assert_eq!(
        t.get_file(&format!(".volumetric/changes/{}", manifest_digest)).unwrap(),
        manifest_bytes
    );

    // Status is empty again.
    let status = Status::new(t);
    assert_eq!(status.status().unwrap(), Vec::<(String, String)>::new());
    let t = status.into_transport();

    // Re-adding the volume with new content reports it as changed.
    let content_y = b"database files, second snapshot".to_vec();
    let h2 = sha256sum(&content_y);
    let mut archiver = archiver;
    archiver.set_content("/volumes/db", content_y.clone());
    let mut add = Add::new(t, runtime, archiver);
    add.add("db".to_owned()).unwrap();
    let (t, _runtime, _archiver) = add.into_parts();
    let status = Status::new(t);
    assert_eq!(
        status.status().unwrap(),
        vec![("db".to_owned(), "Changed".to_owned())]
    );
    let t = status.into_transport();

    // A second commit: the manifest tracks the new digest and the
    // history holds both manifest digests, oldest first.
    let staged_manifest_2 = t.get_file(".volumetric/staging/lock").unwrap();
    let manifest_digest_2 = sha256sum(&staged_manifest_2);
    let mut commit = Commit::new(t);
    commit.commit().unwrap();
    let t = commit.into_transport();
    let manifest = Lock::load(&t.get_file(".volumetric/lock").unwrap()).unwrap();
    assert_eq!(manifest.get("db").unwrap().get_hash(), &Some(h2.clone()));
    let history = t.get_file(".volumetric/history").unwrap();
    assert_eq!(
        history,
        format!("{}\n{}\n", manifest_digest, manifest_digest_2).into_bytes()
    );
    assert_ne!(manifest_digest, manifest_digest_2);
}

#[test]
fn commit_with_nothing_staged_and_complete_trail_is_a_conflict() {
    let t = fresh_repository();
    let mut runtime = MemoryRuntime::new();
    runtime.create_volume("db").unwrap();
    let mut archiver = MemoryArchiver::new();
    archiver.set_content("/volumes/db", b"x".to_vec());
    let mut add = Add::new(t, runtime, archiver);
    add.add("db".to_owned()).unwrap();
    let (t, _, _) = add.into_parts();
    let mut commit = Commit::new(t);
    commit.commit().unwrap();
    match commit.commit() {
        Err(Error::Conflict(_)) => {},
        other => panic!("expected a conflict, got {:?}", other),
    }
}

#[test]
fn commit_with_missing_trail_repairs_it() {
    let t = fresh_repository();
    let mut runtime = MemoryRuntime::new();
    runtime.create_volume("db").unwrap();
    let mut archiver = MemoryArchiver::new();
    archiver.set_content("/volumes/db", b"x".to_vec());
    let mut add = Add::new(t, runtime, archiver);
    add.add("db".to_owned()).unwrap();
    let (t, _, _) = add.into_parts();

    // An interrupted commit: the staging manifest was promoted, but the
    // trail was never written.
    let mut t = t;
    t.rename(".volumetric/staging/lock", ".volumetric/lock").unwrap();
    let manifest_bytes = t.get_file(".volumetric/lock").unwrap();
    let digest = sha256sum(&manifest_bytes);

    let mut commit = Commit::new(t);
    commit.commit().unwrap();
    let t = commit.into_transport();
    assert_eq!(
        t.get_file(".volumetric/history").unwrap(),
        format!("{}\n", digest).into_bytes()
    );
    assert_eq!(
        t.get_file(&format!(".volumetric/changes/{}", digest)).unwrap(),
        manifest_bytes
    );
}

#[test]
fn external_add_records_a_caller_supplied_digest() {
    let t = fresh_repository();
    let stage = Stage::new(Lock::default(), ObjectStore::new());
    let mut external = External::new(t, stage, Settings::default());
    external.add("assets", "cafe", "file:///mirror/assets").unwrap();
    let stage = external.into_stage();
    let v = stage.get_lock().get("assets").unwrap().clone();
    assert_eq!(v.get_hash(), &Some("cafe".to_owned()));
}

#[test]
fn generate_and_deploy_overwrite_unpacks_exactly_once() {
    let t = fresh_repository();
    let mut runtime = MemoryRuntime::new();
    runtime.create_volume("db").unwrap();
    let mut archiver = MemoryArchiver::new();
    let content = b"payload".to_vec();
    let h = sha256sum(&content);
    archiver.set_content("/volumes/db", content.clone());
    let mut add = Add::new(t, runtime, archiver);
    add.add("db".to_owned()).unwrap();
    let (t, runtime, archiver) = add.into_parts();
    let mut commit = Commit::new(t);
    commit.commit().unwrap();
    let t = commit.into_transport();

    let mut settings = Settings::default();
    settings.set("deployment_policy", Some("overwrite")).unwrap();
    let mut generate = Generate::new(t, settings);
    generate.generate().unwrap();
    let t = generate.into_transport();

    // The runtime volume already exists: under Overwrite it is removed,
    // recreated, and restored from the object stored under its digest.
    let mut deploy = Deploy::new(t, runtime, archiver);
    deploy.deploy("volumetric.yaml").unwrap();
    let (t, runtime, archiver) = deploy.into_parts();
    assert_eq!(archiver.unpack_count(), 1);
    let call = archiver.unpack_at(0);
    assert_eq!(call.0, t.get_file(&format!(".volumetric/objects/{}", h)).unwrap());
    assert_eq!(call.1, "/volumes/db");
    assert!(runtime.volume_exists("db").unwrap());
}

#[test]
fn deploy_no_overwrite_leaves_existing_volumes_untouched() {
    let t = fresh_repository();
    let mut runtime = MemoryRuntime::new();
    runtime.create_volume("db").unwrap();
    let mut archiver = MemoryArchiver::new();
    archiver.set_content("/volumes/db", b"payload".to_vec());
    let mut add = Add::new(t, runtime, archiver);
    add.add("db".to_owned()).unwrap();
    let (t, runtime, archiver) = add.into_parts();
    let mut commit = Commit::new(t);
    commit.commit().unwrap();
    let t = commit.into_transport();

    // The default policy forbids overwriting.
    let mut generate = Generate::new(t, Settings::default());
    generate.generate().unwrap();
    let t = generate.into_transport();

    let mut deploy = Deploy::new(t, runtime, archiver);
    deploy.deploy("volumetric.yaml").unwrap();
    let (_t, runtime, archiver) = deploy.into_parts();
    assert_eq!(archiver.unpack_count(), 0);
    assert!(runtime.volume_exists("db").unwrap());
}

#[test]
fn deploy_creates_missing_volumes_under_no_overwrite() {
    let t = fresh_repository();
    let mut runtime = MemoryRuntime::new();
    runtime.create_volume("db").unwrap();
    let mut archiver = MemoryArchiver::new();
    let content = b"payload".to_vec();
    archiver.set_content("/volumes/db", content.clone());
    let mut add = Add::new(t, runtime, archiver);
    add.add("db".to_owned()).unwrap();
    let (t, _runtime, archiver) = add.into_parts();
    let mut commit = Commit::new(t);
    commit.commit().unwrap();
    let t = commit.into_transport();
    let mut generate = Generate::new(t, Settings::default());
    generate.generate().unwrap();
    let t = generate.into_transport();

    // A runtime that lacks the volume: it is created and restored even
    // under NoOverwrite.
    let empty_runtime = MemoryRuntime::new();
    let mut deploy = Deploy::new(t, empty_runtime, archiver);
    deploy.deploy("volumetric.yaml").unwrap();
    let (_t, runtime, archiver) = deploy.into_parts();
    assert_eq!(archiver.unpack_count(), 1);
    assert!(runtime.volume_exists("db").unwrap());
}

#[test]
fn add_refuses_a_volume_the_runtime_lacks() {
    let t = fresh_repository();
    let runtime = MemoryRuntime::new();
    let archiver = MemoryArchiver::new();
    let mut add = Add::new(t, runtime, archiver);
    match add.add("ghost".to_owned()) {
        Err(Error::NotFound(name)) => assert_eq!(name, "ghost"),
        other => panic!("expected not-found, got {:?}", other),
    }
}

#[test]
fn settings_survive_the_transport() {
    let mut t = fresh_repository();
    let mut settings = load_settings(&t).unwrap();
    assert_eq!(settings, Settings::default());
    settings.set("remote_uri", Some("file:///srv/mirror")).unwrap();
    write_settings(&mut t, &settings).unwrap();
    assert_eq!(load_settings(&t).unwrap(), settings);
}

#[test]
fn print_status_pads_to_the_column_width() {
    let rows = vec![
        ("db".to_owned(), "Added".to_owned()),
        ("long-volume-name".to_owned(), "Removed".to_owned()),
    ];
    // The longest name has sixteen characters: rounded up to the next
    // multiple of eight, plus eight, the column is thirty-two wide.
    let rendered = print_status(&rows);
    let expected = format!("{:32}{}\n{:32}{}\n", "db", "Added", "long-volume-name", "Removed");
    assert_eq!(rendered, expected);
    assert_eq!(print_status(&Vec::new()), "");
}

#[test]
fn descriptor_holds_settings_fields_and_a_volumes_key() {
    let t = fresh_repository();
    let mut runtime = MemoryRuntime::new();
    runtime.create_volume("db").unwrap();
    let mut archiver = MemoryArchiver::new();
    archiver.set_content("/volumes/db", b"x".to_vec());
    let mut add = Add::new(t, runtime, archiver);
    add.add("db".to_owned()).unwrap();
    let (t, _, _) = add.into_parts();
    let mut commit = Commit::new(t);
    commit.commit().unwrap();
    let t = commit.into_transport();
    let mut generate = Generate::new(t, Settings::default());
    generate.generate().unwrap();
    let t = generate.into_transport();

    // One document: the settings fields at top level, the manifest under
    // a trailing `volumes` key.
    let text = String::from_utf8(t.get_file("volumetric.yaml").unwrap()).unwrap();
    let doc: serde_yaml::Value = serde_yaml::from_str(&text).unwrap();
    let doc = doc.as_mapping().unwrap();
    assert_eq!(doc.get("version").unwrap().as_str().unwrap(), "0.1.0");
    let volumes = doc.get("volumes").unwrap().as_mapping().unwrap();
    let db = volumes.get("db").unwrap().as_mapping().unwrap();
    assert_eq!(db.get("scheme").unwrap().as_str().unwrap(), "managed");
}

#[test]
fn any_volume_name_survives_generate_and_deploy() {
    let t = fresh_repository();
    let mut runtime = MemoryRuntime::new();
    runtime.create_volume("settings").unwrap();
    let mut archiver = MemoryArchiver::new();
    let content = b"oddly named".to_vec();
    archiver.set_content("/volumes/settings", content.clone());
    let mut add = Add::new(t, runtime, archiver);
    add.add("settings".to_owned()).unwrap();
    let (t, _runtime, archiver) = add.into_parts();
    let mut commit = Commit::new(t);
    commit.commit().unwrap();
    let t = commit.into_transport();
    let mut generate = Generate::new(t, Settings::default());
    generate.generate().unwrap();
    let t = generate.into_transport();

    let empty_runtime = MemoryRuntime::new();
    let mut deploy = Deploy::new(t, empty_runtime, archiver);
    deploy.deploy("volumetric.yaml").unwrap();
    let (_t, runtime, archiver) = deploy.into_parts();
    assert_eq!(archiver.unpack_count(), 1);
    assert_eq!(archiver.unpack_at(0).0, content);
    assert!(runtime.volume_exists("settings").unwrap());
}

#[test]
fn deploy_refuses_a_descriptor_without_a_volumes_section() {
    let mut t = fresh_repository();
    t.put_file("volumetric.yaml", b"db:\n  scheme: managed\n").unwrap();
    let mut deploy = Deploy::new(t, MemoryRuntime::new(), MemoryArchiver::new());
    let deploy_result = deploy.deploy("volumetric.yaml");
    assert!(matches!(deploy_result, Err(Error::Malformed(_))));
}

#[test]
fn discard_abandons_uncommitted_work() {
    let t = fresh_repository();
    let mut runtime = MemoryRuntime::new();
    runtime.create_volume("db").unwrap();
    let mut archiver = MemoryArchiver::new();
    archiver.set_content("/volumes/db", b"x".to_vec());
    let mut add = Add::new(t, runtime, archiver);
    add.add("db".to_owned()).unwrap();
    let (mut t, _, _) = add.into_parts();

    volumetric::repository::stage::discard(&mut t).unwrap();
    assert!(t.get_file(".volumetric/staging/lock").is_err());
    assert_eq!(t.read_dir(".volumetric/staging/objects").unwrap(), Vec::<String>::new());
    // The committed manifest is untouched.
    assert!(t.get_file(".volumetric/lock").is_ok());
    let status = Status::new(t);
    assert_eq!(status.status().unwrap(), Vec::<(String, String)>::new());
}

#[test]
fn stage_external_persists_through_the_transport() {
    let mut t = fresh_repository();
    volumetric::command::external::stage_external(
        &mut t,
        "assets",
        "cafe",
        "file:///mirror/assets",
    )
    .unwrap();
    let staged = Lock::load(&t.get_file(".volumetric/staging/lock").unwrap()).unwrap();
    assert_eq!(staged.get("assets").unwrap().get_hash(), &Some("cafe".to_owned()));
    // Only the staging manifest changed.
    let committed = Lock::load(&t.get_file(".volumetric/lock").unwrap()).unwrap();
    assert_eq!(committed.len(), 0);
    let status = Status::new(t);
    assert_eq!(
        status.status().unwrap(),
        vec![("assets".to_owned(), "Added".to_owned())]
    );
}
