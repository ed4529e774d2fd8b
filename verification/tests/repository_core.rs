//! The repository's data structures: digests, manifests, the object
//! store, the history log, and the transport.

use volumetric::error::Error;
use volumetric::hash::sha256sum;
use volumetric::remote::memory_remote::MemoryRemote;
use volumetric::remote::remote_type;
use volumetric::remote::ReadRemote;
use volumetric::remote::RemoteSpec;
use volumetric::remote::WriteRemote;
use volumetric::repository::lock::Lock;
use volumetric::repository::object_store::ObjectStore;
use volumetric::strutil::string_find;
use volumetric::volume::Scheme;
use volumetric::volume::Volume;

#[test]
fn sha256sum_matches_known_digests() {
    let empty: Vec<u8> = Vec::new();
    assert_eq!(
        sha256sum(&empty),
        "e3b0c44298fc1c149afbf4c8996fb92427ae41e4649b934ca495991b7852b855"
    );
    let abc = b"abc".to_vec();
    assert_eq!(
        sha256sum(&abc),
        "ba7816bf8f01cfea414140de5dae2223b00361a396177a9cb410ff61f20015ad"
    );
}

#[test]
fn volume_accessors_round_trip() {
    let mut v = Volume::managed("db");
    assert_eq!(v.get_name(), "db");
    assert_eq!(v.get_hash(), &None);
    v.set_hash("abc123");
    assert_eq!(v.get_hash(), &Some("abc123".to_owned()));
    assert_eq!(v.get_scheme(), &Scheme::Managed);
    v.set_scheme(Scheme::External("file:///elsewhere".to_owned()));
    assert_eq!(v.get_scheme(), &Scheme::External("file:///elsewhere".to_owned()));

    let e = Volume::external("cache", "fff", "file:///x");
    assert_eq!(e.get_name(), "cache");
    assert_eq!(e.get_hash(), &Some("fff".to_owned()));
}

#[test]
fn lock_insert_lookup_and_replace() {
    let mut lock = Lock::default();
    lock.add_volume(Volume::external("db", "h1", "file:///a")).unwrap();
    assert!(lock.get("db").is_some());
    assert!(lock.get("cache").is_none());
    lock.add_volume(Volume::external("db", "h2", "file:///a")).unwrap();
    assert_eq!(lock.len(), 1);
    assert_eq!(lock.get("db").unwrap().get_hash(), &Some("h2".to_owned()));
}

#[test]
fn lock_document_round_trip() {
    let mut lock = Lock::default();
    let mut db = Volume::managed("db");
    db.set_hash("aaaa");
    lock.add_volume(db).unwrap();
    lock.add_volume(Volume::external("cache", "bbbb", "file:///c")).unwrap();
    lock.add_volume(Volume::managed("fresh")).unwrap();
    let bytes = lock.store().unwrap();
    let loaded = Lock::load(&bytes).unwrap();
    assert_eq!(loaded, lock);
}

#[test]
fn lock_rejects_malformed_documents() {
    assert!(Lock::load(&b"][".to_vec()).is_err());
    assert!(Lock::load(&b"db:\n  scheme: rocket\n".to_vec()).is_err());
    assert!(Lock::load(&b"db: 3\n".to_vec()).is_err());
}

#[test]
fn memory_remote_file_operations() {
    let mut t = MemoryRemote::new("/repo");
    assert!(matches!(t.get_file("a"), Err(Error::NotFound(_))));
    t.put_file("a", b"one").unwrap();
    assert_eq!(t.get_file("a").unwrap(), b"one".to_vec());
    t.put_file("a", b"two").unwrap();
    assert_eq!(t.get_file("a").unwrap(), b"two".to_vec());
    t.copy("a", "b").unwrap();
    assert_eq!(t.get_file("a").unwrap(), b"two".to_vec());
    assert_eq!(t.get_file("b").unwrap(), b"two".to_vec());
    t.rename("a", "c").unwrap();
    assert!(t.get_file("a").is_err());
    assert_eq!(t.get_file("c").unwrap(), b"two".to_vec());
    t.remove_file("c").unwrap();
    assert!(t.get_file("c").is_err());
    assert!(matches!(t.rename("missing", "x"), Err(Error::NotFound(_))));
    assert_eq!(t.get_path("d/e"), "/repo/d/e");
}

#[test]
fn memory_remote_lists_direct_children() {
    let mut t = MemoryRemote::new("/repo");
    assert!(matches!(t.read_dir("dir"), Err(Error::NotFound(_))));
    t.create_dir("dir").unwrap();
    t.create_dir("dir").unwrap();
    t.put_file("dir/a", b"1").unwrap();
    t.put_file("dir/b", b"2").unwrap();
    t.put_file("dir/sub/c", b"3").unwrap();
    t.put_file("other", b"4").unwrap();
    let mut listed = t.read_dir("dir").unwrap();
    listed.sort();
    assert_eq!(listed, vec!["dir/a".to_owned(), "dir/b".to_owned()]);
}

#[test]
fn object_store_put_is_idempotent() {
    let mut t = MemoryRemote::new("/repo");
    t.create_dir(".volumetric/objects").unwrap();
    t.create_dir(".volumetric/staging/tmp").unwrap();
    t.create_dir(".volumetric").unwrap();
    let store = ObjectStore::new();
    let payload = b"snapshot contents".to_vec();
    let d1 = store.put(&mut t, &payload).unwrap();
    let d2 = store.put(&mut t, &payload).unwrap();
    assert_eq!(d1, d2);
    assert_eq!(d1, sha256sum(&payload));
    assert_eq!(store.get(&t, d1.as_str()).unwrap(), payload);
    t.create_dir(".volumetric/objects").unwrap();
    let objects = t.read_dir(".volumetric/objects").unwrap();
    assert_eq!(objects.len(), 1);
}

#[test]
fn object_store_move_in_relocates() {
    let mut t = MemoryRemote::new("/repo");
    t.put_file("incoming", b"blob").unwrap();
    let store = ObjectStore::new();
    store.move_in(&mut t, "abcd", "incoming").unwrap();
    assert!(t.get_file("incoming").is_err());
    assert_eq!(t.get_file(".volumetric/objects/abcd").unwrap(), b"blob".to_vec());
}

#[test]
fn remote_type_reads_uris() {
    match remote_type("some/local/path".to_owned()).unwrap() {
        RemoteSpec::File(f) => assert_eq!(f.path, "some/local/path"),
    }
    match remote_type("file:///srv/repo".to_owned()).unwrap() {
        RemoteSpec::File(f) => assert_eq!(f.path, "/srv/repo"),
    }
    assert!(remote_type("ftp://host/path".to_owned()).is_err());
}

#[test]
fn string_find_locates_first_occurrence() {
    assert_eq!(string_find("file://x", ':'), Some(4));
    assert_eq!(string_find("abc", ':'), None);
}
