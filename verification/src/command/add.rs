//! Staging a snapshot of a runtime volume.

use vstd::prelude::*;

use crate::archiver::Archiver;
use crate::error::Error;
use crate::hash::digest_of;
use crate::hash::lemma_hex_no_slash;
use crate::hash::sha256sum;
use crate::remote::ReadRemote;
use crate::remote::WriteRemote;
use crate::repository::lemma_standard_path_facts;
use crate::repository::lock::distinct_names;
use crate::repository::lock::entries_map;
use crate::repository::lock::lock_enc;
use crate::repository::lock::Lock;
use crate::repository::object_store::object_path;
use crate::repository::standard_paths;
use crate::repository::RepositoryStructure;
use crate::runtime::OciRuntime;
use crate::strutil::is_direct_child;
use crate::strutil::lemma_join_child;
use crate::strutil::string_concat;
use crate::strutil::string_concat3;
use crate::volume::SchemeView;
use crate::volume::Volume;
use crate::volume::VolumeView;

verus! {

broadcast use vstd::string::group_string_axioms;

/// Where the staged manifest is read from on a first write: the staging
/// copy when one exists, else the committed manifest.
pub open spec fn staged_source(files: Map<Seq<char>, Seq<u8>>) -> Seq<u8> {
    if files.contains_key(standard_paths().stage.lock) {
        files[standard_paths().stage.lock]
    } else {
        files[standard_paths().lock]
    }
}

/// Where a volume's packed snapshot waits before its atomic rename into
/// the staging object store.
pub open spec fn add_tmp_path(volume: Seq<char>) -> Seq<char> {
    standard_paths().stage.tmp + "/"@ + volume + ".tar.gz"@
}

/// Records a volume in the staged manifest: loads the staging copy of
/// the manifest — creating it from the committed manifest on a first
/// write — inserts the volume under its name, and writes the copy back.
/// On every outcome, nothing but the staging manifest changes.
pub fn stage_volume<R: WriteRemote>(transport: &mut R, volume: Volume) -> (r: Result<(), Error>)
    requires
        old(transport).inv(),
    ensures
        final(transport).inv(),
        final(transport).state().dirs == old(transport).state().dirs,
        forall|q: Seq<char>|
            #![trigger old(transport).state().files.contains_key(q)]
            #![trigger final(transport).state().files.contains_key(q)]
            q != standard_paths().stage.lock ==> (final(transport).state().files.contains_key(q)
                <==> old(transport).state().files.contains_key(q)) && (old(transport).state().files.contains_key(q) ==> final(transport).state().files[q] == old(transport).state().files[q]),
        r is Ok ==> final(transport).state().files.contains_key(standard_paths().stage.lock),
        r is Ok ==> forall|es: Seq<VolumeView>|
            distinct_names(es) && staged_source(old(transport).state().files)
                == #[trigger] lock_enc(es) ==> exists|es2: Seq<VolumeView>|
                distinct_names(es2) && entries_map(es2) == entries_map(es).insert(
                    volume@.name,
                    volume@,
                ) && final(transport).state().files[standard_paths().stage.lock] == lock_enc(es2),
{
    let paths = RepositoryStructure::default();
    let staged_bytes = match transport.get_file(paths.get_stage().get_lock()) {
        Ok(b) => b,
        Err(e) => match e {
            Error::NotFound(_) => {
                match transport.copy(paths.get_lock(), paths.get_stage().get_lock()) {
                    Ok(_) => {},
                    Err(e2) => {
                        return Err(e2);
                    },
                }
                match transport.get_file(paths.get_stage().get_lock()) {
                    Ok(b) => b,
                    Err(e2) => {
                        return Err(e2);
                    },
                }
            },
            other => {
                return Err(other);
            },
        },
    };
    proof {
        lemma_standard_path_facts();
        assert(staged_bytes@ == staged_source(old(transport).state().files));
    }
    let mut lock = match Lock::load(&staged_bytes) {
        Ok(l) => l,
        Err(e) => {
            return Err(e);
        },
    };
    let ghost loaded = lock@;
    let _ = lock.add_volume(volume);
    let out_bytes = match lock.store() {
        Ok(b) => b,
        Err(e) => {
            return Err(e);
        },
    };
    match transport.put_file(paths.get_stage().get_lock(), out_bytes.as_slice()) {
        Ok(_) => {},
        Err(e) => {
            return Err(e);
        },
    }
    proof {
        assert forall|es: Seq<VolumeView>|
            distinct_names(es) && staged_source(old(transport).state().files)
                == #[trigger] lock_enc(es) implies exists|es2: Seq<VolumeView>|
            distinct_names(es2) && entries_map(es2) == entries_map(es).insert(
                volume@.name,
                volume@,
            ) && transport.state().files[standard_paths().stage.lock] == lock_enc(es2) by {
            lock.lemma_view_entries();
            assert(staged_bytes@ == lock_enc(es));
            assert(loaded == entries_map(es));
            assert(lock@ == loaded.insert(volume@.name, volume@));
            lock.lemma_entries_distinct();
            assert(distinct_names(lock.entries()));
            assert(entries_map(lock.entries()) == lock@);
            assert(transport.state().files[standard_paths().stage.lock] == lock_enc(
                lock.entries(),
            ));
        }
    }
    Ok(())
}

/// Snapshots a runtime volume into the staging area: packs its contents,
/// stores the archive under its digest, and records the volume in the
/// staged manifest.
pub struct Add<R: WriteRemote, O: OciRuntime, A: Archiver> {
    transport: R,
    runtime: O,
    archiver: A,
}

impl<R: WriteRemote, O: OciRuntime, A: Archiver> Add<R, O, A> {
    /// The transport the command works through.
    pub closed spec fn spec_transport(&self) -> R {
        self.transport
    }

    /// The runtime whose volume is snapshotted.
    pub closed spec fn spec_runtime(&self) -> O {
        self.runtime
    }

    /// The archiver that packs the volume's contents.
    pub closed spec fn spec_archiver(&self) -> A {
        self.archiver
    }

    pub fn new(transport: R, runtime: O, archiver: A) -> (r: Add<R, O, A>)
        ensures
            r.spec_transport() == transport,
            r.spec_runtime() == runtime,
            r.spec_archiver() == archiver,
    {
        Add { transport, runtime, archiver }
    }

    /// Hands the transport, runtime and archiver back once the command
    /// is done.
    pub fn into_parts(self) -> (r: (R, O, A))
        ensures
            r.0 == self.spec_transport(),
            r.1 == self.spec_runtime(),
            r.2 == self.spec_archiver(),
    {
        let Add { transport, runtime, archiver } = self;
        (transport, runtime, archiver)
    }

    /// Stages a volume for commit: the volume must exist in the runtime;
    /// its contents are packed, the archive is stored in the staging
    /// object store under its digest, and the staged manifest gains the
    /// volume under that digest. Only the staging subtree is written: the
    /// committed manifest, the history, the settings and the permanent
    /// objects are untouched on every outcome, and a volume the runtime
    /// lacks is refused as not found before anything is written.
    pub fn add(&mut self, volume: String) -> (r: Result<(), Error>)
        requires
            old(self).spec_transport().inv(),
        ensures
            final(self).spec_transport().inv(),
            final(self).spec_transport().state().dirs == old(self).spec_transport().state().dirs,
            final(self).spec_runtime() == old(self).spec_runtime(),
            final(self).spec_archiver().unpacks() == old(self).spec_archiver().unpacks(),
            forall|q: Seq<char>|
                #![trigger old(self).spec_transport().state().files.contains_key(q)]
                #![trigger final(self).spec_transport().state().files.contains_key(q)]
                q != standard_paths().stage.lock && q != add_tmp_path(volume@)
                    && !is_direct_child(standard_paths().stage.objects, q) ==> (final(self).spec_transport().state().files.contains_key(q) <==> old(self).spec_transport().state().files.contains_key(q)) && (old(self).spec_transport().state().files.contains_key(q) ==> final(self).spec_transport().state().files[q] == old(self).spec_transport().state().files[q]),
            !old(self).spec_runtime().volumes().contains(volume@) ==> (r matches Err(e) && match e {
                Error::NotFound(nm) => nm@ == volume@,
                Error::IOFailure(_) => true,
                _ => false,
            }) && final(self).spec_transport().state() == old(self).spec_transport().state()
                && final(self).spec_archiver().packs() == old(self).spec_archiver().packs(),
            r is Ok ==> {
                let packs = final(self).spec_archiver().packs();
                let b = packs.last().1;
                let d = digest_of(b);
                &&& old(self).spec_runtime().volumes().contains(volume@)
                &&& packs == old(self).spec_archiver().packs().push(
                    (old(self).spec_runtime().host_path_of(volume@), b),
                )
                &&& !final(self).spec_transport().state().files.contains_key(
                    add_tmp_path(volume@),
                )
                &&& final(self).spec_transport().state().files.contains_key(
                    object_path(standard_paths().stage.objects, d),
                )
                &&& final(self).spec_transport().state().files[object_path(
                    standard_paths().stage.objects,
                    d,
                )] == b
                &&& forall|q: Seq<char>|
                    is_direct_child(standard_paths().stage.objects, q) && q != object_path(
                        standard_paths().stage.objects,
                        d,
                    ) ==> (final(self).spec_transport().state().files.contains_key(q) <==> old(self).spec_transport().state().files.contains_key(q)) && (old(self).spec_transport().state().files.contains_key(q) ==> final(self).spec_transport().state().files[q] == old(self).spec_transport().state().files[q])
                &&& final(self).spec_transport().state().files.contains_key(
                    standard_paths().stage.lock,
                )
                &&& forall|es: Seq<VolumeView>|
                    distinct_names(es) && staged_source(old(self).spec_transport().state().files)
                        == #[trigger] lock_enc(es) ==> exists|es2: Seq<VolumeView>|
                        distinct_names(es2) && entries_map(es2) == entries_map(es).insert(
                            volume@,
                            VolumeView {
                                name: volume@,
                                hash: Some(d),
                                scheme: SchemeView::Managed,
                            },
                        ) && final(self).spec_transport().state().files[standard_paths().stage.lock]
                            == lock_enc(es2)
            },
    {
        let paths = RepositoryStructure::default();
        match self.runtime.volume_exists(volume.as_str()) {
            Ok(true) => {},
            Ok(false) => {
                return Err(Error::NotFound(volume));
            },
            Err(e) => {
                return Err(e);
            },
        }
        let host = match self.runtime.get_volume_host_path(volume.as_str()) {
            Ok(h) => h,
            Err(e) => {
                return Err(e);
            },
        };
        let bytes = match self.archiver.pack(host.as_str()) {
            Ok(b) => b,
            Err(e) => {
                return Err(e);
            },
        };
        let digest = sha256sum(&bytes);
        let archive_name = string_concat(volume.as_str(), ".tar.gz");
        let tmp_object = string_concat3(paths.get_stage().get_tmp(), "/", archive_name.as_str());
        let dest = string_concat3(paths.get_stage().get_objects(), "/", digest.as_str());
        proof {
            lemma_standard_path_facts();
            reveal_strlit("/");
            reveal_strlit(".tar.gz");
            reveal_strlit(".volumetric/staging/tmp");
            reveal_strlit(".volumetric/staging/objects");
            reveal_strlit(".volumetric/staging/lock");
            assert(tmp_object@ == add_tmp_path(volume@));
            assert(tmp_object@.len() >= 31);
            assert(tmp_object@[20] == 't');
            assert(".volumetric/staging/lock"@[20] == 'l');
            assert(tmp_object@ != standard_paths().stage.lock);
            lemma_hex_no_slash(crate::hash::sha256_of(bytes@));
            lemma_join_child(standard_paths().stage.objects, digest@);
            assert(dest@ == object_path(standard_paths().stage.objects, digest_of(bytes@)));
            assert(is_direct_child(standard_paths().stage.objects, dest@));
            assert(!is_direct_child(standard_paths().stage.objects, tmp_object@)) by {
                if is_direct_child(standard_paths().stage.objects, tmp_object@) {
                    assert(tmp_object@.take(27)[20] == tmp_object@[20]);
                    assert(standard_paths().stage.objects[20] == 'o');
                }
            }
        }
        match self.transport.put_file(tmp_object.as_str(), bytes.as_slice()) {
            Ok(_) => {},
            Err(e) => {
                return Err(e);
            },
        }
        match self.transport.rename(tmp_object.as_str(), dest.as_str()) {
            Ok(_) => {},
            Err(e) => {
                return Err(e);
            },
        }
        let mut v = Volume::managed(volume.as_str());
        v.set_hash(digest.as_str());
        let ghost before_stage = self.spec_transport().state().files;
        match stage_volume(&mut self.transport, v) {
            Ok(_) => {},
            Err(e) => {
                return Err(e);
            },
        }
        proof {
            assert(staged_source(before_stage) == staged_source(
                old(self).spec_transport().state().files,
            ));
            let ghost f0 = old(self).spec_transport().state().files;
            assert forall|q: Seq<char>|
                q != standard_paths().stage.lock && q != add_tmp_path(volume@)
                    && !is_direct_child(standard_paths().stage.objects, q) implies (
            self.spec_transport().state().files.contains_key(q) <==> f0.contains_key(q)) && (
            f0.contains_key(q) ==> self.spec_transport().state().files[q] == f0[q]) by {
                assert(q != dest@);
                assert(before_stage.contains_key(q) <==> f0.contains_key(q));
                assert(f0.contains_key(q) ==> before_stage[q] == f0[q]);
                assert(self.spec_transport().state().files.contains_key(q)
                    <==> before_stage.contains_key(q));
                assert(before_stage.contains_key(q) ==> self.spec_transport().state().files[q]
                    == before_stage[q]);
            }
        }
        Ok(())
    }
}

} // verus!
