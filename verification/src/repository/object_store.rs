//! Content-addressed immutable blob storage.

use vstd::prelude::*;

use crate::error::Error;
use crate::hash::digest_of;
use crate::hash::sha256sum;
use crate::remote::ReadRemote;
use crate::remote::WriteRemote;
use crate::strutil::string_concat3;

verus! {

broadcast use vstd::string::group_string_axioms;

/// Where a store files an object: under its directory, named by digest.
pub open spec fn object_path(dir: Seq<char>, digest: Seq<char>) -> Seq<char> {
    dir + "/"@ + digest
}

/// What `put` leaves behind: the object stored under its digest unless
/// that entry already existed, and the temporary entry gone either way.
pub open spec fn put_effect(
    files: Map<Seq<char>, Seq<u8>>,
    obj: Seq<char>,
    tmp: Seq<char>,
    bytes: Seq<u8>,
) -> Map<Seq<char>, Seq<u8>> {
    if files.contains_key(obj) {
        files.remove(tmp)
    } else {
        files.insert(obj, bytes).remove(tmp)
    }
}

/// The law of the object store: `put` is idempotent. Storing the same
/// bytes twice leaves exactly the state of storing them once, under the
/// same digest.
pub proof fn lemma_put_idempotent(
    files: Map<Seq<char>, Seq<u8>>,
    obj: Seq<char>,
    tmp: Seq<char>,
    bytes: Seq<u8>,
)
    requires
        obj != tmp,
    ensures
        put_effect(put_effect(files, obj, tmp, bytes), obj, tmp, bytes) == put_effect(
            files,
            obj,
            tmp,
            bytes,
        ),
{
    let once = put_effect(files, obj, tmp, bytes);
    assert(once.contains_key(obj));
    assert(once.remove(tmp) =~= once);
}

/// Content-addressed immutable blob storage: entries are keyed by the
/// digest of their bytes, written through a temporary location and an
/// atomic rename, and never mutated once written.
pub struct ObjectStore {
    objects: String,
    tmp: String,
}

impl ObjectStore {
    /// The directory that holds the permanent objects.
    pub closed spec fn spec_objects(&self) -> Seq<char> {
        self.objects@
    }

    /// The directory that holds in-flight temporary writes.
    pub closed spec fn spec_tmp(&self) -> Seq<char> {
        self.tmp@
    }

    /// The store lies at the conventional layout.
    pub open spec fn wf(&self) -> bool {
        self.spec_objects() == ".volumetric/objects"@ && self.spec_tmp()
            == ".volumetric/staging/tmp"@
    }

    /// The store over the conventional repository layout.
    pub fn new() -> (r: ObjectStore)
        ensures
            r.wf(),
    {
        ObjectStore {
            objects: ".volumetric/objects".to_owned(),
            tmp: ".volumetric/staging/tmp".to_owned(),
        }
    }

    /// Stores bytes under their digest: writes a temporary entry,
    /// atomically renames it into the per-digest path, and discards the
    /// temporary write when the destination already exists.
    pub fn put<R: WriteRemote>(&self, t: &mut R, bytes: &Vec<u8>) -> (r: Result<String, Error>)
        requires
            old(t).inv(),
            self.wf(),
        ensures
            final(t).inv(),
            match r {
                Ok(d) => d@ == digest_of(bytes@) && final(t).state().files == put_effect(
                    old(t).state().files,
                    object_path(self.spec_objects(), digest_of(bytes@)),
                    object_path(self.spec_tmp(), digest_of(bytes@)),
                    bytes@,
                ) && final(t).state().dirs == old(t).state().dirs,
                Err(_) => final(t).state().dirs == old(t).state().dirs && (final(t).state().files
                    == old(t).state().files || final(t).state().files == old(
                    t,
                ).state().files.insert(
                    object_path(self.spec_tmp(), digest_of(bytes@)),
                    bytes@,
                )),
            },
    {
        let digest = sha256sum(bytes);
        let tmp_path = string_concat3(self.tmp.as_str(), "/", digest.as_str());
        let obj_path = string_concat3(self.objects.as_str(), "/", digest.as_str());
        proof {
            reveal_strlit(".volumetric/objects");
            reveal_strlit(".volumetric/staging/tmp");
            assert(obj_path@ != tmp_path@) by {
                assert(obj_path@.len() != tmp_path@.len());
            }
        }
        match t.put_file(tmp_path.as_str(), bytes.as_slice()) {
            Ok(_) => {},
            Err(e) => {
                return Err(e);
            },
        }
        match t.get_file(obj_path.as_str()) {
            Ok(_) => {
                match t.remove_file(tmp_path.as_str()) {
                    Ok(_) => {
                        proof {
                            assert(t.state().files =~= put_effect(
                                old(t).state().files,
                                obj_path@,
                                tmp_path@,
                                bytes@,
                            ));
                        }
                        Ok(digest)
                    },
                    Err(e) => Err(e),
                }
            },
            Err(e) => {
                match e {
                    Error::NotFound(_) => {},
                    other => {
                        return Err(other);
                    },
                }
                match t.rename(tmp_path.as_str(), obj_path.as_str()) {
                    Ok(_) => {
                        proof {
                            assert(t.state().files =~= put_effect(
                                old(t).state().files,
                                obj_path@,
                                tmp_path@,
                                bytes@,
                            ));
                        }
                        Ok(digest)
                    },
                    Err(e) => Err(e),
                }
            },
        }
    }

    /// Reads an object back by its digest.
    pub fn get<R: ReadRemote>(&self, t: &R, digest: &str) -> (r: Result<Vec<u8>, Error>)
        requires
            t.inv(),
        ensures
            match r {
                Ok(data) => t.state().files.contains_key(
                    object_path(self.spec_objects(), digest@),
                ) && data@ == t.state().files[object_path(self.spec_objects(), digest@)],
                Err(e) => match e {
                    Error::NotFound(_) => !t.state().files.contains_key(
                        object_path(self.spec_objects(), digest@),
                    ),
                    Error::IOFailure(_) => true,
                    _ => false,
                },
            },
    {
        let obj_path = string_concat3(self.objects.as_str(), "/", digest);
        t.get_file(obj_path.as_str())
    }

    /// Atomically relocates an externally produced object into the store
    /// under a digest, without re-reading its content.
    pub fn move_in<R: WriteRemote>(&self, t: &mut R, digest: &str, source: &str) -> (r: Result<
        (),
        Error,
    >)
        requires
            old(t).inv(),
        ensures
            final(t).inv(),
            match r {
                Ok(_) => old(t).state().files.contains_key(source@) && final(t).state().files
                    == old(t).state().files.remove(source@).insert(
                    object_path(self.spec_objects(), digest@),
                    old(t).state().files[source@],
                ) && final(t).state().dirs == old(t).state().dirs,
                Err(e) => final(t).state() == old(t).state() && match e {
                    Error::NotFound(_) => !old(t).state().files.contains_key(source@),
                    Error::IOFailure(_) => true,
                    _ => false,
                },
            },
    {
        let obj_path = string_concat3(self.objects.as_str(), "/", digest);
        t.rename(source, obj_path.as_str())
    }
}

} // verus!
