//! Transport: byte-level operations against a storage backend rooted at
//! a repository location.
//!
//! The interface is deliberately minimal so that non-local backends only
//! need to implement these primitives. Every mutation of a repository
//! goes through a [`WriteRemote`].

use vstd::prelude::*;

pub mod memory_remote;

use crate::error::Error;
use crate::strutil::find_char;
use crate::strutil::lemma_find_char;
use crate::strutil::is_direct_child;
use crate::strutil::string_find;

verus! {

/// What a storage backend holds: the contents of each file, and the set
/// of directories that exist, both keyed by path relative to the
/// repository root.
pub struct StoreView {
    pub files: Map<Seq<char>, Seq<u8>>,
    pub dirs: Set<Seq<char>>,
}

/// Read access to a repository's storage backend.
///
/// A failed operation leaves the backend unchanged; reading a missing
/// path is `NotFound`; any operation may fail with `IOFailure`, and
/// promises nothing more in that case.
pub trait ReadRemote: Sized {
    /// Whether the backend representation is internally consistent.
    /// Backends whose state the proofs do not track leave the default.
    open spec fn inv(&self) -> bool {
        true
    }

    /// The files and directories the backend holds. Backends whose state
    /// the proofs do not track leave the default.
    open spec fn state(&self) -> StoreView {
        StoreView { files: Map::empty(), dirs: Set::empty() }
    }

    /// Where a path lies in backend-specific terms. Backends whose state
    /// the proofs do not track leave the default.
    open spec fn resolve_spec(&self, path: Seq<char>) -> Seq<char> {
        path
    }

    /// Reads a file whole.
    fn get_file(&self, name: &str) -> (r: Result<Vec<u8>, Error>)
        requires
            self.inv(),
        ensures
            match r {
                Ok(data) => self.state().files.contains_key(name@) && data@
                    == self.state().files[name@],
                Err(e) => match e {
                    Error::NotFound(_) => !self.state().files.contains_key(name@),
                    Error::IOFailure(_) => true,
                    _ => false,
                },
            },
    ;

    /// Lists the files that lie directly under a directory, as paths
    /// relative to the repository root, each exactly once, in no
    /// promised order.
    fn read_dir(&self, name: &str) -> (r: Result<Vec<String>, Error>)
        requires
            self.inv(),
        ensures
            match r {
                Ok(v) => {
                    &&& forall|i: int, j: int|
                        0 <= i < j < v.deep_view().len() ==> v.deep_view()[i] != v.deep_view()[j]
                    &&& forall|i: int|
                        0 <= i < v.deep_view().len() ==> is_direct_child(
                            name@,
                            #[trigger] v.deep_view()[i],
                        ) && self.state().files.contains_key(v.deep_view()[i])
                    &&& forall|p: Seq<char>|
                        self.state().files.contains_key(p) && is_direct_child(name@, p)
                            ==> v.deep_view().contains(p)
                },
                Err(e) => match e {
                    Error::NotFound(_) => !self.state().dirs.contains(name@),
                    Error::IOFailure(_) => true,
                    _ => false,
                },
            },
    ;

    /// Resolves a path to its backend-specific location.
    fn get_path(&self, path: &str) -> (r: String)
        requires
            self.inv(),
        ensures
            r@ == self.resolve_spec(path@),
    ;
}

/// Write access to a repository's storage backend.
///
/// `rename` is atomic with respect to readers; `create_dir` tolerates a
/// directory that already exists; a failed operation leaves the backend
/// unchanged.
pub trait WriteRemote: ReadRemote {
    /// Writes a file whole, replacing any previous content.
    fn put_file(&mut self, name: &str, buffer: &[u8]) -> (r: Result<usize, Error>)
        requires
            old(self).inv(),
        ensures
            final(self).inv(),
            match r {
                Ok(n) => n == buffer@.len() && final(self).state().files == old(self).state().files.insert(name@, buffer@) && final(self).state().dirs == old(self).state().dirs,
                Err(e) => final(self).state() == old(self).state() && (e matches Error::IOFailure(
                    _,
                )),
            },
    ;

    /// Creates a directory; one that already exists is not an error.
    fn create_dir(&mut self, name: &str) -> (r: Result<(), Error>)
        requires
            old(self).inv(),
        ensures
            final(self).inv(),
            match r {
                Ok(_) => final(self).state().dirs == old(self).state().dirs.insert(name@) && final(self).state().files == old(self).state().files,
                Err(e) => final(self).state() == old(self).state() && (e matches Error::IOFailure(
                    _,
                )),
            },
    ;

    /// Atomically moves a file: a reader sees the old content or the
    /// new, never a partial one.
    fn rename(&mut self, src: &str, dest: &str) -> (r: Result<(), Error>)
        requires
            old(self).inv(),
        ensures
            final(self).inv(),
            match r {
                Ok(_) => old(self).state().files.contains_key(src@) && final(self).state().files
                    == old(self).state().files.remove(src@).insert(
                    dest@,
                    old(self).state().files[src@],
                ) && final(self).state().dirs == old(self).state().dirs,
                Err(e) => final(self).state() == old(self).state() && match e {
                    Error::NotFound(_) => !old(self).state().files.contains_key(src@),
                    Error::IOFailure(_) => true,
                    _ => false,
                },
            },
    ;

    /// Copies a file, leaving the source in place.
    fn copy(&mut self, src: &str, dest: &str) -> (r: Result<(), Error>)
        requires
            old(self).inv(),
        ensures
            final(self).inv(),
            match r {
                Ok(_) => old(self).state().files.contains_key(src@) && final(self).state().files
                    == old(self).state().files.insert(dest@, old(self).state().files[src@])
                    && final(self).state().dirs == old(self).state().dirs,
                Err(e) => final(self).state() == old(self).state() && match e {
                    Error::NotFound(_) => !old(self).state().files.contains_key(src@),
                    Error::IOFailure(_) => true,
                    _ => false,
                },
            },
    ;

    /// Removes a file; used to abandon uncommitted work.
    fn remove_file(&mut self, name: &str) -> (r: Result<(), Error>)
        requires
            old(self).inv(),
        ensures
            final(self).inv(),
            match r {
                Ok(_) => old(self).state().files.contains_key(name@) && final(self).state().files
                    == old(self).state().files.remove(name@) && final(self).state().dirs == old(self).state().dirs,
                Err(e) => final(self).state() == old(self).state() && match e {
                    Error::NotFound(_) => !old(self).state().files.contains_key(name@),
                    Error::IOFailure(_) => true,
                    _ => false,
                },
            },
    ;
}

/// What a file-backed remote needs to know: where the repository lies.
#[derive(Debug, Clone, PartialEq)]
pub struct FileRemoteSpec {
    pub path: String,
}

/// The kinds of remote endpoint a repository URI can name.
#[derive(Debug, Clone, PartialEq)]
pub enum RemoteSpec {
    File(FileRemoteSpec),
}

/// Reads a repository URI: a bare path, or `file://` followed by a
/// path. Any other scheme is refused.
pub fn remote_type(url: String) -> (r: Result<RemoteSpec, Error>)
    ensures
        match r {
            Ok(RemoteSpec::File(f)) => match find_char(url@, ':') {
                None => f.path@ == url@,
                Some(i) => url@.take(i) == "file"@ && url@.len() >= i + 4 && f.path@ == url@.skip(
                    i + 3,
                ),
            },
            Err(_) => match find_char(url@, ':') {
                None => false,
                Some(i) => url@.take(i) != "file"@ || url@.len() < i + 4,
            },
        },
{
    let i = match string_find(url.as_str(), ':') {
        Some(i) => i,
        None => {
            return Ok(RemoteSpec::File(FileRemoteSpec { path: url }));
        },
    };
    proof {
        lemma_find_char(url@, ':');
    }
    let n = url.as_str().unicode_len();
    let scheme = url.as_str().substring_char(0, i);
    if !crate::strutil::string_eq(scheme, "file") {
        proof {
            assert(url@.take(i as int) =~= url@.subrange(0, i as int));
        }
        return Err(Error::Malformed(url));
    }
    if n - i < 4 {
        return Err(Error::Malformed(url));
    }
    let path = url.as_str().substring_char(i + 3, n);
    proof {
        assert(url@.take(i as int) =~= url@.subrange(0, i as int));
        assert(url@.skip(i + 3) =~= url@.subrange(i as int + 3, url@.len() as int));
    }
    Ok(RemoteSpec::File(FileRemoteSpec { path: path.to_owned() }))
}

} // verus!
