//! The archiving capability: packing a directory into one byte blob and
//! unpacking a blob into a directory.

use vstd::prelude::*;

use crate::error::Error;
use crate::strutil::string_eq;
use vstd::slice::slice_to_vec;

verus! {

/// Packs directories into byte blobs and unpacks blobs into
/// directories. The engine consumes it as a capability.
///
/// What a pack returns depends on what lies on disk, so nothing is
/// promised of the bytes; both operations are promised only to record
/// themselves, in order, in the capability's call history, and a failed
/// call records nothing.
pub trait Archiver: Sized {
    /// Every pack performed: the source directory and the bytes returned.
    /// Archivers whose history the proofs do not track leave the default.
    open spec fn packs(&self) -> Seq<(Seq<char>, Seq<u8>)> {
        Seq::empty()
    }

    /// Every unpack performed: the bytes handed over and the destination.
    /// Archivers whose history the proofs do not track leave the default.
    open spec fn unpacks(&self) -> Seq<(Seq<u8>, Seq<char>)> {
        Seq::empty()
    }

    /// Packs a directory's contents into one byte blob.
    fn pack(&mut self, source: &str) -> (r: Result<Vec<u8>, Error>)
        ensures
            final(self).unpacks() == old(self).unpacks(),
            match r {
                Ok(b) => final(self).packs() == old(self).packs().push((source@, b@)),
                Err(_) => final(self).packs() == old(self).packs(),
            },
    ;

    /// Unpacks a blob into a directory.
    fn unpack(&mut self, data: &Vec<u8>, dest: &str) -> (r: Result<(), Error>)
        ensures
            final(self).packs() == old(self).packs(),
            match r {
                Ok(_) => final(self).unpacks() == old(self).unpacks().push((data@, dest@)),
                Err(_) => final(self).unpacks() == old(self).unpacks(),
            },
    ;
}

/// An in-memory archiver: the reference implementation of [`Archiver`],
/// verified against its contracts. Packing a directory returns the
/// bytes configured for it; unpacking records where each blob went.
pub struct MemoryArchiver {
    contents: Vec<(String, Vec<u8>)>,
    pack_log: Vec<(String, Vec<u8>)>,
    unpack_log: Vec<(Vec<u8>, String)>,
}

impl MemoryArchiver {
    /// An archiver with nothing configured and an empty history.
    pub fn new() -> (r: MemoryArchiver)
        ensures
            r.packs() == Seq::<(Seq<char>, Seq<u8>)>::empty(),
            r.unpacks() == Seq::<(Seq<u8>, Seq<char>)>::empty(),
    {
        let r = MemoryArchiver { contents: Vec::new(), pack_log: Vec::new(), unpack_log: Vec::new() };
        proof {
            assert(r.packs() =~= Seq::<(Seq<char>, Seq<u8>)>::empty());
            assert(r.unpacks() =~= Seq::<(Seq<u8>, Seq<char>)>::empty());
        }
        r
    }

    /// Configures what a directory packs to, replacing any earlier
    /// configuration for it.
    pub fn set_content(&mut self, dir: &str, bytes: Vec<u8>)
        ensures
            final(self).packs() == old(self).packs(),
            final(self).unpacks() == old(self).unpacks(),
    {
        let n = self.contents.len();
        let mut i: usize = 0;
        while i < n
            invariant
                0 <= i <= n,
                n == self.contents@.len(),
                self == old(self),
            decreases n - i,
        {
            if string_eq(self.contents[i].0.as_str(), dir) {
                self.contents.set(i, (dir.to_owned(), bytes));
                proof {
                    assert(self.packs() =~= old(self).packs());
                    assert(self.unpacks() =~= old(self).unpacks());
                }
                return ;
            }
            i += 1;
        }
        self.contents.push((dir.to_owned(), bytes));
        proof {
            assert(self.packs() =~= old(self).packs());
            assert(self.unpacks() =~= old(self).unpacks());
        }
    }

    /// How many unpacks were performed, and what each carried.
    pub fn unpack_count(&self) -> (r: usize)
        ensures
            r == self.unpacks().len(),
    {
        self.unpack_log.len()
    }

    /// One recorded unpack: the bytes handed over and the destination.
    pub fn unpack_at(&self, i: usize) -> (r: &(Vec<u8>, String))
        requires
            i < self.unpacks().len(),
        ensures
            self.unpacks()[i as int] == (r.0@, r.1@),
    {
        &self.unpack_log[i]
    }
}

impl Archiver for MemoryArchiver {
    closed spec fn packs(&self) -> Seq<(Seq<char>, Seq<u8>)> {
        self.pack_log@.map_values(|p: (String, Vec<u8>)| (p.0@, p.1@))
    }

    closed spec fn unpacks(&self) -> Seq<(Seq<u8>, Seq<char>)> {
        self.unpack_log@.map_values(|p: (Vec<u8>, String)| (p.0@, p.1@))
    }

    fn pack(&mut self, source: &str) -> (r: Result<Vec<u8>, Error>) {
        let n = self.contents.len();
        let mut i: usize = 0;
        while i < n
            invariant
                0 <= i <= n,
                n == self.contents@.len(),
                self == old(self),
            decreases n - i,
        {
            if string_eq(self.contents[i].0.as_str(), source) {
                let data = slice_to_vec(self.contents[i].1.as_slice());
                let logged = slice_to_vec(data.as_slice());
                self.pack_log.push((source.to_owned(), logged));
                proof {
                    assert(self.packs() =~= old(self).packs().push((source@, data@)));
                    assert(self.unpacks() =~= old(self).unpacks());
                }
                return Ok(data);
            }
            i += 1;
        }
        Err(Error::NotFound(source.to_owned()))
    }

    fn unpack(&mut self, data: &Vec<u8>, dest: &str) -> (r: Result<(), Error>) {
        let stored = slice_to_vec(data.as_slice());
        self.unpack_log.push((stored, dest.to_owned()));
        proof {
            assert(self.unpacks() =~= old(self).unpacks().push((data@, dest@)));
            assert(self.packs() =~= old(self).packs());
        }
        Ok(())
    }
}

} // verus!
