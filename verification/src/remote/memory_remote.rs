//! An in-memory storage backend: the reference implementation of the
//! transport interface, verified against its contracts.

use vstd::prelude::*;

use crate::error::Error;
use crate::remote::ReadRemote;
use crate::remote::StoreView;
use crate::remote::WriteRemote;
use crate::strutil::direct_child;
use crate::strutil::is_direct_child;
use crate::strutil::string_concat3;
use crate::strutil::string_eq;
use vstd::slice::slice_to_vec;

verus! {

/// A repository held entirely in memory.
pub struct MemoryRemote {
    root: String,
    files: Vec<(String, Vec<u8>)>,
    dirs: Vec<String>,
}

/// The mapping that a sequence of file entries denotes; a later entry
/// for a path supersedes an earlier one.
pub open spec fn files_map(entries: Seq<(String, Vec<u8>)>) -> Map<Seq<char>, Seq<u8>>
    decreases entries.len(),
{
    if entries.len() == 0 {
        Map::empty()
    } else {
        files_map(entries.drop_last()).insert(entries.last().0@, entries.last().1@)
    }
}

/// A path is in the mapping exactly when some entry carries it.
proof fn lemma_files_contains(entries: Seq<(String, Vec<u8>)>, name: Seq<char>)
    ensures
        files_map(entries).contains_key(name) <==> exists|i: int|
            0 <= i < entries.len() && entries[i].0@ == name,
    decreases entries.len(),
{
    if entries.len() > 0 {
        lemma_files_contains(entries.drop_last(), name);
        if entries.last().0@ != name && files_map(entries).contains_key(name) {
            let i = choose|i: int|
                0 <= i < entries.drop_last().len() && entries.drop_last()[i].0@ == name;
            assert(entries[i].0@ == name);
        }
        if exists|i: int| 0 <= i < entries.len() && entries[i].0@ == name {
            let i = choose|i: int| 0 <= i < entries.len() && entries[i].0@ == name;
            if i < entries.len() - 1 {
                assert(entries.drop_last()[i].0@ == name);
            }
        }
    }
}

/// With unique paths, the mapping holds each entry under its own path.
proof fn lemma_files_index(entries: Seq<(String, Vec<u8>)>, i: int)
    requires
        forall|k: int, l: int| 0 <= k < l < entries.len() ==> entries[k].0@ != entries[l].0@,
        0 <= i < entries.len(),
    ensures
        files_map(entries).contains_key(entries[i].0@),
        files_map(entries)[entries[i].0@] == entries[i].1@,
    decreases entries.len(),
{
    if i < entries.len() - 1 {
        lemma_files_index(entries.drop_last(), i);
        assert(entries.drop_last()[i] == entries[i]);
    }
}

/// Replacing the entry that carries a path updates the mapping at that
/// path alone.
proof fn lemma_files_update(entries: Seq<(String, Vec<u8>)>, i: int, e: (String, Vec<u8>))
    requires
        forall|k: int, l: int| 0 <= k < l < entries.len() ==> entries[k].0@ != entries[l].0@,
        0 <= i < entries.len(),
        entries[i].0@ == e.0@,
    ensures
        files_map(entries.update(i, e)) == files_map(entries).insert(e.0@, e.1@),
    decreases entries.len(),
{
    let upd = entries.update(i, e);
    if i == entries.len() - 1 {
        assert(upd.drop_last() =~= entries.drop_last());
        assert(files_map(upd) =~= files_map(entries).insert(e.0@, e.1@));
    } else {
        lemma_files_update(entries.drop_last(), i, e);
        assert(upd.drop_last() =~= entries.drop_last().update(i, e));
        assert(upd.last() == entries.last());
        assert(files_map(upd) =~= files_map(entries).insert(e.0@, e.1@));
    }
}

/// Removing the entry that carries a path removes the path from the
/// mapping and nothing else.
proof fn lemma_files_remove(entries: Seq<(String, Vec<u8>)>, i: int)
    requires
        forall|k: int, l: int| 0 <= k < l < entries.len() ==> entries[k].0@ != entries[l].0@,
        0 <= i < entries.len(),
    ensures
        files_map(entries.remove(i)) == files_map(entries).remove(entries[i].0@),
    decreases entries.len(),
{
    let rem = entries.remove(i);
    if i == entries.len() - 1 {
        assert(rem =~= entries.drop_last());
        lemma_files_contains(entries.drop_last(), entries[i].0@);
        assert(files_map(rem) =~= files_map(entries).remove(entries[i].0@));
    } else {
        lemma_files_remove(entries.drop_last(), i);
        assert(rem.drop_last() =~= entries.drop_last().remove(i));
        assert(rem.last() == entries.last());
        assert(entries.last().0@ != entries[i].0@);
        assert(files_map(rem) =~= files_map(entries).remove(entries[i].0@));
    }
}

impl MemoryRemote {
    /// An empty repository location rooted at `root`.
    pub fn new(root: &str) -> (r: MemoryRemote)
        ensures
            r.inv(),
            r.state().files == Map::<Seq<char>, Seq<u8>>::empty(),
            r.state().dirs == Set::<Seq<char>>::empty(),
    {
        let r = MemoryRemote { root: root.to_owned(), files: Vec::new(), dirs: Vec::new() };
        proof {
            assert(r.state().dirs =~= Set::<Seq<char>>::empty());
        }
        r
    }

    /// Stores content under a path, replacing any previous entry.
    fn insert_entry(&mut self, name: &str, data: Vec<u8>) -> (n: usize)
        requires
            old(self).inv(),
        ensures
            final(self).inv(),
            n == data@.len(),
            final(self).state().files == old(self).state().files.insert(name@, data@),
            final(self).state().dirs == old(self).state().dirs,
            final(self).root@ == old(self).root@,
    {
        let len = data.len();
        let m = self.files.len();
        let mut i: usize = 0;
        while i < m
            invariant
                0 <= i <= m,
                m == self.files@.len(),
                self.inv(),
                self == old(self),
                len == data@.len(),
                forall|k: int| 0 <= k < i ==> self.files@[k].0@ != name@,
            decreases m - i,
        {
            if string_eq(self.files[i].0.as_str(), name) {
                let entry = (name.to_owned(), data);
                proof {
                    lemma_files_update(self.files@, i as int, entry);
                }
                self.files.set(i, entry);
                proof {
                    assert(self.inv()) by {
                        assert(forall|k: int|
                            0 <= k < self.files@.len() && k != i ==> self.files@[k].0@ == old(self).files@[k].0@);
                    }
                }
                return len;
            }
            i += 1;
        }
        self.files.push((name.to_owned(), data));
        proof {
            assert(self.files@.drop_last() =~= old(self).files@);
            assert(forall|k: int|
                0 <= k < old(self).files@.len() ==> self.files@[k] == old(self).files@[k]);
            assert(self.inv());
        }
        len
    }

    /// The position of the entry that carries a path, if any.
    fn find_entry(&self, name: &str) -> (r: Option<usize>)
        requires
            self.inv(),
        ensures
            match r {
                Some(i) => i < self.files@.len() && self.files@[i as int].0@ == name@
                    && self.state().files.contains_key(name@) && self.state().files[name@]
                    == self.files@[i as int].1@,
                None => !self.state().files.contains_key(name@),
            },
    {
        let m = self.files.len();
        let mut i: usize = 0;
        while i < m
            invariant
                0 <= i <= m,
                m == self.files@.len(),
                self.inv(),
                forall|k: int| 0 <= k < i ==> self.files@[k].0@ != name@,
            decreases m - i,
        {
            if string_eq(self.files[i].0.as_str(), name) {
                proof {
                    lemma_files_index(self.files@, i as int);
                }
                return Some(i);
            }
            i += 1;
        }
        proof {
            lemma_files_contains(self.files@, name@);
        }
        None
    }
}

impl ReadRemote for MemoryRemote {
    /// Paths are unique among file entries, and among directories.
    closed spec fn inv(&self) -> bool {
        &&& forall|k: int, l: int|
            0 <= k < l < self.files@.len() ==> self.files@[k].0@ != self.files@[l].0@
        &&& forall|k: int, l: int| 0 <= k < l < self.dirs@.len() ==> self.dirs@[k]@ != self.dirs@[l]@
    }

    closed spec fn state(&self) -> StoreView {
        StoreView {
            files: files_map(self.files@),
            dirs: self.dirs@.map_values(|d: String| d@).to_set(),
        }
    }

    closed spec fn resolve_spec(&self, path: Seq<char>) -> Seq<char> {
        self.root@ + "/"@ + path
    }

    fn get_file(&self, name: &str) -> (r: Result<Vec<u8>, Error>) {
        match self.find_entry(name) {
            Some(i) => Ok(slice_to_vec(self.files[i].1.as_slice())),
            None => Err(Error::NotFound(name.to_owned())),
        }
    }

    fn read_dir(&self, name: &str) -> (r: Result<Vec<String>, Error>) {
        let mut present = false;
        let dn = self.dirs.len();
        let mut i: usize = 0;
        while i < dn
            invariant
                0 <= i <= dn,
                dn == self.dirs@.len(),
                !present ==> forall|k: int| 0 <= k < i ==> self.dirs@[k]@ != name@,
                present ==> self.state().dirs.contains(name@),
            decreases dn - i,
        {
            if string_eq(self.dirs[i].as_str(), name) {
                proof {
                    assert(self.dirs@.map_values(|d: String| d@)[i as int] == name@);
                    assert(self.dirs@.map_values(|d: String| d@).contains(name@));
                }
                present = true;
            }
            i += 1;
        }
        if !present {
            proof {
                let ghost md = self.dirs@.map_values(|d: String| d@);
                if self.state().dirs.contains(name@) {
                    let k = choose|k: int| 0 <= k < md.len() && #[trigger] md[k] == name@;
                    assert(self.dirs@[k]@ == name@);
                }
            }
            return Err(Error::NotFound(name.to_owned()));
        }
        let m = self.files.len();
        let mut out: Vec<String> = Vec::new();
        let ghost mut idxs: Seq<int> = Seq::empty();
        let mut i: usize = 0;
        while i < m
            invariant
                0 <= i <= m,
                m == self.files@.len(),
                self.inv(),
                idxs.len() == out.deep_view().len(),
                out.deep_view().len() == out@.len(),
                forall|k: int|
                    0 <= k < idxs.len() ==> 0 <= #[trigger] idxs[k] < i && out.deep_view()[k]
                        == self.files@[idxs[k]].0@,
                forall|k: int, l: int| 0 <= k < l < idxs.len() ==> idxs[k] < idxs[l],
                forall|k: int|
                    0 <= k < idxs.len() ==> is_direct_child(name@, out.deep_view()[k]),
                forall|j: int|
                    0 <= j < i && is_direct_child(name@, #[trigger] self.files@[j].0@)
                        ==> out.deep_view().contains(self.files@[j].0@),
            decreases m - i,
        {
            let key = &self.files[i].0;
            if direct_child(name, key.as_str()) {
                let ghost prev = out.deep_view();
                let ghost prev_v = out@;
                out.push(key.clone());
                proof {
                    idxs = idxs.push(i as int);
                    assert(out@.len() == prev.len() + 1);
                    assert(forall|k: int|
                        0 <= k < out@.len() ==> out.deep_view()[k] == #[trigger] out@[k]@);
                    assert(forall|k: int|
                        0 <= k < prev.len() ==> out.deep_view()[k] == #[trigger] prev[k]) by {
                        assert(forall|k: int|
                            0 <= k < prev.len() ==> prev[k] == #[trigger] prev_v[k]@);
                        assert(forall|k: int| 0 <= k < prev.len() ==> out@[k] == #[trigger] prev_v[k]);
                    }
                    assert(out.deep_view() =~= prev.push(key@));
                    assert(out.deep_view().last() == self.files@[i as int].0@);
                    assert(forall|j: int|
                        0 <= j < i && is_direct_child(name@, #[trigger] self.files@[j].0@)
                            ==> prev.contains(self.files@[j].0@));
                    assert(forall|p: Seq<char>|
                        prev.contains(p) ==> out.deep_view().contains(p)) by {
                        assert(forall|k: int|
                            0 <= k < prev.len() ==> out.deep_view()[k] == #[trigger] prev[k]);
                    }
                    assert(out.deep_view().contains(self.files@[i as int].0@));
                }
            }
            i += 1;
        }
        proof {
            assert forall|k: int, l: int|
                0 <= k < l < idxs.len() implies out.deep_view()[k] != out.deep_view()[l] by {
                assert(0 <= idxs[k] < idxs[l] < self.files@.len());
                assert(self.files@[idxs[k]].0@ != self.files@[idxs[l]].0@);
            }
            assert forall|p: Seq<char>|
                self.state().files.contains_key(p) && is_direct_child(
                    name@,
                    p,
                ) implies out.deep_view().contains(p) by {
                lemma_files_contains(self.files@, p);
                let j = choose|j: int| 0 <= j < self.files@.len() && self.files@[j].0@ == p;
                assert(is_direct_child(name@, self.files@[j].0@));
            }
            assert forall|k: int|
                0 <= k < out.deep_view().len() implies self.state().files.contains_key(
                out.deep_view()[k],
            ) by {
                lemma_files_contains(self.files@, out.deep_view()[k]);
                assert(self.files@[idxs[k]].0@ == out.deep_view()[k]);
            }
        }
        Ok(out)
    }

    fn get_path(&self, path: &str) -> (r: String) {
        string_concat3(self.root.as_str(), "/", path)
    }
}

impl WriteRemote for MemoryRemote {
    fn put_file(&mut self, name: &str, buffer: &[u8]) -> (r: Result<usize, Error>) {
        let data = slice_to_vec(buffer);
        Ok(self.insert_entry(name, data))
    }

    fn create_dir(&mut self, name: &str) -> (r: Result<(), Error>) {
        let dn = self.dirs.len();
        let mut i: usize = 0;
        while i < dn
            invariant
                0 <= i <= dn,
                dn == self.dirs@.len(),
                self.inv(),
                self == old(self),
                forall|k: int| 0 <= k < i ==> self.dirs@[k]@ != name@,
            decreases dn - i,
        {
            if string_eq(self.dirs[i].as_str(), name) {
                proof {
                    assert(self.dirs@.map_values(|d: String| d@)[i as int] == name@);
                    assert(self.dirs@.map_values(|d: String| d@).contains(name@));
                    assert(self.state().dirs =~= old(self).state().dirs.insert(name@));
                }
                return Ok(());
            }
            i += 1;
        }
        let ghost prev = self.dirs@;
        self.dirs.push(name.to_owned());
        proof {
            assert(forall|k: int| 0 <= k < prev.len() ==> self.dirs@[k] == prev[k]);
            assert(self.inv());
            let ghost nd = self.dirs@.map_values(|d: String| d@);
            let ghost pd = prev.map_values(|d: String| d@);
            assert(forall|k: int| 0 <= k < self.dirs@.len() ==> #[trigger] nd[k] == self.dirs@[k]@);
            assert(forall|k: int| 0 <= k < prev.len() ==> #[trigger] pd[k] == prev[k]@);
            assert(self.state().dirs =~= old(self).state().dirs.insert(name@)) by {
                assert forall|p: Seq<char>|
                    self.state().dirs.contains(p) implies old(self).state().dirs.insert(
                    name@,
                ).contains(p) by {
                    let k = choose|k: int| 0 <= k < nd.len() && #[trigger] nd[k] == p;
                    if k < prev.len() {
                        assert(pd[k] == p);
                        assert(pd.contains(p));
                    }
                }
                assert forall|p: Seq<char>|
                    old(self).state().dirs.insert(name@).contains(p) implies self.state().dirs.contains(
                    p,
                ) by {
                    if p == name@ {
                        assert(nd[prev.len() as int] == p);
                        assert(nd.contains(p));
                    } else {
                        let k = choose|k: int| 0 <= k < pd.len() && #[trigger] pd[k] == p;
                        assert(nd[k] == p);
                        assert(nd.contains(p));
                    }
                }
            }
            assert(files_map(self.files@) == files_map(old(self).files@));
        }
        Ok(())
    }

    fn rename(&mut self, src: &str, dest: &str) -> (r: Result<(), Error>) {
        let i = match self.find_entry(src) {
            Some(i) => i,
            None => {
                return Err(Error::NotFound(src.to_owned()));
            },
        };
        proof {
            lemma_files_remove(self.files@, i as int);
        }
        let (_, data) = self.files.remove(i);
        proof {
            assert(self.inv()) by {
                assert(forall|k: int|
                    0 <= k < i ==> #[trigger] self.files@[k] == old(self).files@[k]);
                assert(forall|k: int|
                    i <= k < self.files@.len() ==> #[trigger] self.files@[k] == old(self).files@[k + 1]);
            }
        }
        self.insert_entry(dest, data);
        Ok(())
    }

    fn copy(&mut self, src: &str, dest: &str) -> (r: Result<(), Error>) {
        let i = match self.find_entry(src) {
            Some(i) => i,
            None => {
                return Err(Error::NotFound(src.to_owned()));
            },
        };
        let data = slice_to_vec(self.files[i].1.as_slice());
        self.insert_entry(dest, data);
        Ok(())
    }

    fn remove_file(&mut self, name: &str) -> (r: Result<(), Error>) {
        let i = match self.find_entry(name) {
            Some(i) => i,
            None => {
                return Err(Error::NotFound(name.to_owned()));
            },
        };
        proof {
            lemma_files_remove(self.files@, i as int);
        }
        self.files.remove(i);
        proof {
            assert(self.inv()) by {
                assert(forall|k: int|
                    0 <= k < i ==> #[trigger] self.files@[k] == old(self).files@[k]);
                assert(forall|k: int|
                    i <= k < self.files@.len() ==> #[trigger] self.files@[k] == old(self).files@[k + 1]);
            }
        }
        Ok(())
    }
}

} // verus!
