//! The manifest of tracked volumes (source term: "lock").

use vstd::prelude::*;

use crate::codec::distinct_entry_keys;
use crate::codec::distinct_pair_keys;
use crate::codec::nested_view;
use crate::codec::pairs_view;
use crate::codec::yaml_decode_nested;
use crate::codec::yaml_encode_nested;
use crate::codec::yaml_nested_enc;
use crate::error::Error;
use crate::strutil::string_eq;
use crate::volume::lemma_parse_volume_fields;
use crate::volume::volume_fields;
use crate::volume::Volume;
use crate::volume::VolumeView;

verus! {

broadcast use vstd::string::group_string_axioms;

/// One point-in-time state of all tracked volumes: a mapping from a
/// volume's name to its descriptor. Names are unique.
#[derive(Debug, Clone, PartialEq)]
pub struct Lock {
    volumes: Vec<Volume>,
}

impl View for Lock {
    type V = Map<Seq<char>, VolumeView>;

    closed spec fn view(&self) -> Map<Seq<char>, VolumeView> {
        lock_map(self.volumes@)
    }
}

/// The mapping that a sequence of volumes denotes; a later entry for a
/// name supersedes an earlier one.
pub open spec fn lock_map(vols: Seq<Volume>) -> Map<Seq<char>, VolumeView>
    decreases vols.len(),
{
    if vols.len() == 0 {
        Map::empty()
    } else {
        lock_map(vols.drop_last()).insert(vols.last()@.name, vols.last()@)
    }
}

/// A name is in the mapping exactly when some entry carries it, and the
/// mapping then holds an entry's value.
proof fn lemma_lock_map_contains(vols: Seq<Volume>, name: Seq<char>)
    ensures
        lock_map(vols).contains_key(name) <==> exists|i: int|
            0 <= i < vols.len() && vols[i]@.name == name,
    decreases vols.len(),
{
    if vols.len() > 0 {
        lemma_lock_map_contains(vols.drop_last(), name);
        if vols.last()@.name != name && lock_map(vols).contains_key(name) {
            let i = choose|i: int| 0 <= i < vols.drop_last().len() && vols.drop_last()[i]@.name == name;
            assert(vols[i]@.name == name);
        }
        if exists|i: int| 0 <= i < vols.len() && vols[i]@.name == name {
            let i = choose|i: int| 0 <= i < vols.len() && vols[i]@.name == name;
            if i < vols.len() - 1 {
                assert(vols.drop_last()[i]@.name == name);
            }
        }
    }
}

/// With unique names, the mapping holds each entry under its own name.
proof fn lemma_lock_map_index(vols: Seq<Volume>, i: int)
    requires
        forall|k: int, l: int| 0 <= k < l < vols.len() ==> vols[k]@.name != vols[l]@.name,
        0 <= i < vols.len(),
    ensures
        lock_map(vols).contains_key(vols[i]@.name),
        lock_map(vols)[vols[i]@.name] == vols[i]@,
    decreases vols.len(),
{
    if i == vols.len() - 1 {
    } else {
        lemma_lock_map_index(vols.drop_last(), i);
        assert(vols.drop_last()[i] == vols[i]);
    }
}

/// Replacing the entry that carries a name updates the mapping at that
/// name alone.
proof fn lemma_lock_map_update(vols: Seq<Volume>, i: int, v: Volume)
    requires
        forall|k: int, l: int| 0 <= k < l < vols.len() ==> vols[k]@.name != vols[l]@.name,
        0 <= i < vols.len(),
        vols[i]@.name == v@.name,
    ensures
        lock_map(vols.update(i, v)) == lock_map(vols).insert(v@.name, v@),
    decreases vols.len(),
{
    let upd = vols.update(i, v);
    if i == vols.len() - 1 {
        assert(upd.drop_last() =~= vols.drop_last());
        assert(lock_map(upd) =~= lock_map(vols).insert(v@.name, v@));
    } else {
        lemma_lock_map_update(vols.drop_last(), i, v);
        assert(upd.drop_last() =~= vols.drop_last().update(i, v));
        assert(upd.last() == vols.last());
        assert(vols.last()@.name != v@.name);
        assert(lock_map(upd) =~= lock_map(vols).insert(v@.name, v@));
    }
}

impl Lock {
    /// Every name appears at most once among the entries.
    pub closed spec fn wf(&self) -> bool {
        forall|i: int, j: int|
            0 <= i < j < self.volumes@.len() ==> self.volumes@[i]@.name != self.volumes@[j]@.name
    }

    /// The entries in their stored order.
    pub closed spec fn entries(&self) -> Seq<VolumeView> {
        self.volumes@.map_values(|v: Volume| v@)
    }

    /// How many volumes the manifest tracks.
    pub fn len(&self) -> (r: usize)
        ensures
            r == self.entries().len(),
    {
        self.volumes.len()
    }

    /// The volume at a position of the stored order.
    pub fn index(&self, i: usize) -> (r: &Volume)
        requires
            i < self.entries().len(),
        ensures
            r@ == self.entries()[i as int],
    {
        &self.volumes[i]
    }

    /// Each entry stands in the mapping under its own name.
    pub proof fn lemma_entries_in_map(&self, i: int)
        requires
            self.wf(),
            0 <= i < self.entries().len(),
        ensures
            self@.contains_key(self.entries()[i].name),
            self@[self.entries()[i].name] == self.entries()[i],
    {
        lemma_lock_map_index(self.volumes@, i);
    }

    /// With a well-formed manifest, entry names are pairwise distinct.
    pub proof fn lemma_entries_distinct(&self)
        requires
            self.wf(),
        ensures
            forall|i: int, j: int|
                0 <= i < j < self.entries().len() ==> (#[trigger] self.entries()[i]).name != (
                #[trigger] self.entries()[j]).name,
    {
        assert(forall|i: int|
            0 <= i < self.volumes@.len() ==> self.entries()[i] == #[trigger] self.volumes@[i]@);
    }

    /// Every name in the mapping is carried by exactly one entry.
    pub proof fn lemma_map_in_entries(&self, name: Seq<char>)
        requires
            self.wf(),
        ensures
            self@.contains_key(name) <==> exists|i: int|
                0 <= i < self.entries().len() && self.entries()[i].name == name,
    {
        lemma_lock_map_contains(self.volumes@, name);
        assert(forall|i: int|
            0 <= i < self.volumes@.len() ==> self.entries()[i] == #[trigger] self.volumes@[i]@);
    }

    /// Looks a volume up by name.
    pub fn get(&self, name: &str) -> (r: Option<&Volume>)
        requires
            self.wf(),
        ensures
            match r {
                Some(v) => self@.contains_key(name@) && v@ == self@[name@],
                None => !self@.contains_key(name@),
            },
    {
        let n = self.volumes.len();
        let mut i: usize = 0;
        while i < n
            invariant
                0 <= i <= n,
                n == self.volumes@.len(),
                self.wf(),
                forall|k: int| 0 <= k < i ==> self.volumes@[k]@.name != name@,
            decreases n - i,
        {
            if string_eq(self.volumes[i].get_name(), name) {
                proof {
                    lemma_lock_map_index(self.volumes@, i as int);
                }
                return Some(&self.volumes[i]);
            }
            i += 1;
        }
        proof {
            lemma_lock_map_contains(self.volumes@, name@);
        }
        None
    }

    /// Inserts the volume, replacing any entry of the same name.
    pub fn add_volume(&mut self, volume: Volume) -> (r: Result<(), Error>)
        requires
            old(self).wf(),
        ensures
            r is Ok,
            final(self).wf(),
            final(self)@ == old(self)@.insert(volume@.name, volume@),
    {
        let n = self.volumes.len();
        let mut i: usize = 0;
        while i < n
            invariant
                0 <= i <= n,
                n == self.volumes@.len(),
                self.wf(),
                self.volumes@ == old(self).volumes@,
                forall|k: int| 0 <= k < i ==> self.volumes@[k]@.name != volume@.name,
            decreases n - i,
        {
            if string_eq(self.volumes[i].get_name(), volume.get_name()) {
                proof {
                    lemma_lock_map_update(self.volumes@, i as int, volume);
                }
                self.volumes.set(i, volume);
                assert(self.wf()) by {
                    assert(forall|k: int|
                        0 <= k < self.volumes@.len() && k != i ==> self.volumes@[k]@.name == old(
                            self,
                        ).volumes@[k]@.name);
                }
                return Ok(());
            }
            i += 1;
        }
        self.volumes.push(volume);
        proof {
            assert(self.volumes@.drop_last() =~= old(self).volumes@);
            assert(forall|k: int|
                0 <= k < old(self).volumes@.len() ==> self.volumes@[k] == old(self).volumes@[k]);
            assert(self.wf());
        }
        Ok(())
    }
}

impl Default for Lock {
    /// The empty manifest.
    fn default() -> (r: Lock)
        ensures
            r@ == Map::<Seq<char>, VolumeView>::empty(),
            r.wf(),
            r.entries() == Seq::<VolumeView>::empty(),
    {
        let l = Lock { volumes: Vec::new() };
        assert(l.entries() =~= Seq::<VolumeView>::empty());
        l
    }
}

/// No two volume descriptors share a name.
pub open spec fn distinct_names(es: Seq<VolumeView>) -> bool {
    forall|i: int, j: int| 0 <= i < j < es.len() ==> es[i].name != es[j].name
}

/// The mapping that a sequence of volume descriptors denotes.
pub open spec fn entries_map(es: Seq<VolumeView>) -> Map<Seq<char>, VolumeView>
    decreases es.len(),
{
    if es.len() == 0 {
        Map::empty()
    } else {
        entries_map(es.drop_last()).insert(es.last().name, es.last())
    }
}

/// Every descriptor's name is in the mapping its sequence denotes.
pub proof fn lemma_entries_map_contains(es: Seq<VolumeView>, i: int)
    requires
        0 <= i < es.len(),
    ensures
        entries_map(es).contains_key(es[i].name),
    decreases es.len(),
{
    if i < es.len() - 1 {
        lemma_entries_map_contains(es.drop_last(), i);
        assert(es.drop_last()[i] == es[i]);
    }
}

/// The document under which a manifest is persisted: one named entry per
/// volume, in order, each carrying the volume's canonical fields.
pub open spec fn lock_enc(es: Seq<VolumeView>) -> Seq<u8> {
    yaml_nested_enc(es.map_values(|v: VolumeView| (v.name, volume_fields(v))))
}

/// Descriptors with distinct names map to entries with distinct keys.
proof fn lemma_mapped_distinct(es: Seq<VolumeView>)
    requires
        distinct_names(es),
    ensures
        distinct_entry_keys(es.map_values(|v: VolumeView| (v.name, volume_fields(v)))),
{
    assert(forall|k: int|
        0 <= k < es.len() ==> (es.map_values(|v: VolumeView| (v.name, volume_fields(v))))[k].0 == (
        #[trigger] es[k]).name);
}

/// The canonical fields of a volume carry no duplicate keys.
pub proof fn lemma_volume_fields_distinct(v: VolumeView)
    ensures
        distinct_pair_keys(volume_fields(v)),
{
    reveal_strlit("hash");
    reveal_strlit("scheme");
    reveal_strlit("uri");
    reveal_strlit("external");
    reveal_strlit("managed");
    assert("hash"@.len() == 4 && "scheme"@.len() == 6 && "uri"@.len() == 3);
}

/// A manifest's mapping is the mapping its entries denote.
proof fn lemma_lock_map_entries_map(vols: Seq<Volume>)
    ensures
        lock_map(vols) == entries_map(vols.map_values(|v: Volume| v@)),
    decreases vols.len(),
{
    if vols.len() > 0 {
        lemma_lock_map_entries_map(vols.drop_last());
        let es = vols.map_values(|v: Volume| v@);
        assert(es.drop_last() =~= vols.drop_last().map_values(|v: Volume| v@));
        assert(es.last() == vols.last()@);
    }
}

impl Lock {
    /// A manifest's mapping is the mapping its entries denote.
    pub proof fn lemma_view_entries(&self)
        ensures
            self@ == entries_map(self.entries()),
    {
        lemma_lock_map_entries_map(self.volumes@);
    }

    /// The manifest's persisted entries: one per volume, in stored order,
    /// each carrying the volume's canonical fields under its name.
    pub fn to_doc_entries(&self) -> (r: Vec<(String, Vec<(String, String)>)>)
        requires
            self.wf(),
        ensures
            nested_view(r@) == self.entries().map_values(
                |v: VolumeView| (v.name, volume_fields(v)),
            ),
            distinct_entry_keys(nested_view(r@)),
            forall|i: int|
                0 <= i < nested_view(r@).len() ==> distinct_pair_keys(
                    (#[trigger] nested_view(r@)[i]).1,
                ),
    {
        let mut out: Vec<(String, Vec<(String, String)>)> = Vec::new();
        let n = self.volumes.len();
        let mut i: usize = 0;
        while i < n
            invariant
                0 <= i <= n,
                n == self.volumes@.len(),
                self.wf(),
                out@.len() == i,
                forall|k: int|
                    0 <= k < i ==> #[trigger] nested_view(out@)[k] == (
                        self.entries()[k].name,
                        volume_fields(self.entries()[k]),
                    ),
            decreases n - i,
        {
            let v = &self.volumes[i];
            let fields = v.to_fields();
            let ghost prev = out@;
            out.push((v.get_name().to_owned(), fields));
            proof {
                assert(self.entries()[i as int] == self.volumes@[i as int]@);
                assert(forall|k: int|
                    0 <= k <= i ==> #[trigger] nested_view(out@)[k] == (
                        out@[k].0@,
                        pairs_view(out@[k].1@),
                    ));
                assert(forall|k: int|
                    0 <= k < i ==> #[trigger] nested_view(prev)[k] == (
                        prev[k].0@,
                        pairs_view(prev[k].1@),
                    ));
                assert(forall|k: int| 0 <= k < i ==> out@[k] == prev[k]);
                assert(nested_view(out@)[i as int] == (
                    self.entries()[i as int].name,
                    volume_fields(self.entries()[i as int]),
                ));
                assert forall|k: int| 0 <= k < i + 1 implies #[trigger] nested_view(out@)[k] == (
                    self.entries()[k].name,
                    volume_fields(self.entries()[k]),
                ) by {
                    if k < i {
                        assert(nested_view(out@)[k] == (out@[k].0@, pairs_view(out@[k].1@)));
                        assert(out@[k] == prev[k]);
                        assert(nested_view(prev)[k] == (prev[k].0@, pairs_view(prev[k].1@)));
                    }
                }
            }
            i += 1;
        }
        proof {
            assert(forall|k: int|
                0 <= k < n ==> (#[trigger] self.entries()[k]).name == self.volumes@[k]@.name);
            assert(nested_view(out@) =~~= self.entries().map_values(
                |v: VolumeView| (v.name, volume_fields(v)),
            ));
            lemma_mapped_distinct(self.entries());
            assert(forall|k: int| 0 <= k < nested_view(out@).len() ==> distinct_pair_keys(
                #[trigger] nested_view(out@)[k].1,
            )) by {
                assert forall|k: int| 0 <= k < nested_view(out@).len() implies distinct_pair_keys(
                    nested_view(out@)[k].1,
                ) by {
                    lemma_volume_fields_distinct(self.entries()[k]);
                }
            }
        }
        out
    }

    /// Renders the manifest as its persisted document; rendering never
    /// fails.
    pub fn store(&self) -> (r: Result<Vec<u8>, Error>)
        requires
            self.wf(),
        ensures
            r matches Ok(b) && b@ == lock_enc(self.entries()),
    {
        let out = self.to_doc_entries();
        Ok(yaml_encode_nested(&out))
    }

    /// Reads a manifest back from its persisted document; a document it
    /// cannot read is malformed.
    pub fn load(bytes: &Vec<u8>) -> (r: Result<Lock, Error>)
        ensures
            r matches Ok(l) ==> l.wf(),
            r matches Err(e) ==> e matches Error::Malformed(_),
            forall|es: Seq<VolumeView>|
                distinct_names(es) && bytes@ == #[trigger] lock_enc(es) ==> (r matches Ok(l)
                    && l@ == entries_map(es)),
    {
        let entries = match yaml_decode_nested(bytes) {
            Ok(entries) => entries,
            Err(e) => {
                return Err(e);
            },
        };
        let mut lock = Lock::default();
        let n = entries.len();
        proof {
            assert forall|es: Seq<VolumeView>|
                distinct_names(es) && bytes@ == #[trigger] lock_enc(es) implies es.len() == n
                && nested_view(entries@) == es.map_values(
                |v: VolumeView| (v.name, volume_fields(v)),
            ) && lock@ == entries_map(es.take(0)) by {
                lemma_mapped_distinct(es);
                assert(bytes@ == yaml_nested_enc(es.map_values(
                    |v: VolumeView| (v.name, volume_fields(v)),
                )));
                assert(nested_view(entries@) == es.map_values(
                    |v: VolumeView| (v.name, volume_fields(v)),
                ));
                assert(nested_view(entries@).len() == entries@.len());
                assert(es.take(0) =~= Seq::<VolumeView>::empty());
            }
        }
        let mut i: usize = 0;
        while i < n
            invariant
                0 <= i <= n,
                n == entries@.len(),
                lock.wf(),
                forall|es: Seq<VolumeView>|
                    distinct_names(es) && bytes@ == #[trigger] lock_enc(es) ==> es.len() == n
                        && nested_view(entries@) == es.map_values(
                        |v: VolumeView| (v.name, volume_fields(v)),
                    ) && lock@ == entries_map(es.take(i as int)),
            decreases n - i,
        {
            let (name, fields) = &entries[i];
            let volume = match Volume::from_fields(name.as_str(), fields) {
                Ok(volume) => volume,
                Err(e) => {
                    proof {
                        assert forall|es: Seq<VolumeView>|
                            distinct_names(es) && bytes@ == #[trigger] lock_enc(es) implies false by {
                            lemma_parse_volume_fields(es[i as int]);
                            assert(es.map_values(|v: VolumeView| (v.name, volume_fields(v)))[
                                i as int
                            ] == (es[i as int].name, volume_fields(es[i as int])));
                            assert(nested_view(entries@)[i as int] == (
                                entries@[i as int].0@,
                                pairs_view(entries@[i as int].1@),
                            ));
                        }
                    }
                    return Err(e);
                },
            };
            let ghost prev = lock@;
            let _ = lock.add_volume(volume);
            proof {
                assert forall|es: Seq<VolumeView>|
                    distinct_names(es) && bytes@ == #[trigger] lock_enc(es) implies es.len() == n
                    && nested_view(entries@) == es.map_values(
                    |v: VolumeView| (v.name, volume_fields(v)),
                ) && lock@ == entries_map(es.take(i + 1)) by {
                    lemma_parse_volume_fields(es[i as int]);
                    assert(es.map_values(|v: VolumeView| (v.name, volume_fields(v)))[i as int] == (
                        es[i as int].name,
                        volume_fields(es[i as int]),
                    ));
                    assert(nested_view(entries@)[i as int] == (
                        entries@[i as int].0@,
                        pairs_view(entries@[i as int].1@),
                    ));
                    assert(volume@ == es[i as int]);
                    assert(es.take(i + 1).drop_last() =~= es.take(i as int));
                    assert(lock@ == entries_map(es.take(i + 1)));
                }
            }
            i += 1;
        }
        proof {
            assert forall|es: Seq<VolumeView>|
                distinct_names(es) && bytes@ == #[trigger] lock_enc(es) implies lock@ == entries_map(
                es,
            ) by {
                assert(es.take(es.len() as int) =~= es);
            }
        }
        Ok(lock)
    }
}

} // verus!
