//! The staging area: scratch state accumulated before a commit.

use vstd::prelude::*;

use crate::error::Error;
use crate::remote::ReadRemote;
use crate::remote::WriteRemote;
use crate::repository::lemma_standard_path_facts;
use crate::repository::lock::Lock;
use crate::repository::object_store::ObjectStore;
use crate::repository::standard_paths;
use crate::repository::RepositoryStructure;
use crate::strutil::is_direct_child;
use crate::volume::Volume;
use crate::volume::VolumeView;

verus! {

/// A scratch manifest plus a scratch object store, holding uncommitted
/// changes until they are promoted by a commit.
pub struct Stage {
    lock: Lock,
    object_store: ObjectStore,
}

impl Stage {
    /// The staged manifest's mapping.
    pub closed spec fn manifest(&self) -> Map<Seq<char>, VolumeView> {
        self.lock@
    }

    /// Whether the staged manifest is well formed.
    pub closed spec fn wf(&self) -> bool {
        self.lock.wf()
    }

    pub fn new(lock: Lock, object_store: ObjectStore) -> (r: Stage)
        ensures
            r.manifest() == lock@,
            r.wf() == lock.wf(),
    {
        Stage { lock, object_store }
    }

    /// The staged manifest.
    pub fn get_lock(&self) -> (r: &Lock)
        ensures
            r@ == self.manifest(),
            r.wf() == self.wf(),
    {
        &self.lock
    }

    /// Records a volume in the staged manifest, replacing any entry of
    /// the same name.
    pub fn add_volume(&mut self, volume: Volume) -> (r: Result<(), Error>)
        requires
            old(self).wf(),
        ensures
            r is Ok,
            final(self).wf(),
            final(self).manifest() == old(self).manifest().insert(volume@.name, volume@),
    {
        self.lock.add_volume(volume)
    }
}

/// Abandons uncommitted work: removes the staging manifest and every
/// staged object, and touches nothing else.
pub fn discard<R: WriteRemote>(transport: &mut R) -> (r: Result<(), Error>)
    requires
        old(transport).inv(),
    ensures
        final(transport).inv(),
        final(transport).state().dirs == old(transport).state().dirs,
        r is Ok ==> {
            &&& !final(transport).state().files.contains_key(standard_paths().stage.lock)
            &&& forall|p: Seq<char>|
                #[trigger] is_direct_child(standard_paths().stage.objects, p) ==> !final(transport).state().files.contains_key(p)
            &&& forall|q: Seq<char>|
                #![trigger old(transport).state().files.contains_key(q)]
                #![trigger final(transport).state().files.contains_key(q)]
                q != standard_paths().stage.lock && !is_direct_child(
                    standard_paths().stage.objects,
                    q,
                ) ==> (final(transport).state().files.contains_key(q) <==> old(transport).state().files.contains_key(q)) && (old(transport).state().files.contains_key(q)
                    ==> final(transport).state().files[q] == old(transport).state().files[q])
        },
{
    let paths = RepositoryStructure::default();
    let ghost f0 = old(transport).state().files;
    let ghost sp = standard_paths();
    match transport.remove_file(paths.get_stage().get_lock()) {
        Ok(_) => {},
        Err(e) => match e {
            Error::NotFound(_) => {},
            other => {
                return Err(other);
            },
        },
    }
    proof {
        assert(transport.state().files =~= f0.remove(sp.stage.lock));
    }
    let staged_objects = match transport.read_dir(paths.get_stage().get_objects()) {
        Ok(v) => v,
        Err(e) => {
            return Err(e);
        },
    };
    let ghost names = staged_objects.deep_view();
    proof {
        lemma_standard_path_facts();
        assert forall|p: Seq<char>|
            f0.contains_key(p) && #[trigger] is_direct_child(
                sp.stage.objects,
                p,
            ) implies names.contains(p) by {
            assert(p.len() > 28);
            assert(transport.state().files.contains_key(p));
        }
    }
    let n = staged_objects.len();
    let mut i: usize = 0;
    while i < n
        invariant
            0 <= i <= n,
            n == names.len(),
            n == staged_objects@.len(),
            names == staged_objects.deep_view(),
            sp == standard_paths(),
            transport.inv(),
            transport.state().dirs == old(transport).state().dirs,
            f0 == old(transport).state().files,
            forall|k: int, l: int| 0 <= k < l < names.len() ==> names[k] != names[l],
            forall|k: int|
                0 <= k < names.len() ==> is_direct_child(sp.stage.objects, #[trigger] names[k]),
            forall|p: Seq<char>|
                transport.state().files.contains_key(p) && #[trigger] is_direct_child(
                    sp.stage.objects,
                    p,
                ) ==> names.contains(p),
            forall|k: int|
                0 <= k < i ==> !transport.state().files.contains_key(#[trigger] names[k]),
            forall|k: int|
                i <= k < names.len() ==> transport.state().files.contains_key(#[trigger] names[k]),
            !transport.state().files.contains_key(sp.stage.lock),
            forall|q: Seq<char>|
                #![trigger f0.contains_key(q)]
                #![trigger transport.state().files.contains_key(q)]
                q != sp.stage.lock && !is_direct_child(sp.stage.objects, q) ==> (
                transport.state().files.contains_key(q) <==> f0.contains_key(q)) && (
                f0.contains_key(q) ==> transport.state().files[q] == f0[q]),
        decreases n - i,
    {
        let p = &staged_objects[i];
        proof {
            assert(names[i as int] == p@);
        }
        match transport.remove_file(p.as_str()) {
            Ok(_) => {},
            Err(e) => {
                return Err(e);
            },
        }
        i += 1;
    }
    proof {
        assert forall|p: Seq<char>|
            #[trigger] is_direct_child(sp.stage.objects, p) implies !transport.state().files.contains_key(
            p,
        ) by {
            if transport.state().files.contains_key(p) {
                assert(names.contains(p));
                let k = choose|k: int| 0 <= k < names.len() && names[k] == p;
            }
        }
    }
    Ok(())
}

} // verus!
