//! Tracking a volume whose snapshot is hosted elsewhere.

use vstd::prelude::*;

use crate::command::add::stage_volume;
use crate::command::add::staged_source;
use crate::error::Error;
use crate::remote::ReadRemote;
use crate::remote::WriteRemote;
use crate::repository::lock::distinct_names;
use crate::repository::lock::entries_map;
use crate::repository::lock::lock_enc;
use crate::repository::settings::Settings;
use crate::repository::stage::Stage;
use crate::repository::standard_paths;
use crate::volume::SchemeView;
use crate::volume::Volume;
use crate::volume::VolumeView;

verus! {

/// Records an externally hosted volume in the repository's staging
/// manifest; its digest is supplied by the caller rather than computed
/// locally. On every outcome, nothing but the staging manifest changes.
pub fn stage_external<R: WriteRemote>(
    transport: &mut R,
    volume: &str,
    hash: &str,
    uri: &str,
) -> (r: Result<(), Error>)
    requires
        old(transport).inv(),
    ensures
        final(transport).inv(),
        final(transport).state().dirs == old(transport).state().dirs,
        forall|q: Seq<char>|
            #![trigger old(transport).state().files.contains_key(q)]
            #![trigger final(transport).state().files.contains_key(q)]
            q != standard_paths().stage.lock ==> (final(transport).state().files.contains_key(q)
                <==> old(transport).state().files.contains_key(q)) && (old(
                transport,
            ).state().files.contains_key(q) ==> final(transport).state().files[q] == old(
                transport,
            ).state().files[q]),
        r is Ok ==> final(transport).state().files.contains_key(standard_paths().stage.lock),
        r is Ok ==> forall|es: Seq<VolumeView>|
            distinct_names(es) && staged_source(old(transport).state().files)
                == #[trigger] lock_enc(es) ==> exists|es2: Seq<VolumeView>|
                distinct_names(es2) && entries_map(es2) == entries_map(es).insert(
                    volume@,
                    VolumeView {
                        name: volume@,
                        hash: Some(hash@),
                        scheme: SchemeView::External(uri@),
                    },
                ) && final(transport).state().files[standard_paths().stage.lock] == lock_enc(es2),
{
    let v = Volume::external(volume, hash, uri);
    stage_volume(transport, v)
}

/// Records an externally hosted volume in an in-memory staging area.
pub struct External<R: WriteRemote> {
    transport: R,
    stage: Stage,
    settings: Settings,
}

impl<R: WriteRemote> External<R> {
    /// The staging area the command accumulates into.
    pub closed spec fn spec_stage(&self) -> Stage {
        self.stage
    }

    /// The transport the command holds; `add` never touches it.
    pub closed spec fn spec_transport(&self) -> R {
        self.transport
    }

    pub fn new(transport: R, stage: Stage, settings: Settings) -> (r: External<R>)
        ensures
            r.spec_stage() == stage,
            r.spec_transport() == transport,
    {
        External { transport, stage, settings }
    }

    /// Hands the staging area back once the command is done.
    pub fn into_stage(self) -> (r: Stage)
        ensures
            r == self.spec_stage(),
    {
        self.stage
    }

    /// Stages an external volume under its caller-supplied digest.
    pub fn add(&mut self, volume: &str, hash: &str, uri: &str) -> (r: Result<(), Error>)
        requires
            old(self).spec_stage().wf(),
        ensures
            r is Ok,
            final(self).spec_transport() == old(self).spec_transport(),
            final(self).spec_stage().wf(),
            final(self).spec_stage().manifest() == old(self).spec_stage().manifest().insert(
                volume@,
                VolumeView { name: volume@, hash: Some(hash@), scheme: SchemeView::External(uri@) },
            ),
    {
        let v = Volume::external(volume, hash, uri);
        self.stage.add_volume(v)
    }
}

} // verus!
