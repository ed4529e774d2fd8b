//! Projecting a repository into one portable descriptor.

use vstd::prelude::*;

use crate::codec::well_formed_doc;
use crate::codec::yaml_doc_enc;
use crate::codec::yaml_encode_doc;
use crate::error::Error;
use crate::remote::ReadRemote;
use crate::remote::WriteRemote;
use crate::repository::lock::distinct_names;
use crate::repository::lock::entries_map;
use crate::repository::lock::lock_enc;
use crate::repository::lock::Lock;
use crate::repository::settings::lemma_settings_pairs_distinct;
use crate::repository::settings::settings_pairs;
use crate::repository::settings::Settings;
use crate::repository::settings::SettingsView;
use crate::repository::standard_paths;
use crate::repository::RepositoryStructure;
use crate::volume::volume_fields;
use crate::volume::VolumeView;

verus! {

broadcast use vstd::string::group_string_axioms;

/// The portable descriptor: one document holding the default-suppressed
/// settings fields at top level, and the manifest attached under a
/// trailing `volumes` key.
pub open spec fn deployable_enc(s: SettingsView, es: Seq<VolumeView>) -> Seq<u8> {
    yaml_doc_enc(
        settings_pairs(s),
        "volumes"@,
        es.map_values(|v: VolumeView| (v.name, volume_fields(v))),
    )
}

/// A descriptor's parts always fit one document: the settings keys are
/// distinct and none of them is the `volumes` key, and a well-formed
/// manifest has distinct names with distinct fields.
pub proof fn lemma_deployable_well_formed(sv: SettingsView, es: Seq<VolumeView>)
    requires
        distinct_names(es),
    ensures
        well_formed_doc(
            settings_pairs(sv),
            "volumes"@,
            es.map_values(|v: VolumeView| (v.name, volume_fields(v))),
        ),
{
    lemma_settings_pairs_distinct(sv);
    reveal_strlit("version");
    reveal_strlit("oci_runtime");
    reveal_strlit("remote_uri");
    reveal_strlit("deployment_policy");
    reveal_strlit("volumes");
    assert("version"@.len() == 7 && "volumes"@.len() == 7);
    assert("version"@[1] == 'e' && "volumes"@[1] == 'o');
    assert("oci_runtime"@.len() == 11 && "remote_uri"@.len() == 10 && "deployment_policy"@.len()
        == 17);
    let mapped = es.map_values(|v: VolumeView| (v.name, volume_fields(v)));
    assert(forall|k: int| 0 <= k < es.len() ==> mapped[k].0 == (#[trigger] es[k]).name);
    assert forall|i: int| 0 <= i < mapped.len() implies crate::codec::distinct_pair_keys(
        (#[trigger] mapped[i]).1,
    ) by {
        crate::repository::lock::lemma_volume_fields_distinct(es[i]);
    }
}

/// Projects the settings and the committed manifest into one portable
/// descriptor, meant to be kept under external source control.
pub struct Generate<R: WriteRemote> {
    transport: R,
    settings: Settings,
}

impl<R: WriteRemote> Generate<R> {
    /// The transport the command works through.
    pub closed spec fn spec_transport(&self) -> R {
        self.transport
    }

    /// The settings the descriptor carries.
    pub closed spec fn spec_settings(&self) -> Settings {
        self.settings
    }

    pub fn new(transport: R, settings: Settings) -> (r: Generate<R>)
        ensures
            r.spec_transport() == transport,
            r.spec_settings() == settings,
    {
        Generate { transport, settings }
    }

    /// Hands the transport back once the command is done.
    pub fn into_transport(self) -> (r: R)
        ensures
            r == self.spec_transport(),
    {
        self.transport
    }

    /// Writes the descriptor: the settings fields, with the committed
    /// manifest attached under a `volumes` key.
    pub fn generate(&mut self) -> (r: Result<(), Error>)
        requires
            old(self).spec_transport().inv(),
        ensures
            final(self).spec_transport().inv(),
            final(self).spec_settings() == old(self).spec_settings(),
            r is Ok ==> old(self).spec_transport().state().files.contains_key(
                standard_paths().lock,
            ) && final(self).spec_transport().state().dirs == old(self).spec_transport().state().dirs,
            forall|es: Seq<VolumeView>|
                distinct_names(es) && old(self).spec_transport().state().files.contains_key(
                    standard_paths().lock,
                ) && old(self).spec_transport().state().files[standard_paths().lock]
                    == #[trigger] lock_enc(es) ==> (r matches Err(e) ==> e
                    matches Error::IOFailure(_)),
            r is Ok ==> forall|es: Seq<VolumeView>|
                distinct_names(es) && old(self).spec_transport().state().files[standard_paths().lock]
                    == #[trigger] lock_enc(es) ==> exists|es2: Seq<VolumeView>|
                    distinct_names(es2) && entries_map(es2) == entries_map(es) && final(self).spec_transport().state().files == old(self).spec_transport().state().files.insert(
                        standard_paths().volumetric,
                        deployable_enc(old(self).spec_settings()@, es2),
                    ),
    {
        let paths = RepositoryStructure::default();
        let lock_bytes = match self.transport.get_file(paths.get_lock()) {
            Ok(b) => b,
            Err(e) => {
                return Err(e);
            },
        };
        let lock = match Lock::load(&lock_bytes) {
            Ok(l) => l,
            Err(e) => {
                return Err(e);
            },
        };
        let flat = self.settings.to_pairs();
        let nested = lock.to_doc_entries();
        proof {
            lock.lemma_entries_distinct();
            lemma_deployable_well_formed(self.spec_settings()@, lock.entries());
        }
        let bytes = yaml_encode_doc(&flat, "volumes", &nested);
        match self.transport.put_file(paths.get_volumetric(), bytes.as_slice()) {
            Ok(_) => {
                proof {
                    lock.lemma_view_entries();
                    assert forall|es: Seq<VolumeView>|
                        distinct_names(es) && old(self).spec_transport().state().files[standard_paths().lock]
                            == #[trigger] lock_enc(es) implies exists|es2: Seq<VolumeView>|
                        distinct_names(es2) && entries_map(es2) == entries_map(es)
                            && self.spec_transport().state().files == old(self).spec_transport().state().files.insert(
                            standard_paths().volumetric,
                            deployable_enc(old(self).spec_settings()@, es2),
                        ) by {
                        assert(lock@ == entries_map(es));
                        lock.lemma_entries_distinct();
                        assert(distinct_names(lock.entries()));
                        assert(entries_map(lock.entries()) == entries_map(es));
                        assert(bytes@ == deployable_enc(old(self).spec_settings()@, lock.entries()));
                        assert(self.spec_transport().state().files == old(self).spec_transport().state().files.insert(
                            standard_paths().volumetric,
                            deployable_enc(old(self).spec_settings()@, lock.entries()),
                        ));
                    }
                }
                Ok(())
            },
            Err(e) => Err(e),
        }
    }
}

} // verus!
