//! Deploying a portable descriptor onto a container runtime.

use vstd::prelude::*;

use crate::archiver::Archiver;
use crate::codec::nested_view;
use crate::codec::pairs_view;
use crate::codec::yaml_decode_doc_head;
use crate::codec::yaml_decode_doc_section;
use crate::command::generate::deployable_enc;
use crate::command::generate::lemma_deployable_well_formed;
use crate::error::Error;
use crate::remote::ReadRemote;
use crate::repository::lock::distinct_names;
use crate::repository::lock::entries_map;
use crate::repository::lock::Lock;
use crate::repository::object_store::object_path;
use crate::repository::settings::DeploymentPolicy;
use crate::repository::settings::lemma_settings_round_trip;
use crate::repository::settings::settings_pairs;
use crate::repository::settings::Settings;
use crate::repository::settings::SettingsView;
use crate::repository::standard_paths;
use crate::repository::RepositoryStructure;
use crate::runtime::OciRuntime;
use crate::strutil::string_concat3;
use crate::strutil::string_eq;
use crate::volume::lemma_parse_volume_fields;
use crate::volume::volume_fields;
use crate::volume::Volume;
use crate::volume::VolumeView;

verus! {

broadcast use vstd::string::group_string_axioms;

/// The names a sequence of volume descriptors carries.
pub open spec fn names_of(es: Seq<VolumeView>) -> Set<Seq<char>>
    decreases es.len(),
{
    if es.len() == 0 {
        Set::empty()
    } else {
        names_of(es.drop_last()).insert(es.last().name)
    }
}

/// The unpacks a deploy performs, in manifest order: for each volume,
/// nothing when it already exists in the runtime and the policy forbids
/// overwriting; otherwise the object stored under the volume's digest,
/// handed to the archiver at the volume's host path. A volume with no
/// digest contributes nothing, because the deploy fails on it instead.
pub open spec fn expected_unpacks<O: OciRuntime>(
    o: &O,
    es: Seq<VolumeView>,
    rt: Set<Seq<char>>,
    files: Map<Seq<char>, Seq<u8>>,
    policy: DeploymentPolicy,
) -> Seq<(Seq<u8>, Seq<char>)>
    decreases es.len(),
{
    if es.len() == 0 {
        Seq::empty()
    } else {
        expected_unpacks(o, es.drop_last(), rt, files, policy) + (if rt.contains(es.last().name)
            && policy == DeploymentPolicy::NoOverwrite {
            Seq::empty()
        } else {
            match es.last().hash {
                Some(h) => seq![
                    (files[object_path(standard_paths().objects, h)], o.host_path_of(
                        es.last().name,
                    )),
                ],
                None => Seq::empty(),
            }
        })
    }
}

/// Restores volumes from a descriptor: reads each volume's archived
/// snapshot from the object store and asks the runtime and archiver to
/// materialize it.
pub struct Deploy<R: ReadRemote, O: OciRuntime, A: Archiver> {
    transport: R,
    runtime: O,
    archiver: A,
}

impl<R: ReadRemote, O: OciRuntime, A: Archiver> Deploy<R, O, A> {
    /// The transport the command works through.
    pub closed spec fn spec_transport(&self) -> R {
        self.transport
    }

    /// The runtime the volumes are restored into.
    pub closed spec fn spec_runtime(&self) -> O {
        self.runtime
    }

    /// The archiver that unpacks the snapshots.
    pub closed spec fn spec_archiver(&self) -> A {
        self.archiver
    }

    pub fn new(transport: R, runtime: O, archiver: A) -> (r: Deploy<R, O, A>)
        ensures
            r.spec_transport() == transport,
            r.spec_runtime() == runtime,
            r.spec_archiver() == archiver,
    {
        Deploy { transport, runtime, archiver }
    }

    /// Hands the transport, runtime and archiver back once the command
    /// is done.
    pub fn into_parts(self) -> (r: (R, O, A))
        ensures
            r.0 == self.spec_transport(),
            r.1 == self.spec_runtime(),
            r.2 == self.spec_archiver(),
    {
        let Deploy { transport, runtime, archiver } = self;
        (transport, runtime, archiver)
    }

    /// Restores every volume of a manifest under a deployment policy.
    ///
    /// Where a volume already exists in the runtime, the policy decides:
    /// under `Overwrite` it is removed and recreated before restoring;
    /// under `NoOverwrite` it is left entirely untouched, and no unpack
    /// occurs for it. A failure on one volume aborts the remaining loop:
    /// the volumes already handled stay deployed, the unpack history has
    /// grown by exactly the expected prefix, and no volume outside the
    /// manifest is created or removed. A run that skips every volume
    /// mutates nothing at all.
    pub fn deploy_volumes(&mut self, lock: &Lock, policy: DeploymentPolicy) -> (r: Result<
        (),
        Error,
    >)
        requires
            old(self).spec_transport().inv(),
            lock.wf(),
        ensures
            final(self).spec_transport() == old(self).spec_transport(),
            final(self).spec_archiver().packs() == old(self).spec_archiver().packs(),
            forall|n: Seq<char>|
                final(self).spec_runtime().host_path_of(n) == old(self).spec_runtime().host_path_of(
                    n,
                ),
            r is Ok ==> final(self).spec_archiver().unpacks() == old(self).spec_archiver().unpacks() + expected_unpacks(
                &old(self).spec_runtime(),
                lock.entries(),
                old(self).spec_runtime().volumes(),
                old(self).spec_transport().state().files,
                policy,
            ),
            r is Ok ==> final(self).spec_runtime().volumes() == old(self).spec_runtime().volumes().union(lock@.dom()),
            (policy == DeploymentPolicy::NoOverwrite && forall|n: Seq<char>|
                lock@.dom().contains(n) ==> old(self).spec_runtime().volumes().contains(n))
                ==> final(self).spec_runtime() == old(self).spec_runtime() && final(self).spec_archiver().unpacks() == old(self).spec_archiver().unpacks(),
            r is Err ==> exists|j: int|
                #![trigger lock.entries().take(j)]
                0 <= j <= lock.entries().len() && final(self).spec_archiver().unpacks() == old(self).spec_archiver().unpacks() + expected_unpacks(
                    &old(self).spec_runtime(),
                    lock.entries().take(j),
                    old(self).spec_runtime().volumes(),
                    old(self).spec_transport().state().files,
                    policy,
                ) && (final(self).spec_runtime().volumes() == old(self).spec_runtime().volumes().union(names_of(lock.entries().take(j))) || (j
                    < lock.entries().len() && (final(self).spec_runtime().volumes() == old(self).spec_runtime().volumes().union(names_of(lock.entries().take(j))).remove(
                    lock.entries()[j].name,
                ) || final(self).spec_runtime().volumes() == old(self).spec_runtime().volumes().union(names_of(lock.entries().take(j))).insert(
                    lock.entries()[j].name,
                )))),
            r is Err ==> forall|m: Seq<char>|
                #![trigger final(self).spec_runtime().volumes().contains(m)]
                (final(self).spec_runtime().volumes().contains(m) ==> old(self).spec_runtime().volumes().contains(m) || lock@.dom().contains(m)) && (old(self).spec_runtime().volumes().contains(m) && !lock@.dom().contains(m) ==> final(self).spec_runtime().volumes().contains(m)),
    {
        let paths = RepositoryStructure::default();
        let ghost o0 = old(self).spec_runtime();
        let ghost rt0 = old(self).spec_runtime().volumes();
        let ghost files = old(self).spec_transport().state().files;
        let ghost skip_all = policy == DeploymentPolicy::NoOverwrite && forall|n: Seq<char>|
            lock@.dom().contains(n) ==> rt0.contains(n);
        proof {
            lock.lemma_entries_distinct();
            assert(lock.entries().take(0) =~= Seq::<VolumeView>::empty());
            assert(self.spec_runtime().volumes() =~= rt0.union(names_of(lock.entries().take(0))));
        }
        let n = lock.len();
        let mut i: usize = 0;
        while i < n
            invariant
                0 <= i <= n,
                n == lock.entries().len(),
                lock.wf(),
                paths@ == standard_paths(),
                forall|i2: int, j2: int|
                    0 <= i2 < j2 < lock.entries().len() ==> (#[trigger] lock.entries()[i2]).name
                        != (#[trigger] lock.entries()[j2]).name,
                self.spec_transport() == old(self).spec_transport(),
                self.spec_transport().inv(),
                self.spec_archiver().packs() == old(self).spec_archiver().packs(),
                o0 == old(self).spec_runtime(),
                rt0 == o0.volumes(),
                files == old(self).spec_transport().state().files,
                forall|m: Seq<char>| self.spec_runtime().host_path_of(m) == o0.host_path_of(m),
                self.spec_archiver().unpacks() == old(self).spec_archiver().unpacks()
                    + expected_unpacks(&o0, lock.entries().take(i as int), rt0, files, policy),
                self.spec_runtime().volumes() == rt0.union(names_of(lock.entries().take(i as int))),
                skip_all == (policy == DeploymentPolicy::NoOverwrite && forall|m: Seq<char>|
                    lock@.dom().contains(m) ==> rt0.contains(m)),
                skip_all ==> self.spec_runtime() == old(self).spec_runtime()
                    && self.spec_archiver().unpacks() == old(self).spec_archiver().unpacks(),
            decreases n - i,
        {
            let v = lock.index(i);
            let name = v.get_name();
            proof {
                lock.lemma_entries_in_map(i as int);
                assert(lock@.dom().contains(lock.entries()[i as int].name));
                assert forall|m: Seq<char>|
                    names_of(lock.entries().take(i as int)).contains(m) implies exists|k: int|
                    0 <= k < i && (#[trigger] lock.entries()[k]).name == m by {
                    lemma_names_of_contains(lock.entries().take(i as int), m);
                }
                assert(!names_of(lock.entries().take(i as int)).contains(
                    lock.entries()[i as int].name,
                ));
                assert(lock.entries().take(i + 1).drop_last() =~= lock.entries().take(i as int));
            }
            let exists_now = match self.runtime.volume_exists(name) {
                Ok(b) => b,
                Err(e) => {
                    proof {
                        lemma_names_in_dom(lock, i as int);
                    }
                    return Err(e);
                },
            };
            proof {
                assert(exists_now == rt0.union(names_of(lock.entries().take(i as int))).contains(
                    lock.entries()[i as int].name,
                ));
                assert(exists_now == rt0.contains(lock.entries()[i as int].name));
            }
            if exists_now && policy == DeploymentPolicy::NoOverwrite {
                proof {
                    assert(self.spec_archiver().unpacks() == old(self).spec_archiver().unpacks()
                        + expected_unpacks(
                        &o0,
                        lock.entries().take(i + 1),
                        rt0,
                        files,
                        policy,
                    )) by {
                        assert(expected_unpacks(&o0, lock.entries().take(i + 1), rt0, files, policy)
                            =~= expected_unpacks(
                            &o0,
                            lock.entries().take(i as int),
                            rt0,
                            files,
                            policy,
                        ));
                    }
                    assert(self.spec_runtime().volumes() =~= rt0.union(
                        names_of(lock.entries().take(i + 1)),
                    ));
                }
                i += 1;
            } else {
                proof {
                    if skip_all {
                        assert(rt0.contains(lock.entries()[i as int].name));
                        assert(false);
                    }
                }
                if exists_now {
                    match self.runtime.remove_volume(name) {
                        Ok(_) => {},
                        Err(e) => {
                            proof {
                                lemma_names_in_dom(lock, i as int);
                            }
                            return Err(e);
                        },
                    }
                }
                match self.runtime.create_volume(name) {
                    Ok(_) => {},
                    Err(e) => {
                        proof {
                            lemma_names_in_dom(lock, i as int);
                            assert(self.spec_runtime().volumes() == rt0.union(
                                names_of(lock.entries().take(i as int)),
                            ) || self.spec_runtime().volumes() == rt0.union(
                                names_of(lock.entries().take(i as int)),
                            ).remove(lock.entries()[i as int].name));
                        }
                        return Err(e);
                    },
                }
                proof {
                    lemma_names_in_dom(lock, i as int);
                    assert(self.spec_runtime().volumes() =~= rt0.union(
                        names_of(lock.entries().take(i as int)),
                    ).insert(lock.entries()[i as int].name));
                }
                let host = match self.runtime.get_volume_host_path(name) {
                    Ok(h) => h,
                    Err(e) => {
                        return Err(e);
                    },
                };
                let hash = match v.get_hash() {
                    Some(h) => h.clone(),
                    None => {
                        return Err(Error::Malformed(name.to_owned()));
                    },
                };
                let obj = string_concat3(paths.get_objects(), "/", hash.as_str());
                let data = match self.transport.get_file(obj.as_str()) {
                    Ok(d) => d,
                    Err(e) => {
                        return Err(e);
                    },
                };
                match self.archiver.unpack(&data, host.as_str()) {
                    Ok(_) => {},
                    Err(e) => {
                        return Err(e);
                    },
                }
                proof {
                    assert(data@ == files[object_path(standard_paths().objects, hash@)]);
                    assert(lock.entries()[i as int].hash == Some(hash@));
                    assert(host@ == o0.host_path_of(lock.entries()[i as int].name));
                    assert(self.spec_archiver().unpacks() == old(self).spec_archiver().unpacks()
                        + expected_unpacks(
                        &o0,
                        lock.entries().take(i + 1),
                        rt0,
                        files,
                        policy,
                    )) by {
                        assert(expected_unpacks(&o0, lock.entries().take(i + 1), rt0, files, policy)
                            =~= expected_unpacks(
                            &o0,
                            lock.entries().take(i as int),
                            rt0,
                            files,
                            policy,
                        ).push((data@, host@)));
                    }
                    assert(self.spec_runtime().volumes() =~= rt0.union(
                        names_of(lock.entries().take(i + 1)),
                    ));
                }
                i += 1;
            }
        }
        proof {
            assert(lock.entries().take(n as int) =~= lock.entries());
            assert(names_of(lock.entries()) =~= lock@.dom()) by {
                lock.lemma_entries_distinct();
                assert forall|m: Seq<char>|
                    names_of(lock.entries()).contains(m) implies lock@.dom().contains(m) by {
                    lemma_names_of_contains(lock.entries(), m);
                    let k = choose|k: int|
                        0 <= k < lock.entries().len() && (#[trigger] lock.entries()[k]).name == m;
                    lock.lemma_entries_in_map(k);
                }
                assert forall|m: Seq<char>|
                    lock@.dom().contains(m) implies names_of(lock.entries()).contains(m) by {
                    lock.lemma_map_in_entries(m);
                    lemma_names_of_contains(lock.entries(), m);
                }
            }
        }
        Ok(())
    }

    /// Reads a descriptor back into its settings and its manifest.
    ///
    /// A descriptor written by `generate` from settings `sv` and volumes
    /// `es` reads back to exactly `sv` and the manifest of `es`; any
    /// document without well-formed settings fields, a trailing
    /// `volumes` section and readable volume entries is refused.
    pub fn read_configuration(bytes: &Vec<u8>) -> (r: Result<(Settings, Lock), Error>)
        ensures
            r matches Ok(out) ==> out.1.wf(),
            forall|sv: SettingsView, es: Seq<VolumeView>|
                distinct_names(es) && bytes@ == #[trigger] deployable_enc(sv, es) ==> (r
                    matches Ok(out) && out.0@ == sv && out.1@ == entries_map(es)),
    {
        let (flat, section) = match yaml_decode_doc_head(bytes) {
            Ok(x) => x,
            Err(e) => {
                proof {
                    assert forall|sv: SettingsView, es: Seq<VolumeView>|
                        distinct_names(es) && bytes@ == #[trigger] deployable_enc(
                            sv,
                            es,
                        ) implies false by {
                        lemma_deployable_well_formed(sv, es);
                    }
                }
                return Err(e);
            },
        };
        proof {
            assert forall|sv: SettingsView, es: Seq<VolumeView>|
                distinct_names(es) && bytes@ == #[trigger] deployable_enc(sv, es) implies pairs_view(
                flat@,
            ) == settings_pairs(sv) && section@ == "volumes"@ by {
                lemma_deployable_well_formed(sv, es);
            }
        }
        if !string_eq(section.as_str(), "volumes") {
            return Err(Error::Malformed(section));
        }
        let settings = match Settings::from_pairs(&flat) {
            Ok(s) => s,
            Err(e) => {
                proof {
                    assert forall|sv: SettingsView, es: Seq<VolumeView>|
                        distinct_names(es) && bytes@ == #[trigger] deployable_enc(
                            sv,
                            es,
                        ) implies false by {
                        lemma_settings_round_trip(sv);
                    }
                }
                return Err(e);
            },
        };
        let entries = match yaml_decode_doc_section(bytes) {
            Ok(x) => x,
            Err(e) => {
                proof {
                    assert forall|sv: SettingsView, es: Seq<VolumeView>|
                        distinct_names(es) && bytes@ == #[trigger] deployable_enc(
                            sv,
                            es,
                        ) implies false by {
                        lemma_deployable_well_formed(sv, es);
                    }
                }
                return Err(e);
            },
        };
        proof {
            assert forall|sv: SettingsView, es: Seq<VolumeView>|
                distinct_names(es) && bytes@ == #[trigger] deployable_enc(sv, es) implies nested_view(
                entries@,
            ) == es.map_values(|v: VolumeView| (v.name, volume_fields(v))) && entries@.len()
                == es.len() by {
                lemma_deployable_well_formed(sv, es);
                assert(nested_view(entries@).len() == entries@.len());
            }
        }
        let mut lock = Lock::default();
        let n = entries.len();
        let mut i: usize = 0;
        proof {
            assert forall|sv: SettingsView, es: Seq<VolumeView>|
                distinct_names(es) && bytes@ == #[trigger] deployable_enc(sv, es) implies lock@
                == entries_map(es.take(0)) by {
                assert(es.take(0) =~= Seq::<VolumeView>::empty());
            }
        }
        while i < n
            invariant
                0 <= i <= n,
                n == entries@.len(),
                lock.wf(),
                forall|sv: SettingsView, es: Seq<VolumeView>|
                    distinct_names(es) && bytes@ == #[trigger] deployable_enc(sv, es) ==> {
                        &&& nested_view(entries@) == es.map_values(
                            |v: VolumeView| (v.name, volume_fields(v)),
                        )
                        &&& es.len() == n
                        &&& lock@ == entries_map(es.take(i as int))
                    },
            decreases n - i,
        {
            let (name, fields) = &entries[i];
            let v = match Volume::from_fields(name.as_str(), fields) {
                Ok(v) => v,
                Err(e) => {
                    proof {
                        assert forall|sv: SettingsView, es: Seq<VolumeView>|
                            distinct_names(es) && bytes@ == #[trigger] deployable_enc(
                                sv,
                                es,
                            ) implies false by {
                            assert(nested_view(entries@)[i as int] == (
                                entries@[i as int].0@,
                                pairs_view(entries@[i as int].1@),
                            ));
                            assert(es.map_values(|v: VolumeView| (v.name, volume_fields(v)))[
                                i as int
                            ] == (es[i as int].name, volume_fields(es[i as int])));
                            lemma_parse_volume_fields(es[i as int]);
                        }
                    }
                    return Err(e);
                },
            };
            let ghost prev_lock = lock@;
            let _ = lock.add_volume(v);
            proof {
                assert forall|sv: SettingsView, es: Seq<VolumeView>|
                    distinct_names(es) && bytes@ == #[trigger] deployable_enc(sv, es) implies lock@
                    == entries_map(es.take(i + 1)) by {
                    assert(nested_view(entries@)[i as int] == (
                        entries@[i as int].0@,
                        pairs_view(entries@[i as int].1@),
                    ));
                    assert(es.map_values(|v: VolumeView| (v.name, volume_fields(v)))[i as int]
                        == (es[i as int].name, volume_fields(es[i as int])));
                    lemma_parse_volume_fields(es[i as int]);
                    assert(v@ == es[i as int]);
                    assert(es.take(i + 1).drop_last() =~= es.take(i as int));
                    assert(lock@ == entries_map(es.take(i + 1)));
                }
            }
            i += 1;
        }
        proof {
            assert forall|sv: SettingsView, es: Seq<VolumeView>|
                distinct_names(es) && bytes@ == #[trigger] deployable_enc(sv, es) implies settings@
                == sv && lock@ == entries_map(es) by {
                lemma_settings_round_trip(sv);
                assert(es.take(n as int) =~= es);
            }
        }
        Ok((settings, lock))
    }

    /// Reads a descriptor and deploys every volume it names under the
    /// descriptor's deployment policy.
    pub fn deploy(&mut self, configuration: &str) -> (r: Result<(), Error>)
        requires
            old(self).spec_transport().inv(),
        ensures
            final(self).spec_transport() == old(self).spec_transport(),
            final(self).spec_archiver().packs() == old(self).spec_archiver().packs(),
            forall|n: Seq<char>|
                final(self).spec_runtime().host_path_of(n) == old(self).spec_runtime().host_path_of(
                    n,
                ),
            r is Ok ==> forall|sv: SettingsView, es: Seq<VolumeView>|
                distinct_names(es)
                    && old(self).spec_transport().state().files.contains_key(configuration@)
                    && old(self).spec_transport().state().files[configuration@]
                    == #[trigger] deployable_enc(sv, es) ==> exists|es2: Seq<VolumeView>|
                    distinct_names(es2) && entries_map(es2) == entries_map(es) && final(self).spec_archiver().unpacks() == old(self).spec_archiver().unpacks()
                        + expected_unpacks(
                        &old(self).spec_runtime(),
                        es2,
                        old(self).spec_runtime().volumes(),
                        old(self).spec_transport().state().files,
                        sv.deployment_policy,
                    ) && final(self).spec_runtime().volumes() == old(self).spec_runtime().volumes().union(entries_map(es).dom()),
            forall|sv: SettingsView, es: Seq<VolumeView>|
                distinct_names(es)
                    && old(self).spec_transport().state().files.contains_key(configuration@)
                    && old(self).spec_transport().state().files[configuration@]
                    == #[trigger] deployable_enc(sv, es) ==> {
                    &&& (sv.deployment_policy == DeploymentPolicy::NoOverwrite && (forall|
                        n: Seq<char>,
                    |
                        entries_map(es).dom().contains(n) ==> old(
                            self,
                        ).spec_runtime().volumes().contains(n)) ==> final(self).spec_runtime()
                        == old(self).spec_runtime() && final(self).spec_archiver().unpacks()
                        == old(self).spec_archiver().unpacks())
                    &&& (r is Err ==> forall|m: Seq<char>|
                        #![trigger final(self).spec_runtime().volumes().contains(m)]
                        (final(self).spec_runtime().volumes().contains(m) ==> old(
                            self,
                        ).spec_runtime().volumes().contains(m) || entries_map(es).dom().contains(
                            m,
                        )) && (old(self).spec_runtime().volumes().contains(m) && !entries_map(
                            es,
                        ).dom().contains(m) ==> final(self).spec_runtime().volumes().contains(m)))
                    &&& (r is Err ==> exists|es2: Seq<VolumeView>, j: int|
                        #![trigger es2.take(j)]
                        distinct_names(es2) && entries_map(es2) == entries_map(es) && 0 <= j
                            <= es2.len() && final(self).spec_archiver().unpacks() == old(
                            self,
                        ).spec_archiver().unpacks() + expected_unpacks(
                            &old(self).spec_runtime(),
                            es2.take(j),
                            old(self).spec_runtime().volumes(),
                            old(self).spec_transport().state().files,
                            sv.deployment_policy,
                        ) && (final(self).spec_runtime().volumes() == old(
                            self,
                        ).spec_runtime().volumes().union(names_of(es2.take(j))) || (j < es2.len()
                            && (final(self).spec_runtime().volumes() == old(
                            self,
                        ).spec_runtime().volumes().union(names_of(es2.take(j))).remove(
                            es2[j].name,
                        ) || final(self).spec_runtime().volumes() == old(
                            self,
                        ).spec_runtime().volumes().union(names_of(es2.take(j))).insert(
                            es2[j].name,
                        )))))
                },
    {
        let bytes = match self.transport.get_file(configuration) {
            Ok(b) => b,
            Err(e) => {
                proof {
                    assert forall|sv: SettingsView, es: Seq<VolumeView>|
                        distinct_names(es)
                            && old(self).spec_transport().state().files.contains_key(
                            configuration@,
                        ) && old(self).spec_transport().state().files[configuration@]
                            == #[trigger] deployable_enc(sv, es) implies (es.take(0)
                        == es.take(0)) && self.spec_archiver().unpacks() == old(
                        self,
                    ).spec_archiver().unpacks() + expected_unpacks(
                        &old(self).spec_runtime(),
                        es.take(0),
                        old(self).spec_runtime().volumes(),
                        old(self).spec_transport().state().files,
                        sv.deployment_policy,
                    ) && self.spec_runtime().volumes() == old(
                        self,
                    ).spec_runtime().volumes().union(names_of(es.take(0))) by {
                        assert(es.take(0) =~= Seq::<VolumeView>::empty());
                        assert(names_of(es.take(0)) =~= Set::<Seq<char>>::empty());
                        assert(self.spec_runtime().volumes() =~= old(
                            self,
                        ).spec_runtime().volumes().union(names_of(es.take(0))));
                        assert(self.spec_archiver().unpacks() =~= old(
                            self,
                        ).spec_archiver().unpacks() + expected_unpacks(
                            &old(self).spec_runtime(),
                            es.take(0),
                            old(self).spec_runtime().volumes(),
                            old(self).spec_transport().state().files,
                            sv.deployment_policy,
                        ));
                    }
                }
                return Err(e);
            },
        };
        let (settings, lock) = match Self::read_configuration(&bytes) {
            Ok(out) => out,
            Err(e) => {
                proof {
                    assert forall|sv: SettingsView, es: Seq<VolumeView>|
                        distinct_names(es)
                            && old(self).spec_transport().state().files.contains_key(
                            configuration@,
                        ) && old(self).spec_transport().state().files[configuration@]
                            == #[trigger] deployable_enc(sv, es) implies false by {
                        assert(bytes@ == deployable_enc(sv, es));
                    }
                }
                return Err(e);
            },
        };
        let policy = settings.deployment_policy;
        let result = self.deploy_volumes(&lock, policy);
        proof {
            lock.lemma_entries_distinct();
            lock.lemma_view_entries();
            assert forall|sv: SettingsView, es: Seq<VolumeView>|
                distinct_names(es)
                    && old(self).spec_transport().state().files.contains_key(configuration@)
                    && old(self).spec_transport().state().files[configuration@]
                    == #[trigger] deployable_enc(sv, es) && result is Err implies exists|
                es2: Seq<VolumeView>,
                j: int,
            |
                #![trigger es2.take(j)]
                distinct_names(es2) && entries_map(es2) == entries_map(es) && 0 <= j <= es2.len()
                    && self.spec_archiver().unpacks() == old(self).spec_archiver().unpacks()
                    + expected_unpacks(
                    &old(self).spec_runtime(),
                    es2.take(j),
                    old(self).spec_runtime().volumes(),
                    old(self).spec_transport().state().files,
                    sv.deployment_policy,
                ) && (self.spec_runtime().volumes() == old(self).spec_runtime().volumes().union(
                    names_of(es2.take(j)),
                ) || (j < es2.len() && (self.spec_runtime().volumes() == old(
                    self,
                ).spec_runtime().volumes().union(names_of(es2.take(j))).remove(es2[j].name)
                    || self.spec_runtime().volumes() == old(self).spec_runtime().volumes().union(
                    names_of(es2.take(j)),
                ).insert(es2[j].name)))) by {
                assert(bytes@ == deployable_enc(sv, es));
                assert(settings@ == sv && lock@ == entries_map(es));
                let j = choose|j: int|
                    0 <= j <= lock.entries().len() && self.spec_archiver().unpacks() == old(
                        self,
                    ).spec_archiver().unpacks() + expected_unpacks(
                        &old(self).spec_runtime(),
                        #[trigger] lock.entries().take(j),
                        old(self).spec_runtime().volumes(),
                        old(self).spec_transport().state().files,
                        policy,
                    ) && (self.spec_runtime().volumes() == old(
                        self,
                    ).spec_runtime().volumes().union(names_of(lock.entries().take(j))) || (j
                        < lock.entries().len() && (self.spec_runtime().volumes() == old(
                        self,
                    ).spec_runtime().volumes().union(names_of(lock.entries().take(j))).remove(
                        lock.entries()[j].name,
                    ) || self.spec_runtime().volumes() == old(
                        self,
                    ).spec_runtime().volumes().union(names_of(lock.entries().take(j))).insert(
                        lock.entries()[j].name,
                    ))));
                assert(lock.entries().take(j) == lock.entries().take(j));
            }
        }
        result
    }
}

/// Every name among a manifest prefix's names is in the manifest's
/// mapping.
proof fn lemma_names_in_dom(lock: &Lock, i: int)
    requires
        lock.wf(),
        0 <= i <= lock.entries().len(),
    ensures
        forall|m: Seq<char>|
            names_of(lock.entries().take(i)).contains(m) ==> lock@.dom().contains(m),
{
    assert forall|m: Seq<char>|
        names_of(lock.entries().take(i)).contains(m) implies lock@.dom().contains(m) by {
        lemma_names_of_contains(lock.entries().take(i), m);
        let k = choose|k: int|
            0 <= k < lock.entries().take(i).len() && (#[trigger] lock.entries().take(i)[k]).name
                == m;
        lock.lemma_entries_in_map(k);
    }
}

/// A name is among a descriptor sequence's names exactly when some
/// descriptor carries it.
proof fn lemma_names_of_contains(es: Seq<VolumeView>, m: Seq<char>)
    ensures
        names_of(es).contains(m) <==> exists|k: int| 0 <= k < es.len() && (#[trigger] es[k]).name
            == m,
    decreases es.len(),
{
    if es.len() > 0 {
        lemma_names_of_contains(es.drop_last(), m);
        if names_of(es).contains(m) && es.last().name != m {
            let k = choose|k: int|
                0 <= k < es.drop_last().len() && (#[trigger] es.drop_last()[k]).name == m;
            assert(es[k].name == m);
        }
        if exists|k: int| 0 <= k < es.len() && (#[trigger] es[k]).name == m {
            let k = choose|k: int| 0 <= k < es.len() && (#[trigger] es[k]).name == m;
            if k < es.len() - 1 {
                assert(es.drop_last()[k].name == m);
            }
        }
    }
}

} // verus!
