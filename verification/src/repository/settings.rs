//! The versioned configuration record of a repository, with its
//! default-suppressing persistence.

use vstd::prelude::*;

pub mod deployment_policy;

pub use deployment_policy::DeploymentPolicy;

use crate::codec::distinct_pair_keys;
use crate::codec::pairs_view;
use crate::codec::yaml_decode_map;
use crate::codec::yaml_encode_map;
use crate::codec::yaml_map_enc;
use crate::error::Error;
use crate::error::VariantError;
use crate::repository::settings::deployment_policy::lemma_policy_render_parses;
use crate::runtime::lemma_runtime_render_parses;
use crate::runtime::OciRuntimeType;
use crate::spec_repository_version;
use crate::strutil::lower_eq;
use crate::strutil::string_eq;

verus! {

broadcast use vstd::string::group_string_axioms;

/// The configuration of a repository: its format version, which runtime
/// manages local volumes, where the repository is reached remotely, and
/// what a deploy does to volumes that already exist.
#[derive(Debug, Clone, PartialEq)]
pub struct Settings {
    pub version: String,
    pub oci_runtime: OciRuntimeType,
    pub remote_uri: Option<String>,
    pub deployment_policy: DeploymentPolicy,
}

/// The mathematical value of a [`Settings`] record.
pub struct SettingsView {
    pub version: Seq<char>,
    pub oci_runtime: OciRuntimeType,
    pub remote_uri: Option<Seq<char>>,
    pub deployment_policy: DeploymentPolicy,
}

impl View for Settings {
    type V = SettingsView;

    open spec fn view(&self) -> SettingsView {
        SettingsView {
            version: self.version@,
            oci_runtime: self.oci_runtime,
            remote_uri: match self.remote_uri {
                Some(u) => Some(u@),
                None => None,
            },
            deployment_policy: self.deployment_policy,
        }
    }
}

/// The compiled-in default settings.
pub open spec fn spec_default_settings() -> SettingsView {
    SettingsView {
        version: spec_repository_version(),
        oci_runtime: OciRuntimeType::Docker,
        remote_uri: None,
        deployment_policy: DeploymentPolicy::NoOverwrite,
    }
}

impl Default for Settings {
    /// The compiled-in default settings.
    fn default() -> (r: Settings)
        ensures
            r@ == spec_default_settings(),
    {
        Settings {
            version: crate::repository_version().to_owned(),
            oci_runtime: OciRuntimeType::Docker,
            remote_uri: None,
            deployment_policy: DeploymentPolicy::NoOverwrite,
        }
    }
}

/// What one `set` step does: the settings it leaves behind, or nothing
/// when the key is unknown or the value names no variant. An absent
/// value resets the field to its default.
pub open spec fn apply_set(s: SettingsView, key: Seq<char>, value: Option<Seq<char>>) -> Option<
    SettingsView,
> {
    if key == "version"@ {
        Some(
            SettingsView {
                version: match value {
                    Some(v) => v,
                    None => spec_default_settings().version,
                },
                ..s
            },
        )
    } else if key == "oci_runtime"@ {
        match value {
            Some(v) => if lower_eq(v, "docker"@) {
                Some(SettingsView { oci_runtime: OciRuntimeType::Docker, ..s })
            } else if lower_eq(v, "podman"@) {
                Some(SettingsView { oci_runtime: OciRuntimeType::Podman, ..s })
            } else {
                None
            },
            None => Some(SettingsView { oci_runtime: spec_default_settings().oci_runtime, ..s }),
        }
    } else if key == "remote_uri"@ {
        Some(SettingsView { remote_uri: value, ..s })
    } else if key == "deployment_policy"@ {
        match value {
            Some(v) => if lower_eq(v, "overwrite"@) {
                Some(SettingsView { deployment_policy: DeploymentPolicy::Overwrite, ..s })
            } else if lower_eq(v, "donotoverwrite"@) {
                Some(SettingsView { deployment_policy: DeploymentPolicy::NoOverwrite, ..s })
            } else {
                None
            },
            None => Some(
                SettingsView { deployment_policy: spec_default_settings().deployment_policy, ..s },
            ),
        }
    } else {
        None
    }
}

/// How each field is rendered by `get`: an absent remote URI renders as
/// a tilde, enumerated fields render conventionally.
pub open spec fn render_field(s: SettingsView, key: Seq<char>) -> Option<Seq<char>> {
    if key == "version"@ {
        Some(s.version)
    } else if key == "oci_runtime"@ {
        Some(s.oci_runtime.spec_str())
    } else if key == "remote_uri"@ {
        Some(
            match s.remote_uri {
                Some(u) => u,
                None => "~"@,
            },
        )
    } else if key == "deployment_policy"@ {
        Some(s.deployment_policy.spec_str())
    } else {
        None
    }
}

/// Every field of the record, rendered, in the conventional order.
pub open spec fn all_fields(s: SettingsView) -> Seq<(Seq<char>, Seq<char>)> {
    seq![
        ("version"@, s.version),
        ("oci_runtime"@, s.oci_runtime.spec_str()),
        (
            "remote_uri"@,
            match s.remote_uri {
                Some(u) => u,
                None => "~"@,
            },
        ),
        ("deployment_policy"@, s.deployment_policy.spec_str()),
    ]
}

/// The persisted pairs of a settings record: the version always, every
/// other field only when it differs from the compiled-in default.
pub open spec fn settings_pairs(s: SettingsView) -> Seq<(Seq<char>, Seq<char>)> {
    seq![("version"@, s.version)] + (if s.oci_runtime == spec_default_settings().oci_runtime {
        Seq::empty()
    } else {
        seq![("oci_runtime"@, s.oci_runtime.spec_str())]
    }) + (match s.remote_uri {
        Some(u) => seq![("remote_uri"@, u)],
        None => Seq::empty(),
    }) + (if s.deployment_policy == spec_default_settings().deployment_policy {
        Seq::empty()
    } else {
        seq![("deployment_policy"@, s.deployment_policy.spec_str())]
    })
}

/// The document under which a settings record is persisted.
pub open spec fn settings_enc(s: SettingsView) -> Seq<u8> {
    yaml_map_enc(settings_pairs(s))
}

/// The result of applying persisted pairs in order, starting from some
/// settings record.
pub open spec fn apply_pairs(s: SettingsView, ps: Seq<(Seq<char>, Seq<char>)>) -> Option<
    SettingsView,
>
    decreases ps.len(),
{
    if ps.len() == 0 {
        Some(s)
    } else {
        match apply_pairs(s, ps.drop_last()) {
            Some(t) => apply_set(t, ps.last().0, Some(ps.last().1)),
            None => None,
        }
    }
}

/// Applying concatenated pairs is applying each part in turn.
proof fn lemma_apply_pairs_concat(s: SettingsView, a: Seq<(Seq<char>, Seq<char>)>, b: Seq<
    (Seq<char>, Seq<char>),
>)
    ensures
        apply_pairs(s, a + b) == (match apply_pairs(s, a) {
            Some(t) => apply_pairs(t, b),
            None => None::<SettingsView>,
        }),
    decreases b.len(),
{
    if b.len() == 0 {
        assert(a + b =~= a);
    } else {
        lemma_apply_pairs_concat(s, a, b.drop_last());
        assert((a + b).drop_last() =~= a + b.drop_last());
        assert((a + b).last() == b.last());
    }
}

/// Applying no pairs changes nothing.
proof fn lemma_apply_pairs_empty(s: SettingsView)
    ensures
        apply_pairs(s, Seq::empty()) == Some(s),
{
}

/// Applying a single pair is one `set` step.
proof fn lemma_apply_pairs_one(s: SettingsView, p: (Seq<char>, Seq<char>))
    ensures
        apply_pairs(s, seq![p]) == apply_set(s, p.0, Some(p.1)),
{
    assert(seq![p].drop_last() =~= Seq::<(Seq<char>, Seq<char>)>::empty());
    lemma_apply_pairs_empty(s);
    assert(seq![p].last() == p);
}

/// Once a prefix fails to apply, the whole sequence fails to apply.
proof fn lemma_apply_pairs_none_prefix(s: SettingsView, ps: Seq<(Seq<char>, Seq<char>)>, i: int)
    requires
        0 <= i <= ps.len(),
        apply_pairs(s, ps.take(i)) is None,
    ensures
        apply_pairs(s, ps) is None,
    decreases ps.len() - i,
{
    if i == ps.len() {
        assert(ps.take(i) =~= ps);
    } else {
        assert(ps.take(i + 1).drop_last() =~= ps.take(i));
        lemma_apply_pairs_none_prefix(s, ps, i + 1);
    }
}

/// The persisted keys are pairwise distinct.
pub proof fn lemma_settings_pairs_distinct(s: SettingsView)
    ensures
        distinct_pair_keys(settings_pairs(s)),
{
    reveal_strlit("version");
    reveal_strlit("oci_runtime");
    reveal_strlit("remote_uri");
    reveal_strlit("deployment_policy");
    assert("version"@.len() == 7 && "oci_runtime"@.len() == 11 && "remote_uri"@.len() == 10
        && "deployment_policy"@.len() == 17);
}

/// The law of the settings model: applying the persisted pairs of any
/// settings record to the compiled-in defaults restores the record
/// exactly.
pub proof fn lemma_settings_round_trip(s: SettingsView)
    ensures
        apply_pairs(spec_default_settings(), settings_pairs(s)) == Some(s),
{
    reveal_strlit("version");
    reveal_strlit("oci_runtime");
    reveal_strlit("remote_uri");
    reveal_strlit("deployment_policy");
    assert("version"@.len() == 7 && "oci_runtime"@.len() == 11 && "remote_uri"@.len() == 10
        && "deployment_policy"@.len() == 17);
    lemma_runtime_render_parses(s.oci_runtime);
    lemma_policy_render_parses();
    let d = spec_default_settings();
    let pv = seq![("version"@, s.version)];
    let po: Seq<(Seq<char>, Seq<char>)> = if s.oci_runtime == d.oci_runtime {
        Seq::empty()
    } else {
        seq![("oci_runtime"@, s.oci_runtime.spec_str())]
    };
    let pu: Seq<(Seq<char>, Seq<char>)> = match s.remote_uri {
        Some(u) => seq![("remote_uri"@, u)],
        None => Seq::empty(),
    };
    let pd: Seq<(Seq<char>, Seq<char>)> = if s.deployment_policy == d.deployment_policy {
        Seq::empty()
    } else {
        seq![("deployment_policy"@, s.deployment_policy.spec_str())]
    };
    let t1 = SettingsView { version: s.version, ..d };
    let t2 = SettingsView { oci_runtime: s.oci_runtime, ..t1 };
    let t3 = SettingsView { remote_uri: s.remote_uri, ..t2 };
    assert(apply_pairs(d, pv) == Some(t1)) by {
        lemma_apply_pairs_one(d, ("version"@, s.version));
    }
    assert(apply_pairs(t1, po) == Some(t2)) by {
        if s.oci_runtime != d.oci_runtime {
            lemma_apply_pairs_one(t1, ("oci_runtime"@, s.oci_runtime.spec_str()));
        } else {
            lemma_apply_pairs_empty(t1);
        }
    }
    assert(apply_pairs(t2, pu) == Some(t3)) by {
        match s.remote_uri {
            Some(u) => lemma_apply_pairs_one(t2, ("remote_uri"@, u)),
            None => lemma_apply_pairs_empty(t2),
        }
    }
    assert(apply_pairs(t3, pd) == Some(s)) by {
        if s.deployment_policy != d.deployment_policy {
            lemma_apply_pairs_one(t3, ("deployment_policy"@, s.deployment_policy.spec_str()));
        } else {
            lemma_apply_pairs_empty(t3);
        }
    }
    lemma_apply_pairs_concat(d, pv, po);
    lemma_apply_pairs_concat(d, pv + po, pu);
    lemma_apply_pairs_concat(d, pv + po + pu, pd);
    assert(settings_pairs(s) == pv + po + pu + pd);
}

impl Settings {
    /// Applies one field from a string, or resets it to its default;
    /// an unknown key or value leaves the record unchanged.
    pub fn set(&mut self, key: &str, value: Option<&str>) -> (r: Result<(), VariantError>)
        ensures
            match r {
                Ok(_) => apply_set(
                    old(self)@,
                    key@,
                    match value {
                        Some(v) => Some(v@),
                        None => None,
                    },
                ) == Some(final(self)@),
                Err(_) => final(self)@ == old(self)@ && apply_set(
                    old(self)@,
                    key@,
                    match value {
                        Some(v) => Some(v@),
                        None => None,
                    },
                ) is None,
            },
    {
        if string_eq(key, "version") {
            match value {
                Some(v) => {
                    self.version = v.to_owned();
                },
                None => {
                    self.version = crate::repository_version().to_owned();
                },
            }
            Ok(())
        } else if string_eq(key, "oci_runtime") {
            match value {
                Some(v) => match OciRuntimeType::try_from(v) {
                    Ok(t) => {
                        self.oci_runtime = t;
                        Ok(())
                    },
                    Err(e) => Err(e),
                },
                None => {
                    self.oci_runtime = OciRuntimeType::Docker;
                    Ok(())
                },
            }
        } else if string_eq(key, "remote_uri") {
            match value {
                Some(v) => {
                    self.remote_uri = Some(v.to_owned());
                },
                None => {
                    self.remote_uri = None;
                },
            }
            Ok(())
        } else if string_eq(key, "deployment_policy") {
            match value {
                Some(v) => match DeploymentPolicy::try_from(v) {
                    Ok(p) => {
                        self.deployment_policy = p;
                        Ok(())
                    },
                    Err(e) => Err(e),
                },
                None => {
                    self.deployment_policy = DeploymentPolicy::NoOverwrite;
                    Ok(())
                },
            }
        } else {
            Err(VariantError::new(key))
        }
    }

    /// Renders one field; an unknown key is a variant error carrying
    /// that key.
    pub fn get(&self, key: &str) -> (r: Result<String, VariantError>)
        ensures
            match r {
                Ok(v) => render_field(self@, key@) == Some(v@),
                Err(e) => render_field(self@, key@) is None && e.spec_variant() == key@,
            },
    {
        if string_eq(key, "version") {
            Ok(self.version.clone())
        } else if string_eq(key, "oci_runtime") {
            Ok(self.oci_runtime.as_str().to_owned())
        } else if string_eq(key, "remote_uri") {
            match &self.remote_uri {
                Some(u) => Ok(u.clone()),
                None => Ok("~".to_owned()),
            }
        } else if string_eq(key, "deployment_policy") {
            Ok(self.deployment_policy.as_str().to_owned())
        } else {
            Err(VariantError::new(key))
        }
    }

    /// Every field, rendered, in the conventional order.
    pub fn iter(&self) -> (r: Vec<(String, String)>)
        ensures
            pairs_view(r@) == all_fields(self@),
    {
        let mut out: Vec<(String, String)> = Vec::new();
        out.push(("version".to_owned(), self.version.clone()));
        out.push(("oci_runtime".to_owned(), self.oci_runtime.as_str().to_owned()));
        match &self.remote_uri {
            Some(u) => out.push(("remote_uri".to_owned(), u.clone())),
            None => out.push(("remote_uri".to_owned(), "~".to_owned())),
        }
        out.push(("deployment_policy".to_owned(), self.deployment_policy.as_str().to_owned()));
        proof {
            assert(pairs_view(out@) =~~= all_fields(self@));
        }
        out
    }

    /// The persisted pairs of the record: the version always, every
    /// other field only when it differs from its default.
    pub fn to_pairs(&self) -> (r: Vec<(String, String)>)
        ensures
            pairs_view(r@) == settings_pairs(self@),
    {
        let mut pairs: Vec<(String, String)> = Vec::new();
        pairs.push(("version".to_owned(), self.version.clone()));
        if self.oci_runtime != OciRuntimeType::Docker {
            pairs.push(("oci_runtime".to_owned(), self.oci_runtime.as_str().to_owned()));
        }
        match &self.remote_uri {
            Some(u) => pairs.push(("remote_uri".to_owned(), u.clone())),
            None => {},
        }
        if self.deployment_policy != DeploymentPolicy::NoOverwrite {
            pairs.push(("deployment_policy".to_owned(), self.deployment_policy.as_str().to_owned()));
        }
        proof {
            assert(pairs_view(pairs@) =~~= settings_pairs(self@));
        }
        pairs
    }

    /// Renders the record as its persisted document; rendering never
    /// fails.
    pub fn store(&self) -> (r: Result<Vec<u8>, Error>)
        ensures
            r matches Ok(b) && b@ == settings_enc(self@),
    {
        let pairs = self.to_pairs();
        proof {
            lemma_settings_pairs_distinct(self@);
        }
        Ok(yaml_encode_map(&pairs))
    }

    /// Applies persisted pairs to the compiled-in defaults, in order.
    pub fn from_pairs(pairs: &Vec<(String, String)>) -> (r: Result<Settings, Error>)
        ensures
            match r {
                Ok(out) => apply_pairs(spec_default_settings(), pairs_view(pairs@)) == Some(out@),
                Err(e) => apply_pairs(spec_default_settings(), pairs_view(pairs@)) is None && e
                    matches Error::Malformed(_),
            },
    {
        let mut out = Settings::default();
        let n = pairs.len();
        let mut i: usize = 0;
        proof {
            assert(pairs_view(pairs@).take(0) =~= Seq::<(Seq<char>, Seq<char>)>::empty());
        }
        while i < n
            invariant
                0 <= i <= n,
                n == pairs@.len(),
                apply_pairs(spec_default_settings(), pairs_view(pairs@).take(i as int)) == Some(
                    out@,
                ),
            decreases n - i,
        {
            let (key, value) = &pairs[i];
            match out.set(key.as_str(), Some(value.as_str())) {
                Ok(_) => {},
                Err(_) => {
                    proof {
                        assert(pairs_view(pairs@).take(i + 1).drop_last() =~= pairs_view(
                            pairs@,
                        ).take(i as int));
                        assert(pairs_view(pairs@)[i as int] == (pairs@[i as int].0@, pairs@[i as int].1@));
                        lemma_apply_pairs_none_prefix(
                            spec_default_settings(),
                            pairs_view(pairs@),
                            i + 1,
                        );
                    }
                    return Err(Error::Malformed(key.clone()));
                },
            }
            proof {
                assert(pairs_view(pairs@).take(i + 1).drop_last() =~= pairs_view(pairs@).take(
                    i as int,
                ));
                assert(pairs_view(pairs@)[i as int] == (pairs@[i as int].0@, pairs@[i as int].1@));
            }
            i += 1;
        }
        proof {
            assert(pairs_view(pairs@).take(n as int) =~= pairs_view(pairs@));
        }
        Ok(out)
    }

    /// Reads a record back from its persisted document: defaults first,
    /// then every key present applied in order; a document it cannot
    /// read is malformed.
    pub fn load(bytes: &Vec<u8>) -> (r: Result<Settings, Error>)
        ensures
            forall|s: SettingsView|
                bytes@ == #[trigger] settings_enc(s) ==> (r matches Ok(out) && out@ == s),
            r matches Err(e) ==> e matches Error::Malformed(_),
    {
        let pairs = match yaml_decode_map(bytes) {
            Ok(p) => p,
            Err(e) => {
                proof {
                    assert forall|s: SettingsView| bytes@ == #[trigger] settings_enc(s) implies false by {
                        lemma_settings_pairs_distinct(s);
                    }
                }
                return Err(e);
            },
        };
        proof {
            assert forall|s: SettingsView|
                bytes@ == #[trigger] settings_enc(s) implies pairs_view(pairs@) == settings_pairs(
                s,
            ) by {
                lemma_settings_pairs_distinct(s);
            }
        }
        let out = match Settings::from_pairs(&pairs) {
            Ok(out) => out,
            Err(e) => {
                proof {
                    assert forall|s: SettingsView| bytes@ == #[trigger] settings_enc(s) implies false by {
                        lemma_settings_round_trip(s);
                    }
                }
                return Err(e);
            },
        };
        proof {
            assert forall|s: SettingsView| bytes@ == #[trigger] settings_enc(s) implies out@ == s by {
                lemma_settings_round_trip(s);
            }
        }
        Ok(out)
    }
}

} // verus!
