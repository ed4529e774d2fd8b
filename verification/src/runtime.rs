//! Container-runtime capabilities consumed by the engine.

use vstd::prelude::*;

use crate::error::Error;
use crate::error::VariantError;
use crate::strutil::eq_ignore_case;
use crate::strutil::lower_char_eq;
use crate::strutil::lower_eq;
use crate::strutil::string_concat;
use crate::strutil::string_eq;

verus! {

/// Which container runtime manages the local volumes.
#[derive(Clone, Copy, Debug, PartialEq, Eq, Structural)]
pub enum OciRuntimeType {
    Docker,
    Podman,
}

impl OciRuntimeType {
    /// Reads a runtime kind from its name, ignoring ASCII case.
    pub fn try_from(value: &str) -> (r: Result<OciRuntimeType, VariantError>)
        ensures
            match r {
                Ok(OciRuntimeType::Docker) => lower_eq(value@, "docker"@),
                Ok(OciRuntimeType::Podman) => lower_eq(value@, "podman"@) && !lower_eq(
                    value@,
                    "docker"@,
                ),
                Err(e) => !lower_eq(value@, "docker"@) && !lower_eq(value@, "podman"@)
                    && e.spec_variant() == value@,
            },
    {
        if eq_ignore_case(value, "docker") {
            Ok(OciRuntimeType::Docker)
        } else if eq_ignore_case(value, "podman") {
            Ok(OciRuntimeType::Podman)
        } else {
            Err(VariantError::new(value))
        }
    }

    /// The conventional rendering of the runtime kind.
    pub fn as_str(&self) -> (r: &'static str)
        ensures
            r@ == self.spec_str(),
    {
        match self {
            OciRuntimeType::Docker => "Docker",
            OciRuntimeType::Podman => "Podman",
        }
    }

    /// The conventional rendering of the runtime kind.
    pub open spec fn spec_str(&self) -> Seq<char> {
        match self {
            OciRuntimeType::Docker => "Docker"@,
            OciRuntimeType::Podman => "Podman"@,
        }
    }
}

/// The rendering of each runtime kind reads back as that kind alone.
pub proof fn lemma_runtime_render_parses(t: OciRuntimeType)
    ensures
        t == OciRuntimeType::Docker ==> lower_eq(t.spec_str(), "docker"@) && !lower_eq(
            t.spec_str(),
            "podman"@,
        ),
        t == OciRuntimeType::Podman ==> lower_eq(t.spec_str(), "podman"@) && !lower_eq(
            t.spec_str(),
            "docker"@,
        ),
{
    reveal_strlit("Docker");
    reveal_strlit("docker");
    reveal_strlit("Podman");
    reveal_strlit("podman");
    assert(!lower_char_eq("Docker"@[0], "podman"@[0]));
    assert(!lower_char_eq("Podman"@[0], "docker"@[0]));
}

/// A container runtime that manages named volumes: the engine consumes
/// it as a capability and never constructs a concrete driver itself.
///
/// Any call may fail with an `IOFailure`; a failed mutation leaves the
/// set of volumes unchanged, and no call moves a volume's host path.
pub trait OciRuntime: Sized {
    /// The names of the volumes that exist in the runtime. Runtimes whose
    /// state the proofs do not track leave the default.
    open spec fn volumes(&self) -> Set<Seq<char>> {
        Set::empty()
    }

    /// Where a volume's contents live on the host. Runtimes whose state
    /// the proofs do not track leave the default.
    open spec fn host_path_of(&self, name: Seq<char>) -> Seq<char> {
        name
    }

    /// Whether a volume of this name exists. A missing volume is
    /// `Ok(false)`, so the only failure is the query itself.
    fn volume_exists(&self, volume: &str) -> (r: Result<bool, Error>)
        ensures
            r matches Ok(b) ==> b == self.volumes().contains(volume@),
            r matches Err(e) ==> e matches Error::IOFailure(_),
    ;

    /// Resolves a volume's host path.
    fn get_volume_host_path(&self, volume: &str) -> (r: Result<String, Error>)
        ensures
            r matches Ok(p) ==> p@ == self.host_path_of(volume@),
    ;

    /// Creates a volume.
    fn create_volume(&mut self, volume: &str) -> (r: Result<(), Error>)
        ensures
            forall|n: Seq<char>| final(self).host_path_of(n) == old(self).host_path_of(n),
            match r {
                Ok(_) => final(self).volumes() == old(self).volumes().insert(volume@),
                Err(_) => final(self).volumes() == old(self).volumes(),
            },
    ;

    /// Removes a volume and its contents.
    fn remove_volume(&mut self, volume: &str) -> (r: Result<(), Error>)
        ensures
            forall|n: Seq<char>| final(self).host_path_of(n) == old(self).host_path_of(n),
            match r {
                Ok(_) => final(self).volumes() == old(self).volumes().remove(volume@),
                Err(_) => final(self).volumes() == old(self).volumes(),
            },
    ;
}

/// An in-memory runtime: the reference implementation of [`OciRuntime`],
/// verified against its contracts. Volume contents live under a fixed
/// host prefix derived from the volume's name.
pub struct MemoryRuntime {
    names: Vec<String>,
}

impl MemoryRuntime {
    /// A runtime with no volumes.
    pub fn new() -> (r: MemoryRuntime)
        ensures
            r.volumes() == Set::<Seq<char>>::empty(),
    {
        let r = MemoryRuntime { names: Vec::new() };
        proof {
            assert(r.volumes() =~= Set::<Seq<char>>::empty());
        }
        r
    }
}

impl OciRuntime for MemoryRuntime {
    closed spec fn volumes(&self) -> Set<Seq<char>> {
        self.names@.map_values(|n: String| n@).to_set()
    }

    open spec fn host_path_of(&self, name: Seq<char>) -> Seq<char> {
        "/volumes/"@ + name
    }

    fn volume_exists(&self, volume: &str) -> (r: Result<bool, Error>) {
        let n = self.names.len();
        let ghost nv = self.names@.map_values(|s: String| s@);
        let mut i: usize = 0;
        while i < n
            invariant
                0 <= i <= n,
                n == self.names@.len(),
                nv == self.names@.map_values(|s: String| s@),
                forall|k: int| 0 <= k < i ==> self.names@[k]@ != volume@,
            decreases n - i,
        {
            if string_eq(self.names[i].as_str(), volume) {
                proof {
                    assert(nv[i as int] == volume@);
                    assert(nv.contains(volume@));
                }
                return Ok(true);
            }
            i += 1;
        }
        proof {
            if self.volumes().contains(volume@) {
                let k = choose|k: int| 0 <= k < nv.len() && #[trigger] nv[k] == volume@;
                assert(self.names@[k]@ == volume@);
            }
        }
        Ok(false)
    }

    fn get_volume_host_path(&self, volume: &str) -> (r: Result<String, Error>) {
        Ok(string_concat("/volumes/", volume))
    }

    fn create_volume(&mut self, volume: &str) -> (r: Result<(), Error>) {
        match self.volume_exists(volume) {
            Ok(true) => {
                proof {
                    assert(self.volumes() =~= old(self).volumes().insert(volume@));
                }
                Ok(())
            },
            _ => {
                let ghost prev = self.names@;
                self.names.push(volume.to_owned());
                proof {
                    let ghost nv = self.names@.map_values(|s: String| s@);
                    let ghost pv = prev.map_values(|s: String| s@);
                    assert(forall|k: int| 0 <= k < prev.len() ==> self.names@[k] == prev[k]);
                    assert(forall|k: int|
                        0 <= k < self.names@.len() ==> #[trigger] nv[k] == self.names@[k]@);
                    assert(forall|k: int| 0 <= k < prev.len() ==> #[trigger] pv[k] == prev[k]@);
                    assert(self.volumes() =~= old(self).volumes().insert(volume@)) by {
                        assert forall|p: Seq<char>| self.volumes().contains(p) implies old(
                            self,
                        ).volumes().insert(volume@).contains(p) by {
                            let k = choose|k: int| 0 <= k < nv.len() && #[trigger] nv[k] == p;
                            if k < prev.len() {
                                assert(pv[k] == p);
                                assert(pv.contains(p));
                            }
                        }
                        assert forall|p: Seq<char>|
                            old(self).volumes().insert(volume@).contains(
                                p,
                            ) implies self.volumes().contains(p) by {
                            if p == volume@ {
                                assert(nv[prev.len() as int] == p);
                                assert(nv.contains(p));
                            } else {
                                let k = choose|k: int| 0 <= k < pv.len() && #[trigger] pv[k] == p;
                                assert(nv[k] == p);
                                assert(nv.contains(p));
                            }
                        }
                    }
                }
                Ok(())
            },
        }
    }

    fn remove_volume(&mut self, volume: &str) -> (r: Result<(), Error>) {
        let ghost prev = self.names@;
        let ghost pv = prev.map_values(|s: String| s@);
        let n = self.names.len();
        let mut kept: Vec<String> = Vec::new();
        let mut i: usize = 0;
        while i < n
            invariant
                0 <= i <= n,
                n == prev.len(),
                self.names@ == prev,
                pv == prev.map_values(|s: String| s@),
                forall|k: int|
                    0 <= k < kept@.len() ==> #[trigger] kept@[k]@ != volume@ && pv.contains(
                        kept@[k]@,
                    ),
                forall|j: int|
                    0 <= j < i && #[trigger] prev[j]@ != volume@ ==> kept@.map_values(
                        |s: String| s@,
                    ).contains(prev[j]@),
            decreases n - i,
        {
            if !string_eq(self.names[i].as_str(), volume) {
                let ghost kprev = kept@;
                kept.push(self.names[i].clone());
                proof {
                    let ghost kv = kept@.map_values(|s: String| s@);
                    assert(forall|k: int| 0 <= k < kprev.len() ==> kept@[k] == kprev[k]);
                    assert(forall|k: int|
                        0 <= k < kept@.len() ==> #[trigger] kv[k] == kept@[k]@);
                    assert(pv[i as int] == prev[i as int]@);
                    assert(pv.contains(kept@[kprev.len() as int]@));
                    assert(forall|j: int|
                        0 <= j < i && #[trigger] prev[j]@ != volume@ ==> kprev.map_values(
                            |s: String| s@,
                        ).contains(prev[j]@));
                    let ghost kpv = kprev.map_values(|s: String| s@);
                    assert(forall|k: int| 0 <= k < kprev.len() ==> #[trigger] kpv[k] == kv[k]);
                    assert(forall|p: Seq<char>| kpv.contains(p) ==> kv.contains(p)) by {
                        assert forall|p: Seq<char>| kpv.contains(p) implies kv.contains(p) by {
                            let k = choose|k: int| 0 <= k < kpv.len() && #[trigger] kpv[k] == p;
                            assert(kv[k] == p);
                        }
                    }
                    assert(kv[kprev.len() as int] == prev[i as int]@);
                    assert(kv.contains(prev[i as int]@));
                }
            }
            i += 1;
        }
        self.names = kept;
        proof {
            let ghost nv = self.names@.map_values(|s: String| s@);
            assert(forall|k: int| 0 <= k < nv.len() ==> #[trigger] nv[k] == self.names@[k]@);
            assert(self.volumes() =~= old(self).volumes().remove(volume@)) by {
                assert forall|p: Seq<char>| self.volumes().contains(p) implies old(
                    self,
                ).volumes().remove(volume@).contains(p) by {
                    let k = choose|k: int| 0 <= k < nv.len() && #[trigger] nv[k] == p;
                    assert(self.names@[k]@ == p && p != volume@);
                    assert(pv.contains(p));
                }
                assert forall|p: Seq<char>|
                    old(self).volumes().remove(volume@).contains(p) implies self.volumes().contains(
                    p,
                ) by {
                    let j = choose|j: int| 0 <= j < pv.len() && #[trigger] pv[j] == p;
                    assert(prev[j]@ == p);
                    assert(nv.contains(p));
                }
            }
        }
        Ok(())
    }
}

} // verus!
