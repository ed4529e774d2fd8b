//! A standalone configuration of externally hosted volumes.

use vstd::prelude::*;

verus! {

/// How a configured volume's content is obtained.
#[derive(Debug, Clone, PartialEq)]
pub enum VolumeConfig {
    /// Content hosted elsewhere: where it lives and which revision of it.
    External { url: String, revision: String },
}

/// The mathematical value of a [`VolumeConfig`].
pub enum VolumeConfigView {
    External { url: Seq<char>, revision: Seq<char> },
}

impl View for VolumeConfig {
    type V = VolumeConfigView;

    open spec fn view(&self) -> VolumeConfigView {
        match self {
            VolumeConfig::External { url, revision } => VolumeConfigView::External {
                url: url@,
                revision: revision@,
            },
        }
    }
}

/// A versioned collection of configured volumes, keyed by name.
#[derive(Debug, Clone, PartialEq)]
pub struct Configuration {
    pub version: u8,
    pub volumes: Vec<(String, VolumeConfig)>,
}

/// The mapping that a configuration's entries denote; a later entry for
/// a name supersedes an earlier one.
pub open spec fn config_map(entries: Seq<(String, VolumeConfig)>) -> Map<
    Seq<char>,
    VolumeConfigView,
>
    decreases entries.len(),
{
    if entries.len() == 0 {
        Map::empty()
    } else {
        config_map(entries.drop_last()).insert(entries.last().0@, entries.last().1@)
    }
}

impl View for Configuration {
    type V = Map<Seq<char>, VolumeConfigView>;

    open spec fn view(&self) -> Map<Seq<char>, VolumeConfigView> {
        config_map(self.volumes@)
    }
}

impl Default for Configuration {
    /// An empty configuration at the first format version.
    fn default() -> (r: Configuration)
        ensures
            r.version == 1,
            r@ == Map::<Seq<char>, VolumeConfigView>::empty(),
    {
        Configuration { version: 1, volumes: Vec::new() }
    }
}

/// Records an externally hosted volume in a configuration, replacing any
/// entry of the same name.
pub fn add_external(config: &mut Configuration, name: &str, url: &str, revision: &str)
    ensures
        final(config)@ == old(config)@.insert(
            name@,
            VolumeConfigView::External { url: url@, revision: revision@ },
        ),
        final(config).version == old(config).version,
{
    let entry = VolumeConfig::External { url: url.to_owned(), revision: revision.to_owned() };
    config.volumes.push((name.to_owned(), entry));
    proof {
        assert(config.volumes@.drop_last() =~= old(config).volumes@);
    }
}

/// An externally hosted volume: its name, where its content lives, and
/// which revision of it is tracked.
#[derive(Debug, Clone, PartialEq)]
pub struct ExternalVolume {
    name: String,
    url: String,
    revision: String,
}

/// The mathematical value of an [`ExternalVolume`].
pub struct ExternalVolumeView {
    pub name: Seq<char>,
    pub url: Seq<char>,
    pub revision: Seq<char>,
}

impl View for ExternalVolume {
    type V = ExternalVolumeView;

    closed spec fn view(&self) -> ExternalVolumeView {
        ExternalVolumeView { name: self.name@, url: self.url@, revision: self.revision@ }
    }
}

impl ExternalVolume {
    pub fn new(name: &str, url: &str, revision: &str) -> (r: ExternalVolume)
        ensures
            r@.name == name@,
            r@.url == url@,
            r@.revision == revision@,
    {
        ExternalVolume {
            name: name.to_owned(),
            url: url.to_owned(),
            revision: revision.to_owned(),
        }
    }

    /// The volume's name.
    pub fn get_name(&self) -> (r: &str)
        ensures
            r@ == self@.name,
    {
        self.name.as_str()
    }
}

} // verus!
