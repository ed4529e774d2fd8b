//! The fixed layout of a repository's metadata under its root.

use vstd::prelude::*;

pub mod history;
pub mod lock;
pub mod object_store;
pub mod settings;
pub mod stage;

verus! {

/// Where the staging area keeps its scratch manifest, objects and
/// temporary files, relative to the repository root.
pub struct StageStructure {
    stage: String,
    tmp: String,
    lock: String,
    objects: String,
}

/// The mathematical value of a [`StageStructure`]: each path as a
/// character sequence.
pub struct StageStructureView {
    pub stage: Seq<char>,
    pub tmp: Seq<char>,
    pub lock: Seq<char>,
    pub objects: Seq<char>,
}

impl View for StageStructure {
    type V = StageStructureView;

    closed spec fn view(&self) -> StageStructureView {
        StageStructureView {
            stage: self.stage@,
            tmp: self.tmp@,
            lock: self.lock@,
            objects: self.objects@,
        }
    }
}

impl StageStructure {
    pub fn get_stage(&self) -> (r: &str)
        ensures
            r@ == self@.stage,
    {
        self.stage.as_str()
    }

    pub fn get_tmp(&self) -> (r: &str)
        ensures
            r@ == self@.tmp,
    {
        self.tmp.as_str()
    }

    pub fn get_lock(&self) -> (r: &str)
        ensures
            r@ == self@.lock,
    {
        self.lock.as_str()
    }

    pub fn get_objects(&self) -> (r: &str)
        ensures
            r@ == self@.objects,
    {
        self.objects.as_str()
    }
}

impl Default for StageStructure {
    /// The conventional staging layout under the metadata root.
    fn default() -> (r: StageStructure)
        ensures
            r@.stage == ".volumetric/staging"@,
            r@.tmp == ".volumetric/staging/tmp"@,
            r@.lock == ".volumetric/staging/lock"@,
            r@.objects == ".volumetric/staging/objects"@,
    {
        StageStructure {
            stage: String::from_str(".volumetric/staging"),
            tmp: String::from_str(".volumetric/staging/tmp"),
            lock: String::from_str(".volumetric/staging/lock"),
            objects: String::from_str(".volumetric/staging/objects"),
        }
    }
}

/// Where each named entity of a repository lives, relative to the
/// repository root. Pure configuration: it has no lifecycle.
pub struct RepositoryStructure {
    volumetric: String,
    data: String,
    lock: String,
    settings: String,
    history: String,
    objects: String,
    changes: String,
    stage: StageStructure,
}

/// The mathematical value of a [`RepositoryStructure`].
pub struct RepositoryStructureView {
    pub volumetric: Seq<char>,
    pub data: Seq<char>,
    pub lock: Seq<char>,
    pub settings: Seq<char>,
    pub history: Seq<char>,
    pub objects: Seq<char>,
    pub changes: Seq<char>,
    pub stage: StageStructureView,
}

impl View for RepositoryStructure {
    type V = RepositoryStructureView;

    closed spec fn view(&self) -> RepositoryStructureView {
        RepositoryStructureView {
            volumetric: self.volumetric@,
            data: self.data@,
            lock: self.lock@,
            settings: self.settings@,
            history: self.history@,
            objects: self.objects@,
            changes: self.changes@,
            stage: self.stage@,
        }
    }
}

impl RepositoryStructure {
    pub fn get_volumetric(&self) -> (r: &str)
        ensures
            r@ == self@.volumetric,
    {
        self.volumetric.as_str()
    }

    pub fn get_data(&self) -> (r: &str)
        ensures
            r@ == self@.data,
    {
        self.data.as_str()
    }

    pub fn get_lock(&self) -> (r: &str)
        ensures
            r@ == self@.lock,
    {
        self.lock.as_str()
    }

    pub fn get_settings(&self) -> (r: &str)
        ensures
            r@ == self@.settings,
    {
        self.settings.as_str()
    }

    pub fn get_history(&self) -> (r: &str)
        ensures
            r@ == self@.history,
    {
        self.history.as_str()
    }

    pub fn get_objects(&self) -> (r: &str)
        ensures
            r@ == self@.objects,
    {
        self.objects.as_str()
    }

    pub fn get_changes(&self) -> (r: &str)
        ensures
            r@ == self@.changes,
    {
        self.changes.as_str()
    }

    pub fn get_stage(&self) -> (r: &StageStructure)
        ensures
            r@ == self@.stage,
    {
        &self.stage
    }
}

/// The standard layout of a [`RepositoryStructure`], all in one place.
pub open spec fn standard_paths() -> RepositoryStructureView {
    RepositoryStructureView {
        volumetric: "volumetric.yaml"@,
        data: ".volumetric"@,
        lock: ".volumetric/lock"@,
        settings: ".volumetric/settings"@,
        history: ".volumetric/history"@,
        objects: ".volumetric/objects"@,
        changes: ".volumetric/changes"@,
        stage: StageStructureView {
            stage: ".volumetric/staging"@,
            tmp: ".volumetric/staging/tmp"@,
            lock: ".volumetric/staging/lock"@,
            objects: ".volumetric/staging/objects"@,
        },
    }
}

/// The standard paths are pairwise distinct, with known lengths, and
/// none lies directly under another's object directory.
pub proof fn lemma_standard_path_facts()
    ensures
        standard_paths().volumetric.len() == 15,
        standard_paths().data.len() == 11,
        standard_paths().lock.len() == 16,
        standard_paths().settings.len() == 20,
        standard_paths().history.len() == 19,
        standard_paths().objects.len() == 19,
        standard_paths().changes.len() == 19,
        standard_paths().stage.stage.len() == 19,
        standard_paths().stage.tmp.len() == 23,
        standard_paths().stage.lock.len() == 24,
        standard_paths().stage.objects.len() == 27,
        standard_paths().objects != standard_paths().changes,
        standard_paths().objects != standard_paths().history,
        standard_paths().changes != standard_paths().history,
        standard_paths().objects != standard_paths().stage.objects,
        standard_paths().changes != standard_paths().stage.objects,
        standard_paths().history != standard_paths().stage.objects,
        standard_paths().lock != standard_paths().history,
        standard_paths().lock != standard_paths().stage.lock,
        standard_paths().history != standard_paths().stage.lock,
        standard_paths().settings != standard_paths().stage.lock,
        !crate::strutil::is_direct_child(standard_paths().objects, standard_paths().stage.lock),
{
    reveal_strlit("volumetric.yaml");
    reveal_strlit(".volumetric");
    reveal_strlit(".volumetric/lock");
    reveal_strlit(".volumetric/settings");
    reveal_strlit(".volumetric/history");
    reveal_strlit(".volumetric/objects");
    reveal_strlit(".volumetric/changes");
    reveal_strlit(".volumetric/staging");
    reveal_strlit(".volumetric/staging/tmp");
    reveal_strlit(".volumetric/staging/lock");
    reveal_strlit(".volumetric/staging/objects");
    assert(".volumetric/objects"@[12] == 'o');
    assert(".volumetric/changes"@[12] == 'c');
    assert(".volumetric/history"@[12] == 'h');
    if crate::strutil::is_direct_child(standard_paths().objects, standard_paths().stage.lock) {
        assert(".volumetric/staging/lock"@.take(19)[12] == ".volumetric/staging/lock"@[12]);
        assert(".volumetric/staging/lock"@[12] == 's');
    }
}

impl Default for RepositoryStructure {
    /// The conventional repository layout under the metadata root.
    fn default() -> (r: RepositoryStructure)
        ensures
            r@ == standard_paths(),
    {
        let r = RepositoryStructure {
            volumetric: String::from_str("volumetric.yaml"),
            data: String::from_str(".volumetric"),
            lock: String::from_str(".volumetric/lock"),
            settings: String::from_str(".volumetric/settings"),
            history: String::from_str(".volumetric/history"),
            objects: String::from_str(".volumetric/objects"),
            changes: String::from_str(".volumetric/changes"),
            stage: StageStructure::default(),
        };
        assert(r@ =~= standard_paths());
        r
    }
}

} // verus!
