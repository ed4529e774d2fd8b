//! Initializing a repository: the initial artifacts, all empty.

use vstd::prelude::*;

use crate::error::Error;
use crate::remote::ReadRemote;
use crate::remote::WriteRemote;
use crate::repository::lock::lock_enc;
use crate::repository::lock::Lock;
use crate::repository::settings::settings_enc;
use crate::repository::settings::Settings;
use crate::repository::settings::SettingsView;
use crate::repository::standard_paths;
use crate::repository::RepositoryStructure;

verus! {

/// What a freshly initialized repository's files hold: the given
/// settings, an empty manifest, and an empty history.
pub open spec fn init_files(files: Map<Seq<char>, Seq<u8>>, settings: SettingsView) -> Map<
    Seq<char>,
    Seq<u8>,
> {
    files.insert(standard_paths().settings, settings_enc(settings)).insert(
        standard_paths().lock,
        lock_enc(Seq::empty()),
    ).insert(standard_paths().history, Seq::empty())
}

/// The directories a freshly initialized repository holds.
pub open spec fn init_dirs(dirs: Set<Seq<char>>) -> Set<Seq<char>> {
    dirs.insert(standard_paths().data).insert(standard_paths().objects).insert(
        standard_paths().changes,
    ).insert(standard_paths().stage.stage).insert(standard_paths().stage.tmp).insert(
        standard_paths().stage.objects,
    )
}

/// Populates the initial artifacts of a repository.
pub struct Init<R: WriteRemote> {
    transport: R,
    settings: Settings,
}

impl<R: WriteRemote> Init<R> {
    /// The transport the command works through.
    pub closed spec fn spec_transport(&self) -> R {
        self.transport
    }

    /// The settings the repository is initialized with.
    pub closed spec fn spec_settings(&self) -> Settings {
        self.settings
    }

    pub fn new(transport: R, settings: Settings) -> (r: Init<R>)
        ensures
            r.spec_transport() == transport,
            r.spec_settings() == settings,
    {
        Init { transport, settings }
    }

    /// Hands the transport back once the command is done.
    pub fn into_transport(self) -> (r: R)
        ensures
            r == self.spec_transport(),
    {
        self.transport
    }

    /// Creates the metadata directories and writes the settings, an
    /// empty manifest, and an empty history.
    pub fn init(&mut self) -> (r: Result<(), Error>)
        requires
            old(self).spec_transport().inv(),
        ensures
            final(self).spec_transport().inv(),
            final(self).spec_settings() == old(self).spec_settings(),
            r is Ok ==> final(self).spec_transport().state().files == init_files(
                old(self).spec_transport().state().files,
                old(self).spec_settings()@,
            ) && final(self).spec_transport().state().dirs == init_dirs(
                old(self).spec_transport().state().dirs,
            ),
    {
        let paths = RepositoryStructure::default();
        match self.transport.create_dir(paths.get_data()) {
            Ok(_) => {},
            Err(e) => {
                return Err(e);
            },
        }
        let settings_bytes = match self.settings.store() {
            Ok(b) => b,
            Err(e) => {
                return Err(e);
            },
        };
        match self.transport.put_file(paths.get_settings(), settings_bytes.as_slice()) {
            Ok(_) => {},
            Err(e) => {
                return Err(e);
            },
        }
        let empty_lock = Lock::default();
        let lock_bytes = match empty_lock.store() {
            Ok(b) => b,
            Err(e) => {
                return Err(e);
            },
        };
        match self.transport.put_file(paths.get_lock(), lock_bytes.as_slice()) {
            Ok(_) => {},
            Err(e) => {
                return Err(e);
            },
        }
        let empty_history: Vec<u8> = Vec::new();
        match self.transport.put_file(paths.get_history(), empty_history.as_slice()) {
            Ok(_) => {},
            Err(e) => {
                return Err(e);
            },
        }
        match self.transport.create_dir(paths.get_objects()) {
            Ok(_) => {},
            Err(e) => {
                return Err(e);
            },
        }
        match self.transport.create_dir(paths.get_changes()) {
            Ok(_) => {},
            Err(e) => {
                return Err(e);
            },
        }
        let stage = paths.get_stage();
        match self.transport.create_dir(stage.get_stage()) {
            Ok(_) => {},
            Err(e) => {
                return Err(e);
            },
        }
        match self.transport.create_dir(stage.get_tmp()) {
            Ok(_) => {},
            Err(e) => {
                return Err(e);
            },
        }
        match self.transport.create_dir(stage.get_objects()) {
            Ok(_) => {},
            Err(e) => {
                return Err(e);
            },
        }
        proof {
            assert(empty_lock.entries() =~= Seq::<crate::volume::VolumeView>::empty());
            assert(self.transport.state().files =~= init_files(
                old(self).spec_transport().state().files,
                old(self).spec_settings()@,
            ));
            assert(self.transport.state().dirs =~= init_dirs(
                old(self).spec_transport().state().dirs,
            ));
        }
        Ok(())
    }
}

} // verus!
