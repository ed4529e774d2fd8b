//! The engine's commands, one module each, all working through a
//! transport.

use vstd::prelude::*;

pub mod add;
pub mod commit;
pub mod deploy;
pub mod external;
pub mod generate;
pub mod init;
pub mod status;

use crate::error::Error;
use crate::remote::ReadRemote;
use crate::remote::WriteRemote;
use crate::repository::settings::settings_enc;
use crate::repository::settings::spec_default_settings;
use crate::repository::settings::Settings;
use crate::repository::settings::SettingsView;
use crate::repository::standard_paths;
use crate::repository::RepositoryStructure;

verus! {

/// Reads the repository's settings; a repository that stores none yet
/// has the compiled-in defaults.
pub fn load_settings<R: ReadRemote>(transport: &R) -> (r: Result<Settings, Error>)
    requires
        transport.inv(),
    ensures
        match r {
            Ok(s) => {
                &&& !transport.state().files.contains_key(standard_paths().settings) ==> s@
                    == spec_default_settings()
                &&& forall|sv: SettingsView|
                    transport.state().files.contains_key(standard_paths().settings)
                        && transport.state().files[standard_paths().settings]
                        == #[trigger] settings_enc(sv) ==> s@ == sv
            },
            Err(e) => e matches Error::Malformed(_) || e matches Error::IOFailure(_),
        },
{
    let paths = RepositoryStructure::default();
    match transport.get_file(paths.get_settings()) {
        Ok(bytes) => Settings::load(&bytes),
        Err(e) => match e {
            Error::NotFound(_) => Ok(Settings::default()),
            other => Err(other),
        },
    }
}

/// Writes the repository's settings in their persisted form.
pub fn write_settings<R: WriteRemote>(transport: &mut R, settings: &Settings) -> (r: Result<
    usize,
    Error,
>)
    requires
        old(transport).inv(),
    ensures
        final(transport).inv(),
        match r {
            Ok(n) => n == settings_enc(settings@).len() && final(transport).state().files == old(transport).state().files.insert(standard_paths().settings, settings_enc(settings@)) && final(transport).state().dirs == old(transport).state().dirs,
            Err(_) => final(transport).state() == old(transport).state(),
        },
{
    let paths = RepositoryStructure::default();
    let bytes = match settings.store() {
        Ok(b) => b,
        Err(e) => {
            return Err(e);
        },
    };
    transport.put_file(paths.get_settings(), bytes.as_slice())
}

} // verus!
