//! The configuration-facing checks that are pure decisions: whether a game
//! directory is usable, given which of its required files exist. Reading the
//! file system itself stays outside the library.

use vstd::prelude::*;
use crate::errors::ConfigError;

verus! {

/// Decides whether a game directory is usable. The two flags say whether
/// the translation file and the production file were found under the
/// directory; a missing file names itself in the error, translation first.
pub fn check_gamedir(translation_file_found: bool, production_file_found: bool) -> (r: Result<
    (),
    ConfigError,
>)
    ensures
        match r {
            Ok(_) => translation_file_found && production_file_found,
            Err(e) => {
                &&& !(translation_file_found && production_file_found)
                &&& (e matches ConfigError::BadGamedir(which) && (if !translation_file_found {
                    which@ == "translation-file"@
                } else {
                    which@ == "production-file"@
                }))
            },
        },
{
    if !translation_file_found {
        return Err(ConfigError::BadGamedir("translation-file".to_owned()));
    }
    if !production_file_found {
        return Err(ConfigError::BadGamedir("production-file".to_owned()));
    }
    Ok(())
}

} // verus!
