use vstd::prelude::*;

verus! {

#[derive(Debug, PartialEq, Eq)]
pub enum AddError {
    Test(String),
}

#[derive(Debug, PartialEq, Eq, Clone, Copy)]
pub enum InitError {
    /// `.changeset/config.json` is there already.
    BaseHasExist,
    /// Only the old `.changeset/config.js` is there.
    PreVersion,
    /// There is no configuration file.
    NotHave,
}

/// What `init` does to the `.changeset` directory.
#[derive(Debug, PartialEq, Eq, Clone, Copy)]
pub enum InitAction {
    /// Leave the directory as it is.
    Nothing,
    /// Write `.changeset/config.json`.
    WriteConfig,
}

/// Decides what `init` does, from whether `.changeset`,
/// `.changeset/config.json` and `.changeset/config.js` exist.
pub fn plan_init(base_exists: bool, config_exists: bool, legacy_config_exists: bool) -> (r: Result<InitAction, InitError>)
    ensures
        !base_exists ==> r == Ok::<InitAction, InitError>(InitAction::Nothing),
        base_exists && config_exists ==> r == Err::<InitAction, InitError>(InitError::BaseHasExist),
        base_exists && !config_exists && legacy_config_exists ==> r == Err::<InitAction, InitError>(InitError::PreVersion),
        base_exists && !config_exists && !legacy_config_exists ==> r == Ok::<InitAction, InitError>(InitAction::WriteConfig),
{
    if base_exists {
        if !config_exists {
            if legacy_config_exists {
                Err(InitError::PreVersion)
            } else {
                Ok(InitAction::WriteConfig)
            }
        } else {
            Err(InitError::BaseHasExist)
        }
    } else {
        Ok(InitAction::Nothing)
    }
}

} // verus!
