//! The settings that the library obeys.

use vstd::prelude::*;

verus! {

/// When a library that the user navigated into leaves the panel.
#[derive(Clone, Copy, Debug, PartialEq, Eq, Structural)]
pub enum ExternalLibrariesRemoval {
    /// When the last open buffer that references it is dropped.
    AutoRemove,
    /// Only when the user removes it.
    Manual,
}

impl Default for ExternalLibrariesRemoval {
    fn default() -> (mode: ExternalLibrariesRemoval)
        ensures
            mode == ExternalLibrariesRemoval::AutoRemove,
    {
        ExternalLibrariesRemoval::AutoRemove
    }
}

/// The `project_panel` section of the settings.
#[derive(Clone, Copy, Debug, PartialEq, Eq, Structural)]
pub struct ProjectPanelSettings {
    pub external_libraries_removal: Option<ExternalLibrariesRemoval>,
    pub show_all_external_libraries: Option<bool>,
}

/// The settings in force, merged from all their sources.
#[derive(Clone, Copy, Debug, PartialEq, Eq, Structural)]
pub struct MergedSettings {
    pub project_panel: Option<ProjectPanelSettings>,
}

/// The removal mode that `settings` configure.
pub open spec fn removal_mode(settings: Option<MergedSettings>) -> ExternalLibrariesRemoval {
    match settings {
        Some(
            MergedSettings {
                project_panel: Some(
                    ProjectPanelSettings { external_libraries_removal: Some(mode), .. },
                ),
            },
        ) => mode,
        _ => ExternalLibrariesRemoval::AutoRemove,
    }
}

/// Whether `settings` turn eager enumeration on.
pub open spec fn shows_all(settings: Option<MergedSettings>) -> bool {
    settings matches Some(MergedSettings {
        project_panel: Some(ProjectPanelSettings { show_all_external_libraries: Some(true), .. }),
    })
}

/// Returns the configured external libraries removal mode. Falls back to
/// [`ExternalLibrariesRemoval::AutoRemove`] when no settings are available.
pub fn external_libraries_removal(settings: &Option<MergedSettings>) -> (mode: ExternalLibrariesRemoval)
    ensures
        mode == removal_mode(*settings),
{
    match settings {
        Some(merged) => match merged.project_panel {
            Some(panel) => match panel.external_libraries_removal {
                Some(mode) => mode,
                None => ExternalLibrariesRemoval::default(),
            },
            None => ExternalLibrariesRemoval::default(),
        },
        None => ExternalLibrariesRemoval::default(),
    }
}

/// Returns whether eager enumeration of all external libraries is enabled.
/// Falls back to `false` when no settings are available.
pub fn show_all_external_libraries(settings: &Option<MergedSettings>) -> (show_all: bool)
    ensures
        show_all == shows_all(*settings),
{
    match settings {
        Some(merged) => match merged.project_panel {
            Some(panel) => match panel.show_all_external_libraries {
                Some(show_all) => show_all,
                None => false,
            },
            None => false,
        },
        None => false,
    }
}

} // verus!
