use vstd::prelude::*;
use crate::colors::{preset_colors, scheme_view, LogColorPreset, LogColorScheme};

verus! {

/// A folder the search can start from.
pub struct FolderPreset {
    pub name: String,
    pub path: String,
}

/// A search pattern kept for reuse.
pub struct SavedPattern {
    pub name: String,
    pub pattern: String,
    pub description: String,
    pub category: String,
}

/// The external editor to open files with.
pub struct EditorConfig {
    pub command: String,
    pub args: Vec<String>,
}

/// How log lines are classified and coloured.
pub struct LogFormatConfig {
    /// Extra level patterns, as (pattern, level name).
    pub custom_patterns: Vec<(String, String)>,
    pub color_preset: LogColorPreset,
    /// Colours that replace the preset's, when set.
    pub custom_colors: Option<LogColorScheme>,
}

/// Default tail poll interval in milliseconds.
pub fn default_poll_interval() -> (r: u64)
    ensures
        r == 250,
{
    250
}

impl LogFormatConfig {
    /// The colours in effect: the custom ones when set, else the preset's.
    pub fn get_color_scheme(&self) -> (r: LogColorScheme)
        ensures
            scheme_view(r) == match self.custom_colors {
                Some(c) => scheme_view(c),
                None => preset_colors(self.color_preset),
            },
    {
        match &self.custom_colors {
            Some(c) => c.duplicate(),
            None => LogColorScheme::from_preset(self.color_preset),
        }
    }
}

impl Default for LogFormatConfig {
    fn default() -> (r: LogFormatConfig)
        ensures
            r.custom_patterns@.len() == 0,
            r.color_preset == LogColorPreset::Vibrant,
            r.custom_colors is None,
    {
        LogFormatConfig {
            custom_patterns: Vec::new(),
            color_preset: LogColorPreset::Vibrant,
            custom_colors: None,
        }
    }
}

} // verus!
