use vstd::prelude::*;

verus! {

/// Named colour presets for log levels.
#[derive(Debug, Clone, Copy, PartialEq, Eq, Structural)]
pub enum LogColorPreset {
    Vibrant,
    Subtle,
    Monochrome,
}

impl Default for LogColorPreset {
    fn default() -> (r: LogColorPreset)
        ensures
            r == LogColorPreset::Vibrant,
    {
        LogColorPreset::Vibrant
    }
}

/// Hex colour (`#RRGGBB`) of each log level.
pub struct LogColorScheme {
    pub trace: String,
    pub debug: String,
    pub info: String,
    pub warn: String,
    pub error: String,
    pub fatal: String,
    pub unknown: String,
}

/// The colours of a scheme, from trace to unknown.
pub open spec fn scheme_view(s: LogColorScheme) -> Seq<Seq<char>> {
    seq![s.trace@, s.debug@, s.info@, s.warn@, s.error@, s.fatal@, s.unknown@]
}

/// The colours of a preset, from trace to unknown.
pub open spec fn preset_colors(p: LogColorPreset) -> Seq<Seq<char>> {
    match p {
        LogColorPreset::Vibrant => seq![
            "#6B7280"@,
            "#60A5FA"@,
            "#D1D5DB"@,
            "#FBBF24"@,
            "#EF4444"@,
            "#DC2626"@,
            "#9CA3AF"@,
        ],
        LogColorPreset::Subtle => seq![
            "#6B7280"@,
            "#93C5FD"@,
            "#D1D5DB"@,
            "#FCD34D"@,
            "#F87171"@,
            "#EF4444"@,
            "#9CA3AF"@,
        ],
        LogColorPreset::Monochrome => seq![
            "#4B5563"@,
            "#6B7280"@,
            "#9CA3AF"@,
            "#D1D5DB"@,
            "#F87171"@,
            "#EF4444"@,
            "#9CA3AF"@,
        ],
    }
}

fn scheme_of(
    trace: &str,
    debug: &str,
    info: &str,
    warn: &str,
    error: &str,
    fatal: &str,
    unknown: &str,
) -> (r: LogColorScheme)
    ensures
        scheme_view(r) == seq![trace@, debug@, info@, warn@, error@, fatal@, unknown@],
{
    LogColorScheme {
        trace: trace.to_string(),
        debug: debug.to_string(),
        info: info.to_string(),
        warn: warn.to_string(),
        error: error.to_string(),
        fatal: fatal.to_string(),
        unknown: unknown.to_string(),
    }
}

impl LogColorScheme {
    /// High-contrast, colourful scheme (the default).
    pub fn vibrant() -> (r: LogColorScheme)
        ensures
            scheme_view(r) == preset_colors(LogColorPreset::Vibrant),
    {
        proof {
            reveal_strlit("#6B7280");
            reveal_strlit("#60A5FA");
            reveal_strlit("#D1D5DB");
            reveal_strlit("#FBBF24");
            reveal_strlit("#EF4444");
            reveal_strlit("#DC2626");
            reveal_strlit("#9CA3AF");
        }
        scheme_of("#6B7280", "#60A5FA", "#D1D5DB", "#FBBF24", "#EF4444", "#DC2626", "#9CA3AF")
    }

    /// Muted scheme.
    pub fn subtle() -> (r: LogColorScheme)
        ensures
            scheme_view(r) == preset_colors(LogColorPreset::Subtle),
    {
        proof {
            reveal_strlit("#6B7280");
            reveal_strlit("#93C5FD");
            reveal_strlit("#D1D5DB");
            reveal_strlit("#FCD34D");
            reveal_strlit("#F87171");
            reveal_strlit("#EF4444");
            reveal_strlit("#9CA3AF");
        }
        scheme_of("#6B7280", "#93C5FD", "#D1D5DB", "#FCD34D", "#F87171", "#EF4444", "#9CA3AF")
    }

    /// Shades of grey, with red for errors only.
    pub fn monochrome() -> (r: LogColorScheme)
        ensures
            scheme_view(r) == preset_colors(LogColorPreset::Monochrome),
    {
        proof {
            reveal_strlit("#4B5563");
            reveal_strlit("#6B7280");
            reveal_strlit("#9CA3AF");
            reveal_strlit("#D1D5DB");
            reveal_strlit("#F87171");
            reveal_strlit("#EF4444");
        }
        scheme_of("#4B5563", "#6B7280", "#9CA3AF", "#D1D5DB", "#F87171", "#EF4444", "#9CA3AF")
    }

    /// The scheme of a preset.
    pub fn from_preset(preset: LogColorPreset) -> (r: LogColorScheme)
        ensures
            scheme_view(r) == preset_colors(preset),
    {
        match preset {
            LogColorPreset::Vibrant => Self::vibrant(),
            LogColorPreset::Subtle => Self::subtle(),
            LogColorPreset::Monochrome => Self::monochrome(),
        }
    }

    /// A copy of the scheme.
    pub fn duplicate(&self) -> (r: LogColorScheme)
        ensures
            scheme_view(r) == scheme_view(*self),
    {
        scheme_of(
            self.trace.as_str(),
            self.debug.as_str(),
            self.info.as_str(),
            self.warn.as_str(),
            self.error.as_str(),
            self.fatal.as_str(),
            self.unknown.as_str(),
        )
    }
}

impl Default for LogColorScheme {
    fn default() -> (r: LogColorScheme)
        ensures
            scheme_view(r) == preset_colors(LogColorPreset::Vibrant),
    {
        LogColorScheme::vibrant()
    }
}

} // verus!
