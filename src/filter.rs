use vstd::prelude::*;
use std::collections::HashMap;
use crate::levels::LogLevel;
use vstd::string::StrSliceExecFns;

verus! {

/// Filter on the severity of log lines.
pub struct LogLevelFilter {
    pub active: bool,
    pub minimum_level: LogLevel,
    pub show_unknown: bool,
    pub apply_to_preview: bool,
    /// Lines seen per level.
    pub level_counts: HashMap<LogLevel, usize>,
}

/// The filter mode after one forward step: ALL -> INFO+ -> WARN+ -> ERROR
/// -> ALL, as (active, minimum level).
pub open spec fn next_mode(active: bool, level: LogLevel) -> (bool, LogLevel) {
    if !active {
        (true, LogLevel::Info)
    } else {
        match level {
            LogLevel::Info => (true, LogLevel::Warn),
            LogLevel::Warn => (true, LogLevel::Error),
            _ => (false, level),
        }
    }
}

/// The filter mode after one backward step: ALL -> ERROR -> WARN+ -> INFO+
/// -> ALL.
pub open spec fn prev_mode(active: bool, level: LogLevel) -> (bool, LogLevel) {
    if !active {
        (true, LogLevel::Error)
    } else {
        match level {
            LogLevel::Error => (true, LogLevel::Warn),
            LogLevel::Warn => (true, LogLevel::Info),
            _ => (false, level),
        }
    }
}

/// Next minimum level: INFO -> WARN -> ERROR -> INFO; others go to INFO.
pub open spec fn next_level(level: LogLevel) -> LogLevel {
    match level {
        LogLevel::Info => LogLevel::Warn,
        LogLevel::Warn => LogLevel::Error,
        _ => LogLevel::Info,
    }
}

/// Previous minimum level: INFO -> ERROR -> WARN -> INFO; others go to INFO.
pub open spec fn prev_level(level: LogLevel) -> LogLevel {
    match level {
        LogLevel::Info => LogLevel::Error,
        LogLevel::Error => LogLevel::Warn,
        _ => LogLevel::Info,
    }
}

/// Label of a filter mode.
pub open spec fn mode_label(active: bool, level: LogLevel) -> Seq<char> {
    if !active {
        "ALL"@
    } else {
        match level {
            LogLevel::Info => "INFO+"@,
            LogLevel::Warn => "WARN+"@,
            LogLevel::Error => "ERROR"@,
            _ => "ALL"@,
        }
    }
}

impl LogLevelFilter {
    /// An inactive filter at INFO that shows lines of unknown level.
    pub fn new() -> (r: LogLevelFilter)
        ensures
            !r.active,
            r.minimum_level == LogLevel::Info,
            r.show_unknown,
            !r.apply_to_preview,
            r.level_counts@ == Map::<LogLevel, usize>::empty(),
    {
        LogLevelFilter {
            active: false,
            minimum_level: LogLevel::Info,
            show_unknown: true,
            apply_to_preview: false,
            level_counts: HashMap::new(),
        }
    }

    /// Steps forward through ALL -> INFO+ -> WARN+ -> ERROR -> ALL.
    pub fn cycle_mode(&mut self)
        ensures
            (final(self).active, final(self).minimum_level) == next_mode(
                old(self).active,
                old(self).minimum_level,
            ),
            final(self).show_unknown == old(self).show_unknown,
            final(self).apply_to_preview == old(self).apply_to_preview,
            final(self).level_counts == old(self).level_counts,
    {
        if !self.active {
            self.active = true;
            self.minimum_level = LogLevel::Info;
        } else {
            match self.minimum_level {
                LogLevel::Info => {
                    self.minimum_level = LogLevel::Warn;
                },
                LogLevel::Warn => {
                    self.minimum_level = LogLevel::Error;
                },
                _ => {
                    self.active = false;
                },
            }
        }
    }

    /// Steps backward through ALL -> ERROR -> WARN+ -> INFO+ -> ALL.
    pub fn cycle_mode_backwards(&mut self)
        ensures
            (final(self).active, final(self).minimum_level) == prev_mode(
                old(self).active,
                old(self).minimum_level,
            ),
            final(self).show_unknown == old(self).show_unknown,
            final(self).apply_to_preview == old(self).apply_to_preview,
            final(self).level_counts == old(self).level_counts,
    {
        if !self.active {
            self.active = true;
            self.minimum_level = LogLevel::Error;
        } else {
            match self.minimum_level {
                LogLevel::Error => {
                    self.minimum_level = LogLevel::Warn;
                },
                LogLevel::Warn => {
                    self.minimum_level = LogLevel::Info;
                },
                _ => {
                    self.active = false;
                },
            }
        }
    }

    /// Cycles the minimum level: INFO -> WARN -> ERROR -> INFO.
    pub fn cycle_level(&mut self)
        ensures
            final(self).minimum_level == next_level(old(self).minimum_level),
            final(self).active == old(self).active,
            final(self).show_unknown == old(self).show_unknown,
            final(self).apply_to_preview == old(self).apply_to_preview,
            final(self).level_counts == old(self).level_counts,
    {
        self.minimum_level = match self.minimum_level {
            LogLevel::Info => LogLevel::Warn,
            LogLevel::Warn => LogLevel::Error,
            LogLevel::Error => LogLevel::Info,
            _ => LogLevel::Info,
        };
    }

    /// Cycles the minimum level backwards: INFO -> ERROR -> WARN -> INFO.
    pub fn cycle_level_backwards(&mut self)
        ensures
            final(self).minimum_level == prev_level(old(self).minimum_level),
            final(self).active == old(self).active,
            final(self).show_unknown == old(self).show_unknown,
            final(self).apply_to_preview == old(self).apply_to_preview,
            final(self).level_counts == old(self).level_counts,
    {
        self.minimum_level = match self.minimum_level {
            LogLevel::Info => LogLevel::Error,
            LogLevel::Error => LogLevel::Warn,
            LogLevel::Warn => LogLevel::Info,
            _ => LogLevel::Info,
        };
    }

    /// Forgets the per-level counts.
    pub fn clear_counts(&mut self)
        ensures
            final(self).level_counts@ == Map::<LogLevel, usize>::empty(),
            final(self).active == old(self).active,
            final(self).minimum_level == old(self).minimum_level,
            final(self).show_unknown == old(self).show_unknown,
            final(self).apply_to_preview == old(self).apply_to_preview,
    {
        self.level_counts.clear();
    }

    /// Label of the current mode: ALL, INFO+, WARN+ or ERROR.
    pub fn display_mode(&self) -> (r: &'static str)
        ensures
            r@ == mode_label(self.active, self.minimum_level),
    {
        proof {
            reveal_strlit("ALL");
            reveal_strlit("INFO+");
            reveal_strlit("WARN+");
            reveal_strlit("ERROR");
        }
        if !self.active {
            return "ALL";
        }
        match self.minimum_level {
            LogLevel::Info => "INFO+",
            LogLevel::Warn => "WARN+",
            LogLevel::Error => "ERROR",
            _ => "ALL",
        }
    }
}

impl Default for LogLevelFilter {
    fn default() -> (r: LogLevelFilter)
        ensures
            !r.active,
            r.minimum_level == LogLevel::Info,
            r.show_unknown,
            !r.apply_to_preview,
    {
        LogLevelFilter::new()
    }
}

/// The lower-case form of `s`, as `str::to_lowercase` gives it.
pub uninterp spec fn lower_of(s: Seq<char>) -> Seq<char>;

/// Relies on `str::to_lowercase`: its result depends on the characters of
/// `s` alone; an empty string stays empty.
#[verifier::external_body]
fn lowercase(s: &str) -> (r: String)
    ensures
        r@ == lower_of(s@),
        s@.len() == 0 ==> r@.len() == 0,
{
    s.to_lowercase()
}

/// `needle` occurs in `hay` as a contiguous run.
pub open spec fn occurs_in(needle: Seq<char>, hay: Seq<char>) -> bool {
    exists|i: int| 0 <= i <= hay.len() - needle.len() && #[trigger] hay.subrange(i, i + needle.len()) == needle
}

/// Relies on `str::contains` with a string pattern: true exactly when the
/// pattern occurs in the string (an empty pattern always does).
#[verifier::external_body]
fn contains_str(hay: &str, needle: &str) -> (r: bool)
    ensures
        r == occurs_in(needle@, hay@),
{
    hay.contains(needle)
}

/// The characters of `p` appear in `t` in order, not necessarily together.
pub open spec fn fuzzy(p: Seq<char>, t: Seq<char>) -> bool
    decreases t.len(),
{
    if p.len() == 0 {
        true
    } else if t.len() == 0 {
        false
    } else if t[0] == p[0] {
        fuzzy(p.drop_first(), t.drop_first())
    } else {
        fuzzy(p, t.drop_first())
    }
}

/// Whether every character of `pattern` appears in `text`, in order.
pub fn fuzzy_match(pattern: &str, text: &str) -> (r: bool)
    ensures
        r == fuzzy(pattern@, text@),
{
    let plen = pattern.unicode_len();
    let tlen = text.unicode_len();
    let mut i: usize = 0;
    let mut j: usize = 0;
    assert(pattern@.subrange(0, plen as int) =~= pattern@);
    assert(text@.subrange(0, tlen as int) =~= text@);
    while j < tlen && i < plen
        invariant
            plen == pattern@.len(),
            tlen == text@.len(),
            i <= plen,
            j <= tlen,
            fuzzy(pattern@, text@) == fuzzy(pattern@.subrange(i as int, plen as int), text@.subrange(j as int, tlen as int)),
        decreases tlen - j,
    {
        let ghost ps = pattern@.subrange(i as int, plen as int);
        let ghost ts = text@.subrange(j as int, tlen as int);
        assert(ps.drop_first() =~= pattern@.subrange(i + 1, plen as int));
        assert(ts.drop_first() =~= text@.subrange(j + 1, tlen as int));
        if text.get_char(j) == pattern.get_char(i) {
            i = i + 1;
        }
        j = j + 1;
    }
    if i < plen {
        assert(text@.subrange(j as int, tlen as int).len() == 0);
    } else {
        assert(pattern@.subrange(i as int, plen as int).len() == 0);
    }
    i >= plen
}

/// Filter on the file tree by a fuzzy pattern and excluded substrings.
pub struct TreeFilter {
    pub active: bool,
    pub pattern: String,
    pub show_matching_only: bool,
    pub exclude_patterns: Vec<String>,
    pub apply_to_output: bool,
}

/// `path` holds one of the excluded substrings.
pub open spec fn excluded_by(excludes: Seq<String>, path: Seq<char>) -> bool {
    exists|k: int| 0 <= k < excludes.len() && occurs_in(#[trigger] excludes[k]@, path)
}

/// Case-insensitive fuzzy match of `pattern` against `path`; an empty
/// pattern matches everything.
pub open spec fn tree_match(pattern: Seq<char>, path: Seq<char>) -> bool {
    pattern.len() == 0 || fuzzy(lower_of(pattern), lower_of(path))
}

impl TreeFilter {
    /// An inactive filter with an empty pattern.
    pub fn new() -> (r: TreeFilter)
        ensures
            !r.active,
            r.pattern@.len() == 0,
            r.show_matching_only,
            r.exclude_patterns@.len() == 0,
            r.apply_to_output,
    {
        TreeFilter {
            active: false,
            pattern: String::new(),
            show_matching_only: true,
            exclude_patterns: Vec::new(),
            apply_to_output: true,
        }
    }

    /// Whether the characters of the pattern appear in `path` in order,
    /// ignoring case; an empty pattern matches everything.
    pub fn matches(&self, path: &str) -> (r: bool)
        ensures
            r == tree_match(self.pattern@, path@),
    {
        if self.pattern.unicode_len() == 0 {
            return true;
        }
        let lower_path = lowercase(path);
        let lower_pattern = lowercase(self.pattern.as_str());
        fuzzy_match(lower_pattern.as_str(), lower_path.as_str())
    }

    /// Whether `path` contains one of the excluded substrings.
    pub fn is_excluded(&self, path: &str) -> (r: bool)
        ensures
            r == excluded_by(self.exclude_patterns@, path@),
    {
        let mut k: usize = 0;
        while k < self.exclude_patterns.len()
            invariant
                k <= self.exclude_patterns@.len(),
                forall|m: int| 0 <= m < k ==> !occurs_in(#[trigger] self.exclude_patterns@[m]@, path@),
            decreases self.exclude_patterns@.len() - k,
        {
            if contains_str(path, self.exclude_patterns[k].as_str()) {
                return true;
            }
            k = k + 1;
        }
        false
    }
}

/// Whether a file shows in the filtered tree: always when the filter is off
/// or its pattern empty; otherwise when no excluded substring occurs in its
/// path and the pattern matches its path or its display name.
pub fn is_file_visible(filter: &TreeFilter, path: &str, display_name: &str) -> (r: bool)
    ensures
        r == (!filter.active || filter.pattern@.len() == 0 || (!excluded_by(filter.exclude_patterns@, path@) && (
        tree_match(filter.pattern@, path@) || tree_match(filter.pattern@, display_name@)))),
{
    if !filter.active || filter.pattern.unicode_len() == 0 {
        return true;
    }
    if filter.is_excluded(path) {
        return false;
    }
    let path_match = filter.matches(path);
    let name_match = filter.matches(display_name);
    path_match || name_match
}

} // verus!
