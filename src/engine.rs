use vstd::prelude::*;
use std::collections::VecDeque;
use crate::layout::{propagate, TailLayout};
use crate::lines::texts;
use crate::preview::{last_n, read_file_for_preview, PreviewError};
use vstd::string::StringExecFns;
use crate::reader::{expected_read, poll_step, TailedFile};

verus! {

/// A file counts as idle once this many milliseconds pass without new lines.
pub const IDLE_AFTER_MS: u64 = 2000;

/// Default poll cadence in milliseconds.
pub const DEFAULT_POLL_INTERVAL_MS: u64 = 250;

/// Default capacity of the combined output buffer.
pub const DEFAULT_MAX_BUFFER_LINES: usize = 10000;

/// Default number of lines the preview shows while following a file.
pub const DEFAULT_FOLLOW_LINES: usize = 1000;

/// One line read from a tailed file.
pub struct LogLine {
    /// Poll time, in milliseconds.
    pub timestamp: u64,
    /// Display name of the file it came from.
    pub source_file: String,
    /// Its number among the lines read from that file, counting from 1.
    pub line_number: usize,
    pub content: String,
}

/// How the preview pane tracks its file.
#[derive(Debug, Clone, Copy, PartialEq, Eq, Structural)]
pub enum PreviewMode {
    /// Shows the last lines and reloads when the file grows.
    Following,
    /// Stays where the user navigated.
    Paused,
}

/// State of the tail view: the followed files, the combined output and the
/// poll schedule.
pub struct TailState {
    pub files: Vec<TailedFile>,
    pub selected_file_index: Option<usize>,
    pub output_buffer: VecDeque<LogLine>,
    pub max_buffer_lines: usize,
    pub paused_all: bool,
    pub auto_scroll: bool,
    pub filter_pattern: String,
    pub last_poll_time: u64,
    pub poll_interval_ms: u64,
    pub total_lines_received: usize,
    pub lines_dropped: usize,
    pub max_lines_per_poll: usize,
    pub preview_selected_file: Option<usize>,
    pub preview_mode: PreviewMode,
    pub preview_follow_lines: usize,
    pub preview_content: Vec<String>,
    pub preview_needs_reload: bool,
    pub layout: Option<TailLayout>,
}

/// The combined buffer after one insert: the line goes to the back, and
/// when that passes the capacity the oldest line is evicted and counted.
pub open spec fn buffer_push<T>(buf: Seq<T>, cap: usize, dropped: usize, x: T) -> (Seq<T>, usize) {
    if buf.len() + 1 > cap {
        (buf.push(x).drop_first(), crate::sat_add_usize(dropped, 1))
    } else {
        (buf.push(x), dropped)
    }
}

/// The combined buffer after a sequence of inserts.
pub open spec fn buffer_run<T>(buf: Seq<T>, cap: usize, dropped: usize, xs: Seq<T>) -> (Seq<T>, usize)
    decreases xs.len(),
{
    if xs.len() == 0 {
        (buf, dropped)
    } else {
        let (b, d) = buffer_run(buf, cap, dropped, xs.drop_last());
        buffer_push(b, cap, d, xs.last())
    }
}

/// Inserts that overflow: all of them once the buffer is full.
pub open spec fn overflow_count(len: int, cap: int, n: int) -> int {
    if len + n > cap {
        len + n - cap
    } else {
        0
    }
}

/// Whatever the inserts, the combined buffer never holds more than its
/// capacity, and the drop counter grows by exactly one for each insert that
/// would have passed it (as long as the counter does not saturate).
pub proof fn lemma_buffer_bounded<T>(buf: Seq<T>, cap: usize, dropped: usize, xs: Seq<T>)
    requires
        buf.len() <= cap,
        dropped + xs.len() <= usize::MAX,
    ensures
        buffer_run(buf, cap, dropped, xs).0.len() <= cap,
        buffer_run(buf, cap, dropped, xs).0.len() == if buf.len() + xs.len() > cap {
            cap as int
        } else {
            (buf.len() + xs.len()) as int
        },
        buffer_run(buf, cap, dropped, xs).1 == dropped + overflow_count(
            buf.len() as int,
            cap as int,
            xs.len() as int,
        ),
    decreases xs.len(),
{
    if xs.len() > 0 {
        lemma_buffer_bounded(buf, cap, dropped, xs.drop_last());
    }
}

/// What the caller saw of one file before a poll: its size now and the
/// bytes it read past the file's read position (empty unless it grew), or a
/// failure to read it.
pub enum FileObservation {
    Observed { size: u64, appended: Vec<u8> },
    Unreadable,
}

/// A combined-buffer line as plain values: time, source, number, text.
pub open spec fn line_view(l: LogLine) -> (u64, Seq<char>, usize, Seq<char>) {
    (l.timestamp, l.source_file@, l.line_number, l.content@)
}

pub open spec fn buf_views(b: Seq<LogLine>) -> Seq<(u64, Seq<char>, usize, Seq<char>)> {
    b.map_values(|l: LogLine| line_view(l))
}

/// The observation of file `i`; a missing one counts as a failed read.
pub open spec fn obs_at(obs: Seq<FileObservation>, i: int) -> FileObservation {
    if 0 <= i < obs.len() {
        obs[i]
    } else {
        FileObservation::Unreadable
    }
}

/// A poll at `now` is due: not globally paused, and the time since the last
/// poll (none, if `now` is earlier) is at least the interval.
pub open spec fn due(paused_all: bool, last_poll: u64, interval: u64, now: u64) -> bool {
    !paused_all && (if now >= last_poll {
        now - last_poll
    } else {
        0
    }) >= interval
}

/// A counter at `a` after `k` saturating increments.
pub open spec fn bumped(a: usize, k: int) -> usize {
    if a + k > usize::MAX {
        usize::MAX
    } else {
        (a + k) as usize
    }
}

/// A poll reads file `f` from `o` when the file is not paused and `o` holds
/// exactly the bytes the file's cursor asks for.
pub open spec fn usable(f: TailedFile, o: FileObservation) -> bool {
    !f.paused && match o {
        FileObservation::Observed { size, appended } => appended@.len() == expected_read(
            f.last_size,
            f.last_position,
            size,
        ),
        FileObservation::Unreadable => false,
    }
}

/// Lines the poll takes from file `f`.
pub open spec fn obs_lines(f: TailedFile, o: FileObservation) -> Seq<Seq<char>> {
    if usable(f, o) {
        match o {
            FileObservation::Observed { size, appended } => poll_step(
                f.last_size,
                f.last_position,
                size,
                appended@,
            ).2,
            FileObservation::Unreadable => Seq::empty(),
        }
    } else {
        Seq::empty()
    }
}

/// An active file that has been quiet for longer than the idle threshold.
pub open spec fn is_idle(f: TailedFile, now: u64) -> bool {
    f.is_active && now >= f.last_activity && now - f.last_activity > IDLE_AFTER_MS
}

/// File `f` after a poll at `now`: the cursor and counters move as one
/// reader poll does; new lines make it active, and an active file that
/// brought nothing for longer than the threshold turns idle.
pub open spec fn file_after(f: TailedFile, o: FileObservation, now: u64) -> TailedFile {
    if !usable(f, o) {
        f
    } else {
        match o {
            FileObservation::Observed { size, appended } => {
                let (ls, lp, lines) = poll_step(f.last_size, f.last_position, size, appended@);
                let grew = size > f.last_size;
                let base = TailedFile {
                    last_size: ls,
                    last_position: lp,
                    total_bytes_read: if grew {
                        crate::sat_add_u64(f.total_bytes_read, (size - f.last_position) as u64)
                    } else {
                        f.total_bytes_read
                    },
                    total_lines_read: if grew {
                        crate::sat_add_usize(f.total_lines_read, lines.len() as usize)
                    } else {
                        f.total_lines_read
                    },
                    ..f
                };
                if lines.len() > 0 {
                    TailedFile {
                        is_active: true,
                        last_activity: now,
                        lines_since_last_read: lines.len() as usize,
                        ..base
                    }
                } else if is_idle(f, now) {
                    TailedFile { is_active: false, lines_since_last_read: 0, ..base }
                } else {
                    base
                }
            },
            FileObservation::Unreadable => f,
        }
    }
}

/// The activity transition a poll reports for file `f`, for its group: it
/// turned active, or it turned idle. Files without a group report none.
pub open spec fn transition(f: TailedFile, o: FileObservation, now: u64) -> Option<(usize, bool)> {
    if !usable(f, o) {
        None
    } else {
        match f.group_id {
            Some(g) => if obs_lines(f, o).len() > 0 && !f.is_active {
                Some((g, true))
            } else if obs_lines(f, o).len() == 0 && is_idle(f, now) {
                Some((g, false))
            } else {
                None
            },
            None => None,
        }
    }
}

/// The combined-buffer lines file `f` contributes: stamped with the poll
/// time and the file's display name, numbered on from the file's count.
pub open spec fn out_lines(f: TailedFile, o: FileObservation, now: u64) -> Seq<(u64, Seq<char>, usize, Seq<char>)> {
    obs_lines(f, o).map(
        |k: int, c: Seq<char>| (now, f.display_name@, crate::sat_add_usize(f.total_lines_read, (k + 1) as usize), c),
    )
}

/// Lines of the first `n` files, file by file.
pub open spec fn produced(files: Seq<TailedFile>, obs: Seq<FileObservation>, now: u64, n: int) -> Seq<(u64, Seq<char>, usize, Seq<char>)>
    decreases n,
{
    if n <= 0 {
        Seq::empty()
    } else {
        produced(files, obs, now, n - 1) + out_lines(files[n - 1], obs_at(obs, n - 1), now)
    }
}

/// Transitions of the first `n` files, in file order.
pub open spec fn changes_upto(files: Seq<TailedFile>, obs: Seq<FileObservation>, now: u64, n: int) -> Seq<(usize, bool)>
    decreases n,
{
    if n <= 0 {
        Seq::empty()
    } else {
        let rest = changes_upto(files, obs, now, n - 1);
        match transition(files[n - 1], obs_at(obs, n - 1), now) {
            Some(t) => rest.push(t),
            None => rest,
        }
    }
}

/// The groups after applying `chs` one after another.
pub open spec fn apply_all(gs: Seq<crate::layout::FileGroup>, chs: Seq<(usize, bool)>, auto: bool) -> Seq<crate::layout::FileGroup>
    decreases chs.len(),
{
    if chs.len() == 0 {
        gs
    } else {
        propagate(apply_all(gs, chs.drop_last(), auto), chs.last().0 as int, chs.last().1, auto)
    }
}

/// Whether one of the first `n` files is the one the following preview
/// shows and brought lines.
pub open spec fn preview_hit(
    mode: PreviewMode,
    sel: Option<usize>,
    files: Seq<TailedFile>,
    obs: Seq<FileObservation>,
    n: int,
) -> bool {
    mode == PreviewMode::Following && match sel {
        Some(s) => s < n && s < files.len() && obs_lines(files[s as int], obs_at(obs, s as int)).len() > 0,
        None => false,
    }
}

proof fn lemma_buffer_run_append<T>(buf: Seq<T>, cap: usize, dropped: usize, xs: Seq<T>, ys: Seq<T>)
    ensures
        buffer_run(buf, cap, dropped, xs + ys) == {
            let (b, d) = buffer_run(buf, cap, dropped, xs);
            buffer_run(b, cap, d, ys)
        },
    decreases ys.len(),
{
    if ys.len() == 0 {
        assert(xs + ys =~= xs);
    } else {
        lemma_buffer_run_append(buf, cap, dropped, xs, ys.drop_last());
        assert((xs + ys).drop_last() =~= xs + ys.drop_last());
        assert((xs + ys).last() == ys.last());
    }
}

/// Applies activity transitions to the layout, one after another.
fn apply_changes(l: &mut TailLayout, changes: &Vec<(usize, bool)>)
    requires
        old(l).wf(),
    ensures
        final(l).wf(),
        final(l).groups@ == apply_all(old(l).groups@, changes@, old(l).settings.auto_expand_active),
        final(l).settings == old(l).settings,
{
    let mut k: usize = 0;
    assert(changes@.subrange(0, 0) =~= Seq::<(usize, bool)>::empty());
    while k < changes.len()
        invariant
            l.wf(),
            k <= changes@.len(),
            l.settings == old(l).settings,
            l.groups@ == apply_all(old(l).groups@, changes@.subrange(0, k as int), old(l).settings.auto_expand_active),
        decreases changes@.len() - k,
    {
        let (g, a) = changes[k];
        l.update_group_activity(g, a);
        assert(changes@.subrange(0, k + 1).drop_last() =~= changes@.subrange(0, k as int));
        k = k + 1;
    }
    assert(changes@.subrange(0, changes@.len() as int) =~= changes@);
}

impl TailState {
    /// The buffer is within capacity, every file's cursor is consistent and
    /// the layout, when loaded, is well formed.
    pub open spec fn wf(&self) -> bool {
        &&& self.output_buffer@.len() <= self.max_buffer_lines
        &&& forall|i: int| 0 <= i < self.files@.len() ==> (#[trigger] self.files@[i]).wf()
        &&& self.layout matches Some(l) ==> l.wf()
    }

    /// An empty tail view at time `now` with the default settings.
    pub fn new(now: u64) -> (r: TailState)
        ensures
            r.wf(),
            r.files@.len() == 0,
            r.selected_file_index is None,
            r.output_buffer@.len() == 0,
            r.max_buffer_lines == DEFAULT_MAX_BUFFER_LINES,
            !r.paused_all,
            r.auto_scroll,
            r.filter_pattern@.len() == 0,
            r.last_poll_time == now,
            r.poll_interval_ms == DEFAULT_POLL_INTERVAL_MS,
            r.total_lines_received == 0,
            r.lines_dropped == 0,
            r.max_lines_per_poll == 100,
            r.preview_selected_file is None,
            r.preview_mode == PreviewMode::Following,
            r.preview_follow_lines == DEFAULT_FOLLOW_LINES,
            r.preview_content@.len() == 0,
            !r.preview_needs_reload,
            r.layout is None,
    {
        TailState {
            files: Vec::new(),
            selected_file_index: None,
            output_buffer: VecDeque::new(),
            max_buffer_lines: DEFAULT_MAX_BUFFER_LINES,
            paused_all: false,
            auto_scroll: true,
            filter_pattern: String::new(),
            last_poll_time: now,
            poll_interval_ms: DEFAULT_POLL_INTERVAL_MS,
            total_lines_received: 0,
            lines_dropped: 0,
            max_lines_per_poll: 100,
            preview_selected_file: None,
            preview_mode: PreviewMode::Following,
            preview_follow_lines: DEFAULT_FOLLOW_LINES,
            preview_content: Vec::new(),
            preview_needs_reload: false,
            layout: None,
        }
    }

    /// Appends a line to the combined buffer, evicting the oldest line and
    /// counting the drop when the buffer would pass its capacity.
    pub fn push_output(&mut self, line: LogLine)
        requires
            old(self).wf(),
        ensures
            final(self).wf(),
            (final(self).output_buffer@, final(self).lines_dropped) == buffer_push(
                old(self).output_buffer@,
                old(self).max_buffer_lines,
                old(self).lines_dropped,
                line,
            ),
            (buf_views(final(self).output_buffer@), final(self).lines_dropped) == buffer_push(
                buf_views(old(self).output_buffer@),
                old(self).max_buffer_lines,
                old(self).lines_dropped,
                line_view(line),
            ),
            final(self).total_lines_received == crate::sat_add_usize(old(self).total_lines_received, 1),
            final(self).files == old(self).files,
            final(self).preview_mode == old(self).preview_mode,
            final(self).preview_selected_file == old(self).preview_selected_file,
            final(self).preview_needs_reload == old(self).preview_needs_reload,
            final(self).last_poll_time == old(self).last_poll_time,
            final(self).paused_all == old(self).paused_all,
            final(self).poll_interval_ms == old(self).poll_interval_ms,
            final(self).layout == old(self).layout,
            final(self).max_buffer_lines == old(self).max_buffer_lines,
    {
        let ghost b0 = self.output_buffer@;
        self.output_buffer.push_back(line);
        self.total_lines_received = self.total_lines_received.saturating_add(1);
        if self.output_buffer.len() > self.max_buffer_lines {
            let _ = self.output_buffer.pop_front();
            self.lines_dropped = self.lines_dropped.saturating_add(1);
            assert(self.output_buffer@ =~= b0.push(line).drop_first());
            assert(buf_views(self.output_buffer@) =~= buf_views(b0).push(line_view(line)).drop_first());
        } else {
            assert(buf_views(self.output_buffer@) =~= buf_views(b0).push(line_view(line)));
        }
    }

    /// Whether a poll at `now` is due: not globally paused, and at least the
    /// poll interval since the last poll (time before the last poll counts
    /// as none elapsed).
    pub fn poll_due(&self, now: u64) -> (r: bool)
        ensures
            r == due(self.paused_all, self.last_poll_time, self.poll_interval_ms, now),
    {
        let elapsed = now.saturating_sub(self.last_poll_time);
        !self.paused_all && elapsed >= self.poll_interval_ms
    }

    /// Polls file `i` from observation `o`: updates the file, appends its
    /// lines to the combined buffer, records its activity transition in
    /// `changes` and flags the preview for reload when it follows this file.
    fn poll_file(&mut self, i: usize, now: u64, o: &FileObservation, changes: &mut Vec<(usize, bool)>)
        requires
            old(self).wf(),
            i < old(self).files@.len(),
        ensures
            final(self).wf(),
            final(self).files@ == old(self).files@.update(
                i as int,
                file_after(old(self).files@[i as int], *o, now),
            ),
            (buf_views(final(self).output_buffer@), final(self).lines_dropped) == buffer_run(
                buf_views(old(self).output_buffer@),
                old(self).max_buffer_lines,
                old(self).lines_dropped,
                out_lines(old(self).files@[i as int], *o, now),
            ),
            final(self).total_lines_received == bumped(
                old(self).total_lines_received,
                out_lines(old(self).files@[i as int], *o, now).len() as int,
            ),
            final(changes)@ == match transition(old(self).files@[i as int], *o, now) {
                Some(t) => old(changes)@.push(t),
                None => old(changes)@,
            },
            final(self).preview_needs_reload == (old(self).preview_needs_reload || (
            old(self).preview_mode == PreviewMode::Following && old(self).preview_selected_file
                == Some(i) && obs_lines(old(self).files@[i as int], *o).len() > 0)),
            final(self).layout == old(self).layout,
            final(self).max_buffer_lines == old(self).max_buffer_lines,
            final(self).preview_mode == old(self).preview_mode,
            final(self).preview_selected_file == old(self).preview_selected_file,
            final(self).last_poll_time == old(self).last_poll_time,
            final(self).paused_all == old(self).paused_all,
            final(self).poll_interval_ms == old(self).poll_interval_ms,
    {
        let ghost f0 = self.files@[i as int];
        let ghost b0 = buf_views(self.output_buffer@);
        if self.files[i].paused {
            proof { assert(self.files@ =~= self.files@.update(i as int, f0)); }
            assert(out_lines(f0, *o, now) =~= Seq::<(u64, Seq<char>, usize, Seq<char>)>::empty());
            return;
        }
        match o {
            FileObservation::Unreadable => {
                proof { assert(self.files@ =~= self.files@.update(i as int, f0)); }
                assert(out_lines(f0, *o, now) =~= Seq::<(u64, Seq<char>, usize, Seq<char>)>::empty());
            },
            FileObservation::Observed { size, appended } => {
                let size = *size;
                let expected: u64 = if size > self.files[i].last_size {
                    size - self.files[i].last_position
                } else {
                    0
                };
                if appended.len() as u128 != expected as u128 {
                    proof { assert(self.files@ =~= self.files@.update(i as int, f0)); }
                    assert(out_lines(f0, *o, now) =~= Seq::<(u64, Seq<char>, usize, Seq<char>)>::empty());
                    return;
                }
                assert(usable(f0, *o));
                let was = self.files[i].is_active;
                let old_total = self.files[i].total_lines_read;
                let lines = self.files[i].check_for_updates(size, appended.as_slice());
                assert(texts(lines@) == obs_lines(f0, *o));
                let n = lines.len();
                if n > 0 {
                    self.files[i].is_active = true;
                    self.files[i].last_activity = now;
                    self.files[i].lines_since_last_read = n;
                    if !was {
                        match self.files[i].group_id {
                            Some(g) => {
                                changes.push((g, true));
                            },
                            None => {},
                        }
                    }
                    let ghost files_now = self.files@;
                    assert(files_now =~= old(self).files@.update(i as int, file_after(f0, *o, now)));
                    let mut k: usize = 0;
                    let ghost outs = out_lines(f0, *o, now);
                    assert(outs.subrange(0, 0) =~= Seq::<(u64, Seq<char>, usize, Seq<char>)>::empty());
                    while k < n
                        invariant
                            self.wf(),
                            k <= n,
                            n == lines@.len(),
                            texts(lines@) == obs_lines(f0, *o),
                            outs == out_lines(f0, *o, now),
                            old_total == f0.total_lines_read,
                            self.files@ == files_now,
                            i < self.files@.len(),
                            self.files@[i as int].display_name == f0.display_name,
                            (buf_views(self.output_buffer@), self.lines_dropped) == buffer_run(
                                b0,
                                old(self).max_buffer_lines,
                                old(self).lines_dropped,
                                outs.subrange(0, k as int),
                            ),
                            self.max_buffer_lines == old(self).max_buffer_lines,
                            self.total_lines_received == bumped(old(self).total_lines_received, k as int),
                            self.layout == old(self).layout,
                            self.preview_mode == old(self).preview_mode,
                            self.preview_selected_file == old(self).preview_selected_file,
                            self.preview_needs_reload == old(self).preview_needs_reload,
                            self.last_poll_time == old(self).last_poll_time,
                            self.paused_all == old(self).paused_all,
                            self.poll_interval_ms == old(self).poll_interval_ms,
                        decreases n - k,
                    {
                        let line = LogLine {
                            timestamp: now,
                            source_file: self.files[i].display_name.clone(),
                            line_number: old_total.saturating_add(k + 1),
                            content: lines[k].clone(),
                        };
                        assert(texts(lines@)[k as int] == lines@[k as int]@);
                        assert(line_view(line) == outs[k as int]);
                        assert(outs.subrange(0, k + 1) =~= outs.subrange(0, k as int).push(outs[k as int]));
                        assert(outs.subrange(0, k + 1).drop_last() =~= outs.subrange(0, k as int));
                        self.push_output(line);
                        k = k + 1;
                    }
                    assert(outs.subrange(0, n as int) =~= outs);
                    if self.preview_mode == PreviewMode::Following {
                        match self.preview_selected_file {
                            Some(sel) => {
                                if sel == i {
                                    self.preview_needs_reload = true;
                                }
                            },
                            None => {},
                        }
                    }
                } else {
                    let la = self.files[i].last_activity;
                    if was && now >= la && now - la > IDLE_AFTER_MS {
                        self.files[i].is_active = false;
                        self.files[i].lines_since_last_read = 0;
                        match self.files[i].group_id {
                            Some(g) => {
                                changes.push((g, false));
                            },
                            None => {},
                        }
                    }
                    assert(self.files@ =~= old(self).files@.update(i as int, file_after(f0, *o, now)));
                    assert(out_lines(f0, *o, now) =~= Seq::<(u64, Seq<char>, usize, Seq<char>)>::empty());
                }
            },
        }
    }

    /// One poll at time `now`, given what the caller observed of each file
    /// (by index; a missing entry counts as a failed read). Nothing happens
    /// unless a poll is due. Otherwise every file that is not paused and was
    /// read consistently is polled: its lines go to the combined buffer in
    /// file order, its activity is updated, and once all files are done the
    /// activity transitions are applied to the layout in the same order.
    /// A file whose read failed is skipped this time only. Returns whether
    /// the poll ran.
    pub fn poll(&mut self, now: u64, observations: &Vec<FileObservation>) -> (r: bool)
        requires
            old(self).wf(),
        ensures
            final(self).wf(),
            r == due(old(self).paused_all, old(self).last_poll_time, old(self).poll_interval_ms, now),
            !r ==> *final(self) == *old(self),
            r ==> {
                let fs = old(self).files@;
                let n = fs.len() as int;
                &&& final(self).last_poll_time == now
                &&& final(self).files@.len() == fs.len()
                &&& forall|j: int|
                    0 <= j < n ==> #[trigger] final(self).files@[j] == file_after(
                        fs[j],
                        obs_at(observations@, j),
                        now,
                    )
                &&& (buf_views(final(self).output_buffer@), final(self).lines_dropped)
                    == buffer_run(
                    buf_views(old(self).output_buffer@),
                    old(self).max_buffer_lines,
                    old(self).lines_dropped,
                    produced(fs, observations@, now, n),
                )
                &&& final(self).total_lines_received == bumped(
                    old(self).total_lines_received,
                    produced(fs, observations@, now, n).len() as int,
                )
                &&& final(self).preview_needs_reload == (old(self).preview_needs_reload
                    || preview_hit(
                    old(self).preview_mode,
                    old(self).preview_selected_file,
                    fs,
                    observations@,
                    n,
                ))
                &&& match old(self).layout {
                    Some(l) => final(self).layout matches Some(l2) && l2.settings == l.settings
                        && l2.groups@ == apply_all(
                        l.groups@,
                        changes_upto(fs, observations@, now, n),
                        l.settings.auto_expand_active,
                    ),
                    None => final(self).layout is None,
                }
            },
    {
        if !self.poll_due(now) {
            return false;
        }
        self.last_poll_time = now;
        let mut changes: Vec<(usize, bool)> = Vec::new();
        let ghost fs = old(self).files@;
        let ghost b0 = buf_views(old(self).output_buffer@);
        let mut i: usize = 0;
        while i < self.files.len()
            invariant
                self.wf(),
                self.files@.len() == fs.len(),
                i <= fs.len(),
                forall|j: int| 0 <= j < i ==> #[trigger] self.files@[j] == file_after(
                    fs[j],
                    obs_at(observations@, j),
                    now,
                ),
                forall|j: int| i <= j < fs.len() ==> #[trigger] self.files@[j] == fs[j],
                (buf_views(self.output_buffer@), self.lines_dropped) == buffer_run(
                    b0,
                    old(self).max_buffer_lines,
                    old(self).lines_dropped,
                    produced(fs, observations@, now, i as int),
                ),
                changes@ == changes_upto(fs, observations@, now, i as int),
                self.total_lines_received == bumped(
                    old(self).total_lines_received,
                    produced(fs, observations@, now, i as int).len() as int,
                ),
                self.preview_needs_reload == (old(self).preview_needs_reload || preview_hit(
                    old(self).preview_mode,
                    old(self).preview_selected_file,
                    fs,
                    observations@,
                    i as int,
                )),
                self.layout == old(self).layout,
                self.max_buffer_lines == old(self).max_buffer_lines,
                self.preview_mode == old(self).preview_mode,
                self.preview_selected_file == old(self).preview_selected_file,
                self.last_poll_time == now,
            decreases fs.len() - i,
        {
            let ghost o = obs_at(observations@, i as int);
            let ghost before = self.files@;
            if i < observations.len() {
                let ob = &observations[i];
                assert(*ob == o);
                self.poll_file(i, now, ob, &mut changes);
            } else {
                let unreadable = FileObservation::Unreadable;
                assert(unreadable == o);
                self.poll_file(i, now, &unreadable, &mut changes);
            }
            proof {
                lemma_buffer_run_append(
                    b0,
                    old(self).max_buffer_lines,
                    old(self).lines_dropped,
                    produced(fs, observations@, now, i as int),
                    out_lines(fs[i as int], o, now),
                );
                assert(before[i as int] == fs[i as int]);
                assert(self.files@ == before.update(i as int, file_after(fs[i as int], o, now)));
                assert forall|j: int| 0 <= j < i + 1 implies #[trigger] self.files@[j] == file_after(
                    fs[j],
                    obs_at(observations@, j),
                    now,
                ) by {
                    if j < i {
                        assert(before[j] == file_after(fs[j], obs_at(observations@, j), now));
                    }
                }
                assert forall|j: int| i + 1 <= j < fs.len() implies #[trigger] self.files@[j] == fs[j] by {
                    assert(before[j] == fs[j]);
                }
            }
            i = i + 1;
        }
        match self.layout {
            Some(ref mut l) => {
                apply_changes(l, &changes);
            },
            None => {},
        }
        true
    }

    /// Starts tailing a file that was opened.
    pub fn add_file(&mut self, file: TailedFile)
        requires
            old(self).wf(),
            file.wf(),
        ensures
            final(self).wf(),
            final(self).files@ == old(self).files@.push(TailedFile { group_id: None, ..file }),
            final(self).layout == old(self).layout,
    {
        self.add_file_with_group(file, None);
    }

    /// Starts tailing a file that was opened, as a member of `group_id`.
    pub fn add_file_with_group(&mut self, file: TailedFile, group_id: Option<usize>)
        requires
            old(self).wf(),
            file.wf(),
        ensures
            final(self).wf(),
            final(self).files@ == old(self).files@.push(TailedFile { group_id, ..file }),
            final(self).layout == old(self).layout,
    {
        let mut f = file;
        f.group_id = group_id;
        self.files.push(f);
    }

    /// Adds the file of one layout entry: it takes the entry's display name
    /// when one is given, the entry's group and its paused flag.
    pub fn add_layout_file(&mut self, file: TailedFile, name: Option<String>, group_id: usize, paused: bool)
        requires
            old(self).wf(),
            file.wf(),
        ensures
            final(self).wf(),
            final(self).files@.len() == old(self).files@.len() + 1,
            forall|j: int| 0 <= j < old(self).files@.len() ==> #[trigger] final(self).files@[j] == old(self).files@[j],
            ({
                let f = final(self).files@[old(self).files@.len() as int];
                &&& f.display_name@ == match name {
                    Some(n) => n@,
                    None => file.display_name@,
                }
                &&& f.group_id == Some(group_id)
                &&& f.paused == paused
                &&& f.path == file.path
                &&& f.last_size == file.last_size
                &&& f.last_position == file.last_position
                &&& f.is_active == file.is_active
                &&& f.last_activity == file.last_activity
                &&& f.total_lines_read == file.total_lines_read
                &&& f.total_bytes_read == file.total_bytes_read
            }),
            final(self).layout == old(self).layout,
            final(self).poll_interval_ms == old(self).poll_interval_ms,
    {
        let mut f = file;
        match name {
            Some(n) => {
                f.display_name = n;
            },
            None => {},
        }
        f.group_id = Some(group_id);
        f.paused = paused;
        self.files.push(f);
    }

    /// Installs a loaded layout: its poll interval, when it sets one,
    /// replaces the current one.
    pub fn set_layout(&mut self, layout: TailLayout)
        requires
            old(self).wf(),
            layout.wf(),
        ensures
            final(self).wf(),
            final(self).poll_interval_ms == match layout.settings.poll_interval_ms {
                Some(ms) => ms,
                None => old(self).poll_interval_ms,
            },
            final(self).layout == Some(layout),
            final(self).files == old(self).files,
    {
        match layout.settings.poll_interval_ms {
            Some(ms) => {
                self.poll_interval_ms = ms;
            },
            None => {},
        }
        self.layout = Some(layout);
    }

    /// Loads a layout together with the files its entries name: entry `k`
    /// of `layout.get_all_file_paths()` goes with `opened[k]`, the file as
    /// opened or `None` when it could not be, which is then left out. Each
    /// file takes its entry's display name (when one is given), group and
    /// paused flag; the layout's poll interval, when set, replaces the
    /// current one.
    #[verifier::rlimit(40)]
    pub fn load_layout(&mut self, layout: TailLayout, opened: Vec<Option<TailedFile>>)
        requires
            old(self).wf(),
            layout.wf(),
            forall|i: int| 0 <= i < opened@.len() ==> (#[trigger] opened@[i] matches Some(f) ==> f.wf()),
        ensures
            final(self).wf(),
            final(self).layout == Some(layout),
            final(self).poll_interval_ms == match layout.settings.poll_interval_ms {
                Some(ms) => ms,
                None => old(self).poll_interval_ms,
            },
            ({
                let rows = layout_rows(layout);
                let n0 = old(self).files@.len() as int;
                &&& final(self).files@.len() == n0 + opened_count(opened@, rows.len() as int)
                &&& forall|j: int| 0 <= j < n0 ==> #[trigger] final(self).files@[j] == old(self).files@[j]
                &&& forall|k: int|
                    0 <= k < rows.len() && k < opened@.len() && #[trigger] opened@[k] is Some ==> loaded_from(
                        final(self).files@[n0 + opened_count(opened@, k)],
                        opened@[k]->0,
                        rows[k],
                    )
            }),
    {
        let mut rows = layout.get_all_file_paths();
        let ghost rows0 = layout_rows(layout);
        let ghost opened0 = opened@;
        let mut slots = opened;
        let ghost n0 = self.files@.len() as int;
        let mut i: usize = 0;
        while i < rows.len()
            invariant
                self.wf(),
                layout.wf(),
                i <= rows@.len(),
                rows@.len() == rows0.len(),
                slots@.len() == opened0.len(),
                forall|k: int| i <= k < rows@.len() ==> crate::layout::row_view(#[trigger] rows@[k]) == rows0[k],
                forall|k: int| i <= k < slots@.len() ==> #[trigger] slots@[k] == opened0[k],
                forall|k: int| 0 <= k < opened0.len() ==> (#[trigger] opened0[k] matches Some(f) ==> f.wf()),
                self.files@.len() == n0 + opened_count(opened0, i as int),
                n0 == old(self).files@.len(),
                forall|j: int| 0 <= j < n0 ==> #[trigger] self.files@[j] == old(self).files@[j],
                forall|k: int|
                    0 <= k < i && k < opened0.len() && #[trigger] opened0[k] is Some ==> loaded_from(
                        self.files@[n0 + opened_count(opened0, k)],
                        opened0[k]->0,
                        rows0[k],
                    ),
                self.layout == old(self).layout,
                self.poll_interval_ms == old(self).poll_interval_ms,
            decreases rows@.len() - i,
        {
            proof {
                lemma_opened_count_step(opened0, i as int);
            }
            let ghost files_before = self.files@;
            if i < slots.len() {
                let mut slot: Option<TailedFile> = None;
                std::mem::swap(&mut slot, &mut slots[i]);
                match slot {
                    Some(f) => {
                        let ghost row = rows0[i as int];
                        let mut name: Option<String> = None;
                        std::mem::swap(&mut name, &mut rows[i].1);
                        let gid = rows[i].2;
                        let paused = rows[i].3;
                        self.add_layout_file(f, name, gid, paused);
                        assert(loaded_from(self.files@[n0 + opened_count(opened0, i as int)], f, row));
                        assert(forall|j: int| 0 <= j < files_before.len() ==> #[trigger] self.files@[j] == files_before[j]);
                    },
                    None => {},
                }
            }
            assert(forall|j: int| 0 <= j < files_before.len() ==> #[trigger] self.files@[j] == files_before[j]);
            proof {
                assert forall|k: int|
                    0 <= k < i && k < opened0.len() && #[trigger] opened0[k] is Some implies loaded_from(
                        self.files@[n0 + opened_count(opened0, k)],
                        opened0[k]->0,
                        rows0[k],
                    ) by {
                    lemma_opened_count_mono(opened0, k, i as int);
                    lemma_opened_count_step(opened0, k);
                    assert(files_before.len() == n0 + opened_count(opened0, i as int));
                    assert(self.files@[n0 + opened_count(opened0, k)] == files_before[n0 + opened_count(opened0, k)]);
                }
            }
            i = i + 1;
        }
        self.set_layout(layout);
    }

    /// Path of the file the preview pane shows, if one is selected.
    pub fn preview_file_path(&self) -> (r: Option<String>)
        ensures
            match self.preview_selected_file {
                Some(i) => if i < self.files@.len() {
                    r matches Some(p) && p@ == self.files@[i as int].path@
                } else {
                    r is None
                },
                None => r is None,
            },
    {
        match self.preview_selected_file {
            Some(i) => {
                if i < self.files.len() {
                    Some(self.files[i].path.clone())
                } else {
                    None
                }
            },
            None => None,
        }
    }

    /// Reloads the preview pane from the selected file's content, or from
    /// the error met reading it. Following shows the file's last lines;
    /// paused shows all of them. On success the reload request is cleared;
    /// on an error the pane shows a single error line and the request stays.
    /// Without a selected file nothing changes.
    pub fn reload_tail_preview(&mut self, file: Result<&[u8], String>)
        requires
            old(self).wf(),
        ensures
            final(self).wf(),
            final(self).files == old(self).files,
            final(self).layout == old(self).layout,
            !(old(self).preview_selected_file matches Some(i) && i < old(self).files@.len()) ==> (
            final(self).preview_content == old(self).preview_content
                && final(self).preview_needs_reload == old(self).preview_needs_reload),
            (old(self).preview_selected_file matches Some(i) && i < old(self).files@.len()) ==> match file {
                Ok(b) => if old(self).preview_mode == PreviewMode::Following
                    || crate::lines::lines_of(b@).len() == crate::lines::raw_lines(b@).len() {
                    &&& texts(final(self).preview_content@) == if old(self).preview_mode == PreviewMode::Following {
                        last_n(crate::lines::lines_of(b@), old(self).preview_follow_lines as nat)
                    } else {
                        crate::lines::lines_of(b@)
                    }
                    &&& !final(self).preview_needs_reload
                } else {
                    &&& texts(final(self).preview_content@) == seq![invalid_data_message()]
                    &&& final(self).preview_needs_reload == old(self).preview_needs_reload
                },
                Err(msg) => {
                    &&& texts(final(self).preview_content@) == seq!["Error: "@ + msg@]
                    &&& final(self).preview_needs_reload == old(self).preview_needs_reload
                },
            },
    {
        match self.preview_selected_file {
            Some(i) => {
                if i < self.files.len() {
                    match file {
                        Ok(b) => {
                            match read_file_for_preview(b, self.preview_mode, self.preview_follow_lines) {
                                Ok(lines) => {
                                    self.preview_content = lines;
                                    self.preview_needs_reload = false;
                                },
                                Err(PreviewError::InvalidData) => {
                                    let m = String::from_str("Error: stream did not contain valid UTF-8");
                                    proof {
                                        reveal_strlit("Error: stream did not contain valid UTF-8");
                                    }
                                    let v = vec![m];
                                    assert(texts(v@) =~= seq![invalid_data_message()]);
                                    self.preview_content = v;
                                },
                            }
                        },
                        Err(msg) => {
                            let mut m = String::from_str("Error: ");
                            m.append(msg.as_str());
                            proof {
                                reveal_strlit("Error: ");
                            }
                            let v = vec![m];
                            assert(texts(v@) =~= seq!["Error: "@ + msg@]);
                            self.preview_content = v;
                        },
                    }
                }
            },
            None => {},
        }
    }

    /// Passes one file's activity transition on to the layout's groups,
    /// when a layout is loaded.
    pub fn propagate_activity_to_group(&mut self, group_id: usize, active: bool)
        requires
            old(self).wf(),
        ensures
            final(self).wf(),
            final(self).files == old(self).files,
            match old(self).layout {
                Some(l) => final(self).layout matches Some(l2) && l2.groups@ == propagate(
                    l.groups@,
                    group_id as int,
                    active,
                    l.settings.auto_expand_active,
                ) && l2.settings == l.settings,
                None => final(self).layout is None,
            },
    {
        match self.layout {
            Some(ref mut l) => {
                l.update_group_activity(group_id, active);
            },
            None => {},
        }
    }
}

/// Text of the preview line that stands for a file that is not UTF-8.
pub open spec fn invalid_data_message() -> Seq<char> {
    "Error: stream did not contain valid UTF-8"@
}

/// The file belongs to one of the first `n` groups.
pub open spec fn in_some_group(f: TailedFile, n: nat) -> bool {
    match f.group_id {
        Some(g) => g < n,
        None => false,
    }
}

/// The rows of a layout's file entries, as `get_all_file_paths` lists them.
pub open spec fn layout_rows(l: TailLayout) -> Seq<(Seq<char>, Option<Seq<char>>, usize, bool)> {
    crate::layout::rows_upto(l.groups@, l.groups@.len() as int)
}

/// How many of the first `n` files were opened.
pub open spec fn opened_count(opened: Seq<Option<TailedFile>>, n: int) -> int
    decreases n,
{
    if n <= 0 {
        0
    } else {
        opened_count(opened, n - 1) + if n - 1 < opened.len() && opened[n - 1] is Some {
            1int
        } else {
            0
        }
    }
}

proof fn lemma_opened_count_step(opened: Seq<Option<TailedFile>>, n: int)
    requires
        n >= 0,
    ensures
        opened_count(opened, n + 1) == opened_count(opened, n) + if n < opened.len() && opened[n] is Some {
            1int
        } else {
            0
        },
        opened_count(opened, n) >= 0,
    decreases n,
{
    if n > 0 {
        lemma_opened_count_step(opened, n - 1);
    }
}

proof fn lemma_opened_count_mono(opened: Seq<Option<TailedFile>>, k: int, i: int)
    requires
        0 <= k < i,
        k < opened.len(),
        opened[k] is Some,
    ensures
        opened_count(opened, k) + 1 <= opened_count(opened, i),
    decreases i,
{
    lemma_opened_count_step(opened, i - 1);
    if k < i - 1 {
        lemma_opened_count_mono(opened, k, i - 1);
    }
}

/// File `f` is `src` set up for layout entry `row`: the entry's display
/// name when it has one, its group and its paused flag.
pub open spec fn loaded_from(f: TailedFile, src: TailedFile, row: (Seq<char>, Option<Seq<char>>, usize, bool)) -> bool {
    &&& f.display_name@ == match row.1 {
        Some(n) => n,
        None => src.display_name@,
    }
    &&& f.group_id == Some(row.2)
    &&& f.paused == row.3
    &&& f.path == src.path
    &&& f.last_size == src.last_size
    &&& f.last_position == src.last_position
    &&& f.is_active == src.is_active
    &&& f.last_activity == src.last_activity
    &&& f.total_lines_read == src.total_lines_read
    &&& f.total_bytes_read == src.total_bytes_read
}

/// Number of file entries of a layout.
pub open spec fn rows_len_of(l: TailLayout) -> int {
    crate::layout::rows_upto(l.groups@, l.groups@.len() as int).len() as int
}

} // verus!
