use vstd::prelude::*;
use crate::lines::{ends_at_line_boundary, lemma_lines_of_append, lines_of, split_lines, texts};

verus! {

/// Text of the line that stands for a truncated or rotated file.
pub open spec fn rotation_marker() -> Seq<char> {
    "[FILE TRUNCATED/ROTATED]"@
}

/// Why a file's reading is held back.
#[derive(Debug, Clone, Copy, PartialEq, Eq, Structural)]
pub enum ThrottleReason {
    TooFast,
    UserPaused,
    BufferFull,
}

/// Rate state of a tailed file; the poll loop does not consult it yet.
/// A throttled file would keep `skip_per_mille` lines out of each thousand.
#[derive(Debug, Clone, Copy, PartialEq, Eq, Structural)]
pub enum ThrottleState {
    Normal,
    Throttled { skip_per_mille: u32 },
    Paused { reason: ThrottleReason },
}

/// One file followed from its end, the way `tail -f` does.
/// Times are milliseconds on the caller's monotonic clock.
pub struct TailedFile {
    pub path: String,
    pub display_name: String,
    pub last_size: u64,
    pub last_position: u64,
    pub is_active: bool,
    pub last_activity: u64,
    pub lines_since_last_read: usize,
    pub paused: bool,
    pub throttle_state: ThrottleState,
    pub total_lines_read: usize,
    pub total_bytes_read: u64,
    pub group_id: Option<usize>,
}

/// What the next poll must read: the bytes `[from, to)` of the file.
#[derive(Debug, Clone, Copy, PartialEq, Eq, Structural)]
pub struct ReadRange {
    pub from: u64,
    pub to: u64,
}

/// Number of bytes a poll at `current_size` hands over: all that lies past
/// the read position when the file grew, nothing otherwise.
pub open spec fn expected_read(last_size: u64, last_position: u64, current_size: u64) -> int {
    if current_size > last_size {
        current_size - last_position
    } else {
        0
    }
}

/// One poll of a file: the new `(last_size, last_position)` and the lines
/// returned, given the size now observed and the bytes appended past the
/// read position.
pub open spec fn poll_step(last_size: u64, last_position: u64, current_size: u64, appended: Seq<u8>) -> (
    u64,
    u64,
    Seq<Seq<char>>,
) {
    if current_size > last_size {
        (current_size, current_size, lines_of(appended))
    } else if current_size < last_size {
        (current_size, 0, seq![rotation_marker()])
    } else {
        (last_size, last_position, Seq::empty())
    }
}

impl TailedFile {
    /// The read cursor never passes the observed size.
    pub open spec fn wf(&self) -> bool {
        self.last_position <= self.last_size
    }

    /// Starts following a file of `size` bytes from its end, at time `now`.
    pub fn new(path: String, display_name: String, size: u64, now: u64) -> (r: TailedFile)
        ensures
            r.wf(),
            r.path@ == path@,
            r.display_name@ == display_name@,
            r.last_size == size,
            r.last_position == size,
            !r.is_active,
            r.last_activity == now,
            r.lines_since_last_read == 0,
            !r.paused,
            r.throttle_state == ThrottleState::Normal,
            r.total_lines_read == 0,
            r.total_bytes_read == 0,
            r.group_id is None,
    {
        TailedFile {
            path,
            display_name,
            last_size: size,
            last_position: size,
            is_active: false,
            last_activity: now,
            lines_since_last_read: 0,
            paused: false,
            throttle_state: ThrottleState::Normal,
            total_lines_read: 0,
            total_bytes_read: 0,
            group_id: None,
        }
    }

    /// The byte range a poll must read when the file now has `current_size`
    /// bytes: from the read position to the new size when the file grew.
    pub fn pending_read(&self, current_size: u64) -> (r: Option<ReadRange>)
        requires
            self.wf(),
        ensures
            current_size > self.last_size <==> r is Some,
            r matches Some(rr) ==> rr.from == self.last_position && rr.to == current_size && rr.to
                - rr.from == expected_read(self.last_size, self.last_position, current_size),
    {
        if current_size > self.last_size {
            Some(ReadRange { from: self.last_position, to: current_size })
        } else {
            None
        }
    }

    /// One poll of the file, given its size now and the bytes appended past
    /// the read position (empty unless it grew). Growth returns the new lines
    /// and moves the cursor to the end; a smaller size is a truncation or a
    /// rotation: the cursor restarts at byte 0 and a single marker line comes
    /// back; an unchanged size returns nothing.
    pub fn check_for_updates(&mut self, current_size: u64, appended: &[u8]) -> (r: Vec<String>)
        requires
            old(self).wf(),
            appended@.len() == expected_read(
                old(self).last_size,
                old(self).last_position,
                current_size,
            ),
        ensures
            final(self).wf(),
            (final(self).last_size, final(self).last_position, texts(r@)) == poll_step(
                old(self).last_size,
                old(self).last_position,
                current_size,
                appended@,
            ),
            final(self).total_bytes_read == if current_size > old(self).last_size {
                crate::sat_add_u64(
                    old(self).total_bytes_read,
                    (current_size - old(self).last_position) as u64,
                )
            } else {
                old(self).total_bytes_read
            },
            final(self).total_lines_read == if current_size > old(self).last_size {
                crate::sat_add_usize(old(self).total_lines_read, r@.len() as usize)
            } else {
                old(self).total_lines_read
            },
            final(self).path == old(self).path,
            final(self).display_name == old(self).display_name,
            final(self).is_active == old(self).is_active,
            final(self).last_activity == old(self).last_activity,
            final(self).lines_since_last_read == old(self).lines_since_last_read,
            final(self).paused == old(self).paused,
            final(self).throttle_state == old(self).throttle_state,
            final(self).group_id == old(self).group_id,
    {
        if current_size > self.last_size {
            let new_lines = split_lines(appended);
            let bytes_read = current_size - self.last_position;
            self.total_bytes_read = self.total_bytes_read.saturating_add(bytes_read);
            self.total_lines_read = self.total_lines_read.saturating_add(new_lines.len());
            self.last_size = current_size;
            self.last_position = current_size;
            new_lines
        } else if current_size < self.last_size {
            self.last_position = 0;
            self.last_size = current_size;
            let marker = "[FILE TRUNCATED/ROTATED]".to_string();
            let r = vec![marker];
            proof {
                reveal_strlit("[FILE TRUNCATED/ROTATED]");
                assert(texts(r@) =~= seq![rotation_marker()]);
            }
            r
        } else {
            let r: Vec<String> = Vec::new();
            assert(texts(r@) =~= Seq::<Seq<char>>::empty());
            r
        }
    }
}

/// The bytes of `chunks` one after another.
pub open spec fn joined(chunks: Seq<Seq<u8>>) -> Seq<u8>
    decreases chunks.len(),
{
    if chunks.len() == 0 {
        Seq::empty()
    } else {
        joined(chunks.drop_last()) + chunks.last()
    }
}

/// Polls of a file that starts at `size` bytes and grows by each chunk in
/// turn between polls: the final `(last_size, last_position)` and every line
/// returned, in order.
pub open spec fn run_growth(size: u64, chunks: Seq<Seq<u8>>) -> (u64, u64, Seq<Seq<char>>)
    decreases chunks.len(),
{
    if chunks.len() == 0 {
        (size, size, Seq::empty())
    } else {
        let (ls, lp, out) = run_growth(size, chunks.drop_last());
        let c = chunks.last();
        let (ls2, lp2, new) = poll_step(ls, lp, (ls + c.len()) as u64, c);
        (ls2, lp2, out + new)
    }
}

proof fn lemma_joined_boundary(chunks: Seq<Seq<u8>>)
    requires
        forall|i: int| 0 <= i < chunks.len() ==> ends_at_line_boundary(#[trigger] chunks[i]),
    ensures
        ends_at_line_boundary(joined(chunks)),
    decreases chunks.len(),
{
    if chunks.len() > 0 {
        let c = chunks.last();
        assert(ends_at_line_boundary(chunks[chunks.len() - 1]));
        assert(forall|i: int|
            0 <= i < chunks.drop_last().len() ==> chunks.drop_last()[i] == chunks[i]);
        lemma_joined_boundary(chunks.drop_last());
        if c.len() == 0 {
            assert(joined(chunks) =~= joined(chunks.drop_last()));
        } else {
            assert(joined(chunks).last() == c.last());
        }
    }
}

/// Without rotation, a file that grows by whole lines is read exactly once:
/// after the polls the cursor stands at the start size plus every byte
/// appended, and the lines returned, joined over all polls, are the lines of
/// all appended content, with nothing lost and nothing repeated.
pub proof fn lemma_growth_reads_everything_once(size: u64, chunks: Seq<Seq<u8>>)
    requires
        size + joined(chunks).len() <= u64::MAX,
        forall|i: int| 0 <= i < chunks.len() ==> ends_at_line_boundary(#[trigger] chunks[i]),
    ensures
        run_growth(size, chunks) == (
            (size + joined(chunks).len()) as u64,
            (size + joined(chunks).len()) as u64,
            lines_of(joined(chunks)),
        ),
    decreases chunks.len(),
{
    if chunks.len() == 0 {
        assert(lines_of(Seq::<u8>::empty()) =~= Seq::<Seq<char>>::empty());
    } else {
        let prev = chunks.drop_last();
        assert(forall|i: int| 0 <= i < prev.len() ==> prev[i] == chunks[i]);
        assert(ends_at_line_boundary(chunks[chunks.len() - 1]));
        lemma_growth_reads_everything_once(size, prev);
        lemma_joined_boundary(prev);
        let c = chunks.last();
        lemma_lines_of_append(joined(prev), c);
        if c.len() == 0 {
            assert(joined(chunks) =~= joined(prev));
            assert(lines_of(c) =~= Seq::<Seq<char>>::empty());
            assert(lines_of(joined(prev)) + Seq::<Seq<char>>::empty() =~= lines_of(joined(prev)));
        }
    }
}

/// A smaller size is a rotation: that poll returns the marker line alone
/// and puts the cursor at 0, so the next poll of a regrown file reads the
/// new incarnation from byte 0.
pub proof fn lemma_rotation_restarts_at_zero(
    last_size: u64,
    last_position: u64,
    current_size: u64,
    appended: Seq<u8>,
    next_size: u64,
)
    requires
        last_position <= last_size,
        current_size < last_size,
        next_size > current_size,
    ensures
        poll_step(last_size, last_position, current_size, appended).2 == seq![rotation_marker()],
        poll_step(last_size, last_position, current_size, appended).1 == 0,
        expected_read(
            poll_step(last_size, last_position, current_size, appended).0,
            poll_step(last_size, last_position, current_size, appended).1,
            next_size,
        ) == next_size,
{
}

} // verus!
