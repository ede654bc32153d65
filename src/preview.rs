use vstd::prelude::*;
use std::collections::VecDeque;
use crate::engine::PreviewMode;
use crate::lines::{byte_lines, lines_of, raw_lines, segments, split_lines, split_segments, strip_cr, texts, utf8_string};
use vstd::string::StringExecFns;
use vstd::utf8::{decode_utf8, valid_utf8};

verus! {

/// The last `n` items of `s` (all of them when it has fewer).
pub open spec fn last_n<T>(s: Seq<T>, n: nat) -> Seq<T> {
    if s.len() <= n {
        s
    } else {
        s.subrange(s.len() - n, s.len() as int)
    }
}

/// Why a preview could not be produced.
#[derive(Debug, Clone, Copy, PartialEq, Eq, Structural)]
pub enum PreviewError {
    /// A line of the file is not valid UTF-8.
    InvalidData,
}

/// Keeps only the last `n` of `lines`, in order, through a window of at
/// most `n` lines.
pub fn keep_last(lines: Vec<String>, n: usize) -> (r: Vec<String>)
    ensures
        texts(r@) == last_n(texts(lines@), n as nat),
        r@.len() <= n,
{
    let mut window: VecDeque<String> = VecDeque::new();
    let mut i: usize = 0;
    let len = lines.len();
    while i < len
        invariant
            len == lines@.len(),
            i <= len,
            window@.len() <= n,
            texts(window@) == last_n(texts(lines@).subrange(0, i as int), n as nat),
        decreases len - i,
    {
        let ghost w0 = window@;
        let ghost pre = texts(lines@).subrange(0, i as int);
        if window.len() >= n && window.len() > 0 {
            let _ = window.pop_front();
        }
        if n > 0 {
            window.push_back(lines[i].clone());
        }
        proof {
            let x = lines@[i as int]@;
            let next = texts(lines@).subrange(0, i + 1);
            assert(next =~= pre.push(x));
            assert(last_n(pre, n as nat).len() == if pre.len() <= n { pre.len() as int } else { n as int });
            if n == 0 {
                assert(texts(window@) =~= Seq::<Seq<char>>::empty());
                assert(last_n(next, n as nat) =~= Seq::<Seq<char>>::empty());
            } else if w0.len() >= n {
                assert(window@ =~= w0.drop_first().push(lines@[i as int]));
                assert(texts(window@) =~= texts(w0).drop_first().push(x));
                assert(pre.len() >= n);
                assert(last_n(next, n as nat) =~= last_n(pre, n as nat).drop_first().push(x));
            } else {
                assert(window@ =~= w0.push(lines@[i as int]));
                assert(texts(window@) =~= texts(w0).push(x));
                assert(pre.len() < n);
                assert(last_n(next, n as nat) =~= next);
            }
        }
        i = i + 1;
    }
    assert(texts(lines@).subrange(0, len as int) =~= texts(lines@));
    let mut out: Vec<String> = Vec::new();
    let wl = window.len();
    let mut k: usize = 0;
    while k < wl
        invariant
            wl == window@.len(),
            k <= wl,
            texts(out@) == texts(window@).subrange(0, k as int),
        decreases wl - k,
    {
        let ghost o0 = out@;
        let item = window[k].clone();
        assert(item@ == window@[k as int]@);
        out.push(item);
        assert(texts(out@) =~= texts(o0).push(item@));
        assert(texts(out@) =~= texts(window@).subrange(0, k + 1));
        k = k + 1;
    }
    assert(texts(window@).subrange(0, wl as int) =~= texts(window@));
    out
}

/// Number of raw lines of `b`, valid UTF-8 or not.
pub fn raw_line_count(b: &[u8]) -> (r: usize)
    ensures
        r == raw_lines(b@).len(),
{
    let n = b.len();
    let mut done: usize = 0;
    let mut cur: usize = 0;
    let mut i: usize = 0;
    assert(b@.subrange(0, 0) =~= Seq::<u8>::empty());
    while i < n
        invariant
            n == b@.len(),
            i <= n,
            done + cur <= i,
            segments(b@.subrange(0, i as int)).0.len() == done,
            segments(b@.subrange(0, i as int)).1.len() == cur,
        decreases n - i,
    {
        assert(b@.subrange(0, i + 1).drop_last() =~= b@.subrange(0, i as int));
        assert(b@.subrange(0, i + 1).last() == b[i as int]);
        if b[i] == 10u8 {
            done = done + 1;
            cur = 0;
        } else {
            cur = cur + 1;
        }
        i = i + 1;
    }
    assert(b@.subrange(0, n as int) =~= b@);
    if cur > 0 {
        done + 1
    } else {
        done
    }
}

/// The tail preview of a file's content: while following, the last
/// `follow_lines` text lines (lines that are not UTF-8 are skipped); when
/// paused, every line, which fails if one of them is not UTF-8.
pub fn read_file_for_preview(content: &[u8], mode: PreviewMode, follow_lines: usize) -> (r: Result<Vec<String>, PreviewError>)
    ensures
        mode == PreviewMode::Following ==> (r matches Ok(v) && texts(v@) == last_n(
            lines_of(content@),
            follow_lines as nat,
        )),
        mode == PreviewMode::Paused ==> (r is Ok <==> lines_of(content@).len() == raw_lines(
            content@,
        ).len()),
        mode == PreviewMode::Paused ==> (r matches Ok(v) ==> texts(v@) == lines_of(content@)),
        r matches Err(e) ==> e == PreviewError::InvalidData,
{
    let lines = split_lines(content);
    match mode {
        PreviewMode::Following => Ok(keep_last(lines, follow_lines)),
        PreviewMode::Paused => {
            let raw = raw_line_count(content);
            if lines.len() == raw {
                Ok(lines)
            } else {
                Err(PreviewError::InvalidData)
            }
        },
    }
}

/// Files below this size are previewed from their split lines; larger ones
/// by a scan of their bytes for newlines.
pub const PREVIEW_SCAN_THRESHOLD: usize = 10485760;

/// Lines shown before and after the target line.
pub const PREVIEW_CONTEXT_LINES: usize = 50;

/// Decimal digit `d` (below ten).
pub open spec fn digit(d: nat) -> char {
    seq!['0', '1', '2', '3', '4', '5', '6', '7', '8', '9'][d as int]
}

/// Decimal digits of `n`, most significant first.
pub open spec fn decimal(n: nat) -> Seq<char>
    decreases n,
{
    if n < 10 {
        seq![digit(n)]
    } else {
        decimal(n / 10).push(digit(n % 10))
    }
}

/// `s` right-aligned in a field of four characters.
pub open spec fn pad4(s: Seq<char>) -> Seq<char> {
    if s.len() < 4 {
        Seq::new((4 - s.len()) as nat, |i: int| ' ') + s
    } else {
        s
    }
}

/// Relies on `format!("{:4}", n)`: the decimal digits of `n`, right-aligned
/// in a field of at least four characters.
#[verifier::external_body]
fn padded_number(n: usize) -> (r: String)
    ensures
        r@ == pad4(decimal(n as nat)),
{
    format!("{:4}", n)
}

/// The numbered text lines among the first `n` of `ls` whose index lies in
/// `[lo, hi]`: line `k` (from 0) is numbered `k + 1`; lines that are not
/// valid UTF-8 are left out but still counted.
pub open spec fn window_rows(ls: Seq<Seq<u8>>, lo: int, hi: int, n: int) -> Seq<(int, Seq<char>)>
    decreases n,
{
    if n <= 0 {
        Seq::empty()
    } else {
        let rest = window_rows(ls, lo, hi, n - 1);
        let k = n - 1;
        if lo <= k <= hi && valid_utf8(ls[k]) {
            rest.push((n, decode_utf8(ls[k])))
        } else {
            rest
        }
    }
}

/// A preview row: the target line is marked with `>>>`.
pub open spec fn row_text(row: (int, Seq<char>), target: int) -> Seq<char> {
    (if row.0 == target {
        ">>> "@
    } else {
        "    "@
    }) + pad4(decimal(row.0 as nat)) + " | "@ + row.1
}

/// The rows one per line, separated by newlines.
pub open spec fn joined_rows(rows: Seq<(int, Seq<char>)>, target: int) -> Seq<char>
    decreases rows.len(),
{
    if rows.len() == 0 {
        Seq::empty()
    } else if rows.len() == 1 {
        row_text(rows[0], target)
    } else {
        joined_rows(rows.drop_last(), target) + "\n"@ + row_text(rows.last(), target)
    }
}

/// Position of the target line among the rows (0 when it is not there).
pub open spec fn target_index(rows: Seq<(int, Seq<char>)>, target: int) -> int
    decreases rows.len(),
{
    if rows.len() == 0 {
        0
    } else if rows.last().0 == target {
        rows.len() - 1
    } else {
        target_index(rows.drop_last(), target)
    }
}

/// Lines of a small file as the preview reads them: every raw line without
/// its carriage return.
pub open spec fn small_file_lines(b: Seq<u8>) -> Seq<Seq<u8>> {
    raw_lines(b).map_values(|l: Seq<u8>| strip_cr(l))
}

/// Rows of a small file around `target`: indexes from `target - 50` to
/// `target + 50` (saturating), so lines `target - 49` to `target + 51`.
pub open spec fn small_rows(b: Seq<u8>, target: usize) -> Seq<(int, Seq<char>)> {
    let ls = small_file_lines(b);
    window_rows(
        ls,
        crate::sat_sub_usize(target, PREVIEW_CONTEXT_LINES) as int,
        crate::sat_add_usize(target, PREVIEW_CONTEXT_LINES) as int,
        ls.len() as int,
    )
}

/// Rows of a large file around `target`: only lines a newline ends, numbered
/// from 1, lines `target - 50` to `target + 50` (saturating).
pub open spec fn large_rows(b: Seq<u8>, target: usize) -> Seq<(int, Seq<char>)> {
    let ls = segments(b).0;
    window_rows(
        ls,
        crate::sat_sub_usize(crate::sat_sub_usize(target, PREVIEW_CONTEXT_LINES), 1) as int,
        crate::sat_add_usize(target, PREVIEW_CONTEXT_LINES) as int - 1,
        ls.len() as int,
    )
}

/// The preview rows of a file's content around `target`.
pub open spec fn preview_rows(b: Seq<u8>, target: usize) -> Seq<(int, Seq<char>)> {
    if b.len() < PREVIEW_SCAN_THRESHOLD {
        small_rows(b, target)
    } else {
        large_rows(b, target)
    }
}

/// Text rows as plain values.
pub open spec fn rows_view(v: Seq<(usize, String)>) -> Seq<(int, Seq<char>)> {
    v.map_values(|r: (usize, String)| (r.0 as int, r.1@))
}

/// The numbered text lines of `ls` whose index lies in `[lo, hi]`.
fn numbered_rows(ls: &Vec<Vec<u8>>, lo: usize, hi: usize, strip: bool) -> (r: Vec<(usize, String)>)
    ensures
        rows_view(r@) == window_rows(
            if strip {
                byte_lines(ls@).map_values(|l: Seq<u8>| strip_cr(l))
            } else {
                byte_lines(ls@)
            },
            lo as int,
            hi as int,
            ls@.len() as int,
        ),
{
    let ghost src = if strip {
        byte_lines(ls@).map_values(|l: Seq<u8>| strip_cr(l))
    } else {
        byte_lines(ls@)
    };
    let mut out: Vec<(usize, String)> = Vec::new();
    let mut k: usize = 0;
    while k < ls.len()
        invariant
            k <= ls@.len(),
            src == if strip {
                byte_lines(ls@).map_values(|l: Seq<u8>| strip_cr(l))
            } else {
                byte_lines(ls@)
            },
            src.len() == ls@.len(),
            rows_view(out@) == window_rows(src, lo as int, hi as int, k as int),
        decreases ls@.len() - k,
    {
        let l = &ls[k];
        let len = l.len();
        let cut: usize = if strip && len > 0 && l[len - 1] == 13u8 {
            len - 1
        } else {
            len
        };
        let mut text_bytes: Vec<u8> = Vec::new();
        let mut j: usize = 0;
        while j < cut
            invariant
                j <= cut <= l@.len(),
                text_bytes@ == l@.subrange(0, j as int),
            decreases cut - j,
        {
            text_bytes.push(l[j]);
            assert(text_bytes@ =~= l@.subrange(0, j + 1));
            j = j + 1;
        }
        assert(text_bytes@ == src[k as int]) by {
            if strip {
                assert(l@.subrange(0, cut as int) =~= strip_cr(l@));
            } else {
                assert(l@.subrange(0, cut as int) =~= l@);
            }
        }
        let ghost o0 = out@;
        if lo <= k && k <= hi {
            match utf8_string(text_bytes.as_slice()) {
                Some(t) => {
                    out.push((k + 1, t));
                    assert(rows_view(out@) =~= rows_view(o0).push(((k + 1) as int, t@)));
                },
                None => {},
            }
        }
        k = k + 1;
    }
    out
}

/// Renders rows one per line, the target line marked, and finds the target
/// row's position.
fn render_rows(rows: &Vec<(usize, String)>, target: usize) -> (r: (String, usize))
    ensures
        r.0@ == joined_rows(rows_view(rows@), target as int),
        r.1 as int == target_index(rows_view(rows@), target as int),
{
    let mut text = String::new();
    let mut at: usize = 0;
    let mut j: usize = 0;
    while j < rows.len()
        invariant
            j <= rows@.len(),
            text@ == joined_rows(rows_view(rows@).subrange(0, j as int), target as int),
            at as int == target_index(rows_view(rows@).subrange(0, j as int), target as int),
        decreases rows@.len() - j,
    {
        let ghost pre = rows_view(rows@).subrange(0, j as int);
        let ghost next = rows_view(rows@).subrange(0, j + 1);
        assert(next.drop_last() =~= pre);
        let row = &rows[j];
        assert(next.last() == (row.0 as int, row.1@));
        if j > 0 {
            text.append("\n");
        }
        if row.0 == target {
            text.append(">>> ");
            at = j;
        } else {
            text.append("    ");
        }
        let num = padded_number(row.0);
        text.append(num.as_str());
        text.append(" | ");
        text.append(row.1.as_str());
        proof {
            reveal_strlit("\n");
            reveal_strlit(">>> ");
            reveal_strlit("    ");
            reveal_strlit(" | ");
            if j == 0 {
                assert(next.len() == 1);
                assert(next[0] == next.last());
                assert(text@ =~= row_text(next.last(), target as int));
            } else {
                assert(text@ =~= joined_rows(pre, target as int) + "\n"@ + row_text(next.last(), target as int));
            }
        }
        j = j + 1;
    }
    assert(rows_view(rows@).subrange(0, rows@.len() as int) =~= rows_view(rows@));
    (text, at)
}

/// A preview of a file around a target line.
pub struct FilePreview {
    pub content: Option<String>,
    /// Which row of `content` holds the target line.
    pub target_line_in_preview: Option<usize>,
}

impl FilePreview {
    /// An empty preview.
    pub fn new() -> (r: FilePreview)
        ensures
            r.content is None,
            r.target_line_in_preview is None,
    {
        FilePreview { content: None, target_line_in_preview: None }
    }

    /// Loads the preview of a file around line `target_line` (counting from
    /// 1): the numbered lines of the window, the target marked with `>>>`,
    /// one per line. `file` is the file's content, or, when it could not be
    /// read, the name to show in the error that takes the preview's place.
    pub fn load_file(&mut self, file: Result<&[u8], String>, target_line: usize)
        ensures
            match file {
                Ok(b) => {
                    let rows = preview_rows(b@, target_line);
                    &&& final(self).content matches Some(c) && c@ == joined_rows(
                        rows,
                        target_line as int,
                    )
                    &&& final(self).target_line_in_preview == Some(
                        target_index(rows, target_line as int) as usize,
                    )
                },
                Err(name) => {
                    &&& final(self).content matches Some(c) && c@
                        == "Error loading preview for "@ + name@
                    &&& final(self).target_line_in_preview is None
                },
            },
    {
        self.content = None;
        self.target_line_in_preview = None;
        match file {
            Ok(b) => {
                let (text, at) = Self::load_preview_fast(b, target_line);
                self.content = Some(text);
                self.target_line_in_preview = Some(at);
            },
            Err(name) => {
                let mut msg = String::from_str("Error loading preview for ");
                msg.append(name.as_str());
                proof {
                    reveal_strlit("Error loading preview for ");
                }
                self.content = Some(msg);
                self.target_line_in_preview = None;
            },
        }
    }

    /// The preview text and the target's row: small files go by their
    /// split lines, large ones by a scan for newlines.
    fn load_preview_fast(b: &[u8], target_line: usize) -> (r: (String, usize))
        ensures
            r.0@ == joined_rows(preview_rows(b@, target_line), target_line as int),
            r.1 as int == target_index(preview_rows(b@, target_line), target_line as int),
    {
        if b.len() < PREVIEW_SCAN_THRESHOLD {
            let start = target_line.saturating_sub(PREVIEW_CONTEXT_LINES);
            let end = target_line.saturating_add(PREVIEW_CONTEXT_LINES);
            let (mut ls, rest) = split_segments(b);
            if rest.len() > 0 {
                let ghost l0 = ls@;
                ls.push(rest);
                assert(byte_lines(ls@) =~= byte_lines(l0).push(rest@));
            }
            assert(byte_lines(ls@) =~= raw_lines(b@));
            let rows = numbered_rows(&ls, start, end, true);
            render_rows(&rows, target_line)
        } else {
            Self::load_preview_mmap(b, target_line, PREVIEW_CONTEXT_LINES)
        }
    }

    /// Preview of a large file: only lines a newline ends count, numbered
    /// from 1, from `target_line - context_lines` to `target_line +
    /// context_lines` (saturating).
    fn load_preview_mmap(b: &[u8], target_line: usize, context_lines: usize) -> (r: (String, usize))
        requires
            context_lines == PREVIEW_CONTEXT_LINES,
        ensures
            r.0@ == joined_rows(large_rows(b@, target_line), target_line as int),
            r.1 as int == target_index(large_rows(b@, target_line), target_line as int),
    {
        let start = target_line.saturating_sub(context_lines);
        let end = target_line.saturating_add(context_lines);
        let (ls, _rest) = split_segments(b);
        let rows = numbered_rows(&ls, start.saturating_sub(1), end - 1, false);
        render_rows(&rows, target_line)
    }
}

} // verus!
