use vis_grep::lines::split_lines;
use vis_grep::reader::{ReadRange, TailedFile};

fn file_at(size: u64) -> TailedFile {
    TailedFile::new("/var/log/app.log".to_string(), "app.log".to_string(), size, 0)
}

#[test]
fn new_file_starts_at_its_end() {
    let f = file_at(500);
    assert_eq!(f.last_size, 500);
    assert_eq!(f.last_position, 500);
    assert!(!f.is_active);
    assert_eq!(f.group_id, None);
    assert_eq!(f.pending_read(500), None);
    assert_eq!(f.pending_read(520), Some(ReadRange { from: 500, to: 520 }));
}

#[test]
fn shrink_to_zero_gives_one_marker_and_resets_cursor() {
    let mut f = file_at(500);
    let lines = f.check_for_updates(0, &[]);
    assert_eq!(lines, vec!["[FILE TRUNCATED/ROTATED]".to_string()]);
    assert_eq!(f.last_position, 0);
    assert_eq!(f.last_size, 0);
}

#[test]
fn after_rotation_the_new_file_is_read_from_byte_zero() {
    let mut f = file_at(100);
    let marker = f.check_for_updates(40, &[]);
    assert_eq!(marker.len(), 1);
    assert_eq!(f.pending_read(45), Some(ReadRange { from: 0, to: 45 }));
    let content = b"fresh start\nsecond line of the new file\n".to_vec();
    assert_eq!(content.len(), 40);
    let mut bigger = content.clone();
    bigger.extend_from_slice(b"tail\n");
    let lines = f.check_for_updates(45, &bigger);
    assert_eq!(lines, vec!["fresh start", "second line of the new file", "tail"]);
    assert_eq!(f.last_position, 45);
}

#[test]
fn growth_over_several_polls_reads_each_byte_once() {
    let mut f = file_at(10);
    let mut all = Vec::new();
    let chunks: Vec<&[u8]> = vec![b"alpha\nbeta\n", b"", b"gamma\r\ndelta\n"];
    let mut size = 10u64;
    for c in chunks {
        size += c.len() as u64;
        all.extend(f.check_for_updates(size, c));
    }
    assert_eq!(all, vec!["alpha", "beta", "gamma", "delta"]);
    assert_eq!(f.last_position, 10 + 11 + 13);
    assert_eq!(f.last_size, 34);
    assert_eq!(f.total_bytes_read, 24);
    assert_eq!(f.total_lines_read, 4);
}

#[test]
fn unchanged_size_returns_nothing() {
    let mut f = file_at(64);
    assert!(f.check_for_updates(64, &[]).is_empty());
    assert_eq!(f.last_position, 64);
    assert_eq!(f.total_lines_read, 0);
}

#[test]
fn split_keeps_a_last_line_without_newline_and_skips_invalid_utf8() {
    let bytes: Vec<u8> = vec![b'o', b'k', b'\n', 0xff, 0xfe, b'\n', b'\n', b'e', b'n', b'd'];
    let lines = split_lines(&bytes);
    assert_eq!(lines, vec!["ok".to_string(), "".to_string(), "end".to_string()]);
    let text = "héllo\nwörld\n".as_bytes();
    assert_eq!(split_lines(text), vec!["héllo", "wörld"]);
}
