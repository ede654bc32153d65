use vis_grep::engine::{FileObservation, LogLine, PreviewMode, TailState};
use vis_grep::layout::{FileEntry, LayoutSettings, TailLayout};
use vis_grep::reader::TailedFile;

fn entry(path: &str) -> FileEntry {
    FileEntry { path: path.to_string(), name: None, pattern: false, paused: false, tailed_file_idx: None }
}

fn grouped_state() -> TailState {
    let mut state = TailState::new(0);
    let mut layout = TailLayout::new("Services".to_string(), 1, LayoutSettings { poll_interval_ms: Some(100), auto_expand_active: true });
    layout.add_group(None, "Group".to_string(), None, true, vec![entry("/l/a.log"), entry("/l/b.log"), entry("/l/c.log")]).unwrap();
    let opened = vec![
        Some(TailedFile::new("/l/a.log".to_string(), "a.log".to_string(), 0, 0)),
        Some(TailedFile::new("/l/b.log".to_string(), "b.log".to_string(), 0, 0)),
        Some(TailedFile::new("/l/c.log".to_string(), "c.log".to_string(), 0, 0)),
    ];
    state.load_layout(layout, opened);
    state
}

fn unchanged(state: &TailState) -> Vec<FileObservation> {
    state.files.iter().map(|f| FileObservation::Observed { size: f.last_size, appended: vec![] }).collect()
}

#[test]
fn group_activity_follows_a_file_through_its_active_window() {
    let mut state = grouped_state();
    assert_eq!(state.poll_interval_ms, 100);
    assert_eq!(state.files.len(), 3);
    assert!(state.files.iter().all(|f| f.group_id == Some(0)));
    assert!(!state.layout.as_ref().unwrap().groups[0].has_activity);

    let five = b"one\ntwo\nthree\nfour\nfive\n".to_vec();
    let mut obs = unchanged(&state);
    obs[0] = FileObservation::Observed { size: five.len() as u64, appended: five.clone() };
    assert!(state.poll(250, &obs));
    let g = &state.layout.as_ref().unwrap().groups[0];
    assert_eq!(g.active_file_count, 1);
    assert!(g.has_activity);
    assert!(!g.collapsed);
    assert_eq!(state.output_buffer.len(), 5);
    assert_eq!(state.files[0].lines_since_last_read, 5);

    let obs = unchanged(&state);
    assert!(state.poll(2250, &obs));
    assert!(state.files[0].is_active);

    let obs = unchanged(&state);
    assert!(state.poll(2251, &obs) == false);
    assert!(state.poll(2350, &obs));
    assert!(!state.files[0].is_active);
    let g = &state.layout.as_ref().unwrap().groups[0];
    assert_eq!(g.active_file_count, 0);
    assert!(!g.has_activity);
    assert!(!g.collapsed);
}

#[test]
fn combined_lines_carry_source_and_numbers() {
    let mut state = TailState::new(0);
    state.add_file(TailedFile::new("/x/a.log".to_string(), "a.log".to_string(), 0, 0));
    state.add_file(TailedFile::new("/x/b.log".to_string(), "b.log".to_string(), 3, 0));
    let obs = vec![
        FileObservation::Observed { size: 4, appended: b"a1\na".to_vec() },
        FileObservation::Observed { size: 7, appended: b"b1\nb2".to_vec()[..4].to_vec() },
    ];
    assert!(state.poll(300, &obs));
    let got: Vec<(String, usize, String, u64)> = state.output_buffer.iter()
        .map(|l: &LogLine| (l.source_file.clone(), l.line_number, l.content.clone(), l.timestamp)).collect();
    assert_eq!(got, vec![
        ("a.log".to_string(), 1, "a1".to_string(), 300),
        ("a.log".to_string(), 2, "a".to_string(), 300),
        ("b.log".to_string(), 1, "b1".to_string(), 300),
        ("b.log".to_string(), 2, "b".to_string(), 300),
    ]);
    assert_eq!(state.total_lines_received, 4);
}

#[test]
fn buffer_evicts_oldest_and_counts_drops() {
    let mut state = TailState::new(0);
    state.max_buffer_lines = 3;
    for i in 0..5usize {
        state.push_output(LogLine { timestamp: 0, source_file: "f".to_string(), line_number: i, content: format!("l{}", i) });
        assert!(state.output_buffer.len() <= 3);
    }
    assert_eq!(state.lines_dropped, 2);
    let kept: Vec<String> = state.output_buffer.iter().map(|l| l.content.clone()).collect();
    assert_eq!(kept, vec!["l2", "l3", "l4"]);
}

#[test]
fn poll_waits_for_the_interval_and_for_unpause() {
    let mut state = TailState::new(1000);
    state.add_file(TailedFile::new("/x/a.log".to_string(), "a.log".to_string(), 0, 0));
    let obs = vec![FileObservation::Observed { size: 2, appended: b"x\n".to_vec() }];
    assert!(!state.poll(1100, &obs));
    assert_eq!(state.files[0].last_position, 0);
    state.paused_all = true;
    assert!(!state.poll(5000, &obs));
    state.paused_all = false;
    assert!(state.poll(1250, &obs));
    assert_eq!(state.last_poll_time, 1250);
    assert_eq!(state.files[0].last_position, 2);
}

#[test]
fn failed_or_inconsistent_reads_skip_the_file_once() {
    let mut state = TailState::new(0);
    state.add_file(TailedFile::new("/x/a.log".to_string(), "a.log".to_string(), 0, 0));
    state.add_file(TailedFile::new("/x/b.log".to_string(), "b.log".to_string(), 0, 0));
    state.files[1].paused = true;
    let obs = vec![FileObservation::Unreadable, FileObservation::Observed { size: 2, appended: b"x\n".to_vec() }];
    assert!(state.poll(300, &obs));
    assert_eq!(state.files[0].last_position, 0);
    assert_eq!(state.files[1].last_position, 0);
    let bad = vec![FileObservation::Observed { size: 5, appended: b"ab".to_vec() }];
    assert!(state.poll(600, &bad));
    assert_eq!(state.files[0].last_position, 0);
    let good = vec![FileObservation::Observed { size: 3, appended: b"ab\n".to_vec() }];
    assert!(state.poll(900, &good));
    assert_eq!(state.files[0].last_position, 3);
    assert_eq!(state.output_buffer.len(), 1);
}

#[test]
fn following_preview_is_flagged_and_reloaded() {
    let mut state = TailState::new(0);
    state.add_file(TailedFile::new("/x/a.log".to_string(), "a.log".to_string(), 0, 0));
    state.preview_selected_file = Some(0);
    state.preview_follow_lines = 2;
    let obs = vec![FileObservation::Observed { size: 6, appended: b"1\n2\n3\n".to_vec() }];
    assert!(state.poll(300, &obs));
    assert!(state.preview_needs_reload);
    assert_eq!(state.preview_file_path(), Some("/x/a.log".to_string()));
    state.reload_tail_preview(Ok(b"1\n2\n3\n"));
    assert_eq!(state.preview_content, vec!["2", "3"]);
    assert!(!state.preview_needs_reload);

    state.preview_mode = PreviewMode::Paused;
    state.reload_tail_preview(Ok(b"1\n2\n3\n"));
    assert_eq!(state.preview_content, vec!["1", "2", "3"]);
    state.reload_tail_preview(Ok(&[b'a', b'\n', 0xff, b'\n']));
    assert_eq!(state.preview_content, vec!["Error: stream did not contain valid UTF-8"]);
    state.reload_tail_preview(Err("No such file or directory (os error 2)".to_string()));
    assert_eq!(state.preview_content, vec!["Error: No such file or directory (os error 2)"]);
}

#[test]
fn layout_entries_take_names_and_paused_flags() {
    let mut state = TailState::new(0);
    let mut layout = TailLayout::new("L".to_string(), 1, LayoutSettings::default());
    layout.add_group(None, "G".to_string(), None, false, vec![
        FileEntry { path: "/a".to_string(), name: Some("Alpha".to_string()), pattern: false, paused: true, tailed_file_idx: None },
        entry("/missing"),
        entry("/c"),
    ]).unwrap();
    let opened = vec![
        Some(TailedFile::new("/a".to_string(), "a".to_string(), 5, 0)),
        None,
        Some(TailedFile::new("/c".to_string(), "c".to_string(), 7, 0)),
    ];
    state.load_layout(layout, opened);
    assert_eq!(state.poll_interval_ms, 250);
    assert_eq!(state.files.len(), 2);
    assert_eq!(state.files[0].display_name, "Alpha");
    assert!(state.files[0].paused);
    assert_eq!(state.files[1].display_name, "c");
    assert_eq!(state.files[1].group_id, Some(0));
    state.propagate_activity_to_group(0, true);
    assert!(state.layout.as_ref().unwrap().groups[0].has_activity);
}

#[test]
fn clock_before_the_last_poll_counts_as_no_time() {
    let mut state = TailState::new(1000);
    assert!(!state.poll_due(500));
    state.poll_interval_ms = 0;
    assert!(state.poll_due(500));
    assert!(state.poll_due(1000));
}
