use vis_grep::engine::PreviewMode;
use vis_grep::preview::{keep_last, read_file_for_preview, FilePreview, PreviewError};

#[test]
fn following_a_long_file_shows_exactly_its_last_lines() {
    let mut content = String::new();
    for i in 1..=10000 {
        content.push_str(&format!("line {}\n", i));
    }
    let lines = read_file_for_preview(content.as_bytes(), PreviewMode::Following, 100).unwrap();
    assert_eq!(lines.len(), 100);
    for (k, l) in lines.iter().enumerate() {
        assert_eq!(l, &format!("line {}", 9901 + k));
    }
    assert!(lines.iter().all(|l| !l.contains("TRUNCATED")));
}

#[test]
fn paused_preview_needs_valid_text() {
    let ok = read_file_for_preview(b"a\r\nb", PreviewMode::Paused, 1).unwrap();
    assert_eq!(ok, vec!["a", "b"]);
    assert_eq!(read_file_for_preview(&[0xc3, b'\n'], PreviewMode::Paused, 1), Err(PreviewError::InvalidData));
    assert_eq!(read_file_for_preview(&[0xc3, b'\n', b'z'], PreviewMode::Following, 5).unwrap(), vec!["z"]);
}

#[test]
fn keep_last_with_zero_or_more_than_all() {
    let v = vec!["a".to_string(), "b".to_string()];
    assert!(keep_last(v.clone(), 0).is_empty());
    assert_eq!(keep_last(v.clone(), 5), v);
}

#[test]
fn small_file_preview_marks_the_target() {
    let mut content = String::new();
    for i in 1..=200 {
        content.push_str(&format!("l{}\n", i));
    }
    let mut p = FilePreview::new();
    p.load_file(Ok(content.as_bytes()), 100);
    let text = p.content.clone().unwrap();
    let rows: Vec<&str> = text.split('\n').collect();
    assert_eq!(rows.len(), 101);
    assert_eq!(rows[0], "      51 | l51");
    assert_eq!(rows[49], ">>>  100 | l100");
    assert_eq!(rows[100], "     151 | l151");
    assert_eq!(p.target_line_in_preview, Some(49));
}

#[test]
fn preview_near_the_start_and_wide_numbers() {
    let mut content = String::new();
    for i in 1..=12000 {
        content.push_str(&format!("x{}\n", i));
    }
    let mut p = FilePreview::new();
    p.load_file(Ok(content.as_bytes()), 2);
    let text = p.content.clone().unwrap();
    assert!(text.starts_with("       1 | x1\n>>>    2 | x2\n"));
    assert_eq!(p.target_line_in_preview, Some(1));
    p.load_file(Ok(content.as_bytes()), 11000);
    let text = p.content.clone().unwrap();
    assert!(text.contains("\n>>> 11000 | x11000\n"));
}

#[test]
fn large_file_preview_counts_only_finished_lines() {
    let mut content = Vec::new();
    let filler = "y".repeat(1000);
    let mut n = 0usize;
    while content.len() < 10 * 1024 * 1024 + 10 {
        n += 1;
        content.extend_from_slice(format!("{} {}\n", n, filler).as_bytes());
    }
    content.extend_from_slice(b"unfinished");
    let mut p = FilePreview::new();
    p.load_file(Ok(&content), 60);
    let text = p.content.clone().unwrap();
    let rows: Vec<&str> = text.split('\n').collect();
    assert_eq!(rows.len(), 101);
    assert!(rows[0].starts_with("      10 | 10 y"));
    assert!(rows[50].starts_with(">>>   60 | 60 y"));
    assert_eq!(p.target_line_in_preview, Some(50));

    p.load_file(Ok(&content), n + 5);
    let text = p.content.clone().unwrap();
    assert!(!text.contains("unfinished"));
    assert_eq!(p.target_line_in_preview, Some(0));
}

#[test]
fn unreadable_file_shows_an_error_in_place() {
    let mut p = FilePreview::new();
    p.load_file(Ok(b"a\n"), 1);
    p.load_file(Err("\"/nope.log\"".to_string()), 1);
    assert_eq!(p.content, Some("Error loading preview for \"/nope.log\"".to_string()));
    assert_eq!(p.target_line_in_preview, None);
}
