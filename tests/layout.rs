use vis_grep::layout::{FileEntry, LayoutError, LayoutSettings, TailLayout};

fn entry(path: &str) -> FileEntry {
    FileEntry { path: path.to_string(), name: None, pattern: false, paused: false, tailed_file_idx: None }
}

fn settings(auto: bool) -> LayoutSettings {
    LayoutSettings { poll_interval_ms: None, auto_expand_active: auto }
}

fn nested() -> TailLayout {
    let mut l = TailLayout::new("Nested Layout".to_string(), 1, settings(true));
    let app = l.add_group(None, "App".to_string(), None, false, vec![]).unwrap();
    let core = l.add_group(Some(app), "Core".to_string(), None, false, vec![entry("/app/core.log")]).unwrap();
    let jobs = l.add_group(Some(app), "Jobs".to_string(), None, false, vec![entry("/app/jobs.log")]).unwrap();
    assert_eq!((app, core, jobs), (0, 1, 2));
    l
}

#[test]
fn nested_totals_count_descendant_files() {
    let l = nested();
    assert_eq!(l.root_groups, vec![0]);
    assert_eq!(l.groups[0].groups, vec![1, 2]);
    assert_eq!(l.groups[0].total_file_count, 2);
    assert_eq!(l.groups[1].total_file_count, 1);
    assert_eq!(l.groups[2].parent_id, Some(0));
    assert_eq!(l.total_files, 2);
}

#[test]
fn three_levels_of_totals() {
    let mut l = nested();
    l.add_group(Some(1), "Deep".to_string(), None, false, vec![entry("/a"), entry("/b"), entry("/c")]).unwrap();
    assert_eq!(l.groups[3].total_file_count, 3);
    assert_eq!(l.groups[1].total_file_count, 4);
    assert_eq!(l.groups[0].total_file_count, 5);
    assert_eq!(l.groups[2].total_file_count, 1);
}

#[test]
fn unknown_parent_is_refused() {
    let mut l = nested();
    assert_eq!(l.add_group(Some(9), "X".to_string(), None, false, vec![]), Err(LayoutError::UnknownParent));
    assert_eq!(l.groups.len(), 3);
}

#[test]
fn file_rows_come_group_by_group() {
    let mut l = TailLayout::new("Test Layout".to_string(), 1, LayoutSettings::default());
    let web = l.add_group(None, "Web Services".to_string(), None, false, vec![
        FileEntry { path: "/var/log/nginx/access.log".to_string(), name: Some("Nginx Access".to_string()), pattern: false, paused: false, tailed_file_idx: None },
        FileEntry { path: "/var/log/nginx/error.log".to_string(), name: None, pattern: false, paused: true, tailed_file_idx: None },
    ]).unwrap();
    let rows = l.get_all_file_paths();
    assert_eq!(rows.len(), 2);
    assert_eq!(rows[0], ("/var/log/nginx/access.log".to_string(), Some("Nginx Access".to_string()), web, false));
    assert_eq!(rows[1], ("/var/log/nginx/error.log".to_string(), None, web, true));
    assert!(l.settings.auto_expand_active);
    assert_eq!(l.find_group(web).unwrap().name, "Web Services");
    assert!(l.find_group(5).is_none());
}

#[test]
fn activity_bubbles_up_on_flips_only() {
    let mut l = nested();
    l.update_group_activity(1, true);
    assert_eq!(l.groups[1].active_file_count, 1);
    assert!(l.groups[1].has_activity);
    assert_eq!(l.groups[0].active_file_count, 1);
    assert!(l.groups[0].has_activity);

    l.update_group_activity(2, true);
    assert_eq!(l.groups[0].active_file_count, 2);

    l.update_group_activity(1, true);
    assert_eq!(l.groups[1].active_file_count, 2);
    assert_eq!(l.groups[0].active_file_count, 2);

    l.update_group_activity(1, false);
    l.update_group_activity(1, false);
    assert!(!l.groups[1].has_activity);
    assert_eq!(l.groups[0].active_file_count, 1);
    l.update_group_activity(1, false);
    assert_eq!(l.groups[1].active_file_count, 0);
    assert_eq!(l.groups[0].active_file_count, 1);
    assert_eq!(l.groups[0].total_file_count, 2);
}

#[test]
fn repeated_activation_does_not_reach_the_parent() {
    let mut once = nested();
    once.update_group_activity(1, true);
    let mut twice = nested();
    twice.update_group_activity(1, true);
    twice.update_group_activity(1, true);
    assert_eq!(once.groups[0].active_file_count, twice.groups[0].active_file_count);
    assert_eq!(twice.groups[1].active_file_count, 2);
}

#[test]
fn auto_expand_respects_the_users_choice() {
    let mut l = TailLayout::new("L".to_string(), 1, settings(true));
    l.add_group(None, "A".to_string(), None, true, vec![entry("/a")]).unwrap();
    l.add_group(None, "B".to_string(), None, true, vec![entry("/b")]).unwrap();
    l.toggle_collapsed(1);
    l.toggle_collapsed(1);
    assert_eq!(l.groups[1].user_collapsed, Some(true));
    l.update_group_activity(0, true);
    l.update_group_activity(1, true);
    assert!(!l.groups[0].collapsed);
    assert!(l.groups[1].collapsed);

    let mut off = TailLayout::new("L".to_string(), 1, settings(false));
    off.add_group(None, "A".to_string(), None, true, vec![]).unwrap();
    off.update_group_activity(0, true);
    assert!(off.groups[0].collapsed);
    l.update_group_activity(7, true);
}
