use tetrust::recording_manager::{get_recording_filename_for_gamemode, get_recordings, get_sorted_recordings, parse_decimal, RecordingName};

fn name(mode: &str, local: usize, global: usize) -> RecordingName {
    RecordingName { gamemode_name: mode.to_string(), gamemode_index: local, total_recording_index: global }
}

#[test]
fn new_names_count_existing_recordings() {
    let existing = vec![name("classic", 0, 0), name("sticky", 0, 1), name("classic", 1, 2)];
    let n = RecordingName::new("classic", &existing);
    assert_eq!((n.gamemode_index, n.total_recording_index), (2, 3));
    assert_eq!(n.to_string(), "classic_2_3");
    assert_eq!(n.to_filename(), "./replays/classic_2_3.json");
    assert_eq!(get_recording_filename_for_gamemode("fusion", &existing), "./replays/fusion_0_3.json");
}

#[test]
fn names_are_read_back() {
    let n = RecordingName::from_string("sticky_3_10").unwrap();
    assert_eq!(n.gamemode_name, "sticky");
    assert_eq!((n.gamemode_index, n.total_recording_index), (3, 10));
    assert!(RecordingName::from_string("classic").is_none());
    assert!(RecordingName::from_string("classic_x_1").is_none());
    assert!(RecordingName::from_string("classic_1_").is_none());
    assert!(RecordingName::from_string("classic_1_99999999999999999999999").is_none());
    assert_eq!(parse_decimal(b"12a4", 0, 2), Some(12));
    assert_eq!(parse_decimal(b"12a4", 0, 3), None);
}

#[test]
fn recordings_from_file_names() {
    let files = vec!["classic_0_0.json".to_string(), "notes.txt".to_string(), "sticky_0_1.json".to_string()];
    let found = get_recordings(&files);
    assert_eq!(found.len(), 2);
    assert_eq!(found[1].gamemode_name, "sticky");
}

#[test]
fn recordings_sorted_newest_first() {
    let sorted = get_sorted_recordings(vec![name("a", 0, 1), name("b", 0, 4), name("a", 1, 2), name("c", 0, 0)]);
    let order: Vec<usize> = sorted.iter().map(|r| r.total_recording_index).collect();
    assert_eq!(order, vec![4, 2, 1, 0]);
}

#[test]
fn recordings_with_equal_index_sort_by_name() {
    let sorted = get_sorted_recordings(vec![name("a", 0, 1), name("c", 0, 1), name("b", 2, 1), name("b", 3, 1)]);
    let order: Vec<(String, usize)> = sorted.iter().map(|r| (r.gamemode_name.clone(), r.gamemode_index)).collect();
    assert_eq!(order, vec![("c".to_string(), 0), ("b".to_string(), 3), ("b".to_string(), 2), ("a".to_string(), 0)]);
}
