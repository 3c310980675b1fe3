use script_tool::settings::{
    episode_from_path, file_dialogue, get_episode_number, set_episode_number, Selection,
    Settings,
};
use script_tool::transcribing;

#[test]
fn new_settings_select_nothing() {
    let s = Settings::new(1);
    assert_eq!(s.episode, 1);
    assert_eq!(s.selected_file, None);
    assert_eq!(s.selected_folder, None);
    assert_eq!(s.scene_number, None);
}

#[test]
fn episode_number_get_and_set() {
    let mut s = Settings::new(1);
    set_episode_number(&mut s, 9);
    assert_eq!(get_episode_number(&s), 9);
}

#[test]
fn episode_from_paths() {
    assert_eq!(episode_from_path("ep7"), Some(7));
    assert_eq!(episode_from_path("/games/ep12/scripts"), Some(12));
    assert_eq!(episode_from_path("C:\\work\\ep3\\ep4"), Some(4));
    assert_eq!(episode_from_path("/a/ep5/episode"), Some(5));
    assert_eq!(episode_from_path("/a/ep/epx/ep1a"), None);
    assert_eq!(episode_from_path(""), None);
    assert_eq!(episode_from_path("/ep2147483647"), Some(2147483647));
    assert_eq!(episode_from_path("/ep2147483648"), None);
    assert_eq!(episode_from_path("/ep99999999999999999999"), None);
}

#[test]
fn selecting_folder_sets_episode() {
    let mut s = Settings::new(1);
    s.selected_file = Some("old.rpy".to_string());
    let msg = file_dialogue(&mut s, true, Some("/scripts/ep7".to_string()));
    assert_eq!(msg, "Selected folder: /scripts/ep7");
    assert_eq!(s.episode, 7);
    assert_eq!(s.selected_file, None);
    assert_eq!(s.selected_folder, Some("/scripts/ep7".to_string()));
    let out = transcribing::convert(s.episode as u32, &vec!["J: hi".to_string()]).unwrap();
    assert_eq!(out[0], "## ep7 - #1");
}

#[test]
fn selecting_file_keeps_episode_without_tag() {
    let mut s = Settings::new(4);
    let msg = file_dialogue(&mut s, false, Some("/scripts/intro.rpy".to_string()));
    assert_eq!(msg, "Selected file: /scripts/intro.rpy");
    assert_eq!(s.episode, 4);
    assert_eq!(s.selected_folder, None);
}

#[test]
fn selecting_file_under_episode_folder_keeps_episode() {
    let mut s = Settings::new(4);
    let msg = file_dialogue(&mut s, false, Some("/scripts/ep7/intro.rpy".to_string()));
    assert_eq!(msg, "Selected file: /scripts/ep7/intro.rpy");
    assert_eq!(s.episode, 4);
    assert_eq!(s.selected_file, Some("/scripts/ep7/intro.rpy".to_string()));
    assert_eq!(s.selected_folder, None);
}

#[test]
fn cancelled_selection() {
    let mut s = Settings::new(4);
    assert_eq!(file_dialogue(&mut s, true, None), "No folder selected");
    assert_eq!(file_dialogue(&mut s, false, None), "No file selected");
    assert_eq!(s.selected_file, None);
    assert_eq!(s.selected_folder, None);
    assert_eq!(s.episode, 4);
}

#[test]
fn selection_needs_exactly_one() {
    let mut s = Settings::new(1);
    assert_eq!(s.selection(), Selection::Nothing);
    s.selected_file = Some("a.rpy".to_string());
    assert_eq!(s.selection(), Selection::File("a.rpy".to_string()));
    s.selected_folder = Some("dir".to_string());
    assert_eq!(s.selection(), Selection::Nothing);
    s.selected_file = None;
    assert_eq!(s.selection(), Selection::Folder("dir".to_string()));
}
