use toastmcp::assets::{list_icon_ids, list_sound_ids, FsEntry};

fn entry(name: &str, dir: &str) -> FsEntry {
    FsEntry {
        name: name.to_string(),
        dir: dir.to_string(),
    }
}

const BUILTIN: [&str; 7] = [
    "alarm",
    "default",
    "im",
    "incoming_call",
    "mail",
    "reminder",
    "sms",
];

#[test]
fn icons_are_sorted_and_deduplicated() {
    let entries = vec![
        entry("b.png", "icons"),
        entry("a.png", "icons"),
        entry("a.png", "icons"),
        entry("c.txt", "icons"),
        entry("z.png", "backup"),
    ];
    let ids = list_icon_ids(&entries);
    assert_eq!(ids, vec!["a".to_string(), "b".to_string()]);
}

#[test]
fn icon_enumeration_is_order_independent() {
    let one = vec![
        entry("m.png", "icons"),
        entry("a.png", "icons"),
        entry("z.png", "icons"),
    ];
    let other = vec![
        entry("z.png", "icons"),
        entry("m.png", "icons"),
        entry("a.png", "icons"),
        entry("a.png", "icons"),
    ];
    assert_eq!(list_icon_ids(&one), list_icon_ids(&other));
}

#[test]
fn icon_enumeration_is_idempotent() {
    let entries = vec![entry("q.png", "icons"), entry("p.png", "icons")];
    assert_eq!(list_icon_ids(&entries), list_icon_ids(&entries));
}

#[test]
fn hidden_file_has_no_extension() {
    // A name that is only an extension hides a file; it contributes nothing.
    let entries = vec![entry(".png", "icons"), entry("a.b.png", "icons")];
    let ids = list_icon_ids(&entries);
    assert_eq!(ids, vec!["a.b".to_string()]);
}

#[test]
fn empty_icon_listing_is_valid() {
    let entries = vec![entry("x.wav", "icons")];
    assert!(list_icon_ids(&entries).is_empty());
}

#[test]
fn backup_directory_is_hidden_case_insensitively() {
    let entries = vec![
        entry("a.png", "BACKUP"),
        entry("b.png", "Backup"),
        entry("c.png", "backups"),
    ];
    assert_eq!(list_icon_ids(&entries), vec!["c".to_string()]);
}

#[test]
fn sounds_found_are_sorted_stems() {
    let entries = vec![
        entry("ding.wav", "sounds"),
        entry("chime.wav", "sounds"),
        entry("ding.wav", "sounds"),
        entry("readme.txt", "sounds"),
    ];
    let ids = list_sound_ids(&entries);
    assert_eq!(ids, vec!["chime".to_string(), "ding".to_string()]);
}

#[test]
fn no_sounds_found_yields_builtin_catalogue() {
    let entries = vec![entry("a.png", "sounds"), entry("b.mp3", "sounds")];
    let ids = list_sound_ids(&entries);
    let expected: Vec<String> = BUILTIN.iter().map(|s| s.to_string()).collect();
    assert_eq!(ids, expected);
}

#[test]
fn empty_entries_yield_builtin_catalogue() {
    let ids = list_sound_ids(&Vec::new());
    let expected: Vec<String> = BUILTIN.iter().map(|s| s.to_string()).collect();
    assert_eq!(ids, expected);
}

#[test]
fn archived_sounds_do_not_defeat_the_fallback() {
    let entries = vec![entry("ding.wav", "backup")];
    let ids = list_sound_ids(&entries);
    let expected: Vec<String> = BUILTIN.iter().map(|s| s.to_string()).collect();
    assert_eq!(ids, expected);
}

#[test]
fn a_found_sound_suppresses_the_fallback() {
    let entries = vec![entry("ding.wav", "sounds")];
    assert_eq!(list_sound_ids(&entries), vec!["ding".to_string()]);
}
