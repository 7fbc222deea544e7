use bbrr_companion::applog::{load, log_text, push, read_pruned, LogEntry, CAP, FILE_CAP};
use bbrr_companion::detect::{
    named_folder, recording_folder, scan_wow_logs_folder, wow_install_candidates,
    wow_logs_candidates, wow_logs_folder, wr_config_value, Platform,
};

const CONFIG: &str = r#"{"storagePath": "  D:\\Videos ", "retailLogPath": "", "minutes": 5}"#;

#[test]
fn the_recorder_is_asked_for_its_folders() {
    assert_eq!(wr_config_value(Some(CONFIG), "storagePath").as_deref(), Some("D:\\Videos"));
    assert_eq!(wr_config_value(Some(CONFIG), "retailLogPath"), None);
    assert_eq!(wr_config_value(Some(CONFIG), "minutes"), None);
    assert_eq!(wr_config_value(Some(CONFIG), "other"), None);
    assert_eq!(wr_config_value(Some("{"), "storagePath"), None);
    assert_eq!(wr_config_value(Some("[1]"), "storagePath"), None);
    assert_eq!(wr_config_value(None, "storagePath"), None);
    assert_eq!(named_folder(Some("  ".to_string())), None);
    assert_eq!(named_folder(Some(" /v ".to_string())).as_deref(), Some("/v"));
    assert_eq!(named_folder(None), None);
}

#[test]
fn the_usual_places_are_known() {
    let w = wow_install_candidates(Platform::Windows);
    assert_eq!(w.len(), 20);
    assert_eq!(w[0], "C:\\Program Files (x86)\\World of Warcraft");
    assert_eq!(w[3], "C:\\Games\\World of Warcraft");
    assert_eq!(w[4], "D:\\Program Files (x86)\\World of Warcraft");
    assert_eq!(w[18], "G:\\World of Warcraft");
    assert_eq!(wow_install_candidates(Platform::Mac), vec!["/Applications/World of Warcraft"]);
    assert!(wow_install_candidates(Platform::Other).is_empty());
    assert_eq!(
        wow_logs_candidates(Platform::Mac),
        vec!["/Applications/World of Warcraft/_retail_/Logs"]
    );
    assert_eq!(wow_logs_candidates(Platform::Windows)[2], "C:\\World of Warcraft\\_retail_\\Logs");
}

#[test]
fn the_configured_folder_comes_first() {
    let s = |x: &str| Some(x.to_string());
    let places = vec!["/a".to_string(), "/b".to_string(), "/c".to_string()];
    assert_eq!(scan_wow_logs_folder(&places, &vec![false, true, true]), s("/b"));
    assert_eq!(scan_wow_logs_folder(&places, &vec![false, false, false]), None);
    assert_eq!(wow_logs_folder(s("/x"), true, s("/b")), s("/x"));
    assert_eq!(wow_logs_folder(s("/x"), false, s("/b")), s("/b"));
    assert_eq!(wow_logs_folder(None, true, s("/b")), s("/b"));
    assert_eq!(recording_folder(s("/v"), true), s("/v"));
    assert_eq!(recording_folder(s("/v"), false), None);
}

fn at(ts: i64) -> LogEntry {
    LogEntry { ts, level: "info".to_string(), message: ts.to_string() }
}

#[test]
fn memory_holds_the_most_recent_entries() {
    let mut log = Vec::new();
    for i in 0..(CAP as i64 + 5) {
        push(&mut log, at(i));
    }
    assert_eq!(log.len(), CAP);
    assert_eq!(log[0].ts, 5);
    assert_eq!(log[CAP - 1].ts, CAP as i64 + 4);
}

#[test]
fn old_entries_are_dropped_from_disk() {
    let now: i64 = 1_209_600_000 + 100;
    let (kept, rewrite) = read_pruned(&vec![at(99), at(100), at(50), at(200)], now);
    let seen: Vec<i64> = kept.iter().map(|e| e.ts).collect();
    assert_eq!(seen, vec![100, 200]);
    assert!(rewrite);
    let (again, rewrite) = read_pruned(&kept, now);
    assert_eq!(again.len(), 2);
    assert!(!rewrite);
    let many: Vec<LogEntry> = (0..(FILE_CAP as i64 + 3)).map(at).collect();
    let (kept, rewrite) = read_pruned(&many, 0);
    assert_eq!(kept.len(), FILE_CAP);
    assert_eq!(kept[0].ts, 3);
    assert!(rewrite);
    assert!(!read_pruned(&Vec::new(), i64::MIN).1);
}

#[test]
fn a_launch_begins_with_the_most_recent_entries() {
    let many: Vec<LogEntry> = (0..(CAP as i64 + 2)).map(at).collect();
    let recent = load(&many);
    assert_eq!(recent.len(), CAP);
    assert_eq!(recent[0].ts, 2);
    assert_eq!(load(&vec![at(1)]).len(), 1);
}

#[test]
fn every_line_of_the_file_is_ended() {
    assert_eq!(log_text(&Vec::new()), "");
    assert_eq!(log_text(&vec!["{}".to_string(), "{1}".to_string()]), "{}\n{1}\n");
}
