use bbrr_companion::api::EncounterSignalResp;
use bbrr_companion::combatlog::{
    encounter_end, encounter_id, encounter_name, encounter_report, encounter_started,
    fields_after_name, handle_encounter_end, parse_log_ts, parse_log_ts_ms, process_line,
    signal_answer, signal_failed, LineEvent,
};
use bbrr_companion::tailer::{
    feed, find_log_file, CombatLogState, LogFile, Look, Reconciled, Tailer, HEARTBEAT_MS, MAX_READ,
};
use chrono::{Local, NaiveDate, TimeZone};

const END: &str = "ENCOUNTER_END,3182,\"Chimaerus, the Undreamt God\",16,20,1,312345";

#[test]
fn a_missing_log_is_said_once() {
    let mut t = Tailer::new();
    match t.look(None, "/logs") {
        Look::Missing(Some(text)) => {
            assert_eq!(text, "[Combatlog] combat log not found in /logs")
        }
        other => panic!("{:?}", other),
    }
    assert!(matches!(t.look(None, "/logs"), Look::Missing(None)));
    t.opened("/logs/a.txt".to_string(), "a.txt", 0, 0);
    assert!(matches!(t.look(None, "/logs"), Look::Missing(None)));
    assert!(t.open_path.is_none());
}

#[test]
fn names_and_fields_are_taken_from_a_body() {
    assert_eq!(encounter_name(END).as_deref(), Some("Chimaerus, the Undreamt God"));
    assert_eq!(encounter_id(END), Some(3182));
    assert_eq!(fields_after_name(END), vec!["16", "20", "1", "312345"]);
    assert_eq!(encounter_name("ENCOUNTER_END,1,none"), None);
    assert_eq!(encounter_name("ENCOUNTER_END,1,\"open"), None);
    assert!(fields_after_name("ENCOUNTER_END,1").is_empty());
    assert_eq!(encounter_id("ENCOUNTER_END"), None);
    assert_eq!(encounter_id("ENCOUNTER_END,x"), None);
}

#[test]
fn an_empty_field_keeps_its_place() {
    let body = "ENCOUNTER_END,3182,\"N\",,20,1,5";
    assert_eq!(fields_after_name(body), vec!["", "20", "1", "5"]);
    let e = encounter_end(body).unwrap();
    assert_eq!((e.difficulty_id, e.success, e.fight_time_ms), (0, true, 5));
    assert_eq!(fields_after_name("X,1,\"N\""), vec![""]);
    assert_eq!(fields_after_name("X,1,\"N\" 16 , 20"), vec!["16", "20"]);
}

#[test]
fn an_end_without_a_name_goes_by_its_id() {
    let e = encounter_end("ENCOUNTER_END, 77 ").unwrap();
    assert_eq!(e.name, "77");
    assert_eq!(e.encounter_id, 77);
    assert_eq!(e.difficulty_id, 0);
    assert!(!e.success);
    assert_eq!(e.fight_time_ms, 0);
    assert!(encounter_end("ENCOUNTER_END").is_none());
    let e = encounter_end(END).unwrap();
    assert_eq!(e.difficulty_id, 16);
    assert!(e.success);
    assert_eq!(e.fight_time_ms, 312345);
}

#[test]
fn lines_of_interest_are_told_apart() {
    let mut run = false;
    match process_line("1/2/2026 3:04:05.678  ENCOUNTER_START,3182,\"Boss\",16,20", &mut run) {
        LineEvent::Started { name } => assert_eq!(name, "Boss"),
        other => panic!("{:?}", other),
    }
    match process_line(&format!("1/2/2026 3:04:05.678  {}", END), &mut run) {
        LineEvent::Ended { ts, body } => {
            assert_eq!(ts, "1/2/2026 3:04:05.678");
            assert_eq!(body, END);
        }
        other => panic!("{:?}", other),
    }
    assert!(matches!(process_line("x  SPELL_DAMAGE,ENCOUNTER_END", &mut run), LineEvent::Nothing));
    assert!(matches!(process_line("x ENCOUNTER_END,1", &mut run), LineEvent::Nothing));
    assert!(matches!(process_line("x  ENCOUNTER_START,1", &mut run), LineEvent::Nothing));
    assert!(matches!(process_line("", &mut run), LineEvent::Nothing));
    assert!(!run);
}

#[test]
fn keystone_runs_hold_no_raid_encounters() {
    let mut run = false;
    process_line("x  CHALLENGE_MODE_START,\"Dungeon\",1", &mut run);
    assert!(run);
    assert!(matches!(process_line(&format!("x  {}", END), &mut run), LineEvent::Nothing));
    assert!(matches!(process_line("x  ENCOUNTER_START,1,\"B\"", &mut run), LineEvent::Nothing));
    assert!(run);
    process_line("x  CHALLENGE_MODE_END,1", &mut run);
    assert!(!run);
    assert!(matches!(process_line(&format!("x  {}", END), &mut run), LineEvent::Ended { .. }));
}

#[test]
fn stamps_are_read() {
    let c = parse_log_ts(" 7/4/2026 21:05:09.1234 ").unwrap();
    assert_eq!((c.month, c.day, c.year), (7, 4, 2026));
    assert_eq!((c.hour, c.minute, c.second, c.ms), (21, 5, 9, 123));
    assert_eq!(parse_log_ts("7/4/2026 21:05:09").unwrap().ms, 0);
    assert_eq!(parse_log_ts("7/4/2026 21:05:09.5").unwrap().ms, 500);
    assert!(parse_log_ts("7/4/2026").is_none());
    assert!(parse_log_ts("7/4 21:05:09").is_none());
    assert!(parse_log_ts("7/4/2026 21:05").is_none());
    assert!(parse_log_ts("a/4/2026 21:05:09").is_none());
    assert!(parse_log_ts("7/4/2026 21:05:09.é00").is_none());
    assert!(parse_log_ts("").is_none());
}

#[test]
fn fractions_are_filled_up_and_cut() {
    let at = |frac: &str| parse_log_ts_ms(&format!("7/4/2026 21:05:09{}", frac)).unwrap();
    let whole = at("");
    for (frac, ms) in [(".000", 0), (".5", 500), (".05", 50), (".123", 123), (".1239", 123), (".5 ", 500)] {
        assert_eq!(at(frac), whole + ms);
    }
    assert_eq!(parse_log_ts_ms(" \t7/4/2026 21:05:09  "), Some(whole));
}

#[test]
fn stamps_are_instants_of_this_machine() {
    let naive = NaiveDate::from_ymd_opt(2026, 7, 4).unwrap().and_hms_milli_opt(21, 5, 9, 123).unwrap();
    let expected = Local.from_local_datetime(&naive).earliest().map(|t| t.timestamp_millis());
    assert_eq!(parse_log_ts_ms("7/4/2026 21:05:09.123"), expected);
    assert!(expected.is_some());
    assert_eq!(expected.map(|t| t % 1000), Some(123));
    assert_eq!(parse_log_ts_ms("2/30/2026 21:05:09.123"), None);
    assert_eq!(parse_log_ts_ms("7/4/2026 25:05:09.123"), None);
}

#[test]
fn an_ended_encounter_is_reported_to_every_guild() {
    let guilds = vec!["g1".to_string(), "g2".to_string()];
    let r = encounter_report(Some(1_000_000), END, &guilds).unwrap();
    assert_eq!(
        r.message,
        "[Combatlog] encounter ended: Chimaerus, the Undreamt God (kill) — notifying server"
    );
    assert_eq!(r.signals.len(), 2);
    assert_eq!(r.signals[0].guild_id, "g1");
    assert_eq!(r.signals[1].guild_id, "g2");
    for s in &r.signals {
        assert_eq!(s.encounter_id, 3182);
        assert_eq!(s.encounter_name, "Chimaerus, the Undreamt God");
        assert_eq!(s.difficulty_id, 16);
        assert!(s.success);
        assert_eq!(s.end_time, 1_000_000);
        assert_eq!(s.start_time, 687_655);
    }
    let r = encounter_report(None, "ENCOUNTER_END,5,\"B\",16,20,0,100", &guilds).unwrap();
    assert_eq!(r.message, "[Combatlog] encounter ended: B (wipe) — notifying server");
    assert_eq!((r.signals[0].start_time, r.signals[0].end_time), (0, 0));
    assert!(encounter_report(Some(1), END, &Vec::new()).is_none());
    assert!(encounter_report(Some(1), "ENCOUNTER_END", &guilds).is_none());
}

#[test]
fn the_time_of_an_end_comes_from_its_line() {
    let guilds = vec!["g".to_string()];
    let ts = "7/4/2026 21:05:09.123";
    let r = handle_encounter_end(ts, END, &guilds).unwrap();
    assert_eq!(Some(r.signals[0].end_time), parse_log_ts_ms(ts));
    assert_eq!(r.signals[0].end_time - r.signals[0].start_time, 312_345);
    let r = handle_encounter_end("nonsense", END, &guilds).unwrap();
    assert_eq!(r.signals[0].end_time, 0);
}

#[test]
fn answers_are_put_into_words() {
    let say = |is_tracked: bool, polled: bool| {
        signal_answer("Boss", &EncounterSignalResp { is_tracked, polled })
    };
    assert_eq!(say(true, true), "[Combatlog] server polling WCL for the new pull");
    assert_eq!(say(true, false), "[Combatlog] duplicate signal — server already polling");
    assert_eq!(say(false, true), "[Combatlog] Boss not a tracked raid encounter — ignored");
    assert_eq!(say(false, false), "[Combatlog] Boss not a tracked raid encounter — ignored");
    assert_eq!(signal_failed("offline"), "[Combatlog] couldn't notify the server: offline");
    assert_eq!(encounter_started("Boss"), "[Combatlog] encounter started: Boss");
}

fn names(events: &[LineEvent]) -> Vec<String> {
    events.iter().map(|e| format!("{:?}", e)).collect()
}

#[test]
fn portions_of_the_log_make_no_difference() {
    let text = format!(
        "a  ENCOUNTER_START,1,\"Ünï\",1\r\nnoise\r\nb  {}\r\nc  ENCOUNTER_START,2,\"Z\"",
        END
    );
    let bytes = text.as_bytes();
    let mut whole_pending = Vec::new();
    let mut run = false;
    let whole = feed(&mut whole_pending, bytes, &mut run);
    assert_eq!(whole.len(), 2);
    assert_eq!(whole_pending, b"c  ENCOUNTER_START,2,\"Z\"".to_vec());
    for cut in 0..bytes.len() {
        let mut pending = Vec::new();
        let mut run = false;
        let mut events = feed(&mut pending, &bytes[..cut], &mut run);
        assert!(!pending.contains(&b'\n'));
        events.extend(feed(&mut pending, &bytes[cut..], &mut run));
        assert_eq!(names(&events), names(&whole));
        assert_eq!(pending, whole_pending);
    }
}

#[test]
fn invalid_bytes_do_not_stop_the_log() {
    let mut pending = Vec::new();
    let mut run = false;
    let events = feed(&mut pending, b"a  ENCOUNTER_START,1,\"B\xff\"\n", &mut run);
    match &events[0] {
        LineEvent::Started { name } => assert_eq!(name, "B\u{fffd}"),
        other => panic!("{:?}", other),
    }
}

fn log_file(name: &str, is_file: bool, modified: Option<i128>) -> LogFile {
    LogFile { path: format!("/logs/{}", name), name: name.to_string(), is_file, modified }
}

#[test]
fn the_newest_log_is_followed() {
    let files = vec![
        log_file("WoWCombatLog.txt", true, Some(50)),
        log_file("WoWCombatLog-070426_210509.txt", true, Some(90)),
        log_file("WoWCombatLog-old.txt", true, None),
        log_file("Client.txt", true, Some(100)),
        log_file("WoWCombatLog.bak", true, Some(100)),
        log_file("WoWCombatLog-dir.txt", false, Some(100)),
    ];
    assert_eq!(find_log_file(&files).as_deref(), Some("/logs/WoWCombatLog-070426_210509.txt"));
    let tie = vec![log_file("WoWCombatLog-a.txt", true, None), log_file("WoWCombatLog-b.txt", true, None)];
    assert_eq!(find_log_file(&tie).as_deref(), Some("/logs/WoWCombatLog-b.txt"));
    assert_eq!(find_log_file(&vec![log_file("x.txt", true, Some(1))]), None);
    assert_eq!(find_log_file(&Vec::new()), None);
}

#[test]
fn a_log_is_followed_from_its_end() {
    let mut t = Tailer::new();
    match t.look(Some("/logs/a.txt".to_string()), "/logs") {
        Look::Open(p) => assert_eq!(p, "/logs/a.txt"),
        other => panic!("{:?}", other),
    }
    assert_eq!(
        t.opened("/logs/a.txt".to_string(), "a.txt", 100, 5),
        "[Combatlog] now watching a.txt"
    );
    assert!(matches!(t.look(Some("/logs/a.txt".to_string()), "/logs"), Look::Keep));
    assert!(matches!(t.look(Some("/logs/b.txt".to_string()), "/logs"), Look::Open(_)));
    assert_eq!(t.measured(Some(100)), None);
    assert_eq!(t.measured(None), None);
    assert_eq!(t.measured(Some(130)), Some(130));
    assert_eq!(t.want(130), 30);
    assert_eq!(t.want(100), 0);
    assert_eq!(t.want(100 + MAX_READ + 1), MAX_READ);
    assert_eq!(t.received(b"x  ENCOUNTER_START,1,\"A\"\nrest").len(), 1);
    assert_eq!(t.offset, 129);
    assert_eq!(t.pending, b"rest".to_vec());
    // The log was emptied: it is read from its beginning.
    assert_eq!(t.measured(Some(10)), Some(10));
    assert_eq!(t.offset, 0);
    assert!(t.pending.is_empty());
    t.open_failed();
    assert!(t.open_path.is_none());
}

#[test]
fn heartbeats_come_at_intervals_while_a_log_is_open() {
    let mut t = Tailer::new();
    assert!(!t.beat(0));
    t.opened("/a".to_string(), "a", 0, 1000);
    assert!(!t.beat(1000));
    assert!(!t.beat(999 + HEARTBEAT_MS));
    assert!(t.beat(1000 + HEARTBEAT_MS));
    assert!(!t.beat(1001 + HEARTBEAT_MS));
    t.open_failed();
    assert!(!t.beat(1_000_000));
    assert_eq!(t.last_beat, None);
}

#[test]
fn following_starts_and_stops_with_its_conditions() {
    let folder = Some("/logs".to_string());
    let mut s = CombatLogState::new();
    assert!(matches!(s.reconcile(true, &folder), Reconciled::Same));
    s.active_guilds = vec!["g".to_string()];
    assert_eq!(s.active_guilds(), vec!["g".to_string()]);
    assert!(matches!(s.reconcile(true, &None), Reconciled::Same));
    assert!(matches!(s.reconcile(false, &folder), Reconciled::Same));
    match s.reconcile(true, &folder) {
        Reconciled::Start { folder, message } => {
            assert_eq!(folder, "/logs");
            assert_eq!(message, "[Combatlog] live session started — watching the combat log");
        }
        other => panic!("{:?}", other),
    }
    assert!(s.tailing);
    assert!(matches!(s.reconcile(true, &folder), Reconciled::Same));
    match s.reconcile(false, &folder) {
        Reconciled::Stop { clear_presence, message } => {
            assert!(clear_presence);
            assert_eq!(message, "[Combatlog] live session ended — stopped watching");
        }
        other => panic!("{:?}", other),
    }
    assert!(!s.tailing);
    s.reconcile(true, &folder);
    s.active_guilds = Vec::new();
    assert!(matches!(
        s.reconcile(true, &folder),
        Reconciled::Stop { clear_presence: false, .. }
    ));
}
