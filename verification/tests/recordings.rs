use bbrr_companion::metadata::{sidecar_for, ArchonPlayer, NamedRef, Player, RecorderMeta};
use bbrr_companion::order::{sort_items, status_rank, text_before};
use bbrr_companion::scan::{
    cached_upload, first_look, found_recording, is_mp4, take_in, FileEntry, Findings, FirstLook,
    Sidecar, Stage, VideoItem,
};
use bbrr_companion::util::{is_settled, mtime_ms, now_ms};

fn meta() -> RecorderMeta {
    RecorderMeta {
        category: Some("Raids".to_string()),
        clipped: false,
        player: Some(Player { name: Some("Ana".to_string()), realm: Some("Draenor".to_string()) }),
        actor_id: None,
        players: None,
        content_type: None,
    }
}

fn archon() -> RecorderMeta {
    let player = |id: i64, name: &str| ArchonPlayer {
        actor_id: Some(id),
        name: Some(name.to_string()),
        server_name: Some("Silvermoon".to_string()),
    };
    RecorderMeta {
        category: None,
        clipped: false,
        player: None,
        actor_id: Some(2),
        players: Some(vec![player(1, "One"), player(2, "Two"), player(2, "Again")]),
        content_type: Some(NamedRef { name: Some("Raids".to_string()) }),
    }
}

#[test]
fn both_recorders_name_the_player() {
    assert_eq!(meta().player_name().as_deref(), Some("Ana"));
    assert_eq!(meta().player_realm().as_deref(), Some("Draenor"));
    assert_eq!(archon().player_name().as_deref(), Some("Two"));
    assert_eq!(archon().player_realm().as_deref(), Some("Silvermoon"));
    let mut m = archon();
    m.actor_id = Some(9);
    assert_eq!(m.player_name(), None);
    assert!(m.archon_owner().is_none());
    m.player = Some(Player { name: None, realm: None });
    m.actor_id = Some(1);
    assert_eq!(m.player_name().as_deref(), Some("One"));
}

#[test]
fn clips_and_other_content_are_told_apart() {
    assert!(!meta().is_clip());
    assert!(!archon().is_clip());
    let mut m = meta();
    m.clipped = true;
    assert!(m.is_clip());
    let mut m = meta();
    m.category = Some("Mythic+".to_string());
    assert!(m.is_clip());
    let mut m = archon();
    m.content_type = Some(NamedRef { name: Some("Arena".to_string()) });
    assert!(m.is_clip());
    m.content_type = None;
    assert!(!m.is_clip());
}

#[test]
fn sidecars_stand_in_two_places() {
    let stem = || "/v/a.json".to_string();
    let folder = || Some("/v/metadata.json".to_string());
    assert_eq!(sidecar_for(stem(), true, folder(), true), Some(stem()));
    assert_eq!(sidecar_for(stem(), false, folder(), true), folder());
    assert_eq!(sidecar_for(stem(), false, folder(), false), None);
    assert_eq!(sidecar_for(stem(), false, None, true), None);
}

#[test]
fn files_settle() {
    assert!(!is_settled(10_000, 5_001));
    assert!(is_settled(10_000, 5_000));
    assert!(!is_settled(0, 10_000));
    assert_eq!(now_ms(Some(7)), 7);
    assert_eq!(now_ms(None), 0);
    assert_eq!(mtime_ms(Some(9)), 9);
    assert_eq!(mtime_ms(None), 0);
}

#[test]
fn videos_are_known_by_their_extension() {
    assert!(is_mp4(Some("mp4")));
    assert!(is_mp4(Some("MP4")));
    assert!(is_mp4(Some("mP4")));
    assert!(!is_mp4(Some("mp3")));
    assert!(!is_mp4(Some("xmp4")));
    assert!(!is_mp4(None));
}

fn entry(path: &str, mtime_ms: u128, has_sidecar: bool) -> FileEntry {
    FileEntry {
        path: path.to_string(),
        filename: "a.mp4".to_string(),
        is_file: true,
        extension: Some("mp4".to_string()),
        size: 12,
        mtime_ms,
        has_sidecar,
    }
}

#[test]
fn a_first_look_sorts_files() {
    let none = Vec::new();
    match first_look(&entry("/v/a.mp4", 0, false), &none, false, 100_000) {
        FirstLook::List(v) => {
            assert_eq!(v.status, "pending");
            assert_eq!(v.reason.as_deref(), Some("Waiting for the recording to finish…"));
            assert_eq!(v.id, "/v/a.mp4");
            assert_eq!(v.size_bytes, 12);
        }
        other => panic!("{:?}", other),
    }
    match first_look(&entry("/v/a.mp4", 99_000, true), &none, false, 100_000) {
        FirstLook::List(v) => assert_eq!(v.reason.as_deref(), Some("Finishing up…")),
        other => panic!("{:?}", other),
    }
    assert!(matches!(
        first_look(&entry("/v/a.mp4", 95_000, true), &none, false, 100_000),
        FirstLook::Read(_)
    ));
    let mut f = entry("/v", 0, true);
    f.is_file = false;
    assert!(matches!(first_look(&f, &none, false, 100_000), FirstLook::Ignore));
    f.is_file = true;
    f.extension = Some("json".to_string());
    assert!(matches!(first_look(&f, &none, false, 100_000), FirstLook::Ignore));
}

#[test]
fn uploads_are_read_again_only_to_verify_them() {
    let mut done = found_recording("/v/a.mp4", "a.mp4", 1);
    done.status = "uploaded".to_string();
    done.reason = Some("Uploaded".to_string());
    let mut other = found_recording("/v/a.mp4", "a.mp4", 2);
    other.status = "matched".to_string();
    let prev = vec![done, other];
    match first_look(&entry("/v/a.mp4", 0, true), &prev, false, 100_000) {
        FirstLook::List(v) => assert_eq!(v.reason.as_deref(), Some("Uploaded")),
        other => panic!("{:?}", other),
    }
    assert!(matches!(
        first_look(&entry("/v/a.mp4", 0, true), &prev, true, 100_000),
        FirstLook::Read(_)
    ));
    assert!(cached_upload(&prev, "/v/b.mp4", false).is_none());
}

#[test]
fn finished_recordings_are_taken_in() {
    let fresh = || found_recording("/v/a.mp4", "a.mp4", 1);
    match take_in(fresh(), Ok(meta())) {
        Stage::Ready(v) => {
            assert_eq!(v.status, "unmatched");
            assert_eq!(v.player_name.as_deref(), Some("Ana"));
            assert_eq!(v.player_realm.as_deref(), Some("Draenor"));
        }
        other => panic!("{:?}", other),
    }
    let mut clip = meta();
    clip.clipped = true;
    match take_in(fresh(), Ok(clip)) {
        Stage::Listed(v) => {
            assert_eq!(v.status, "skipped");
            assert_eq!(v.reason.as_deref(), Some("Clip, not a full pull"));
            assert_eq!(v.player_name.as_deref(), Some("Ana"));
        }
        other => panic!("{:?}", other),
    }
    match take_in(fresh(), Err("bad".to_string())) {
        Stage::Listed(v) => {
            assert_eq!(v.status, "error");
            assert_eq!(v.reason.as_deref(), Some("Couldn't read metadata: bad"));
            assert_eq!(v.player_name, None);
        }
        other => panic!("{:?}", other),
    }
}

fn listed(name: &str, status: &str, id: &str) -> VideoItem {
    let mut v = found_recording(id, name, 0);
    v.status = status.to_string();
    v
}

#[test]
fn the_list_is_ordered_by_status_and_name() {
    let ranks: Vec<u8> = ["matched", "uploading", "uploaded", "unmatched", "pending", "error", "skipped", "?"]
        .iter()
        .map(|s| status_rank(s))
        .collect();
    assert_eq!(ranks, vec![0, 1, 2, 3, 4, 5, 6, 7]);
    assert!(text_before("a", "b"));
    assert!(text_before("B", "a"));
    assert!(text_before("a", "ab"));
    assert!(!text_before("a", "a"));
    assert!(text_before("z", "ä"));
    let items = vec![
        listed("z.mp4", "pending", "1"),
        listed("b.mp4", "matched", "2"),
        listed("c.mp4", "unmatched", "3"),
        listed("a.mp4", "matched", "4"),
        listed("b.mp4", "matched", "5"),
    ];
    let ids: Vec<String> = sort_items(items).iter().map(|v| v.id.clone()).collect();
    assert_eq!(ids, vec!["4", "2", "5", "3", "1"]);
}

#[test]
fn every_recording_is_found_once() {
    let mut found = Findings::new();
    found.list(found_recording("/v/a.mp4", "a.mp4", 1));
    let sidecar = |text: &str| Ok(Sidecar { meta: meta(), text: text.to_string() });
    assert!(found.read(found_recording("/v/b.mp4", "b.mp4", 1), sidecar("{\"b\":1}")));
    assert!(!found.read(found_recording("/v/c.mp4", "c.mp4", 1), Err("bad".to_string())));
    let names = |v: &Vec<VideoItem>| v.iter().map(|x| x.filename.clone()).collect::<Vec<String>>();
    assert!(found.read(found_recording("/v/d.mp4", "d.mp4", 1), sidecar("{\"d\":1}")));
    assert_eq!(names(&found.listed), vec!["a.mp4", "c.mp4"]);
    assert_eq!(names(&found.candidates), vec!["b.mp4", "d.mp4"]);
    assert_eq!(found.sidecars, vec!["{\"b\":1}", "{\"d\":1}"]);
}
