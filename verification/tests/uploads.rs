use bbrr_companion::api::{put_part, ApiClient, CreateUpload, Field, PartError, PartReply, Status};
use bbrr_companion::merge::{match_warning, merge_scan, scan_notes};
use bbrr_companion::part::{
    next_part_step, part_sent, sleep_with_control, AfterAttempt, PartOutcome, PartPhase, PartStep,
    Progress, Sent, SleepStep, CANCEL, PAUSE, RUN,
};
use bbrr_companion::scan::{found_recording, MatchedInfo, VideoItem};
use bbrr_companion::transfer::{
    abort_and_log, aborted, part_range, prepare_upload, Ending, OpenStep, OpenUpload,
    Prepared, Transfer, TransferStep, UploadOutcome,
};
use bbrr_companion::upload::{
    cancel_uploads, enqueue_upload, find_video, is_uploadable, load_videos, manual_match,
    next_upload, pause_uploads, resume_uploads, update_video, upload_over, Change, Enqueued,
    ManualMatchInput, Onward, UploadQueue, WorkerStep,
};

fn matched_info(existing: Option<&str>) -> MatchedInfo {
    MatchedInfo {
        guild_id: "g".to_string(),
        guild_name: "Guild".to_string(),
        pull_id: "pull".to_string(),
        boss_name: "Boss".to_string(),
        pull_number: 7,
        is_kill: false,
        date: "d".to_string(),
        start_time: "t".to_string(),
        is_own_pov: true,
        can_upload: true,
        existing_video_id: existing.map(|s| s.to_string()),
    }
}

fn video(id: &str, status: &str) -> VideoItem {
    let mut v = found_recording(id, &format!("{}.mp4", id), 100);
    v.status = status.to_string();
    v.player_name = Some("Ana".to_string());
    v.matched = Some(matched_info(None));
    v
}

fn refused(retryable: bool) -> Sent {
    Sent::Refused(PartError { retryable, msg: "reset".to_string() })
}

#[test]
fn waits_are_slept_in_slices() {
    assert_eq!(sleep_with_control(250, RUN), SleepStep::Slice(100));
    assert_eq!(sleep_with_control(50, RUN), SleepStep::Slice(50));
    assert_eq!(sleep_with_control(50, 7), SleepStep::Slice(50));
    assert_eq!(sleep_with_control(50, PAUSE), SleepStep::Hold(100));
    assert_eq!(sleep_with_control(50, CANCEL), SleepStep::Cancelled);
    assert_eq!(sleep_with_control(0, CANCEL), SleepStep::Done);
}

#[test]
fn a_part_is_tried_four_times() {
    let mut phase = PartPhase::Hold;
    let mut waits = Vec::new();
    let mut sends = 0;
    let outcome = loop {
        match next_part_step(&mut phase, RUN) {
            PartStep::Sleep(ms) => waits.push(ms),
            PartStep::Over(o) => break o,
            PartStep::Send => {
                sends += 1;
                match part_sent(&mut phase, refused(true), RUN, 2, "f.mp4") {
                    AfterAttempt::Over(o) => break o,
                    AfterAttempt::Again(text) => assert_eq!(
                        text,
                        format!("[Video] Part 3 of f.mp4 failed (reset), retrying ({}/4)…", sends)
                    ),
                }
            }
        }
    };
    assert_eq!(sends, 4);
    assert_eq!(waits.iter().sum::<u64>(), 500 + 1000 + 2000);
    match outcome {
        PartOutcome::Failed(msg) => assert_eq!(msg, "reset (after 4 attempts)"),
        other => panic!("{:?}", other),
    }
}

#[test]
fn a_part_ends_as_its_attempt_does() {
    let over = |sent: Sent, control: u8| {
        let mut phase = PartPhase::Send { attempt: 1 };
        match part_sent(&mut phase, sent, control, 0, "f.mp4") {
            AfterAttempt::Over(o) => format!("{:?}", o),
            AfterAttempt::Again(_) => "again".to_string(),
        }
    };
    assert_eq!(over(Sent::Stored("tag".to_string()), CANCEL), "Done(\"tag\")");
    assert_eq!(over(refused(false), RUN), "Failed(\"reset (after 1 attempts)\")");
    assert_eq!(over(refused(true), CANCEL), "Cancelled");
    assert_eq!(over(refused(true), PAUSE), "again");
    assert_eq!(over(Sent::CannotOpen("gone".to_string()), RUN), "Failed(\"can't open recording: gone\")");
    assert_eq!(over(Sent::CannotRead("end".to_string()), RUN), "Failed(\"can't read recording: end\")");
}

#[test]
fn cancel_and_pause_hold_a_part() {
    let mut phase = PartPhase::Hold;
    assert!(matches!(next_part_step(&mut phase, PAUSE), PartStep::Sleep(250)));
    assert_eq!(phase, PartPhase::Hold);
    assert!(matches!(next_part_step(&mut phase, CANCEL), PartStep::Over(PartOutcome::Cancelled)));
    let mut phase = PartPhase::Wait { attempt: 1, left: 300 };
    assert!(matches!(next_part_step(&mut phase, PAUSE), PartStep::Sleep(100)));
    assert_eq!(phase, PartPhase::Wait { attempt: 1, left: 300 });
    assert!(matches!(next_part_step(&mut phase, CANCEL), PartStep::Over(PartOutcome::Cancelled)));
    let mut phase = PartPhase::Wait { attempt: 1, left: 0 };
    assert!(matches!(next_part_step(&mut phase, CANCEL), PartStep::Send));
    assert_eq!(phase, PartPhase::Send { attempt: 2 });
}

#[test]
fn shown_progress_does_not_fall() {
    let mut p = Progress::new();
    p.restart(0);
    assert_eq!(p.advance(100, 1000), Some(100));
    assert_eq!(p.advance(50, 1100), None);
    assert_eq!(p.shown, 150);
    p.restart(0);
    assert_eq!(p.advance(10, 1200), Some(150));
    assert_eq!(p.uploaded, 10);
    assert_eq!(p.advance(200, 1100), None);
    assert_eq!(p.shown, 210);
}

#[test]
fn replies_to_parts_are_judged() {
    let answered = |code: u16, etag: Option<&str>| {
        put_part(PartReply::Answered {
            status: Status { code, text: format!("{} words", code) },
            etag: etag.map(|s| s.to_string()),
        })
    };
    assert_eq!(answered(200, Some("tag")).unwrap(), "tag");
    let e = answered(200, None).unwrap_err();
    assert_eq!((e.retryable, e.msg.as_str()), (false, "part upload response missing ETag"));
    let e = answered(503, None).unwrap_err();
    assert_eq!((e.retryable, e.msg.as_str()), (true, "part upload failed: 503 words"));
    assert!(answered(429, None).unwrap_err().retryable);
    assert!(!answered(403, Some("tag")).unwrap_err().retryable);
    assert!(!answered(600, None).unwrap_err().retryable);
    let e = put_part(PartReply::Lost("closed".to_string())).unwrap_err();
    assert_eq!((e.retryable, e.msg.as_str()), (true, "closed"));
}

#[test]
fn parts_tile_a_file() {
    let mut next = 0;
    for i in 0..4 {
        match part_range(100, 30, i) {
            Some((offset, len)) => {
                assert_eq!(offset, next);
                next = offset + len;
            }
            None => panic!("part {}", i),
        }
    }
    assert_eq!(next, 100);
    assert_eq!(part_range(100, 30, 3), Some((90, 10)));
    assert_eq!(part_range(100, 30, 4), None);
    assert_eq!(part_range(90, 30, 3), None);
    assert_eq!(part_range(0, 30, 0), None);
    assert_eq!(part_range(u64::MAX, u64::MAX, 2), None);
    assert_eq!(part_range(u64::MAX, u64::MAX, 0), Some((0, u64::MAX)));
}

fn urls(n: usize) -> Vec<String> {
    (0..n).map(|i| format!("u{}", i)).collect()
}

#[test]
fn a_transfer_sends_every_part_and_completes() {
    let mut t = Transfer::new(100, 60, urls(2));
    match t.next_step() {
        TransferStep::Put { index, url, offset, len } => {
            assert_eq!((index, url.as_str(), offset, len), (0, "u0", 0, 60))
        }
        other => panic!("{:?}", other),
    }
    assert!(t.part_over(PartOutcome::Done("x".to_string())).is_none());
    match t.next_step() {
        TransferStep::Put { index, url, offset, len } => {
            assert_eq!((index, url.as_str(), offset, len), (1, "u1", 60, 40))
        }
        other => panic!("{:?}", other),
    }
    assert!(t.part_over(PartOutcome::Done("y".to_string())).is_none());
    assert!(matches!(t.next_step(), TransferStep::Complete));
    assert_eq!(t.parts, vec![(1, "x".to_string()), (2, "y".to_string())]);
}

#[test]
fn a_transfer_that_cannot_go_on_is_aborted() {
    let message = |step: TransferStep| match step {
        TransferStep::Abort(Ending::Failed(msg)) => msg,
        other => panic!("{:?}", other),
    };
    assert_eq!(message(Transfer::new(100, 0, urls(1)).next_step()), "server returned an invalid part size");
    assert_eq!(message(Transfer::new(100, 0, urls(0)).next_step()), "server returned an invalid part size");
    assert_eq!(
        message(Transfer::new(0, 10, urls(1)).next_step()),
        "server returned more upload parts than the file needs"
    );
    let mut t = Transfer::new(100, 60, urls(3));
    assert!(matches!(t.part_over(PartOutcome::Cancelled), Some(Ending::Cancelled)));
    assert!(matches!(t.part_over(PartOutcome::Failed("m".to_string())), Some(Ending::Failed(_))));
    assert!(t.parts.is_empty());
    assert!(matches!(aborted(Ending::Cancelled), Ok(UploadOutcome::Cancelled)));
    assert_eq!(aborted(Ending::Failed("m".to_string())).unwrap_err(), "m");
}

#[test]
fn a_failed_abort_is_warned_of() {
    assert_eq!(abort_and_log(Ok(()), "f.mp4"), None);
    assert_eq!(
        abort_and_log(Err("abort returned 500".to_string()), "f.mp4").as_deref(),
        Some(
            "[Video] Couldn't clean up the interrupted upload of f.mp4: abort returned 500. \
             The bucket may keep the partial parts until its lifecycle rule removes them."
        )
    );
}

#[test]
fn uploads_are_prepared_in_order() {
    let ok = || Some(Ok("{}".to_string()));
    let say = |v: &VideoItem, size: Result<u64, String>, mtime: u128, sidecar: Option<Result<String, String>>| {
        match prepare_upload(v, size, 100_000, mtime, sidecar) {
            Prepared::Failed(e) => e,
            Prepared::NotReady => "not ready".to_string(),
            Prepared::Ready { pull_id, player_name, realm, size, metadata } => {
                format!("{} {} {:?} {} {}", pull_id, player_name, realm, size, metadata)
            }
        }
    };
    let v = video("a", "matched");
    assert_eq!(say(&v, Ok(9), 0, ok()), "pull Ana None 9 {}");
    let mut w = video("a", "matched");
    w.matched = None;
    w.player_name = None;
    assert_eq!(say(&w, Err("x".to_string()), 0, ok()), "video has no match");
    w.matched = Some(matched_info(None));
    assert_eq!(say(&w, Err("x".to_string()), 0, ok()), "video has no player name");
    assert_eq!(say(&v, Err("gone".to_string()), 99_999, ok()), "gone");
    assert_eq!(say(&v, Ok(9), 99_999, None), "not ready");
    assert_eq!(say(&v, Ok(9), 0, None), "sidecar disappeared");
    assert_eq!(say(&v, Ok(9), 0, Some(Err("bad json".to_string()))), "bad json");
}

#[test]
fn only_matches_that_are_not_uploaded_are_queued() {
    let mut done = video("b", "uploaded");
    done.matched = Some(matched_info(Some("vid")));
    let mut plain = video("c", "unmatched");
    plain.matched = None;
    let mut videos = vec![video("a", "matched"), done, plain];
    let mut q = UploadQueue::new();
    let mut control = RUN;
    for id in ["b", "c", "nowhere"] {
        assert!(matches!(enqueue_upload(&mut videos, &mut q, &mut control, id), Enqueued::Refused));
    }
    assert!(q.ids.is_empty());
    assert!(!q.uploading);
    match enqueue_upload(&mut videos, &mut q, &mut control, "a") {
        Enqueued::Queued { start_worker, shown } => {
            assert!(start_worker);
            let v = shown.unwrap();
            assert_eq!((v.status.as_str(), v.uploaded_bytes), ("uploading", Some(0)));
        }
        other => panic!("{:?}", other),
    }
    assert!(matches!(
        enqueue_upload(&mut videos, &mut q, &mut control, "a"),
        Enqueued::Queued { start_worker: false, .. }
    ));
    assert_eq!(q.ids.len(), 1);
    assert_eq!(videos[0].status, "uploading");
    assert!(is_uploadable(&videos[0]));
    assert!(!is_uploadable(&videos[1]));
    assert_eq!(find_video(&videos, "c"), Some(2));
}

#[test]
fn the_worker_empties_the_queue_in_order() {
    let mut videos = vec![video("a", "matched"), video("b", "matched")];
    let mut q = UploadQueue::new();
    let mut control = RUN;
    q.requeue("gone".to_string());
    enqueue_upload(&mut videos, &mut q, &mut control, "b");
    enqueue_upload(&mut videos, &mut q, &mut control, "a");
    assert!(matches!(next_upload(&mut videos, &mut q, RUN), WorkerStep::Skip));
    let first = match next_upload(&mut videos, &mut q, RUN) {
        WorkerStep::Upload { video, note, .. } => {
            assert_eq!(video.id, "b");
            assert_eq!((note.level, note.message.as_str()), ("info", "[Video] Uploading b.mp4…"));
            video
        }
        other => panic!("{:?}", other),
    };
    let after = upload_over(&mut videos, &mut q, &first, Ok(UploadOutcome::Done("vid".to_string())));
    assert_eq!(after.note.unwrap().message, "[Video] Uploaded b.mp4 to Guild");
    assert!(matches!(after.onward, Onward::Next));
    assert_eq!(videos[1].status, "uploaded");
    assert_eq!(videos[1].reason.as_deref(), Some("Uploaded"));
    assert!(!is_uploadable(&videos[1]));
    assert!(matches!(next_upload(&mut videos, &mut q, PAUSE), WorkerStep::Upload { .. }));
    assert!(q.uploading);
    assert!(matches!(next_upload(&mut videos, &mut q, RUN), WorkerStep::Stop));
    assert!(!q.uploading);
}

#[test]
fn uploads_that_do_not_succeed_are_shown_so() {
    let mut videos = vec![video("a", "uploading"), video("b", "uploading")];
    let mut q = UploadQueue::new();
    q.uploading = true;
    let a = videos[0].clone();
    let r = upload_over(&mut videos, &mut q, &a, Err("boom".to_string()));
    let note = r.note.unwrap();
    assert_eq!((note.level, note.message.as_str()), ("error", "[Video] Upload failed for a.mp4: boom"));
    assert_eq!((videos[0].status.as_str(), videos[0].reason.as_deref()), ("error", Some("boom")));
    let r = upload_over(&mut videos, &mut q, &a, Ok(UploadOutcome::NotReady));
    assert!(r.note.is_none());
    assert!(matches!(r.onward, Onward::After(1500)));
    assert_eq!((videos[0].status.as_str(), videos[0].reason.as_deref()), ("pending", Some("Finishing up…")));
    assert_eq!(q.ids.len(), 1);
    let r = upload_over(&mut videos, &mut q, &a, Ok(UploadOutcome::Cancelled));
    assert_eq!(r.note.unwrap().message, "[Video] Uploads cancelled");
    assert!(matches!(r.onward, Onward::Stop));
    assert_eq!((videos[0].status.as_str(), videos[0].uploaded_bytes), ("matched", None));
    assert!(q.ids.is_empty() && !q.uploading);
    assert_eq!(videos[1].status, "uploading");
}

#[test]
fn cancelling_calls_off_everything() {
    let mut videos = vec![video("a", "matched"), video("b", "matched"), video("c", "unmatched")];
    let mut q = UploadQueue::new();
    let mut control = RUN;
    enqueue_upload(&mut videos, &mut q, &mut control, "a");
    enqueue_upload(&mut videos, &mut q, &mut control, "b");
    let shown = cancel_uploads(&mut videos, &mut q, &mut control);
    assert_eq!(shown.len(), 2);
    assert!(q.ids.is_empty());
    assert!(q.uploading);
    let seen: Vec<&str> = videos.iter().map(|v| v.status.as_str()).collect();
    assert_eq!(seen, vec!["matched", "matched", "unmatched"]);
    assert!(videos.iter().all(|v| v.uploaded_bytes.is_none()));
    // The worker notices and stops.
    assert!(matches!(next_upload(&mut videos, &mut q, control), WorkerStep::Stop));
    assert!(!q.uploading);
}

#[test]
fn a_worker_without_a_token_stops() {
    let mut videos = vec![video("a", "matched")];
    let mut q = UploadQueue::new();
    let mut control = RUN;
    enqueue_upload(&mut videos, &mut q, &mut control, "a");
    q.stop_worker();
    assert!(!q.uploading);
    assert_eq!(q.ids.len(), 1);
}

#[test]
fn a_restart_ends_uploads() {
    let mut loose = video("b", "uploading");
    loose.matched = None;
    loose.uploaded_bytes = Some(5);
    let list = load_videos(vec![video("a", "uploading"), loose, video("c", "error")]);
    let seen: Vec<&str> = list.iter().map(|v| v.status.as_str()).collect();
    assert_eq!(seen, vec!["matched", "pending", "error"]);
    assert_eq!(list[1].uploaded_bytes, None);
}

#[test]
fn the_user_can_pick_a_pull() {
    let mut videos = vec![video("a", "unmatched")];
    videos[0].matched = None;
    videos[0].reason = Some("No matching pull found".to_string());
    let choice = || ManualMatchInput {
        guild_id: "g2".to_string(),
        guild_name: "Two".to_string(),
        pull_id: "p2".to_string(),
        boss_name: "Other".to_string(),
        pull_number: -3,
        is_kill: true,
        date: "d".to_string(),
        start_time: "t".to_string(),
    };
    let mut q = UploadQueue::new();
    let mut control = CANCEL;
    assert!(manual_match(&mut videos, &mut q, &mut control, "z", choice()).is_none());
    assert!(q.ids.is_empty());
    assert_eq!(control, CANCEL);
    let picked = manual_match(&mut videos, &mut q, &mut control, "a", choice()).unwrap();
    assert_eq!(picked.note.message, "Manually matched a.mp4 → Other #-3");
    assert_eq!(picked.shown.status, "matched");
    assert!(picked.start_worker);
    assert_eq!(q.ids, vec!["a".to_string()]);
    assert!(q.uploading);
    assert_eq!(control, RUN);
    let again = manual_match(&mut videos, &mut q, &mut control, "a", choice()).unwrap();
    assert!(!again.start_worker);
    assert_eq!(q.ids.len(), 1);
    assert_eq!(videos[0].reason, None);
    let m = videos[0].matched.as_ref().unwrap();
    assert_eq!((m.guild_id.as_str(), m.pull_id.as_str()), ("g2", "p2"));
    assert!(m.is_own_pov && m.can_upload && m.existing_video_id.is_none());
    match next_upload(&mut videos, &mut q, control) {
        WorkerStep::Upload { video, .. } => assert_eq!(video.matched.unwrap().pull_id, "p2"),
        other => panic!("{:?}", other),
    }
}

#[test]
fn a_pick_lifts_no_pause() {
    let choice = || ManualMatchInput {
        guild_id: "g2".to_string(),
        guild_name: "Two".to_string(),
        pull_id: "p2".to_string(),
        boss_name: "Other".to_string(),
        pull_number: 1,
        is_kill: true,
        date: "2026-07-04".to_string(),
        start_time: "21:00".to_string(),
    };
    for (before, after) in [(RUN, RUN), (PAUSE, PAUSE), (CANCEL, RUN)] {
        let mut videos = vec![video("a", "unmatched")];
        let mut q = UploadQueue::new();
        let mut control = before;
        assert!(manual_match(&mut videos, &mut q, &mut control, "a", choice()).is_some());
        assert_eq!(control, after);
        assert_eq!(q.ids, vec!["a".to_string()]);
    }
}

#[test]
fn commands_set_what_the_user_wants() {
    let mut videos = vec![video("a", "matched")];
    let mut q = UploadQueue::new();
    let mut control = CANCEL;
    enqueue_upload(&mut videos, &mut q, &mut control, "nowhere");
    assert_eq!(control, CANCEL);
    enqueue_upload(&mut videos, &mut q, &mut control, "a");
    assert_eq!(control, RUN);
    pause_uploads(&mut control);
    assert_eq!(control, PAUSE);
    resume_uploads(&mut control);
    assert_eq!(control, RUN);
    cancel_uploads(&mut videos, &mut q, &mut control);
    assert_eq!(control, CANCEL);
}

#[test]
fn a_change_concerns_one_recording() {
    let mut videos = vec![video("a", "matched"), video("b", "matched")];
    assert!(update_video(&mut videos, "x", Change::Begin).is_none());
    assert!(update_video(&mut videos, "b", Change::Begin).is_some());
    assert_eq!(videos[0].status, "matched");
    assert_eq!(videos[1].status, "uploading");
}

#[test]
fn a_scan_does_not_disturb_uploads() {
    let prev = vec![video("a", "uploading"), video("b", "uploaded"), video("c", "matched")];
    let merge = |b: &str, ok: bool| {
        let fresh = vec![video("a", "matched"), video("b", b), video("c", "unmatched"), video("d", "pending")];
        let list = merge_scan(fresh, &prev, ok);
        list.into_iter().map(|v| v.status).collect::<Vec<String>>()
    };
    assert_eq!(merge("matched", false), vec!["uploading", "matched", "unmatched", "pending"]);
    assert_eq!(merge("unmatched", true), vec!["uploading", "unmatched", "unmatched", "pending"]);
    assert_eq!(merge("unmatched", false), vec!["uploading", "uploaded", "unmatched", "pending"]);
    assert_eq!(merge("error", true), vec!["uploading", "uploaded", "unmatched", "pending"]);
}

#[test]
fn news_are_noted() {
    let mut lost = video("c", "unmatched");
    lost.reason = Some("No matching pull found".to_string());
    lost.matched = None;
    let mut bad = video("d", "error");
    bad.reason = None;
    let list = vec![video("a", "matched"), video("b", "uploaded"), lost, bad, video("e", "pending")];
    let notes: Vec<(String, String)> = scan_notes(&list, &Vec::new())
        .into_iter()
        .map(|n| (n.level.to_string(), n.message))
        .collect();
    let expected: Vec<(String, String)> = [
        ("info", "Matched a.mp4 → Boss #7 (Guild)"),
        ("info", "Already on server: b.mp4"),
        ("info", "No match: c.mp4 (No matching pull found)"),
        ("error", "d.mp4"),
    ]
    .iter()
    .map(|(l, m)| (l.to_string(), m.to_string()))
    .collect();
    assert_eq!(notes, expected);
    assert!(scan_notes(&list, &list).is_empty());
}

#[test]
fn failing_matches_are_warned_of_now_and_then() {
    let mut v = video("a", "unmatched");
    v.reason = Some("Match request failed — Alpha: x".to_string());
    let list = vec![v];
    let mut last: u128 = 0;
    assert!(match_warning(&list, true, 700_000, &mut last).is_none());
    let note = match_warning(&list, false, 700_000, &mut last).unwrap();
    assert_eq!(note.level, "warn");
    assert!(note.message.starts_with("A guild's match request failed"));
    assert_eq!(last, 700_000);
    assert!(match_warning(&list, false, 1_300_000, &mut last).is_none());
    assert!(match_warning(&list, false, 1_300_001, &mut last).is_some());
    assert!(match_warning(&vec![video("a", "unmatched")], false, 9_000_000, &mut last).is_none());
}

fn open_upload(n: usize) -> OpenUpload {
    let created = CreateUpload {
        object_key: "key".to_string(),
        upload_id: "up".to_string(),
        part_size: 60,
        part_urls: urls(n),
        storage_config_id: Some("cfg".to_string()),
        storage_label: None,
    };
    let metadata = "{\"a\":1}".to_string();
    OpenUpload::new("pull".to_string(), "Ana".to_string(), 100, Some(9), metadata, created)
}

fn field<'a>(payload: &'a [(&'static str, Field)], name: &str) -> &'a Field {
    &payload.iter().find(|f| f.0 == name).unwrap().1
}

#[test]
fn an_open_upload_is_completed_with_its_parts() {
    let client = ApiClient::new("b".to_string(), "t".to_string());
    let mut open = open_upload(2);
    for tag in ["x", "y"] {
        assert!(matches!(open.next_step(&client), OpenStep::Put { .. }));
        assert!(open.part_over(&client, PartOutcome::Done(tag.to_string())).is_none());
    }
    match open.next_step(&client) {
        OpenStep::Complete(request) => {
            assert_eq!(request.url, "b/api/povs/complete");
            let payload = request.payload.unwrap();
            assert!(matches!(field(&payload, "uploadId"), Field::Text(s) if s == "up"));
            assert!(matches!(field(&payload, "sizeBytes"), Field::Number(100)));
            assert!(matches!(field(&payload, "durationS"), Field::Number(9)));
            assert!(matches!(field(&payload, "metadata"), Field::Metadata(s) if s == "{\"a\":1}"));
            match field(&payload, "parts") {
                Field::Parts(parts) => {
                    assert_eq!(parts, &vec![(1, "x".to_string()), (2, "y".to_string())])
                }
                other => panic!("{:?}", other),
            }
        }
        other => panic!("{:?}", other),
    }
}

#[test]
fn an_upload_that_cannot_be_completed_is_aborted() {
    let client = ApiClient::new("b".to_string(), "t".to_string());
    let open = open_upload(0);
    match open.completed(&client, Ok("id".to_string())) {
        Ok(UploadOutcome::Done(id)) => assert_eq!(id, "id"),
        other => panic!("{:?}", other),
    }
    for (request, ending) in [
        open.completed(&client, Err("complete failed".to_string())).unwrap_err(),
        open.give_up(&client, "complete failed".to_string()),
    ] {
        assert_eq!(request.url, "b/api/povs/abort");
        let payload = request.payload.unwrap();
        assert!(matches!(field(&payload, "objectKey"), Field::Text(s) if s == "key"));
        assert!(matches!(field(&payload, "uploadId"), Field::Text(s) if s == "up"));
        assert!(matches!(field(&payload, "storageConfigId"), Field::Text(s) if s == "cfg"));
        assert_eq!(aborted(ending).unwrap_err(), "complete failed");
    }
}

#[test]
fn an_open_upload_is_aborted_by_its_own_key() {
    let client = ApiClient::new("b".to_string(), "t".to_string());
    let mut open = open_upload(2);
    let (request, ending) = open.part_over(&client, PartOutcome::Cancelled).unwrap();
    assert!(matches!(ending, Ending::Cancelled));
    assert_eq!(request.url, "b/api/povs/abort");
    let payload = request.payload.unwrap();
    assert!(matches!(field(&payload, "objectKey"), Field::Text(s) if s == "key"));
    assert!(matches!(field(&payload, "storageConfigId"), Field::Text(s) if s == "cfg"));
    let mut open = open_upload(3);
    for tag in ["x", "y"] {
        open.part_over(&client, PartOutcome::Done(tag.to_string()));
    }
    assert!(matches!(open.next_step(&client), OpenStep::Abort(_, Ending::Failed(_))));
}

#[test]
fn what_belongs_to_a_pull_names_it() {
    let coherent = |list: &[VideoItem]| {
        list.iter().all(|v| {
            !matches!(v.status.as_str(), "matched" | "uploading" | "uploaded") || v.matched.is_some()
        })
    };
    let mut plain = video("c", "unmatched");
    plain.matched = None;
    let mut videos = vec![video("a", "matched"), video("b", "error"), plain];
    let mut q = UploadQueue::new();
    let mut control = RUN;
    for id in ["a", "b", "c"] {
        enqueue_upload(&mut videos, &mut q, &mut control, id);
        assert!(coherent(&videos));
    }
    let first = match next_upload(&mut videos, &mut q, RUN) {
        WorkerStep::Upload { video, .. } => video,
        other => panic!("{:?}", other),
    };
    for result in [
        Ok(UploadOutcome::NotReady),
        Err("x".to_string()),
        Ok(UploadOutcome::Done("vid".to_string())),
        Ok(UploadOutcome::Cancelled),
    ] {
        upload_over(&mut videos, &mut q, &first, result);
        assert!(coherent(&videos));
    }
    cancel_uploads(&mut videos, &mut q, &mut control);
    assert!(coherent(&videos));
    assert!(coherent(&load_videos(videos)));
}

#[test]
fn shown_progress_stays_within_the_file() {
    let mut p = Progress::new();
    for i in [0usize, 1, 1, 0, 1] {
        let (offset, len) = part_range(100, 60, i).unwrap();
        p.restart(offset);
        p.advance(len - 1, 0);
        assert!(p.shown <= 100);
        p.advance(1, 0);
        assert!(p.shown <= 100);
    }
    assert_eq!(p.shown, 100);
}
