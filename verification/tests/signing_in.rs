use bbrr_companion::api::{
    abort_reply, read_json, token_reply, token_request, whoami_reply, ApiClient, EncounterSignal,
    Field, MatchInput, Request, Status, User, WhoAmI,
};
use bbrr_companion::auth::{
    accept_callback, authorize_url, begin_sign_in, challenge_of, checked_code, parse_callback, rand_b64,
    read_callback, request_target, respond, token_url, wait_over, Callback,
};
use bbrr_companion::encoding::b64_text;
use bbrr_companion::events::{stream_reply, Backoff, EventReader, Listened};
use bbrr_companion::session::{
    check_for_update, clear_token, current_session, get_token, install_update, is_change,
    may_install, need_folder, need_token, update_failed_note, updating_note, watch_failed_note,
    FolderEvent, Forgotten, InstallStep, KeychainReply, Looked, UpdateStep,
};
use bbrr_companion::settings::{base_url, Settings};

fn status(code: u16) -> Status {
    Status { code, text: format!("{} words", code) }
}

#[test]
fn base64_is_url_safe_and_unpadded() {
    assert_eq!(b64_text(b""), "");
    assert_eq!(b64_text(b"f"), "Zg");
    assert_eq!(b64_text(b"fo"), "Zm8");
    assert_eq!(b64_text(b"foo"), "Zm9v");
    assert_eq!(b64_text(&[251, 255, 191]), "-_-_");
}

#[test]
fn challenges_are_digests_of_verifiers() {
    // The example of RFC 7636, appendix B.
    assert_eq!(
        challenge_of("dBjftJeZ4CVP-mB92K27uhbUJU1p1r_wW1gFWFOEjXk"),
        "E9Melhoa2OwvFrEMTJguCHaoeK1t8URWbuGJSstw-cM"
    );
}

#[test]
fn secrets_are_random_and_plain() {
    let a = rand_b64(32);
    let b = rand_b64(32);
    assert_eq!(a.len(), 43);
    assert_ne!(a, b);
    assert_eq!(rand_b64(16).len(), 22);
    assert!(a.chars().all(|c| c.is_ascii_alphanumeric() || c == '-' || c == '_'));
}

#[test]
fn the_browser_is_sent_to_the_page() {
    assert_eq!(
        authorize_url("https://x.test//", 4711, "a-b", "c_d", "BBRR Companion"),
        "https://x.test/companion/authorize?port=4711&state=a-b&challenge=c_d&name=BBRR%20Companion"
    );
    assert_eq!(token_url("https://x.test/"), "https://x.test/api/companion/token");
}

#[test]
fn queries_are_read() {
    let read = |q: &str| parse_callback(q);
    assert_eq!(read("code=a&state=b"), (Some("a".to_string()), Some("b".to_string())));
    assert_eq!(read("state=b%20c&x=1&code=%C3%A9"), (Some("é".to_string()), Some("b c".to_string())));
    assert_eq!(read("code=a=b"), (Some("a=b".to_string()), None));
    assert_eq!(read("code=a+b"), (Some("a+b".to_string()), None));
    assert_eq!(read("code"), (Some("".to_string()), None));
    assert_eq!(read("code=1&code=2"), (Some("2".to_string()), None));
    assert_eq!(read("code=1&code=%FF"), (None, None));
    assert_eq!(read("code=%zz%4"), (Some("%zz%4".to_string()), None));
    assert_eq!(read(""), (None, None));
}

#[test]
fn what_is_sent_is_received() {
    let code = "c/o d&e=é";
    let state = "s%t";
    let url = authorize_url("", 1, code, state, "n");
    let code_text = url.split("&state=").nth(1).unwrap().split('&').next().unwrap();
    let state_text = url.split("&challenge=").nth(1).unwrap().split('&').next().unwrap();
    assert_eq!(code_text, "c%2Fo%20d%26e%3D%C3%A9");
    let request = format!("GET /callback?code={}&state={} HTTP/1.1\r\nHost: x\r\n\r\n", code_text, state_text);
    match accept_callback(request.as_bytes()) {
        Callback::Complete { code: c, state: s } => {
            assert_eq!(c, code);
            assert_eq!(s, state);
        }
        other => panic!("{:?}", other),
    }
}

#[test]
fn other_requests_are_passed_over() {
    assert_eq!(request_target("GET /favicon.ico HTTP/1.1\r\n"), "/favicon.ico");
    assert_eq!(request_target("GET"), "");
    assert_eq!(request_target("\nGET /x"), "");
    assert_eq!(request_target(""), "");
    assert!(matches!(read_callback("GET /favicon.ico HTTP/1.1\r\n"), Callback::Other));
    assert!(matches!(accept_callback(b""), Callback::Other));
    match read_callback("GET /callback?code=1 HTTP/1.1\r\n") {
        Callback::Incomplete(e) => assert_eq!(e, "callback missing code or state"),
        other => panic!("{:?}", other),
    }
}

#[test]
fn invalid_bytes_in_a_request_are_replaced() {
    match accept_callback(b"GET /callback?code=\xff&state=s HTTP/1.1\r\n") {
        Callback::Complete { code, .. } => assert_eq!(code, "\u{fffd}"),
        other => panic!("{:?}", other),
    }
}

#[test]
fn the_wait_ends() {
    assert_eq!(wait_over(true, 9, 5).as_deref(), Some("sign-in cancelled"));
    assert_eq!(wait_over(false, 6, 5).as_deref(), Some("sign-in timed out — please try again"));
    assert_eq!(wait_over(false, 5, 5), None);
}

#[test]
fn a_foreign_state_is_refused() {
    assert_eq!(checked_code("c".to_string(), "s", "s"), Ok("c".to_string()));
    assert_eq!(
        checked_code("c".to_string(), "s", "t"),
        Err("state mismatch — sign-in was not from this app".to_string())
    );
}

#[test]
fn a_sign_in_is_bound_to_its_secrets() {
    let s = begin_sign_in("https://x.test/", 4711, "BBRR Companion");
    assert_eq!(s.verifier.len(), 43);
    assert_eq!(s.state.len(), 22);
    assert_eq!(
        s.url,
        format!(
            "https://x.test/companion/authorize?port=4711&state={}&challenge={}&name=BBRR%20Companion",
            s.state,
            challenge_of(&s.verifier)
        )
    );
    assert!(!s.url.contains(&s.verifier));
    let (verifier, state) = (s.verifier.clone(), s.state.clone());
    let payload = s.exchange("c".to_string(), &state).unwrap();
    assert!(matches!(&payload[0], ("code", Field::Text(c)) if c == "c"));
    assert!(matches!(&payload[1], ("verifier", Field::Text(v)) if *v == verifier));
    let other = begin_sign_in("https://x.test", 1, "n");
    assert_eq!(
        other.exchange("c".to_string(), &state).unwrap_err(),
        "state mismatch — sign-in was not from this app"
    );
}

#[test]
fn the_answer_says_how_long_it_is() {
    for (ok, title) in [(true, "Signed in"), (false, "Sign-in error")] {
        let text = respond(ok);
        let (head, body) = text.split_once("\r\n\r\n").unwrap();
        assert!(head.starts_with("HTTP/1.1 200 OK\r\nContent-Type: text/html; charset=utf-8\r\n"));
        assert!(head.ends_with("\r\nConnection: close"));
        assert!(head.contains(&format!("\r\nContent-Length: {}\r\n", body.len())));
        assert!(body.starts_with(&format!("<!doctype html><html><head><meta charset=\"utf-8\"><title>{}</title>", title)));
        assert!(body.contains(&format!("<h1>{}</h1>", title)));
        assert!(body.ends_with("</p></div></body></html>"));
    }
    assert!(respond(true).contains("You're connected."));
    assert!(respond(false).contains("Something went wrong."));
}

fn names(r: &Request) -> Vec<&str> {
    r.payload.as_ref().map(|p| p.iter().map(|f| f.0).collect()).unwrap_or_default()
}

#[test]
fn requests_go_to_their_places() {
    let c = ApiClient::new("https://x.test".to_string(), "tok".to_string());
    let r = c.whoami();
    assert_eq!((r.url.as_str(), r.token.as_str()), ("https://x.test/api/companion/whoami", "tok"));
    assert!(r.payload.is_none());
    assert_eq!(c.events().url, "https://x.test/api/povs/events");
    assert_eq!(c.list_pulls("a b/é").url, "https://x.test/api/companion/pulls?guildId=a%20b%2F%C3%A9");
    let input = MatchInput { filename: "f.mp4".to_string(), metadata: "{\"a\":1}".to_string() };
    let r = c.match_videos("g".to_string(), vec![input]);
    assert_eq!(r.url, "https://x.test/api/povs/match");
    assert_eq!(names(&r), vec!["guildId", "videos"]);
    match &r.payload.unwrap()[1].1 {
        Field::Videos(v) => {
            assert_eq!(v.len(), 1);
            assert_eq!((v[0].filename.as_str(), v[0].metadata.as_str()), ("f.mp4", "{\"a\":1}"));
        }
        other => panic!("{:?}", other),
    }
    let r = c.post_encounter_signal(EncounterSignal {
        guild_id: "g".to_string(),
        encounter_id: 1,
        encounter_name: "B".to_string(),
        difficulty_id: 16,
        success: true,
        start_time: 5,
        end_time: 6,
    });
    assert_eq!(r.url, "https://x.test/api/companion/encounter");
    assert_eq!(
        names(&r),
        vec!["guildId", "encounterId", "encounterName", "difficultyId", "success", "startTime", "endTime"]
    );
    assert!(matches!(r.payload.unwrap()[6].1, Field::Integer(6)));
    let p = ApiClient::production(false, "t".to_string());
    assert_eq!(p.whoami().url, "https://www.raidreview.com/api/companion/whoami");
}

#[test]
fn uploads_are_begun_completed_and_aborted() {
    let c = ApiClient::new("b".to_string(), "t".to_string());
    let s = |x: &str| x.to_string();
    let r = c.create_upload(s("p"), s("Ana"), None, 9, s("f.mp4"), None);
    assert_eq!(r.url, "b/api/povs/create-upload");
    assert_eq!(names(&r), vec!["pullId", "playerName", "realm", "sizeBytes", "filename", "storage"]);
    let p = r.payload.unwrap();
    assert!(matches!(p[2].1, Field::Null));
    assert!(matches!(p[3].1, Field::Number(9)));
    let parts = vec![(1, s("e"))];
    let r = c.complete_upload(
        s("p"), s("Ana"), s("k"), s("u"), parts, 9, Some(3), s("{}"), Some(s("cfg")),
    );
    assert_eq!(r.url, "b/api/povs/complete");
    assert_eq!(
        names(&r),
        vec!["pullId", "playerName", "objectKey", "uploadId", "parts", "sizeBytes", "durationS", "metadata", "storageConfigId"]
    );
    let p = r.payload.unwrap();
    assert!(matches!(&p[7].1, Field::Metadata(text) if text == "{}"));
    match &p[4].1 {
        Field::Parts(parts) => assert_eq!(parts, &vec![(1, s("e"))]),
        other => panic!("{:?}", other),
    }
    let r = c.abort_upload(s("k"), s("u"), None);
    assert_eq!(r.url, "b/api/povs/abort");
    assert_eq!(names(&r), vec!["objectKey", "uploadId", "storageConfigId"]);
    let p = token_request(s("c"), s("v"));
    assert_eq!((p[0].0, p[1].0), ("code", "verifier"));
}

#[test]
fn replies_are_judged() {
    assert!(read_json(&status(204), "match", "").is_ok());
    assert_eq!(read_json(&status(400), "match", "too many"), Err("match failed (400 words): too many".to_string()));
    assert_eq!(whoami_reply(&status(401)), Err("unauthorized".to_string()));
    assert_eq!(whoami_reply(&status(500)), Err("whoami failed: 500 words".to_string()));
    assert_eq!(whoami_reply(&status(200)), Ok(()));
    assert_eq!(abort_reply(&status(404)), Err("abort returned 404 words".to_string()));
    assert_eq!(abort_reply(&status(200)), Ok(()));
    assert_eq!(token_reply(&status(300)), Err("token exchange failed: 300 words".to_string()));
    assert_eq!(token_reply(&status(299)), Ok(()));
    assert_eq!(stream_reply(&status(401)), Err("unauthorized".to_string()));
    assert_eq!(stream_reply(&status(502)), Err("status 502 words".to_string()));
    assert_eq!(stream_reply(&status(200)), Ok(()));
}

#[test]
fn events_are_read_line_by_line() {
    let mut r = EventReader::new();
    let mut count = 0;
    for line in [
        ":keepalive", "", "event: pulls-changed", "data: {}", ":keepalive", "", "", "data: x", "",
        "event:other", "", "event:  pulls-changed ", "",
    ] {
        if r.line(line) {
            count += 1;
        }
    }
    assert_eq!(count, 2);
}

#[test]
fn failures_lengthen_the_wait() {
    let mut b = Backoff::new();
    let failed = || Listened::Over(Err("offline".to_string()));
    let waits: Vec<u64> = (0..7).map(|_| b.after(&failed())).collect();
    assert_eq!(waits, vec![3, 6, 12, 24, 48, 60, 60]);
    assert_eq!(b.after(&Listened::Over(Err("unauthorized".to_string()))), 60);
    assert_eq!(b.after(&Listened::SignedOut), 10);
    assert_eq!(b.after(&failed()), 60);
    assert_eq!(b.after(&Listened::Over(Ok(()))), 3);
    assert_eq!(b.after(&failed()), 3);
    assert_eq!(b.after(&failed()), 6);
}

#[test]
fn a_session_outlasts_failures_but_not_a_rejection() {
    let who = || WhoAmI {
        user: User { id: "u".to_string(), name: None, battle_tag: None },
        guilds: Vec::new(),
    };
    assert!(matches!(current_session(None), Ok(None)));
    assert!(matches!(current_session(Some(Ok(who()))), Ok(Some(_))));
    assert!(matches!(current_session(Some(Err("unauthorized".to_string()))), Ok(None)));
    assert_eq!(current_session(Some(Err("offline".to_string()))).unwrap_err(), "offline");
}

#[test]
fn commands_say_what_they_need() {
    assert_eq!(need_folder(None), Err("No folder selected".to_string()));
    assert_eq!(need_folder(Some("/v".to_string())), Ok("/v".to_string()));
    assert_eq!(need_token(None), Err("Not signed in".to_string()));
    assert_eq!(need_token(Some("t".to_string())), Ok("t".to_string()));
}

#[test]
fn the_keychain_is_heard() {
    let s = |x: &str| x.to_string();
    assert_eq!(get_token(KeychainReply::Token(s("t"))), (Some(s("t")), None));
    assert_eq!(get_token(KeychainReply::NoEntry), (None, None));
    assert_eq!(get_token(KeychainReply::Unavailable(s("x"))), (None, Some(s("keychain unavailable: x"))));
    assert_eq!(get_token(KeychainReply::Failed(s("x"))), (None, Some(s("keychain read failed: x"))));
    assert_eq!(clear_token(Forgotten::Done), Ok(()));
    assert_eq!(clear_token(Forgotten::NoEntry), Ok(()));
    assert_eq!(clear_token(Forgotten::Failed(s("x"))), Err(s("x")));
}

#[test]
fn an_update_is_installed_only_where_it_may_be() {
    let looked = || {
        [
            Looked::NotYet,
            Looked::Failed("offline".to_string()),
            Looked::Nothing,
            Looked::Found("1.2.3".to_string()),
        ]
    };
    for (development, uploading, why) in [
        (true, false, "Updates are only available in release builds."),
        (true, true, "Updates are only available in release builds."),
        (false, true, "An upload is in progress — try again once it finishes."),
    ] {
        for l in looked() {
            assert_eq!(install_update(development, uploading, l).unwrap_err(), why);
        }
    }
    let [not_yet, failed, nothing, found] = looked();
    assert!(matches!(install_update(false, false, not_yet), Ok(InstallStep::Look)));
    assert_eq!(install_update(false, false, failed).unwrap_err(), "offline");
    assert_eq!(install_update(false, false, nothing).unwrap_err(), "No update available.");
    match install_update(false, false, found) {
        Ok(InstallStep::Install(n)) => {
            assert_eq!((n.level, n.message.as_str()), ("info", "Updating to v1.2.3…"))
        }
        other => panic!("{:?}", other),
    }
}

#[test]
fn updates_wait_for_uploads() {
    assert_eq!(check_for_update(true, false), UpdateStep::Install);
    assert_eq!(check_for_update(true, true), UpdateStep::Announce);
    assert_eq!(check_for_update(false, false), UpdateStep::Announce);
    assert_eq!(may_install(true, true), Err("Updates are only available in release builds.".to_string()));
    assert_eq!(
        may_install(false, true),
        Err("An upload is in progress — try again once it finishes.".to_string())
    );
    assert_eq!(may_install(false, false), Ok(()));
    assert_eq!(updating_note("2.0.0").level, "info");
    let n = update_failed_note("offline");
    assert_eq!((n.level, n.message.as_str()), ("warn", "Update check failed: offline"));
}

#[test]
fn changes_in_the_folder_are_told() {
    assert!(is_change(FolderEvent::Created));
    assert!(is_change(FolderEvent::Modified));
    assert!(is_change(FolderEvent::Removed));
    assert!(!is_change(FolderEvent::Accessed));
    assert!(!is_change(FolderEvent::Unknown));
    assert_eq!(watch_failed_note("gone").message, "[Video] Folder watch error: gone");
}

#[test]
fn settings_default_to_on() {
    let mut s = Settings::default();
    assert!(s.livelog_watching_enabled());
    s.livelog_watching = Some(false);
    assert!(!s.livelog_watching_enabled());
    s.set_folder("/v".to_string());
    s.set_selected_guilds(Some(vec!["g".to_string()]));
    assert_eq!(s.watch_folder.as_deref(), Some("/v"));
    assert_eq!(s.selected_guild_ids, Some(vec!["g".to_string()]));
    assert_eq!(s.livelog_watching, Some(false));
    assert_eq!(base_url(true), "http://192.168.0.9:3080");
    assert_eq!(base_url(false), "https://www.raidreview.com");
}
