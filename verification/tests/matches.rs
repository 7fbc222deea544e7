use bbrr_companion::api::{ApiClient, Field, Guild, MatchResult, PullMatch};
use bbrr_companion::matching::{
    classify, gather, guild_name, is_selected, match_call, match_order, match_requests,
    scan_and_match, Gathered, Reply,
};
use bbrr_companion::scan::{found_recording, VideoItem};

fn guild(id: &str, name: &str, is_personal: bool) -> Guild {
    Guild { id: id.to_string(), name: name.to_string(), is_personal }
}

fn guilds() -> Vec<Guild> {
    vec![guild("p", "Mine", true), guild("a", "Alpha", false), guild("b", "Beta", false)]
}

fn pull(id: &str) -> PullMatch {
    PullMatch {
        pull_id: id.to_string(),
        boss_name: "Boss".to_string(),
        pull_number: 4,
        is_kill: true,
        duration_ms: 1,
        date: "2026-07-04".to_string(),
        start_time: "21:00".to_string(),
    }
}

fn answer(file: &str, pull_id: Option<&str>) -> MatchResult {
    MatchResult {
        filename: file.to_string(),
        existing_video_id: None,
        is_own_pov: true,
        can_upload: true,
        matched: pull_id.map(pull),
        reason: None,
    }
}

fn candidate(file: &str) -> VideoItem {
    let mut v = found_recording(&format!("/v/{}", file), file, 10);
    v.status = "unmatched".to_string();
    v
}

fn gathered(replies: Vec<(&str, Vec<MatchResult>)>) -> Gathered {
    let ids: Vec<String> = replies.iter().map(|(g, _)| g.to_string()).collect();
    let requests = match_requests(&ids, &vec![candidate("f.mp4")]);
    let replies: Vec<Reply> = replies.into_iter().map(|(_, r)| Ok(r)).collect();
    gather(&guilds(), &requests, &replies)
}

#[test]
fn shared_guilds_are_asked_before_personal_ones() {
    assert_eq!(match_order(&guilds()), vec!["a", "b", "p"]);
    assert!(match_order(&Vec::new()).is_empty());
}

fn many(n: usize) -> Vec<VideoItem> {
    (0..n).map(|i| candidate(&format!("{}.mp4", i))).collect()
}

#[test]
fn requests_are_batched_for_each_guild() {
    let ids = vec!["a".to_string(), "b".to_string()];
    let plan: Vec<(String, usize, usize)> =
        match_requests(&ids, &many(250)).into_iter().map(|r| (r.guild_id, r.start, r.end)).collect();
    let expected: Vec<(String, usize, usize)> = ["a", "b"]
        .iter()
        .flat_map(|g| {
            [(0, 100), (100, 200), (200, 250)].iter().map(move |(s, e)| (g.to_string(), *s, *e))
        })
        .collect();
    assert_eq!(plan, expected);
    assert!(match_requests(&ids, &Vec::new()).is_empty());
    assert_eq!(match_requests(&ids, &many(100)).len(), 2);
}

#[test]
fn the_first_failure_is_kept_with_the_name_of_the_guild() {
    let ids = vec!["a".to_string(), "b".to_string(), "x".to_string()];
    let requests = match_requests(&ids, &vec![candidate("f")]);
    let replies: Vec<Reply> =
        vec![Ok(vec![answer("f", None)]), Err("late".to_string()), Err("later".to_string())];
    let g = gather(&guilds(), &requests, &replies);
    assert_eq!(g.hits.len(), 1);
    assert_eq!(g.hits[0].guild_id, "a");
    assert_eq!(g.error.as_deref(), Some("Beta: late"));
    assert_eq!(guild_name(&guilds(), "x"), "x");
}

#[test]
fn without_a_choice_every_guild_is_chosen() {
    assert!(is_selected(&None, "a"));
    assert!(is_selected(&Some(vec!["a".to_string()]), "a"));
    assert!(!is_selected(&Some(Vec::new()), "a"));
}

#[test]
fn a_match_attaches_a_recording_to_one_pull() {
    let g = gathered(vec![("a", vec![answer("f.mp4", Some("pull-a"))]), ("b", vec![answer("f.mp4", Some("pull-b"))])]);
    let v = classify(candidate("f.mp4"), None, &g, &None, &guilds());
    assert_eq!(v.status, "matched");
    assert_eq!(v.reason, None);
    let m = v.matched.unwrap();
    assert_eq!((m.guild_id.as_str(), m.guild_name.as_str()), ("a", "Alpha"));
    assert_eq!((m.pull_id.as_str(), m.boss_name.as_str(), m.pull_number), ("pull-a", "Boss", 4));
    assert!(m.is_kill && m.is_own_pov && m.can_upload);
    // A chosen guild comes first, though another was asked before it.
    let only_b = Some(vec!["b".to_string()]);
    let v = classify(candidate("f.mp4"), None, &g, &only_b, &guilds());
    assert_eq!(v.matched.unwrap().guild_id, "b");
    // A match elsewhere is shown, but not uploaded.
    let v = classify(candidate("f.mp4"), None, &g, &Some(Vec::new()), &guilds());
    assert_eq!(v.status, "skipped");
    assert_eq!(v.reason.as_deref(), Some("Matched, but this guild isn't selected for upload"));
    assert_eq!(v.matched.unwrap().guild_id, "a");
}

#[test]
fn a_recording_on_the_server_is_uploaded() {
    let mut r = answer("f.mp4", Some("p1"));
    r.existing_video_id = Some("vid".to_string());
    let v = classify(candidate("f.mp4"), None, &gathered(vec![("a", vec![r])]), &None, &guilds());
    assert_eq!(v.status, "uploaded");
    assert_eq!(v.reason.as_deref(), Some("Already uploaded"));
    assert_eq!(v.matched.unwrap().existing_video_id.as_deref(), Some("vid"));
}

#[test]
fn refusals_are_explained() {
    let refused = |reason: Option<&str>, own: bool| {
        let mut r = answer("f.mp4", Some("p1"));
        r.can_upload = false;
        r.is_own_pov = own;
        r.reason = reason.map(|s| s.to_string());
        let v = classify(candidate("f.mp4"), None, &gathered(vec![("a", vec![r])]), &None, &guilds());
        assert_eq!(v.status, "matched");
        v.reason.unwrap()
    };
    assert_eq!(
        refused(Some("no_upload_permission"), true),
        "Matched — you're not allowed to upload VODs to this guild"
    );
    assert_eq!(
        refused(Some("no_storage"), true),
        "Matched — no upload storage is configured for this guild"
    );
    assert_eq!(
        refused(Some("player_not_in_roster"), true),
        "Matched — you weren't in this pull's roster"
    );
    assert_eq!(refused(None, false), "Another player's POV — only a guild admin can upload it");
    assert_eq!(refused(Some("else"), true), "Matched — you can't upload this recording");
}

#[test]
fn a_missing_match_is_explained() {
    let why = |g: &Gathered| {
        let v = classify(candidate("f.mp4"), None, g, &None, &guilds());
        assert_eq!(v.status, "unmatched");
        assert!(v.matched.is_none());
        v.reason.unwrap()
    };
    assert_eq!(why(&gathered(vec![("a", Vec::new())])), "No matching pull found");
    let mut r = answer("f.mp4", None);
    r.reason = Some("player_not_in_roster".to_string());
    assert_eq!(why(&gathered(vec![("a", vec![r.clone()])])), "You weren't in this pull's roster");
    r.reason = Some("no_pull".to_string());
    assert_eq!(why(&gathered(vec![("a", vec![r.clone()])])), "No matching pull found");
    let failed = Gathered { hits: Vec::new(), error: Some("Alpha: timeout".to_string()) };
    assert_eq!(why(&failed), "Match request failed — Alpha: timeout");
    let mut heard = gathered(vec![("a", vec![r])]);
    heard.error = Some("Beta: timeout".to_string());
    assert_eq!(why(&heard), "No matching pull found");
}

#[test]
fn a_scan_lists_everything_in_order() {
    let listed = vec![found_recording("/v/p.mp4", "p.mp4", 1)];
    let candidates = vec![candidate("z.mp4"), candidate("f.mp4")];
    let requests = match_requests(&vec!["a".to_string()], &candidates);
    let replies: Vec<Reply> = vec![Ok(vec![answer("f.mp4", Some("p1"))])];
    let g = gather(&guilds(), &requests, &replies);
    let (list, ok) = scan_and_match(listed, candidates, &guilds(), &None, &g);
    assert!(ok);
    let seen: Vec<(String, String)> = list.into_iter().map(|v| (v.filename, v.status)).collect();
    assert_eq!(
        seen,
        vec![
            ("f.mp4".to_string(), "matched".to_string()),
            ("z.mp4".to_string(), "unmatched".to_string()),
            ("p.mp4".to_string(), "pending".to_string()),
        ]
    );
}

#[test]
fn a_scan_is_trusted_only_where_all_went_well() {
    let none = || Gathered { hits: Vec::new(), error: None };
    let failed = || Gathered { hits: Vec::new(), error: Some("x".to_string()) };
    assert!(scan_and_match(Vec::new(), vec![candidate("f")], &guilds(), &None, &none()).1);
    assert!(!scan_and_match(Vec::new(), Vec::new(), &guilds(), &None, &none()).1);
    assert!(!scan_and_match(Vec::new(), vec![candidate("f")], &Vec::new(), &None, &none()).1);
    assert!(!scan_and_match(Vec::new(), vec![candidate("f")], &guilds(), &None, &failed()).1);
}

#[test]
fn namesakes_get_their_own_pulls() {
    let at = |path: &str| {
        let mut v = found_recording(path, "v.mp4", 1);
        v.status = "unmatched".to_string();
        v
    };
    let candidates = vec![at("/w/a/v.mp4"), at("/w/b/v.mp4"), candidate("x.mp4")];
    let all = vec![guild("a", "Alpha", false)];
    let requests = match_requests(&match_order(&all), &candidates);
    let ranges: Vec<(usize, usize)> = requests.iter().map(|r| (r.start, r.end)).collect();
    assert_eq!(ranges, vec![(0, 1), (1, 3)]);
    let replies: Vec<Reply> = vec![
        Ok(vec![answer("v.mp4", Some("A"))]),
        Ok(vec![answer("v.mp4", Some("B")), answer("x.mp4", None)]),
    ];
    let g = gather(&all, &requests, &replies);
    let (list, ok) = scan_and_match(Vec::new(), candidates, &all, &None, &g);
    assert!(ok);
    let pull_of = |path: &str| {
        let v = list.iter().find(|v| v.path == path).unwrap();
        v.matched.as_ref().map(|m| m.pull_id.clone())
    };
    assert_eq!(pull_of("/w/a/v.mp4").as_deref(), Some("A"));
    assert_eq!(pull_of("/w/b/v.mp4").as_deref(), Some("B"));
    assert_eq!(pull_of("/v/x.mp4"), None);
}

#[test]
fn a_namesake_takes_no_answer_to_another_request() {
    let g = gathered(vec![("a", vec![answer("f.mp4", Some("p1"))])]);
    let v = classify(candidate("f.mp4"), Some(1), &g, &None, &guilds());
    assert_eq!(v.status, "unmatched");
    assert_eq!(v.reason.as_deref(), Some("No matching pull found"));
    let v = classify(candidate("f.mp4"), Some(0), &g, &None, &guilds());
    assert_eq!(v.matched.unwrap().pull_id, "p1");
}

#[test]
fn a_lone_name_takes_any_answer_with_it() {
    let candidates = many(101);
    let all = vec![guild("a", "Alpha", false)];
    let requests = match_requests(&match_order(&all), &candidates);
    assert_eq!(requests.len(), 2);
    let replies: Vec<Reply> = vec![Ok(vec![answer("100.mp4", Some("p1"))]), Ok(Vec::new())];
    let g = gather(&all, &requests, &replies);
    let (list, _) = scan_and_match(Vec::new(), candidates, &all, &None, &g);
    let v = list.iter().find(|v| v.filename == "100.mp4").unwrap();
    assert_eq!(v.matched.as_ref().unwrap().pull_id, "p1");
    assert_eq!(list.iter().filter(|v| v.matched.is_some()).count(), 1);
}

#[test]
fn a_call_carries_the_sidecars_of_its_recordings() {
    let client = ApiClient::new("b".to_string(), "t".to_string());
    let candidates = many(150);
    let sidecars: Vec<String> = (0..150).map(|i| format!("{{\"n\":{}}}", i)).collect();
    let requests = match_requests(&vec!["a".to_string()], &candidates);
    let mut carried: Vec<(String, String)> = Vec::new();
    for q in &requests {
        let r = match_call(&client, q, &candidates, &sidecars);
        assert_eq!(r.url, "b/api/povs/match");
        let mut payload = r.payload.unwrap();
        assert!(matches!(&payload[0], ("guildId", Field::Text(g)) if g == "a"));
        match payload.pop().unwrap() {
            ("videos", Field::Videos(v)) => {
                assert_eq!(v.len(), q.end - q.start);
                carried.extend(v.into_iter().map(|x| (x.filename, x.metadata)));
            }
            other => panic!("{:?}", other),
        }
    }
    assert_eq!(carried.len(), 150);
    for (i, (name, text)) in carried.iter().enumerate() {
        assert_eq!(*name, format!("{}.mp4", i));
        assert_eq!(*text, format!("{{\"n\":{}}}", i));
    }
}
