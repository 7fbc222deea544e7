//! Where the recordings and the combat log are likely to be, so that a first run
//! needs no setting up.
use vstd::prelude::*;
use vstd::string::*;

use crate::text::{opt_text, texts, trim, trimmed};

verus! {

/// The text that the member `key` of the JSON object `text` holds, as `serde_json` reads
/// it: none where `text` is no JSON, no object, or holds no such member or none that is
/// a string.
pub uninterp spec fn json_member(text: Seq<char>, key: Seq<char>) -> Option<Seq<char>>;

/// Reads the string member `key` of the JSON object `text` by `serde_json::from_str`,
/// `Value::get` and `Value::as_str`. The result depends on the two texts alone; what
/// JSON is, is left to the name.
#[verifier::external_body]
fn read_json_member(text: &str, key: &str) -> (r: Option<String>)
    ensures
        opt_text(r) == json_member(text@, key@),
{
    let json: serde_json::Value = serde_json::from_str(text).ok()?;
    json.get(key)?.as_str().map(|s| s.to_string())
}

/// The folder that a value names, without the blanks around it; none where nothing is
/// left.
pub open spec fn folder_in(value: Option<Seq<char>>) -> Option<Seq<char>> {
    match value {
        Some(v) => if trim(v).len() == 0 {
            None
        } else {
            Some(trim(v))
        },
        None => None,
    }
}

/// The folder that a value of the recorder's configuration names.
pub fn named_folder(value: Option<String>) -> (r: Option<String>)
    ensures
        opt_text(r) == folder_in(opt_text(value)),
{
    match value {
        Some(v) => {
            let t = trimmed(v.as_str());
            if t.unicode_len() == 0 {
                None
            } else {
                Some(t.to_owned())
            }
        },
        None => None,
    }
}

/// The folder that the recorder's configuration holds under `key`, where `text` is the
/// configuration file, if it could be read.
pub fn wr_config_value(text: Option<&str>, key: &str) -> (r: Option<String>)
    ensures
        opt_text(r) == (match text {
            Some(t) => folder_in(json_member(t@, key@)),
            None => None,
        }),
{
    match text {
        Some(t) => named_folder(read_json_member(t, key)),
        None => None,
    }
}

/// The kinds of system that differ in where the game is installed.
#[derive(Debug, Clone, Copy, PartialEq, Eq, Structural)]
pub enum Platform {
    Windows,
    Mac,
    Other,
}

/// The drives to look on.
pub open spec fn drives() -> Seq<Seq<char>> {
    seq!["C"@, "D"@, "E"@, "F"@, "G"@]
}

/// Where on a drive the game may be installed.
pub open spec fn places() -> Seq<Seq<char>> {
    seq![
        ":\\Program Files (x86)\\World of Warcraft"@,
        ":\\Program Files\\World of Warcraft"@,
        ":\\World of Warcraft"@,
        ":\\Games\\World of Warcraft"@,
    ]
}

/// The usual places of the game, in the order in which they are tried.
pub open spec fn install_places(platform: Platform) -> Seq<Seq<char>> {
    match platform {
        Platform::Windows => Seq::new(20, |i: int| drives()[i / 4] + places()[i % 4]),
        Platform::Mac => seq!["/Applications/World of Warcraft"@],
        Platform::Other => Seq::empty(),
    }
}

/// The usual places of the game, in the order in which they are tried.
pub fn wow_install_candidates(platform: Platform) -> (r: Vec<String>)
    ensures
        texts(r@) == install_places(platform),
{
    let mut out: Vec<String> = Vec::new();
    match platform {
        Platform::Windows => {
            let drive: Vec<&str> = vec!["C", "D", "E", "F", "G"];
            let place: Vec<&str> = vec![
                ":\\Program Files (x86)\\World of Warcraft",
                ":\\Program Files\\World of Warcraft",
                ":\\World of Warcraft",
                ":\\Games\\World of Warcraft",
            ];
            assert(forall|j: int| 0 <= j < 5 ==> (#[trigger] drive@[j])@ == drives()[j]);
            assert(forall|j: int| 0 <= j < 4 ==> (#[trigger] place@[j])@ == places()[j]);
            let mut i: usize = 0;
            while i < 20
                invariant
                    i <= 20,
                    out@.len() == i,
                    drive@.len() == 5,
                    place@.len() == 4,
                    forall|j: int| 0 <= j < 5 ==> (#[trigger] drive@[j])@ == drives()[j],
                    forall|j: int| 0 <= j < 4 ==> (#[trigger] place@[j])@ == places()[j],
                    forall|j: int|
                        0 <= j < i ==> (#[trigger] out@[j])@ == install_places(
                            Platform::Windows,
                        )[j],
                decreases 20 - i,
            {
                let mut path = drive[i / 4].to_owned();
                path.append(place[i % 4]);
                assert(path@ =~= install_places(Platform::Windows)[i as int]);
                out.push(path);
                i = i + 1;
            }
        },
        Platform::Mac => {
            out.push("/Applications/World of Warcraft".to_owned());
        },
        Platform::Other => {},
    }
    assert(texts(out@) =~= install_places(platform));
    out
}

/// The logs folder inside an installation of the game.
pub open spec fn logs_inside(base: Seq<char>, platform: Platform) -> Seq<char> {
    if platform == Platform::Windows {
        base + "\\_retail_\\Logs"@
    } else {
        base + "/_retail_/Logs"@
    }
}

/// The logs folders of the usual places of the game.
pub fn wow_logs_candidates(platform: Platform) -> (r: Vec<String>)
    ensures
        texts(r@) == install_places(platform).map_values(|b: Seq<char>| logs_inside(b, platform)),
{
    let bases = wow_install_candidates(platform);
    let n: usize = bases.len();
    let mut out: Vec<String> = Vec::new();
    let mut i: usize = 0;
    while i < n
        invariant
            n == bases@.len(),
            texts(bases@) == install_places(platform),
            i <= n,
            out@.len() == i,
            forall|j: int|
                0 <= j < i ==> (#[trigger] out@[j])@ == logs_inside(
                    install_places(platform)[j],
                    platform,
                ),
        decreases n - i,
    {
        assert(texts(bases@)[i as int] == bases@[i as int]@);
        let mut path = bases[i].clone();
        match platform {
            Platform::Windows => {
                path.append("\\_retail_\\Logs");
            },
            _ => {
                path.append("/_retail_/Logs");
            },
        }
        assert(path@ =~= logs_inside(install_places(platform)[i as int], platform));
        out.push(path);
        i = i + 1;
    }
    assert(texts(bases@).len() == bases@.len());
    assert(texts(out@) =~= install_places(platform).map_values(
        |b: Seq<char>| logs_inside(b, platform),
    ));
    out
}

/// The first of some paths that is a folder.
pub open spec fn first_folder(paths: Seq<Seq<char>>, is_dir: Seq<bool>) -> Option<Seq<char>>
    decreases paths.len(),
{
    if paths.len() == 0 || is_dir.len() == 0 {
        None
    } else if is_dir[0] {
        Some(paths[0])
    } else {
        first_folder(paths.skip(1), is_dir.skip(1))
    }
}

/// The first of the usual logs folders that exists; `is_dir` says of each whether it
/// does.
pub fn scan_wow_logs_folder(candidates: &Vec<String>, is_dir: &Vec<bool>) -> (r: Option<String>)
    requires
        candidates@.len() == is_dir@.len(),
    ensures
        opt_text(r) == first_folder(texts(candidates@), is_dir@),
{
    let n: usize = candidates.len();
    let mut i: usize = 0;
    proof {
        assert(texts(candidates@).skip(0) =~= texts(candidates@));
        assert(is_dir@.skip(0) =~= is_dir@);
    }
    while i < n
        invariant
            n == candidates@.len(),
            n == is_dir@.len(),
            i <= n,
            first_folder(texts(candidates@), is_dir@) == first_folder(
                texts(candidates@).skip(i as int),
                is_dir@.skip(i as int),
            ),
        decreases n - i,
    {
        proof {
            let a = texts(candidates@).skip(i as int);
            let b = is_dir@.skip(i as int);
            assert(a[0] == candidates@[i as int]@);
            assert(b[0] == is_dir@[i as int]);
            assert(a.skip(1) =~= texts(candidates@).skip(i + 1));
            assert(b.skip(1) =~= is_dir@.skip(i + 1));
        }
        if is_dir[i] {
            return Some(candidates[i].clone());
        }
        i = i + 1;
    }
    None
}

/// The logs folder of the game: the one that the recorder is configured with, where it
/// is a folder, or else one of the usual places.
pub fn wow_logs_folder(
    configured: Option<String>,
    is_dir: bool,
    scanned: Option<String>,
) -> (r: Option<String>)
    ensures
        r == (if configured is Some && is_dir {
            configured
        } else {
            scanned
        }),
{
    match configured {
        Some(path) => if is_dir {
            Some(path)
        } else {
            scanned
        },
        None => scanned,
    }
}

/// The folder of the recordings: the one that the recorder is configured with, where it
/// is a folder.
pub fn recording_folder(configured: Option<String>, is_dir: bool) -> (r: Option<String>)
    ensures
        r == (if is_dir {
            configured
        } else {
            None
        }),
{
    if is_dir {
        configured
    } else {
        None
    }
}

proof fn lemma_first_folder(paths: Seq<Seq<char>>, is_dir: Seq<bool>)
    requires
        paths.len() == is_dir.len(),
    ensures
        match first_folder(paths, is_dir) {
            Some(p) => exists|i: int|
                0 <= i < paths.len() && paths[i] == p && #[trigger] is_dir[i] && forall|j: int|
                    0 <= j < i ==> !is_dir[j],
            None => forall|i: int| 0 <= i < is_dir.len() ==> !is_dir[i],
        },
    decreases paths.len(),
{
    if paths.len() > 0 && !is_dir[0] {
        let a = paths.skip(1);
        let b = is_dir.skip(1);
        lemma_first_folder(a, b);
        match first_folder(paths, is_dir) {
            Some(p) => {
                let i = choose|i: int|
                    0 <= i < a.len() && a[i] == p && #[trigger] b[i] && forall|j: int|
                        0 <= j < i ==> !b[j];
                assert(paths[i + 1] == p && is_dir[i + 1]);
                assert forall|j: int| 0 <= j < i + 1 implies !is_dir[j] by {
                    if j > 0 {
                        assert(b[j - 1] == is_dir[j]);
                    }
                }
            },
            None => {
                assert forall|i: int| 0 <= i < is_dir.len() implies !is_dir[i] by {
                    if i > 0 {
                        assert(b[i - 1] == is_dir[i]);
                    }
                }
            },
        }
    }
}

/// A folder is found in the usual places whenever one of them is there, and it is one
/// that is there.
pub proof fn usual_places_are_tried(paths: Seq<Seq<char>>, is_dir: Seq<bool>)
    requires
        paths.len() == is_dir.len(),
    ensures
        first_folder(paths, is_dir) is Some <==> exists|i: int| 0 <= i < is_dir.len() && is_dir[i],
        first_folder(paths, is_dir) matches Some(p) ==> exists|i: int|
            0 <= i < paths.len() && paths[i] == p && #[trigger] is_dir[i],
{
    lemma_first_folder(paths, is_dir);
}

} // verus!
