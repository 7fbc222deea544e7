//! Signing in through the browser: the secrets that are made up for it, the page that is
//! opened, what comes back to the loopback listener and what is answered.
use rand::RngCore;
use sha2::Digest;
use vstd::prelude::*;
use vstd::string::*;
use vstd::utf8::*;

use crate::api::{Payload, payload_model, token_fields, token_request};
use crate::encoding::{
    b64, b64_len, b64_needs_no_escape, b64_text, url_decode, url_encode, url_text,
    url_text_is_harmless, url_text_reads_back, url_value,
};
use crate::number::{decimal, u64_text};
use crate::tailer::{lossy_text, text_in};
use crate::text::{
    blank, first_index, is_whitespace, lemma_first_blank, lemma_first_index,
    lemma_first_index_unique, lemma_split_nonempty, only, opt_text, same_text, second_word,
    slice_texts, split, split_at_char, split_on, split_once_char, starts, strip_start,
    trim_end_by, trim_end_char, trim_start_by, word_two,
};

verus! {

/// How long to wait for the user to approve, in milliseconds.
pub const SIGN_IN_TIMEOUT_MS: u64 = 300_000;

/// Random bytes, by `rand::thread_rng` and its `fill_bytes`. Nothing is said of them but
/// how many they are.
#[verifier::external_body]
fn random_bytes(len: usize) -> (r: Vec<u8>)
    requires
        len <= isize::MAX,
    ensures
        r@.len() == len,
{
    let mut bytes = vec![0u8; len];
    rand::thread_rng().fill_bytes(&mut bytes);
    bytes
}

/// The SHA-256 digest of some bytes.
pub uninterp spec fn sha256(bytes: Seq<u8>) -> Seq<u8>;

/// The digest of some bytes, by `sha2::Sha256::digest`. It depends on the bytes alone and
/// is 32 bytes long; which bytes these are is left to the name.
#[verifier::external_body]
fn sha256_of(bytes: &[u8]) -> (r: Vec<u8>)
    ensures
        r@ == sha256(bytes@),
        r@.len() == 32,
{
    sha2::Sha256::digest(bytes).to_vec()
}

/// Whether `bytes` may come of a draw of `len` random bytes.
pub closed spec fn drawn(len: usize, bytes: Seq<u8>) -> bool {
    exists|v: Vec<u8>| #[trigger] call_ensures(random_bytes, (len,), v) && v@ == bytes
}

/// Whether a text is that of `len` random bytes that were drawn for it.
pub open spec fn is_secret(text: Seq<char>, len: usize) -> bool {
    exists|bytes: Seq<u8>| #[trigger] drawn(len, bytes) && bytes.len() == len && b64(bytes) == text
}

/// A text that nobody can guess, of `len` random bytes in base64.
pub fn rand_b64(len: usize) -> (r: String)
    requires
        b64_len(len as int) <= isize::MAX,
    ensures
        is_secret(r@, len),
{
    let bytes = random_bytes(len);
    assert(drawn(len, bytes@));
    b64_text(bytes.as_slice())
}

/// What the server is told of a verifier before it is told the verifier.
pub fn challenge_of(verifier: &str) -> (r: String)
    ensures
        r@ == b64(sha256(encode_utf8(verifier@))),
{
    let digest = sha256_of(verifier.as_bytes());
    b64_text(digest.as_slice())
}

/// The address of a server, without slashes at its end.
pub open spec fn server(base: Seq<char>) -> Seq<char> {
    trim_end_by(base, only('/'))
}

/// The page that asks the user to approve.
pub open spec fn authorize_page(
    base: Seq<char>,
    port: int,
    state: Seq<char>,
    challenge: Seq<char>,
    app_name: Seq<char>,
) -> Seq<char> {
    server(base) + "/companion/authorize?port="@ + decimal(port) + "&state="@ + url_text(state)
        + "&challenge="@ + url_text(challenge) + "&name="@ + url_text(app_name)
}

/// The page that asks the user to approve, which then sends the browser to `port`.
pub fn authorize_url(base: &str, port: u16, state: &str, challenge: &str, app_name: &str) -> (r: String)
    ensures
        r@ == authorize_page(base@, port as int, state@, challenge@, app_name@),
{
    let mut url = trim_end_char(base, '/').to_owned();
    url.append("/companion/authorize?port=");
    url.append(u64_text(port as u64).as_str());
    url.append("&state=");
    url.append(url_encode(state).as_str());
    url.append("&challenge=");
    url.append(url_encode(challenge).as_str());
    url.append("&name=");
    url.append(url_encode(app_name).as_str());
    url
}

/// Where a code is exchanged for the token.
pub fn token_url(base: &str) -> (r: String)
    ensures
        r@ == server(base@) + "/api/companion/token"@,
{
    let mut url = trim_end_char(base, '/').to_owned();
    url.append("/api/companion/token");
    url
}

/// Whether the wait for the browser is over without an answer: the user has cancelled, or
/// the time is up.
pub fn wait_over(cancelled: bool, now: u64, deadline: u64) -> (r: Option<String>)
    ensures
        if cancelled {
            r matches Some(e) && e@ == "sign-in cancelled"@
        } else if now > deadline {
            r matches Some(e) && e@ == "sign-in timed out — please try again"@
        } else {
            r is None
        },
{
    if cancelled {
        Some("sign-in cancelled".to_owned())
    } else if now > deadline {
        Some("sign-in timed out — please try again".to_owned())
    } else {
        None
    }
}

/// What a request asks for: the second word of its first line.
pub open spec fn target_of(request: Seq<char>) -> Seq<char> {
    match second_word(request.take(first_index(request, '\n'))) {
        Some(t) => t,
        None => Seq::empty(),
    }
}

/// What a request asks for.
pub fn request_target(request: &str) -> (r: String)
    ensures
        r@ == target_of(request@),
{
    proof {
        lemma_first_index(request@, '\n');
    }
    let line = match split_once_char(request, '\n') {
        Some((line, _)) => line,
        None => {
            assert(request@.take(first_index(request@, '\n')) =~= request@);
            request
        },
    };
    match word_two(line) {
        Some(t) => t.to_owned(),
        None => String::new(),
    }
}

/// The key and the value of a pair `key=value`; the value is empty where there is no sign.
pub open spec fn pair_of(pair: Seq<char>) -> (Seq<char>, Seq<char>) {
    match split_at_char(pair, '=') {
        Some((key, value)) => (key, value),
        None => (pair, Seq::empty()),
    }
}

/// The value that some pairs give a key: of several the last. None where it is no text,
/// even if an earlier one is.
pub open spec fn value_in(pairs: Seq<Seq<char>>, key: Seq<char>) -> Option<Seq<char>>
    decreases pairs.len(),
{
    if pairs.len() == 0 {
        None
    } else {
        let (k, v) = pair_of(pairs.last());
        if k == key {
            url_value(v)
        } else {
            value_in(pairs.drop_last(), key)
        }
    }
}

/// The code and the state in the query of a callback.
pub fn parse_callback(query: &str) -> (r: (Option<String>, Option<String>))
    ensures
        opt_text(r.0) == value_in(split(query@, '&'), "code"@),
        opt_text(r.1) == value_in(split(query@, '&'), "state"@),
{
    proof {
        reveal_strlit("code");
        reveal_strlit("state");
        assert("code"@.len() != "state"@.len());
    }
    let pairs = split_on(query, '&');
    let n: usize = pairs.len();
    let ghost all = split(query@, '&');
    let mut code: Option<String> = None;
    let mut state: Option<String> = None;
    let mut i: usize = 0;
    while i < n
        invariant
            n == pairs@.len(),
            all == slice_texts(pairs@),
            "code"@ != "state"@,
            i <= n,
            opt_text(code) == value_in(all.take(i as int), "code"@),
            opt_text(state) == value_in(all.take(i as int), "state"@),
        decreases n - i,
    {
        proof {
            assert(all.take(i + 1).drop_last() =~= all.take(i as int));
            assert(all.take(i + 1).last() == pairs@[i as int]@);
        }
        let (key, value) = match split_once_char(pairs[i], '=') {
            Some((key, value)) => (key, value),
            None => {
                let empty = "";
                proof {
                    reveal_strlit("");
                    assert(empty@ =~= Seq::<char>::empty());
                }
                (pairs[i], empty)
            },
        };
        if same_text(key, "code") {
            code = url_decode(value);
        } else if same_text(key, "state") {
            state = url_decode(value);
        }
        i = i + 1;
    }
    assert(all.take(n as int) =~= all);
    (code, state)
}

/// What a request to the loopback listener amounts to.
#[derive(Debug)]
pub enum Callback {
    /// It is not the callback: keep waiting.
    Other,
    /// It is the callback, but something is missing.
    Incomplete(String),
    Complete { code: String, state: String },
}

/// What a `Callback` holds.
pub enum CallbackModel {
    Other,
    Incomplete(Seq<char>),
    Complete { code: Seq<char>, state: Seq<char> },
}

impl View for Callback {
    type V = CallbackModel;

    open spec fn view(&self) -> CallbackModel {
        match self {
            Callback::Other => CallbackModel::Other,
            Callback::Incomplete(e) => CallbackModel::Incomplete(e@),
            Callback::Complete { code, state } => CallbackModel::Complete {
                code: code@,
                state: state@,
            },
        }
    }
}

/// What a request amounts to.
pub open spec fn callback_in(request: Seq<char>) -> CallbackModel {
    let target = target_of(request);
    let prefix = "/callback?"@;
    if !starts(target, prefix) {
        CallbackModel::Other
    } else {
        let pairs = split(target.skip(prefix.len() as int), '&');
        match (value_in(pairs, "code"@), value_in(pairs, "state"@)) {
            (Some(code), Some(state)) => CallbackModel::Complete { code, state },
            _ => CallbackModel::Incomplete("callback missing code or state"@),
        }
    }
}

/// What a request that was read as text amounts to.
pub fn read_callback(request: &str) -> (r: Callback)
    ensures
        r@ == callback_in(request@),
{
    let target = request_target(request);
    match strip_start(target.as_str(), "/callback?") {
        Some(query) => match parse_callback(query) {
            (Some(code), Some(state)) => Callback::Complete { code, state },
            _ => Callback::Incomplete("callback missing code or state".to_owned()),
        },
        None => Callback::Other,
    }
}

/// What a request to the loopback listener amounts to.
pub fn accept_callback(bytes: &[u8]) -> (r: Callback)
    ensures
        r@ == callback_in(text_in(bytes@)),
{
    let request = lossy_text(bytes);
    read_callback(request.as_str())
}

/// The title and the text of the page that the browser is shown.
pub open spec fn page_words(ok: bool) -> (Seq<char>, Seq<char>) {
    if ok {
        (
            "Signed in"@,
            "You're connected. You can close this tab and return to BBRR Companion."@,
        )
    } else {
        (
            "Sign-in error"@,
            "Something went wrong. Return to BBRR Companion and try again."@,
        )
    }
}

/// The page that the browser is shown.
pub open spec fn page(ok: bool) -> Seq<char> {
    let (title, msg) = page_words(ok);
    "<!doctype html><html><head><meta charset=\"utf-8\"><title>"@ + title
        + "</title><style>body{background:#0b0f14;color:#e6edf3;font-family:system-ui,sans-serif;display:flex;min-height:100vh;align-items:center;justify-content:center;margin:0}div{text-align:center;max-width:28rem;padding:2rem}h1{color:#e94560}</style></head><body><div><h1>"@
        + title + "</h1><p>"@ + msg + "</p></div></body></html>"@
}

/// The answer to the browser: it says how many bytes the page has, and holds the page.
pub open spec fn answer(ok: bool) -> Seq<char> {
    "HTTP/1.1 200 OK\r\nContent-Type: text/html; charset=utf-8\r\nContent-Length: "@ + decimal(
        encode_utf8(page(ok)).len() as int,
    ) + "\r\nConnection: close\r\n\r\n"@ + page(ok)
}

/// The answer to the browser.
pub fn respond(ok: bool) -> (r: String)
    ensures
        r@ == answer(ok),
{
    let (title, msg) = if ok {
        ("Signed in", "You're connected. You can close this tab and return to BBRR Companion.")
    } else {
        ("Sign-in error", "Something went wrong. Return to BBRR Companion and try again.")
    };
    let mut html = "<!doctype html><html><head><meta charset=\"utf-8\"><title>".to_owned();
    html.append(title);
    html.append(
        "</title><style>body{background:#0b0f14;color:#e6edf3;font-family:system-ui,sans-serif;display:flex;min-height:100vh;align-items:center;justify-content:center;margin:0}div{text-align:center;max-width:28rem;padding:2rem}h1{color:#e94560}</style></head><body><div><h1>",
    );
    html.append(title);
    html.append("</h1><p>");
    html.append(msg);
    html.append("</p></div></body></html>");
    assert(html@ =~= page(ok));
    let len: usize = html.as_str().as_bytes().len();
    let mut out =
        "HTTP/1.1 200 OK\r\nContent-Type: text/html; charset=utf-8\r\nContent-Length: ".to_owned();
    out.append(u64_text(len as u64).as_str());
    out.append("\r\nConnection: close\r\n\r\n");
    out.append(html.as_str());
    out
}

/// The code to exchange, where the callback comes from this sign-in: the state in it is
/// the one that was made up for it.
pub fn checked_code(code: String, got_state: &str, state: &str) -> (r: Result<String, String>)
    ensures
        if got_state@ == state@ {
            r == Ok::<String, String>(code)
        } else {
            r matches Err(e) && e@ == "state mismatch — sign-in was not from this app"@
        },
{
    if same_text(got_state, state) {
        Ok(code)
    } else {
        Err("state mismatch — sign-in was not from this app".to_owned())
    }
}

/// A sign-in that is under way: the secrets that were made up for it, and the page to open.
#[derive(Debug)]
pub struct SignIn {
    pub verifier: String,
    pub state: String,
    pub url: String,
}

/// Begins a sign-in whose callback comes to `port`. The page is told the state and what
/// stands for the verifier, but not the verifier.
pub fn begin_sign_in(base: &str, port: u16, app_name: &str) -> (r: SignIn)
    ensures
        is_secret(r.verifier@, 32),
        is_secret(r.state@, 16),
        r.url@ == authorize_page(
            base@,
            port as int,
            r.state@,
            b64(sha256(encode_utf8(r.verifier@))),
            app_name@,
        ),
{
    let verifier = rand_b64(32);
    let challenge = challenge_of(verifier.as_str());
    let state = rand_b64(16);
    let url = authorize_url(base, port, state.as_str(), challenge.as_str(), app_name);
    SignIn { verifier, state, url }
}

impl SignIn {
    /// What is sent to exchange the code of a callback for the token. A callback with
    /// another state than that of this sign-in is refused.
    pub fn exchange(self, code: String, got_state: &str) -> (r: Result<Payload, String>)
        ensures
            if got_state@ == self.state@ {
                r matches Ok(payload) && payload_model(payload@) == token_fields(
                    code@,
                    self.verifier@,
                )
            } else {
                r matches Err(e) && e@ == "state mismatch — sign-in was not from this app"@
            },
    {
        match checked_code(code, got_state, self.state.as_str()) {
            Ok(code) => Ok(token_request(code, self.verifier)),
            Err(e) => Err(e),
        }
    }
}

/// The page that is opened is given the state and the challenge as they are: nothing in
/// them has to be escaped.
pub proof fn secrets_are_shown_as_they_are(
    base: Seq<char>,
    port: int,
    state: Seq<u8>,
    digest: Seq<u8>,
    app_name: Seq<char>,
)
    ensures
        authorize_page(base, port, b64(state), b64(digest), app_name) == server(base)
            + "/companion/authorize?port="@ + decimal(port) + "&state="@ + b64(state)
            + "&challenge="@ + b64(digest) + "&name="@ + url_text(app_name),
{
    b64_needs_no_escape(state);
    b64_needs_no_escape(digest);
}

/// The query that carries a code and a state.
pub open spec fn callback_query(code: Seq<char>, state: Seq<char>) -> Seq<char> {
    "code="@ + url_text(code) + "&state="@ + url_text(state)
}

/// A key, the sign and a value, as they stand in a query.
pub open spec fn written_pair(key: Seq<char>, value: Seq<char>) -> Seq<char> {
    key + seq!['='] + url_text(value)
}

proof fn lemma_pair_reads_back(key: Seq<char>, value: Seq<char>)
    requires
        forall|i: int| 0 <= i < key.len() ==> key[i] != '=',
    ensures
        pair_of(written_pair(key, value)) == (key, url_text(value)),
        url_value(pair_of(written_pair(key, value)).1) == Some(value),
{
    let p = written_pair(key, value);
    assert forall|j: int| 0 <= j < key.len() implies p[j] != '=' by {
        assert(p[j] == key[j]);
    }
    assert(p[key.len() as int] == '=');
    lemma_first_index_unique(p, '=', key.len() as int);
    assert(p.take(key.len() as int) =~= key);
    assert(p.skip(key.len() as int + 1) =~= url_text(value));
    url_text_reads_back(value);
}

proof fn lemma_pair_has_no(key: Seq<char>, value: Seq<char>, i: int)
    requires
        0 <= i < written_pair(key, value).len(),
        forall|j: int| 0 <= j < key.len() ==> key[j] != '&' && !is_whitespace(key[j]),
    ensures
        written_pair(key, value)[i] != '&',
        !is_whitespace(written_pair(key, value)[i]),
{
    let p = written_pair(key, value);
    if i < key.len() {
        assert(p[i] == key[i]);
    } else if i > key.len() {
        let k = i - key.len() - 1;
        assert(p[i] == url_text(value)[k]);
        url_text_is_harmless(value, k);
    }
}

proof fn lemma_split_one(s: Seq<char>)
    requires
        forall|i: int| 0 <= i < s.len() ==> s[i] != '&',
    ensures
        split(s, '&') == seq![s],
{
    lemma_first_index_unique(s, '&', s.len() as int);
    lemma_split_nonempty(s, '&');
    assert(split(s, '&') =~= seq![s]);
}

/// The code and the state that a query carries are read from it, whatever they hold.
pub proof fn callback_query_reads_back(code: Seq<char>, state: Seq<char>)
    ensures
        value_in(split(callback_query(code, state), '&'), "code"@) == Some(code),
        value_in(split(callback_query(code, state), '&'), "state"@) == Some(state),
{
    reveal_strlit("code");
    reveal_strlit("state");
    reveal_strlit("code=");
    reveal_strlit("&state=");
    let a = written_pair("code"@, code);
    let b = written_pair("state"@, state);
    let q = callback_query(code, state);
    assert(q =~= a + seq!['&'] + b);
    assert forall|i: int| 0 <= i < a.len() implies q[i] != '&' by {
        lemma_pair_has_no("code"@, code, i);
        assert(q[i] == a[i]);
    }
    assert forall|i: int| 0 <= i < b.len() implies b[i] != '&' by {
        lemma_pair_has_no("state"@, state, i);
    }
    assert(q[a.len() as int] == '&');
    lemma_first_index_unique(q, '&', a.len() as int);
    assert(q.take(a.len() as int) =~= a);
    assert(q.skip(a.len() as int + 1) =~= b);
    lemma_split_one(b);
    let pairs = split(q, '&');
    assert(pairs =~= seq![a, b]);
    lemma_pair_reads_back("code"@, code);
    lemma_pair_reads_back("state"@, state);
    assert(pairs.drop_last() =~= seq![a]);
    assert(pairs.drop_last().drop_last() =~= Seq::<Seq<char>>::empty());
    assert("code"@.len() != "state"@.len());
    assert(value_in(seq![a], "code"@) == Some(code));
}

/// The request by which the browser delivers a code and a state; `rest` is what follows
/// the first line.
pub open spec fn callback_request(code: Seq<char>, state: Seq<char>, rest: Seq<char>) -> Seq<char> {
    "GET /callback?"@ + callback_query(code, state) + " HTTP/1.1\r\n"@ + rest
}

proof fn lemma_query_is_one_word(code: Seq<char>, state: Seq<char>, i: int)
    requires
        0 <= i < callback_query(code, state).len(),
    ensures
        !is_whitespace(callback_query(code, state)[i]),
{
    reveal_strlit("code");
    reveal_strlit("state");
    reveal_strlit("code=");
    reveal_strlit("&state=");
    let a = written_pair("code"@, code);
    let b = written_pair("state"@, state);
    let q = callback_query(code, state);
    assert(q =~= a + seq!['&'] + b);
    if i < a.len() {
        lemma_pair_has_no("code"@, code, i);
        assert(q[i] == a[i]);
    } else if i > a.len() {
        lemma_pair_has_no("state"@, state, i - a.len() - 1);
        assert(q[i] == b[i - a.len() - 1]);
    }
}

/// The code and the state that the browser delivers are received, whatever they hold.
pub proof fn callback_is_received(code: Seq<char>, state: Seq<char>, rest: Seq<char>)
    ensures
        callback_in(callback_request(code, state, rest)) == (CallbackModel::Complete { code, state }),
{
    reveal_strlit("GET /callback?");
    reveal_strlit("/callback?");
    reveal_strlit(" HTTP/1.1\r\n");
    let q = callback_query(code, state);
    let request = callback_request(code, state, rest);
    let target = "/callback?"@ + q;
    let n = target.len() as int;
    // The first line: three letters, a space, the target, a space and the version.
    let line = "GET /callback?"@ + q + " HTTP/1.1\r\n"@.take(10);
    let m = line.len() as int;
    assert forall|i: int| 0 <= i < q.len() implies !is_whitespace(#[trigger] q[i]) by {
        lemma_query_is_one_word(code, state, i);
    }
    assert forall|i: int| 0 <= i < m implies request[i] == line[i] && line[i] != '\n' by {
        if 14 <= i < 14 + q.len() {
            assert(line[i] == q[i - 14]);
        }
    }
    assert(request[m] == '\n');
    lemma_first_index_unique(request, '\n', m);
    assert(request.take(m) =~= line);
    // Its second word.
    assert(trim_start_by(line, blank()) == line);
    lemma_first_blank(line, 3);
    let tail = line.skip(3);
    let word = line.skip(4);
    assert(tail[0] == ' ');
    assert(tail.skip(1) =~= word);
    assert(word[0] == '/');
    assert(trim_start_by(word, blank()) == word);
    assert(trim_start_by(tail, blank()) == word);
    assert forall|i: int| 0 <= i < n implies !is_whitespace(word[i]) && word[i] == target[i] by {
        if i >= 10 {
            assert(word[i] == q[i - 10]);
        }
    }
    assert(word[n] == ' ');
    lemma_first_blank(word, n);
    assert(word.take(n) =~= target);
    assert(target_of(request) == target);
    assert(target.take(10) =~= "/callback?"@);
    assert(target.skip(10) =~= q);
    callback_query_reads_back(code, state);
}

} // verus!
