//! Signing in: the page that is opened, the callback that is accepted, and what is exchanged
//! for the token.
use vstd::prelude::*;
use vstd::string::*;
use vstd::utf8::*;

use crate::api::Payload;
use crate::auth::{
    Callback, SIGN_IN_TIMEOUT_MS, SignIn, accept_callback, authorize_url, begin_sign_in,
    challenge_of, checked_code, is_secret, pair_of, parse_callback, rand_b64, read_callback,
    request_target, respond, sha256, token_url, value_in, wait_over,
};
use crate::encoding::{b64, b64_is_plain, b64_text, url_text, url_value};
use crate::laws::requests::has_text;
use crate::laws::texts::{joined, lacks, lemma_second, lemma_split, second};
use crate::number::decimal;
use crate::tailer::utf8_lossy;
use crate::text::{first_index, lemma_first_index, lemma_first_index_unique, opt_text, split};

verus! {

/// Whether an address is that of a server, with or without slashes behind it.
pub open spec fn is_server(base: Seq<char>, server: Seq<char>) -> bool {
    &&& server.len() <= base.len() && base.take(server.len() as int) == server
    &&& forall|j: int| server.len() <= j < base.len() ==> #[trigger] base[j] == '/'
    &&& server.len() > 0 ==> server.last() != '/'
}

proof fn lemma_server(base: Seq<char>, server: Seq<char>)
    requires
        is_server(base, server),
    ensures
        crate::auth::server(base) == server,
    decreases base.len(),
{
    if base.len() > server.len() {
        let t = base.drop_last();
        assert(base.last() == '/');
        assert(t.take(server.len() as int) =~= base.take(server.len() as int));
        assert forall|j: int| server.len() <= j < t.len() implies #[trigger] t[j] == '/' by {
            assert(base[j] == '/');
        }
        lemma_server(t, server);
    } else {
        assert(base =~= server);
    }
}

/// The page that is opened is on the server, and is told the port, the state, the challenge and
/// the name, each escaped and under its own name. The token is asked for at the same server.
pub proof fn the_page_is_on_the_server(
    base: &str,
    server: Seq<char>,
    port: u16,
    state: &str,
    challenge: &str,
    app_name: &str,
    r: String,
    token: String,
)
    requires
        call_ensures(authorize_url, (base, port, state, challenge, app_name), r),
        call_ensures(token_url, (base,), token),
        is_server(base@, server),
    ensures
        r@ == server + "/companion/authorize?port="@ + decimal(port as int) + "&state="@ + url_text(state@)
            + "&challenge="@ + url_text(challenge@) + "&name="@ + url_text(app_name@),
        token@ == server + "/api/companion/token"@,
{
    lemma_server(base@, server);
}

/// A sign-in is begun with two secrets of its own. The page is told the state and what stands
/// for the verifier; a code comes back only with that state, and is exchanged with that
/// verifier.
pub proof fn a_sign_in_goes_by_its_own_secrets(
    base: &str,
    server: Seq<char>,
    port: u16,
    app_name: &str,
    s: SignIn,
    verifier: &str,
    challenge: String,
    code: String,
    got_state: &str,
    r: Result<Payload, String>,
)
    requires
        call_ensures(begin_sign_in, (base, port, app_name), s),
        is_server(base@, server),
        verifier@ == s.verifier@,
        call_ensures(challenge_of, (verifier,), challenge),
        call_ensures(SignIn::exchange, (s, code, got_state), r),
    ensures
        is_secret(s.verifier@, 32),
        is_secret(s.state@, 16),
        s.url@ == server + "/companion/authorize?port="@ + decimal(port as int) + "&state="@ + url_text(
            s.state@,
        ) + "&challenge="@ + url_text(challenge@) + "&name="@ + url_text(app_name@),
        r is Ok <==> got_state@ == s.state@,
        r matches Ok(p) ==> p@.len() == 2 && has_text(p, "code"@, code@) && has_text(
            p,
            "verifier"@,
            s.verifier@,
        ),
        r matches Err(e) ==> e@ == "state mismatch — sign-in was not from this app"@,
{
    lemma_server(base@, server);
    if let Ok(p) = r {
        reveal_strlit("code");
        reveal_strlit("verifier");
        assert("code"@.len() == 4 && "verifier"@.len() == 8);
        let m = crate::api::payload_model(p@);
        assert(m.len() == p@.len());
        assert(m[0] == (p@[0].0@, p@[0].1@));
        assert(m[1] == (p@[1].0@, p@[1].1@));
        assert(crate::laws::requests::named(p, "code"@, 0));
        assert(crate::laws::requests::named(p, "verifier"@, 1));
    }
}

/// What the server is told of a verifier is its digest: that of the bytes of its text, written
/// as secrets are.
pub proof fn a_challenge_is_a_digest(verifier: &str, r: String, digest: &[u8], text: String)
    requires
        call_ensures(challenge_of, (verifier,), r),
        digest@ == sha256(encode_utf8(verifier@)),
        call_ensures(b64_text, (digest,), text),
    ensures
        r@ == text@,
        r@ == b64(sha256(encode_utf8(verifier@))),
{
}

/// A secret has four characters for every three of its bytes, and each stands for itself in a
/// URL.
pub proof fn secrets_are_long_and_plain(len: usize, r: String, i: int)
    requires
        call_ensures(rand_b64, (len,), r),
    ensures
        r@.len() == (4 * len + 2) / 3,
        0 <= i < r@.len() ==> ('a' <= r@[i] <= 'z' || 'A' <= r@[i] <= 'Z' || '0' <= r@[i] <= '9' || r@[i] == '-'
            || r@[i] == '_' || r@[i] == '.' || r@[i] == '~'),
{
    let bytes = choose|bytes: Seq<u8>| #[trigger]
        crate::auth::drawn(len, bytes) && bytes.len() == len && b64(bytes) == r@;
    b64_is_plain(bytes);
    if 0 <= i < r@.len() {
        assert(b64(bytes)[i] == r@[i]);
    }
}

/// A code is taken exactly if it comes with the state of the sign-in.
pub proof fn a_code_comes_with_its_state(
    code: String,
    got: &str,
    state: &str,
    r: Result<String, String>,
)
    requires
        call_ensures(checked_code, (code, got, state), r),
    ensures
        r is Ok <==> got@ == state@,
        r matches Ok(c) ==> c@ == code@,
{
}

/// The wait for the browser ends when the user cancels or the time is up, and no sooner. Where
/// the deadline is set as it should be, that is five minutes after it began.
pub proof fn the_wait_ends(begun: u64, cancelled: bool, now: u64, deadline: u64, r: Option<String>)
    requires
        call_ensures(wait_over, (cancelled, now, deadline), r),
    ensures
        !cancelled && deadline == begun + SIGN_IN_TIMEOUT_MS ==> (r is Some <==> now - begun > 5 * 60 * 1000),
        r is Some <==> cancelled || now > deadline,
        cancelled ==> r->0@ == "sign-in cancelled"@,
        !cancelled && now > deadline ==> r->0@ == "sign-in timed out — please try again"@,
{
}

/// What a request asks for is the second word of its first line; nothing where there is none.
pub proof fn a_request_asks_for_its_second_word(
    request: &str,
    line: Seq<char>,
    rest: Seq<char>,
    w: Seq<char>,
    r: String,
)
    requires
        call_ensures(request_target, (request,), r),
        lacks(line, '\n'),
        rest.len() == 0 || rest[0] == '\n',
        request@ == line + rest,
    ensures
        second(line, w) ==> r@ == w,
        (forall|x: Seq<char>| !second(line, x)) ==> r@.len() == 0,
{
    let n = line.len() as int;
    assert forall|j: int| 0 <= j < n implies request@[j] != '\n' by {
        assert(request@[j] == line[j]);
    }
    if rest.len() > 0 {
        assert(request@[n] == rest[0]);
    }
    lemma_first_index_unique(request@, '\n', n);
    assert(request@.take(n) =~= line);
    if second(line, w) {
        lemma_second(line, w);
    }
    if forall|x: Seq<char>| !second(line, x) {
        if crate::text::second_word(line) is Some {
            crate::laws::texts::lemma_found_is_second(line);
        }
    }
}

/// Whether a pair has a key, and then a value: what stands behind the first equals sign,
/// nothing where there is none.
pub open spec fn is_pair(pair: Seq<char>, key: Seq<char>, value: Seq<char>) -> bool {
    lacks(key, '=') && (pair == key.push('=') + value || (pair == key && value.len() == 0))
}

proof fn lemma_pair(pair: Seq<char>, key: Seq<char>, value: Seq<char>)
    requires
        is_pair(pair, key, value),
    ensures
        pair_of(pair) == (key, value),
{
    let n = key.len() as int;
    assert forall|j: int| 0 <= j < n implies pair[j] != '=' by {
        assert(pair[j] == key[j]);
    }
    if pair == key.push('=') + value {
        assert(pair[n] == '=');
        lemma_first_index_unique(pair, '=', n);
        assert(pair.take(n) =~= key);
        assert(pair.skip(n + 1) =~= value);
    } else {
        lemma_first_index_unique(pair, '=', n);
        assert(value =~= Seq::<char>::empty());
    }
}

/// Whether no pair from a place on has a key.
pub open spec fn none_from(pairs: Seq<Seq<char>>, from: int, key: Seq<char>) -> bool {
    forall|i: int, value: Seq<char>| from <= i < pairs.len() ==> !#[trigger] is_pair(pairs[i], key, value)
}

proof fn lemma_pair_back(pair: Seq<char>)
    ensures
        is_pair(pair, pair_of(pair).0, pair_of(pair).1),
{
    lemma_first_index(pair, '=');
    let n = first_index(pair, '=');
    let (k, v) = pair_of(pair);
    if n < pair.len() {
        assert(pair =~= k.push('=') + v);
        assert forall|j: int| 0 <= j < k.len() implies #[trigger] k[j] != '=' by {
            assert(k[j] == pair[j]);
        }
    } else {
        assert forall|j: int| 0 <= j < k.len() implies #[trigger] k[j] != '=' by {
            assert(k[j] == pair[j]);
        }
    }
}

proof fn lemma_value(pairs: Seq<Seq<char>>, key: Seq<char>, i: int, value: Seq<char>)
    ensures
        0 <= i < pairs.len() && is_pair(pairs[i], key, value) && none_from(pairs, i + 1, key) ==> value_in(
            pairs,
            key,
        ) == url_value(value),
        none_from(pairs, 0, key) ==> value_in(pairs, key) is None,
    decreases pairs.len(),
{
    if pairs.len() > 0 {
        let t = pairs.drop_last();
        let last = pairs.len() - 1;
        lemma_value(t, key, i, value);
        lemma_pair_back(pairs[last]);
        assert forall|j: int| 0 <= j < t.len() implies #[trigger] t[j] == pairs[j] by {}
        if 0 <= i < pairs.len() && is_pair(pairs[i], key, value) && none_from(pairs, i + 1, key) {
            lemma_pair(pairs[i], key, value);
            if i < last {
                assert(!is_pair(pairs[last], key, pair_of(pairs[last]).1));
                assert forall|j: int, v: Seq<char>| i + 1 <= j < t.len() implies !#[trigger] is_pair(
                    t[j],
                    key,
                    v,
                ) by {
                    assert(!is_pair(pairs[j], key, v));
                }
            }
        }
        if none_from(pairs, 0, key) {
            assert(!is_pair(pairs[last], key, pair_of(pairs[last]).1));
            assert forall|j: int, v: Seq<char>| 0 <= j < t.len() implies !#[trigger] is_pair(t[j], key, v) by {
                assert(!is_pair(pairs[j], key, v));
            }
        }
    }
}

/// The code and the state of a callback are what the last pairs with these keys give, read back
/// from their escaped form; there is none without such a pair.
pub proof fn a_query_is_read_by_its_keys(
    query: &str,
    pairs: Seq<Seq<char>>,
    i: int,
    j: int,
    code: Seq<char>,
    state: Seq<char>,
    r: (Option<String>, Option<String>),
)
    requires
        call_ensures(parse_callback, (query,), r),
        pairs == split(query@, '&'),
    ensures
        joined(pairs, '&') == query@,
        0 <= i < pairs.len() && is_pair(pairs[i], "code"@, code) && none_from(pairs, i + 1, "code"@)
            ==> opt_text(r.0) == url_value(code),
        0 <= j < pairs.len() && is_pair(pairs[j], "state"@, state) && none_from(pairs, j + 1, "state"@)
            ==> opt_text(r.1) == url_value(state),
        none_from(pairs, 0, "code"@) ==> r.0 is None,
        none_from(pairs, 0, "state"@) ==> r.1 is None,
{
    lemma_split(query@, '&');
    lemma_value(pairs, "code"@, i, code);
    lemma_value(pairs, "state"@, j, state);
}

/// A request is the callback exactly if it asks for that, and it is complete exactly if it
/// brings both a code and a state, which it then brings.
pub proof fn a_callback_is_known(
    request: &str,
    target: String,
    query: &str,
    pair: (Option<String>, Option<String>),
    r: Callback,
)
    requires
        call_ensures(read_callback, (request,), r),
        call_ensures(request_target, (request,), target),
        target@ == "/callback?"@ + query@ ==> call_ensures(parse_callback, (query,), pair),
    ensures
        target@ == "/callback?"@ + query@ ==> {
            &&& pair.0 is Some && pair.1 is Some ==> (r matches Callback::Complete { code, state } && code@
                == pair.0->0@ && state@ == pair.1->0@)
            &&& pair.0 is None || pair.1 is None ==> (r matches Callback::Incomplete(e) && e@
                == "callback missing code or state"@)
        },
        (forall|q: Seq<char>| target@ != #[trigger] ("/callback?"@ + q)) ==> r is Other,
{
    let p = "/callback?"@;
    if target@ == p + query@ {
        assert(target@.take(p.len() as int) =~= p);
        assert(target@.skip(p.len() as int) =~= query@);
    }
    if forall|q: Seq<char>| target@ != #[trigger] (p + q) {
        if crate::text::starts(target@, p) {
            let q = target@.skip(p.len() as int);
            assert(target@ =~= p + q);
        }
    }
}

/// Bytes that are text are read as that text, and others with what stands in for them.
pub proof fn callbacks_are_read_as_text(bytes: &[u8], request: &str, a: Callback, b: Callback)
    requires
        call_ensures(accept_callback, (bytes,), a),
        call_ensures(read_callback, (request,), b),
        valid_utf8(bytes@) ==> bytes@ == encode_utf8(request@),
        !valid_utf8(bytes@) ==> request@ == utf8_lossy(bytes@),
    ensures
        a is Other <==> b is Other,
        b matches Callback::Complete { code, state } ==> (a matches Callback::Complete {
            code: c,
            state: s,
        } && c@ == code@ && s@ == state@),
        b matches Callback::Incomplete(e) ==> (a matches Callback::Incomplete(f) && f@ == e@),
{
    if valid_utf8(bytes@) {
        encode_utf8_decode_utf8(request@);
    }
}

/// The answer to the browser is a success that holds a page, says how many bytes that has, and
/// ends the connection; it is another page where the sign-in failed.
pub proof fn the_browser_is_answered(ok: bool, r: String) -> (html: Seq<char>)
    requires
        call_ensures(respond, (ok,), r),
    ensures
        r@ == "HTTP/1.1 200 OK\r\nContent-Type: text/html; charset=utf-8\r\nContent-Length: "@ + decimal(
            encode_utf8(html).len() as int,
        ) + "\r\nConnection: close\r\n\r\n"@ + html,
        ok ==> says(html, "Signed in"@),
        !ok ==> says(html, "Sign-in error"@),
        ok ==> says(html, "You're connected. You can close this tab and return to BBRR Companion."@),
        !ok ==> says(html, "Something went wrong. Return to BBRR Companion and try again."@),
{
    let html = crate::auth::page(ok);
    let (title, msg) = crate::auth::page_words(ok);
    let b = "</p></div></body></html>"@;
    let n = html.len() - b.len() - msg.len();
    let a = html.take(n);
    assert(html =~= a + msg + b);
    assert(said_in(html, a, msg, b));
    let head = "<!doctype html><html><head><meta charset=\"utf-8\"><title>"@;
    let rest = html.skip((head.len() + title.len()) as int);
    assert(html =~= head + title + rest);
    assert(said_in(html, head, title, rest));
    html
}

/// Whether a page has a text in it, between what stands before and behind it.
pub open spec fn said_in(s: Seq<char>, a: Seq<char>, msg: Seq<char>, b: Seq<char>) -> bool {
    s == a + msg + b
}

/// Whether a page says a text.
pub open spec fn says(s: Seq<char>, msg: Seq<char>) -> bool {
    exists|a: Seq<char>, b: Seq<char>| #[trigger] said_in(s, a, msg, b)
}

} // verus!
