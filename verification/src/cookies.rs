//! Cookies of the user's own browser, as they were exported to a file in
//! Netscape's format, and the care that URLs with secrets in them need.

use vstd::prelude::*;
use crate::browser::sniff::{is_under, under};
use crate::number::{decimal, parse, parsed};
use crate::text::{
    after_last, cat, cat3, ends_with, find, first, followed, has_prefix, has_suffix, head, join,
    joined, last_line, last_words, lines, lines_of, lower, push_text, same, split, split_text,
    starts_with, tail, text_of, texts, to_lower, trim, trimmed, white, Class,
};

verus! {

/// The browsers whose cookies can be read.
pub open spec fn browser_names() -> Seq<Seq<char>> {
    seq![
        "brave"@,
        "chrome"@,
        "chromium"@,
        "edge"@,
        "firefox"@,
        "opera"@,
        "safari"@,
        "vivaldi"@,
        "whale"@,
    ]
}

pub fn browsers() -> (r: Vec<String>)
    ensures
        texts(r@) == browser_names(),
{
    let mut v: Vec<String> = Vec::new();
    push_text(&mut v, "brave");
    push_text(&mut v, "chrome");
    push_text(&mut v, "chromium");
    push_text(&mut v, "edge");
    push_text(&mut v, "firefox");
    push_text(&mut v, "opera");
    push_text(&mut v, "safari");
    push_text(&mut v, "vivaldi");
    push_text(&mut v, "whale");
    proof {
        assert(texts(v@) =~= browser_names());
    }
    v
}

/// Whether the browser is a known one; a profile or a keyring behind its name,
/// after `:` or `+`, does not matter, nor does the case.
pub open spec fn supported(name: Seq<char>) -> bool {
    browser_names().contains(lower(name.take(first(name, Class::Either(':', '+'), true))))
}

pub fn is_supported(name: &str) -> (r: bool)
    ensures
        r == supported(name@),
{
    let base = to_lower(head(name, find(name, Class::Either(':', '+'), true)));
    let known = browsers();
    crate::text::listed(known.as_slice(), base.as_str())
}

/// The command line that has yt-dlp export a browser's cookies, without
/// downloading anything.
pub open spec fn export_line(browser: Seq<char>, dest: Seq<char>, url: Seq<char>) -> Seq<Seq<char>> {
    seq![
        "--ignore-config"@,
        "--no-warnings"@,
        "--simulate"@,
        "--skip-download"@,
        "--cookies-from-browser"@,
        browser,
        "--cookies"@,
        dest,
        url,
    ]
}

/// The words for a browser that is not known.
pub open spec fn unknown_browser(browser: Seq<char>) -> Seq<char> {
    "不認得的瀏覽器："@ + browser + "（支援 "@ + joined(browser_names(), "、"@) + "）"@
}

/// The command line for an export, or the refusal of a browser that is not
/// known.
pub fn export(browser: &str, url: &str, dest: &str) -> (r: Result<Vec<String>, String>)
    ensures
        match r {
            Ok(a) => supported(browser@) && texts(a@) == export_line(browser@, dest@, url@),
            Err(e) => !supported(browser@) && e@ == unknown_browser(browser@),
        },
{
    if !is_supported(browser) {
        let known = browsers();
        let names = join(&known, "、");
        let front = cat3("不認得的瀏覽器：", browser, "（支援 ");
        return Err(cat3(front.as_str(), names.as_str(), "）"));
    }
    let mut v: Vec<String> = Vec::new();
    push_text(&mut v, "--ignore-config");
    push_text(&mut v, "--no-warnings");
    push_text(&mut v, "--simulate");
    push_text(&mut v, "--skip-download");
    push_text(&mut v, "--cookies-from-browser");
    push_text(&mut v, browser);
    push_text(&mut v, "--cookies");
    push_text(&mut v, dest);
    push_text(&mut v, url);
    proof {
        assert(texts(v@) =~= export_line(browser@, dest@, url@));
    }
    Ok(v)
}

/// The words for an export that left no file behind.
pub fn export_error(browser: &str, stderr: &str) -> (r: String)
    ensures
        r@ == "讀取 "@ + browser@ + " 的 cookie 失敗："@ + match last_words(lines(stderr@)) {
            Some(w) => w,
            None => "yt-dlp 沒有說明原因"@,
        },
{
    let front = cat3("讀取 ", browser, " 的 cookie 失敗：");
    match last_line(stderr) {
        Some(w) => cat(front.as_str(), w.as_str()),
        None => cat(front.as_str(), "yt-dlp 沒有說明原因"),
    }
}

/// One row of a cookie file.
#[derive(Clone, Debug)]
pub struct Cookie {
    pub domain: String,
    pub path: String,
    pub secure: bool,
    pub http_only: bool,
    /// The seconds since 1970 at which it expires; none for a cookie of the
    /// session.
    pub expires: Option<u64>,
    pub name: String,
    pub value: String,
}

/// What a cookie says.
#[verifier::ext_equal]
pub struct CookieView {
    pub domain: Seq<char>,
    pub path: Seq<char>,
    pub secure: bool,
    pub http_only: bool,
    pub expires: Option<u64>,
    pub name: Seq<char>,
    pub value: Seq<char>,
}

impl View for Cookie {
    type V = CookieView;

    open spec fn view(&self) -> CookieView {
        CookieView {
            domain: self.domain@,
            path: self.path@,
            secure: self.secure,
            http_only: self.http_only,
            expires: self.expires,
            name: self.name@,
            value: self.value@,
        }
    }
}

/// A line without the mark of a cookie that scripts cannot see.
pub open spec fn unmarked(line: Seq<char>) -> Seq<char> {
    if starts_with(line, "#HttpOnly_"@) {
        line.skip("#HttpOnly_"@.len() as int)
    } else {
        line
    }
}

/// The expiry in a cookie's row; zero and what is no number stand for a cookie
/// of the session.
pub open spec fn expiry(s: Seq<char>) -> Option<u64> {
    match parsed(s, u64::MAX as nat) {
        Some(n) => if n > 0 {
            Some(n as u64)
        } else {
            None
        },
        None => None,
    }
}

/// The cookie on a line: seven fields between tabs, the last of which may be
/// missing. A comment, a blank line and a shorter row hold none.
pub open spec fn row(line: Seq<char>) -> Option<CookieView> {
    let l = unmarked(line);
    let f = split(l, Class::Is('\t'));
    if (l.len() > 0 && l[0] == '#') || trimmed(l).len() == 0 || f.len() < 6 {
        None
    } else {
        Some(
            CookieView {
                domain: f[0],
                path: f[2],
                secure: lower(f[3]) == "true"@,
                http_only: starts_with(line, "#HttpOnly_"@),
                expires: expiry(f[4]),
                name: f[5],
                value: if f.len() > 6 {
                    f[6]
                } else {
                    ""@
                },
            },
        )
    }
}

/// The cookies on the given lines, in their order.
pub open spec fn rows(l: Seq<Seq<char>>) -> Seq<CookieView>
    decreases l.len(),
{
    if l.len() == 0 {
        seq![]
    } else {
        match row(l.last()) {
            Some(c) => rows(l.drop_last()).push(c),
            None => rows(l.drop_last()),
        }
    }
}

pub open spec fn cookie_views(v: Seq<Cookie>) -> Seq<CookieView> {
    v.map_values(|c: Cookie| c@)
}

fn parse_row(line: &str) -> (r: Option<Cookie>)
    ensures
        match r {
            Some(c) => row(line@) == Some(c@),
            None => row(line@) is None,
        },
{
    proof {
        reveal_strlit("#HttpOnly_");
    }
    let http_only = has_prefix(line, "#HttpOnly_");
    let l = if http_only {
        tail(line, 10)
    } else {
        line
    };
    if l.unicode_len() > 0 && l.get_char(0) == '#' {
        return None;
    }
    if trim(l).unicode_len() == 0 {
        return None;
    }
    let f = split_text(l, Class::Is('\t'));
    proof {
        assert(texts(f@).len() == f@.len());
        assert forall|i: int| 0 <= i < f@.len() implies (#[trigger] texts(f@)[i]) == f@[i]@ by {}
    }
    if f.len() < 6 {
        return None;
    }
    let expires = match parse(f[4].as_str(), u64::MAX) {
        Some(n) => if n > 0 {
            Some(n)
        } else {
            None
        },
        None => None,
    };
    let value = if f.len() > 6 {
        f[6].as_str().to_owned()
    } else {
        "".to_owned()
    };
    let c = Cookie {
        domain: f[0].as_str().to_owned(),
        path: f[2].as_str().to_owned(),
        secure: same(to_lower(f[3].as_str()).as_str(), "true"),
        http_only,
        expires,
        name: f[5].as_str().to_owned(),
        value,
    };
    proof {
        assert(c@ =~= row(line@)->0);
    }
    Some(c)
}

/// Reads the cookies out of the text of a cookie file.
pub fn parse_netscape(text: &str) -> (r: Vec<Cookie>)
    ensures
        cookie_views(r@) == rows(lines(text@)),
{
    let l = lines_of(text);
    let mut out: Vec<Cookie> = Vec::new();
    let mut i: usize = 0;
    while i < l.len()
        invariant
            texts(l@) == lines(text@),
            i <= l@.len(),
            cookie_views(out@) == rows(texts(l@).take(i as int)),
        decreases l@.len() - i,
    {
        let ghost before = cookie_views(out@);
        proof {
            assert(texts(l@).take(i + 1).drop_last() =~= texts(l@).take(i as int));
            assert(texts(l@).take(i + 1).last() == l@[i as int]@);
        }
        if let Some(c) = parse_row(l[i].as_str()) {
            out.push(c);
            proof {
                assert(cookie_views(out@) =~= before.push(c@));
            }
        }
        i += 1;
    }
    proof {
        assert(texts(l@).take(i as int) =~= texts(l@));
    }
    out
}

/// Whether a cookie of that domain is meant for the host: the domain itself or
/// a host under it, whatever the case. Dots in front of the domain say nothing.
pub open spec fn meant_for(domain: Seq<char>, host: Seq<char>) -> bool {
    under(lower(host), lower(domain.skip(first(domain, Class::Is('.'), false))))
}

/// The name and the value of each cookie that is meant for the host.
pub open spec fn crumbs(cookies: Seq<CookieView>, host: Seq<char>) -> Seq<Seq<char>>
    decreases cookies.len(),
{
    if cookies.len() == 0 {
        seq![]
    } else {
        let c = cookies.last();
        if meant_for(c.domain, host) {
            crumbs(cookies.drop_last(), host).push(c.name + "="@ + c.value)
        } else {
            crumbs(cookies.drop_last(), host)
        }
    }
}

/// The `Cookie` header for the host; none, rather than an empty one, where no
/// cookie is meant for it.
pub open spec fn header(cookies: Seq<CookieView>, host: Seq<char>) -> Option<Seq<char>> {
    let c = crumbs(cookies, host);
    if c.len() == 0 {
        None
    } else {
        Some(joined(c, "; "@))
    }
}

/// Makes the `Cookie` header for a host out of the text of a cookie file.
pub fn header_for_host(text: &str, host: &str) -> (r: Option<String>)
    ensures
        text_of(r) == header(rows(lines(text@)), host@),
{
    let lowered = to_lower(host);
    let cookies = parse_netscape(text);
    let mut out: Vec<String> = Vec::new();
    let mut i: usize = 0;
    while i < cookies.len()
        invariant
            lowered@ == lower(host@),
            cookie_views(cookies@) == rows(lines(text@)),
            i <= cookies@.len(),
            texts(out@) == crumbs(cookie_views(cookies@).take(i as int), host@),
        decreases cookies@.len() - i,
    {
        let c = &cookies[i];
        proof {
            let t = cookie_views(cookies@).take(i + 1);
            assert(t.drop_last() =~= cookie_views(cookies@).take(i as int));
            assert(t.last() == c@);
        }
        let d = c.domain.as_str();
        let domain = to_lower(tail(d, find(d, Class::Is('.'), false)));
        if is_under(lowered.as_str(), domain.as_str()) {
            push_text(&mut out, cat3(c.name.as_str(), "=", c.value.as_str()).as_str());
        }
        i += 1;
    }
    proof {
        assert(cookie_views(cookies@).take(i as int) =~= cookie_views(cookies@));
        assert(texts(out@).len() == out@.len());
    }
    if out.len() == 0 {
        None
    } else {
        Some(join(&out, "; "))
    }
}

/// Whether the name of a query parameter sounds like a secret: it ends, whatever
/// the case, in one of these words.
pub open spec fn secret(key: Seq<char>) -> bool {
    let k = lower(key);
    ||| ends_with(k, "token"@)
    ||| ends_with(k, "access_token"@)
    ||| ends_with(k, "auth"@)
    ||| ends_with(k, "key"@)
    ||| ends_with(k, "sig"@)
    ||| ends_with(k, "signature"@)
    ||| ends_with(k, "password"@)
    ||| ends_with(k, "passwd"@)
    ||| ends_with(k, "secret"@)
    ||| ends_with(k, "session"@)
    ||| ends_with(k, "sid"@)
    ||| ends_with(k, "api_key"@)
    ||| ends_with(k, "apikey"@)
    ||| ends_with(k, "credential"@)
    ||| ends_with(k, "upsig"@)
    ||| ends_with(k, "hmac"@)
}

fn is_secret(key: &str) -> (r: bool)
    ensures
        r == secret(key@),
{
    let lowered = to_lower(key);
    let k = lowered.as_str();
    has_suffix(k, "token") || has_suffix(k, "access_token") || has_suffix(k, "auth") || has_suffix(
        k,
        "key",
    ) || has_suffix(k, "sig") || has_suffix(k, "signature") || has_suffix(k, "password")
        || has_suffix(k, "passwd") || has_suffix(k, "secret") || has_suffix(k, "session")
        || has_suffix(k, "sid") || has_suffix(k, "api_key") || has_suffix(k, "apikey")
        || has_suffix(k, "credential") || has_suffix(k, "upsig") || has_suffix(k, "hmac")
}

/// The name of a query parameter: what stands before the first equals sign.
pub open spec fn param_name(kv: Seq<char>) -> Seq<char> {
    kv.take(first(kv, Class::Is('='), true))
}

/// A query parameter with its value masked, where its name sounds like a secret.
pub open spec fn masked(kv: Seq<char>) -> Seq<char> {
    if secret(param_name(kv)) {
        param_name(kv) + "=<已遮蔽>"@
    } else {
        kv
    }
}

/// The parameters of a query.
pub open spec fn params(query: Seq<char>) -> Seq<Seq<char>> {
    split(query, Class::Is('&'))
}

pub open spec fn all_masked(p: Seq<Seq<char>>) -> Seq<Seq<char>> {
    p.map_values(|kv: Seq<char>| masked(kv))
}

/// Where the query of a URL begins: at the first question mark, or at the end.
pub open spec fn query_start(url: Seq<char>) -> int {
    first(url, Class::Is('?'), true)
}

/// A URL with the values of its secret parameters masked.
pub open spec fn redacted(url: Seq<char>) -> Seq<char> {
    let q = query_start(url);
    if q < url.len() {
        url.take(q) + "?"@ + joined(all_masked(params(url.skip(q + 1))), "&"@)
    } else {
        url
    }
}

/// Masks the values of the query parameters that sound like secrets.
pub fn redact(url: &str) -> (r: String)
    ensures
        r@ == redacted(url@),
{
    let q: usize = find(url, Class::Is('?'), true);
    if q == url.unicode_len() {
        return url.to_owned();
    }
    let p = split_text(tail(url, q + 1), Class::Is('&'));
    let mut out: Vec<String> = Vec::new();
    let mut i: usize = 0;
    while i < p.len()
        invariant
            texts(p@) == params(url@.skip(q + 1)),
            i <= p@.len(),
            texts(out@) == all_masked(texts(p@).take(i as int)),
        decreases p@.len() - i,
    {
        let kv = p[i].as_str();
        let ghost before = texts(out@);
        let name = head(kv, find(kv, Class::Is('='), true));
        if is_secret(name) {
            push_text(&mut out, cat(name, "=<已遮蔽>").as_str());
        } else {
            push_text(&mut out, kv);
        }
        proof {
            assert(texts(out@) =~= before.push(masked(kv@)));
            assert(texts(p@)[i as int] == kv@);
            assert(all_masked(texts(p@).take(i + 1)) =~= all_masked(texts(p@).take(i as int)).push(
                masked(kv@),
            ));
        }
        i += 1;
    }
    proof {
        assert(texts(p@).take(i as int) =~= texts(p@));
    }
    let rest = join(&out, "&");
    cat3(head(url, q), "?", rest.as_str())
}

/// A URL without a query is left as it is.
pub proof fn law_plain_url_stays(url: Seq<char>)
    requires
        !url.contains('?'),
    ensures
        redacted(url) == url,
{
    let k = Class::Is('?');
    crate::text::lemma_first(url, k, true);
    let q = query_start(url);
    if q < url.len() {
        assert(url.contains(url[q]));
    }
}

proof fn lemma_masked(kv: Seq<char>)
    requires
        !kv.contains('&'),
    ensures
        !masked(kv).contains('&'),
        masked(masked(kv)) == masked(kv),
        param_name(masked(kv)) == param_name(kv),
{
    let k = Class::Is('=');
    crate::text::lemma_first(kv, k, true);
    let n = first(kv, k, true);
    let name = param_name(kv);
    let mask = "=<已遮蔽>"@;
    reveal_strlit("=<已遮蔽>");
    if secret(name) {
        let m = masked(kv);
        assert(m == name + mask);
        assert forall|j: int| 0 <= j < n implies k.has(#[trigger] m[j]) != true by {
            assert(m[j] == kv[j]);
        }
        assert(m[n] == '=');
        crate::text::lemma_first_is(m, k, true, n);
        assert(m.take(n) =~= name);
        assert forall|j: int| 0 <= j < m.len() implies #[trigger] m[j] != '&' by {
            if j < n {
                assert(m[j] == kv[j]);
                assert(kv.contains(kv[j]));
            } else {
                assert(m[j] == mask[j - n]);
            }
        }
    }
}

/// The query of a redacted URL holds the same parameters in the same order,
/// each masked, and the rest of the URL is as it was.
proof fn lemma_redacted(url: Seq<char>)
    requires
        url.contains('?'),
    ensures
        query_start(redacted(url)) == query_start(url),
        query_start(url) < url.len(),
        redacted(url).take(query_start(url)) == url.take(query_start(url)),
        params(redacted(url).skip(query_start(url) + 1)) == all_masked(
            params(url.skip(query_start(url) + 1)),
        ),
        query_start(url) < redacted(url).len(),
        all_masked(all_masked(params(url.skip(query_start(url) + 1)))) == all_masked(
            params(url.skip(query_start(url) + 1)),
        ),
{
    let k = Class::Is('?');
    crate::text::lemma_first(url, k, true);
    let q = query_start(url);
    if q == url.len() {
        let j = url.index_of('?');
        assert(k.has(url[j]));
    }
    reveal_strlit("?");
    reveal_strlit("&");
    assert("&"@ =~= seq!['&']);
    let p = params(url.skip(q + 1));
    let m = all_masked(p);
    crate::text::law_join_undoes_split(url.skip(q + 1), '&');
    assert forall|i: int| 0 <= i < m.len() implies !(#[trigger] m[i]).contains('&') && masked(m[i])
        == m[i] by {
        assert(!p[i].contains('&'));
        lemma_masked(p[i]);
    }
    assert(all_masked(m) =~= m);
    crate::text::law_split_undoes_join(m, '&');
    let r = redacted(url);
    assert forall|j: int| 0 <= j < q implies k.has(#[trigger] r[j]) != true by {
        assert(r[j] == url[j]);
    }
    assert(r[q] == '?');
    crate::text::lemma_first_is(r, k, true, q);
    assert(r.take(q) =~= url.take(q));
    assert(r.skip(q + 1) =~= joined(m, seq!['&']));
}

/// In a redacted URL no parameter with a secret's name has its value any more.
pub proof fn law_no_secret_survives(url: Seq<char>, i: int)
    requires
        query_start(redacted(url)) < redacted(url).len(),
        0 <= i < params(redacted(url).skip(query_start(redacted(url)) + 1)).len(),
    ensures
        ({
            let kv = params(redacted(url).skip(query_start(redacted(url)) + 1))[i];
            secret(param_name(kv)) ==> kv == param_name(kv) + "=<已遮蔽>"@
        }),
{
    if url.contains('?') {
        lemma_redacted(url);
        let p = params(url.skip(query_start(url) + 1));
        crate::text::law_join_undoes_split(url.skip(query_start(url) + 1), '&');
        assert(!p[i].contains('&'));
        lemma_masked(p[i]);
    } else {
        law_plain_url_stays(url);
        crate::text::lemma_first(url, Class::Is('?'), true);
        assert(url.contains(url[query_start(url)]));
    }
}

/// A parameter whose name is no secret's is kept, in its place.
pub proof fn law_harmless_params_stay(url: Seq<char>, i: int)
    requires
        url.contains('?'),
        0 <= i < params(url.skip(query_start(url) + 1)).len(),
        !secret(param_name(params(url.skip(query_start(url) + 1))[i])),
    ensures
        params(redacted(url).skip(query_start(redacted(url)) + 1))[i] == params(
            url.skip(query_start(url) + 1),
        )[i],
{
    lemma_redacted(url);
}

/// Redacting a redacted URL changes nothing.
pub proof fn law_redact_twice(url: Seq<char>)
    ensures
        redacted(redacted(url)) == redacted(url),
{
    if url.contains('?') {
        lemma_redacted(url);
    } else {
        law_plain_url_stays(url);
        assert(redacted(url) == url);
    }
}

/// There is a `Cookie` header exactly where some cookie is meant for the host.
pub proof fn law_header_iff_cookie(cookies: Seq<CookieView>, host: Seq<char>)
    ensures
        header(cookies, host) is Some <==> exists|i: int|
            0 <= i < cookies.len() && meant_for((#[trigger] cookies[i]).domain, host),
    decreases cookies.len(),
{
    if cookies.len() > 0 {
        let front = cookies.drop_last();
        law_header_iff_cookie(front, host);
        let n = cookies.len() - 1;
        if header(cookies, host) is Some && !meant_for(cookies.last().domain, host) {
            let i = choose|i: int| 0 <= i < front.len() && meant_for((#[trigger] front[i]).domain, host);
            assert(cookies[i] == front[i]);
        }
        if meant_for(cookies.last().domain, host) {
            assert(meant_for(cookies[n].domain, host));
        }
        if exists|i: int| 0 <= i < cookies.len() && meant_for((#[trigger] cookies[i]).domain, host) {
            let i = choose|i: int|
                0 <= i < cookies.len() && meant_for((#[trigger] cookies[i]).domain, host);
            if i < n {
                assert(front[i] == cookies[i]);
            }
        }
    }
}

/// A cookie that is not meant for the host plays no part in the header.
pub proof fn law_foreign_cookies_stay_home(cookies: Seq<CookieView>, host: Seq<char>, i: int)
    requires
        0 <= i < cookies.len(),
        !meant_for(cookies[i].domain, host),
    ensures
        header(cookies.remove(i), host) == header(cookies, host),
{
    lemma_foreign(cookies, host, i);
}

proof fn lemma_foreign(cookies: Seq<CookieView>, host: Seq<char>, i: int)
    requires
        0 <= i < cookies.len(),
        !meant_for(cookies[i].domain, host),
    ensures
        crumbs(cookies.remove(i), host) == crumbs(cookies, host),
    decreases cookies.len(),
{
    let front = cookies.drop_last();
    if i == cookies.len() - 1 {
        assert(cookies.remove(i) =~= front);
    } else {
        assert(front[i] == cookies[i]);
        lemma_foreign(front, host, i);
        let r = cookies.remove(i);
        assert(r.drop_last() =~= front.remove(i));
        assert(r.last() == cookies.last());
    }
}

/// Whatever stands before them, these words make the name of a parameter a
/// secret's, in whatever case.
pub proof fn law_secrets_are_known(key: Seq<char>)
    ensures
        ends_with(lower(key), "token"@) ==> secret(key),
        ends_with(lower(key), "auth"@) ==> secret(key),
        ends_with(lower(key), "key"@) ==> secret(key),
        ends_with(lower(key), "sig"@) ==> secret(key),
        ends_with(lower(key), "signature"@) ==> secret(key),
        ends_with(lower(key), "password"@) ==> secret(key),
        ends_with(lower(key), "passwd"@) ==> secret(key),
        ends_with(lower(key), "secret"@) ==> secret(key),
        ends_with(lower(key), "session"@) ==> secret(key),
        ends_with(lower(key), "sid"@) ==> secret(key),
        ends_with(lower(key), "credential"@) ==> secret(key),
        ends_with(lower(key), "hmac"@) ==> secret(key),
        ends_with(lower(key), "access_token"@) ==> secret(key),
        ends_with(lower(key), "api_key"@) ==> secret(key),
        ends_with(lower(key), "apikey"@) ==> secret(key),
        ends_with(lower(key), "upsig"@) ==> secret(key),
{
}

/// The value of a secret parameter cannot be told from the redacted URL: two URLs
/// that differ in it alone are redacted alike, and the mask stands where it was.
pub proof fn law_secret_value_cannot_be_told(
    base: Seq<char>,
    name: Seq<char>,
    a: Seq<char>,
    b: Seq<char>,
)
    requires
        !base.contains('?'),
        !name.contains('=') && !name.contains('&') && !a.contains('&') && !b.contains('&'),
        ({
            ||| ends_with(lower(name), "token"@)
            ||| ends_with(lower(name), "auth"@)
            ||| ends_with(lower(name), "key"@)
            ||| ends_with(lower(name), "sig"@)
            ||| ends_with(lower(name), "signature"@)
            ||| ends_with(lower(name), "password"@)
            ||| ends_with(lower(name), "passwd"@)
            ||| ends_with(lower(name), "secret"@)
            ||| ends_with(lower(name), "session"@)
            ||| ends_with(lower(name), "sid"@)
            ||| ends_with(lower(name), "credential"@)
            ||| ends_with(lower(name), "hmac"@)
            ||| ends_with(lower(name), "access_token"@)
            ||| ends_with(lower(name), "api_key"@)
            ||| ends_with(lower(name), "apikey"@)
            ||| ends_with(lower(name), "upsig"@)
        }),
    ensures
        redacted(base + "?"@ + name + "="@ + a) == base + "?"@ + name + "=<已遮蔽>"@,
        redacted(base + "?"@ + name + "="@ + a) == redacted(base + "?"@ + name + "="@ + b),
{
    lemma_one_param(base, name, a);
    lemma_one_param(base, name, b);
    assert(base + "?"@ + (name + "=<已遮蔽>"@) =~= base + "?"@ + name + "=<已遮蔽>"@);
}

#[verifier::rlimit(40)]
proof fn lemma_one_param(base: Seq<char>, name: Seq<char>, v: Seq<char>)
    requires
        !base.contains('?'),
        !name.contains('=') && !name.contains('&') && !v.contains('&'),
    ensures
        redacted(base + "?"@ + name + "="@ + v) == base + "?"@ + masked(name + "="@ + v),
        param_name(name + "="@ + v) == name,
{
    reveal_strlit("?");
    reveal_strlit("=");
    reveal_strlit("&");
    let kv = name + "="@ + v;
    let url = base + "?"@ + name + "="@ + v;
    assert(url =~= base + "?"@ + kv);
    let q = Class::Is('?');
    assert forall|j: int| 0 <= j < base.len() implies q.has(#[trigger] url[j]) != true by {
        assert(base.contains(base[j]));
    }
    crate::text::lemma_first_is(url, q, true, base.len() as int);
    assert(url.skip(base.len() as int + 1) =~= kv);
    assert(url.take(base.len() as int) =~= base);
    let k = Class::Is('&');
    assert forall|j: int| 0 <= j < kv.len() implies k.has(#[trigger] kv[j]) != true by {
        if j < name.len() {
            assert(name.contains(name[j]));
        } else if j > name.len() {
            assert(v.contains(v[j - name.len() - 1]));
        }
    }
    crate::text::lemma_first_is(kv, k, true, kv.len() as int);
    assert(params(kv) =~= seq![kv]);
    assert(all_masked(seq![kv]) =~= seq![masked(kv)]);
    assert(joined(seq![masked(kv)], "&"@) == masked(kv));
    let e = Class::Is('=');
    assert forall|j: int| 0 <= j < name.len() implies e.has(#[trigger] kv[j]) != true by {
        assert(name.contains(name[j]));
    }
    crate::text::lemma_first_is(kv, e, true, name.len() as int);
    assert(kv.take(name.len() as int) =~= name);
}

/// A parameter whose name sounds like none of the known words is left as it is.
pub proof fn law_other_values_stay(base: Seq<char>, name: Seq<char>, v: Seq<char>)
    requires
        !base.contains('?'),
        !name.contains('=') && !name.contains('&') && !v.contains('&'),
        !({
            ||| ends_with(lower(name), "token"@)
            ||| ends_with(lower(name), "auth"@)
            ||| ends_with(lower(name), "key"@)
            ||| ends_with(lower(name), "sig"@)
            ||| ends_with(lower(name), "signature"@)
            ||| ends_with(lower(name), "password"@)
            ||| ends_with(lower(name), "passwd"@)
            ||| ends_with(lower(name), "secret"@)
            ||| ends_with(lower(name), "session"@)
            ||| ends_with(lower(name), "sid"@)
            ||| ends_with(lower(name), "credential"@)
            ||| ends_with(lower(name), "hmac"@)
            ||| ends_with(lower(name), "access_token"@)
            ||| ends_with(lower(name), "api_key"@)
            ||| ends_with(lower(name), "apikey"@)
            ||| ends_with(lower(name), "upsig"@)
        }),
    ensures
        redacted(base + "?"@ + name + "="@ + v) == base + "?"@ + name + "="@ + v,
{
    lemma_one_param(base, name, v);
    assert(base + "?"@ + (name + "="@ + v) =~= base + "?"@ + name + "="@ + v);
}

/// A cookie is meant for its own domain and for every host below it, whatever the
/// case and whatever dots stand in front; a host that only ends alike is another.
pub proof fn law_domains_cover_their_hosts(d: Seq<char>, sub: Seq<char>, host: Seq<char>)
    requires
        d.len() > 0,
        d[0] != '.',
    ensures
        lower(host) == lower(d) ==> meant_for(d, host) && meant_for("."@ + d, host),
        lower(host) == sub + "."@ + lower(d) ==> meant_for(d, host) && meant_for("."@ + d, host),
        meant_for(d, host) ==> ends_with(lower(host), lower(d)),
        lower(host) == sub + lower(d) && sub.len() > 0 && sub.last() != '.' ==> !meant_for(d, host)
            && !meant_for("."@ + d, host),
{
    reveal_strlit(".");
    let k = Class::Is('.');
    crate::text::lemma_first_is(d, k, false, 0);
    assert(d.skip(0) =~= d);
    let p = "."@ + d;
    assert(p[0] == '.' && p[1] == d[0]);
    crate::text::lemma_first_is(p, k, false, 1);
    assert(p.skip(1) =~= d);
    let h = lower(host);
    let l = lower(d);
    assert(h.skip(0) =~= h);
    if h == sub + "."@ + l {
        assert(h.skip(h.len() - ("."@ + l).len()) =~= "."@ + l);
    }
    if under(h, l) && h != l {
        let t = h.skip(h.len() - ("."@ + l).len());
        assert(h.skip(h.len() - l.len()) =~= t.skip(1));
        assert(("."@ + l).skip(1) =~= l);
        if h == sub + l && sub.len() > 0 {
            assert(t[0] == '.');
            assert(t[0] == h[sub.len() - 1]);
        }
    }
    if h == sub + l && sub.len() > 0 {
        assert(h.len() != l.len());
    }
}

/// A row of a cookie file is read field by field: the domain, the path, whether it
/// needs a secure connection, when it expires, its name and its value.
#[verifier::rlimit(40)]
pub proof fn law_row_is_read(f: Seq<Seq<char>>)
    requires
        f.len() == 7,
        forall|i: int| 0 <= i < 7 ==> !(#[trigger] f[i]).contains('\t'),
        f[0].len() > 0,
        f[0][0] != '#',
        !white(f[0][0]),
    ensures
        row(joined(f, seq!['\t'])) matches Some(c) && c.domain == f[0] && c.path == f[2] && c.name
            == f[5] && c.value == f[6] && (c.secure <==> lower(f[3]) == "true"@) && !c.http_only && (
        f[4] == "0"@ ==> c.expires is None),
        row("#HttpOnly_"@ + joined(f, seq!['\t'])) matches Some(c) && c.domain == f[0] && c.name
            == f[5] && c.value == f[6] && c.http_only,
{
    let l = joined(f, seq!['\t']);
    let mark = "#HttpOnly_"@;
    reveal_strlit("#HttpOnly_");
    reveal_strlit("0");
    crate::text::law_split_undoes_join(f, '\t');
    assert(l == f[0] + seq!['\t'] + joined(f.skip(1), seq!['\t']));
    assert(l[0] == f[0][0]);
    if starts_with(l, mark) {
        assert(l.take(10)[0] == mark[0]);
    }
    crate::text::lemma_first_is(l, Class::Space, false, 0);
    assert(l.skip(0) =~= l);
    crate::text::lemma_after_last(l, Class::Space, false);
    if after_last(l, Class::Space, false) == 0 {
        assert(white(l[0]));
    }
    let m = mark + l;
    assert(m.take(10) =~= mark);
    assert(m.skip(10) =~= l);
    if f[4] == "0"@ {
        assert("0"@ =~= decimal(0));
        crate::number::law_decimal_reads_back(0, u64::MAX as nat);
    }
}

/// A comment is no cookie, and neither is a blank line.
pub proof fn law_comments_are_no_cookies(line: Seq<char>)
    requires
        line.len() == 0 || (line[0] == '#' && !starts_with(line, "#HttpOnly_"@)),
    ensures
        row(line) is None,
{
    if line.len() == 0 {
        reveal_strlit("#HttpOnly_");
        assert(trimmed(line).len() == 0);
    }
}

/// The header holds a name and a value for each cookie of the host, in their order.
pub proof fn law_header_holds_the_cookies(cookies: Seq<CookieView>, c: CookieView, host: Seq<char>)
    requires
        meant_for(c.domain, host),
    ensures
        header(seq![c], host) == Some(c.name + "="@ + c.value),
        header(cookies, host) matches Some(h) ==> header(cookies.push(c), host) == Some(
            h + "; "@ + c.name + "="@ + c.value,
        ),
{
    assert(seq![c].drop_last() =~= seq![]);
    let one = c.name + "="@ + c.value;
    assert(crumbs(seq![c].drop_last(), host) =~= seq![]);
    assert(seq![c].last() == c);
    assert(crumbs(seq![c], host) =~= seq![one]);
    assert(cookies.push(c).drop_last() =~= cookies);
    let a = crumbs(cookies, host);
    assert(crumbs(cookies.push(c), host) =~= a.push(one));
    if a.len() > 0 {
        crate::text::lemma_joined_push(a, "; "@, one);
        assert(joined(a.push(one), "; "@) =~= joined(a, "; "@) + "; "@ + c.name + "="@ + c.value);
    }
}

/// The browsers whose session can be used, in whatever case, with a profile or a
/// keyring behind the name or without.
#[verifier::rlimit(40)]
pub proof fn law_known_browsers(name: Seq<char>, rest: Seq<char>)
    requires
        !name.contains(':') && !name.contains('+'),
    ensures
        lower(name) == "brave"@ ==> supported(name),
        lower(name) == "chrome"@ ==> supported(name),
        lower(name) == "chromium"@ ==> supported(name),
        lower(name) == "edge"@ ==> supported(name),
        lower(name) == "firefox"@ ==> supported(name),
        lower(name) == "opera"@ ==> supported(name),
        lower(name) == "safari"@ ==> supported(name),
        lower(name) == "vivaldi"@ ==> supported(name),
        lower(name) == "whale"@ ==> supported(name),
        supported(name + ":"@ + rest) == supported(name),
        supported(name + "+"@ + rest) == supported(name),
        supported(name) ==> name.len() >= 4,
{
    let k = Class::Either(':', '+');
    reveal_strlit(":");
    reveal_strlit("+");
    assert forall|j: int| 0 <= j < name.len() implies k.has(#[trigger] name[j]) != true by {
        assert(name.contains(name[j]));
    }
    crate::text::lemma_first_is(name, k, true, name.len() as int);
    assert(name.take(name.len() as int) =~= name);
    let a = name + ":"@ + rest;
    let b = name + "+"@ + rest;
    assert forall|j: int| 0 <= j < name.len() implies k.has(#[trigger] a[j]) != true && k.has(b[j])
        != true by {
        assert(name.contains(name[j]));
    }
    assert forall|j: int| 0 <= j < name.len() implies k.has(#[trigger] b[j]) != true by {
        assert(name.contains(name[j]));
    }
    crate::text::lemma_first_is(a, k, true, name.len() as int);
    crate::text::lemma_first_is(b, k, true, name.len() as int);
    assert(a.take(name.len() as int) =~= name);
    assert(b.take(name.len() as int) =~= name);
    let v = browser_names();
    assert(v[0] == "brave"@);
    reveal_strlit("brave");
    assert(v[1] == "chrome"@);
    reveal_strlit("chrome");
    assert(v[2] == "chromium"@);
    reveal_strlit("chromium");
    assert(v[3] == "edge"@);
    reveal_strlit("edge");
    assert(v[4] == "firefox"@);
    reveal_strlit("firefox");
    assert(v[5] == "opera"@);
    reveal_strlit("opera");
    assert(v[6] == "safari"@);
    reveal_strlit("safari");
    assert(v[7] == "vivaldi"@);
    reveal_strlit("vivaldi");
    assert(v[8] == "whale"@);
    reveal_strlit("whale");
    if v.contains(lower(name)) {
        let i = v.index_of(lower(name));
        assert(v[i] == lower(name));
        assert(v[i].len() >= 4);
    }
}

/// An export reads the named browser, writes to the given file, and downloads
/// nothing.
pub proof fn law_export_downloads_nothing(browser: Seq<char>, dest: Seq<char>, url: Seq<char>)
    ensures
        followed(export_line(browser, dest, url), "--cookies-from-browser"@, browser),
        followed(export_line(browser, dest, url), "--cookies"@, dest),
        export_line(browser, dest, url).contains("--simulate"@),
        export_line(browser, dest, url).contains("--skip-download"@),
        export_line(browser, dest, url).last() == url,
{
    let e = export_line(browser, dest, url);
    assert(e[2] == "--simulate"@ && e[3] == "--skip-download"@);
    assert(e[4] == "--cookies-from-browser"@ && e[5] == browser);
    assert(e[6] == "--cookies"@ && e[7] == dest);
}

/// A browser that is not known is refused by name, with the names of those that are.
pub proof fn law_unknown_browsers_are_told(name: Seq<char>)
    ensures
        unknown_browser(name) == "不認得的瀏覽器："@ + name + "（支援 "@ + joined(
            browser_names(),
            "、"@,
        ) + "）"@,
        browser_names() == seq![
            "brave"@,
            "chrome"@,
            "chromium"@,
            "edge"@,
            "firefox"@,
            "opera"@,
            "safari"@,
            "vivaldi"@,
            "whale"@,
        ],
        export_line(name, name, name).contains("--no-warnings"@),
{
    let e = export_line(name, name, name);
    assert(e.contains("--no-warnings"@)) by {
        assert(e[0] == "--no-warnings"@ || e[1] == "--no-warnings"@);
    }
}

/// What a cookie is taken to say is what it holds.
pub proof fn law_said_of_cookie(x: Cookie)
    ensures
        x@.domain == x.domain@,
        x@.path == x.path@,
        x@.secure == x.secure,
        x@.http_only == x.http_only,
        x@.expires == x.expires,
        x@.name == x.name@,
        x@.value == x.value@,
{
}

/// What a list of cookies says is what its cookies say.
pub proof fn law_said_of_cookies(v: Seq<Cookie>, i: int)
    ensures
        cookie_views(v).len() == v.len(),
        0 <= i < v.len() ==> cookie_views(v)[i] == v[i]@,
{
}

/// No other name than one that ends in these words is a secret's, and no other browser
/// is known.
pub proof fn law_nothing_else_is_secret(key: Seq<char>, name: Seq<char>)
    ensures
        secret(key) ==> {
            ||| ends_with(lower(key), "token"@)
            ||| ends_with(lower(key), "access_token"@)
            ||| ends_with(lower(key), "auth"@)
            ||| ends_with(lower(key), "key"@)
            ||| ends_with(lower(key), "sig"@)
            ||| ends_with(lower(key), "signature"@)
            ||| ends_with(lower(key), "password"@)
            ||| ends_with(lower(key), "passwd"@)
            ||| ends_with(lower(key), "secret"@)
            ||| ends_with(lower(key), "session"@)
            ||| ends_with(lower(key), "sid"@)
            ||| ends_with(lower(key), "api_key"@)
            ||| ends_with(lower(key), "apikey"@)
            ||| ends_with(lower(key), "credential"@)
            ||| ends_with(lower(key), "upsig"@)
            ||| ends_with(lower(key), "hmac"@)
        },
        supported(name) ==> {
            let n = lower(name.take(first(name, Class::Either(':', '+'), true)));
            ||| n == "brave"@
            ||| n == "chrome"@
            ||| n == "chromium"@
            ||| n == "edge"@
            ||| n == "firefox"@
            ||| n == "opera"@
            ||| n == "safari"@
            ||| n == "vivaldi"@
            ||| n == "whale"@
        },
{
    if supported(name) {
        let v = browser_names();
        let n = lower(name.take(first(name, Class::Either(':', '+'), true)));
        let i = v.index_of(n);
        assert(v[i] == n);
    }
}

/// A row may lack its last field, and then the value is empty; one that lacks more is no
/// cookie. The time is in seconds, zero for none.
#[verifier::rlimit(40)]
pub proof fn law_short_rows_are_read(f: Seq<Seq<char>>, n: u64)
    requires
        1 <= f.len() <= 6,
        forall|i: int| 0 <= i < f.len() ==> !(#[trigger] f[i]).contains('\t'),
        f[0].len() > 0,
        f[0][0] != '#',
        !white(f[0][0]),
    ensures
        f.len() == 6 ==> (row(joined(f, seq!['\t'])) matches Some(c) && c.domain == f[0] && c.path == f[2]
            && c.name == f[5] && c.value == ""@ && (f[4] == decimal(n as nat) && n > 0 ==> c.expires
            == Some(n))),
        f.len() < 6 ==> row(joined(f, seq!['\t'])) is None,
{
    let l = joined(f, seq!['\t']);
    reveal_strlit("#HttpOnly_");
    crate::text::law_split_undoes_join(f, '\t');
    if f.len() > 1 {
        assert(l == f[0] + seq!['\t'] + joined(f.skip(1), seq!['\t']));
    }
    assert(l[0] == f[0][0]);
    if starts_with(l, "#HttpOnly_"@) {
        assert(l.take(10)[0] == "#HttpOnly_"@[0]);
    }
    crate::text::lemma_first_is(l, Class::Space, false, 0);
    assert(l.skip(0) =~= l);
    crate::text::lemma_after_last(l, Class::Space, false);
    if after_last(l, Class::Space, false) == 0 {
        assert(white(l[0]));
    }
    crate::number::law_decimal_reads_back(n as nat, u64::MAX as nat);
}

/// Nothing comes of nothing.
pub proof fn law_no_rows_give_no_cookies(host: Seq<char>)
    ensures
        rows(seq![]).len() == 0,
        crumbs(seq![], host).len() == 0,
        header(seq![], host) is None,
{
}

} // verus!
