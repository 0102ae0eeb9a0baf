use crate::envmap::{pairs_view, EnvMap};
use crate::errors::{spec_message, Error};
use crate::importer::{import_curl_command, ImportOptions, ImportResult};
use crate::parser::{http_method_chars, is_http_method};
use crate::placeholder::{expand_placeholders_chars, spec_expand};
use crate::strkit::{
    chars_of, concat_chars, find_char, first_idx, join_chars, lemma_first_idx_from, replace_all,
    spec_join, spec_lines, spec_replace_all, spec_starts_with, spec_tokens, spec_trim, spec_upper,
    split_lines, split_tokens, starts_with_chars, string_from_chars, sub_chars, trim_chars,
    upper_chars, views_of,
};
use crate::template::{render_export_template, spec_render_js_fetch};
use vstd::prelude::*;

verus! {

/// A failure of the web-facing operations, as one message.
#[derive(Debug)]
pub enum WebProcessError {
    Message(String),
}

impl View for WebProcessError {
    type V = Seq<char>;

    open spec fn view(&self) -> Seq<char> {
        match self {
            WebProcessError::Message(m) => m@,
        }
    }
}

impl WebProcessError {
    /// The text of the failure.
    pub fn message(&self) -> (r: String)
        ensures
            r@ == self@,
    {
        match self {
            WebProcessError::Message(m) => m.clone(),
        }
    }
}

/// One header of a processed request.
#[derive(Debug)]
pub struct WebHeader {
    pub name: String,
    pub value: String,
}

/// A processed request: method, URL, headers, optional text body.
#[derive(Debug)]
pub struct WebRequest {
    pub method: String,
    pub url: String,
    pub headers: Vec<WebHeader>,
    pub body: Option<String>,
}

/// One substituted placeholder: its key and the value used.
#[derive(Debug)]
pub struct WebInterpolationDetail {
    pub key: String,
    pub value: String,
}

/// A processed request with the placeholders that fed it.
#[derive(Debug)]
pub struct WebProcessedRequest {
    pub request: WebRequest,
    pub interpolation: Vec<WebInterpolationDetail>,
}

/// The headers as pairs of character sequences.
pub open spec fn web_headers_view(hs: Seq<WebHeader>) -> Seq<(Seq<char>, Seq<char>)> {
    hs.map_values(|h: WebHeader| (h.name@, h.value@))
}

/// The interpolation details as pairs of character sequences.
pub open spec fn details_view(ds: Seq<WebInterpolationDetail>) -> Seq<(Seq<char>, Seq<char>)> {
    ds.map_values(|d: WebInterpolationDetail| (d.key@, d.value@))
}

// ---------------------------------------------------------------------------
// Parsing pasted request text
// ---------------------------------------------------------------------------

/// Pasted text normalised: a literal backslash-n pair counts as a line
/// break, as text copied out of another tool often carries them.
pub open spec fn web_normalize(s: Seq<char>) -> Seq<char> {
    spec_replace_all(s, seq!['\\', 'n'], seq!['\n'])
}

/// The lines the web parser works on.
pub open spec fn web_lines(s: Seq<char>) -> Seq<Seq<char>> {
    spec_lines(web_normalize(s))
}

/// Find and read the request line: directives are refused here, a method
/// token must be followed by a URL, and anything else is a GET of the
/// whole line.
pub open spec fn web_request_line(
    lines: Seq<Seq<char>>,
    k: int,
    env: Map<Seq<char>, Seq<char>>,
    fb: Map<Seq<char>, Seq<char>>,
) -> Result<(int, Seq<char>, Seq<char>), Seq<char>>
    decreases lines.len() - k,
{
    if k < 0 || k >= lines.len() {
        Err("Missing request line"@)
    } else {
        let t = spec_trim(lines[k]);
        if t.len() == 0 || t[0] == '#' {
            web_request_line(lines, k + 1, env, fb)
        } else if spec_starts_with(t, "@env"@) {
            Err("@env directives are not supported in the web playground"@)
        } else if t[0] == '@' {
            Err("Directive '"@ + t + "' is not supported in the web playground"@)
        } else {
            match spec_expand(t, env, fb) {
                Err(e) => Err(spec_message(e)),
                Ok(x) => {
                    let toks = spec_tokens(x);
                    if toks.len() == 0 {
                        web_request_line(lines, k + 1, env, fb)
                    } else {
                        let upper = spec_upper(toks[0]);
                        if is_http_method(upper) {
                            if toks.len() < 2 {
                                Err("Missing request URL"@)
                            } else {
                                Ok((k + 1, upper, spec_join(toks.drop_first(), seq![' '])))
                            }
                        } else {
                            Ok((k + 1, "GET"@, x))
                        }
                    }
                },
            }
        }
    }
}

/// Read the header block; a directive is refused, a blank line ends it.
pub open spec fn web_headers(
    lines: Seq<Seq<char>>,
    k: int,
    env: Map<Seq<char>, Seq<char>>,
    fb: Map<Seq<char>, Seq<char>>,
) -> Result<(int, Seq<(Seq<char>, Seq<char>)>), Seq<char>>
    decreases lines.len() - k,
{
    if k < 0 || k >= lines.len() {
        Ok((k, Seq::empty()))
    } else {
        let t = spec_trim(lines[k]);
        if t.len() == 0 {
            Ok((k + 1, Seq::empty()))
        } else if t[0] == '#' {
            web_headers(lines, k + 1, env, fb)
        } else if t[0] == '@' {
            Err("Directive '"@ + t + "' is not supported in the web playground"@)
        } else {
            match spec_expand(t, env, fb) {
                Err(e) => Err(spec_message(e)),
                Ok(x) => {
                    let i = first_idx(x, ':');
                    if i >= x.len() {
                        Err("Invalid header line: "@ + t)
                    } else {
                        let name = spec_trim(x.take(i as int));
                        let value = spec_trim(x.skip(i as int + 1));
                        match web_headers(lines, k + 1, env, fb) {
                            Err(e) => Err(e),
                            Ok((k2, rest)) => Ok((k2, seq![(name, value)] + rest)),
                        }
                    }
                },
            }
        }
    }
}

/// The first line at or after `k` that is not blank once trimmed.
pub open spec fn web_skip_blanks(lines: Seq<Seq<char>>, k: int) -> int
    decreases lines.len() - k,
{
    if k < 0 || k >= lines.len() {
        k
    } else if spec_trim(lines[k]).len() == 0 {
        web_skip_blanks(lines, k + 1)
    } else {
        k
    }
}

/// Read the body: the remaining raw lines joined and expanded; a blank
/// remainder means no body.
pub open spec fn web_body(
    lines: Seq<Seq<char>>,
    k: int,
    env: Map<Seq<char>, Seq<char>>,
    fb: Map<Seq<char>, Seq<char>>,
) -> Result<Option<Seq<char>>, Seq<char>> {
    let k2 = web_skip_blanks(lines, k);
    if k2 >= lines.len() {
        Ok(None)
    } else {
        let raw = spec_join(lines.skip(k2), seq!['\n']);
        if spec_trim(raw).len() == 0 {
            Ok(None)
        } else {
            match spec_expand(raw, env, fb) {
                Err(e) => Err(spec_message(e)),
                Ok(x) => Ok(Some(x)),
            }
        }
    }
}

/// The whole web parse of pasted request text.
pub open spec fn spec_web_request(
    s: Seq<char>,
    env: Map<Seq<char>, Seq<char>>,
    fb: Map<Seq<char>, Seq<char>>,
) -> Result<
    (Seq<char>, Seq<char>, Seq<(Seq<char>, Seq<char>)>, Option<Seq<char>>),
    Seq<char>,
> {
    let lines = web_lines(s);
    match web_request_line(lines, 0, env, fb) {
        Err(e) => Err(e),
        Ok((k1, method, url)) => match web_headers(lines, k1, env, fb) {
            Err(e) => Err(e),
            Ok((k2, headers)) => match web_body(lines, k2, env, fb) {
                Err(e) => Err(e),
                Ok(body) => Ok((method, url, headers, body)),
            },
        },
    }
}

// ---------------------------------------------------------------------------
// Exec mirrors
// ---------------------------------------------------------------------------

fn message_of(e: Error) -> (r: WebProcessError)
    ensures
        r@ == spec_message(e@),
{
    WebProcessError::Message(e.message())
}

/// Executable mirror of [`web_request_line`].
pub fn parse_request_line(lines: &Vec<Vec<char>>, k: usize, env: &EnvMap, os_env: &EnvMap) -> (r:
    Result<(usize, String, String), WebProcessError>)
    requires
        env.wf(),
        os_env.wf(),
        k <= lines@.len(),
    ensures
        match r {
            Ok((k1, m, u)) => k1 <= lines@.len() && web_request_line(
                views_of(lines@),
                k as int,
                env@,
                os_env@,
            ) == Ok::<(int, Seq<char>, Seq<char>), Seq<char>>((k1 as int, m@, u@)),
            Err(e) => web_request_line(views_of(lines@), k as int, env@, os_env@) == Err::<
                (int, Seq<char>, Seq<char>),
                Seq<char>,
            >(e@),
        },
    decreases lines@.len() - k,
{
    if k >= lines.len() {
        return Err(WebProcessError::Message(String::from_str("Missing request line")));
    }
    let t = trim_chars(&lines[k]);
    if t.len() == 0 || t[0] == '#' {
        return parse_request_line(lines, k + 1, env, os_env);
    }
    let at_env = chars_of("@env");
    if starts_with_chars(&t, &at_env) {
        return Err(
            WebProcessError::Message(
                String::from_str("@env directives are not supported in the web playground"),
            ),
        );
    }
    if t[0] == '@' {
        let mut m = String::from_str("Directive '");
        let ts = string_from_chars(&t);
        m.append(ts.as_str());
        m.append("' is not supported in the web playground");
        return Err(WebProcessError::Message(m));
    }
    match expand_placeholders_chars(&t, env, os_env) {
        Err(e) => Err(message_of(e)),
        Ok(x) => {
            let toks = split_tokens(&x);
            if toks.len() == 0 {
                return parse_request_line(lines, k + 1, env, os_env);
            }
            let upper = upper_chars(&toks[0]);
            if http_method_chars(&upper) {
                if toks.len() < 2 {
                    return Err(WebProcessError::Message(String::from_str("Missing request URL")));
                }
                let rest = slice_from(&toks, 1);
                proof {
                    assert(views_of(rest@) =~= views_of(toks@).drop_first());
                }
                let mut sep: Vec<char> = Vec::new();
                sep.push(' ');
                proof {
                    assert(sep@ =~= seq![' ']);
                }
                let url = join_chars(&rest, &sep);
                Ok((k + 1, string_from_chars(&upper), string_from_chars(&url)))
            } else {
                Ok((k + 1, String::from_str("GET"), string_from_chars(&x)))
            }
        },
    }
}

/// Copies of the elements from `from` on.
fn slice_from(v: &Vec<Vec<char>>, from: usize) -> (r: Vec<Vec<char>>)
    requires
        from <= v@.len(),
    ensures
        views_of(r@) == views_of(v@).skip(from as int),
{
    let mut r: Vec<Vec<char>> = Vec::new();
    let mut i: usize = from;
    while i < v.len()
        invariant
            from <= i <= v@.len(),
            r@.len() == i - from,
            views_of(r@) == views_of(v@).subrange(from as int, i as int),
        decreases v@.len() - i,
    {
        let c = v[i].clone();
        let ghost gc = c@;
        r.push(c);
        i = i + 1;
        proof {
            assert(views_of(r@)[i - 1 - from] == gc);
            assert(views_of(r@) =~= views_of(v@).subrange(from as int, i as int));
        }
    }
    proof {
        assert(views_of(v@).subrange(from as int, v@.len() as int) =~= views_of(v@).skip(
            from as int,
        ));
    }
    r
}

/// Executable mirror of [`web_headers`].
pub fn parse_headers(lines: &Vec<Vec<char>>, k: usize, env: &EnvMap, os_env: &EnvMap) -> (r:
    Result<(usize, Vec<WebHeader>), WebProcessError>)
    requires
        env.wf(),
        os_env.wf(),
        k <= lines@.len(),
    ensures
        match r {
            Ok((k2, hs)) => k2 <= lines@.len() && web_headers(
                views_of(lines@),
                k as int,
                env@,
                os_env@,
            ) == Ok::<(int, Seq<(Seq<char>, Seq<char>)>), Seq<char>>(
                (k2 as int, web_headers_view(hs@)),
            ),
            Err(e) => web_headers(views_of(lines@), k as int, env@, os_env@) == Err::<
                (int, Seq<(Seq<char>, Seq<char>)>),
                Seq<char>,
            >(e@),
        },
    decreases lines@.len() - k,
{
    if k >= lines.len() {
        let hs: Vec<WebHeader> = Vec::new();
        proof {
            assert(web_headers_view(hs@) =~= Seq::<(Seq<char>, Seq<char>)>::empty());
        }
        return Ok((k, hs));
    }
    let t = trim_chars(&lines[k]);
    if t.len() == 0 {
        let hs: Vec<WebHeader> = Vec::new();
        proof {
            assert(web_headers_view(hs@) =~= Seq::<(Seq<char>, Seq<char>)>::empty());
        }
        return Ok((k + 1, hs));
    }
    if t[0] == '#' {
        return parse_headers(lines, k + 1, env, os_env);
    }
    if t[0] == '@' {
        let mut m = String::from_str("Directive '");
        let ts = string_from_chars(&t);
        m.append(ts.as_str());
        m.append("' is not supported in the web playground");
        return Err(WebProcessError::Message(m));
    }
    match expand_placeholders_chars(&t, env, os_env) {
        Err(e) => Err(message_of(e)),
        Ok(x) => {
            match find_char(&x, ':', 0) {
                None => {
                    proof {
                        lemma_first_idx_from(x@, ':', x@.len() as int);
                    }
                    let mut m = String::from_str("Invalid header line: ");
                    let ts = string_from_chars(&t);
                    m.append(ts.as_str());
                    Err(WebProcessError::Message(m))
                },
                Some(i) => {
                    proof {
                        lemma_first_idx_from(x@, ':', i as int);
                    }
                    let n = x.len();
                    let name_raw = sub_chars(&x, 0, i);
                    let value_raw = sub_chars(&x, i + 1, n);
                    let name = trim_chars(&name_raw);
                    let value = trim_chars(&value_raw);
                    let ghost gname = name@;
                    let ghost gvalue = value@;
                    match parse_headers(lines, k + 1, env, os_env) {
                        Err(e) => Err(e),
                        Ok((k2, mut hs)) => {
                            let ghost oldhs = web_headers_view(hs@);
                            let h = WebHeader {
                                name: string_from_chars(&name),
                                value: string_from_chars(&value),
                            };
                            hs.insert(0, h);
                            proof {
                                assert(web_headers_view(hs@) =~= seq![(gname, gvalue)] + oldhs);
                            }
                            Ok((k2, hs))
                        },
                    }
                },
            }
        },
    }
}

/// Executable mirror of [`web_skip_blanks`].
fn skip_blanks(lines: &Vec<Vec<char>>, k: usize) -> (r: usize)
    requires
        k <= lines@.len(),
    ensures
        r == web_skip_blanks(views_of(lines@), k as int),
        k <= r <= lines@.len(),
    decreases lines@.len() - k,
{
    if k >= lines.len() {
        return k;
    }
    let t = trim_chars(&lines[k]);
    if t.len() == 0 {
        skip_blanks(lines, k + 1)
    } else {
        k
    }
}

/// Executable mirror of [`web_body`].
pub fn parse_body(lines: &Vec<Vec<char>>, k: usize, env: &EnvMap, os_env: &EnvMap) -> (r: Result<
    Option<String>,
    WebProcessError,
>)
    requires
        env.wf(),
        os_env.wf(),
        k <= lines@.len(),
    ensures
        match r {
            Ok(b) => web_body(views_of(lines@), k as int, env@, os_env@) == Ok::<
                Option<Seq<char>>,
                Seq<char>,
            >(
                match b {
                    Some(t) => Some(t@),
                    None => None,
                },
            ),
            Err(e) => web_body(views_of(lines@), k as int, env@, os_env@) == Err::<
                Option<Seq<char>>,
                Seq<char>,
            >(e@),
        },
{
    let k2 = skip_blanks(lines, k);
    if k2 >= lines.len() {
        return Ok(None);
    }
    let remaining = slice_from(lines, k2);
    let mut sep: Vec<char> = Vec::new();
    sep.push('\n');
    proof {
        assert(sep@ =~= seq!['\n']);
    }
    let raw = join_chars(&remaining, &sep);
    let trimmed = trim_chars(&raw);
    if trimmed.len() == 0 {
        return Ok(None);
    }
    match expand_placeholders_chars(&raw, env, os_env) {
        Err(e) => Err(message_of(e)),
        Ok(x) => Ok(Some(string_from_chars(&x))),
    }
}

/// Parse pasted request text, as [`spec_web_request`] defines it.
pub fn parse_request(curl: &str, env: &EnvMap, os_env: &EnvMap) -> (r: Result<
    WebRequest,
    WebProcessError,
>)
    requires
        env.wf(),
        os_env.wf(),
    ensures
        match r {
            Ok(wr) => spec_web_request(curl@, env@, os_env@) matches Ok(parts) && parts.0
                == wr.method@ && parts.1 == wr.url@ && parts.2 == web_headers_view(wr.headers@)
                && parts.3 == (match wr.body {
                Some(b) => Some(b@),
                None => None,
            }),
            Err(e) => spec_web_request(curl@, env@, os_env@) == Err::<
                (Seq<char>, Seq<char>, Seq<(Seq<char>, Seq<char>)>, Option<Seq<char>>),
                Seq<char>,
            >(e@),
        },
{
    let cv = chars_of(curl);
    let bs_n = chars_of("\\n");
    let nl = chars_of("\n");
    proof {
        reveal_strlit("\\n");
        reveal_strlit("\n");
        assert(bs_n@ =~= seq!['\\', 'n']);
        assert(nl@ =~= seq!['\n']);
    }
    let normalized = replace_all(&cv, &bs_n, &nl);
    let lines = split_lines(&normalized);
    proof {
        assert(views_of(lines@) == web_lines(curl@));
    }
    match parse_request_line(&lines, 0, env, os_env) {
        Err(e) => Err(e),
        Ok((k1, method, url)) => match parse_headers(&lines, k1, env, os_env) {
            Err(e) => Err(e),
            Ok((k2, headers)) => match parse_body(&lines, k2, env, os_env) {
                Err(e) => Err(e),
                Ok(body) => Ok(WebRequest { method, url, headers, body }),
            },
        },
    }
}

// ---------------------------------------------------------------------------
// Interpolation details
// ---------------------------------------------------------------------------

/// A character that may open an interpolation key.
pub open spec fn interp_start(c: char) -> bool {
    ('A' <= c && c <= 'Z') || c == '_'
}

/// A character allowed after the first one of an interpolation key.
pub open spec fn interp_key_char(c: char) -> bool {
    ('A' <= c && c <= 'Z') || ('0' <= c && c <= '9') || c == '_' || c == '-' || c == '.'
}

/// Length of the leading run of interpolation key characters.
pub open spec fn interp_run(s: Seq<char>) -> nat
    decreases s.len(),
{
    if s.len() > 0 && interp_key_char(s[0]) {
        1 + interp_run(s.drop_first())
    } else {
        0
    }
}

proof fn lemma_interp_run(s: Seq<char>)
    ensures
        interp_run(s) <= s.len(),
        forall|j: int| 0 <= j < interp_run(s) ==> interp_key_char(s[j]),
        interp_run(s) < s.len() ==> !interp_key_char(s[interp_run(s) as int]),
    decreases s.len(),
{
    if s.len() > 0 && interp_key_char(s[0]) {
        lemma_interp_run(s.drop_first());
        assert forall|j: int| 0 <= j < interp_run(s) implies interp_key_char(s[j]) by {
            if j > 0 {
                assert(s[j] == s.drop_first()[j - 1]);
            }
        }
        if interp_run(s) < s.len() {
            assert(s[interp_run(s) as int] == s.drop_first()[interp_run(s.drop_first()) as int]);
        }
    }
}

proof fn lemma_interp_run_from(s: Seq<char>, w: int)
    requires
        0 <= w <= s.len(),
        forall|j: int| 0 <= j < w ==> interp_key_char(s[j]),
        w < s.len() ==> !interp_key_char(s[w]),
    ensures
        interp_run(s) == w,
    decreases s.len(),
{
    if w > 0 {
        lemma_interp_run_from(s.drop_first(), w - 1);
    }
}

/// The interpolation details of a text: each first occurrence of an
/// upper-case `{KEY}` placeholder whose key the environment binds, with
/// its value, scanning once from the left without overlaps.
pub open spec fn spec_collect_interpolation(
    s: Seq<char>,
    env: Map<Seq<char>, Seq<char>>,
    seen: Set<Seq<char>>,
) -> Seq<(Seq<char>, Seq<char>)>
    decreases s.len(),
{
    if s.len() == 0 {
        Seq::empty()
    } else if s[0] == '{' && s.len() >= 2 && interp_start(s[1]) {
        let r = interp_run(s.skip(2));
        let close = 2 + r;
        if close < s.len() && s[close as int] == '}' {
            let key = s.subrange(1, close as int);
            let rest = spec_collect_interpolation(s.skip(close as int + 1), env, seen.insert(key));
            if !seen.contains(key) && env.contains_key(key) {
                seq![(key, env[key])] + rest
            } else {
                rest
            }
        } else {
            spec_collect_interpolation(s.drop_first(), env, seen)
        }
    } else {
        spec_collect_interpolation(s.drop_first(), env, seen)
    }
}

fn is_interp_key_char(c: char) -> (r: bool)
    ensures
        r == interp_key_char(c),
{
    ('A' <= c && c <= 'Z') || ('0' <= c && c <= '9') || c == '_' || c == '-' || c == '.'
}

fn interp_run_exec(v: &Vec<char>, from: usize) -> (r: usize)
    requires
        from <= v@.len(),
    ensures
        r as int == interp_run(v@.skip(from as int)),
        from + r <= v@.len(),
{
    let mut i: usize = from;
    while i < v.len() && is_interp_key_char(v[i])
        invariant
            from <= i <= v@.len(),
            forall|j: int| from <= j < i ==> interp_key_char(v@[j]),
        decreases v@.len() - i,
    {
        i = i + 1;
    }
    proof {
        assert forall|j: int| 0 <= j < i - from implies interp_key_char(
            v@.skip(from as int)[j],
        ) by {
            assert(v@.skip(from as int)[j] == v@[from + j]);
        }
        if i < v@.len() {
            assert(v@.skip(from as int)[i - from] == v@[i as int]);
        }
        lemma_interp_run_from(v@.skip(from as int), i - from);
    }
    i - from
}

fn collect_interp_chars(
    v: &Vec<char>,
    from: usize,
    env: &EnvMap,
    seen: &mut Vec<String>,
    out: &mut Vec<WebInterpolationDetail>,
)
    requires
        env.wf(),
        from <= v@.len(),
    ensures
        details_view(final(out)@) == details_view(old(out)@) + spec_collect_interpolation(
            v@.skip(from as int),
            env@,
            crate::headers::set_of_lowers(crate::envfile::strs_view(old(seen)@)),
        ),
    decreases v@.len() - from,
{
    let ghost gseen = crate::headers::set_of_lowers(crate::envfile::strs_view(seen@));
    let ghost s = v@.skip(from as int);
    if from >= v.len() {
        proof {
            assert(s.len() == 0);
            assert(details_view(out@) =~= details_view(out@) + spec_collect_interpolation(
                s,
                env@,
                gseen,
            ));
        }
        return ;
    }
    proof {
        assert(s[0] == v@[from as int]);
    }
    let c0 = v[from];
    if c0 == '{' && from + 1 < v.len() && {
        let c1 = v[from + 1];
        ('A' <= c1 && c1 <= 'Z') || c1 == '_'
    } {
        proof {
            assert(s.len() >= 2);
            assert(s[1] == v@[from + 1]);
            assert(s.skip(2) =~= v@.skip(from as int + 2));
        }
        let r = interp_run_exec(v, from + 2);
        let close = from + 2 + r;
        proof {
            assert(close - from == 2 + interp_run(s.skip(2)));
            if close < v@.len() {
                assert(s[close - from] == v@[close as int]);
            }
        }
        if close < v.len() && v[close] == '}' {
            let key = sub_chars(v, from + 1, close);
            proof {
                assert(key@ =~= s.subrange(1, close - from));
            }
            let key_s = string_from_chars(&key);
            let in_seen = seen_contains(seen, &key);
            let ghost oldseen = crate::envfile::strs_view(seen@);
            if !in_seen {
                seen.push(key_s.clone());
                proof {
                    assert(crate::envfile::strs_view(seen@) =~= oldseen.push(key@));
                    assert(crate::headers::set_of_lowers(crate::envfile::strs_view(seen@))
                        =~= gseen.insert(key@)) by {
                        let ns = crate::envfile::strs_view(seen@);
                        assert forall|n: Seq<char>| crate::headers::set_of_lowers(ns).contains(
                            n,
                        ) implies gseen.insert(key@).contains(n) by {
                            let w = choose|w: int| 0 <= w < ns.len() && ns[w] == n;
                            if w < oldseen.len() {
                                assert(oldseen[w] == n);
                            }
                        }
                        assert forall|n: Seq<char>| gseen.insert(key@).contains(n) implies
                            crate::headers::set_of_lowers(ns).contains(n) by {
                            if n == key@ {
                                assert(ns[ns.len() - 1] == n);
                            } else {
                                let w = choose|w: int|
                                    0 <= w < oldseen.len() && oldseen[w] == n;
                                assert(ns[w] == n);
                            }
                        }
                    }
                }
                match env.get(key_s.as_str()) {
                    Some(value) => {
                        let ghost oldout = details_view(out@);
                        let d = WebInterpolationDetail { key: key_s, value: value.clone() };
                        out.push(d);
                        proof {
                            assert(details_view(out@) =~= oldout.push((key@, env@[key@])));
                        }
                        collect_interp_chars(v, close + 1, env, seen, out);
                        proof {
                            assert(v@.skip(close as int + 1) =~= s.skip(close - from + 1));
                            assert(details_view(out@) =~= details_view(old(out)@)
                                + spec_collect_interpolation(s, env@, gseen));
                        }
                    },
                    None => {
                        collect_interp_chars(v, close + 1, env, seen, out);
                        proof {
                            assert(v@.skip(close as int + 1) =~= s.skip(close - from + 1));
                            assert(details_view(out@) =~= details_view(old(out)@)
                                + spec_collect_interpolation(s, env@, gseen));
                        }
                    },
                }
            } else {
                proof {
                    assert(gseen.contains(key@));
                    assert(gseen.insert(key@) =~= gseen);
                }
                collect_interp_chars(v, close + 1, env, seen, out);
                proof {
                    assert(v@.skip(close as int + 1) =~= s.skip(close - from + 1));
                    assert(details_view(out@) =~= details_view(old(out)@)
                        + spec_collect_interpolation(s, env@, gseen));
                }
            }
        } else {
            collect_interp_chars(v, from + 1, env, seen, out);
            proof {
                assert(v@.skip(from as int + 1) =~= s.drop_first());
            }
        }
    } else {
        collect_interp_chars(v, from + 1, env, seen, out);
        proof {
            assert(v@.skip(from as int + 1) =~= s.drop_first());
        }
    }
}

/// Whether `target` equals some element of `list`.
fn seen_contains(list: &Vec<String>, target: &Vec<char>) -> (r: bool)
    ensures
        r == crate::headers::set_of_lowers(crate::envfile::strs_view(list@)).contains(target@),
{
    let mut i: usize = 0;
    while i < list.len()
        invariant
            i <= list@.len(),
            forall|j: int| 0 <= j < i ==> crate::envfile::strs_view(list@)[j] != target@,
        decreases list@.len() - i,
    {
        let lc = chars_of(list[i].as_str());
        if crate::strkit::chars_eq(&lc, target) {
            proof {
                assert(crate::envfile::strs_view(list@)[i as int] == target@);
            }
            return true;
        }
        i = i + 1;
    }
    false
}

/// Collect the interpolation details of a text, as
/// [`spec_collect_interpolation`] defines it.
pub fn collect_interpolation(curl: &str, env: &EnvMap) -> (r: Vec<WebInterpolationDetail>)
    requires
        env.wf(),
    ensures
        details_view(r@) == spec_collect_interpolation(curl@, env@, Set::empty()),
{
    let cv = chars_of(curl);
    let mut seen: Vec<String> = Vec::new();
    let mut out: Vec<WebInterpolationDetail> = Vec::new();
    proof {
        assert(crate::headers::set_of_lowers(crate::envfile::strs_view(seen@)) =~= Set::<
            Seq<char>,
        >::empty());
        assert(cv@.skip(0) =~= cv@);
    }
    collect_interp_chars(&cv, 0, env, &mut seen, &mut out);
    proof {
        assert(details_view(out@) =~= spec_collect_interpolation(curl@, env@, Set::empty()));
    }
    out
}

// ---------------------------------------------------------------------------
// The web entry points
// ---------------------------------------------------------------------------

/// Process pasted request text: parse it and collect the placeholders
/// that fed it.
pub fn process_request(curl: &str, env: &EnvMap, os_env: &EnvMap) -> (r: Result<
    WebProcessedRequest,
    WebProcessError,
>)
    requires
        env.wf(),
        os_env.wf(),
    ensures
        match r {
            Ok(p) => spec_web_request(curl@, env@, os_env@) matches Ok(parts) && parts.0
                == p.request.method@ && parts.1 == p.request.url@ && parts.2 == web_headers_view(
                p.request.headers@,
            ) && parts.3 == (match p.request.body {
                Some(b) => Some(b@),
                None => None,
            }) && details_view(p.interpolation@) == spec_collect_interpolation(
                curl@,
                env@,
                Set::empty(),
            ),
            Err(e) => spec_web_request(curl@, env@, os_env@) == Err::<
                (Seq<char>, Seq<char>, Seq<(Seq<char>, Seq<char>)>, Option<Seq<char>>),
                Seq<char>,
            >(e@),
        },
{
    match parse_request(curl, env, os_env) {
        Err(e) => Err(e),
        Ok(request) => {
            let interpolation = collect_interpolation(curl, env);
            Ok(WebProcessedRequest { request, interpolation })
        },
    }
}

/// Import a curl command for the web playground: the same two-strategy
/// import, with no header policy, and the failure as one message.
#[verifier::rlimit(60)]
pub fn import_curl_command_web(
    command: &str,
    template_variables: &EnvMap,
    env_variables: &EnvMap,
) -> (r: Result<ImportResult, WebProcessError>)
    requires
        template_variables.wf(),
        env_variables.wf(),
    ensures
        match r {
            Ok(res) => {
                ||| (!crate::importer::spec_colonless_header_risk(spec_trim(command@))
                    && (crate::importer::curl_parse_of(spec_trim(command@)) matches Some(c)
                    && crate::importer::import_result_ok(
                    template_variables.entries_view(),
                    env_variables.entries_view(),
                    None,
                    None,
                    None,
                    crate::importer::curl_strategy_parts(c).0,
                    crate::importer::curl_strategy_parts(c).1,
                    crate::importer::curl_strategy_parts(c).2,
                    crate::importer::curl_strategy_parts(c).3,
                    crate::importer::curl_strategy_parts(c).4,
                    res,
                )))
                ||| (crate::importer::grammar_strategy_out(command@)
                    && (crate::importer::manual_outcome(command@) matches Ok((m, u, st))
                    && crate::importer::import_result_ok(
                    template_variables.entries_view(),
                    env_variables.entries_view(),
                    None,
                    None,
                    None,
                    m,
                    u,
                    st.headers,
                    st.body_text,
                    st.warnings,
                    res,
                )))
            },
            Err(e) => {
                &&& crate::importer::grammar_strategy_out(command@)
                &&& crate::importer::manual_outcome(command@) is Err
                &&& crate::importer::carries_fallback_cause(
                    e@,
                    spec_message(crate::importer::manual_outcome(command@)->Err_0),
                )
            },
        },
{
    let options = ImportOptions {
        command: String::from_str(command),
        template_variables: template_variables.duplicate(),
        env_variables: env_variables.duplicate(),
        include_headers: None,
        exclude_headers: None,
        append_headers: None,
    };
    match import_curl_command(&options) {
        Ok(res) => Ok(res),
        Err(e) => Err(message_of(e)),
    }
}

/// Render pasted request text through a named export template.
pub fn render_export_template_web(name: &str, curl: &str, env: &EnvMap, os_env: &EnvMap) -> (r:
    Result<String, WebProcessError>)
    requires
        env.wf(),
        os_env.wf(),
    ensures
        match r {
            Ok(out) => name@ == "js-fetch"@ && (spec_web_request(curl@, env@, os_env@) matches Ok(
                parts,
            ) && out@ == spec_render_js_fetch(parts.0, parts.1, parts.2, parts.3, None)),
            Err(e) => {
                ||| spec_web_request(curl@, env@, os_env@) == Err::<
                    (Seq<char>, Seq<char>, Seq<(Seq<char>, Seq<char>)>, Option<Seq<char>>),
                    Seq<char>,
                >(e@)
                ||| (name@ != "js-fetch"@ && e@ == "Unknown export template: "@ + name@)
            },
        },
{
    match process_request(curl, env, os_env) {
        Err(e) => Err(e),
        Ok(processed) => {
            let mut headers: Vec<(String, String)> = Vec::new();
            let mut i: usize = 0;
            proof {
                assert(pairs_view(headers@) =~= web_headers_view(
                    processed.request.headers@,
                ).take(0));
            }
            while i < processed.request.headers.len()
                invariant
                    i <= processed.request.headers@.len(),
                    headers@.len() == i,
                    pairs_view(headers@) == web_headers_view(processed.request.headers@).take(
                        i as int,
                    ),
                decreases processed.request.headers@.len() - i,
            {
                let n = processed.request.headers[i].name.clone();
                let v = processed.request.headers[i].value.clone();
                let ghost gp = (n@, v@);
                let ghost oldh = pairs_view(headers@);
                headers.push((n, v));
                i = i + 1;
                proof {
                    assert(pairs_view(headers@) =~= oldh.push(gp));
                    assert(pairs_view(headers@) =~= web_headers_view(
                        processed.request.headers@,
                    ).take(i as int));
                }
            }
            proof {
                assert(web_headers_view(processed.request.headers@).take(
                    processed.request.headers@.len() as int,
                ) =~= web_headers_view(processed.request.headers@));
            }
            let template = crate::parser::RequestTemplate {
                method: processed.request.method.clone(),
                url: processed.request.url.clone(),
                headers,
                body_text: match &processed.request.body {
                    Some(b) => Some(b.clone()),
                    None => None,
                },
                body_file: None,
            };
            match render_export_template(name, &template) {
                Ok(out) => Ok(out),
                Err(e) => Err(message_of(e)),
            }
        },
    }
}

} // verus!
