use crate::config::{resolve_relative, spec_resolve_relative, EnvironmentContext};
use crate::envfile::strs_view;
use crate::envmap::{map_of, EnvMap, FileStore};
use crate::errors::{Error, ErrorView};
use crate::placeholder::spec_expand;
use crate::strkit::{
    chars_of, find_char, first_idx, join_chars, lemma_first_idx_from, spec_join, spec_starts_with,
    spec_tokens, spec_trim, spec_upper, split_lines, split_tokens, starts_with_chars,
    string_from_chars, sub_chars, trim_chars, upper_chars, views_of,
};
use vstd::prelude::*;
use vstd::string::StringSliceAdditionalSpecFns;

verus! {

/// A request body: expanded text, or the raw bytes of a referenced file.
#[derive(Debug)]
pub enum RequestBody {
    Text(String),
    Bytes(Vec<u8>),
}

/// Ghost image of a [`RequestBody`].
pub enum BodyView {
    Text(Seq<char>),
    Bytes(Seq<u8>),
}

impl View for RequestBody {
    type V = BodyView;

    open spec fn view(&self) -> BodyView {
        match self {
            RequestBody::Text(s) => BodyView::Text(s@),
            RequestBody::Bytes(b) => BodyView::Bytes(b@),
        }
    }
}

/// A fully expanded request: method, URL, ordered headers, optional body.
#[derive(Debug)]
pub struct RequestDefinition {
    pub method: String,
    pub url: String,
    pub headers: Vec<(String, String)>,
    pub body: Option<RequestBody>,
    pub body_bytes: Option<usize>,
    pub body_text: Option<String>,
    pub body_file: Option<String>,
}

/// Ghost image of a [`RequestDefinition`].
pub struct RequestView {
    pub method: Seq<char>,
    pub url: Seq<char>,
    pub headers: Seq<(Seq<char>, Seq<char>)>,
    pub body: Option<BodyView>,
    pub body_bytes: Option<int>,
    pub body_text: Option<Seq<char>>,
    pub body_file: Option<Seq<char>>,
}

impl View for RequestDefinition {
    type V = RequestView;

    open spec fn view(&self) -> RequestView {
        RequestView {
            method: self.method@,
            url: self.url@,
            headers: crate::envmap::pairs_view(self.headers@),
            body: match self.body {
                Some(b) => Some(b@),
                None => None,
            },
            body_bytes: match self.body_bytes {
                Some(n) => Some(n as int),
                None => None,
            },
            body_text: match self.body_text {
                Some(t) => Some(t@),
                None => None,
            },
            body_file: match self.body_file {
                Some(f) => Some(f@),
                None => None,
            },
        }
    }
}

/// A parsed request together with every env file the parse loaded.
#[derive(Debug)]
pub struct ParsedRequest {
    pub request: RequestDefinition,
    pub env_files: Vec<String>,
}

/// The shallow copy of a request that an export template consumes.
#[derive(Debug)]
pub struct RequestTemplate {
    pub method: String,
    pub url: String,
    pub headers: Vec<(String, String)>,
    pub body_text: Option<String>,
    pub body_file: Option<String>,
}

impl RequestTemplate {
    /// The template of a request definition: the same method, URL, headers
    /// and textual body, without the raw bytes.
    pub fn of_definition(value: &RequestDefinition) -> (r: RequestTemplate)
        ensures
            r.method@ == value@.method,
            r.url@ == value@.url,
            crate::envmap::pairs_view(r.headers@) == value@.headers,
            match r.body_text {
                Some(t) => value@.body_text == Some(t@),
                None => value@.body_text is None,
            },
            match r.body_file {
                Some(f) => value@.body_file == Some(f@),
                None => value@.body_file is None,
            },
    {
        let mut headers: Vec<(String, String)> = Vec::new();
        let mut i: usize = 0;
        while i < value.headers.len()
            invariant
                i <= value.headers@.len(),
                headers@.len() == i,
                crate::envmap::pairs_view(headers@) == crate::envmap::pairs_view(
                    value.headers@,
                ).take(i as int),
            decreases value.headers@.len() - i,
        {
            let c0 = value.headers[i].0.clone();
            let c1 = value.headers[i].1.clone();
            let ghost gpair = (c0@, c1@);
            headers.push((c0, c1));
            i = i + 1;
            proof {
                assert(crate::envmap::pairs_view(headers@)[i - 1] == gpair);
                assert(crate::envmap::pairs_view(headers@) =~= crate::envmap::pairs_view(
                    value.headers@,
                ).take(i as int));
            }
        }
        proof {
            assert(crate::envmap::pairs_view(value.headers@).take(value.headers@.len() as int)
                =~= crate::envmap::pairs_view(value.headers@));
        }
        RequestTemplate {
            method: value.method.clone(),
            url: value.url.clone(),
            headers,
            body_text: match &value.body_text {
                Some(t) => Some(t.clone()),
                None => None,
            },
            body_file: match &value.body_file {
                Some(f) => Some(f.clone()),
                None => None,
            },
        }
    }
}

/// The request methods the request line recognises.
pub open spec fn is_http_method(s: Seq<char>) -> bool {
    ||| s == "GET"@
    ||| s == "POST"@
    ||| s == "PUT"@
    ||| s == "PATCH"@
    ||| s == "DELETE"@
    ||| s == "OPTIONS"@
    ||| s == "HEAD"@
    ||| s == "TRACE"@
}

/// Executable mirror of [`is_http_method`].
pub fn http_method_chars(v: &Vec<char>) -> (r: bool)
    ensures
        r == is_http_method(v@),
{
    let g = chars_of("GET");
    if crate::strkit::chars_eq(v, &g) {
        return true;
    }
    let g = chars_of("POST");
    if crate::strkit::chars_eq(v, &g) {
        return true;
    }
    let g = chars_of("PUT");
    if crate::strkit::chars_eq(v, &g) {
        return true;
    }
    let g = chars_of("PATCH");
    if crate::strkit::chars_eq(v, &g) {
        return true;
    }
    let g = chars_of("DELETE");
    if crate::strkit::chars_eq(v, &g) {
        return true;
    }
    let g = chars_of("OPTIONS");
    if crate::strkit::chars_eq(v, &g) {
        return true;
    }
    let g = chars_of("HEAD");
    if crate::strkit::chars_eq(v, &g) {
        return true;
    }
    let g = chars_of("TRACE");
    if crate::strkit::chars_eq(v, &g) {
        return true;
    }
    false
}

/// What an expanded request line yields: a recognised method token with a
/// remainder becomes that method (upper-cased) and the joined remainder;
/// anything else is a GET of the whole line; an empty line yields nothing.
pub open spec fn spec_request_line(expanded: Seq<char>) -> Option<(Seq<char>, Seq<char>)> {
    let toks = spec_tokens(expanded);
    if toks.len() == 0 {
        None
    } else {
        let upper = spec_upper(toks[0]);
        if is_http_method(upper) && toks.len() >= 2 {
            Some((upper, spec_join(toks.drop_first(), seq![' '])))
        } else {
            Some(("GET"@, expanded))
        }
    }
}

/// Find and read the request line: skip blanks and comments, expand the
/// first substantive line, and interpret it per [`spec_request_line`].
pub open spec fn spec_find_request_line(
    lines: Seq<Seq<char>>,
    k: int,
    env: Map<Seq<char>, Seq<char>>,
    fb: Map<Seq<char>, Seq<char>>,
) -> Result<(int, Seq<char>, Seq<char>), ErrorView>
    decreases lines.len() - k,
{
    if k < 0 || k >= lines.len() {
        Err(ErrorView::MissingRequestLine)
    } else {
        let t = spec_trim(lines[k]);
        if t.len() == 0 || t[0] == '#' {
            spec_find_request_line(lines, k + 1, env, fb)
        } else {
            match spec_expand(t, env, fb) {
                Err(e) => Err(e),
                Ok(x) => match spec_request_line(x) {
                    None => Err(ErrorView::MissingRequestLine),
                    Some((m, u)) => Ok((k + 1, m, u)),
                },
            }
        }
    }
}

/// Read the header block: one `name: value` pair per expanded line, ending
/// at a blank line (consumed) or a directive (left in place); a line
/// without a colon is refused with its trimmed raw text.
pub open spec fn spec_headers(
    lines: Seq<Seq<char>>,
    k: int,
    env: Map<Seq<char>, Seq<char>>,
    fb: Map<Seq<char>, Seq<char>>,
) -> Result<(int, Seq<(Seq<char>, Seq<char>)>), ErrorView>
    decreases lines.len() - k,
{
    if k < 0 || k >= lines.len() {
        Ok((k, Seq::empty()))
    } else {
        let t = spec_trim(lines[k]);
        if t.len() == 0 {
            Ok((k + 1, Seq::empty()))
        } else if t[0] == '#' {
            spec_headers(lines, k + 1, env, fb)
        } else if t[0] == '@' {
            Ok((k, Seq::empty()))
        } else {
            match spec_expand(t, env, fb) {
                Err(e) => Err(e),
                Ok(x) => {
                    let i = first_idx(x, ':');
                    if i >= x.len() {
                        Err(ErrorView::InvalidHeaderLine(t))
                    } else {
                        let name = spec_trim(x.take(i as int));
                        let value = spec_trim(x.skip(i as int + 1));
                        match spec_headers(lines, k + 1, env, fb) {
                            Err(e) => Err(e),
                            Ok((k2, rest)) => Ok((k2, seq![(name, value)] + rest)),
                        }
                    }
                },
            }
        }
    }
}

/// The first line at or after `k` that is not blank once trimmed.
pub open spec fn spec_skip_blanks(lines: Seq<Seq<char>>, k: int) -> int
    decreases lines.len() - k,
{
    if k < 0 || k >= lines.len() {
        k
    } else if spec_trim(lines[k]).len() == 0 {
        spec_skip_blanks(lines, k + 1)
    } else {
        k
    }
}

/// The body fields of a parse result.
pub struct BodyOutcome {
    pub body: Option<BodyView>,
    pub body_bytes: Option<int>,
    pub body_text: Option<Seq<char>>,
    pub body_file: Option<Seq<char>>,
}

/// No body at all.
pub open spec fn no_body() -> BodyOutcome {
    BodyOutcome { body: None, body_bytes: None, body_text: None, body_file: None }
}

/// Read the body: a `@body` directive names a file whose raw bytes become
/// the body, with its path expanded before the store is consulted;
/// otherwise the remaining raw lines joined by newlines are expanded as one
/// text, and only a blank remainder means no body.
pub open spec fn spec_body(
    lines: Seq<Seq<char>>,
    k: int,
    env: Map<Seq<char>, Seq<char>>,
    fb: Map<Seq<char>, Seq<char>>,
    dir: Seq<char>,
    files: Map<Seq<char>, Seq<u8>>,
) -> Result<BodyOutcome, ErrorView> {
    if k < 0 || k >= lines.len() {
        Ok(no_body())
    } else {
        let t = spec_trim(lines[k]);
        if spec_starts_with(t, "@body"@) {
            let raw = spec_trim(t.skip(5));
            if raw.len() == 0 {
                Err(ErrorView::MissingDirectiveArgument("@body"@))
            } else {
                match spec_expand(raw, env, fb) {
                    Err(e) => Err(e),
                    Ok(p) => {
                        let resolved = spec_resolve_relative(dir, p);
                        if !files.contains_key(resolved) {
                            Err(ErrorView::FileReadFailure(resolved))
                        } else {
                            Ok(
                                BodyOutcome {
                                    body: Some(BodyView::Bytes(files[resolved])),
                                    body_bytes: Some(files[resolved].len() as int),
                                    body_text: None,
                                    body_file: Some(resolved),
                                },
                            )
                        }
                    },
                }
            }
        } else {
            let raw_body = spec_join(lines.skip(k), seq!['\n']);
            if spec_trim(raw_body).len() == 0 {
                Ok(no_body())
            } else {
                match spec_expand(raw_body, env, fb) {
                    Err(e) => Err(e),
                    Ok(x) => Ok(
                        BodyOutcome {
                            body: Some(BodyView::Text(x)),
                            body_bytes: Some((vstd::utf8::encode_utf8(x).len() as usize) as int),
                            body_text: Some(x),
                            body_file: None,
                        },
                    ),
                }
            }
        }
    }
}

/// The whole parse after the `@env` preamble, starting at line `k` with the
/// environment the preamble produced.
pub open spec fn spec_parse_tail(
    lines: Seq<Seq<char>>,
    k: int,
    env: Map<Seq<char>, Seq<char>>,
    fb: Map<Seq<char>, Seq<char>>,
    dir: Seq<char>,
    files: Map<Seq<char>, Seq<u8>>,
) -> Result<RequestView, ErrorView> {
    match spec_find_request_line(lines, k, env, fb) {
        Err(e) => Err(e),
        Ok((k1, method, url)) => match spec_headers(lines, k1, env, fb) {
            Err(e) => Err(e),
            Ok((k2, headers)) => {
                let k3 = spec_skip_blanks(lines, k2);
                match spec_body(lines, k3, env, fb, dir, files) {
                    Err(e) => Err(e),
                    Ok(b) => Ok(
                        RequestView {
                            method,
                            url,
                            headers,
                            body: b.body,
                            body_bytes: b.body_bytes,
                            body_text: b.body_text,
                            body_file: b.body_file,
                        },
                    ),
                }
            },
        },
    }
}

/// The environment after loading a succession of env-file entry lists, in
/// order, each overriding what came before.
pub open spec fn fold_union(
    m: Map<Seq<char>, Seq<char>>,
    ess: Seq<Seq<(Seq<char>, Seq<char>)>>,
) -> Map<Seq<char>, Seq<char>>
    decreases ess.len(),
{
    if ess.len() == 0 {
        m
    } else {
        fold_union(m, ess.drop_last()).union_prefer_right(map_of(ess.last()))
    }
}

/// A line the preamble may consume: blank, comment, or an `@env` directive.
pub open spec fn is_preamble_line(line: Seq<char>) -> bool {
    let t = spec_trim(line);
    t.len() == 0 || t[0] == '#' || spec_starts_with(t, "@env"@)
}

/// Copies of the lines from `from` on.
fn slice_vecs(v: &Vec<Vec<char>>, from: usize) -> (r: Vec<Vec<char>>)
    requires
        from <= v@.len(),
    ensures
        views_of(r@) == views_of(v@).skip(from as int),
{
    let mut r: Vec<Vec<char>> = Vec::new();
    let mut i: usize = from;
    while i < v.len()
        invariant
            from <= i <= v@.len(),
            r@.len() == i - from,
            views_of(r@) == views_of(v@).subrange(from as int, i as int),
        decreases v@.len() - i,
    {
        let c = v[i].clone();
        let ghost gc = c@;
        r.push(c);
        i = i + 1;
        proof {
            assert(views_of(r@)[i - 1 - from] == gc);
            assert(views_of(r@) =~= views_of(v@).subrange(from as int, i as int));
        }
    }
    proof {
        assert(views_of(v@).subrange(from as int, v@.len() as int) =~= views_of(v@).skip(
            from as int,
        ));
    }
    r
}

/// Copies of a vector of strings.
fn clone_strings(v: &Vec<String>) -> (r: Vec<String>)
    ensures
        strs_view(r@) == strs_view(v@),
{
    let mut r: Vec<String> = Vec::new();
    let mut i: usize = 0;
    while i < v.len()
        invariant
            i <= v@.len(),
            r@.len() == i,
            strs_view(r@) == strs_view(v@).take(i as int),
        decreases v@.len() - i,
    {
        let c = v[i].clone();
        let ghost gc = c@;
        r.push(c);
        i = i + 1;
        proof {
            assert(strs_view(r@)[i - 1] == gc);
            assert(strs_view(r@) =~= strs_view(v@).take(i as int));
        }
    }
    proof {
        assert(strs_view(v@).take(v@.len() as int) =~= strs_view(v@));
    }
    r
}

/// Executable mirror of [`spec_find_request_line`].
fn find_request_line_exec(lines: &Vec<Vec<char>>, k: usize, env: &EnvMap, os_env: &EnvMap) -> (r:
    Result<(usize, Vec<char>, Vec<char>), Error>)
    requires
        env.wf(),
        os_env.wf(),
        k <= lines@.len(),
    ensures
        match r {
            Ok((k1, m, u)) => k1 <= lines@.len() && spec_find_request_line(
                views_of(lines@),
                k as int,
                env@,
                os_env@,
            ) == Ok::<(int, Seq<char>, Seq<char>), ErrorView>((k1 as int, m@, u@)),
            Err(e) => spec_find_request_line(views_of(lines@), k as int, env@, os_env@) == Err::<
                (int, Seq<char>, Seq<char>),
                ErrorView,
            >(e@),
        },
    decreases lines@.len() - k,
{
    if k >= lines.len() {
        return Err(Error::MissingRequestLine);
    }
    let t = trim_chars(&lines[k]);
    if t.len() == 0 || t[0] == '#' {
        return find_request_line_exec(lines, k + 1, env, os_env);
    }
    match crate::placeholder::expand_placeholders_chars(&t, env, os_env) {
        Err(e) => Err(e),
        Ok(x) => {
            let toks = split_tokens(&x);
            if toks.len() == 0 {
                return Err(Error::MissingRequestLine);
            }
            let upper = upper_chars(&toks[0]);
            if http_method_chars(&upper) && toks.len() >= 2 {
                let rest = slice_vecs(&toks, 1);
                proof {
                    assert(views_of(rest@) =~= views_of(toks@).drop_first());
                }
                let mut sep: Vec<char> = Vec::new();
                sep.push(' ');
                proof {
                    assert(sep@ =~= seq![' ']);
                }
                let url = join_chars(&rest, &sep);
                Ok((k + 1, upper, url))
            } else {
                let m = chars_of("GET");
                Ok((k + 1, m, x))
            }
        },
    }
}

/// Executable mirror of [`spec_headers`].
fn headers_exec(lines: &Vec<Vec<char>>, k: usize, env: &EnvMap, os_env: &EnvMap) -> (r: Result<
    (usize, Vec<(String, String)>),
    Error,
>)
    requires
        env.wf(),
        os_env.wf(),
        k <= lines@.len(),
    ensures
        match r {
            Ok((k2, hs)) => k2 <= lines@.len() && spec_headers(
                views_of(lines@),
                k as int,
                env@,
                os_env@,
            ) == Ok::<(int, Seq<(Seq<char>, Seq<char>)>), ErrorView>(
                (k2 as int, crate::envmap::pairs_view(hs@)),
            ),
            Err(e) => spec_headers(views_of(lines@), k as int, env@, os_env@) == Err::<
                (int, Seq<(Seq<char>, Seq<char>)>),
                ErrorView,
            >(e@),
        },
    decreases lines@.len() - k,
{
    if k >= lines.len() {
        let hs: Vec<(String, String)> = Vec::new();
        proof {
            assert(crate::envmap::pairs_view(hs@) =~= Seq::<(Seq<char>, Seq<char>)>::empty());
        }
        return Ok((k, hs));
    }
    let t = trim_chars(&lines[k]);
    if t.len() == 0 {
        let hs: Vec<(String, String)> = Vec::new();
        proof {
            assert(crate::envmap::pairs_view(hs@) =~= Seq::<(Seq<char>, Seq<char>)>::empty());
        }
        return Ok((k + 1, hs));
    }
    if t[0] == '#' {
        return headers_exec(lines, k + 1, env, os_env);
    }
    if t[0] == '@' {
        let hs: Vec<(String, String)> = Vec::new();
        proof {
            assert(crate::envmap::pairs_view(hs@) =~= Seq::<(Seq<char>, Seq<char>)>::empty());
        }
        return Ok((k, hs));
    }
    match crate::placeholder::expand_placeholders_chars(&t, env, os_env) {
        Err(e) => Err(e),
        Ok(x) => {
            match find_char(&x, ':', 0) {
                None => {
                    proof {
                        lemma_first_idx_from(x@, ':', x@.len() as int);
                    }
                    Err(Error::InvalidHeaderLine(string_from_chars(&t)))
                },
                Some(i) => {
                    proof {
                        lemma_first_idx_from(x@, ':', i as int);
                    }
                    let name_raw = sub_chars(&x, 0, i);
                    let value_raw = sub_chars(&x, i + 1, x.len());
                    let name = trim_chars(&name_raw);
                    let value = trim_chars(&value_raw);
                    let ghost gname = name@;
                    let ghost gvalue = value@;
                    match headers_exec(lines, k + 1, env, os_env) {
                        Err(e) => Err(e),
                        Ok((k2, mut hs)) => {
                            let ghost oldp = crate::envmap::pairs_view(hs@);
                            let pair = (string_from_chars(&name), string_from_chars(&value));
                            hs.insert(0, pair);
                            proof {
                                assert(crate::envmap::pairs_view(hs@) =~= seq![(gname, gvalue)]
                                    + oldp);
                            }
                            Ok((k2, hs))
                        },
                    }
                },
            }
        },
    }
}

/// Executable mirror of [`spec_skip_blanks`].
fn skip_blanks_exec(lines: &Vec<Vec<char>>, k: usize) -> (r: usize)
    requires
        k <= lines@.len(),
    ensures
        r == spec_skip_blanks(views_of(lines@), k as int),
        k <= r <= lines@.len(),
    decreases lines@.len() - k,
{
    if k >= lines.len() {
        return k;
    }
    let t = trim_chars(&lines[k]);
    if t.len() == 0 {
        skip_blanks_exec(lines, k + 1)
    } else {
        k
    }
}

/// Executable mirror of [`spec_body`].
fn body_exec(
    lines: &Vec<Vec<char>>,
    k: usize,
    env: &EnvMap,
    os_env: &EnvMap,
    dir: &str,
    files: &FileStore,
) -> (r: Result<(Option<RequestBody>, Option<usize>, Option<String>, Option<String>), Error>)
    requires
        env.wf(),
        os_env.wf(),
        files.wf(),
        k <= lines@.len(),
    ensures
        match r {
            Ok((body, bytes, text, file)) => spec_body(
                views_of(lines@),
                k as int,
                env@,
                os_env@,
                dir@,
                files@,
            ) == Ok::<BodyOutcome, ErrorView>(
                BodyOutcome {
                    body: match body {
                        Some(b) => Some(b@),
                        None => None,
                    },
                    body_bytes: match bytes {
                        Some(n) => Some(n as int),
                        None => None,
                    },
                    body_text: match text {
                        Some(t) => Some(t@),
                        None => None,
                    },
                    body_file: match file {
                        Some(f) => Some(f@),
                        None => None,
                    },
                },
            ),
            Err(e) => spec_body(views_of(lines@), k as int, env@, os_env@, dir@, files@)
                == Err::<BodyOutcome, ErrorView>(e@),
        },
{
    if k >= lines.len() {
        return Ok((None, None, None, None));
    }
    let t = trim_chars(&lines[k]);
    let at_body = chars_of("@body");
    if starts_with_chars(&t, &at_body) {
        proof {
            reveal_strlit("@body");
            assert(t@.len() >= 5);
        }
        let raw_tail = sub_chars(&t, 5, t.len());
        proof {
            assert(raw_tail@ == t@.skip(5));
        }
        let raw = trim_chars(&raw_tail);
        if raw.len() == 0 {
            return Err(Error::MissingDirectiveArgument(String::from_str("@body")));
        }
        match crate::placeholder::expand_placeholders_chars(&raw, env, os_env) {
            Err(e) => Err(e),
            Ok(p) => {
                let p_s = string_from_chars(&p);
                let resolved = resolve_relative(dir, p_s.as_str());
                match files.get(resolved.as_str()) {
                    None => Err(Error::FileReadFailure(resolved)),
                    Some(bytes) => {
                        let n = bytes.len();
                        let copied = bytes.clone();
                        proof {
                            assert(copied@ == files@[spec_resolve_relative(dir@, p@)]);
                        }
                        Ok(
                            (
                                Some(RequestBody::Bytes(copied)),
                                Some(n),
                                None,
                                Some(resolved),
                            ),
                        )
                    },
                }
            },
        }
    } else {
        let remaining = slice_vecs(lines, k);
        let mut sep: Vec<char> = Vec::new();
        sep.push('\n');
        proof {
            assert(sep@ =~= seq!['\n']);
        }
        let raw_body = join_chars(&remaining, &sep);
        let trimmed = trim_chars(&raw_body);
        if trimmed.len() == 0 {
            return Ok((None, None, None, None));
        }
        match crate::placeholder::expand_placeholders_chars(&raw_body, env, os_env) {
            Err(e) => Err(e),
            Ok(x) => {
                let text = string_from_chars(&x);
                let text_str = text.as_str();
                let n = text_str.len();
                proof {
                    assert(text_str@ == x@);
                    assert(text_str.spec_bytes() == vstd::utf8::encode_utf8(x@));
                }
                Ok(
                    (
                        Some(RequestBody::Text(text.clone())),
                        Some(n),
                        Some(text),
                        None,
                    ),
                )
            },
        }
    }
}

/// The exact preamble account between lines `j` (inclusive) and `k`
/// (exclusive), starting from environment `env`: blank and comment lines
/// pass; each `@env` line's argument is non-empty, expands under the
/// environment built so far (with the ambient fallback `fb`), resolves
/// against the request directory, names a stored UTF-8-decodable file,
/// contributes the next entry list of `ess` (whatever the env-file parser
/// produced for it — the one thing this account leaves open) and the next
/// recorded path of `pre`; no other line appears before `k`.
pub open spec fn preamble_ok(
    lines: Seq<Seq<char>>,
    j: int,
    k: int,
    env: Map<Seq<char>, Seq<char>>,
    fb: Map<Seq<char>, Seq<char>>,
    dir: Seq<char>,
    files: Map<Seq<char>, Seq<u8>>,
    ess: Seq<Seq<(Seq<char>, Seq<char>)>>,
    pre: Seq<Seq<char>>,
) -> bool
    decreases k - j,
{
    if j >= k {
        j == k && ess.len() == 0 && pre.len() == 0
    } else if 0 <= j < lines.len() {
        let t = spec_trim(lines[j]);
        if t.len() == 0 || t[0] == '#' {
            preamble_ok(lines, j + 1, k, env, fb, dir, files, ess, pre)
        } else if spec_starts_with(t, "@env"@) {
            let raw = spec_trim(t.skip(4));
            &&& raw.len() > 0
            &&& spec_expand(raw, env, fb) is Ok
            &&& {
                let resolved = spec_resolve_relative(dir, spec_expand(raw, env, fb)->Ok_0);
                &&& files.contains_key(resolved)
                &&& crate::strkit::utf8_decode(files[resolved]) is Some
                &&& ess.len() > 0
                &&& pre.len() > 0
                &&& pre[0] == resolved
                &&& preamble_ok(
                    lines,
                    j + 1,
                    k,
                    env.union_prefer_right(map_of(ess[0])),
                    fb,
                    dir,
                    files,
                    ess.drop_first(),
                    pre.drop_first(),
                )
            }
        } else {
            false
        }
    } else {
        false
    }
}

/// Folding one more entry list first, then the rest, folds them all.
proof fn lemma_fold_union_shift(
    env: Map<Seq<char>, Seq<char>>,
    ess: Seq<Seq<(Seq<char>, Seq<char>)>>,
)
    requires
        ess.len() > 0,
    ensures
        fold_union(env.union_prefer_right(map_of(ess[0])), ess.drop_first()) == fold_union(
            env,
            ess,
        ),
    decreases ess.len(),
{
    if ess.len() == 1 {
        assert(ess.drop_first().len() == 0);
        assert(ess.drop_last().len() == 0);
        assert(ess.last() == ess[0]);
        assert(fold_union(env.union_prefer_right(map_of(ess[0])), ess.drop_first())
            == env.union_prefer_right(map_of(ess[0])));
        assert(fold_union(env, ess) == fold_union(env, ess.drop_last()).union_prefer_right(
            map_of(ess.last()),
        ));
        assert(fold_union(env, ess.drop_last()) == env);
    } else {
        lemma_fold_union_shift(env, ess.drop_last());
        assert(ess.drop_last()[0] == ess[0]);
        assert(ess.drop_first().drop_last() =~= ess.drop_last().drop_first());
        assert(ess.drop_first().last() == ess.last());
        assert(ess.drop_first().len() > 0);
        assert(fold_union(env.union_prefer_right(map_of(ess[0])), ess.drop_first())
            == fold_union(
            env.union_prefer_right(map_of(ess[0])),
            ess.drop_first().drop_last(),
        ).union_prefer_right(map_of(ess.drop_first().last())));
        assert(fold_union(env.union_prefer_right(map_of(ess[0])), ess.drop_first().drop_last())
            == fold_union(env.union_prefer_right(map_of(ess[0])), ess.drop_last().drop_first()));
        assert(fold_union(env.union_prefer_right(map_of(ess[0])), ess.drop_last().drop_first())
            == fold_union(env, ess.drop_last()));
        assert(fold_union(env, ess) == fold_union(env, ess.drop_last()).union_prefer_right(
            map_of(ess.last()),
        ));
    }
}

/// A blank or comment line at `k` extends a preamble account unchanged.
proof fn lemma_preamble_extend_skip(
    lines: Seq<Seq<char>>,
    j: int,
    k: int,
    env: Map<Seq<char>, Seq<char>>,
    fb: Map<Seq<char>, Seq<char>>,
    dir: Seq<char>,
    files: Map<Seq<char>, Seq<u8>>,
    ess: Seq<Seq<(Seq<char>, Seq<char>)>>,
    pre: Seq<Seq<char>>,
)
    requires
        preamble_ok(lines, j, k, env, fb, dir, files, ess, pre),
        0 <= k < lines.len(),
        spec_trim(lines[k]).len() == 0 || spec_trim(lines[k])[0] == '#',
    ensures
        preamble_ok(lines, j, k + 1, env, fb, dir, files, ess, pre),
    decreases k - j,
{
    if j >= k {
        assert(j == k);
        assert(ess.len() == 0 && pre.len() == 0);
        assert(preamble_ok(lines, k + 1, k + 1, env, fb, dir, files, ess, pre));
        assert(preamble_ok(lines, j, k + 1, env, fb, dir, files, ess, pre));
    } else {
        let t = spec_trim(lines[j]);
        if t.len() == 0 || t[0] == '#' {
            lemma_preamble_extend_skip(lines, j + 1, k, env, fb, dir, files, ess, pre);
        } else {
            lemma_preamble_extend_skip(
                lines,
                j + 1,
                k,
                env.union_prefer_right(map_of(ess[0])),
                fb,
                dir,
                files,
                ess.drop_first(),
                pre.drop_first(),
            );
        }
    }
}

/// A successful `@env` step at `k` extends a preamble account by its entry
/// list and path.
proof fn lemma_preamble_extend_env(
    lines: Seq<Seq<char>>,
    j: int,
    k: int,
    env: Map<Seq<char>, Seq<char>>,
    fb: Map<Seq<char>, Seq<char>>,
    dir: Seq<char>,
    files: Map<Seq<char>, Seq<u8>>,
    ess: Seq<Seq<(Seq<char>, Seq<char>)>>,
    pre: Seq<Seq<char>>,
    es_new: Seq<(Seq<char>, Seq<char>)>,
    p_new: Seq<char>,
)
    requires
        preamble_ok(lines, j, k, env, fb, dir, files, ess, pre),
        0 <= k < lines.len(),
        spec_starts_with(spec_trim(lines[k]), "@env"@),
        spec_trim(spec_trim(lines[k]).skip(4)).len() > 0,
        spec_expand(spec_trim(spec_trim(lines[k]).skip(4)), fold_union(env, ess), fb) is Ok,
        p_new == spec_resolve_relative(
            dir,
            spec_expand(spec_trim(spec_trim(lines[k]).skip(4)), fold_union(env, ess), fb)->Ok_0,
        ),
        files.contains_key(p_new),
        crate::strkit::utf8_decode(files[p_new]) is Some,
    ensures
        preamble_ok(lines, j, k + 1, env, fb, dir, files, ess.push(es_new), pre.push(p_new)),
    decreases k - j,
{
    if j >= k {
        reveal_strlit("@env");
        assert(j == k);
        assert(ess.len() == 0 && pre.len() == 0);
        assert(fold_union(env, ess) == env);
        let t = spec_trim(lines[k]);
        assert(t.len() >= 4 && t[0] == '@') by {
            assert(t.subrange(0, 4) =~= "@env"@);
            assert(t[0] == t.subrange(0, 4)[0]);
        }
        assert(ess.push(es_new)[0] == es_new);
        assert(pre.push(p_new)[0] == p_new);
        assert(ess.push(es_new).drop_first() =~= Seq::<Seq<(Seq<char>, Seq<char>)>>::empty());
        assert(pre.push(p_new).drop_first() =~= Seq::<Seq<char>>::empty());
        assert(preamble_ok(
            lines,
            k + 1,
            k + 1,
            env.union_prefer_right(map_of(es_new)),
            fb,
            dir,
            files,
            ess.push(es_new).drop_first(),
            pre.push(p_new).drop_first(),
        ));
        assert(preamble_ok(lines, j, k + 1, env, fb, dir, files, ess.push(es_new), pre.push(p_new)));
    } else {
        let t = spec_trim(lines[j]);
        if t.len() == 0 || t[0] == '#' {
            lemma_preamble_extend_env(
                lines,
                j + 1,
                k,
                env,
                fb,
                dir,
                files,
                ess,
                pre,
                es_new,
                p_new,
            );
        } else {
            assert(ess.len() > 0 && pre.len() > 0);
            lemma_fold_union_shift(env, ess);
            lemma_preamble_extend_env(
                lines,
                j + 1,
                k,
                env.union_prefer_right(map_of(ess[0])),
                fb,
                dir,
                files,
                ess.drop_first(),
                pre.drop_first(),
                es_new,
                p_new,
            );
            assert(ess.push(es_new)[0] == ess[0]);
            assert(pre.push(p_new)[0] == pre[0]);
            assert(ess.push(es_new).drop_first() =~= ess.drop_first().push(es_new));
            assert(pre.push(p_new).drop_first() =~= pre.drop_first().push(p_new));
        }
    }
}

/// The outcome of one `@env` step of the preamble at line `k`, as far as it
/// is determined: the argument checks, the path expansion and the file
/// fetch are deterministic; only the entry parse is not, and its failure
/// also carries the resolved path.
pub open spec fn env_step_failure(
    lines: Seq<Seq<char>>,
    k: int,
    env: Map<Seq<char>, Seq<char>>,
    fb: Map<Seq<char>, Seq<char>>,
    dir: Seq<char>,
    files: Map<Seq<char>, Seq<u8>>,
    e: ErrorView,
) -> bool {
    &&& 0 <= k < lines.len()
    &&& spec_starts_with(spec_trim(lines[k]), "@env"@)
    &&& {
        let raw = spec_trim(spec_trim(lines[k]).skip(4));
        if raw.len() == 0 {
            e == ErrorView::MissingDirectiveArgument("@env"@)
        } else {
            match spec_expand(raw, env, fb) {
                Err(xe) => e == xe,
                Ok(p) => e == ErrorView::FileReadFailure(spec_resolve_relative(dir, p)),
            }
        }
    }
}

/// The account of a successful parse: lines before `k` form exactly the
/// preamble of [`preamble_ok`], line `k` (if any) ends it, and the tail
/// parse under the environment the preamble built produced exactly the
/// returned request; the recorded env files are the inherited ones plus
/// the preamble's paths, in order.
pub open spec fn parse_ok_at(
    contents: Seq<char>,
    env0: Map<Seq<char>, Seq<char>>,
    fb: Map<Seq<char>, Seq<char>>,
    dir: Seq<char>,
    files: Map<Seq<char>, Seq<u8>>,
    rv: RequestView,
    base_files: Seq<Seq<char>>,
    out_files: Seq<Seq<char>>,
    k: int,
    ess: Seq<Seq<(Seq<char>, Seq<char>)>>,
    pre: Seq<Seq<char>>,
) -> bool {
    &&& 0 <= k <= spec_lines_of(contents).len()
    &&& preamble_ok(spec_lines_of(contents), 0, k, env0, fb, dir, files, ess, pre)
    &&& (k == spec_lines_of(contents).len() || !is_preamble_line(spec_lines_of(contents)[k]))
    &&& spec_parse_tail(spec_lines_of(contents), k, fold_union(env0, ess), fb, dir, files)
        == Ok::<RequestView, ErrorView>(rv)
    &&& out_files == base_files + pre
}

/// The account of a failed parse: lines before `k` form exactly the
/// preamble of [`preamble_ok`], and under the environment it built, either
/// the tail parse fails with this error or the `@env` step at line `k`
/// does.
pub open spec fn parse_err_at(
    contents: Seq<char>,
    env0: Map<Seq<char>, Seq<char>>,
    fb: Map<Seq<char>, Seq<char>>,
    dir: Seq<char>,
    files: Map<Seq<char>, Seq<u8>>,
    e: ErrorView,
    k: int,
    ess: Seq<Seq<(Seq<char>, Seq<char>)>>,
    pre: Seq<Seq<char>>,
) -> bool {
    &&& 0 <= k <= spec_lines_of(contents).len()
    &&& preamble_ok(spec_lines_of(contents), 0, k, env0, fb, dir, files, ess, pre)
    &&& {
        ||| spec_parse_tail(spec_lines_of(contents), k, fold_union(env0, ess), fb, dir, files)
            == Err::<RequestView, ErrorView>(e)
        ||| env_step_failure(
            spec_lines_of(contents),
            k,
            fold_union(env0, ess),
            fb,
            dir,
            files,
            e,
        )
    }
}

/// Parse one request file's text against a resolved environment, the
/// ambient process environment (`os_env`, the expansion fallback), and a
/// set of files.
///
/// Leading blank, comment and `@env` lines form the preamble; each `@env`
/// loads a file over the environment (its entries as the env-file parser
/// produced them) and records its path, exactly as [`preamble_ok`] states
/// it. The rest of the text is the request line, the header block, and the
/// body, exactly as the phase functions define them, under the environment
/// the preamble built.
pub fn parse_request_contents(
    contents: &str,
    request_dir: &str,
    environment: &EnvironmentContext,
    os_env: &EnvMap,
    files: &FileStore,
) -> (r: Result<ParsedRequest, Error>)
    requires
        environment.wf(),
        os_env.wf(),
        files.wf(),
    ensures
        match r {
            Ok(pr) => exists|k: int, ess: Seq<Seq<(Seq<char>, Seq<char>)>>, pre: Seq<Seq<char>>|
                parse_ok_at(
                    contents@,
                    environment.initial_env@,
                    os_env@,
                    request_dir@,
                    files@,
                    pr.request@,
                    strs_view(environment.env_files@),
                    strs_view(pr.env_files@),
                    k,
                    ess,
                    pre,
                ),
            Err(e) => exists|k: int, ess: Seq<Seq<(Seq<char>, Seq<char>)>>, pre: Seq<Seq<char>>|
                parse_err_at(
                    contents@,
                    environment.initial_env@,
                    os_env@,
                    request_dir@,
                    files@,
                    e@,
                    k,
                    ess,
                    pre,
                ),
        },
{
    let cv = chars_of(contents);
    let lines = split_lines(&cv);
    let mut env = environment.initial_env.duplicate();
    let mut env_files = clone_strings(&environment.env_files);
    let ghost env0 = environment.initial_env@;
    let ghost mut ess: Seq<Seq<(Seq<char>, Seq<char>)>> = Seq::empty();
    let ghost mut pre: Seq<Seq<char>> = Seq::empty();
    let mut k: usize = 0;
    let mut more: usize = 1;
    let at_env = chars_of("@env");
    proof {
        assert(fold_union(env0, ess) == env0);
        assert(strs_view(env_files@) =~= strs_view(environment.env_files@) + pre);
        assert(spec_lines_of(contents@).len() == lines@.len());
        assert(preamble_ok(
            spec_lines_of(contents@),
            0,
            0,
            env0,
            os_env@,
            request_dir@,
            files@,
            ess,
            pre,
        ));
    }
    while k < lines.len() && more == 1
        invariant
            environment.wf(),
            files.wf(),
            k <= lines@.len(),
            more <= 1,
            more == 0 ==> k < lines@.len() && !is_preamble_line(
                spec_lines_of(contents@)[k as int],
            ),
            views_of(lines@) == spec_lines_of(contents@),
            spec_lines_of(contents@).len() == lines@.len(),
            at_env@ == "@env"@,
            env.wf(),
            os_env.wf(),
            env@ == fold_union(env0, ess),
            env0 == environment.initial_env@,
            preamble_ok(
                spec_lines_of(contents@),
                0,
                k as int,
                env0,
                os_env@,
                request_dir@,
                files@,
                ess,
                pre,
            ),
            strs_view(env_files@) == strs_view(environment.env_files@) + pre,
        decreases lines@.len() - k, more,
    {
        proof {
            assert(spec_lines_of(contents@)[k as int] == views_of(lines@)[k as int]);
        }
        let t = trim_chars(&lines[k]);
        if t.len() == 0 {
            proof {
                lemma_preamble_extend_skip(
                    spec_lines_of(contents@),
                    0,
                    k as int,
                    env0,
                    os_env@,
                    request_dir@,
                    files@,
                    ess,
                    pre,
                );
            }
            k = k + 1;
            continue ;
        }
        if t[0] == '#' {
            proof {
                lemma_preamble_extend_skip(
                    spec_lines_of(contents@),
                    0,
                    k as int,
                    env0,
                    os_env@,
                    request_dir@,
                    files@,
                    ess,
                    pre,
                );
            }
            k = k + 1;
            continue ;
        }
        if starts_with_chars(&t, &at_env) {
            proof {
                reveal_strlit("@env");
                assert(t@.len() >= 4);
            }
            let raw_tail = sub_chars(&t, 4, t.len());
            proof {
                assert(raw_tail@ == t@.skip(4));
            }
            let raw = trim_chars(&raw_tail);
            if raw.len() == 0 {
                let err = Error::MissingDirectiveArgument(String::from_str("@env"));
                proof {
                    assert(parse_err_at(
                        contents@,
                        environment.initial_env@,
                        os_env@,
                        request_dir@,
                        files@,
                        err@,
                        k as int,
                        ess,
                        pre,
                    ));
                }
                return Err(err);
            }
            match crate::placeholder::expand_placeholders_chars(&raw, &env, os_env) {
                Err(e) => {
                    proof {
                        assert(parse_err_at(
                            contents@,
                            environment.initial_env@,
                            os_env@,
                            request_dir@,
                            files@,
                            e@,
                            k as int,
                            ess,
                            pre,
                        ));
                    }
                    return Err(e);
                },
                Ok(p) => {
                    let p_s = string_from_chars(&p);
                    let resolved = resolve_relative(request_dir, p_s.as_str());
                    let ghost gresolved = resolved@;
                    match files.get(resolved.as_str()) {
                        None => {
                            let err = Error::FileReadFailure(resolved);
                            proof {
                                assert(parse_err_at(
                                    contents@,
                                    environment.initial_env@,
                                    os_env@,
                                    request_dir@,
                                    files@,
                                    err@,
                                    k as int,
                                    ess,
                                    pre,
                                ));
                            }
                            return Err(err);
                        },
                        Some(bytes) => match crate::strkit::utf8_text(bytes) {
                            None => {
                                let err = Error::FileReadFailure(resolved);
                                proof {
                                    assert(parse_err_at(
                                        contents@,
                                        environment.initial_env@,
                                        os_env@,
                                        request_dir@,
                                        files@,
                                        err@,
                                        k as int,
                                        ess,
                                        pre,
                                    ));
                                }
                                return Err(err);
                            },
                            Some(content) => {
                                match crate::envfile::load_env_directive(
                                    resolved.as_str(),
                                    content.as_str(),
                                    &mut env,
                                    &mut env_files,
                                ) {
                                    Err(e) => {
                                        proof {
                                            assert(parse_err_at(
                                                contents@,
                                                environment.initial_env@,
                                                os_env@,
                                                request_dir@,
                                                files@,
                                                e@,
                                                k as int,
                                                ess,
                                                pre,
                                            ));
                                        }
                                        return Err(e);
                                    },
                                    Ok(_) => {
                                        proof {
                                            let es = choose|es: Seq<(Seq<char>, Seq<char>)>|
                                                env@ == fold_union(
                                                    env0,
                                                    ess,
                                                ).union_prefer_right(map_of(es));
                                            let old_ess = ess;
                                            let old_pre = pre;
                                            lemma_preamble_extend_env(
                                                spec_lines_of(contents@),
                                                0,
                                                k as int,
                                                env0,
                                                os_env@,
                                                request_dir@,
                                                files@,
                                                old_ess,
                                                old_pre,
                                                es,
                                                gresolved,
                                            );
                                            ess = ess.push(es);
                                            assert(ess.drop_last() =~= old_ess);
                                            assert(ess.last() == es);
                                            assert(env@ == fold_union(env0, ess));
                                            pre = pre.push(gresolved);
                                            assert(strs_view(env_files@) =~= strs_view(
                                                environment.env_files@,
                                            ) + pre);
                                        }
                                        k = k + 1;
                                    },
                                }
                            },
                        },
                    }
                },
            }
        } else {
            more = 0;
        }
    }
    proof {
        assert(k as int == spec_lines_of(contents@).len() || !is_preamble_line(
            spec_lines_of(contents@)[k as int],
        ));
    }
    let ghost lv = spec_lines_of(contents@);
    let ghost genv = fold_union(environment.initial_env@, ess);
    proof {
        assert(env@ == genv);
    }
    match find_request_line_exec(&lines, k, &env, os_env) {
        Err(e) => {
            proof {
                assert(parse_err_at(
                    contents@,
                    environment.initial_env@,
                    os_env@,
                    request_dir@,
                    files@,
                    e@,
                    k as int,
                    ess,
                    pre,
                ));
            }
            Err(e)
        },
        Ok((k1, m, u)) => match headers_exec(&lines, k1, &env, os_env) {
            Err(e) => {
                proof {
                    assert(parse_err_at(
                        contents@,
                        environment.initial_env@,
                        os_env@,
                        request_dir@,
                        files@,
                        e@,
                        k as int,
                        ess,
                        pre,
                    ));
                }
                Err(e)
            },
            Ok((k2, headers)) => {
                let k3 = skip_blanks_exec(&lines, k2);
                match body_exec(&lines, k3, &env, os_env, request_dir, files) {
                    Err(e) => {
                        proof {
                            assert(parse_err_at(
                                contents@,
                                environment.initial_env@,
                                os_env@,
                                request_dir@,
                                files@,
                                e@,
                                k as int,
                                ess,
                                pre,
                            ));
                        }
                        Err(e)
                    },
                    Ok((body, body_bytes, body_text, body_file)) => {
                        let request = RequestDefinition {
                            method: string_from_chars(&m),
                            url: string_from_chars(&u),
                            headers,
                            body,
                            body_bytes,
                            body_text,
                            body_file,
                        };
                        let pr = ParsedRequest { request, env_files };
                        proof {
                            assert(parse_ok_at(
                                contents@,
                                environment.initial_env@,
                                os_env@,
                                request_dir@,
                                files@,
                                pr.request@,
                                strs_view(environment.env_files@),
                                strs_view(pr.env_files@),
                                k as int,
                                ess,
                                pre,
                            ));
                        }
                        Ok(pr)
                    },
                }
            },
        },
    }
}

/// The lines of a text, as [`crate::strkit::spec_lines`] splits them.
pub open spec fn spec_lines_of(s: Seq<char>) -> Seq<Seq<char>> {
    crate::strkit::spec_lines(s)
}

/// Law: a `@body` directive whose path does not expand fails with exactly
/// that expansion error under every file store — the failure comes before
/// any file is consulted.
pub proof fn lemma_body_fails_before_file_access(
    lines: Seq<Seq<char>>,
    k: int,
    env: Map<Seq<char>, Seq<char>>,
    fb: Map<Seq<char>, Seq<char>>,
    dir: Seq<char>,
    e: ErrorView,
)
    requires
        0 <= k < lines.len(),
        spec_starts_with(spec_trim(lines[k]), "@body"@),
        spec_trim(spec_trim(lines[k]).skip(5)).len() > 0,
        spec_expand(spec_trim(spec_trim(lines[k]).skip(5)), env, fb) == Err::<
            Seq<char>,
            ErrorView,
        >(e),
    ensures
        forall|files: Map<Seq<char>, Seq<u8>>|
            #[trigger] spec_body(lines, k, env, fb, dir, files) == Err::<BodyOutcome, ErrorView>(
                e,
            ),
{
}

/// Law: a header line lacking a colon fails the whole parse with an
/// invalid-header-line error naming that line; because the parse returns a
/// `Result`, no partial request comes back with it.
pub proof fn lemma_header_without_colon(
    lines: Seq<Seq<char>>,
    k: int,
    env: Map<Seq<char>, Seq<char>>,
    fb: Map<Seq<char>, Seq<char>>,
    x: Seq<char>,
)
    requires
        0 <= k < lines.len(),
        spec_trim(lines[k]).len() > 0,
        spec_trim(lines[k])[0] != '#',
        spec_trim(lines[k])[0] != '@',
        spec_expand(spec_trim(lines[k]), env, fb) == Ok::<Seq<char>, ErrorView>(x),
        forall|i: int| 0 <= i < x.len() ==> x[i] != ':',
    ensures
        spec_headers(lines, k, env, fb) == Err::<(int, Seq<(Seq<char>, Seq<char>)>), ErrorView>(
            ErrorView::InvalidHeaderLine(spec_trim(lines[k])),
        ),
{
    crate::strkit::lemma_first_idx(x, ':');
    if first_idx(x, ':') < x.len() {
        assert(x[first_idx(x, ':') as int] == ':');
    }
}

} // verus!
