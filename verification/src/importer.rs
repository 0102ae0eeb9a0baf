use crate::envfile::strs_view;
use crate::envmap::{pairs_view, EnvMap};
use crate::errors::{spec_message, Error, ErrorView};
use crate::headers::{
    apply_header_rules, lower_name_set, sorted_perm_of, spec_append_rules, spec_filter_headers,
};
use crate::strkit::{
    chars_eq, chars_of, concat_chars, find_char, first_idx, join_chars, lemma_first_idx_from,
    lower_chars, spec_join, spec_lines, spec_lower, spec_starts_with, spec_trim, spec_trim_end,
    spec_upper, split_lines, starts_with_chars, string_from_chars, sub_chars, trim_chars,
    upper_chars, views_of,
};
use crate::substitute::{
    apply_substitutions, build_substitutions, format_curl_contents, now_rfc3339,
    spec_apply_substitutions, spec_build_substitutions, spec_format_curl_contents,
    spec_suggest_file_name, suggest_file_name,
};
use vstd::prelude::*;

verus! {

// ---------------------------------------------------------------------------
// Options and results
// ---------------------------------------------------------------------------

/// Everything one import starts from: the raw command, the variable layers,
/// and the header policy.
pub struct ImportOptions {
    pub command: String,
    pub template_variables: EnvMap,
    pub env_variables: EnvMap,
    pub include_headers: Option<Vec<String>>,
    pub exclude_headers: Option<Vec<String>>,
    pub append_headers: Option<EnvMap>,
}

impl ImportOptions {
    pub open spec fn wf(&self) -> bool {
        &&& self.template_variables.wf()
        &&& self.env_variables.wf()
        &&& match self.append_headers {
            Some(m) => m.wf(),
            None => true,
        }
    }
}

/// A successful import: the rendered request text, a suggested file name,
/// the resolved method and URL, and any non-fatal warnings.
#[derive(Debug)]
pub struct ImportResult {
    pub contents: String,
    pub suggested_filename: Option<String>,
    pub method: String,
    pub url: String,
    pub warnings: Vec<String>,
}

// ---------------------------------------------------------------------------
// Normalising a pasted command
// ---------------------------------------------------------------------------

/// `s` without trailing backslashes.
pub open spec fn trim_bs_end(s: Seq<char>) -> Seq<char>
    decreases s.len(),
{
    if s.len() > 0 && s.last() == '\\' {
        trim_bs_end(s.drop_last())
    } else {
        s
    }
}

/// What one line contributes to the normalised command: its right-trimmed
/// text, continuation backslashes stripped, and a joining space.
pub open spec fn norm_line(l: Seq<char>) -> Seq<char> {
    let t = spec_trim_end(l);
    if t.len() > 0 && t.last() == '\\' {
        trim_bs_end(t) + seq![' ']
    } else {
        t + seq![' ']
    }
}

/// All lines normalised and concatenated.
pub open spec fn norm_lines(lines: Seq<Seq<char>>) -> Seq<char>
    decreases lines.len(),
{
    if lines.len() == 0 {
        Seq::empty()
    } else {
        norm_line(lines[0]) + norm_lines(lines.drop_first())
    }
}

/// The normalised form of a pasted command: trailing-backslash
/// continuations removed, lines joined by single spaces, ends trimmed.
pub open spec fn spec_normalize_command(s: Seq<char>) -> Seq<char> {
    spec_trim(norm_lines(spec_lines(s)))
}

fn trim_bs_end_chars(v: &Vec<char>) -> (r: Vec<char>)
    ensures
        r@ == trim_bs_end(v@),
{
    let mut end: usize = v.len();
    proof {
        assert(v@.take(v@.len() as int) =~= v@);
    }
    while end > 0 && v[end - 1] == '\\'
        invariant
            end <= v@.len(),
            trim_bs_end(v@) == trim_bs_end(v@.take(end as int)),
        decreases end,
    {
        proof {
            assert(v@.take(end as int).last() == v@[end - 1]);
            assert(v@.take(end as int).drop_last() =~= v@.take(end - 1));
        }
        end = end - 1;
    }
    let r = sub_chars(v, 0, end);
    proof {
        if end > 0 {
            assert(v@.take(end as int).last() == v@[end - 1]);
        }
        assert(trim_bs_end(v@.take(end as int)) == v@.take(end as int));
        assert(v@.take(end as int) =~= v@.subrange(0, end as int));
    }
    r
}

fn trim_end_chars(v: &Vec<char>) -> (r: Vec<char>)
    ensures
        r@ == spec_trim_end(v@),
{
    let mut end: usize = v.len();
    proof {
        assert(v@.take(v@.len() as int) =~= v@);
    }
    while end > 0 && crate::strkit::space_char(v[end - 1])
        invariant
            end <= v@.len(),
            spec_trim_end(v@) == spec_trim_end(v@.take(end as int)),
        decreases end,
    {
        proof {
            assert(v@.take(end as int).last() == v@[end - 1]);
            assert(v@.take(end as int).drop_last() =~= v@.take(end - 1));
        }
        end = end - 1;
    }
    let r = sub_chars(v, 0, end);
    proof {
        if end > 0 {
            assert(v@.take(end as int).last() == v@[end - 1]);
        }
        assert(spec_trim_end(v@.take(end as int)) == v@.take(end as int));
        assert(v@.take(end as int) =~= v@.subrange(0, end as int));
    }
    r
}

/// Normalise a pasted curl command, as [`spec_normalize_command`] defines
/// it.
pub fn normalize_command(input: &str) -> (r: String)
    ensures
        r@ == spec_normalize_command(input@),
{
    let iv = chars_of(input);
    let lines = split_lines(&iv);
    let mut out: Vec<char> = Vec::new();
    let mut i: usize = 0;
    let ghost lv = views_of(lines@);
    proof {
        assert(lv.skip(0) =~= lv);
        assert(out@ + norm_lines(lv) =~= norm_lines(lv));
    }
    while i < lines.len()
        invariant
            i <= lines@.len(),
            lv == views_of(lines@),
            out@ + norm_lines(lv.skip(i as int)) == norm_lines(lv),
        decreases lines@.len() - i,
    {
        proof {
            assert(lv.skip(i as int)[0] == lv[i as int]);
            assert(lv.skip(i as int).drop_first() =~= lv.skip(i as int + 1));
        }
        let t = trim_end_chars(&lines[i]);
        let piece = if t.len() > 0 && t[t.len() - 1] == '\\' {
            trim_bs_end_chars(&t)
        } else {
            t
        };
        let mut with_space = piece;
        with_space.push(' ');
        proof {
            assert(with_space@ =~= norm_line(lv[i as int]));
        }
        let new_out = concat_chars(&out, &with_space);
        out = new_out;
        i = i + 1;
        proof {
            assert(out@ + norm_lines(lv.skip(i as int)) =~= norm_lines(lv));
        }
    }
    proof {
        assert(norm_lines(lv.skip(lines@.len() as int)) =~= Seq::<char>::empty());
        assert(out@ + Seq::<char>::empty() =~= out@);
        assert(out@ == norm_lines(lv));
    }
    let trimmed = trim_chars(&out);
    string_from_chars(&trimmed)
}

// ---------------------------------------------------------------------------
// The token-based fallback parser
// ---------------------------------------------------------------------------

/// What the manual strategy has gathered from a curl command.
pub struct ParsedCurl {
    pub method: Option<String>,
    pub url: Option<String>,
    pub headers: Vec<(String, String)>,
    pub body_text: Option<String>,
    pub body_file: Option<String>,
    pub warnings: Vec<String>,
}

/// Ghost image of a [`ParsedCurl`].
pub struct CurlState {
    pub method: Option<Seq<char>>,
    pub url: Option<Seq<char>>,
    pub headers: Seq<(Seq<char>, Seq<char>)>,
    pub body_text: Option<Seq<char>>,
    pub body_file: Option<Seq<char>>,
    pub warnings: Seq<Seq<char>>,
}

impl View for ParsedCurl {
    type V = CurlState;

    open spec fn view(&self) -> CurlState {
        CurlState {
            method: match self.method {
                Some(m) => Some(m@),
                None => None,
            },
            url: match self.url {
                Some(u) => Some(u@),
                None => None,
            },
            headers: pairs_view(self.headers@),
            body_text: match self.body_text {
                Some(b) => Some(b@),
                None => None,
            },
            body_file: match self.body_file {
                Some(f) => Some(f@),
                None => None,
            },
            warnings: strs_view(self.warnings@),
        }
    }
}

/// The state no flag has touched yet.
pub open spec fn empty_state() -> CurlState {
    CurlState {
        method: None,
        url: None,
        headers: Seq::empty(),
        body_text: None,
        body_file: None,
        warnings: Seq::empty(),
    }
}

/// A header value split at its first colon, both sides trimmed; a value
/// without a colon yields nothing.
pub open spec fn spec_parse_header(value: Seq<char>) -> Option<(Seq<char>, Seq<char>)> {
    let i = first_idx(value, ':');
    if i >= value.len() {
        None
    } else {
        Some((spec_trim(value.take(i as int)), spec_trim(value.skip(i as int + 1))))
    }
}

/// The state after one `-H` style value: a parsed header joins the list, an
/// unparseable one becomes a warning.
pub open spec fn header_step(st: CurlState, value: Seq<char>) -> CurlState {
    match spec_parse_header(value) {
        Some(h) => CurlState { headers: st.headers.push(h), ..st },
        None => CurlState {
            warnings: st.warnings.push("Unrecognised header: "@ + value),
            ..st
        },
    }
}

/// The literal basic-auth header a `-u` value becomes; no encoding is
/// applied.
pub open spec fn basic_auth_header(value: Seq<char>) -> (Seq<char>, Seq<char>) {
    ("Authorization"@, "Basic "@ + value)
}

/// Whether some header already names `content-type`, case-insensitively.
pub open spec fn has_content_type(headers: Seq<(Seq<char>, Seq<char>)>) -> bool {
    exists|i: int| 0 <= i < headers.len() && spec_lower(headers[i].0) == "content-type"@
}

/// The headers after `--json` made sure a JSON content type is declared.
pub open spec fn json_header_step(headers: Seq<(Seq<char>, Seq<char>)>) -> Seq<
    (Seq<char>, Seq<char>),
> {
    if has_content_type(headers) {
        headers
    } else {
        headers.push(("Content-Type"@, "application/json"@))
    }
}

/// `s` without leading `@` characters.
pub open spec fn trim_at_start(s: Seq<char>) -> Seq<char>
    decreases s.len(),
{
    if s.len() > 0 && s[0] == '@' {
        trim_at_start(s.drop_first())
    } else {
        s
    }
}

/// The state after a data value: an `@file` reference is kept once and
/// warned about afterwards; any other value overwrites the body text.
pub open spec fn data_step(st: CurlState, value: Seq<char>) -> CurlState {
    if value.len() > 0 && value[0] == '@' {
        if st.body_file is None {
            CurlState { body_file: Some(trim_at_start(value)), ..st }
        } else {
            CurlState {
                warnings: st.warnings.push(
                    "Multiple @file bodies detected; only the first is kept"@,
                ),
                ..st
            }
        }
    } else {
        CurlState { body_text: Some(value), ..st }
    }
}

/// The exact data flags.
pub open spec fn is_data_flag(t: Seq<char>) -> bool {
    ||| t == "-d"@
    ||| t == "--data"@
    ||| t == "--data-raw"@
    ||| t == "--data-binary"@
    ||| t == "--data-urlencode"@
    ||| t == "--data-ascii"@
}

/// A token gluing a data flag and a value with `=`.
pub open spec fn is_glued_data_flag(t: Seq<char>) -> bool {
    (spec_starts_with(t, "-d"@) || spec_starts_with(t, "--data"@)) && crate::strkit::contains_char(
        t,
        '=',
    )
}

/// The value of a glued token: everything after its first `=`, or nothing
/// when no `=` exists.
pub open spec fn glued_value(t: Seq<char>) -> Seq<char> {
    let i = first_idx(t, '=');
    if i >= t.len() {
        Seq::empty()
    } else {
        t.skip(i as int + 1)
    }
}

/// One missing-value failure message.
pub open spec fn missing_value_err(t: Seq<char>) -> ErrorView {
    ErrorView::CurlParseFailure("Option '"@ + t + "' missing value"@)
}

/// The token walk of the manual strategy, from token `i` with state `st`.
///
/// Every recognised flag consumes its value (from the next token, glued
/// after the flag, or after `=`); unknown flags and extra positional
/// tokens become warnings; a bare token becomes the URL once. The walk
/// stops at `--`, and fails only when a value-taking flag ends the input.
pub open spec fn spec_parse_tokens(toks: Seq<Seq<char>>, i: int, st: CurlState) -> Result<
    CurlState,
    ErrorView,
>
    decreases toks.len() - i,
{
    if i < 0 || i >= toks.len() {
        Ok(st)
    } else {
        let t = toks[i];
        if t == "--"@ {
            Ok(st)
        } else if t.len() > 0 && t[0] == '-' {
            if t == "-X"@ || t == "--request"@ {
                if i + 1 >= toks.len() {
                    Err(missing_value_err(t))
                } else {
                    spec_parse_tokens(
                        toks,
                        i + 2,
                        CurlState { method: Some(spec_upper(toks[i + 1])), ..st },
                    )
                }
            } else if spec_starts_with(t, "-X"@) && t.len() > 2 {
                spec_parse_tokens(
                    toks,
                    i + 1,
                    CurlState { method: Some(spec_upper(t.skip(2))), ..st },
                )
            } else if spec_starts_with(t, "--request="@) {
                spec_parse_tokens(
                    toks,
                    i + 1,
                    CurlState { method: Some(spec_upper(t.skip(10))), ..st },
                )
            } else if t == "-H"@ || t == "--header"@ {
                if i + 1 >= toks.len() {
                    Err(missing_value_err(t))
                } else {
                    spec_parse_tokens(toks, i + 2, header_step(st, toks[i + 1]))
                }
            } else if spec_starts_with(t, "-H"@) && t.len() > 2 {
                spec_parse_tokens(toks, i + 1, header_step(st, t.skip(2)))
            } else if spec_starts_with(t, "--header="@) {
                spec_parse_tokens(toks, i + 1, header_step(st, t.skip(9)))
            } else if t == "--url"@ {
                if i + 1 >= toks.len() {
                    Err(missing_value_err(t))
                } else {
                    spec_parse_tokens(toks, i + 2, CurlState { url: Some(toks[i + 1]), ..st })
                }
            } else if spec_starts_with(t, "--url="@) {
                spec_parse_tokens(toks, i + 1, CurlState { url: Some(t.skip(6)), ..st })
            } else if t == "--json"@ {
                if i + 1 >= toks.len() {
                    Err(missing_value_err(t))
                } else {
                    spec_parse_tokens(
                        toks,
                        i + 2,
                        CurlState {
                            headers: json_header_step(st.headers),
                            body_text: Some(toks[i + 1]),
                            ..st
                        },
                    )
                }
            } else if spec_starts_with(t, "--json="@) {
                spec_parse_tokens(
                    toks,
                    i + 1,
                    CurlState {
                        headers: json_header_step(st.headers),
                        body_text: Some(t.skip(7)),
                        ..st
                    },
                )
            } else if t == "-u"@ || t == "--user"@ {
                if i + 1 >= toks.len() {
                    Err(missing_value_err(t))
                } else {
                    spec_parse_tokens(
                        toks,
                        i + 2,
                        CurlState {
                            headers: st.headers.push(basic_auth_header(toks[i + 1])),
                            ..st
                        },
                    )
                }
            } else if spec_starts_with(t, "-u"@) && t.len() > 2 {
                spec_parse_tokens(
                    toks,
                    i + 1,
                    CurlState { headers: st.headers.push(basic_auth_header(t.skip(2))), ..st },
                )
            } else if spec_starts_with(t, "--user="@) {
                spec_parse_tokens(
                    toks,
                    i + 1,
                    CurlState { headers: st.headers.push(basic_auth_header(t.skip(7))), ..st },
                )
            } else if is_data_flag(t) {
                if i + 1 >= toks.len() {
                    Err(missing_value_err(t))
                } else {
                    spec_parse_tokens(toks, i + 2, data_step(st, toks[i + 1]))
                }
            } else if is_glued_data_flag(t) {
                spec_parse_tokens(toks, i + 1, data_step(st, glued_value(t)))
            } else {
                spec_parse_tokens(
                    toks,
                    i + 1,
                    CurlState { warnings: st.warnings.push("Ignored option: "@ + t), ..st },
                )
            }
        } else {
            if st.url is None {
                spec_parse_tokens(toks, i + 1, CurlState { url: Some(t), ..st })
            } else {
                spec_parse_tokens(
                    toks,
                    i + 1,
                    CurlState {
                        warnings: st.warnings.push("Ignoring positional argument: "@ + t),
                        ..st
                    },
                )
            }
        }
    }
}

/// The token after a value-taking flag; fails when the flag ends the input.
pub fn next_value(tokens: &Vec<String>, index: &mut usize) -> (r: Result<String, Error>)
    requires
        *old(index) < tokens@.len(),
    ensures
        match r {
            Ok(v) => *old(index) + 1 < tokens@.len() && v@ == strs_view(tokens@)[*old(index) + 1]
                && *final(index) == *old(index) + 2,
            Err(e) => *old(index) + 1 >= tokens@.len() && e@ == missing_value_err(
                strs_view(tokens@)[*old(index) as int],
            ) && *final(index) == *old(index),
        },
{
    if *index >= tokens.len() - 1 {
        let mut msg = String::from_str("Option '");
        msg.append(tokens[*index].as_str());
        msg.append("' missing value");
        return Err(Error::CurlParseFailure(msg));
    }
    let value = tokens[*index + 1].clone();
    *index = *index + 2;
    Ok(value)
}

/// A header value split at its first colon; mirrors [`spec_parse_header`].
pub fn parse_header(value: &str) -> (r: Option<(String, String)>)
    ensures
        match r {
            Some(h) => spec_parse_header(value@) == Some((h.0@, h.1@)),
            None => spec_parse_header(value@) is None,
        },
{
    let v = chars_of(value);
    match find_char(&v, ':', 0) {
        None => {
            proof {
                lemma_first_idx_from(v@, ':', v@.len() as int);
            }
            None
        },
        Some(i) => {
            proof {
                lemma_first_idx_from(v@, ':', i as int);
            }
            let n = v.len();
            let name_raw = sub_chars(&v, 0, i);
            let val_raw = sub_chars(&v, i + 1, n);
            let name = trim_chars(&name_raw);
            let val = trim_chars(&val_raw);
            proof {
                assert(name_raw@ == value@.take(i as int));
                assert(val_raw@ == value@.skip(i as int + 1));
            }
            Some((string_from_chars(&name), string_from_chars(&val)))
        },
    }
}

/// The literal basic-auth header of a `-u` value; mirrors
/// [`basic_auth_header`].
pub fn build_basic_auth_header(value: &str) -> (r: (String, String))
    ensures
        (r.0@, r.1@) == basic_auth_header(value@),
{
    let mut v = String::from_str("Basic ");
    v.append(value);
    (String::from_str("Authorization"), v)
}

/// Add a JSON content type unless one is already declared; mirrors
/// [`json_header_step`].
pub fn ensure_json_header(headers: &mut Vec<(String, String)>)
    ensures
        pairs_view(final(headers)@) == json_header_step(pairs_view(old(headers)@)),
{
    let target = chars_of("content-type");
    let mut i: usize = 0;
    while i < headers.len()
        invariant
            i <= headers@.len(),
            target@ == "content-type"@,
            forall|j: int|
                0 <= j < i ==> spec_lower(#[trigger] pairs_view(headers@)[j].0)
                    != "content-type"@,
        decreases headers@.len() - i,
    {
        let nv = chars_of(headers[i].0.as_str());
        let low = lower_chars(&nv);
        if chars_eq(&low, &target) {
            proof {
                assert(spec_lower(pairs_view(headers@)[i as int].0) == "content-type"@);
                assert(has_content_type(pairs_view(headers@)));
            }
            return ;
        }
        i = i + 1;
    }
    proof {
        if has_content_type(pairs_view(headers@)) {
            let w = choose|w: int|
                0 <= w < pairs_view(headers@).len() && spec_lower(pairs_view(headers@)[w].0)
                    == "content-type"@;
            assert(false);
        }
    }
    let ghost oldp = pairs_view(headers@);
    headers.push((String::from_str("Content-Type"), String::from_str("application/json")));
    proof {
        assert(pairs_view(headers@) =~= oldp.push(("Content-Type"@, "application/json"@)));
    }
}

/// Record a data value on the state; mirrors [`data_step`].
pub fn handle_data_option(parsed: &mut ParsedCurl, value: String)
    ensures
        final(parsed)@ == data_step(old(parsed)@, value@),
{
    let v = chars_of(value.as_str());
    if v.len() > 0 && v[0] == '@' {
        match &parsed.body_file {
            None => {
                let mut start: usize = 0;
                proof {
                    assert(v@.skip(0) =~= v@);
                }
                while start < v.len() && v[start] == '@'
                    invariant
                        start <= v@.len(),
                        trim_at_start(v@) == trim_at_start(v@.skip(start as int)),
                    decreases v@.len() - start,
                {
                    proof {
                        assert(v@.skip(start as int)[0] == v@[start as int]);
                        assert(v@.skip(start as int).drop_first() =~= v@.skip(start as int + 1));
                    }
                    start = start + 1;
                }
                proof {
                    if start < v@.len() {
                        assert(v@.skip(start as int)[0] == v@[start as int]);
                    }
                    assert(trim_at_start(v@.skip(start as int)) == v@.skip(start as int));
                }
                let rest = sub_chars(&v, start, v.len());
                parsed.body_file = Some(string_from_chars(&rest));
            },
            Some(_) => {
                parsed.warnings.push(
                    String::from_str("Multiple @file bodies detected; only the first is kept"),
                );
                proof {
                    assert(strs_view(parsed.warnings@) =~= strs_view(
                        old(parsed).warnings@,
                    ).push("Multiple @file bodies detected; only the first is kept"@));
                }
            },
        }
    } else {
        parsed.body_text = Some(value);
    }
}

/// One `-H` style value folded into the state; mirrors [`header_step`].
fn apply_header_value(st: &mut ParsedCurl, value: &Vec<char>)
    ensures
        final(st)@ == header_step(old(st)@, value@),
{
    let vs = string_from_chars(value);
    match parse_header(vs.as_str()) {
        Some(h) => {
            let ghost gh = (h.0@, h.1@);
            st.headers.push(h);
            proof {
                assert(pairs_view(st.headers@) =~= pairs_view(old(st).headers@).push(gh));
            }
        },
        None => {
            let mut w = String::from_str("Unrecognised header: ");
            w.append(vs.as_str());
            let ghost gw = w@;
            st.warnings.push(w);
            proof {
                assert(strs_view(st.warnings@) =~= strs_view(old(st).warnings@).push(gw));
            }
        },
    }
}

/// Upper-cased text of a character vector.
fn upper_string(v: &Vec<char>) -> (r: String)
    ensures
        r@ == spec_upper(v@),
{
    let u = upper_chars(v);
    string_from_chars(&u)
}

/// The exact data flags; mirrors [`is_data_flag`].
fn data_flag_exec(t: &Vec<char>) -> (r: bool)
    ensures
        r == is_data_flag(t@),
{
    let a = chars_of("-d");
    if chars_eq(t, &a) {
        return true;
    }
    let a = chars_of("--data");
    if chars_eq(t, &a) {
        return true;
    }
    let a = chars_of("--data-raw");
    if chars_eq(t, &a) {
        return true;
    }
    let a = chars_of("--data-binary");
    if chars_eq(t, &a) {
        return true;
    }
    let a = chars_of("--data-urlencode");
    if chars_eq(t, &a) {
        return true;
    }
    let a = chars_of("--data-ascii");
    if chars_eq(t, &a) {
        return true;
    }
    false
}

/// The token walk; mirrors [`spec_parse_tokens`].
fn parse_tokens_from(toks: &Vec<String>, i: usize, st: ParsedCurl) -> (r: Result<
    ParsedCurl,
    Error,
>)
    ensures
        match r {
            Ok(out) => spec_parse_tokens(strs_view(toks@), i as int, st@) == Ok::<
                CurlState,
                ErrorView,
            >(out@),
            Err(e) => spec_parse_tokens(strs_view(toks@), i as int, st@) == Err::<
                CurlState,
                ErrorView,
            >(e@),
        },
    decreases toks@.len() - i,
{
    if i >= toks.len() {
        return Ok(st);
    }
    let t = chars_of(toks[i].as_str());
    proof {
        assert(t@ == strs_view(toks@)[i as int]);
    }
    let lit = chars_of("--");
    if chars_eq(&t, &lit) {
        return Ok(st);
    }
    if t.len() > 0 && t[0] == '-' {
        let x_flag = chars_of("-X");
        let request_flag = chars_of("--request");
        if chars_eq(&t, &x_flag) || chars_eq(&t, &request_flag) {
            let mut idx = i;
            match next_value(toks, &mut idx) {
                Err(e) => return Err(e),
                Ok(value) => {
                    let vc = chars_of(value.as_str());
                    let mut st2 = st;
                    st2.method = Some(upper_string(&vc));
                    return parse_tokens_from(toks, idx, st2);
                },
            }
        }
        if starts_with_chars(&t, &x_flag) && t.len() > 2 {
            let tail = sub_chars(&t, 2, t.len());
            let mut st2 = st;
            st2.method = Some(upper_string(&tail));
            return parse_tokens_from(toks, i + 1, st2);
        }
        let request_eq = chars_of("--request=");
        if starts_with_chars(&t, &request_eq) {
            proof {
                reveal_strlit("--request=");
            }
            let tail = sub_chars(&t, 10, t.len());
            let mut st2 = st;
            st2.method = Some(upper_string(&tail));
            return parse_tokens_from(toks, i + 1, st2);
        }
        let h_flag = chars_of("-H");
        let header_flag = chars_of("--header");
        if chars_eq(&t, &h_flag) || chars_eq(&t, &header_flag) {
            let mut idx = i;
            match next_value(toks, &mut idx) {
                Err(e) => return Err(e),
                Ok(value) => {
                    let vc = chars_of(value.as_str());
                    let mut st2 = st;
                    apply_header_value(&mut st2, &vc);
                    return parse_tokens_from(toks, idx, st2);
                },
            }
        }
        if starts_with_chars(&t, &h_flag) && t.len() > 2 {
            let tail = sub_chars(&t, 2, t.len());
            let mut st2 = st;
            apply_header_value(&mut st2, &tail);
            return parse_tokens_from(toks, i + 1, st2);
        }
        let header_eq = chars_of("--header=");
        if starts_with_chars(&t, &header_eq) {
            proof {
                reveal_strlit("--header=");
            }
            let tail = sub_chars(&t, 9, t.len());
            let mut st2 = st;
            apply_header_value(&mut st2, &tail);
            return parse_tokens_from(toks, i + 1, st2);
        }
        let url_flag = chars_of("--url");
        if chars_eq(&t, &url_flag) {
            let mut idx = i;
            match next_value(toks, &mut idx) {
                Err(e) => return Err(e),
                Ok(value) => {
                    let mut st2 = st;
                    st2.url = Some(value);
                    return parse_tokens_from(toks, idx, st2);
                },
            }
        }
        let url_eq = chars_of("--url=");
        if starts_with_chars(&t, &url_eq) {
            proof {
                reveal_strlit("--url=");
            }
            let tail = sub_chars(&t, 6, t.len());
            let mut st2 = st;
            st2.url = Some(string_from_chars(&tail));
            return parse_tokens_from(toks, i + 1, st2);
        }
        let json_flag = chars_of("--json");
        if chars_eq(&t, &json_flag) {
            let mut idx = i;
            match next_value(toks, &mut idx) {
                Err(e) => return Err(e),
                Ok(value) => {
                    let mut st2 = st;
                    ensure_json_header(&mut st2.headers);
                    st2.body_text = Some(value);
                    return parse_tokens_from(toks, idx, st2);
                },
            }
        }
        let json_eq = chars_of("--json=");
        if starts_with_chars(&t, &json_eq) {
            proof {
                reveal_strlit("--json=");
            }
            let tail = sub_chars(&t, 7, t.len());
            let mut st2 = st;
            ensure_json_header(&mut st2.headers);
            st2.body_text = Some(string_from_chars(&tail));
            return parse_tokens_from(toks, i + 1, st2);
        }
        let u_flag = chars_of("-u");
        let user_flag = chars_of("--user");
        if chars_eq(&t, &u_flag) || chars_eq(&t, &user_flag) {
            let mut idx = i;
            match next_value(toks, &mut idx) {
                Err(e) => return Err(e),
                Ok(value) => {
                    let h = build_basic_auth_header(value.as_str());
                    let ghost gh = (h.0@, h.1@);
                    let mut st2 = st;
                    st2.headers.push(h);
                    proof {
                        assert(pairs_view(st2.headers@) =~= pairs_view(st.headers@).push(gh));
                    }
                    return parse_tokens_from(toks, idx, st2);
                },
            }
        }
        if starts_with_chars(&t, &u_flag) && t.len() > 2 {
            let tail = sub_chars(&t, 2, t.len());
            let ts = string_from_chars(&tail);
            let h = build_basic_auth_header(ts.as_str());
            let ghost gh = (h.0@, h.1@);
            let mut st2 = st;
            st2.headers.push(h);
            proof {
                assert(pairs_view(st2.headers@) =~= pairs_view(st.headers@).push(gh));
            }
            return parse_tokens_from(toks, i + 1, st2);
        }
        let user_eq = chars_of("--user=");
        if starts_with_chars(&t, &user_eq) {
            proof {
                reveal_strlit("--user=");
            }
            let tail = sub_chars(&t, 7, t.len());
            let ts = string_from_chars(&tail);
            let h = build_basic_auth_header(ts.as_str());
            let ghost gh = (h.0@, h.1@);
            let mut st2 = st;
            st2.headers.push(h);
            proof {
                assert(pairs_view(st2.headers@) =~= pairs_view(st.headers@).push(gh));
            }
            return parse_tokens_from(toks, i + 1, st2);
        }
        if data_flag_exec(&t) {
            let mut idx = i;
            match next_value(toks, &mut idx) {
                Err(e) => return Err(e),
                Ok(value) => {
                    let mut st2 = st;
                    handle_data_option(&mut st2, value);
                    return parse_tokens_from(toks, idx, st2);
                },
            }
        }
        let d_prefix = chars_of("-d");
        let data_prefix = chars_of("--data");
        let has_eq = crate::strkit::has_char(&t, '=');
        if (starts_with_chars(&t, &d_prefix) || starts_with_chars(&t, &data_prefix)) && has_eq {
            match find_char(&t, '=', 0) {
                None => {
                    proof {
                        assert(false);
                    }
                    return Ok(st);
                },
                Some(e_pos) => {
                    proof {
                        lemma_first_idx_from(t@, '=', e_pos as int);
                    }
                    let tail = sub_chars(&t, e_pos + 1, t.len());
                    let mut st2 = st;
                    handle_data_option(&mut st2, string_from_chars(&tail));
                    return parse_tokens_from(toks, i + 1, st2);
                },
            }
        }
        let mut w = String::from_str("Ignored option: ");
        let ts2 = string_from_chars(&t);
        w.append(ts2.as_str());
        let ghost gw = w@;
        let mut st2 = st;
        st2.warnings.push(w);
        proof {
            assert(strs_view(st2.warnings@) =~= strs_view(st.warnings@).push(gw));
        }
        parse_tokens_from(toks, i + 1, st2)
    } else {
        match &st.url {
            None => {
                let mut st2 = st;
                st2.url = Some(string_from_chars(&t));
                parse_tokens_from(toks, i + 1, st2)
            },
            Some(_) => {
                let mut w = String::from_str("Ignoring positional argument: ");
                let ts2 = string_from_chars(&t);
                w.append(ts2.as_str());
                let ghost gw = w@;
                let mut st2 = st;
                st2.warnings.push(w);
                proof {
                    assert(strs_view(st2.warnings@) =~= strs_view(st.warnings@).push(gw));
                }
                parse_tokens_from(toks, i + 1, st2)
            },
        }
    }
}

/// Walk a shell-split curl command's tokens, past the leading `curl`, and
/// gather what they say, as [`spec_parse_tokens`] defines it.
pub fn parse_tokens(tokens: &Vec<String>) -> (r: Result<ParsedCurl, Error>)
    ensures
        match r {
            Ok(out) => spec_parse_tokens(strs_view(tokens@), 1, empty_state()) == Ok::<
                CurlState,
                ErrorView,
            >(out@),
            Err(e) => spec_parse_tokens(strs_view(tokens@), 1, empty_state()) == Err::<
                CurlState,
                ErrorView,
            >(e@),
        },
{
    let st = ParsedCurl {
        method: None,
        url: None,
        headers: Vec::new(),
        body_text: None,
        body_file: None,
        warnings: Vec::new(),
    };
    proof {
        assert(st@.headers =~= empty_state().headers);
        assert(st@.warnings =~= empty_state().warnings);
        assert(st@ == empty_state());
    }
    parse_tokens_from(tokens, 1, st)
}

// ---------------------------------------------------------------------------
// Outside parsers
// ---------------------------------------------------------------------------

/// What POSIX shell word splitting yields for a text, or nothing when a
/// quote never closes.
pub uninterp spec fn shell_tokens_of(s: Seq<char>) -> Option<Seq<Seq<char>>>;

/// Relies on `shell_words::split`: POSIX shell word splitting, whose only
/// failure is an unmatched quote with a fixed message; the result depends
/// on the text alone.
#[verifier::external_body]
fn shell_split(s: &str) -> (r: Result<Vec<String>, String>)
    ensures
        match r {
            Ok(toks) => shell_tokens_of(s@) == Some(strs_view(toks@)),
            Err(m) => shell_tokens_of(s@) is None && m@ == "missing closing quote"@,
        },
{
    match shell_words::split(s) {
        Ok(toks) => Ok(toks),
        Err(e) => Err(format!("{}", e)),
    }
}

// ---------------------------------------------------------------------------
// Screening commands the grammar parser cannot split
// ---------------------------------------------------------------------------

/// Whitespace as the curl grammar knows it.
pub open spec fn grammar_ws(c: char) -> bool {
    c == ' ' || c == '\t'
}

/// Length of the leading whitespace run.
pub open spec fn ws_run(s: Seq<char>) -> nat
    decreases s.len(),
{
    if s.len() > 0 && grammar_ws(s[0]) {
        1 + ws_run(s.drop_first())
    } else {
        0
    }
}

/// Length of the leading whitespace-free run.
pub open spec fn nonws_run(s: Seq<char>) -> nat
    decreases s.len(),
{
    if s.len() > 0 && !grammar_ws(s[0]) {
        1 + nonws_run(s.drop_first())
    } else {
        0
    }
}

/// Position of the closing double quote, skipping backslash escapes;
/// `s.len()` when none closes.
pub open spec fn dq_close(s: Seq<char>) -> nat
    decreases s.len(),
{
    if s.len() == 0 {
        0
    } else if s[0] == '"' {
        0
    } else if s[0] == '\\' && s.len() >= 2 {
        2 + dq_close(s.skip(2))
    } else {
        1 + dq_close(s.drop_first())
    }
}

proof fn lemma_ws_run_bound(s: Seq<char>)
    ensures
        ws_run(s) <= s.len(),
    decreases s.len(),
{
    if s.len() > 0 && grammar_ws(s[0]) {
        lemma_ws_run_bound(s.drop_first());
    }
}

proof fn lemma_ws_run_from(s: Seq<char>, w: int)
    requires
        0 <= w <= s.len(),
        forall|j: int| 0 <= j < w ==> grammar_ws(s[j]),
        w < s.len() ==> !grammar_ws(s[w]),
    ensures
        ws_run(s) == w,
    decreases s.len(),
{
    if w > 0 {
        lemma_ws_run_from(s.drop_first(), w - 1);
    }
}

proof fn lemma_nonws_run_from(s: Seq<char>, w: int)
    requires
        0 <= w <= s.len(),
        forall|j: int| 0 <= j < w ==> !grammar_ws(s[j]),
        w < s.len() ==> grammar_ws(s[w]),
    ensures
        nonws_run(s) == w,
    decreases s.len(),
{
    if w > 0 {
        lemma_nonws_run_from(s.drop_first(), w - 1);
    }
}

/// Whether a colon is missing from one header value that follows a header
/// flag: the bare whitespace-free token must carry one, and so must the
/// inside of a leading quote when that quote closes. Erring on the large
/// side is deliberate: a flagged command merely falls to the token
/// strategy, which treats such headers as warnings.
pub open spec fn value_colon_risk(v: Seq<char>) -> bool {
    let w = ws_run(v);
    if w == 0 || w >= v.len() {
        false
    } else {
        let val = v.skip(w as int);
        let bare = val.take(nonws_run(val) as int);
        let bare_ok = crate::strkit::contains_char(bare, ':');
        if val[0] == '\'' {
            let q = first_idx(val.skip(1), '\'');
            if q < val.skip(1).len() {
                !crate::strkit::contains_char(val.skip(1).take(q as int), ':') || !bare_ok
            } else {
                !bare_ok
            }
        } else if val[0] == '"' {
            let q = dq_close(val.skip(1));
            if q < val.skip(1).len() {
                !crate::strkit::contains_char(val.skip(1).take(q as int), ':') || !bare_ok
            } else {
                !bare_ok
            }
        } else {
            !bare_ok
        }
    }
}

/// True when some `-H` or `--header` occurrence could hand the grammar
/// parser a header value without a colon, which that parser does not
/// survive; conservatively judged over the raw text.
pub open spec fn spec_colonless_header_risk(s: Seq<char>) -> bool
    decreases s.len(),
{
    if s.len() == 0 {
        false
    } else {
        let here = (spec_starts_with(s, "--header"@) && value_colon_risk(s.skip(8)))
            || (spec_starts_with(s, "-H"@) && value_colon_risk(s.skip(2)));
        here || spec_colonless_header_risk(s.drop_first())
    }
}

/// Whether `pat` starts at position `i`.
fn matches_at(v: &Vec<char>, i: usize, pat: &Vec<char>) -> (r: bool)
    requires
        i <= v@.len(),
    ensures
        r == spec_starts_with(v@.skip(i as int), pat@),
{
    if pat.len() > v.len() - i {
        return false;
    }
    let window = sub_chars(v, i, i + pat.len());
    proof {
        assert(window@ =~= v@.skip(i as int).subrange(0, pat@.len() as int));
    }
    chars_eq(&window, pat)
}

/// Executable mirror of [`value_colon_risk`] on the suffix at `from`.
fn value_colon_risk_exec(v: &Vec<char>, from: usize) -> (r: bool)
    requires
        from <= v@.len(),
    ensures
        r == value_colon_risk(v@.skip(from as int)),
{
    let ghost vs = v@.skip(from as int);
    let n = v.len();
    let mut p: usize = from;
    while p < n && (v[p] == ' ' || v[p] == '\t')
        invariant
            from <= p <= n,
            n == v@.len(),
            forall|j: int| from <= j < p ==> grammar_ws(v@[j]),
        decreases n - p,
    {
        p = p + 1;
    }
    proof {
        assert forall|j: int| 0 <= j < p - from implies grammar_ws(vs[j]) by {
            assert(vs[j] == v@[from + j]);
        }
        if p < n {
            assert(vs[p - from] == v@[p as int]);
        }
        lemma_ws_run_from(vs, p - from);
    }
    let w = p - from;
    if w == 0 || p >= n {
        return false;
    }
    let ghost val = vs.skip(w as int);
    proof {
        assert(val =~= v@.skip(p as int));
    }
    let mut e: usize = p;
    while e < n && !(v[e] == ' ' || v[e] == '\t')
        invariant
            p <= e <= n,
            n == v@.len(),
            forall|j: int| p <= j < e ==> !grammar_ws(v@[j]),
        decreases n - e,
    {
        e = e + 1;
    }
    proof {
        assert forall|j: int| 0 <= j < e - p implies !grammar_ws(val[j]) by {
            assert(val[j] == v@[p + j]);
        }
        if e < n {
            assert(val[e - p] == v@[e as int]);
        }
        lemma_nonws_run_from(val, e - p);
    }
    let bare = sub_chars(v, p, e);
    proof {
        assert(bare@ =~= val.take(nonws_run(val) as int));
    }
    let bare_ok = crate::strkit::has_char(&bare, ':');
    let c0 = v[p];
    if c0 == '\'' {
        proof {
            assert(val[0] == v@[p as int]);
        }
        match find_char(v, '\'', p + 1) {
            Some(q) => {
                proof {
                    let tail = val.skip(1);
                    assert(tail =~= v@.skip(p as int + 1));
                    assert forall|j: int| 0 <= j < q - p - 1 implies tail[j] != '\'' by {
                        assert(tail[j] == v@[p + 1 + j]);
                    }
                    assert(tail[q - p - 1] == v@[q as int]);
                    lemma_first_idx_from(tail, '\'', q - p - 1);
                }
                let inner = sub_chars(v, p + 1, q);
                proof {
                    assert(inner@ =~= val.skip(1).take(first_idx(val.skip(1), '\'') as int));
                }
                let inner_ok = crate::strkit::has_char(&inner, ':');
                !inner_ok || !bare_ok
            },
            None => {
                proof {
                    let tail = val.skip(1);
                    assert forall|j: int| 0 <= j < tail.len() implies tail[j] != '\'' by {
                        assert(tail[j] == v@[p + 1 + j]);
                    }
                    lemma_first_idx_from(tail, '\'', tail.len() as int);
                }
                !bare_ok
            },
        }
    } else if c0 == '"' {
        proof {
            assert(val[0] == v@[p as int]);
        }
        let base = p + 1;
        let ghost tail = val.skip(1);
        proof {
            assert(tail =~= v@.skip(base as int));
        }
        let mut q: usize = base;
        while q < n && v[q] != '"'
            invariant
                base <= q <= n,
                n == v@.len(),
                tail == v@.skip(base as int),
                dq_close(tail) == q - base + dq_close(v@.skip(q as int)),
            decreases n - q,
        {
            proof {
                assert(v@.skip(q as int)[0] == v@[q as int]);
            }
            if v[q] == '\\' && q + 1 < n {
                proof {
                    assert(v@.skip(q as int).len() >= 2);
                    assert(v@.skip(q as int).skip(2) =~= v@.skip(q as int + 2));
                }
                q = q + 2;
            } else {
                proof {
                    if v@[q as int] == '\\' {
                        assert(v@.skip(q as int).len() < 2);
                    }
                    assert(v@.skip(q as int).drop_first() =~= v@.skip(q as int + 1));
                }
                q = q + 1;
            }
        }
        if q < n {
            proof {
                assert(v@.skip(q as int)[0] == v@[q as int]);
                assert(dq_close(v@.skip(q as int)) == 0);
                assert(dq_close(tail) == q - base);
                assert(dq_close(tail) < tail.len());
            }
            let inner = sub_chars(v, base, q);
            proof {
                assert(inner@ =~= tail.take(dq_close(tail) as int));
            }
            let inner_ok = crate::strkit::has_char(&inner, ':');
            !inner_ok || !bare_ok
        } else {
            proof {
                assert(v@.skip(q as int).len() == 0);
                assert(dq_close(v@.skip(q as int)) == 0);
                assert(dq_close(tail) == tail.len());
            }
            !bare_ok
        }
    } else {
        proof {
            assert(val[0] == v@[p as int]);
        }
        !bare_ok
    }
}

/// Executable mirror of [`spec_colonless_header_risk`] on the suffix at
/// `i`.
fn colonless_risk_exec(v: &Vec<char>, i: usize) -> (r: bool)
    requires
        i <= v@.len(),
    ensures
        r == spec_colonless_header_risk(v@.skip(i as int)),
    decreases v@.len() - i,
{
    if i >= v.len() {
        proof {
            assert(v@.skip(i as int).len() == 0);
        }
        return false;
    }
    let ghost vs = v@.skip(i as int);
    let header_flag = chars_of("--header");
    let h_flag = chars_of("-H");
    proof {
        reveal_strlit("--header");
        reveal_strlit("-H");
    }
    let here = if matches_at(v, i, &header_flag) {
        proof {
            assert(vs.skip(8) =~= v@.skip(i as int + 8));
        }
        value_colon_risk_exec(v, i + 8)
    } else {
        false
    };
    let here2 = if matches_at(v, i, &h_flag) {
        proof {
            assert(vs.skip(2) =~= v@.skip(i as int + 2));
        }
        value_colon_risk_exec(v, i + 2)
    } else {
        false
    };
    proof {
        assert(vs.drop_first() =~= v@.skip(i as int + 1));
    }
    let rest = colonless_risk_exec(v, i + 1);
    here || here2 || rest
}

/// A grammar-parsed curl command, held as plain values.
pub struct CurlCommand {
    pub method: String,
    pub url: String,
    pub headers: Vec<(String, String)>,
    pub body: Vec<String>,
    pub insecure: bool,
}

/// Ghost image of a [`CurlCommand`].
pub struct CurlCommandView {
    pub method: Seq<char>,
    pub url: Seq<char>,
    pub headers: Seq<(Seq<char>, Seq<char>)>,
    pub body: Seq<Seq<char>>,
    pub insecure: bool,
}

impl View for CurlCommand {
    type V = CurlCommandView;

    open spec fn view(&self) -> CurlCommandView {
        CurlCommandView {
            method: self.method@,
            url: self.url@,
            headers: pairs_view(self.headers@),
            body: strs_view(self.body@),
            insecure: self.insecure,
        }
    }
}

/// What the grammar-based curl parser yields for a command text, or
/// nothing when the grammar rejects it.
pub uninterp spec fn curl_parse_of(s: Seq<char>) -> Option<CurlCommandView>;

/// Relies on `curl_parser::ParsedRequest::from_str`: the grammar-based
/// parse of a curl command into method, URL, headers, body parts and the
/// insecure flag; the outcome depends on the command text alone. That
/// parse does not return on a header value without a colon, so the
/// precondition keeps every command the colon screen flags away from it.
#[verifier::external_body]
fn curl_parse(s: &str) -> (r: Result<CurlCommand, String>)
    requires
        !spec_colonless_header_risk(s@),
    ensures
        match r {
            Ok(c) => curl_parse_of(s@) == Some(c@),
            Err(_) => curl_parse_of(s@) is None,
        },
{
    match <curl_parser::ParsedRequest as core::str::FromStr>::from_str(s) {
        Ok(p) => Ok(CurlCommand {
            method: p.method.as_str().to_owned(),
            url: p.url.to_string(),
            headers: p.headers.iter().map(|(n, v)| (n.as_str().to_owned(), v.to_str().unwrap_or_default().to_owned())).collect(),
            body: p.body.clone(),
            insecure: p.insecure,
        }),
        Err(e) => Err(format!("{}", e)),
    }
}

// ---------------------------------------------------------------------------
// The import strategies
// ---------------------------------------------------------------------------

/// Headers with each value run through the substitutions.
pub open spec fn subst_headers(
    hs: Seq<(Seq<char>, Seq<char>)>,
    subs: Seq<(Seq<char>, Seq<char>)>,
) -> Seq<(Seq<char>, Seq<char>)> {
    hs.map_values(|h: (Seq<char>, Seq<char>)| (h.0, spec_apply_substitutions(h.1, subs)))
}

/// An acceptable final header list: the substituted headers filtered by
/// the include and exclude lists, with the append entries added in some
/// strictly sorted order.
pub open spec fn header_rules_ok(
    hs_in: Seq<(Seq<char>, Seq<char>)>,
    inc: Option<Seq<Seq<char>>>,
    exc: Option<Seq<Seq<char>>>,
    app: Option<Seq<(Seq<char>, Seq<char>)>>,
    hs_out: Seq<(Seq<char>, Seq<char>)>,
) -> bool {
    let filtered = spec_filter_headers(hs_in, inc, exc);
    match app {
        None => hs_out == filtered,
        Some(entries) => exists|sorted: Seq<(Seq<char>, Seq<char>)>|
            #![trigger spec_append_rules(sorted, lower_name_set(filtered))]
            sorted_perm_of(entries, sorted) && hs_out == filtered + spec_append_rules(
                sorted,
                lower_name_set(filtered),
            ),
    }
}

/// The optional name lists of the options, as sequences.
pub open spec fn opt_headers_view(l: Option<Vec<String>>) -> Option<Seq<Seq<char>>> {
    match l {
        Some(v) => Some(strs_view(v@)),
        None => None,
    }
}

/// The optional append entries of the options, in order.
pub open spec fn opt_append_view(m: Option<EnvMap>) -> Option<Seq<(Seq<char>, Seq<char>)>> {
    match m {
        Some(mm) => Some(mm.entries_view()),
        None => None,
    }
}

/// What a successful import result must look like, given the variable
/// layers and header policy of the options and the concrete method,
/// original URL, pre-rule headers, body and warnings of a strategy: the
/// URL, method and warnings are carried over, the file name follows the
/// original URL, and the contents render the substituted request under
/// some timestamp and some acceptable final header list.
pub open spec fn import_result_ok(
    template: Seq<(Seq<char>, Seq<char>)>,
    env: Seq<(Seq<char>, Seq<char>)>,
    inc: Option<Seq<Seq<char>>>,
    exc: Option<Seq<Seq<char>>>,
    app: Option<Seq<(Seq<char>, Seq<char>)>>,
    method: Seq<char>,
    url: Seq<char>,
    headers: Seq<(Seq<char>, Seq<char>)>,
    body: Option<Seq<char>>,
    warnings: Seq<Seq<char>>,
    res: ImportResult,
) -> bool {
    let subs = spec_build_substitutions(template, env);
    let url2 = spec_apply_substitutions(url, subs);
    let hs2 = subst_headers(headers, subs);
    let body2 = match body {
        Some(b) => Some(spec_apply_substitutions(b, subs)),
        None => None,
    };
    &&& res.method@ == method
    &&& res.url@ == url2
    &&& strs_view(res.warnings@) == warnings
    &&& match res.suggested_filename {
        Some(n) => spec_suggest_file_name(method, url) == Some(n@),
        None => spec_suggest_file_name(method, url) is None,
    }
    &&& exists|hs_out: Seq<(Seq<char>, Seq<char>)>, ts: Seq<char>|
        #![trigger hs_out.len(), ts.len()]
        header_rules_ok(hs2, inc, exc, app, hs_out)
            && crate::substitute::single_line(ts) && res.contents@
            == spec_format_curl_contents(ts, warnings, method, url2, hs_out, body2)
}


/// The deterministic part of the grammar strategy: what the parsed command
/// contributes before substitution.
pub open spec fn curl_strategy_parts(c: CurlCommandView) -> (
    Seq<char>,
    Seq<char>,
    Seq<(Seq<char>, Seq<char>)>,
    Option<Seq<char>>,
    Seq<Seq<char>>,
) {
    (
        c.method,
        c.url,
        c.headers,
        if c.body.len() == 0 {
            None
        } else {
            Some(spec_join(c.body, seq!['\n']))
        },
        if c.insecure {
            seq!["--insecure detected; certificate validation disabled"@]
        } else {
            Seq::empty()
        },
    )
}

/// Join strings with newlines.
fn join_strings_nl(v: &Vec<String>) -> (r: String)
    ensures
        r@ == spec_join(strs_view(v@), seq!['\n']),
{
    let mut parts: Vec<Vec<char>> = Vec::new();
    let mut i: usize = 0;
    proof {
        assert(views_of(parts@) =~= strs_view(v@).take(0));
    }
    while i < v.len()
        invariant
            i <= v@.len(),
            parts@.len() == i,
            views_of(parts@) == strs_view(v@).take(i as int),
        decreases v@.len() - i,
    {
        let c = chars_of(v[i].as_str());
        let ghost gc = c@;
        parts.push(c);
        i = i + 1;
        proof {
            assert(views_of(parts@)[i - 1] == gc);
            assert(views_of(parts@) =~= strs_view(v@).take(i as int));
        }
    }
    proof {
        assert(strs_view(v@).take(v@.len() as int) =~= strs_view(v@));
    }
    let mut sep: Vec<char> = Vec::new();
    sep.push('\n');
    proof {
        assert(sep@ =~= seq!['\n']);
    }
    let joined = join_chars(&parts, &sep);
    string_from_chars(&joined)
}

/// Substitute every header value.
fn substitute_header_values(
    headers: &Vec<(String, String)>,
    subs: &Vec<(String, String)>,
) -> (r: Vec<(String, String)>)
    ensures
        pairs_view(r@) == subst_headers(pairs_view(headers@), pairs_view(subs@)),
{
    let mut out: Vec<(String, String)> = Vec::new();
    let mut i: usize = 0;
    proof {
        assert(pairs_view(out@) =~= subst_headers(pairs_view(headers@).take(0), pairs_view(subs@)));
    }
    while i < headers.len()
        invariant
            i <= headers@.len(),
            out@.len() == i,
            pairs_view(out@) == subst_headers(
                pairs_view(headers@).take(i as int),
                pairs_view(subs@),
            ),
        decreases headers@.len() - i,
    {
        let name = headers[i].0.clone();
        let value = apply_substitutions(headers[i].1.as_str(), subs);
        let ghost gp = (name@, value@);
        let ghost oldout = pairs_view(out@);
        out.push((name, value));
        i = i + 1;
        proof {
            assert(pairs_view(out@) =~= oldout.push(gp));
            assert(gp == subst_headers(pairs_view(headers@).take(i as int), pairs_view(subs@))[i
                - 1]);
            assert(pairs_view(out@) =~= subst_headers(
                pairs_view(headers@).take(i as int),
                pairs_view(subs@),
            ));
        }
    }
    proof {
        assert(pairs_view(headers@).take(headers@.len() as int) =~= pairs_view(headers@));
    }
    out
}

/// The shared tail of both strategies: substitute, apply the header
/// policy, render, and assemble the result.
fn assemble_import(
    options: &ImportOptions,
    method: String,
    url: String,
    headers: Vec<(String, String)>,
    body_text: Option<String>,
    warnings: Vec<String>,
) -> (res: ImportResult)
    requires
        options.wf(),
    ensures
        import_result_ok(
            options.template_variables.entries_view(),
            options.env_variables.entries_view(),
            opt_headers_view(options.include_headers),
            opt_headers_view(options.exclude_headers),
            opt_append_view(options.append_headers),
            method@,
            url@,
            pairs_view(headers@),
            match body_text {
                Some(b) => Some(b@),
                None => None,
            },
            strs_view(warnings@),
            res,
        ),
{
    let subs = build_substitutions(&options.template_variables, &options.env_variables);
    let substituted_url = apply_substitutions(url.as_str(), &subs);
    let substituted_headers = substitute_header_values(&headers, &subs);
    let inc_ref: Option<&Vec<String>> = match &options.include_headers {
        Some(v) => Some(v),
        None => None,
    };
    let exc_ref: Option<&Vec<String>> = match &options.exclude_headers {
        Some(v) => Some(v),
        None => None,
    };
    let app_ref: Option<&EnvMap> = match &options.append_headers {
        Some(m) => Some(m),
        None => None,
    };
    let final_headers = apply_header_rules(substituted_headers, inc_ref, exc_ref, app_ref);
    let substituted_body: Option<String> = match &body_text {
        Some(b) => Some(apply_substitutions(b.as_str(), &subs)),
        None => None,
    };
    let ts = now_rfc3339();
    let body_ref: Option<&String> = match &substituted_body {
        Some(b) => Some(b),
        None => None,
    };
    let contents = format_curl_contents(
        method.as_str(),
        substituted_url.as_str(),
        &final_headers,
        body_ref,
        &warnings,
        ts.as_str(),
    );
    let suggested = suggest_file_name(method.as_str(), url.as_str());
    let ghost gwarn = strs_view(warnings@);
    let ghost gmethod = method@;
    let res = ImportResult {
        contents,
        suggested_filename: suggested,
        method,
        url: substituted_url,
        warnings,
    };
    proof {
        let gsubs = spec_build_substitutions(
            options.template_variables.entries_view(),
            options.env_variables.entries_view(),
        );
        let url2 = spec_apply_substitutions(url@, gsubs);
        let hs2 = subst_headers(pairs_view(headers@), gsubs);
        let body2 = match body_text {
            Some(b) => Some(spec_apply_substitutions(b@, gsubs)),
            None => None,
        };
        let hs_out = pairs_view(final_headers@);
        let ginc = opt_headers_view(options.include_headers);
        let gexc = opt_headers_view(options.exclude_headers);
        let gapp = opt_append_view(options.append_headers);
        assert(crate::headers::opt_list_view(inc_ref) == ginc);
        assert(crate::headers::opt_list_view(exc_ref) == gexc);
        assert(pairs_view(substituted_headers@) == hs2);
        let filtered_goal = spec_filter_headers(hs2, ginc, gexc);
        match app_ref {
            None => {
                assert(gapp is None);
                assert(hs_out == filtered_goal);
                assert(header_rules_ok(hs2, ginc, gexc, gapp, hs_out));
            },
            Some(m) => {
                let filtered_have = spec_filter_headers(
                    pairs_view(substituted_headers@),
                    crate::headers::opt_list_view(inc_ref),
                    crate::headers::opt_list_view(exc_ref),
                );
                let sorted_w = choose|sorted: Seq<(Seq<char>, Seq<char>)>|
                    #![trigger spec_append_rules(sorted, lower_name_set(filtered_have))]
                    sorted_perm_of(m.entries_view(), sorted) && pairs_view(final_headers@)
                        == filtered_have + spec_append_rules(
                        sorted,
                        lower_name_set(filtered_have),
                    );
                assert(filtered_have == filtered_goal);
                assert(sorted_perm_of(m.entries_view(), sorted_w));
                assert(hs_out == filtered_goal + spec_append_rules(
                    sorted_w,
                    lower_name_set(filtered_goal),
                ));
                assert(header_rules_ok(hs2, ginc, gexc, gapp, hs_out));
            },
        }
        assert(res.contents@ == spec_format_curl_contents(
            ts@,
            gwarn,
            gmethod,
            url2,
            hs_out,
            body2,
        ));
        assert(hs_out.len() >= 0);
        assert(ts@.len() >= 0);
        assert(import_result_ok(
            options.template_variables.entries_view(),
            options.env_variables.entries_view(),
            ginc,
            gexc,
            gapp,
            gmethod,
            url@,
            pairs_view(headers@),
            match body_text {
                Some(b) => Some(b@),
                None => None,
            },
            gwarn,
            res,
        ));
    }
    res
}

/// The grammar strategy stands aside for a command: either the colon
/// screen flags it (the grammar parser would not survive it) or the
/// grammar rejects it.
pub open spec fn grammar_strategy_out(cmd: Seq<char>) -> bool {
    spec_colonless_header_risk(spec_trim(cmd)) || curl_parse_of(spec_trim(cmd)) is None
}

/// Import through the grammar-based curl parser.
///
/// Succeeds exactly when the trimmed command passes the colon screen and
/// the grammar accepts it; an `--insecure` flag is surfaced as a warning,
/// the body parts are joined by newlines, and the result follows
/// [`import_result_ok`].
pub fn import_via_curl_parser(options: &ImportOptions) -> (r: Result<ImportResult, Error>)
    requires
        options.wf(),
    ensures
        match r {
            Ok(res) => !spec_colonless_header_risk(spec_trim(options.command@)) && (curl_parse_of(
                spec_trim(options.command@),
            ) matches Some(c) && import_result_ok(
                options.template_variables.entries_view(),
                options.env_variables.entries_view(),
                opt_headers_view(options.include_headers),
                opt_headers_view(options.exclude_headers),
                opt_append_view(options.append_headers),
                curl_strategy_parts(c).0,
                curl_strategy_parts(c).1,
                curl_strategy_parts(c).2,
                curl_strategy_parts(c).3,
                curl_strategy_parts(c).4,
                res,
            )),
            Err(e) => grammar_strategy_out(options.command@) && e@ matches
                ErrorView::CurlParseFailure(_),
        },
{
    let cv = chars_of(options.command.as_str());
    let trimmed = trim_chars(&cv);
    if colonless_risk_exec(&trimmed, 0) {
        proof {
            assert(trimmed@.skip(0) =~= trimmed@);
        }
        return Err(
            Error::CurlParseFailure(
                String::from_str(
                    "Failed to parse curl command: a header value without a colon",
                ),
            ),
        );
    }
    proof {
        assert(trimmed@.skip(0) =~= trimmed@);
    }
    let tstr = string_from_chars(&trimmed);
    match curl_parse(tstr.as_str()) {
        Err(msg) => {
            let mut m = String::from_str("Failed to parse curl command: ");
            m.append(msg.as_str());
            Err(Error::CurlParseFailure(m))
        },
        Ok(cc) => {
            let mut warnings: Vec<String> = Vec::new();
            if cc.insecure {
                warnings.push(
                    String::from_str("--insecure detected; certificate validation disabled"),
                );
                proof {
                    assert(strs_view(warnings@) =~= seq![
                        "--insecure detected; certificate validation disabled"@,
                    ]);
                }
            } else {
                proof {
                    assert(strs_view(warnings@) =~= Seq::<Seq<char>>::empty());
                }
            }
            let body_text: Option<String> = if cc.body.len() == 0 {
                None
            } else {
                Some(join_strings_nl(&cc.body))
            };
            let res = assemble_import(
                options,
                cc.method.clone(),
                cc.url.clone(),
                cc.headers,
                body_text,
                warnings,
            );
            Ok(res)
        },
    }
}

/// The deterministic part of the manual fallback: tokenisation, the
/// leading `curl` check, the token walk, and the method and URL defaults.
pub open spec fn manual_outcome(cmd: Seq<char>) -> Result<
    (Seq<char>, Seq<char>, CurlState),
    ErrorView,
> {
    match shell_tokens_of(spec_trim(cmd)) {
        None => Err(ErrorView::CurlParseFailure("missing closing quote"@)),
        Some(toks) => {
            if toks.len() == 0 {
                Err(ErrorView::CurlParseFailure("No command provided"@))
            } else if spec_lower(toks[0]) != "curl"@ {
                Err(ErrorView::CurlParseFailure("Command must start with 'curl'"@))
            } else {
                match spec_parse_tokens(toks, 1, empty_state()) {
                    Err(e) => Err(e),
                    Ok(st) => {
                        let method = match st.method {
                            Some(m) => m,
                            None => if st.body_text is Some || st.body_file is Some {
                                "POST"@
                            } else {
                                "GET"@
                            },
                        };
                        match st.url {
                            None => Err(
                                ErrorView::CurlParseFailure("Unable to determine request URL"@),
                            ),
                            Some(u) => Ok((method, u, st)),
                        }
                    },
                }
            }
        },
    }
}

/// Import through the token-based fallback, as [`manual_outcome`] and
/// [`import_result_ok`] define it.
pub fn import_via_manual(options: &ImportOptions) -> (r: Result<ImportResult, Error>)
    requires
        options.wf(),
    ensures
        match r {
            Ok(res) => manual_outcome(options.command@) matches Ok((m, u, st))
                && import_result_ok(
                options.template_variables.entries_view(),
                options.env_variables.entries_view(),
                opt_headers_view(options.include_headers),
                opt_headers_view(options.exclude_headers),
                opt_append_view(options.append_headers),
                m,
                u,
                st.headers,
                st.body_text,
                st.warnings,
                res,
            ),
            Err(e) => manual_outcome(options.command@) == Err::<
                (Seq<char>, Seq<char>, CurlState),
                ErrorView,
            >(e@),
        },
{
    let cv = chars_of(options.command.as_str());
    let trimmed = trim_chars(&cv);
    let tstr = string_from_chars(&trimmed);
    match shell_split(tstr.as_str()) {
        Err(m) => Err(Error::CurlParseFailure(m)),
        Ok(tokens) => {
            if tokens.len() == 0 {
                return Err(Error::CurlParseFailure(String::from_str("No command provided")));
            }
            let first = chars_of(tokens[0].as_str());
            let lowered = lower_chars(&first);
            let curl_lit = chars_of("curl");
            if !chars_eq(&lowered, &curl_lit) {
                return Err(
                    Error::CurlParseFailure(String::from_str("Command must start with 'curl'")),
                );
            }
            match parse_tokens(&tokens) {
                Err(e) => Err(e),
                Ok(parsed) => {
                    let method: String = match &parsed.method {
                        Some(m) => m.clone(),
                        None => {
                            if parsed.body_text.is_some() || parsed.body_file.is_some() {
                                String::from_str("POST")
                            } else {
                                String::from_str("GET")
                            }
                        },
                    };
                    match &parsed.url {
                        None => Err(
                            Error::CurlParseFailure(
                                String::from_str("Unable to determine request URL"),
                            ),
                        ),
                        Some(u) => {
                            let res = assemble_import(
                                options,
                                method,
                                u.clone(),
                                parsed.headers,
                                parsed.body_text,
                                parsed.warnings,
                            );
                            Ok(res)
                        },
                    }
                },
            }
        },
    }
}

/// A combined failure message: some first cause, a line break, and then
/// exactly the given second cause.
pub open spec fn carries_fallback_cause(m: Seq<char>, cause: Seq<char>) -> bool {
    &&& m.len() > cause.len()
    &&& m[m.len() - cause.len() - 1] == '\n'
    &&& m.skip(m.len() - cause.len()) == cause
}

/// Import a curl command: the grammar strategy first, then the manual
/// fallback, and on a double failure one combined message holding both
/// causes.
pub fn import_curl_command(options: &ImportOptions) -> (r: Result<ImportResult, Error>)
    requires
        options.wf(),
    ensures
        match r {
            Ok(res) => {
                ||| (!spec_colonless_header_risk(spec_trim(options.command@)) && (curl_parse_of(
                    spec_trim(options.command@),
                ) matches Some(c) && import_result_ok(
                    options.template_variables.entries_view(),
                    options.env_variables.entries_view(),
                    opt_headers_view(options.include_headers),
                    opt_headers_view(options.exclude_headers),
                    opt_append_view(options.append_headers),
                    curl_strategy_parts(c).0,
                    curl_strategy_parts(c).1,
                    curl_strategy_parts(c).2,
                    curl_strategy_parts(c).3,
                    curl_strategy_parts(c).4,
                    res,
                )))
                ||| (grammar_strategy_out(options.command@) && (manual_outcome(
                    options.command@,
                ) matches Ok((m, u, st)) && import_result_ok(
                    options.template_variables.entries_view(),
                    options.env_variables.entries_view(),
                    opt_headers_view(options.include_headers),
                    opt_headers_view(options.exclude_headers),
                    opt_append_view(options.append_headers),
                    m,
                    u,
                    st.headers,
                    st.body_text,
                    st.warnings,
                    res,
                )))
            },
            Err(e) => {
                &&& grammar_strategy_out(options.command@)
                &&& manual_outcome(options.command@) is Err
                &&& e@ matches ErrorView::CurlParseFailure(m) && carries_fallback_cause(
                    m,
                    spec_message(manual_outcome(options.command@)->Err_0),
                )
            },
        },
{
    match import_via_curl_parser(options) {
        Ok(res) => Ok(res),
        Err(primary) => match import_via_manual(options) {
            Ok(res) => Ok(res),
            Err(fallback) => {
                let mut m = primary.message();
                let ghost gprimary = m@;
                m.append("\n");
                let fm = fallback.message();
                m.append(fm.as_str());
                proof {
                    reveal_strlit("\n");
                    let cause = spec_message(fallback@);
                    assert(m@ =~= gprimary + seq!['\n'] + cause);
                    assert(m@.skip(m@.len() - cause.len()) =~= cause);
                    assert(m@[m@.len() - cause.len() - 1] == '\n');
                }
                Err(Error::CurlParseFailure(m))
            },
        },
    }
}

} // verus!
