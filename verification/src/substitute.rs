use crate::envfile::strs_view;
use crate::envmap::{pairs_view, EnvMap};
use crate::strkit::{
    chars_of, concat_chars, is_ascii_alphanumeric, join_chars, lower_chars, spec_join, spec_lower,
    spec_replace_all, replace_all, string_from_chars, sub_chars, views_of,
};
use vstd::prelude::*;

verus! {

// ---------------------------------------------------------------------------
// Substitution candidates
// ---------------------------------------------------------------------------

/// The entries with a non-empty value, in order.
pub open spec fn spec_nonempty_values(s: Seq<(Seq<char>, Seq<char>)>) -> Seq<(Seq<char>, Seq<char>)>
    decreases s.len(),
{
    if s.len() == 0 {
        Seq::empty()
    } else {
        let rest = spec_nonempty_values(s.drop_first());
        if s[0].1.len() > 0 {
            seq![s[0]] + rest
        } else {
            rest
        }
    }
}

/// Insert one entry into a list held in descending value-length order,
/// after every entry whose value is at least as long — the position a
/// stable sort gives it.
pub open spec fn insert_desc(
    s: Seq<(Seq<char>, Seq<char>)>,
    p: (Seq<char>, Seq<char>),
) -> Seq<(Seq<char>, Seq<char>)>
    decreases s.len(),
{
    if s.len() == 0 {
        seq![p]
    } else if s[0].1.len() >= p.1.len() {
        seq![s[0]] + insert_desc(s.drop_first(), p)
    } else {
        seq![p] + s
    }
}

/// Stable sort by descending value length, built by inserting each entry
/// in turn.
pub open spec fn sort_desc(s: Seq<(Seq<char>, Seq<char>)>) -> Seq<(Seq<char>, Seq<char>)>
    decreases s.len(),
{
    if s.len() == 0 {
        Seq::empty()
    } else {
        insert_desc(sort_desc(s.drop_last()), s.last())
    }
}

/// The substitution candidates of a template and environment pair: all
/// their entries with non-empty values, longest value first, ties keeping
/// the template-then-environment entry order.
pub open spec fn spec_build_substitutions(
    template: Seq<(Seq<char>, Seq<char>)>,
    env: Seq<(Seq<char>, Seq<char>)>,
) -> Seq<(Seq<char>, Seq<char>)> {
    sort_desc(spec_nonempty_values(template + env))
}

/// Length comparison of two values, by characters.
fn value_len_ge(a: &String, b: &String) -> (r: bool)
    ensures
        r == (a@.len() >= b@.len()),
{
    let sa = a.as_str();
    let sb = b.as_str();
    let na = sa.unicode_len();
    let nb = sb.unicode_len();
    proof {
        assert(sa@ == a@);
        assert(sb@ == b@);
    }
    na >= nb
}

/// Executable mirror of [`insert_desc`].
fn insert_desc_exec(s: &mut Vec<(String, String)>, p: (String, String))
    ensures
        pairs_view(final(s)@) == insert_desc(pairs_view(old(s)@), (p.0@, p.1@)),
{
    let ghost gp = (p.0@, p.1@);
    let mut pos: usize = 0;
    proof {
        assert(pairs_view(s@).skip(0) =~= pairs_view(s@));
        assert(pairs_view(s@).take(0) + insert_desc(pairs_view(s@), gp) =~= insert_desc(
            pairs_view(s@),
            gp,
        ));
    }
    while pos < s.len() && value_len_ge(&s[pos].1, &p.1)
        invariant
            pos <= s@.len(),
            insert_desc(pairs_view(s@), gp) == pairs_view(s@).take(pos as int) + insert_desc(
                pairs_view(s@).skip(pos as int),
                gp,
            ),
            gp == (p.0@, p.1@),
        decreases s@.len() - pos,
    {
        proof {
            let pv = pairs_view(s@);
            assert(pv.skip(pos as int)[0] == pv[pos as int]);
            assert(pv.skip(pos as int).drop_first() =~= pv.skip(pos as int + 1));
            assert(pv.take(pos as int) + (seq![pv[pos as int]] + insert_desc(
                pv.skip(pos as int + 1),
                gp,
            )) =~= pv.take(pos as int + 1) + insert_desc(pv.skip(pos as int + 1), gp));
        }
        pos = pos + 1;
    }
    proof {
        let pv = pairs_view(s@);
        if pos < s@.len() {
            assert(pv.skip(pos as int)[0] == pv[pos as int]);
        } else {
            assert(pv.skip(pos as int).len() == 0);
        }
    }
    let ghost oldpv = pairs_view(s@);
    let ghost gpos = pos as int;
    s.insert(pos, p);
    proof {
        assert(pairs_view(s@) =~= oldpv.insert(gpos, gp));
        if gpos < oldpv.len() {
            assert(insert_desc(oldpv.skip(gpos), gp) == seq![gp] + oldpv.skip(gpos));
        } else {
            assert(insert_desc(oldpv.skip(gpos), gp) =~= seq![gp]);
        }
        assert(oldpv.insert(gpos, gp) =~= oldpv.take(gpos) + insert_desc(oldpv.skip(gpos), gp));
    }
}

/// Build the substitution candidates, as [`spec_build_substitutions`]
/// defines them, from the template variables and the environment.
pub fn build_substitutions(template_vars: &EnvMap, env_vars: &EnvMap) -> (r: Vec<(String, String)>)
    ensures
        pairs_view(r@) == spec_build_substitutions(
            template_vars.entries_view(),
            env_vars.entries_view(),
        ),
{
    let ghost all = template_vars.entries_view() + env_vars.entries_view();
    let mut candidates: Vec<(String, String)> = Vec::new();
    let mut i: usize = 0;
    proof {
        assert(all.take(0) =~= Seq::<(Seq<char>, Seq<char>)>::empty());
        assert(pairs_view(candidates@) =~= spec_nonempty_values(all.take(0)));
    }
    while i < template_vars.len()
        invariant
            i <= template_vars.entries_view().len(),
            all == template_vars.entries_view() + env_vars.entries_view(),
            pairs_view(candidates@) == spec_nonempty_values(all.take(i as int)),
        decreases template_vars.entries_view().len() - i,
    {
        let (k, v) = template_vars.entry_at(i);
        let ghost gp = (k@, v@);
        proof {
            assert(all[i as int] == gp);
        }
        let keep = !v.as_str().is_empty();
        if keep {
            let ghost oldc = pairs_view(candidates@);
            candidates.push((k, v));
            proof {
                assert(pairs_view(candidates@) =~= oldc.push(gp));
            }
        }
        i = i + 1;
        proof {
            assert(all.take(i as int) =~= all.take(i - 1).push(gp));
            lemma_nonempty_snoc(all.take(i - 1), gp);
            if keep {
                assert(pairs_view(candidates@) =~= spec_nonempty_values(all.take(i - 1)).push(gp));
            }
        }
    }
    let base = template_vars.len();
    let mut j: usize = 0;
    while j < env_vars.len()
        invariant
            j <= env_vars.entries_view().len(),
            base == template_vars.entries_view().len(),
            all == template_vars.entries_view() + env_vars.entries_view(),
            pairs_view(candidates@) == spec_nonempty_values(all.take(base + j as int)),
        decreases env_vars.entries_view().len() - j,
    {
        let (k, v) = env_vars.entry_at(j);
        let ghost gp = (k@, v@);
        proof {
            assert(all[base + j as int] == gp);
        }
        let keep = !v.as_str().is_empty();
        if keep {
            let ghost oldc = pairs_view(candidates@);
            candidates.push((k, v));
            proof {
                assert(pairs_view(candidates@) =~= oldc.push(gp));
            }
        }
        j = j + 1;
        proof {
            assert(all.take(base + j as int) =~= all.take(base + j - 1).push(gp));
            lemma_nonempty_snoc(all.take(base + j - 1), gp);
            if keep {
                assert(pairs_view(candidates@) =~= spec_nonempty_values(
                    all.take(base + j - 1),
                ).push(gp));
            }
        }
    }
    proof {
        assert(all.take(base + env_vars.entries_view().len() as int) =~= all);
    }
    // Sort by descending value length, stably.
    let mut sorted: Vec<(String, String)> = Vec::new();
    let mut k2: usize = 0;
    proof {
        assert(pairs_view(sorted@) =~= sort_desc(pairs_view(candidates@).take(0)));
    }
    while k2 < candidates.len()
        invariant
            k2 <= candidates@.len(),
            pairs_view(sorted@) == sort_desc(pairs_view(candidates@).take(k2 as int)),
        decreases candidates@.len() - k2,
    {
        let p0 = candidates[k2].0.clone();
        let p1 = candidates[k2].1.clone();
        let ghost gp = (p0@, p1@);
        insert_desc_exec(&mut sorted, (p0, p1));
        k2 = k2 + 1;
        proof {
            assert(pairs_view(candidates@).take(k2 as int).drop_last() =~= pairs_view(
                candidates@,
            ).take(k2 - 1));
            assert(pairs_view(candidates@).take(k2 as int).last() == gp);
        }
    }
    proof {
        assert(pairs_view(candidates@).take(candidates@.len() as int) =~= pairs_view(
            candidates@,
        ));
    }
    sorted
}

proof fn lemma_nonempty_snoc(s: Seq<(Seq<char>, Seq<char>)>, p: (Seq<char>, Seq<char>))
    ensures
        spec_nonempty_values(s.push(p)) == if p.1.len() > 0 {
            spec_nonempty_values(s).push(p)
        } else {
            spec_nonempty_values(s)
        },
    decreases s.len(),
{
    if s.len() == 0 {
        assert(s.push(p).drop_first() =~= s);
        assert(s.push(p)[0] == p);
        if p.1.len() > 0 {
            assert(seq![p] + spec_nonempty_values(s) =~= spec_nonempty_values(s).push(p));
        }
    } else {
        lemma_nonempty_snoc(s.drop_first(), p);
        assert(s.push(p).drop_first() =~= s.drop_first().push(p));
        assert(s.push(p)[0] == s[0]);
        if p.1.len() > 0 && s[0].1.len() > 0 {
            assert(seq![s[0]] + spec_nonempty_values(s.drop_first()).push(p) =~= (seq![s[0]]
                + spec_nonempty_values(s.drop_first())).push(p));
        }
    }
}

// ---------------------------------------------------------------------------
// Applying substitutions
// ---------------------------------------------------------------------------

/// One substitution step: every occurrence of the value becomes the braced
/// key; an empty value changes nothing.
pub open spec fn subs_step(s: Seq<char>, p: (Seq<char>, Seq<char>)) -> Seq<char> {
    if p.1.len() > 0 {
        spec_replace_all(s, p.1, seq!['{'] + p.0 + seq!['}'])
    } else {
        s
    }
}

/// All substitutions applied in order.
pub open spec fn spec_apply_substitutions(s: Seq<char>, subs: Seq<(Seq<char>, Seq<char>)>) -> Seq<
    char,
>
    decreases subs.len(),
{
    if subs.len() == 0 {
        s
    } else {
        spec_apply_substitutions(subs_step(s, subs[0]), subs.drop_first())
    }
}

/// Replace each candidate's literal value with its `{KEY}` placeholder, in
/// candidate order, with plain non-overlapping left-to-right replacement.
pub fn apply_substitutions(input: &str, substitutions: &Vec<(String, String)>) -> (r: String)
    ensures
        r@ == spec_apply_substitutions(input@, pairs_view(substitutions@)),
{
    let mut out = chars_of(input);
    let mut i: usize = 0;
    let ghost subs = pairs_view(substitutions@);
    proof {
        assert(subs.skip(0) =~= subs);
    }
    while i < substitutions.len()
        invariant
            i <= subs.len(),
            subs == pairs_view(substitutions@),
            spec_apply_substitutions(input@, subs) == spec_apply_substitutions(
                out@,
                subs.skip(i as int),
            ),
        decreases subs.len() - i,
    {
        proof {
            assert(subs.skip(i as int)[0] == subs[i as int]);
            assert(subs.skip(i as int).drop_first() =~= subs.skip(i as int + 1));
        }
        let value = chars_of(substitutions[i].1.as_str());
        if value.len() > 0 {
            let key = chars_of(substitutions[i].0.as_str());
            let mut rep: Vec<char> = Vec::new();
            rep.push('{');
            let rep2 = concat_chars(&rep, &key);
            let mut rep3 = rep2;
            rep3.push('}');
            proof {
                assert(rep3@ =~= seq!['{'] + subs[i as int].0 + seq!['}']);
            }
            out = replace_all(&out, &value, &rep3);
        }
        i = i + 1;
    }
    proof {
        assert(subs.skip(subs.len() as int).len() == 0);
    }
    string_from_chars(&out)
}

// ---------------------------------------------------------------------------
// Longest-match order
// ---------------------------------------------------------------------------

/// Each value is at least as long as the one after it.
pub open spec fn desc_sorted(s: Seq<(Seq<char>, Seq<char>)>) -> bool {
    forall|i: int| 0 <= i < s.len() - 1 ==> (#[trigger] s[i]).1.len() >= s[i + 1].1.len()
}

proof fn lemma_insert_desc_sorted(s: Seq<(Seq<char>, Seq<char>)>, p: (Seq<char>, Seq<char>))
    requires
        desc_sorted(s),
    ensures
        desc_sorted(insert_desc(s, p)),
        insert_desc(s, p).len() == s.len() + 1,
        insert_desc(s, p)[0] == s[0] || insert_desc(s, p)[0] == p,
        insert_desc(s, p)[0].1.len() >= p.1.len(),
        s.len() > 0 ==> insert_desc(s, p)[0].1.len() >= s[0].1.len(),
    decreases s.len(),
{
    if s.len() == 0 {
    } else if s[0].1.len() >= p.1.len() {
        assert(desc_sorted(s.drop_first())) by {
            assert forall|i: int|
                0 <= i < s.drop_first().len() - 1 implies (#[trigger] s.drop_first()[i]).1.len()
                >= s.drop_first()[i + 1].1.len() by {
                assert(s.drop_first()[i] == s[i + 1]);
                assert(s.drop_first()[i + 1] == s[i + 2]);
                assert(s[i + 1].1.len() >= s[i + 2].1.len());
            }
        }
        lemma_insert_desc_sorted(s.drop_first(), p);
        let r = seq![s[0]] + insert_desc(s.drop_first(), p);
        assert forall|i: int| 0 <= i < r.len() - 1 implies (#[trigger] r[i]).1.len() >= r[i
            + 1].1.len() by {
            if i == 0 {
                assert(r[1] == insert_desc(s.drop_first(), p)[0]);
                if s.len() > 1 {
                    assert(s.drop_first()[0] == s[1]);
                    assert(s[1].1.len() <= s[0].1.len());
                }
            } else {
                assert(r[i] == insert_desc(s.drop_first(), p)[i - 1]);
                assert(r[i + 1] == insert_desc(s.drop_first(), p)[i]);
                assert(insert_desc(s.drop_first(), p)[i - 1].1.len() >= insert_desc(
                    s.drop_first(),
                    p,
                )[i].1.len());
            }
        }
    } else {
        let r = seq![p] + s;
        assert forall|i: int| 0 <= i < r.len() - 1 implies (#[trigger] r[i]).1.len() >= r[i
            + 1].1.len() by {
            if i == 0 {
                assert(r[1] == s[0]);
            } else {
                assert(r[i] == s[i - 1]);
                assert(r[i + 1] == s[i]);
                assert(s[i - 1].1.len() >= s[i].1.len());
            }
        }
    }
}

proof fn lemma_sort_desc_sorted(s: Seq<(Seq<char>, Seq<char>)>)
    ensures
        desc_sorted(sort_desc(s)),
    decreases s.len(),
{
    if s.len() > 0 {
        lemma_sort_desc_sorted(s.drop_last());
        if sort_desc(s.drop_last()).len() == 0 {
            assert(desc_sorted(insert_desc(sort_desc(s.drop_last()), s.last())));
        } else {
            lemma_insert_desc_sorted(sort_desc(s.drop_last()), s.last());
        }
    }
}

/// Law: the substitution candidates come longest value first — every
/// candidate's value is at least as long as the next one's, so a variable
/// whose value contains another's value is replaced before it.
pub proof fn lemma_substitutions_longest_first(
    template: Seq<(Seq<char>, Seq<char>)>,
    env: Seq<(Seq<char>, Seq<char>)>,
)
    ensures
        desc_sorted(spec_build_substitutions(template, env)),
{
    lemma_sort_desc_sorted(spec_nonempty_values(template + env));
}

// ---------------------------------------------------------------------------
// Rendering an imported request
// ---------------------------------------------------------------------------

/// The lines of a rendered import: a timestamp comment, one comment per
/// warning, the request line, the headers, a blank line plus the body when
/// there is one, and a final blank line.
pub open spec fn contents_lines(
    ts: Seq<char>,
    warnings: Seq<Seq<char>>,
    method: Seq<char>,
    url: Seq<char>,
    headers: Seq<(Seq<char>, Seq<char>)>,
    body: Option<Seq<char>>,
) -> Seq<Seq<char>> {
    seq!["# Imported by curlpit on "@ + ts] + warnings.map_values(
        |w: Seq<char>| "# WARNING: "@ + w,
    ) + seq![method + " "@ + url] + headers.map_values(
        |h: (Seq<char>, Seq<char>)| h.0 + ": "@ + h.1,
    ) + (match body {
        Some(b) => seq![Seq::<char>::empty(), b],
        None => Seq::<Seq<char>>::empty(),
    }) + seq![Seq::<char>::empty()]
}

/// The rendered import text: the lines joined by newlines.
pub open spec fn spec_format_curl_contents(
    ts: Seq<char>,
    warnings: Seq<Seq<char>>,
    method: Seq<char>,
    url: Seq<char>,
    headers: Seq<(Seq<char>, Seq<char>)>,
    body: Option<Seq<char>>,
) -> Seq<char> {
    spec_join(contents_lines(ts, warnings, method, url, headers, body), seq!['\n'])
}

/// Render an imported request as request-definition text, with the given
/// timestamp on the leading comment.
pub fn format_curl_contents(
    method: &str,
    url: &str,
    headers: &Vec<(String, String)>,
    body_text: Option<&String>,
    warnings: &Vec<String>,
    timestamp: &str,
) -> (r: String)
    ensures
        r@ == spec_format_curl_contents(
            timestamp@,
            strs_view(warnings@),
            method@,
            url@,
            pairs_view(headers@),
            match body_text {
                Some(b) => Some(b@),
                None => None,
            },
        ),
{
    let ghost gwarn = strs_view(warnings@).map_values(|w: Seq<char>| "# WARNING: "@ + w);
    let ghost gheaders = pairs_view(headers@).map_values(
        |h: (Seq<char>, Seq<char>)| h.0 + ": "@ + h.1,
    );
    let mut lines: Vec<Vec<char>> = Vec::new();

    let mut first = chars_of("# Imported by curlpit on ");
    let tsv = chars_of(timestamp);
    let first_line = concat_chars(&first, &tsv);
    lines.push(first_line);
    proof {
        assert(views_of(lines@) =~= seq!["# Imported by curlpit on "@ + timestamp@]);
    }

    let mut i: usize = 0;
    while i < warnings.len()
        invariant
            i <= warnings@.len(),
            lines@.len() == 1 + i,
            gwarn == strs_view(warnings@).map_values(|w: Seq<char>| "# WARNING: "@ + w),
            views_of(lines@) == seq!["# Imported by curlpit on "@ + timestamp@] + gwarn.take(
                i as int,
            ),
        decreases warnings@.len() - i,
    {
        let prefix = chars_of("# WARNING: ");
        let wv = chars_of(warnings[i].as_str());
        let line = concat_chars(&prefix, &wv);
        let ghost gl = line@;
        let ghost oldviews = views_of(lines@);
        lines.push(line);
        i = i + 1;
        proof {
            assert(gl == gwarn[i - 1]);
            assert(views_of(lines@) =~= oldviews.push(gl));
            assert(oldviews.push(gl) =~= seq!["# Imported by curlpit on "@ + timestamp@]
                + gwarn.take(i as int));
        }
    }
    proof {
        assert(gwarn.take(warnings@.len() as int) =~= gwarn);
    }

    let mv = chars_of(method);
    let mut req_line = mv;
    req_line.push(' ');
    let uv = chars_of(url);
    let req_line = concat_chars(&req_line, &uv);
    proof {
        reveal_strlit(" ");
        assert(req_line@ =~= method@ + " "@ + url@);
    }
    let ghost before_headers = views_of(lines@).push(method@ + " "@ + url@);
    lines.push(req_line);
    proof {
        assert(views_of(lines@) =~= before_headers);
    }

    let mut j: usize = 0;
    while j < headers.len()
        invariant
            j <= headers@.len(),
            lines@.len() == before_headers.len() + j,
            gheaders == pairs_view(headers@).map_values(
                |h: (Seq<char>, Seq<char>)| h.0 + ": "@ + h.1,
            ),
            views_of(lines@) == before_headers + gheaders.take(j as int),
        decreases headers@.len() - j,
    {
        let nv = chars_of(headers[j].0.as_str());
        let mut line = nv;
        line.push(':');
        line.push(' ');
        let vv = chars_of(headers[j].1.as_str());
        let line = concat_chars(&line, &vv);
        let ghost gl = line@;
        proof {
            reveal_strlit(": ");
            assert(gl =~= pairs_view(headers@)[j as int].0 + ": "@ + pairs_view(
                headers@,
            )[j as int].1);
        }
        let ghost oldviews = views_of(lines@);
        lines.push(line);
        j = j + 1;
        proof {
            assert(gl == gheaders[j - 1]);
            assert(views_of(lines@) =~= oldviews.push(gl));
            assert(oldviews.push(gl) =~= before_headers + gheaders.take(j as int));
        }
    }
    proof {
        assert(gheaders.take(headers@.len() as int) =~= gheaders);
    }

    let ghost g4 = before_headers + gheaders;
    proof {
        assert(views_of(lines@) == g4);
    }
    match body_text {
        Some(b) => {
            let empty: Vec<char> = Vec::new();
            lines.push(empty);
            let bv = chars_of(b.as_str());
            let ghost gb = bv@;
            lines.push(bv);
            proof {
                assert(views_of(lines@) =~= g4 + seq![Seq::<char>::empty(), gb]);
            }
        },
        None => {
        },
    }
    let ghost g5 = views_of(lines@);
    let empty2: Vec<char> = Vec::new();
    lines.push(empty2);
    proof {
        assert(views_of(lines@) =~= g5 + seq![Seq::<char>::empty()]);
        assert(views_of(lines@) =~= contents_lines(
            timestamp@,
            strs_view(warnings@),
            method@,
            url@,
            pairs_view(headers@),
            match body_text {
                Some(b) => Some(b@),
                None => None,
            },
        ));
    }
    let mut sep: Vec<char> = Vec::new();
    sep.push('\n');
    proof {
        assert(sep@ =~= seq!['\n']);
    }
    let joined = join_chars(&lines, &sep);
    string_from_chars(&joined)
}

/// A text without line breaks.
pub open spec fn single_line(s: Seq<char>) -> bool {
    forall|i: int| 0 <= i < s.len() ==> s[i] != '\n' && s[i] != '\r'
}

/// Relies on `chrono::DateTime::to_rfc3339` over the system clock: the
/// wall-clock time as an RFC 3339 timestamp. Which moment comes back is
/// not stated; an RFC 3339 timestamp is a single line of digits and the
/// separators `-`, `:`, `T`, `.`, `+` and `Z`, so it holds no line break.
#[verifier::external_body]
pub fn now_rfc3339() -> (r: String)
    ensures
        single_line(r@),
{
    let now: chrono::DateTime<chrono::Utc> = std::time::SystemTime::now().into();
    now.to_rfc3339()
}

// ---------------------------------------------------------------------------
// Suggested file names
// ---------------------------------------------------------------------------

/// What URL parsing yields for a text: its host and path segments, or
/// nothing when the text is not an absolute URL with a host.
pub uninterp spec fn url_parts_of(s: Seq<char>) -> Option<(Seq<char>, Seq<Seq<char>>)>;

/// Relies on `url::Url::parse`, `host_str` and `path_segments`: the host
/// and path segments of a URL, which depend on its text alone.
#[verifier::external_body]
fn url_parts(u: &str) -> (r: Option<(String, Vec<String>)>)
    ensures
        match r {
            Some(p) => url_parts_of(u@) == Some((p.0@, strs_view(p.1@))),
            None => url_parts_of(u@) is None,
        },
{
    let parsed = url::Url::parse(u).ok()?;
    let host = parsed.host_str()?.to_owned();
    let segs: Vec<String> = match parsed.path_segments() {
        Some(it) => it.map(|x| x.to_owned()).collect(),
        None => Vec::new(),
    };
    Some((host, segs))
}

/// One sanitised path segment: every character outside ASCII letters and
/// digits becomes a dash.
pub open spec fn sanitize_seg(s: Seq<char>) -> Seq<char> {
    s.map_values(
        |c: char|
            if is_ascii_alphanumeric(c) {
                c
            } else {
                '-'
            },
    )
}

/// The non-empty path segments, sanitised.
pub open spec fn clean_segs(segs: Seq<Seq<char>>) -> Seq<Seq<char>>
    decreases segs.len(),
{
    if segs.len() == 0 {
        Seq::empty()
    } else {
        let rest = clean_segs(segs.drop_first());
        if segs[0].len() > 0 {
            seq![sanitize_seg(segs[0])] + rest
        } else {
            rest
        }
    }
}

/// `s` without leading dashes.
pub open spec fn trim_dash_start(s: Seq<char>) -> Seq<char>
    decreases s.len(),
{
    if s.len() > 0 && s[0] == '-' {
        trim_dash_start(s.drop_first())
    } else {
        s
    }
}

/// `s` without trailing dashes.
pub open spec fn trim_dash_end(s: Seq<char>) -> Seq<char>
    decreases s.len(),
{
    if s.len() > 0 && s.last() == '-' {
        trim_dash_end(s.drop_last())
    } else {
        s
    }
}

/// `s` without leading or trailing dashes.
pub open spec fn trim_dash(s: Seq<char>) -> Seq<char> {
    trim_dash_end(trim_dash_start(s))
}

/// The suggested file name of an imported request: the lower-cased method,
/// the host with dots dashed, and the sanitised path segments (or `root`),
/// joined by dashes, runs of two dashes collapsed once, outer dashes
/// trimmed, with a `.curl` extension; `request.curl` when nothing remains,
/// and no suggestion when the URL has no host.
pub open spec fn spec_suggest_file_name(method: Seq<char>, url: Seq<char>) -> Option<Seq<char>> {
    match url_parts_of(url) {
        None => None,
        Some((host, segs)) => {
            let host2 = spec_replace_all(host, "."@, "-"@);
            let cleaned = clean_segs(segs);
            let path_part = if cleaned.len() == 0 {
                "root"@
            } else {
                spec_join(cleaned, "-"@)
            };
            let base = spec_lower(method) + "-"@ + host2 + "-"@ + path_part;
            let base2 = trim_dash(spec_replace_all(base, "--"@, "-"@));
            if base2.len() == 0 {
                Some("request.curl"@)
            } else {
                Some(base2 + ".curl"@)
            }
        },
    }
}

proof fn lemma_trim_dash_start_skip(s: Seq<char>, i: int)
    requires
        0 <= i <= s.len(),
        forall|j: int| 0 <= j < i ==> s[j] == '-',
    ensures
        trim_dash_start(s) == trim_dash_start(s.skip(i)),
    decreases i,
{
    if i > 0 {
        assert(s.drop_first() =~= s.skip(1));
        lemma_trim_dash_start_skip(s.skip(1), i - 1);
        assert(s.skip(1).skip(i - 1) =~= s.skip(i));
    } else {
        assert(s.skip(0) =~= s);
    }
}

proof fn lemma_trim_dash_end_take(s: Seq<char>, i: int)
    requires
        0 <= i <= s.len(),
        forall|j: int| i <= j < s.len() ==> s[j] == '-',
    ensures
        trim_dash_end(s) == trim_dash_end(s.take(i)),
    decreases s.len() - i,
{
    if i < s.len() {
        assert(s.drop_last() =~= s.take(s.len() - 1));
        lemma_trim_dash_end_take(s.take(s.len() - 1), i);
        assert(s.take(s.len() - 1).take(i) =~= s.take(i));
    } else {
        assert(s.take(s.len() as int) =~= s);
    }
}

/// Executable dash trim.
pub fn trim_dash_chars(v: &Vec<char>) -> (r: Vec<char>)
    ensures
        r@ == trim_dash(v@),
{
    let mut start: usize = 0;
    while start < v.len() && v[start] == '-'
        invariant
            start <= v@.len(),
            forall|j: int| 0 <= j < start ==> v@[j] == '-',
        decreases v@.len() - start,
    {
        start = start + 1;
    }
    proof {
        lemma_trim_dash_start_skip(v@, start as int);
        if start < v@.len() {
            assert(v@.skip(start as int)[0] == v@[start as int]);
        }
        assert(trim_dash_start(v@) == v@.skip(start as int));
    }
    let mut end: usize = v.len();
    while end > start && v[end - 1] == '-'
        invariant
            start <= end <= v@.len(),
            forall|j: int| end <= j < v@.len() ==> v@[j] == '-',
        decreases end,
    {
        end = end - 1;
    }
    let r = sub_chars(v, start, end);
    proof {
        let tail = v@.skip(start as int);
        lemma_trim_dash_end_take(tail, end - start);
        if end > start {
            assert(tail.take(end - start).last() == v@[end - 1]);
        }
        assert(trim_dash_end(tail.take(end - start)) == tail.take(end - start));
        assert(tail.take(end - start) =~= v@.subrange(start as int, end as int));
    }
    r
}

/// Suggest a file name for an imported request, as
/// [`spec_suggest_file_name`] defines it.
pub fn suggest_file_name(method: &str, url: &str) -> (r: Option<String>)
    ensures
        match r {
            Some(name) => spec_suggest_file_name(method@, url@) == Some(name@),
            None => spec_suggest_file_name(method@, url@) is None,
        },
{
    let parts = url_parts(url);
    match parts {
        None => None,
        Some((host, segs)) => {
            let hostv = chars_of(host.as_str());
            let dot = chars_of(".");
            let dash = chars_of("-");
            let host2 = replace_all(&hostv, &dot, &dash);
            let mut cleaned: Vec<Vec<char>> = Vec::new();
            let mut i: usize = 0;
            proof {
                assert(views_of(cleaned@) =~= clean_segs(strs_view(segs@).take(0)));
            }
            while i < segs.len()
                invariant
                    i <= segs@.len(),
                    views_of(cleaned@) == clean_segs(strs_view(segs@).take(i as int)),
                decreases segs@.len() - i,
            {
                let sv = chars_of(segs[i].as_str());
                let ghost gseg = sv@;
                if sv.len() > 0 {
                    let mut cs: Vec<char> = Vec::new();
                    let mut c: usize = 0;
                    while c < sv.len()
                        invariant
                            c <= sv@.len(),
                            cs@ == sanitize_seg(sv@.take(c as int)),
                        decreases sv@.len() - c,
                    {
                        let ch = sv[c];
                        if ('a' <= ch && ch <= 'z') || ('A' <= ch && ch <= 'Z') || ('0' <= ch
                            && ch <= '9') {
                            cs.push(ch);
                        } else {
                            cs.push('-');
                        }
                        c = c + 1;
                        proof {
                            assert(cs@ =~= sanitize_seg(sv@.take(c as int)));
                        }
                    }
                    proof {
                        assert(sv@.take(sv@.len() as int) =~= sv@);
                    }
                    let ghost gcs = cs@;
                    cleaned.push(cs);
                    proof {
                        assert(gcs == sanitize_seg(gseg));
                    }
                }
                i = i + 1;
                proof {
                    lemma_clean_snoc(strs_view(segs@).take(i - 1), gseg);
                    assert(strs_view(segs@).take(i as int) =~= strs_view(segs@).take(i - 1).push(
                        gseg,
                    ));
                    assert(views_of(cleaned@) =~= clean_segs(strs_view(segs@).take(i as int)));
                }
            }
            proof {
                assert(strs_view(segs@).take(segs@.len() as int) =~= strs_view(segs@));
            }
            let path_part: Vec<char> = if cleaned.len() == 0 {
                chars_of("root")
            } else {
                let d = chars_of("-");
                join_chars(&cleaned, &d)
            };
            let mv = chars_of(method);
            let lower_m = lower_chars(&mv);
            let mut base = lower_m;
            base.push('-');
            let base = concat_chars(&base, &host2);
            let mut base = base;
            base.push('-');
            let base = concat_chars(&base, &path_part);
            proof {
                reveal_strlit("-");
                assert(base@ =~= spec_lower(method@) + "-"@ + spec_replace_all(
                    host@,
                    "."@,
                    "-"@,
                ) + "-"@ + (if clean_segs(strs_view(segs@)).len() == 0 {
                    "root"@
                } else {
                    spec_join(clean_segs(strs_view(segs@)), "-"@)
                }));
            }
            let ddash = chars_of("--");
            let collapsed = replace_all(&base, &ddash, &dash);
            let trimmed = trim_dash_chars(&collapsed);
            if trimmed.len() == 0 {
                Some(String::from_str("request.curl"))
            } else {
                let ext = chars_of(".curl");
                let full = concat_chars(&trimmed, &ext);
                Some(string_from_chars(&full))
            }
        },
    }
}

proof fn lemma_clean_snoc(segs: Seq<Seq<char>>, s: Seq<char>)
    ensures
        clean_segs(segs.push(s)) == if s.len() > 0 {
            clean_segs(segs).push(sanitize_seg(s))
        } else {
            clean_segs(segs)
        },
    decreases segs.len(),
{
    if segs.len() == 0 {
        assert(segs.push(s).drop_first() =~= segs);
        assert(segs.push(s)[0] == s);
        if s.len() > 0 {
            assert(seq![sanitize_seg(s)] + clean_segs(segs) =~= clean_segs(segs).push(
                sanitize_seg(s),
            ));
        }
    } else {
        lemma_clean_snoc(segs.drop_first(), s);
        assert(segs.push(s).drop_first() =~= segs.drop_first().push(s));
        assert(segs.push(s)[0] == segs[0]);
        if s.len() > 0 && segs[0].len() > 0 {
            assert(seq![sanitize_seg(segs[0])] + clean_segs(segs.drop_first()).push(
                sanitize_seg(s),
            ) =~= (seq![sanitize_seg(segs[0])] + clean_segs(segs.drop_first())).push(
                sanitize_seg(s),
            ));
        }
    }
}

} // verus!
