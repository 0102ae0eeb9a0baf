use crate::envmap::EnvMap;
use crate::errors::{Error, ErrorView};
use crate::strkit::{
    chars_of, concat_chars, find_char, first_idx, is_ascii_alphanumeric, is_ascii_lower,
    is_ascii_upper, lemma_first_idx_from, string_from_chars, sub_chars,
};
use vstd::prelude::*;

verus! {

/// A character that may open a placeholder key: a letter or an underscore.
pub open spec fn spec_start_char(c: char) -> bool {
    is_ascii_lower(c) || is_ascii_upper(c) || c == '_'
}

/// A character allowed after the first one of a key.
pub open spec fn spec_key_char(c: char) -> bool {
    is_ascii_alphanumeric(c) || c == '_' || c == '.' || c == '-'
}

/// A well-formed placeholder key: a start character followed by key characters.
pub open spec fn spec_valid_key(s: Seq<char>) -> bool {
    s.len() > 0 && spec_start_char(s[0]) && forall|j: int| 1 <= j < s.len() ==> spec_key_char(s[j])
}

/// Executable mirror of [`spec_start_char`].
pub fn is_start_char(ch: char) -> (r: bool)
    ensures
        r == spec_start_char(ch),
{
    ('a' <= ch && ch <= 'z') || ('A' <= ch && ch <= 'Z') || ch == '_'
}

fn is_key_char(ch: char) -> (r: bool)
    ensures
        r == spec_key_char(ch),
{
    ('a' <= ch && ch <= 'z') || ('A' <= ch && ch <= 'Z') || ('0' <= ch && ch <= '9') || ch == '_'
        || ch == '.' || ch == '-'
}

/// Executable mirror of [`spec_valid_key`].
pub fn is_valid_key(key: &str) -> (r: bool)
    ensures
        r == spec_valid_key(key@),
{
    let v = chars_of(key);
    valid_key_chars(&v)
}

fn valid_key_chars(v: &Vec<char>) -> (r: bool)
    ensures
        r == spec_valid_key(v@),
{
    if v.len() == 0 {
        return false;
    }
    if !is_start_char(v[0]) {
        return false;
    }
    let mut i: usize = 1;
    while i < v.len()
        invariant
            1 <= i <= v@.len(),
            forall|j: int| 1 <= j < i ==> spec_key_char(v@[j]),
        decreases v@.len() - i,
    {
        if !is_key_char(v[i]) {
            return false;
        }
        i = i + 1;
    }
    true
}

/// `head` prepended to the text of `rest`, when `rest` succeeded.
pub open spec fn prepend(head: Seq<char>, rest: Result<Seq<char>, ErrorView>) -> Result<
    Seq<char>,
    ErrorView,
> {
    match rest {
        Ok(t) => Ok(head + t),
        Err(e) => Err(e),
    }
}

/// Placeholder expansion, defined left to right over the input.
///
/// A backslash escapes a following brace and is otherwise kept with the next
/// character; `{KEY}` becomes the key's value from `env`, or from `fb` (the
/// ambient process environment, handed in as a value) when `env` lacks it,
/// and absence in both is refused; `{}` is refused as empty; a `{` before
/// anything that cannot start a key, or at the end of the input, is literal
/// text; a `{` whose key never closes leaves the rest of the input
/// untouched.
pub open spec fn spec_expand(
    s: Seq<char>,
    env: Map<Seq<char>, Seq<char>>,
    fb: Map<Seq<char>, Seq<char>>,
) -> Result<Seq<char>, ErrorView>
    decreases s.len(),
{
    if s.len() == 0 {
        Ok(Seq::empty())
    } else if s[0] == '\\' {
        if s.len() == 1 {
            Ok(seq!['\\'])
        } else if s[1] == '{' || s[1] == '}' {
            prepend(seq![s[1]], spec_expand(s.skip(2), env, fb))
        } else {
            prepend(seq![s[0], s[1]], spec_expand(s.skip(2), env, fb))
        }
    } else if s[0] == '{' {
        if s.len() == 1 {
            Ok(seq!['{'])
        } else if s[1] == '}' {
            Err(ErrorView::EmptyPlaceholder)
        } else if !spec_start_char(s[1]) {
            prepend(seq!['{'], spec_expand(s.skip(1), env, fb))
        } else {
            let j = first_idx(s, '}');
            if j >= s.len() {
                Ok(s)
            } else {
                let key = s.subrange(1, j as int);
                if !spec_valid_key(key) {
                    Err(ErrorView::InvalidPlaceholderKey(key))
                } else if env.contains_key(key) {
                    prepend(env[key], spec_expand(s.skip(j as int + 1), env, fb))
                } else if fb.contains_key(key) {
                    prepend(fb[key], spec_expand(s.skip(j as int + 1), env, fb))
                } else {
                    Err(ErrorView::MissingPlaceholderValue(key))
                }
            }
        }
    } else {
        prepend(seq![s[0]], spec_expand(s.skip(1), env, fb))
    }
}

/// Expansion over character vectors; mirrors [`spec_expand`].
pub fn expand_placeholders_chars(v: &Vec<char>, env: &EnvMap, fallback: &EnvMap) -> (r: Result<
    Vec<char>,
    Error,
>)
    requires
        env.wf(),
        fallback.wf(),
    ensures
        match r {
            Ok(out) => spec_expand(v@, env@, fallback@) == Ok::<Seq<char>, ErrorView>(out@),
            Err(e) => spec_expand(v@, env@, fallback@) == Err::<Seq<char>, ErrorView>(e@),
        },
    decreases v@.len(),
{
    if v.len() == 0 {
        let out: Vec<char> = Vec::new();
        proof {
            assert(out@ =~= Seq::<char>::empty());
        }
        return Ok(out);
    }
    let c0 = v[0];
    if c0 == '\\' {
        if v.len() == 1 {
            let mut out: Vec<char> = Vec::new();
            out.push('\\');
            proof {
                assert(out@ =~= seq!['\\']);
            }
            return Ok(out);
        }
        let c1 = v[1];
        let rest = sub_chars(v, 2, v.len());
        proof {
            assert(rest@ == v@.skip(2));
        }
        match expand_placeholders_chars(&rest, env, fallback) {
            Err(e) => Err(e),
            Ok(t) => {
                let mut head: Vec<char> = Vec::new();
                if c1 == '{' || c1 == '}' {
                    head.push(c1);
                    proof {
                        assert(head@ =~= seq![v@[1]]);
                    }
                } else {
                    head.push(c0);
                    head.push(c1);
                    proof {
                        assert(head@ =~= seq![v@[0], v@[1]]);
                    }
                }
                let out = concat_chars(&head, &t);
                Ok(out)
            },
        }
    } else if c0 == '{' {
        if v.len() == 1 {
            let mut out: Vec<char> = Vec::new();
            out.push('{');
            proof {
                assert(out@ =~= seq!['{']);
            }
            return Ok(out);
        }
        let c1 = v[1];
        if c1 == '}' {
            return Err(Error::EmptyPlaceholder);
        }
        if !is_start_char(c1) {
            let rest = sub_chars(v, 1, v.len());
            proof {
                assert(rest@ == v@.skip(1));
            }
            match expand_placeholders_chars(&rest, env, fallback) {
                Err(e) => Err(e),
                Ok(t) => {
                    let mut head: Vec<char> = Vec::new();
                    head.push('{');
                    proof {
                        assert(head@ =~= seq!['{']);
                    }
                    let out = concat_chars(&head, &t);
                    Ok(out)
                },
            }
        } else {
            match find_char(v, '}', 0) {
                None => {
                    proof {
                        lemma_first_idx_from(v@, '}', v@.len() as int);
                    }
                    Ok(v.clone())
                },
                Some(j) => {
                    proof {
                        lemma_first_idx_from(v@, '}', j as int);
                    }
                    let key = sub_chars(v, 1, j);
                    if !valid_key_chars(&key) {
                        let key_s = string_from_chars(&key);
                        return Err(Error::InvalidPlaceholderKey(key_s));
                    }
                    let key_s = string_from_chars(&key);
                    let value: &String = match env.get(key_s.as_str()) {
                        Some(value) => value,
                        None => match fallback.get(key_s.as_str()) {
                            Some(value) => value,
                            None => {
                                return Err(Error::MissingPlaceholderValue(key_s));
                            },
                        },
                    };
                    let value_chars = chars_of(value.as_str());
                    let rest = sub_chars(v, j + 1, v.len());
                    proof {
                        assert(rest@ == v@.skip(j as int + 1));
                    }
                    match expand_placeholders_chars(&rest, env, fallback) {
                        Err(e) => Err(e),
                        Ok(t) => {
                            let out = concat_chars(&value_chars, &t);
                            Ok(out)
                        },
                    }
                },
            }
        }
    } else {
        let rest = sub_chars(v, 1, v.len());
        proof {
            assert(rest@ == v@.skip(1));
        }
        match expand_placeholders_chars(&rest, env, fallback) {
            Err(e) => Err(e),
            Ok(t) => {
                let mut head: Vec<char> = Vec::new();
                head.push(c0);
                proof {
                    assert(head@ =~= seq![v@[0]]);
                }
                let out = concat_chars(&head, &t);
                Ok(out)
            },
        }
    }
}

/// Law: text that never mentions a brace or a backslash expands to itself,
/// whatever the environment holds.
pub proof fn lemma_expand_plain_text(
    s: Seq<char>,
    env: Map<Seq<char>, Seq<char>>,
    fb: Map<Seq<char>, Seq<char>>,
)
    requires
        forall|i: int| 0 <= i < s.len() ==> s[i] != '{' && s[i] != '}' && s[i] != '\\',
    ensures
        spec_expand(s, env, fb) == Ok::<Seq<char>, ErrorView>(s),
    decreases s.len(),
{
    if s.len() == 0 {
        assert(s =~= Seq::<char>::empty());
    } else {
        lemma_expand_plain_text(s.drop_first(), env, fb);
        assert(s.skip(1) =~= s.drop_first());
        assert(seq![s[0]] + s.drop_first() =~= s);
    }
}

/// Law: `\{` and `\}` always expand to literal braces: `\{x\}` becomes
/// `{x}` under every environment.
pub proof fn lemma_expand_escaped_braces(
    env: Map<Seq<char>, Seq<char>>,
    fb: Map<Seq<char>, Seq<char>>,
)
    ensures
        spec_expand("\\{x\\}"@, env, fb) == Ok::<Seq<char>, ErrorView>("{x}"@),
{
    reveal_strlit("\\{x\\}");
    reveal_strlit("{x}");
    let s = "\\{x\\}"@;
    let s2 = s.skip(2);
    let s3 = s2.skip(1);
    let s4 = s3.skip(2);
    assert(s4 =~= Seq::<char>::empty());
    assert(spec_expand(s4, env, fb) == Ok::<Seq<char>, ErrorView>(Seq::empty()));
    assert(s3.len() == 2 && s3[0] == '\\' && s3[1] == '}');
    assert(s3.skip(2) == s4);
    assert(spec_expand(s3, env, fb) == Ok::<Seq<char>, ErrorView>(seq!['}'] + Seq::empty()));
    assert(s2.len() == 3 && s2[0] == 'x');
    assert(s2.skip(1) == s3);
    assert(spec_expand(s2, env, fb) == Ok::<Seq<char>, ErrorView>(
        seq!['x'] + (seq!['}'] + Seq::empty()),
    ));
    assert(s.len() == 5 && s[0] == '\\' && s[1] == '{');
    assert(spec_expand(s, env, fb) == Ok::<Seq<char>, ErrorView>(
        seq!['{'] + (seq!['x'] + (seq!['}'] + Seq::empty())),
    ));
    assert(seq!['{'] + (seq!['x'] + (seq!['}'] + Seq::empty())) =~= "{x}"@);
}

/// Key characters are never a closing brace.
proof fn lemma_key_chars_not_brace(k: Seq<char>)
    requires
        spec_valid_key(k),
    ensures
        forall|i: int| 0 <= i < k.len() ==> k[i] != '}',
{
}

/// Law: a lone placeholder with a well-formed key bound in the environment
/// expands to exactly that key's value, whatever the fallback holds.
pub proof fn lemma_expand_bound_key(
    k: Seq<char>,
    env: Map<Seq<char>, Seq<char>>,
    fb: Map<Seq<char>, Seq<char>>,
)
    requires
        spec_valid_key(k),
        env.contains_key(k),
    ensures
        spec_expand(seq!['{'] + k + seq!['}'], env, fb) == Ok::<Seq<char>, ErrorView>(env[k]),
{
    let s = seq!['{'] + k + seq!['}'];
    lemma_key_chars_not_brace(k);
    assert(s[0] == '{' && s.len() == k.len() + 2);
    assert(s[1] == k[0]);
    assert forall|j: int| 0 <= j < k.len() + 1 implies s[j] != '}' by {
        if j > 0 {
            assert(s[j] == k[j - 1]);
        }
    }
    assert(s[k.len() as int + 1] == '}');
    lemma_first_idx_from(s, '}', k.len() as int + 1);
    let j = first_idx(s, '}');
    assert(j == k.len() + 1);
    assert(s.subrange(1, j as int) =~= k);
    let rest = s.skip(j as int + 1);
    assert(rest =~= Seq::<char>::empty());
    assert(spec_expand(rest, env, fb) == Ok::<Seq<char>, ErrorView>(Seq::empty()));
    assert(env[k] + Seq::<char>::empty() =~= env[k]);
}

/// Law: a key the environment lacks falls back to the process environment
/// handed in; absence in both fails with the missing key.
pub proof fn lemma_expand_fallback_key(
    k: Seq<char>,
    env: Map<Seq<char>, Seq<char>>,
    fb: Map<Seq<char>, Seq<char>>,
)
    requires
        spec_valid_key(k),
        !env.contains_key(k),
    ensures
        fb.contains_key(k) ==> spec_expand(seq!['{'] + k + seq!['}'], env, fb) == Ok::<
            Seq<char>,
            ErrorView,
        >(fb[k]),
        !fb.contains_key(k) ==> spec_expand(seq!['{'] + k + seq!['}'], env, fb) == Err::<
            Seq<char>,
            ErrorView,
        >(ErrorView::MissingPlaceholderValue(k)),
{
    let s = seq!['{'] + k + seq!['}'];
    lemma_key_chars_not_brace(k);
    assert(s[0] == '{' && s.len() == k.len() + 2);
    assert(s[1] == k[0]);
    assert forall|j: int| 0 <= j < k.len() + 1 implies s[j] != '}' by {
        if j > 0 {
            assert(s[j] == k[j - 1]);
        }
    }
    assert(s[k.len() as int + 1] == '}');
    lemma_first_idx_from(s, '}', k.len() as int + 1);
    let j = first_idx(s, '}');
    assert(j == k.len() + 1);
    assert(s.subrange(1, j as int) =~= k);
    let rest = s.skip(j as int + 1);
    assert(rest =~= Seq::<char>::empty());
    assert(spec_expand(rest, env, fb) == Ok::<Seq<char>, ErrorView>(Seq::empty()));
    if fb.contains_key(k) {
        assert(fb[k] + Seq::<char>::empty() =~= fb[k]);
    }
}

/// Law: a placeholder whose key starts well but holds a character outside
/// the key grammar fails as an invalid key. (A key that cannot even start,
/// such as one beginning with a digit, instead leaves the brace literal.)
pub proof fn lemma_expand_invalid_key(
    k: Seq<char>,
    env: Map<Seq<char>, Seq<char>>,
    fb: Map<Seq<char>, Seq<char>>,
)
    requires
        k.len() > 0,
        spec_start_char(k[0]),
        !spec_valid_key(k),
        forall|i: int| 0 <= i < k.len() ==> k[i] != '}',
    ensures
        spec_expand(seq!['{'] + k + seq!['}'], env, fb) == Err::<Seq<char>, ErrorView>(
            ErrorView::InvalidPlaceholderKey(k),
        ),
{
    let s = seq!['{'] + k + seq!['}'];
    assert(s[0] == '{' && s.len() == k.len() + 2);
    assert(s[1] == k[0]);
    assert(s[1] != '}');
    assert forall|j: int| 0 <= j < k.len() + 1 implies s[j] != '}' by {
        if j > 0 {
            assert(s[j] == k[j - 1]);
        }
    }
    assert(s[k.len() as int + 1] == '}');
    lemma_first_idx_from(s, '}', k.len() as int + 1);
    let j = first_idx(s, '}');
    assert(j == k.len() + 1);
    assert(s.subrange(1, j as int) =~= k);
}

/// Substitute `{KEY}` placeholders in `input` from `env`, falling back to
/// `fallback` — the process environment, handed in as a value by the
/// caller — for keys `env` lacks.
///
/// Returns the text with every placeholder replaced, or the first failure:
/// an invalid key, a value missing from both maps, or an empty placeholder.
pub fn expand_placeholders(input: &str, env: &EnvMap, fallback: &EnvMap) -> (r: Result<
    String,
    Error,
>)
    requires
        env.wf(),
        fallback.wf(),
    ensures
        match r {
            Ok(out) => spec_expand(input@, env@, fallback@) == Ok::<Seq<char>, ErrorView>(out@),
            Err(e) => spec_expand(input@, env@, fallback@) == Err::<Seq<char>, ErrorView>(e@),
        },
{
    let v = chars_of(input);
    match expand_placeholders_chars(&v, env, fallback) {
        Ok(out) => Ok(string_from_chars(&out)),
        Err(e) => Err(e),
    }
}

} // verus!
