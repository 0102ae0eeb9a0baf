use vstd::prelude::*;

verus! {

// ---------------------------------------------------------------------------
// Conversions between `&str`/`String` and `Vec<char>`
// ---------------------------------------------------------------------------

/// The characters of a string slice, one element per `char`.
pub fn chars_of(s: &str) -> (v: Vec<char>)
    ensures
        v@ == s@,
{
    let n = s.unicode_len();
    let mut v: Vec<char> = Vec::new();
    let mut i: usize = 0;
    while i < n
        invariant
            n == s@.len(),
            i <= n,
            v@ == s@.subrange(0, i as int),
        decreases n - i,
    {
        v.push(s.get_char(i));
        i = i + 1;
        proof {
            assert(v@ =~= s@.subrange(0, i as int));
        }
    }
    proof {
        assert(v@ =~= s@);
    }
    v
}

/// Relies on `String: FromIterator<char>`: collecting characters yields the
/// string with exactly those characters in order.
#[verifier::external_body]
pub fn string_from_chars(v: &Vec<char>) -> (s: String)
    ensures
        s@ == v@,
{
    v.iter().collect()
}

/// What a byte sequence decodes to as UTF-8, when it is valid UTF-8.
pub uninterp spec fn utf8_decode(b: Seq<u8>) -> Option<Seq<char>>;

/// Relies on `str::from_utf8`: decodes exactly the valid UTF-8 byte
/// sequences, and the result depends on the bytes alone.
#[verifier::external_body]
pub fn utf8_text(bytes: &Vec<u8>) -> (r: Option<String>)
    ensures
        match r {
            Some(s) => utf8_decode(bytes@) == Some(s@),
            None => utf8_decode(bytes@) is None,
        },
{
    match std::str::from_utf8(bytes.as_slice()) {
        Ok(s) => Some(s.to_owned()),
        Err(_) => None,
    }
}

// ---------------------------------------------------------------------------
// Character classes
// ---------------------------------------------------------------------------

/// Whitespace, as this library trims and splits it.
pub open spec fn is_space(c: char) -> bool {
    c == ' ' || c == '\t' || c == '\n' || c == '\r' || c == '\u{b}' || c == '\u{c}'
}

/// Executable mirror of [`is_space`].
pub fn space_char(c: char) -> (r: bool)
    ensures
        r == is_space(c),
{
    c == ' ' || c == '\t' || c == '\n' || c == '\r' || c == '\u{b}' || c == '\u{c}'
}

pub open spec fn is_ascii_lower(c: char) -> bool {
    'a' <= c && c <= 'z'
}

pub open spec fn is_ascii_upper(c: char) -> bool {
    'A' <= c && c <= 'Z'
}

pub open spec fn is_ascii_digit(c: char) -> bool {
    '0' <= c && c <= '9'
}

pub open spec fn is_ascii_alphanumeric(c: char) -> bool {
    is_ascii_lower(c) || is_ascii_upper(c) || is_ascii_digit(c)
}

/// The upper-case form of an ASCII letter; other characters are unchanged.
pub open spec fn spec_upper_char(c: char) -> char {
    if is_ascii_lower(c) {
        ((c as u8) - 0x20) as char
    } else {
        c
    }
}

/// The lower-case form of an ASCII letter; other characters are unchanged.
pub open spec fn spec_lower_char(c: char) -> char {
    if is_ascii_upper(c) {
        ((c as u8) + 0x20) as char
    } else {
        c
    }
}

/// Executable mirror of [`spec_upper_char`].
pub fn upper_char(c: char) -> (r: char)
    ensures
        r == spec_upper_char(c),
{
    if 'a' <= c && c <= 'z' {
        (((c as u8) - 0x20)) as char
    } else {
        c
    }
}

/// Executable mirror of [`spec_lower_char`].
pub fn lower_char(c: char) -> (r: char)
    ensures
        r == spec_lower_char(c),
{
    if 'A' <= c && c <= 'Z' {
        (((c as u8) + 0x20)) as char
    } else {
        c
    }
}

/// Sequence with every ASCII letter upper-cased.
pub open spec fn spec_upper(s: Seq<char>) -> Seq<char> {
    s.map_values(|c: char| spec_upper_char(c))
}

/// Sequence with every ASCII letter lower-cased.
pub open spec fn spec_lower(s: Seq<char>) -> Seq<char> {
    s.map_values(|c: char| spec_lower_char(c))
}

/// Executable mirror of [`spec_upper`].
pub fn upper_chars(v: &Vec<char>) -> (r: Vec<char>)
    ensures
        r@ == spec_upper(v@),
{
    let mut out: Vec<char> = Vec::new();
    let mut i: usize = 0;
    while i < v.len()
        invariant
            i <= v@.len(),
            out@ == spec_upper(v@.subrange(0, i as int)),
        decreases v@.len() - i,
    {
        out.push(upper_char(v[i]));
        i = i + 1;
        proof {
            assert(out@ =~= spec_upper(v@.subrange(0, i as int)));
        }
    }
    proof {
        assert(v@.subrange(0, v@.len() as int) =~= v@);
    }
    out
}

/// Executable mirror of [`spec_lower`].
pub fn lower_chars(v: &Vec<char>) -> (r: Vec<char>)
    ensures
        r@ == spec_lower(v@),
{
    let mut out: Vec<char> = Vec::new();
    let mut i: usize = 0;
    while i < v.len()
        invariant
            i <= v@.len(),
            out@ == spec_lower(v@.subrange(0, i as int)),
        decreases v@.len() - i,
    {
        out.push(lower_char(v[i]));
        i = i + 1;
        proof {
            assert(out@ =~= spec_lower(v@.subrange(0, i as int)));
        }
    }
    proof {
        assert(v@.subrange(0, v@.len() as int) =~= v@);
    }
    out
}

// ---------------------------------------------------------------------------
// Slicing, equality, search
// ---------------------------------------------------------------------------

/// Copy of the characters in positions `[a, b)`.
pub fn sub_chars(v: &Vec<char>, a: usize, b: usize) -> (r: Vec<char>)
    requires
        a <= b <= v@.len(),
    ensures
        r@ == v@.subrange(a as int, b as int),
{
    let mut out: Vec<char> = Vec::new();
    let mut i: usize = a;
    while i < b
        invariant
            a <= i <= b <= v@.len(),
            out@ == v@.subrange(a as int, i as int),
        decreases b - i,
    {
        out.push(v[i]);
        i = i + 1;
        proof {
            assert(out@ =~= v@.subrange(a as int, i as int));
        }
    }
    out
}

/// Equality of two string slices, by their characters.
pub fn str_eq(a: &str, b: &str) -> (r: bool)
    ensures
        r == (a@ == b@),
{
    let av = chars_of(a);
    let bv = chars_of(b);
    chars_eq(&av, &bv)
}

/// Character-wise equality of two vectors.
pub fn chars_eq(a: &Vec<char>, b: &Vec<char>) -> (r: bool)
    ensures
        r == (a@ == b@),
{
    if a.len() != b.len() {
        proof {
            assert(a@ != b@);
        }
        return false;
    }
    let mut i: usize = 0;
    while i < a.len()
        invariant
            a@.len() == b@.len(),
            i <= a@.len(),
            forall|j: int| 0 <= j < i ==> a@[j] == b@[j],
        decreases a@.len() - i,
    {
        if a[i] != b[i] {
            return false;
        }
        i = i + 1;
    }
    proof {
        assert(a@ =~= b@);
    }
    true
}

/// True when `s` begins with `prefix`.
pub open spec fn spec_starts_with(s: Seq<char>, prefix: Seq<char>) -> bool {
    prefix.len() <= s.len() && s.subrange(0, prefix.len() as int) == prefix
}

/// Executable mirror of [`spec_starts_with`].
pub fn starts_with_chars(v: &Vec<char>, prefix: &Vec<char>) -> (r: bool)
    ensures
        r == spec_starts_with(v@, prefix@),
{
    if prefix.len() > v.len() {
        return false;
    }
    let head = sub_chars(v, 0, prefix.len());
    chars_eq(&head, prefix)
}

/// The position of the first `c` at or after `from`, if any.
pub fn find_char(v: &Vec<char>, c: char, from: usize) -> (r: Option<usize>)
    requires
        from <= v@.len(),
    ensures
        match r {
            Some(i) => from <= i < v@.len() && v@[i as int] == c && forall|j: int|
                from <= j < i ==> v@[j] != c,
            None => forall|j: int| from <= j < v@.len() ==> v@[j] != c,
        },
{
    let mut i: usize = from;
    while i < v.len()
        invariant
            from <= i <= v@.len(),
            forall|j: int| from <= j < i ==> v@[j] != c,
        decreases v@.len() - i,
    {
        if v[i] == c {
            return Some(i);
        }
        i = i + 1;
    }
    None
}

/// Concatenation of two character vectors.
pub fn concat_chars(a: &Vec<char>, b: &Vec<char>) -> (r: Vec<char>)
    ensures
        r@ == a@ + b@,
{
    let mut r = a.clone();
    let mut i: usize = 0;
    while i < b.len()
        invariant
            i <= b@.len(),
            r@ == a@ + b@.take(i as int),
        decreases b@.len() - i,
    {
        r.push(b[i]);
        i = i + 1;
        proof {
            assert(r@ =~= a@ + b@.take(i as int));
        }
    }
    proof {
        assert(b@.take(b@.len() as int) =~= b@);
    }
    r
}

/// The position of the first `c` in `s`, or `s.len()` when there is none.
pub open spec fn first_idx(s: Seq<char>, c: char) -> nat
    decreases s.len(),
{
    if s.len() == 0 {
        0
    } else if s[0] == c {
        0
    } else {
        1 + first_idx(s.drop_first(), c)
    }
}

pub proof fn lemma_first_idx(s: Seq<char>, c: char)
    ensures
        first_idx(s, c) <= s.len(),
        forall|j: int| 0 <= j < first_idx(s, c) ==> s[j] != c,
        first_idx(s, c) < s.len() ==> s[first_idx(s, c) as int] == c,
    decreases s.len(),
{
    if s.len() > 0 && s[0] != c {
        lemma_first_idx(s.drop_first(), c);
        assert forall|j: int| 0 <= j < first_idx(s, c) implies s[j] != c by {
            if j > 0 {
                assert(s[j] == s.drop_first()[j - 1]);
            }
        }
        if first_idx(s, c) < s.len() {
            assert(s[first_idx(s, c) as int] == s.drop_first()[first_idx(
                s.drop_first(),
                c,
            ) as int]);
        }
    }
}

pub proof fn lemma_first_idx_from(s: Seq<char>, c: char, i: int)
    requires
        0 <= i <= s.len(),
        forall|j: int| 0 <= j < i ==> s[j] != c,
        i < s.len() ==> s[i] == c,
    ensures
        first_idx(s, c) == i,
    decreases s.len(),
{
    if i > 0 {
        lemma_first_idx_from(s.drop_first(), c, i - 1);
    }
}

/// True when `c` occurs anywhere in `s`.
pub open spec fn contains_char(s: Seq<char>, c: char) -> bool {
    exists|i: int| 0 <= i < s.len() && s[i] == c
}

/// Executable mirror of [`contains_char`].
pub fn has_char(v: &Vec<char>, c: char) -> (r: bool)
    ensures
        r == contains_char(v@, c),
{
    let r = find_char(v, c, 0);
    match r {
        Some(i) => {
            proof {
                assert(contains_char(v@, c));
            }
            true
        },
        None => false,
    }
}

// ---------------------------------------------------------------------------
// Trimming
// ---------------------------------------------------------------------------

/// `s` without leading whitespace.
pub open spec fn spec_trim_start(s: Seq<char>) -> Seq<char>
    decreases s.len(),
{
    if s.len() > 0 && is_space(s[0]) {
        spec_trim_start(s.drop_first())
    } else {
        s
    }
}

/// `s` without trailing whitespace.
pub open spec fn spec_trim_end(s: Seq<char>) -> Seq<char>
    decreases s.len(),
{
    if s.len() > 0 && is_space(s.last()) {
        spec_trim_end(s.drop_last())
    } else {
        s
    }
}

/// `s` without leading or trailing whitespace.
pub open spec fn spec_trim(s: Seq<char>) -> Seq<char> {
    spec_trim_end(spec_trim_start(s))
}

proof fn lemma_trim_start_skip(s: Seq<char>, i: int)
    requires
        0 <= i <= s.len(),
        forall|j: int| 0 <= j < i ==> is_space(s[j]),
    ensures
        spec_trim_start(s) == spec_trim_start(s.skip(i)),
    decreases i,
{
    if i > 0 {
        assert(s.len() > 0 && is_space(s[0]));
        assert(s.drop_first() =~= s.skip(1));
        lemma_trim_start_skip(s.skip(1), i - 1);
        assert(s.skip(1).skip(i - 1) =~= s.skip(i));
    } else {
        assert(s.skip(0) =~= s);
    }
}

proof fn lemma_trim_end_take(s: Seq<char>, i: int)
    requires
        0 <= i <= s.len(),
        forall|j: int| i <= j < s.len() ==> is_space(s[j]),
    ensures
        spec_trim_end(s) == spec_trim_end(s.take(i)),
    decreases s.len() - i,
{
    if i < s.len() {
        assert(is_space(s.last()));
        assert(s.drop_last() =~= s.take(s.len() - 1));
        lemma_trim_end_take(s.take(s.len() - 1), i);
        assert(s.take(s.len() - 1).take(i) =~= s.take(i));
    } else {
        assert(s.take(s.len() as int) =~= s);
    }
}

/// Executable trim over a character vector.
pub fn trim_chars(v: &Vec<char>) -> (r: Vec<char>)
    ensures
        r@ == spec_trim(v@),
{
    let mut start: usize = 0;
    while start < v.len() && space_char(v[start as usize])
        invariant
            start <= v@.len(),
            forall|j: int| 0 <= j < start ==> is_space(v@[j]),
        decreases v@.len() - start,
    {
        start = start + 1;
    }
    proof {
        lemma_trim_start_skip(v@, start as int);
        if start < v@.len() {
            assert(!is_space(v@.skip(start as int)[0]));
        }
        assert(spec_trim_start(v@) == v@.skip(start as int));
    }
    let mut end: usize = v.len();
    while end > start && space_char(v[end - 1])
        invariant
            start <= end <= v@.len(),
            forall|j: int| end <= j < v@.len() ==> is_space(v@[j]),
        decreases end,
    {
        end = end - 1;
    }
    let r = sub_chars(v, start, end);
    proof {
        let tail = v@.skip(start as int);
        lemma_trim_end_take(tail, end - start);
        if end > start {
            assert(tail.take(end - start).last() == v@[end - 1]);
            assert(!is_space(tail.take(end - start).last()));
        }
        assert(spec_trim_end(tail.take(end - start)) == tail.take(end - start));
        assert(tail.take(end - start) =~= v@.subrange(start as int, end as int));
    }
    r
}

// ---------------------------------------------------------------------------
// Splitting into lines
// ---------------------------------------------------------------------------

/// The character sequences of a vector of character vectors.
pub open spec fn views_of(s: Seq<Vec<char>>) -> Seq<Seq<char>> {
    s.map_values(|x: Vec<char>| x@)
}

/// One line: the text before the newline, with one trailing carriage return
/// removed when the newline follows it.
pub open spec fn strip_cr(s: Seq<char>) -> Seq<char> {
    if s.len() > 0 && s.last() == '\r' {
        s.drop_last()
    } else {
        s
    }
}

/// The position of the first newline of `s`, or `s.len()` when there is none.
pub open spec fn first_nl(s: Seq<char>) -> nat
    decreases s.len(),
{
    if s.len() == 0 {
        0
    } else if s[0] == '\n' {
        0
    } else {
        1 + first_nl(s.drop_first())
    }
}

proof fn lemma_first_nl(s: Seq<char>)
    ensures
        first_nl(s) <= s.len(),
        forall|j: int| 0 <= j < first_nl(s) ==> s[j] != '\n',
        first_nl(s) < s.len() ==> s[first_nl(s) as int] == '\n',
    decreases s.len(),
{
    if s.len() > 0 && s[0] != '\n' {
        lemma_first_nl(s.drop_first());
        assert forall|j: int| 0 <= j < first_nl(s) implies s[j] != '\n' by {
            if j > 0 {
                assert(s[j] == s.drop_first()[j - 1]);
            }
        }
        if first_nl(s) < s.len() {
            assert(s[first_nl(s) as int] == s.drop_first()[first_nl(s.drop_first()) as int]);
        }
    }
}

proof fn lemma_first_nl_from(s: Seq<char>, i: int)
    requires
        0 <= i <= s.len(),
        forall|j: int| 0 <= j < i ==> s[j] != '\n',
        i < s.len() ==> s[i] == '\n',
    ensures
        first_nl(s) == i,
    decreases s.len(),
{
    if i > 0 {
        lemma_first_nl_from(s.drop_first(), i - 1);
    }
}

/// The lines of `s`: split at `'\n'`, each line stripped of one trailing
/// `'\r'`, with no empty final line for text that ends in a newline.
pub open spec fn spec_lines(s: Seq<char>) -> Seq<Seq<char>>
    decreases s.len(),
{
    if s.len() == 0 {
        Seq::empty()
    } else {
        let i = first_nl(s);
        if i < s.len() {
            seq![strip_cr(s.take(i as int))] + spec_lines(s.skip(i as int + 1))
        } else {
            seq![s]
        }
    }
}

/// Executable mirror of [`spec_lines`].
pub fn split_lines(v: &Vec<char>) -> (r: Vec<Vec<char>>)
    ensures
        views_of(r@) == spec_lines(v@),
    decreases v@.len(),
{
    if v.len() == 0 {
        let r: Vec<Vec<char>> = Vec::new();
        proof {
            assert(views_of(r@) =~= spec_lines(v@));
        }
        return r;
    }
    match find_char(v, '\n', 0) {
        None => {
            let mut r: Vec<Vec<char>> = Vec::new();
            r.push(v.clone());
            proof {
                lemma_first_nl_from(v@, v@.len() as int);
                assert(views_of(r@) =~= spec_lines(v@));
            }
            r
        },
        Some(i) => {
            proof {
                lemma_first_nl_from(v@, i as int);
            }
            let head = if i > 0 && v[i - 1] == '\r' {
                sub_chars(v, 0, i - 1)
            } else {
                sub_chars(v, 0, i)
            };
            proof {
                assert(v@.take(i as int).len() == i as int);
                if i > 0 && v@[i - 1] == '\r' {
                    assert(v@.take(i as int).last() == v@[i - 1]);
                    assert(strip_cr(v@.take(i as int)) =~= v@.subrange(0, i - 1));
                } else {
                    if i > 0 {
                        assert(v@.take(i as int).last() == v@[i - 1]);
                    }
                    assert(strip_cr(v@.take(i as int)) =~= v@.subrange(0, i as int));
                }
                assert(head@ == strip_cr(v@.take(i as int)));
            }
            let rest = sub_chars(v, i + 1, v.len());
            let mut r = split_lines(&rest);
            r.insert(0, head);
            proof {
                assert(rest@ == v@.skip(i as int + 1));
                assert(views_of(r@) =~= seq![strip_cr(v@.take(i as int))] + spec_lines(rest@));
                assert(views_of(r@) =~= spec_lines(v@));
            }
            r
        },
    }
}

// ---------------------------------------------------------------------------
// Whitespace tokenisation
// ---------------------------------------------------------------------------

/// Length of the leading whitespace-free word of `s`.
pub open spec fn spec_token_len(s: Seq<char>) -> nat
    decreases s.len(),
{
    if s.len() == 0 || is_space(s[0]) {
        0
    } else {
        1 + spec_token_len(s.drop_first())
    }
}

proof fn lemma_token_len_bounds(s: Seq<char>)
    ensures
        spec_token_len(s) <= s.len(),
        forall|j: int| 0 <= j < spec_token_len(s) ==> !is_space(s[j]),
        spec_token_len(s) < s.len() ==> is_space(s[spec_token_len(s) as int]),
    decreases s.len(),
{
    if s.len() > 0 && !is_space(s[0]) {
        lemma_token_len_bounds(s.drop_first());
        assert forall|j: int| 0 <= j < spec_token_len(s) implies !is_space(s[j]) by {
            if j > 0 {
                assert(s[j] == s.drop_first()[j - 1]);
            }
        }
        if spec_token_len(s) < s.len() {
            assert(s[spec_token_len(s) as int] == s.drop_first()[spec_token_len(
                s.drop_first(),
            ) as int]);
        }
    }
}

proof fn lemma_token_len_from(s: Seq<char>, w: int)
    requires
        0 <= w <= s.len(),
        forall|j: int| 0 <= j < w ==> !is_space(s[j]),
        w < s.len() ==> is_space(s[w]),
    ensures
        spec_token_len(s) == w,
    decreases s.len(),
{
    if w > 0 {
        lemma_token_len_from(s.drop_first(), w - 1);
    }
}

/// The maximal whitespace-free words of `s`, in order.
pub open spec fn spec_tokens(s: Seq<char>) -> Seq<Seq<char>>
    decreases s.len(),
    via spec_tokens_dec
{
    if s.len() == 0 {
        Seq::empty()
    } else if is_space(s[0]) {
        spec_tokens(s.drop_first())
    } else {
        let w = spec_token_len(s);
        seq![s.take(w as int)] + spec_tokens(s.skip(w as int))
    }
}

#[via_fn]
proof fn spec_tokens_dec(s: Seq<char>) {
    if s.len() > 0 && !is_space(s[0]) {
        lemma_token_len_bounds(s);
        assert(spec_token_len(s) >= 1);
    }
}

/// Executable mirror of [`spec_tokens`].
pub fn split_tokens(v: &Vec<char>) -> (r: Vec<Vec<char>>)
    ensures
        views_of(r@) == spec_tokens(v@),
    decreases v@.len(),
{
    if v.len() == 0 {
        let r: Vec<Vec<char>> = Vec::new();
        proof {
            assert(views_of(r@) =~= spec_tokens(v@));
        }
        return r;
    }
    if space_char(v[0]) {
        let rest = sub_chars(v, 1, v.len());
        proof {
            assert(rest@ =~= v@.drop_first());
        }
        let r = split_tokens(&rest);
        return r;
    }
    let mut w: usize = 0;
    while w < v.len() && !space_char(v[w])
        invariant
            w <= v@.len(),
            forall|j: int| 0 <= j < w ==> !is_space(v@[j]),
        decreases v@.len() - w,
    {
        w = w + 1;
    }
    proof {
        lemma_token_len_from(v@, w as int);
        assert(w >= 1);
    }
    let head = sub_chars(v, 0, w);
    let rest = sub_chars(v, w, v.len());
    let mut r = split_tokens(&rest);
    r.insert(0, head);
    proof {
        assert(views_of(r@) =~= seq![v@.take(w as int)] + spec_tokens(rest@));
        assert(views_of(r@) =~= spec_tokens(v@));
    }
    r
}

// ---------------------------------------------------------------------------
// Joining
// ---------------------------------------------------------------------------

/// `parts` concatenated with `sep` between consecutive elements.
pub open spec fn spec_join(parts: Seq<Seq<char>>, sep: Seq<char>) -> Seq<char>
    decreases parts.len(),
{
    if parts.len() == 0 {
        Seq::empty()
    } else if parts.len() == 1 {
        parts[0]
    } else {
        parts[0] + sep + spec_join(parts.drop_first(), sep)
    }
}

/// Executable mirror of [`spec_join`].
pub fn join_chars(parts: &Vec<Vec<char>>, sep: &Vec<char>) -> (r: Vec<char>)
    ensures
        r@ == spec_join(views_of(parts@), sep@),
    decreases parts@.len(),
{
    if parts.len() == 0 {
        let r: Vec<char> = Vec::new();
        proof {
            assert(r@ =~= spec_join(views_of(parts@), sep@));
        }
        return r;
    }
    let mut r = parts[0].clone();
    proof {
        assert(views_of(parts@).take(1) =~= seq![parts@[0]@]);
        assert(r@ == spec_join(views_of(parts@).take(1), sep@));
    }
    let mut k: usize = 1;
    while k < parts.len()
        invariant
            1 <= k <= parts@.len(),
            parts@.len() >= 1,
            r@ == spec_join(views_of(parts@).take(k as int), sep@),
        decreases parts@.len() - k,
    {
        let mut j: usize = 0;
        while j < sep.len()
            invariant
                j <= sep@.len(),
                r@ == spec_join(views_of(parts@).take(k as int), sep@) + sep@.take(j as int),
            decreases sep@.len() - j,
        {
            r.push(sep[j]);
            j = j + 1;
            proof {
                assert(r@ =~= spec_join(views_of(parts@).take(k as int), sep@) + sep@.take(
                    j as int,
                ));
            }
        }
        proof {
            assert(sep@.take(sep@.len() as int) =~= sep@);
        }
        let part = parts[k].clone();
        let mut j2: usize = 0;
        while j2 < part.len()
            invariant
                j2 <= part@.len(),
                part@ == views_of(parts@)[k as int],
                k < parts@.len(),
                r@ == spec_join(views_of(parts@).take(k as int), sep@) + sep@ + part@.take(
                    j2 as int,
                ),
            decreases part@.len() - j2,
        {
            r.push(part[j2]);
            j2 = j2 + 1;
            proof {
                assert(r@ =~= spec_join(views_of(parts@).take(k as int), sep@) + sep@ + part@.take(
                    j2 as int,
                ));
            }
        }
        k = k + 1;
        proof {
            assert(part@.take(part@.len() as int) =~= part@);
            lemma_join_snoc(views_of(parts@).take(k as int), sep@);
            assert(views_of(parts@).take(k as int).drop_last() =~= views_of(parts@).take(k - 1));
            assert(views_of(parts@).take(k as int).last() == views_of(parts@)[k - 1]);
        }
    }
    proof {
        assert(views_of(parts@).take(parts@.len() as int) =~= views_of(parts@));
    }
    r
}

/// Joining splits off at the last element.
proof fn lemma_join_snoc(parts: Seq<Seq<char>>, sep: Seq<char>)
    requires
        parts.len() >= 2,
    ensures
        spec_join(parts, sep) == spec_join(parts.drop_last(), sep) + sep + parts.last(),
    decreases parts.len(),
{
    if parts.len() == 2 {
        assert(parts.drop_first().len() == 1);
        assert(spec_join(parts.drop_first(), sep) == parts[1]);
        assert(parts.drop_last().len() == 1);
        assert(spec_join(parts.drop_last(), sep) == parts[0]);
    } else {
        lemma_join_snoc(parts.drop_first(), sep);
        assert(parts.drop_first().drop_last() =~= parts.drop_last().drop_first());
        assert(parts.drop_first().last() == parts.last());
        assert(spec_join(parts.drop_last(), sep) == parts[0] + sep + spec_join(
            parts.drop_last().drop_first(),
            sep,
        ));
        assert((parts[0] + sep + spec_join(parts.drop_last().drop_first(), sep) + sep
            + parts.last()) =~= parts[0] + sep + (spec_join(parts.drop_last().drop_first(), sep)
            + sep + parts.last()));
    }
}

// ---------------------------------------------------------------------------
// Substring search and replacement
// ---------------------------------------------------------------------------

/// True when `pat` occurs in `s` starting at position `i`.
pub open spec fn match_at(s: Seq<char>, pat: Seq<char>, i: int) -> bool {
    0 <= i && i + pat.len() <= s.len() && s.subrange(i, i + pat.len()) == pat
}

/// The first position where `pat` occurs in `s`, if any.
pub open spec fn spec_find(s: Seq<char>, pat: Seq<char>) -> Option<int>
    decreases s.len(),
{
    if match_at(s, pat, 0) {
        Some(0int)
    } else if s.len() == 0 {
        None
    } else {
        match spec_find(s.drop_first(), pat) {
            Some(i) => Some(i + 1),
            None => None,
        }
    }
}

proof fn lemma_find_properties(s: Seq<char>, pat: Seq<char>)
    ensures
        match spec_find(s, pat) {
            Some(i) => match_at(s, pat, i) && forall|j: int| 0 <= j < i ==> !match_at(s, pat, j),
            None => forall|j: int| !match_at(s, pat, j),
        },
    decreases s.len(),
{
    if !match_at(s, pat, 0) && s.len() > 0 {
        lemma_find_properties(s.drop_first(), pat);
        assert forall|j: int| match_at(s, pat, j) && j >= 1 implies match_at(
            s.drop_first(),
            pat,
            j - 1,
        ) by {
            assert(s.drop_first().subrange(j - 1, j - 1 + pat.len()) =~= s.subrange(
                j,
                j + pat.len(),
            ));
        }
        assert forall|j: int| match_at(s.drop_first(), pat, j) implies match_at(
            s,
            pat,
            j + 1,
        ) by {
            assert(s.subrange(j + 1, j + 1 + pat.len()) =~= s.drop_first().subrange(
                j,
                j + pat.len(),
            ));
        }
    }
}

/// Executable substring search: smallest match position of `pat` in `v`.
pub fn find_sub(v: &Vec<char>, pat: &Vec<char>) -> (r: Option<usize>)
    ensures
        match r {
            Some(i) => i <= v@.len() && spec_find(v@, pat@) == Some(i as int),
            None => spec_find(v@, pat@) is None,
        },
{
    proof {
        lemma_find_properties(v@, pat@);
    }
    if pat.len() > v.len() {
        proof {
            if spec_find(v@, pat@) is Some {
                let i = spec_find(v@, pat@).unwrap();
                assert(match_at(v@, pat@, i));
            }
        }
        return None;
    }
    if pat.len() == 0 {
        proof {
            assert(v@.subrange(0, 0) =~= pat@);
            assert(match_at(v@, pat@, 0));
        }
        return Some(0);
    }
    let n: usize = v.len();
    let limit: usize = n - pat.len();
    let mut i: usize = 0;
    while i <= limit
        invariant
            1 <= pat@.len() <= v@.len(),
            n == v@.len(),
            limit == v@.len() - pat@.len(),
            i <= limit + 1,
            forall|j: int| 0 <= j < i ==> !match_at(v@, pat@, j),
        decreases limit + 1 - i,
    {
        let window = sub_chars(v, i, i + pat.len());
        if chars_eq(&window, pat) {
            proof {
                assert(match_at(v@, pat@, i as int));
                lemma_find_properties(v@, pat@);
                if spec_find(v@, pat@) is Some {
                    let k = spec_find(v@, pat@).unwrap();
                    assert(!(k < i) && !(i < k)) by {
                        if i < k {
                            assert(!match_at(v@, pat@, i as int));
                        }
                    }
                } else {
                    assert(!match_at(v@, pat@, i as int));
                }
            }
            return Some(i);
        }
        i = i + 1;
    }
    proof {
        if spec_find(v@, pat@) is Some {
            let k = spec_find(v@, pat@).unwrap();
            assert(match_at(v@, pat@, k));
            assert(k + pat@.len() <= v@.len());
            assert(false);
        }
    }
    None
}

/// `s` with every occurrence of `pat` replaced by `rep`, scanning once from
/// the left without overlapping matches.
pub open spec fn spec_replace_all(s: Seq<char>, pat: Seq<char>, rep: Seq<char>) -> Seq<char>
    decreases s.len(),
{
    if pat.len() == 0 {
        s
    } else {
        match spec_find(s, pat) {
            Some(i) => {
                if s.skip(i + pat.len()).len() < s.len() {
                    s.take(i) + rep + spec_replace_all(s.skip(i + pat.len()), pat, rep)
                } else {
                    s
                }
            },
            None => s,
        }
    }
}

/// Executable mirror of [`spec_replace_all`].
pub fn replace_all(v: &Vec<char>, pat: &Vec<char>, rep: &Vec<char>) -> (r: Vec<char>)
    ensures
        r@ == spec_replace_all(v@, pat@, rep@),
    decreases v@.len(),
{
    if pat.len() == 0 {
        return v.clone();
    }
    match find_sub(v, pat) {
        None => v.clone(),
        Some(i) => {
            let n: usize = v.len();
            proof {
                lemma_find_properties(v@, pat@);
                assert(match_at(v@, pat@, i as int));
                assert(i + pat@.len() <= n);
            }
            let mut out = sub_chars(v, 0, i);
            let mut j: usize = 0;
            while j < rep.len()
                invariant
                    j <= rep@.len(),
                    i <= v@.len(),
                    out@ == v@.take(i as int) + rep@.take(j as int),
                decreases rep@.len() - j,
            {
                out.push(rep[j]);
                j = j + 1;
                proof {
                    assert(out@ =~= v@.take(i as int) + rep@.take(j as int));
                }
            }
            proof {
                assert(rep@.take(rep@.len() as int) =~= rep@);
            }
            let rest = sub_chars(v, i + pat.len(), v.len());
            let tail = replace_all(&rest, pat, rep);
            let mut k: usize = 0;
            while k < tail.len()
                invariant
                    k <= tail@.len(),
                    i <= v@.len(),
                    out@ == v@.take(i as int) + rep@ + tail@.take(k as int),
                decreases tail@.len() - k,
            {
                out.push(tail[k]);
                k = k + 1;
                proof {
                    assert(out@ =~= v@.take(i as int) + rep@ + tail@.take(k as int));
                }
            }
            proof {
                assert(tail@.take(tail@.len() as int) =~= tail@);
                assert(rest@ == v@.skip(i + pat@.len()));
                assert(v@.skip(i + pat@.len()).len() < v@.len());
                assert(out@ =~= spec_replace_all(v@, pat@, rep@));
            }
            out
        },
    }
}

} // verus!
