use crate::strkit::{
    chars_eq, chars_of, concat_chars, first_idx, is_ascii_alphanumeric, lemma_first_idx_from,
    spec_trim, string_from_chars, sub_chars, trim_chars, utf8_decode, utf8_text,
};
use crate::substitute::{trim_dash, trim_dash_chars};
use vstd::prelude::*;

verus! {

// ---------------------------------------------------------------------------
// Sanitised path components
// ---------------------------------------------------------------------------

/// A character a response directory name may keep.
pub open spec fn keepable(c: char) -> bool {
    is_ascii_alphanumeric(c) || c == '-' || c == '_'
}

/// The sanitised form of a component: every other character becomes a
/// dash, outer dashes are trimmed, and an empty result falls back to
/// `request`.
pub open spec fn spec_sanitize_component(s: Seq<char>) -> Seq<char> {
    let mapped = s.map_values(
        |c: char|
            if keepable(c) {
                c
            } else {
                '-'
            },
    );
    let trimmed = trim_dash(mapped);
    if trimmed.len() == 0 {
        "request"@
    } else {
        trimmed
    }
}

/// Sanitise one file-name component, as [`spec_sanitize_component`]
/// defines it.
pub fn sanitize_component(value: &str) -> (r: String)
    ensures
        r@ == spec_sanitize_component(value@),
{
    let v = chars_of(value);
    let mut mapped: Vec<char> = Vec::new();
    let mut i: usize = 0;
    while i < v.len()
        invariant
            i <= v@.len(),
            mapped@ == v@.take(i as int).map_values(
                |c: char|
                    if keepable(c) {
                        c
                    } else {
                        '-'
                    },
            ),
        decreases v@.len() - i,
    {
        let c = v[i];
        if ('a' <= c && c <= 'z') || ('A' <= c && c <= 'Z') || ('0' <= c && c <= '9') || c == '-'
            || c == '_' {
            mapped.push(c);
        } else {
            mapped.push('-');
        }
        i = i + 1;
        proof {
            assert(mapped@ =~= v@.take(i as int).map_values(
                |c: char|
                    if keepable(c) {
                        c
                    } else {
                        '-'
                    },
            ));
        }
    }
    proof {
        assert(v@.take(v@.len() as int) =~= v@);
    }
    let trimmed = trim_dash_chars(&mapped);
    if trimmed.len() == 0 {
        String::from_str("request")
    } else {
        string_from_chars(&trimmed)
    }
}

// ---------------------------------------------------------------------------
// Extensions for content types
// ---------------------------------------------------------------------------

/// The media type of a content-type value: the text before any `;`,
/// trimmed.
pub open spec fn media_type(ct: Seq<char>) -> Seq<char> {
    spec_trim(ct.take(first_idx(ct, ';') as int))
}

/// The file extension a response body gets for its content type; unknown
/// and absent types fall back to a binary extension.
pub open spec fn spec_extension_for(ct: Option<Seq<char>>) -> Seq<char> {
    let m = match ct {
        Some(s) => media_type(s),
        None => media_type(""@),
    };
    if m == "application/json"@ {
        ".json"@
    } else if m == "text/html"@ {
        ".html"@
    } else if m == "text/plain"@ {
        ".txt"@
    } else if m == "application/xml"@ || m == "text/xml"@ {
        ".xml"@
    } else if m == "image/png"@ {
        ".png"@
    } else if m == "image/jpeg"@ {
        ".jpg"@
    } else if m == "application/pdf"@ {
        ".pdf"@
    } else {
        ".bin"@
    }
}

/// The extension for a content type, as [`spec_extension_for`] defines it.
pub fn extension_for_content_type(content_type: Option<&str>) -> (r: &'static str)
    ensures
        r@ == spec_extension_for(
            match content_type {
                Some(s) => Some(s@),
                None => None,
            },
        ),
{
    let raw: &str = match content_type {
        Some(s) => s,
        None => "",
    };
    let rv = chars_of(raw);
    let cut = match crate::strkit::find_char(&rv, ';', 0) {
        Some(i) => {
            proof {
                lemma_first_idx_from(rv@, ';', i as int);
            }
            i
        },
        None => {
            proof {
                lemma_first_idx_from(rv@, ';', rv@.len() as int);
            }
            rv.len()
        },
    };
    let head = sub_chars(&rv, 0, cut);
    let m = trim_chars(&head);
    proof {
        assert(m@ == media_type(raw@));
        match content_type {
            Some(s) => {
                assert(raw@ == s@);
            },
            None => {
                assert(raw@ =~= ""@) by {
                    reveal_strlit("");
                }
            },
        }
    }
    let c = chars_of("application/json");
    if chars_eq(&m, &c) {
        return ".json";
    }
    let c = chars_of("text/html");
    if chars_eq(&m, &c) {
        return ".html";
    }
    let c = chars_of("text/plain");
    if chars_eq(&m, &c) {
        return ".txt";
    }
    let c = chars_of("application/xml");
    if chars_eq(&m, &c) {
        return ".xml";
    }
    let c = chars_of("text/xml");
    if chars_eq(&m, &c) {
        return ".xml";
    }
    let c = chars_of("image/png");
    if chars_eq(&m, &c) {
        return ".png";
    }
    let c = chars_of("image/jpeg");
    if chars_eq(&m, &c) {
        return ".jpg";
    }
    let c = chars_of("application/pdf");
    if chars_eq(&m, &c) {
        return ".pdf";
    }
    ".bin"
}

// ---------------------------------------------------------------------------
// Response previews
// ---------------------------------------------------------------------------

/// The lower-case hexadecimal digit of a nibble.
pub open spec fn hex_digit(n: int) -> char {
    if n < 10 {
        (('0' as u8) + n) as char
    } else {
        (('a' as u8) + (n - 10)) as char
    }
}

/// The lower-case hexadecimal text of a byte sequence, two digits per
/// byte, high nibble first.
pub open spec fn hex_of(b: Seq<u8>) -> Seq<char>
    decreases b.len(),
{
    if b.len() == 0 {
        Seq::empty()
    } else {
        seq![hex_digit((b[0] / 16) as int), hex_digit((b[0] % 16) as int)] + hex_of(b.drop_first())
    }
}

/// Render bytes as lower-case hexadecimal, as [`hex_of`] defines it.
fn hex_lower(bytes: &Vec<u8>) -> (r: String)
    ensures
        r@ == hex_of(bytes@),
{
    let mut out: Vec<char> = Vec::new();
    let mut i: usize = 0;
    proof {
        assert(bytes@.take(0) =~= Seq::<u8>::empty());
    }
    while i < bytes.len()
        invariant
            i <= bytes@.len(),
            out@ == hex_of(bytes@.take(i as int)),
        decreases bytes@.len() - i,
    {
        let b = bytes[i];
        let hi = b / 16;
        let lo = b % 16;
        let c1 = if hi < 10 {
            (('0' as u8) + hi) as char
        } else {
            (('a' as u8) + (hi - 10)) as char
        };
        let c2 = if lo < 10 {
            (('0' as u8) + lo) as char
        } else {
            (('a' as u8) + (lo - 10)) as char
        };
        out.push(c1);
        out.push(c2);
        i = i + 1;
        proof {
            lemma_hex_snoc(bytes@.take(i - 1), bytes@[i - 1]);
            assert(bytes@.take(i as int) =~= bytes@.take(i - 1).push(bytes@[i - 1]));
            assert(out@ =~= hex_of(bytes@.take(i - 1)) + seq![
                hex_digit((bytes@[i - 1] / 16) as int),
                hex_digit((bytes@[i - 1] % 16) as int),
            ]);
        }
    }
    proof {
        assert(bytes@.take(bytes@.len() as int) =~= bytes@);
    }
    string_from_chars(&out)
}

/// Hex rendering splits off at the last byte.
proof fn lemma_hex_snoc(b: Seq<u8>, x: u8)
    ensures
        hex_of(b.push(x)) == hex_of(b) + seq![
            hex_digit((x / 16) as int),
            hex_digit((x % 16) as int),
        ],
    decreases b.len(),
{
    if b.len() == 0 {
        assert(b.push(x)[0] == x);
        assert(b.push(x).drop_first() =~= Seq::<u8>::empty());
        assert(seq![hex_digit((x / 16) as int), hex_digit((x % 16) as int)] + hex_of(
            Seq::<u8>::empty(),
        ) =~= seq![hex_digit((x / 16) as int), hex_digit((x % 16) as int)]);
        assert(hex_of(b) + seq![hex_digit((x / 16) as int), hex_digit((x % 16) as int)] =~= seq![
            hex_digit((x / 16) as int),
            hex_digit((x % 16) as int),
        ]);
    } else {
        lemma_hex_snoc(b.drop_first(), x);
        assert(b.push(x)[0] == b[0]);
        assert(b.push(x).drop_first() =~= b.drop_first().push(x));
        assert(seq![hex_digit((b[0] / 16) as int), hex_digit((b[0] % 16) as int)] + (hex_of(
            b.drop_first(),
        ) + seq![hex_digit((x / 16) as int), hex_digit((x % 16) as int)]) =~= (seq![
            hex_digit((b[0] / 16) as int),
            hex_digit((b[0] % 16) as int),
        ] + hex_of(b.drop_first())) + seq![
            hex_digit((x / 16) as int),
            hex_digit((x % 16) as int),
        ]);
    }
}

/// Copy of the bytes in positions `[a, b)`.
fn sub_bytes(v: &Vec<u8>, a: usize, b: usize) -> (r: Vec<u8>)
    requires
        a <= b <= v@.len(),
    ensures
        r@ == v@.subrange(a as int, b as int),
{
    let mut out: Vec<u8> = Vec::new();
    let mut i: usize = a;
    while i < b
        invariant
            a <= i <= b <= v@.len(),
            out@ == v@.subrange(a as int, i as int),
        decreases b - i,
    {
        out.push(v[i]);
        i = i + 1;
        proof {
            assert(out@ =~= v@.subrange(a as int, i as int));
        }
    }
    out
}

/// The preview of a response body: the leading bytes as text when they
/// decode as UTF-8, else as hexadecimal.
pub open spec fn spec_create_preview(b: Seq<u8>, limit: int) -> Seq<char> {
    let slice = if b.len() > limit {
        b.take(limit)
    } else {
        b
    };
    match utf8_decode(slice) {
        Some(t) => t,
        None => hex_of(slice),
    }
}

/// Preview a body, as [`spec_create_preview`] defines it.
pub fn create_preview(bytes: &Vec<u8>, limit: usize) -> (r: String)
    ensures
        r@ == spec_create_preview(bytes@, limit as int),
{
    let slice = if bytes.len() > limit {
        sub_bytes(bytes, 0, limit)
    } else {
        sub_bytes(bytes, 0, bytes.len())
    };
    proof {
        if bytes@.len() > limit {
            assert(slice@ =~= bytes@.take(limit as int));
        } else {
            assert(slice@ =~= bytes@);
        }
    }
    match utf8_text(&slice) {
        Some(text) => text,
        None => hex_lower(&slice),
    }
}

// ---------------------------------------------------------------------------
// Sizes
// ---------------------------------------------------------------------------

/// The decimal text of a number.
pub open spec fn dec_of(n: int) -> Seq<char>
    decreases n,
{
    if n < 0 {
        Seq::empty()
    } else if n < 10 {
        seq![(('0' as u8) + n) as char]
    } else {
        dec_of(n / 10) + seq![(('0' as u8) + (n % 10)) as char]
    }
}

/// A size rendered for people: bytes up to a kibibyte, then tenths of
/// kibibytes and mebibytes, rounded to the nearest tenth.
pub open spec fn spec_format_size(bytes: int) -> Seq<char> {
    if bytes <= 1024 {
        dec_of(bytes) + " B"@
    } else if bytes <= 1048576 {
        let tenths = (bytes * 10 + 512) / 1024;
        dec_of(tenths / 10) + "."@ + dec_of(tenths % 10) + " KiB"@
    } else {
        let tenths = (bytes * 10 + 524288) / 1048576;
        dec_of(tenths / 10) + "."@ + dec_of(tenths % 10) + " MiB"@
    }
}

/// The decimal digits of a number.
fn dec_u128(n: u128) -> (r: Vec<char>)
    ensures
        r@ == dec_of(n as int),
    decreases n,
{
    if n < 10 {
        let d = (('0' as u8) + (n as u8)) as char;
        let mut out: Vec<char> = Vec::new();
        out.push(d);
        proof {
            assert(out@ =~= dec_of(n as int));
        }
        out
    } else {
        let mut out = dec_u128(n / 10);
        let d = (('0' as u8) + ((n % 10) as u8)) as char;
        out.push(d);
        proof {
            assert(out@ =~= dec_of(n as int));
        }
        out
    }
}

/// Render a size, as [`spec_format_size`] defines it.
pub fn format_size(bytes: u64) -> (r: String)
    ensures
        r@ == spec_format_size(bytes as int),
{
    if bytes <= 1024 {
        let d = dec_u128(bytes as u128);
        let unit = chars_of(" B");
        let full = concat_chars(&d, &unit);
        string_from_chars(&full)
    } else if bytes <= 1048576 {
        let tenths: u128 = ((bytes as u128) * 10 + 512) / 1024;
        let whole = dec_u128(tenths / 10);
        let dot = chars_of(".");
        let frac = dec_u128(tenths % 10);
        let unit = chars_of(" KiB");
        let a = concat_chars(&whole, &dot);
        let b = concat_chars(&a, &frac);
        let full = concat_chars(&b, &unit);
        proof {
            assert(full@ =~= spec_format_size(bytes as int));
        }
        string_from_chars(&full)
    } else {
        let tenths: u128 = ((bytes as u128) * 10 + 524288) / 1048576;
        let whole = dec_u128(tenths / 10);
        let dot = chars_of(".");
        let frac = dec_u128(tenths % 10);
        let unit = chars_of(" MiB");
        let a = concat_chars(&whole, &dot);
        let b = concat_chars(&a, &frac);
        let full = concat_chars(&b, &unit);
        proof {
            assert(full@ =~= spec_format_size(bytes as int));
        }
        string_from_chars(&full)
    }
}

// ---------------------------------------------------------------------------
// Save paths
// ---------------------------------------------------------------------------

/// The position after the last `/` of a path, where its file name starts.
pub open spec fn file_name_start(p: Seq<char>) -> int
    decreases p.len(),
{
    if p.len() == 0 {
        0
    } else if p.last() == '/' {
        p.len() as int
    } else {
        file_name_start(p.drop_last())
    }
}

/// The position of the last `.` of the file name, when it marks an
/// extension: not at the very start of the file name.
pub open spec fn extension_dot(p: Seq<char>) -> Option<int>
    decreases p.len(),
{
    if p.len() == 0 {
        None
    } else if p.last() == '/' {
        None
    } else if p.last() == '.' {
        if p.len() - 1 > file_name_start(p) {
            Some(p.len() - 1)
        } else {
            None
        }
    } else {
        extension_dot(p.drop_last())
    }
}

/// `p` with its extension forced to `curl`.
pub open spec fn with_curl_extension(p: Seq<char>) -> Seq<char> {
    match extension_dot(p) {
        Some(d) => if p.skip(d + 1) == "curl"@ {
            p
        } else {
            p.take(d + 1) + "curl"@
        },
        None => p + ".curl"@,
    }
}

/// Where an imported request is saved: the trimmed input, taken as a
/// directory when it ends with a slash or backslash and then joined with
/// the default name, given a `curl` extension, and anchored to the base
/// directory unless absolute.
pub open spec fn spec_resolve_save_path(
    base_dir: Seq<char>,
    input: Seq<char>,
    default_name: Seq<char>,
) -> Seq<char> {
    let t = spec_trim(input);
    let candidate = if t.len() > 0 && (t.last() == '/' || t.last() == '\\') {
        if t.last() == '/' {
            t + default_name
        } else {
            t + "/"@ + default_name
        }
    } else {
        t
    };
    let with_ext = with_curl_extension(candidate);
    if with_ext.len() > 0 && with_ext[0] == '/' {
        with_ext
    } else {
        base_dir + "/"@ + with_ext
    }
}

proof fn lemma_file_name_start_snoc(p: Seq<char>, c: char)
    ensures
        file_name_start(p.push(c)) == if c == '/' {
            (p.len() + 1) as int
        } else {
            file_name_start(p) as int
        },
{
    assert(p.push(c).last() == c);
    assert(p.push(c).drop_last() =~= p);
}

/// Find the file-name start by scanning from the end.
fn file_name_start_exec(v: &Vec<char>) -> (r: usize)
    ensures
        r as int == file_name_start(v@),
{
    let mut i: usize = v.len();
    proof {
        assert(v@.take(v@.len() as int) =~= v@);
    }
    while i > 0 && v[i - 1] != '/'
        invariant
            i <= v@.len(),
            file_name_start(v@) == file_name_start(v@.take(i as int)),
        decreases i,
    {
        proof {
            assert(v@.take(i as int).last() == v@[i - 1]);
            assert(v@.take(i as int).drop_last() =~= v@.take(i - 1));
        }
        i = i - 1;
    }
    proof {
        if i > 0 {
            assert(v@.take(i as int).last() == v@[i - 1]);
        }
        assert(file_name_start(v@.take(i as int)) == i);
    }
    i
}

/// Find the extension dot by scanning from the end.
fn extension_dot_exec(v: &Vec<char>) -> (r: Option<usize>)
    ensures
        match r {
            Some(d) => extension_dot(v@) == Some(d as int),
            None => extension_dot(v@) is None,
        },
{
    let start = file_name_start_exec(v);
    let mut i: usize = v.len();
    proof {
        assert(v@.take(v@.len() as int) =~= v@);
    }
    while i > 0 && v[i - 1] != '/' && v[i - 1] != '.'
        invariant
            i <= v@.len(),
            forall|j: int| i <= j < v@.len() ==> v@[j] != '/' && v@[j] != '.',
            extension_dot(v@) == extension_dot(v@.take(i as int)),
        decreases i,
    {
        proof {
            assert(v@.take(i as int).last() == v@[i - 1]);
            assert(v@.take(i as int).drop_last() =~= v@.take(i - 1));
        }
        i = i - 1;
    }
    if i == 0 {
        proof {
            assert(extension_dot(v@.take(0)) is None);
        }
        return None;
    }
    proof {
        assert(v@.take(i as int).last() == v@[i - 1]);
    }
    if v[i - 1] == '/' {
        proof {
            assert(extension_dot(v@.take(i as int)) is None);
        }
        return None;
    }
    // v[i - 1] == '.'
    proof {
        assert(v@[i - 1] == '.');
        lemma_prefix_file_name_start(v@, i as int);
    }
    if i - 1 > start {
        proof {
            assert(extension_dot(v@.take(i as int)) == Some(i - 1));
        }
        Some(i - 1)
    } else {
        proof {
            assert(extension_dot(v@.take(i as int)) is None);
        }
        None
    }
}

/// An extension dot lies inside the path.
proof fn lemma_extension_dot_bound(p: Seq<char>)
    ensures
        match extension_dot(p) {
            Some(d) => 0 <= d < p.len(),
            None => true,
        },
    decreases p.len(),
{
    if p.len() > 0 && p.last() != '/' && p.last() != '.' {
        lemma_extension_dot_bound(p.drop_last());
    }
}

/// A prefix without later slashes keeps the file-name start.
proof fn lemma_prefix_file_name_start(p: Seq<char>, i: int)
    requires
        0 <= i <= p.len(),
        forall|j: int| i <= j < p.len() ==> p[j] != '/',
    ensures
        file_name_start(p.take(i)) == file_name_start(p),
    decreases p.len() - i,
{
    if i < p.len() {
        lemma_prefix_file_name_start(p.take(p.len() - 1), i);
        assert(p.take(p.len() - 1) =~= p.drop_last());
        assert(p.take(p.len() - 1).take(i) =~= p.take(i));
        assert(p.last() != '/');
    } else {
        assert(p.take(i) =~= p);
    }
}

/// Resolve a save path, as [`spec_resolve_save_path`] defines it.
pub fn resolve_save_path(base_dir: &str, input: &str, default_name: &str) -> (r: String)
    ensures
        r@ == spec_resolve_save_path(base_dir@, input@, default_name@),
{
    let iv = chars_of(input);
    let t = trim_chars(&iv);
    let candidate: Vec<char> = if t.len() > 0 && (t[t.len() - 1] == '/' || t[t.len() - 1] == '\\')
    {
        let dn = chars_of(default_name);
        if t[t.len() - 1] == '/' {
            concat_chars(&t, &dn)
        } else {
            let mut with_sep = t;
            with_sep.push('/');
            proof {
                reveal_strlit("/");
                assert(with_sep@ =~= spec_trim(input@) + "/"@);
            }
            concat_chars(&with_sep, &dn)
        }
    } else {
        t
    };
    let curl_lit = chars_of("curl");
    let cn = candidate.len();
    let with_ext: Vec<char> = match extension_dot_exec(&candidate) {
        Some(d) => {
            proof {
                lemma_extension_dot_bound(candidate@);
            }
            let tail = sub_chars(&candidate, d + 1, cn);
            proof {
                assert(tail@ == candidate@.skip(d + 1));
            }
            if chars_eq(&tail, &curl_lit) {
                candidate
            } else {
                let head = sub_chars(&candidate, 0, d + 1);
                proof {
                    assert(head@ == candidate@.take(d + 1));
                }
                concat_chars(&head, &curl_lit)
            }
        },
        None => {
            let ext = chars_of(".curl");
            concat_chars(&candidate, &ext)
        },
    };
    proof {
        assert(with_ext@ == with_curl_extension(candidate@));
    }
    if with_ext.len() > 0 && with_ext[0] == '/' {
        string_from_chars(&with_ext)
    } else {
        let mut out = chars_of(base_dir);
        out.push('/');
        proof {
            reveal_strlit("/");
            assert(out@ =~= base_dir@ + "/"@);
        }
        let full = concat_chars(&out, &with_ext);
        string_from_chars(&full)
    }
}

} // verus!
