use crate::envmap::pairs_view;
use crate::parser::RequestTemplate;
use crate::errors::{Error, ErrorView};
use crate::strkit::{chars_of, concat_chars, spec_upper, str_eq, string_from_chars, upper_chars};
use vstd::prelude::*;

verus! {

/// The escape of one character inside a JavaScript string literal.
pub open spec fn js_escape_char(c: char) -> Seq<char> {
    if c == '\\' {
        seq!['\\', '\\']
    } else if c == '"' {
        seq!['\\', '"']
    } else if c == '\n' {
        seq!['\\', 'n']
    } else if c == '\r' {
        seq!['\\', 'r']
    } else if c == '\t' {
        seq!['\\', 't']
    } else {
        seq![c]
    }
}

/// A text escaped for a JavaScript string literal.
pub open spec fn js_escape(s: Seq<char>) -> Seq<char>
    decreases s.len(),
{
    if s.len() == 0 {
        Seq::empty()
    } else {
        js_escape_char(s[0]) + js_escape(s.drop_first())
    }
}

fn js_escape_chars(v: &Vec<char>) -> (r: Vec<char>)
    ensures
        r@ == js_escape(v@),
    decreases v@.len(),
{
    let mut out: Vec<char> = Vec::new();
    let mut i: usize = 0;
    let ghost gv = v@;
    proof {
        assert(gv.skip(0) =~= gv);
        assert(out@ + js_escape(gv) =~= js_escape(gv));
    }
    while i < v.len()
        invariant
            i <= v@.len(),
            gv == v@,
            out@ + js_escape(gv.skip(i as int)) == js_escape(gv),
        decreases v@.len() - i,
    {
        proof {
            assert(gv.skip(i as int)[0] == gv[i as int]);
            assert(gv.skip(i as int).drop_first() =~= gv.skip(i as int + 1));
        }
        let c = v[i];
        let mut piece: Vec<char> = Vec::new();
        if c == '\\' {
            piece.push('\\');
            piece.push('\\');
        } else if c == '"' {
            piece.push('\\');
            piece.push('"');
        } else if c == '\n' {
            piece.push('\\');
            piece.push('n');
        } else if c == '\r' {
            piece.push('\\');
            piece.push('r');
        } else if c == '\t' {
            piece.push('\\');
            piece.push('t');
        } else {
            piece.push(c);
        }
        proof {
            assert(piece@ =~= js_escape_char(gv[i as int]));
        }
        let new_out = concat_chars(&out, &piece);
        out = new_out;
        i = i + 1;
        proof {
            assert(out@ + js_escape(gv.skip(i as int)) =~= js_escape(gv));
        }
    }
    proof {
        assert(js_escape(gv.skip(v@.len() as int)) =~= Seq::<char>::empty());
        assert(out@ + Seq::<char>::empty() =~= out@);
    }
    out
}

/// One rendered header line of the snippet.
pub open spec fn js_header_line(h: (Seq<char>, Seq<char>)) -> Seq<char> {
    "    \""@ + js_escape(h.0) + "\": \""@ + js_escape(h.1) + "\",\n"@
}

/// The rendered header lines.
pub open spec fn js_header_lines(hs: Seq<(Seq<char>, Seq<char>)>) -> Seq<char>
    decreases hs.len(),
{
    if hs.len() == 0 {
        Seq::empty()
    } else {
        js_header_line(hs[0]) + js_header_lines(hs.drop_first())
    }
}

/// The fetch-call snippet of a request template: an optional original-file
/// comment, the fetch call with its URL, the upper-cased method, the
/// headers, and the body when the template carries text.
pub open spec fn spec_render_js_fetch(
    method: Seq<char>,
    url: Seq<char>,
    headers: Seq<(Seq<char>, Seq<char>)>,
    body_text: Option<Seq<char>>,
    body_file: Option<Seq<char>>,
) -> Seq<char> {
    (match body_file {
        Some(f) => "// Original file: "@ + f + "\n"@,
        None => Seq::<char>::empty(),
    }) + "const response = await fetch(\""@ + js_escape(url) + "\", {\n"@ + "  method: \""@
        + spec_upper(method) + "\",\n"@ + "  headers: {\n"@ + js_header_lines(headers) + "  },\n"@
        + (match body_text {
        Some(b) => "  body: \""@ + js_escape(b) + "\",\n"@,
        None => Seq::<char>::empty(),
    }) + "});\n"@
}

/// Render the fetch-call snippet of a template, as
/// [`spec_render_js_fetch`] defines it.
pub fn render_js_fetch(template: &RequestTemplate) -> (r: String)
    ensures
        r@ == spec_render_js_fetch(
            template.method@,
            template.url@,
            pairs_view(template.headers@),
            match template.body_text {
                Some(b) => Some(b@),
                None => None,
            },
            match template.body_file {
                Some(f) => Some(f@),
                None => None,
            },
        ),
{
    let mut out: Vec<char> = Vec::new();
    match &template.body_file {
        Some(f) => {
            let p1 = chars_of("// Original file: ");
            let fv = chars_of(f.as_str());
            let a = concat_chars(&p1, &fv);
            let nl = chars_of("\n");
            let b = concat_chars(&a, &nl);
            out = b;
        },
        None => {
        },
    }
    let ghost head = out@;
    let p2 = chars_of("const response = await fetch(\"");
    let uv = chars_of(template.url.as_str());
    let ue = js_escape_chars(&uv);
    let p3 = chars_of("\", {\n");
    let p4 = chars_of("  method: \"");
    let mv = chars_of(template.method.as_str());
    let mu = upper_chars(&mv);
    let p5 = chars_of("\",\n");
    let p6 = chars_of("  headers: {\n");
    let out2 = concat_chars(&out, &p2);
    let out3 = concat_chars(&out2, &ue);
    let out4 = concat_chars(&out3, &p3);
    let out5 = concat_chars(&out4, &p4);
    let out6 = concat_chars(&out5, &mu);
    let out7 = concat_chars(&out6, &p5);
    let mut acc = concat_chars(&out7, &p6);
    let ghost before_headers = acc@;
    let ghost ghdrs = pairs_view(template.headers@);
    let mut i: usize = 0;
    proof {
        assert(ghdrs.skip(0) =~= ghdrs);
        assert(acc@ + js_header_lines(ghdrs) =~= before_headers + js_header_lines(ghdrs));
    }
    while i < template.headers.len()
        invariant
            i <= template.headers@.len(),
            ghdrs == pairs_view(template.headers@),
            acc@ + js_header_lines(ghdrs.skip(i as int)) == before_headers + js_header_lines(
                ghdrs,
            ),
        decreases template.headers@.len() - i,
    {
        proof {
            assert(ghdrs.skip(i as int)[0] == ghdrs[i as int]);
            assert(ghdrs.skip(i as int).drop_first() =~= ghdrs.skip(i as int + 1));
        }
        let q1 = chars_of("    \"");
        let nv = chars_of(template.headers[i].0.as_str());
        let ne = js_escape_chars(&nv);
        let q2 = chars_of("\": \"");
        let vv = chars_of(template.headers[i].1.as_str());
        let ve = js_escape_chars(&vv);
        let q3 = chars_of("\",\n");
        let a1 = concat_chars(&acc, &q1);
        let a2 = concat_chars(&a1, &ne);
        let a3 = concat_chars(&a2, &q2);
        let a4 = concat_chars(&a3, &ve);
        acc = concat_chars(&a4, &q3);
        i = i + 1;
        proof {
            assert(acc@ + js_header_lines(ghdrs.skip(i as int)) =~= before_headers
                + js_header_lines(ghdrs));
        }
    }
    proof {
        assert(js_header_lines(ghdrs.skip(template.headers@.len() as int)) =~= Seq::<
            char,
        >::empty());
        assert(acc@ + Seq::<char>::empty() =~= acc@);
    }
    let p7 = chars_of("  },\n");
    let mut acc2 = concat_chars(&acc, &p7);
    match &template.body_text {
        Some(b) => {
            let q1 = chars_of("  body: \"");
            let bv = chars_of(b.as_str());
            let be = js_escape_chars(&bv);
            let q2 = chars_of("\",\n");
            let a1 = concat_chars(&acc2, &q1);
            let a2 = concat_chars(&a1, &be);
            acc2 = concat_chars(&a2, &q2);
        },
        None => {
        },
    }
    let p8 = chars_of("});\n");
    let full = concat_chars(&acc2, &p8);
    proof {
        assert(full@ =~= spec_render_js_fetch(
            template.method@,
            template.url@,
            pairs_view(template.headers@),
            match template.body_text {
                Some(b) => Some(b@),
                None => None,
            },
            match template.body_file {
                Some(f) => Some(f@),
                None => None,
            },
        ));
    }
    string_from_chars(&full)
}

/// Render a request through a named export template; only `js-fetch` is
/// known, and any other name is refused with it in the message.
pub fn render_export_template(name: &str, template: &RequestTemplate) -> (r: Result<String, Error>)
    ensures
        match r {
            Ok(out) => name@ == "js-fetch"@ && out@ == spec_render_js_fetch(
                template.method@,
                template.url@,
                pairs_view(template.headers@),
                match template.body_text {
                    Some(b) => Some(b@),
                    None => None,
                },
                match template.body_file {
                    Some(f) => Some(f@),
                    None => None,
                },
            ),
            Err(e) => name@ != "js-fetch"@ && e@ == ErrorView::UnknownExportTemplate(name@),
        },
{
    if str_eq(name, "js-fetch") {
        Ok(render_js_fetch(template))
    } else {
        Err(Error::UnknownExportTemplate(String::from_str(name)))
    }
}

} // verus!
