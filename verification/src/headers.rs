use crate::envmap::{pairs_view, EnvMap};
use crate::strkit::{chars_eq, chars_of, lower_chars, spec_lower, string_from_chars};
use vstd::prelude::*;

verus! {

// ---------------------------------------------------------------------------
// Lexicographic order on character sequences
// ---------------------------------------------------------------------------

/// Strict lexicographic order by code point.
pub open spec fn lex_lt(a: Seq<char>, b: Seq<char>) -> bool
    decreases a.len(),
{
    if b.len() == 0 {
        false
    } else if a.len() == 0 {
        true
    } else if a[0] != b[0] {
        a[0] < b[0]
    } else {
        lex_lt(a.drop_first(), b.drop_first())
    }
}

/// Two distinct sequences are ordered one way or the other.
pub proof fn lemma_lex_total(a: Seq<char>, b: Seq<char>)
    requires
        a != b,
    ensures
        lex_lt(a, b) || lex_lt(b, a),
    decreases a.len(),
{
    if a.len() != 0 && b.len() != 0 {
        if a[0] == b[0] {
            if a.drop_first() == b.drop_first() {
                assert(a.drop_first().len() == b.drop_first().len());
                assert(a.len() == b.len());
                assert forall|i: int| 0 <= i < a.len() implies a[i] == b[i] by {
                    if i > 0 {
                        assert(a.drop_first()[i - 1] == a[i]);
                        assert(b.drop_first()[i - 1] == b[i]);
                    }
                }
                assert(a =~= b);
            } else {
                lemma_lex_total(a.drop_first(), b.drop_first());
            }
        }
    } else if a.len() == 0 && b.len() == 0 {
        assert(a =~= b);
    }
}

/// Executable mirror of [`lex_lt`].
pub fn lex_lt_chars(a: &Vec<char>, b: &Vec<char>) -> (r: bool)
    ensures
        r == lex_lt(a@, b@),
{
    let mut i: usize = 0;
    proof {
        assert(a@.skip(0) =~= a@);
        assert(b@.skip(0) =~= b@);
    }
    loop
        invariant
            i <= a@.len(),
            i <= b@.len(),
            forall|j: int| 0 <= j < i ==> a@[j] == b@[j],
            lex_lt(a@, b@) == lex_lt(a@.skip(i as int), b@.skip(i as int)),
        decreases a@.len() - i,
    {
        if i >= b.len() {
            proof {
                assert(b@.skip(i as int).len() == 0);
            }
            return false;
        }
        if i >= a.len() {
            proof {
                assert(a@.skip(i as int).len() == 0);
                assert(b@.skip(i as int).len() > 0);
            }
            return true;
        }
        let ca = a[i];
        let cb = b[i];
        proof {
            assert(a@.skip(i as int)[0] == a@[i as int]);
            assert(b@.skip(i as int)[0] == b@[i as int]);
        }
        if ca != cb {
            return ca < cb;
        }
        i = i + 1;
        proof {
            assert(a@.skip(i - 1).drop_first() =~= a@.skip(i as int));
            assert(b@.skip(i - 1).drop_first() =~= b@.skip(i as int));
        }
    }
}

// ---------------------------------------------------------------------------
// Filtering
// ---------------------------------------------------------------------------

/// True when the lower-cased form of some list element equals `n`.
pub open spec fn spec_lower_in(list: Seq<Seq<char>>, n: Seq<char>) -> bool {
    exists|i: int| 0 <= i < list.len() && spec_lower(list[i]) == n
}

/// Whether a header of this name survives the include_list and exclude_list rules.
/// An absent or empty list is inactive.
pub open spec fn header_kept(
    name: Seq<char>,
    include_list: Option<Seq<Seq<char>>>,
    exclude_list: Option<Seq<Seq<char>>>,
) -> bool {
    &&& match include_list {
        Some(l) => l.len() == 0 || spec_lower_in(l, spec_lower(name)),
        None => true,
    }
    &&& match exclude_list {
        Some(l) => l.len() == 0 || !spec_lower_in(l, spec_lower(name)),
        None => true,
    }
}

/// The headers surviving the include_list and exclude_list rules, order and casing
/// untouched.
pub open spec fn spec_filter_headers(
    hs: Seq<(Seq<char>, Seq<char>)>,
    include_list: Option<Seq<Seq<char>>>,
    exclude_list: Option<Seq<Seq<char>>>,
) -> Seq<(Seq<char>, Seq<char>)>
    decreases hs.len(),
{
    if hs.len() == 0 {
        Seq::empty()
    } else {
        let rest = spec_filter_headers(hs.drop_first(), include_list, exclude_list);
        if header_kept(hs[0].0, include_list, exclude_list) {
            seq![hs[0]] + rest
        } else {
            rest
        }
    }
}

proof fn lemma_filter_snoc(
    hs: Seq<(Seq<char>, Seq<char>)>,
    h: (Seq<char>, Seq<char>),
    include_list: Option<Seq<Seq<char>>>,
    exclude_list: Option<Seq<Seq<char>>>,
)
    ensures
        spec_filter_headers(hs.push(h), include_list, exclude_list) == if header_kept(
            h.0,
            include_list,
            exclude_list,
        ) {
            spec_filter_headers(hs, include_list, exclude_list).push(h)
        } else {
            spec_filter_headers(hs, include_list, exclude_list)
        },
    decreases hs.len(),
{
    if hs.len() == 0 {
        assert(hs.push(h).drop_first() =~= hs);
        assert(hs.push(h)[0] == h);
        assert(spec_filter_headers(hs, include_list, exclude_list) == Seq::<
            (Seq<char>, Seq<char>),
        >::empty());
        if header_kept(h.0, include_list, exclude_list) {
            assert(seq![h] + spec_filter_headers(hs, include_list, exclude_list)
                =~= spec_filter_headers(hs, include_list, exclude_list).push(h));
        }
    } else {
        lemma_filter_snoc(hs.drop_first(), h, include_list, exclude_list);
        assert(hs.push(h).drop_first() =~= hs.drop_first().push(h));
        assert(hs.push(h)[0] == hs[0]);
        if header_kept(h.0, include_list, exclude_list) {
            if header_kept(hs[0].0, include_list, exclude_list) {
                assert(seq![hs[0]] + spec_filter_headers(hs.drop_first(), include_list, exclude_list).push(h)
                    =~= (seq![hs[0]] + spec_filter_headers(hs.drop_first(), include_list, exclude_list)).push(
                    h,
                ));
            }
        }
    }
}

/// The lower-cased names present in a header list.
pub open spec fn lower_name_set(hs: Seq<(Seq<char>, Seq<char>)>) -> Set<Seq<char>> {
    Set::new(|n: Seq<char>| exists|i: int| 0 <= i < hs.len() && spec_lower(hs[i].0) == n)
}

// ---------------------------------------------------------------------------
// Appending
// ---------------------------------------------------------------------------

/// Walk the sorted append entries, adding each whose lower-cased name is
/// not yet present; an added name becomes present for the rest.
pub open spec fn spec_append_rules(
    entries: Seq<(Seq<char>, Seq<char>)>,
    present: Set<Seq<char>>,
) -> Seq<(Seq<char>, Seq<char>)>
    decreases entries.len(),
{
    if entries.len() == 0 {
        Seq::empty()
    } else if present.contains(spec_lower(entries[0].0)) {
        spec_append_rules(entries.drop_first(), present)
    } else {
        seq![entries[0]] + spec_append_rules(
            entries.drop_first(),
            present.insert(spec_lower(entries[0].0)),
        )
    }
}

/// Membership of a pair in a header list.
pub open spec fn mem_pair(s: Seq<(Seq<char>, Seq<char>)>, p: (Seq<char>, Seq<char>)) -> bool {
    exists|i: int| 0 <= i < s.len() && s[i] == p
}

/// A member of a shorter prefix is a member of a longer one.
proof fn lemma_mem_take_extend(
    s: Seq<(Seq<char>, Seq<char>)>,
    p: (Seq<char>, Seq<char>),
    n: int,
    m: int,
)
    requires
        0 <= n <= m <= s.len(),
        mem_pair(s.take(n), p),
    ensures
        mem_pair(s.take(m), p),
{
    let w = choose|w: int| 0 <= w < s.take(n).len() && s.take(n)[w] == p;
    assert(s.take(m)[w] == p);
}

/// Lower-cased characters of a string.
fn lower_of_str(s: &str) -> (r: Vec<char>)
    ensures
        r@ == spec_lower(s@),
{
    let v = chars_of(s);
    lower_chars(&v)
}

/// Whether some list element lower-cases to `target`.
fn in_list_lower(list: &Vec<String>, target: &Vec<char>) -> (r: bool)
    ensures
        r == spec_lower_in(crate::envfile::strs_view(list@), target@),
{
    let mut i: usize = 0;
    while i < list.len()
        invariant
            i <= list@.len(),
            forall|j: int|
                0 <= j < i ==> spec_lower(#[trigger] crate::envfile::strs_view(list@)[j])
                    != target@,
        decreases list@.len() - i,
    {
        let low = lower_of_str(list[i].as_str());
        if chars_eq(&low, target) {
            proof {
                assert(spec_lower(crate::envfile::strs_view(list@)[i as int]) == target@);
            }
            return true;
        }
        i = i + 1;
    }
    false
}

/// Whether a header name survives the rules; mirrors [`header_kept`].
fn keeps(
    name: &String,
    include_list: Option<&Vec<String>>,
    exclude_list: Option<&Vec<String>>,
) -> (r: bool)
    ensures
        r == header_kept(name@, opt_list_view(include_list), opt_list_view(exclude_list)),
{
    let low = lower_of_str(name.as_str());
    let inc_ok = match include_list {
        Some(l) => l.len() == 0 || in_list_lower(l, &low),
        None => true,
    };
    let exc_ok = match exclude_list {
        Some(l) => l.len() == 0 || !in_list_lower(l, &low),
        None => true,
    };
    inc_ok && exc_ok
}

/// The name lists as sequences, when given.
pub open spec fn opt_list_view(l: Option<&Vec<String>>) -> Option<Seq<Seq<char>>> {
    match l {
        Some(v) => Some(crate::envfile::strs_view(v@)),
        None => None,
    }
}

/// Sort the entries of a map into strictly ascending key order.
fn sort_entries(map: &EnvMap) -> (r: Vec<(String, String)>)
    requires
        map.wf(),
    ensures
        sorted_perm_of(map.entries_view(), pairs_view(r@)),
{
    let mut out: Vec<(String, String)> = Vec::new();
    let mut i: usize = 0;
    proof {
        assert forall|p: (Seq<char>, Seq<char>)| #[trigger]
            mem_pair(pairs_view(out@), p) implies mem_pair(
            map.entries_view().take(0),
            p,
        ) by {
        }
    }
    while i < map.len()
        invariant
            map.wf(),
            i <= map.entries_view().len(),
            pairs_view(out@).len() == i,
            forall|p: (Seq<char>, Seq<char>)| #[trigger]
                mem_pair(pairs_view(out@), p) <==> mem_pair(map.entries_view().take(i as int), p),
            forall|j: int|
                0 <= j < pairs_view(out@).len() - 1 ==> lex_lt(
                    pairs_view(out@)[j].0,
                    #[trigger] pairs_view(out@)[j + 1].0,
                ),
        decreases map.entries_view().len() - i,
    {
        let (k, v) = map.entry_at(i);
        let ghost gp = (k@, v@);
        let kc = chars_of(k.as_str());
        let mut pos: usize = 0;
        while pos < out.len() && lex_lt_chars(&chars_of(out[pos].0.as_str()), &kc)
            invariant
                pos <= out@.len(),
                kc@ == k@,
                forall|j: int| 0 <= j < pos ==> lex_lt(#[trigger] pairs_view(out@)[j].0, k@),
            decreases out@.len() - pos,
        {
            pos = pos + 1;
        }
        proof {
            // The new key differs from every key already placed, so it is
            // strictly ordered against the one at `pos` too.
            assert forall|j: int| 0 <= j < pairs_view(out@).len() implies pairs_view(out@)[j].0
                != k@ by {
                assert(mem_pair(pairs_view(out@), pairs_view(out@)[j]));
                let w = choose|w: int|
                    0 <= w < i && map.entries_view().take(i as int)[w] == pairs_view(out@)[j];
                assert(map.entries_view()[w] == pairs_view(out@)[j]);
                assert(map.entries_view()[w].0 != map.entries_view()[i as int].0);
            }
            if pos < out@.len() {
                lemma_lex_total(pairs_view(out@)[pos as int].0, k@);
            }
        }
        let ghost prev = pairs_view(out@);
        out.insert(pos, (k, v));
        i = i + 1;
        proof {
            let ov = pairs_view(out@);
            assert(ov =~= prev.insert(pos as int, gp));
            assert(ov.len() == prev.len() + 1);
            assert(ov[pos as int] == gp);
            assert forall|j: int| 0 <= j < prev.len() implies ov[if j < pos {
                j
            } else {
                j + 1
            }] == prev[j] by {
            }
            assert forall|j: int| 0 <= j < ov.len() - 1 implies lex_lt(
                ov[j].0,
                #[trigger] ov[j + 1].0,
            ) by {
                if j + 1 < pos {
                    assert(ov[j] == prev[j] && ov[j + 1] == prev[j + 1]);
                } else if j + 1 == pos {
                    assert(ov[j] == prev[j] && ov[j + 1] == gp);
                } else if j == pos {
                    assert(ov[j] == gp && ov[j + 1] == prev[j]);
                } else {
                    assert(ov[j] == prev[j - 1] && ov[j + 1] == prev[j]);
                }
            }
            assert forall|p: (Seq<char>, Seq<char>)| #[trigger]
                mem_pair(ov, p) implies mem_pair(map.entries_view().take(i as int), p) by {
                let w = choose|w: int| 0 <= w < ov.len() && ov[w] == p;
                if w < pos {
                    assert(prev[w] == p);
                    assert(mem_pair(prev, p));
                    lemma_mem_take_extend(map.entries_view(), p, i - 1, i as int);
                } else if w == pos {
                    assert(p == gp);
                    assert(map.entries_view().take(i as int)[i - 1] == gp);
                    assert(mem_pair(map.entries_view().take(i as int), p));
                } else {
                    assert(prev[w - 1] == p);
                    assert(mem_pair(prev, p));
                    lemma_mem_take_extend(map.entries_view(), p, i - 1, i as int);
                }
            }
            assert forall|p: (Seq<char>, Seq<char>)| #[trigger]
                mem_pair(map.entries_view().take(i as int), p) implies mem_pair(ov, p) by {
                let w = choose|w: int|
                    0 <= w < i && map.entries_view().take(i as int)[w] == p;
                if w < i - 1 {
                    assert(map.entries_view().take(i - 1)[w] == p);
                    assert(mem_pair(prev, p));
                    let w2 = choose|w2: int| 0 <= w2 < prev.len() && prev[w2] == p;
                    if w2 < pos {
                        assert(ov[w2] == p);
                    } else {
                        assert(ov[w2 + 1] == p);
                    }
                    assert(mem_pair(ov, p));
                } else {
                    assert(p == gp);
                    assert(ov[pos as int] == gp);
                    assert(mem_pair(ov, p));
                }
            }
        }
    }
    proof {
        assert(map.entries_view().take(map.entries_view().len() as int) =~= map.entries_view());
    }
    out
}

/// Apply the import header policy: drop headers outside a non-empty
/// include list, drop those in a non-empty exclude list, keep order and
/// casing of the survivors, then add the append entries in ascending name
/// order wherever no header of that (case-insensitive) name exists yet.
pub fn apply_header_rules(
    headers: Vec<(String, String)>,
    include_list: Option<&Vec<String>>,
    exclude_list: Option<&Vec<String>>,
    append: Option<&EnvMap>,
) -> (r: Vec<(String, String)>)
    requires
        match append {
            Some(m) => m.wf(),
            None => true,
        },
    ensures
        ({
            let filtered = spec_filter_headers(
                pairs_view(headers@),
                opt_list_view(include_list),
                opt_list_view(exclude_list),
            );
            match append {
                Some(m) => exists|sorted: Seq<(Seq<char>, Seq<char>)>|
                    #![trigger spec_append_rules(sorted, lower_name_set(filtered))]
                    sorted_perm_of(m.entries_view(), sorted) && pairs_view(r@) == filtered
                        + spec_append_rules(sorted, lower_name_set(filtered)),
                None => pairs_view(r@) == filtered,
            }
        }),
{
    let ghost ginc = opt_list_view(include_list);
    let ghost gexc = opt_list_view(exclude_list);
    let mut result: Vec<(String, String)> = Vec::new();
    let mut i: usize = 0;
    proof {
        assert(pairs_view(headers@).take(0) =~= Seq::<(Seq<char>, Seq<char>)>::empty());
        assert(pairs_view(result@) =~= spec_filter_headers(
            pairs_view(headers@).take(0),
            ginc,
            gexc,
        ));
    }
    while i < headers.len()
        invariant
            i <= headers@.len(),
            ginc == opt_list_view(include_list),
            gexc == opt_list_view(exclude_list),
            pairs_view(result@) == spec_filter_headers(
                pairs_view(headers@).take(i as int),
                ginc,
                gexc,
            ),
        decreases headers@.len() - i,
    {
        let name = headers[i].0.clone();
        let value = headers[i].1.clone();
        let ghost gp = (name@, value@);
        proof {
            assert(gp == pairs_view(headers@)[i as int]);
        }
        let kept = keeps(&name, include_list, exclude_list);
        if kept {
            result.push((name, value));
        }
        i = i + 1;
        proof {
            assert(pairs_view(headers@).take(i as int) =~= pairs_view(headers@).take(i - 1).push(
                gp,
            ));
            lemma_filter_snoc(pairs_view(headers@).take(i - 1), gp, ginc, gexc);
            if kept {
                assert(pairs_view(result@) =~= spec_filter_headers(
                    pairs_view(headers@).take(i - 1),
                    ginc,
                    gexc,
                ).push(gp));
            }
        }
    }
    proof {
        assert(pairs_view(headers@).take(headers@.len() as int) =~= pairs_view(headers@));
    }
    let ghost filtered = spec_filter_headers(pairs_view(headers@), ginc, gexc);
    match append {
        None => result,
        Some(m) => {
            let sorted = sort_entries(m);
            let ghost gsorted = pairs_view(sorted@);
            // present: the lower-cased names of the headers kept so far
            let mut present: Vec<String> = Vec::new();
            let mut j: usize = 0;
            while j < result.len()
                invariant
                    j <= result@.len(),
                    crate::envfile::strs_view(present@).len() == j,
                    forall|x: int|
                        0 <= x < j ==> crate::envfile::strs_view(present@)[x] == spec_lower(
                            #[trigger] pairs_view(result@)[x].0,
                        ),
                decreases result@.len() - j,
            {
                let low = lower_of_str(result[j].0.as_str());
                let ghost glow = low@;
                present.push(string_from_chars(&low));
                j = j + 1;
                proof {
                    assert(crate::envfile::strs_view(present@)[j - 1] == glow);
                }
            }
            proof {
                lemma_present_set(present@, pairs_view(result@), filtered);
            }
            let mut sk: usize = 0;
            let ghost gpresent0 = lower_name_set(filtered);
            let ghost mut ga: Seq<(Seq<char>, Seq<char>)> = Seq::empty();
            proof {
                assert(gsorted.skip(0) =~= gsorted);
                assert(pairs_view(result@) =~= filtered + ga);
            }
            while sk < sorted.len()
                invariant
                    sk <= sorted@.len(),
                    gsorted == pairs_view(sorted@),
                    pairs_view(result@) == filtered + ga,
                    set_of_lowers(crate::envfile::strs_view(present@)) == append_present(
                        ga,
                        gpresent0,
                    ),
                    spec_append_rules(gsorted, gpresent0) == ga + spec_append_rules(
                        gsorted.skip(sk as int),
                        append_present(ga, gpresent0),
                    ),
                decreases sorted@.len() - sk,
            {
                let name = sorted[sk].0.clone();
                let value = sorted[sk].1.clone();
                let ghost ge = (name@, value@);
                proof {
                    assert(ge == gsorted[sk as int]);
                    assert(gsorted.skip(sk as int)[0] == ge);
                    assert(gsorted.skip(sk as int).drop_first() =~= gsorted.skip(sk as int + 1));
                }
                let low = lower_of_str(name.as_str());
                let ghost glow = low@;
                if !in_strs(&present, &low) {
                    let ghost oldpresent = crate::envfile::strs_view(present@);
                    let ghost oldpairs = pairs_view(result@);
                    proof {
                        assert(!append_present(ga, gpresent0).contains(glow));
                    }
                    present.push(string_from_chars(&low));
                    result.push((name, value));
                    proof {
                        let oldga = ga;
                        ga = ga.push(ge);
                        assert(ga.drop_last() =~= oldga);
                        assert(pairs_view(result@) =~= oldpairs.push(ge));
                        assert(filtered + ga =~= (filtered + oldga).push(ge));
                        assert(pairs_view(result@) == filtered + ga);
                        let newpresent = crate::envfile::strs_view(present@);
                        assert(newpresent =~= oldpresent.push(glow));
                        assert forall|n: Seq<char>| set_of_lowers(newpresent).contains(
                            n,
                        ) implies append_present(oldga, gpresent0).insert(glow).contains(n) by {
                            let w = choose|w: int|
                                0 <= w < newpresent.len() && newpresent[w] == n;
                            if w < oldpresent.len() {
                                assert(oldpresent[w] == n);
                                assert(set_of_lowers(oldpresent).contains(n));
                            } else {
                                assert(n == glow);
                            }
                        }
                        assert forall|n: Seq<char>| append_present(oldga, gpresent0).insert(
                            glow,
                        ).contains(n) implies set_of_lowers(newpresent).contains(n) by {
                            if n == glow {
                                assert(newpresent[newpresent.len() - 1] == n);
                            } else {
                                assert(set_of_lowers(oldpresent).contains(n));
                                let w = choose|w: int|
                                    0 <= w < oldpresent.len() && oldpresent[w] == n;
                                assert(newpresent[w] == n);
                            }
                        }
                        assert(set_of_lowers(newpresent) =~= append_present(
                            oldga,
                            gpresent0,
                        ).insert(glow));
                        assert(append_present(ga, gpresent0) =~= append_present(
                            oldga,
                            gpresent0,
                        ).insert(glow));
                        assert(oldga + (seq![ge] + spec_append_rules(
                            gsorted.skip(sk as int + 1),
                            append_present(ga, gpresent0),
                        )) =~= ga + spec_append_rules(
                            gsorted.skip(sk as int + 1),
                            append_present(ga, gpresent0),
                        ));
                    }
                } else {
                    proof {
                        assert(append_present(ga, gpresent0).contains(glow));
                    }
                }
                sk = sk + 1;
            }
            proof {
                assert(gsorted.skip(sorted@.len() as int) =~= Seq::<
                    (Seq<char>, Seq<char>),
                >::empty());
                assert(spec_append_rules(gsorted, gpresent0) =~= ga);
                let full_filtered = spec_filter_headers(
                    pairs_view(headers@),
                    opt_list_view(include_list),
                    opt_list_view(exclude_list),
                );
                assert(full_filtered == filtered);
                assert(sorted_perm_of(m.entries_view(), gsorted));
                assert(pairs_view(result@) == full_filtered + spec_append_rules(
                    gsorted,
                    lower_name_set(full_filtered),
                ));
            }
            result
        },
    }
}

/// The present set after the already-appended headers joined it.
pub open spec fn append_present(
    appended: Seq<(Seq<char>, Seq<char>)>,
    present0: Set<Seq<char>>,
) -> Set<Seq<char>>
    decreases appended.len(),
{
    if appended.len() == 0 {
        present0
    } else {
        append_present(appended.drop_last(), present0).insert(spec_lower(appended.last().0))
    }
}

/// Whether `target` equals some element of `list`.
fn in_strs(list: &Vec<String>, target: &Vec<char>) -> (r: bool)
    ensures
        r == set_of_lowers(crate::envfile::strs_view(list@)).contains(target@),
{
    let mut i: usize = 0;
    while i < list.len()
        invariant
            i <= list@.len(),
            forall|j: int| 0 <= j < i ==> crate::envfile::strs_view(list@)[j] != target@,
        decreases list@.len() - i,
    {
        let lc = chars_of(list[i].as_str());
        if chars_eq(&lc, target) {
            proof {
                assert(crate::envfile::strs_view(list@)[i as int] == target@);
            }
            return true;
        }
        i = i + 1;
    }
    false
}

/// The set denoted by a list of already-lowered names.
pub open spec fn set_of_lowers(names: Seq<Seq<char>>) -> Set<Seq<char>> {
    Set::new(|n: Seq<char>| exists|i: int| 0 <= i < names.len() && names[i] == n)
}

proof fn lemma_present_set(
    present: Seq<String>,
    result: Seq<(Seq<char>, Seq<char>)>,
    filtered: Seq<(Seq<char>, Seq<char>)>,
)
    requires
        crate::envfile::strs_view(present).len() == result.len(),
        forall|x: int|
            0 <= x < result.len() ==> crate::envfile::strs_view(present)[x] == spec_lower(
                #[trigger] result[x].0,
            ),
        result == filtered,
    ensures
        set_of_lowers(crate::envfile::strs_view(present)) == lower_name_set(filtered),
{
    let sv = crate::envfile::strs_view(present);
    assert forall|n: Seq<char>| set_of_lowers(sv).contains(n) implies lower_name_set(
        filtered,
    ).contains(n) by {
        let w = choose|w: int| 0 <= w < sv.len() && sv[w] == n;
        assert(spec_lower(filtered[w].0) == n);
    }
    assert forall|n: Seq<char>| lower_name_set(filtered).contains(n) implies set_of_lowers(
        sv,
    ).contains(n) by {
        let w = choose|w: int| 0 <= w < filtered.len() && spec_lower(filtered[w].0) == n;
        assert(sv[w] == n);
    }
    assert(set_of_lowers(sv) =~= lower_name_set(filtered));
}

/// `s` is `orig` rearranged into strictly ascending name order.
pub open spec fn sorted_perm_of(
    orig: Seq<(Seq<char>, Seq<char>)>,
    s: Seq<(Seq<char>, Seq<char>)>,
) -> bool {
    &&& s.len() == orig.len()
    &&& forall|p: (Seq<char>, Seq<char>)| #[trigger] mem_pair(s, p) <==> mem_pair(orig, p)
    &&& forall|i: int| 0 <= i < s.len() - 1 ==> lex_lt(s[i].0, #[trigger] s[i + 1].0)
}

} // verus!
