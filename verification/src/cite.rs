use crate::chars::{
    chars_to_string, copy_range, count_ne, dec_of, has_sub, is_space, is_space_c, match_at,
    match_at_c, push_all, push_lit, run_of, str_to_chars, to_decimal,
};
use crate::urlres::{resolve_url, spec_resolve};
use vstd::prelude::*;

verus! {

// --- the inline link grammar ---------------------------------------------------

/// A whitespace run, a quoted title, and a closing parenthesis at `q`:
/// `Some((title, end))` when present.
pub open spec fn title_at(s: Seq<char>, q: int) -> Option<(Seq<char>, int)> {
    let w = run_of(s.skip(q), |c: char| is_space(c)) as int;
    let tstart = q + w + 1;
    let tt = run_of(s.skip(tstart), |c: char| c != '"') as int;
    if w >= 1 && q + w < s.len() && s[q + w] == '"' && tstart + tt < s.len() && s[tstart + tt]
        == '"' && tstart + tt + 1 < s.len() && s[tstart + tt + 1] == ')' {
        Some((s.subrange(tstart, tstart + tt), tstart + tt + 2))
    } else {
        None
    }
}

/// The first position `q` from which the reference closes: either a bare `)`
/// (no title) or whitespace, a quoted title and `)`.  Yields the position of
/// the URL's end and the title with the whole match's end.
pub open spec fn close_scan(s: Seq<char>, q: int) -> Option<(int, Option<(Seq<char>, int)>)>
    decreases s.len() - q,
{
    if q < 0 || q >= s.len() {
        None
    } else if s[q] == ')' {
        Some((q, None))
    } else if is_space(s[q]) && title_at(s, q) is Some {
        Some((q, title_at(s, q)))
    } else {
        close_scan(s, q + 1)
    }
}

/// One match of the inline link pattern, `![alt](url "title")` included.
pub struct LinkMatch {
    pub bang: bool,
    pub text: Seq<char>,
    pub url: Seq<char>,
    pub title: Seq<char>,
    pub start: int,
    pub end: int,
}

/// The link pattern matched at position `i`: an optional `!` (required in
/// image mode), `[`, non-`]` characters (at least one outside image mode),
/// `](`, a lazily short non-`)` URL, an optional quoted title, and `)`.
pub open spec fn pat_match_at(s: Seq<char>, i: int, img: bool) -> Option<LinkMatch> {
    let bang = 0 <= i < s.len() && s[i] == '!';
    let j = if bang {
        i + 1
    } else {
        i
    };
    let t = run_of(s.skip(j + 1), |c: char| c != ']') as int;
    let p = j + 3 + t;
    if 0 <= i && (bang || !img) && j < s.len() && s[j] == '[' && (t >= 1 || img) && j + 1 + t
        < s.len() && s[j + 1 + t] == ']' && j + 2 + t < s.len() && s[j + 2 + t] == '(' && p
        < s.len() && s[p] != ')' && close_scan(s, p + 1) is Some {
        let (q, topt) = close_scan(s, p + 1).unwrap();
        let end = match topt {
            Some((tl, e)) => e,
            None => q + 1,
        };
        Some(
            LinkMatch {
                bang,
                text: s.subrange(j + 1, j + 1 + t),
                url: s.subrange(p, q),
                title: match topt {
                    Some((tl, e)) => tl,
                    None => Seq::empty(),
                },
                start: i,
                end,
            },
        )
    } else {
        None
    }
}

/// Every match of the pattern from position `i` on, scanning left to right
/// and continuing after each match's end.
pub open spec fn scan_pats(s: Seq<char>, i: int, img: bool) -> Seq<LinkMatch>
    decreases s.len() - i,
{
    if i < 0 || i >= s.len() {
        Seq::empty()
    } else {
        match pat_match_at(s, i, img) {
            Some(m) => {
                let next = if i < m.end <= s.len() {
                    m.end
                } else {
                    i + 1
                };
                seq![m] + scan_pats(s, next, img)
            },
            None => scan_pats(s, i + 1, img),
        }
    }
}

pub open spec fn scan_links(s: Seq<char>, i: int) -> Seq<LinkMatch> {
    scan_pats(s, i, false)
}

pub open spec fn scan_imgs(s: Seq<char>, i: int) -> Seq<LinkMatch> {
    scan_pats(s, i, true)
}

// --- the exec scanner -------------------------------------------------------------

/// One match as executable data.
pub struct FoundLink {
    pub bang: bool,
    pub text: Vec<char>,
    pub url: Vec<char>,
    pub title: Vec<char>,
    pub start: usize,
    pub end: usize,
}

pub open spec fn found_view(m: FoundLink) -> LinkMatch {
    LinkMatch {
        bang: m.bang,
        text: m.text@,
        url: m.url@,
        title: m.title@,
        start: m.start as int,
        end: m.end as int,
    }
}

#[verifier::loop_isolation(false)]
fn close_scan_c(s: &Vec<char>, from: usize) -> (r: Option<(usize, Option<(Vec<char>, usize)>)>)
    requires
        from <= s@.len(),
    ensures
        match r {
            Some((q, topt)) => close_scan(s@, from as int) == Some(
                (
                    q as int,
                    match topt {
                        Some((tl, e)) => Some((tl@, e as int)),
                        None => None::<(Seq<char>, int)>,
                    },
                ),
            ) && from <= q < s@.len() && match topt {
                Some((tl, e)) => q < e <= s@.len(),
                None => true,
            },
            None => close_scan(s@, from as int) is None,
        },
{
    let n = s.len();
    let mut q = from;
    while q < n
        invariant
            from <= q <= n,
            close_scan(s@, from as int) == close_scan(s@, q as int),
        decreases n - q,
    {
        if s[q] == ')' {
            return Some((q, None));
        }
        if is_space_c(s[q]) {
            let w = count_space(s, q);
            if q + w < n && s[q + w] == '"' {
                let tstart = q + w + 1;
                let tt = count_ne(s, tstart, '"');
                if tstart + tt < n && s[tstart + tt] == '"' && tstart + tt + 1 < n && s[tstart + tt
                    + 1] == ')' {
                    let title = copy_range(s, tstart, tstart + tt);
                    proof {
                        assert(title_at(s@, q as int) == Some(
                            (s@.subrange(tstart as int, tstart + tt), tstart + tt + 2),
                        ));
                    }
                    return Some((q, Some((title, tstart + tt + 2))));
                }
            }
            proof {
                assert(title_at(s@, q as int) is None);
            }
        }
        q += 1;
    }
    None
}

#[verifier::loop_isolation(false)]
fn count_space(s: &Vec<char>, from: usize) -> (k: usize)
    requires
        from <= s@.len(),
    ensures
        k == run_of(s@.skip(from as int), |x: char| is_space(x)),
        from + k <= s@.len(),
{
    let n = s.len();
    let mut k: usize = 0;
    while from + k < n && is_space_c(s[from + k])
        invariant
            from + k <= n,
            forall|j: int| 0 <= j < k ==> is_space(#[trigger] s@[from + j]),
        decreases n - from - k,
    {
        k += 1;
    }
    proof {
        let t = s@.skip(from as int);
        assert forall|j: int| 0 <= j < k implies (|x: char| is_space(x))(t[j]) by {
            assert(t[j] == s@[from + j]);
        }
        if (k as int) < t.len() {
            assert(t[k as int] == s@[from + k]);
        }
        crate::chars::lemma_run_of_unique(t, |x: char| is_space(x), k as int);
    }
    k
}

/// Try the pattern at position `i`.
#[verifier::loop_isolation(false)]
fn pat_match_at_c(s: &Vec<char>, i: usize, img: bool) -> (r: Option<FoundLink>)
    requires
        i < s@.len(),
    ensures
        match r {
            Some(m) => pat_match_at(s@, i as int, img) == Some(found_view(m)) && i < m.end
                <= s@.len() && i + 5 <= m.end,
            None => pat_match_at(s@, i as int, img) is None,
        },
{
    let n = s.len();
    let bang = s[i] == '!';
    if img && !bang {
        return None;
    }
    let j = if bang {
        i + 1
    } else {
        i
    };
    if !(j < n && s[j] == '[') {
        return None;
    }
    let t = count_ne(s, j + 1, ']');
    if !((t >= 1 || img) && j + 1 + t < n && s[j + 1 + t] == ']' && j + 2 + t < n && s[j + 2 + t]
        == '(') {
        return None;
    }
    let p = j + 3 + t;
    if !(p < n && s[p] != ')') {
        return None;
    }
    match close_scan_c(s, p + 1) {
        None => None,
        Some((q, topt)) => {
            let end = match &topt {
                Some((tl, e)) => *e,
                None => q + 1,
            };
            let m = FoundLink {
                bang,
                text: copy_range(s, j + 1, j + 1 + t),
                url: copy_range(s, p, q),
                title: match topt {
                    Some((tl, e)) => tl,
                    None => Vec::new(),
                },
                start: i,
                end,
            };
            proof {
                assert(found_view(m).title =~= pat_match_at(s@, i as int, img).unwrap().title);
                assert(found_view(m) == pat_match_at(s@, i as int, img).unwrap());
            }
            Some(m)
        },
    }
}

/// All matches of the pattern, left to right.
#[verifier::loop_isolation(false)]
pub fn scan_pats_c(s: &Vec<char>, img: bool) -> (r: Vec<FoundLink>)
    ensures
        r@.map_values(|m: FoundLink| found_view(m)) == scan_pats(s@, 0, img),
        forall|k: int|
            0 <= k < r@.len() ==> 5 * k <= (#[trigger] r@[k]).start && r@[k].start < r@[k].end
                <= s@.len(),
{
    let n = s.len();
    let mut out: Vec<FoundLink> = Vec::new();
    let mut i: usize = 0;
    while i < n
        invariant
            i <= n,
            scan_pats(s@, 0, img) == out@.map_values(|m: FoundLink| found_view(m)) + scan_pats(
                s@,
                i as int,
                img,
            ),
            forall|k: int|
                0 <= k < out@.len() ==> 5 * k <= (#[trigger] out@[k]).start && out@[k].start
                    < out@[k].end <= s@.len(),
            5 * out@.len() <= i,
        decreases n - i,
    {
        match pat_match_at_c(s, i, img) {
            Some(m) => {
                let ghost vm = found_view(m);
                let ghost oldmap = out@.map_values(|x: FoundLink| found_view(x));
                proof {
                    assert(scan_pats(s@, i as int, img) == seq![vm] + scan_pats(
                        s@,
                        m.end as int,
                        img,
                    ));
                }
                let next = m.end;
                out.push(m);
                i = next;
                proof {
                    assert(out@.map_values(|x: FoundLink| found_view(x)) =~= oldmap + seq![vm]);
                    assert(oldmap + (seq![vm] + scan_pats(s@, i as int, img)) =~= (oldmap
                        + seq![vm]) + scan_pats(s@, i as int, img));
                }
            },
            None => {
                i += 1;
            },
        }
    }
    out
}

// --- first-occurrence replacement ---------------------------------------------------

/// The position of the first occurrence of `p` in `s`, if any.
pub open spec fn first_occur(s: Seq<char>, p: Seq<char>) -> Option<int>
    decreases s.len(),
{
    if p.len() > s.len() {
        None
    } else if s.subrange(0, p.len() as int) == p {
        Some(0int)
    } else if s.len() == 0 {
        None
    } else {
        match first_occur(s.skip(1), p) {
            Some(x) => Some(x + 1),
            None => None,
        }
    }
}

/// `s` with its first occurrence of `pat`, if any, replaced by `rep`.
pub open spec fn replacen(s: Seq<char>, pat: Seq<char>, rep: Seq<char>) -> Seq<char> {
    match first_occur(s, pat) {
        Some(i) => s.subrange(0, i) + rep + s.skip(i + pat.len()),
        None => s,
    }
}

proof fn lemma_first_occur(s: Seq<char>, p: Seq<char>)
    ensures
        match first_occur(s, p) {
            Some(i) => match_at(s, p, i) && forall|q: int| 0 <= q < i ==> !match_at(s, p, q),
            None => forall|q: int| !match_at(s, p, q),
        },
    decreases s.len(),
{
    if p.len() > s.len() {
        assert(forall|q: int| match_at(s, p, q) ==> q + p.len() <= s.len());
    } else if s.subrange(0, p.len() as int) == p {
        assert(match_at(s, p, 0));
    } else if s.len() == 0 {
        assert(forall|q: int| !match_at(s, p, q));
    } else {
        lemma_first_occur(s.skip(1), p);
        assert forall|q: int| 0 <= q && q + p.len() <= s.len() - 1 implies (match_at(s, p, q + 1)
            == match_at(s.skip(1), p, q)) by {
            assert(s.skip(1).subrange(q, q + p.len() as int) =~= s.subrange(
                q + 1,
                q + 1 + p.len() as int,
            ));
        }
        match first_occur(s.skip(1), p) {
            Some(x) => {
                assert(match_at(s.skip(1), p, x));
                assert(match_at(s, p, x + 1));
                assert forall|q: int| 0 <= q < x + 1 implies !match_at(s, p, q) by {
                    if q >= 1 {
                        assert(!match_at(s.skip(1), p, q - 1));
                    }
                }
            },
            None => {
                assert forall|q: int| !match_at(s, p, q) by {
                    if 1 <= q && q + p.len() <= s.len() {
                        assert(!match_at(s.skip(1), p, q - 1));
                    }
                }
            },
        }
    }
}

#[verifier::loop_isolation(false)]
fn find_first(s: &Vec<char>, p: &Vec<char>) -> (r: Option<usize>)
    ensures
        match r {
            Some(i) => first_occur(s@, p@) == Some(i as int) && i + p@.len() <= s@.len(),
            None => first_occur(s@, p@) is None,
        },
{
    proof {
        lemma_first_occur(s@, p@);
    }
    if p.len() > s.len() {
        return None;
    }
    let last = s.len() - p.len();
    let mut i: usize = 0;
    while i <= last
        invariant
            i <= last + 1,
            p@.len() <= s@.len(),
            last == s@.len() - p@.len(),
            forall|q: int| 0 <= q < i ==> !match_at(s@, p@, q),
        decreases last + 1 - i,
    {
        if match_at_c(s, p, i) {
            proof {
                match first_occur(s@, p@) {
                    Some(x) => {
                        if x < i {
                            assert(!match_at(s@, p@, x));
                        }
                        if x > i {
                            assert(!match_at(s@, p@, i as int));
                        }
                    },
                    None => {
                        assert(!match_at(s@, p@, i as int));
                    },
                }
            }
            return Some(i);
        }
        if i == last {
            break ;
        }
        i += 1;
    }
    proof {
        assert(forall|q: int| match_at(s@, p@, q) ==> 0 <= q <= last);
        if first_occur(s@, p@) is Some {
            let x = first_occur(s@, p@).unwrap();
            assert(!match_at(s@, p@, x));
        }
    }
    None
}

#[verifier::loop_isolation(false)]
pub fn replace_first(s: &Vec<char>, pat: &Vec<char>, rep: &Vec<char>) -> (r: Vec<char>)
    ensures
        r@ == replacen(s@, pat@, rep@),
{
    match find_first(s, pat) {
        None => copy_range(s, 0, s.len()),
        Some(i) => {
            let pl = pat.len();
            let sl = s.len();
            proof {
                assert(i + pl <= sl);
            }
            let mut out = copy_range(s, 0, i);
            push_all(&mut out, rep);
            let tail = copy_range(s, i + pl, sl);
            push_all(&mut out, &tail);
            proof {
                assert(s@.skip(i + pat@.len()) =~= s@.subrange(
                    i + pat@.len(),
                    s@.len() as int,
                ));
                assert(out@ =~= replacen(s@, pat@, rep@));
            }
            out
        },
    }
}

// --- the citation pass ------------------------------------------------------------

/// One extracted link with its citation number.
pub struct LinkSpec {
    pub text: Seq<char>,
    pub url: Seq<char>,
    pub title: Seq<char>,
    pub num: int,
}

/// The links among the matches (image matches skipped), with resolved URLs
/// and numbers counted up from `next`.
pub open spec fn cite_links(ms: Seq<LinkMatch>, base: Seq<char>, next: int) -> Seq<LinkSpec>
    decreases ms.len(),
{
    if ms.len() == 0 {
        Seq::empty()
    } else if ms[0].bang {
        cite_links(ms.skip(1), base, next)
    } else {
        seq![
            LinkSpec {
                text: ms[0].text,
                url: spec_resolve(ms[0].url, base),
                title: ms[0].title,
                num: next,
            },
        ] + cite_links(ms.skip(1), base, next + 1)
    }
}

/// The inline citation marker that replaces a link: `text[n]`.
pub open spec fn citation_marker(text: Seq<char>, num: int) -> Seq<char> {
    text + "["@ + dec_of(num as nat) + "]"@
}

/// The text after the citation pass: for each link match, in order, the first
/// remaining occurrence of the matched substring replaced by its marker.
pub open spec fn cite_text(orig: Seq<char>, cur: Seq<char>, ms: Seq<LinkMatch>, next: int) -> Seq<
    char,
>
    decreases ms.len(),
{
    if ms.len() == 0 {
        cur
    } else if ms[0].bang {
        cite_text(orig, cur, ms.skip(1), next)
    } else {
        cite_text(
            orig,
            replacen(cur, orig.subrange(ms[0].start, ms[0].end), citation_marker(ms[0].text, next)),
            ms.skip(1),
            next + 1,
        )
    }
}

/// One discovered link handed to the caller.
pub struct LinkInfo {
    pub text: String,
    pub url: String,
    pub title: String,
    pub citation_number: usize,
}

pub open spec fn link_view(l: LinkInfo) -> LinkSpec {
    LinkSpec { text: l.text@, url: l.url@, title: l.title@, num: l.citation_number as int }
}

/// Scan the cleaned text for links, number them densely from 1 in order of
/// occurrence, replace each by its `text[n]` marker, and report them with
/// URLs resolved against the base.
#[verifier::loop_isolation(false)]
pub fn extract_links_and_citations(md: &Vec<char>, base: &Vec<char>) -> (r: (
    Vec<LinkInfo>,
    Vec<char>,
))
    ensures
        r.0@.map_values(|l: LinkInfo| link_view(l)) == cite_links(scan_links(md@, 0), base@, 1),
        r.1@ == cite_text(md@, md@, scan_links(md@, 0), 1),
        forall|k: int|
            0 <= k < r.0@.len() ==> (#[trigger] r.0@[k]).citation_number == k + 1,
{
    let matches = scan_pats_c(md, false);
    let ghost all = scan_pats(md@, 0, false);
    let mut links: Vec<LinkInfo> = Vec::new();
    let mut cur: Vec<char> = copy_range(md, 0, md.len());
    let mut counter: usize = 1;
    let n = matches.len();
    proof {
        assert(all.skip(0) =~= all);
        assert(cur@ =~= md@);
        assert(matches@.map_values(|m: FoundLink| found_view(m)).len() == n);
    }
    for k in 0..n
        invariant
            counter == 1 + links@.len(),
            counter <= 1 + k,
            cite_links(all, base@, 1) == links@.map_values(|l: LinkInfo| link_view(l))
                + cite_links(all.skip(k as int), base@, counter as int),
            cite_text(md@, md@, all, 1) == cite_text(
                md@,
                cur@,
                all.skip(k as int),
                counter as int,
            ),
            forall|q: int|
                0 <= q < links@.len() ==> (#[trigger] links@[q]).citation_number == q + 1,
    {
        let m = &matches[k];
        let ghost vm = found_view(matches@[k as int]);
        proof {
            assert(all[k as int] == vm);
            assert(all.skip(k as int)[0] == all[k as int]);
            assert(all.skip(k as int).skip(1) =~= all.skip(k + 1));
        }
        if !m.bang {
            let resolved = resolve_url(&m.url, base);
            let info = LinkInfo {
                text: chars_to_string(&m.text),
                url: chars_to_string(&resolved),
                title: chars_to_string(&m.title),
                citation_number: counter,
            };
            let ghost oldmap = links@.map_values(|l: LinkInfo| link_view(l));
            let full = copy_range(md, m.start, m.end);
            let mut marker = copy_range(&m.text, 0, m.text.len());
            push_lit(&mut marker, "[");
            let num = to_decimal(counter);
            push_all(&mut marker, &num);
            push_lit(&mut marker, "]");
            proof {
                assert(marker@ =~= citation_marker(vm.text, counter as int));
                assert(full@ =~= md@.subrange(vm.start, vm.end));
            }
            let next_text = replace_first(&cur, &full, &marker);
            cur = next_text;
            links.push(info);
            proof {
                assert(links@.map_values(|l: LinkInfo| link_view(l)) =~= oldmap + seq![
                    LinkSpec {
                        text: vm.text,
                        url: spec_resolve(vm.url, base@),
                        title: vm.title,
                        num: counter as int,
                    },
                ]);
                assert(cite_links(all.skip(k as int), base@, counter as int) == seq![
                    LinkSpec {
                        text: vm.text,
                        url: spec_resolve(vm.url, base@),
                        title: vm.title,
                        num: counter as int,
                    },
                ] + cite_links(all.skip(k + 1), base@, counter + 1));
                assert(oldmap + (seq![
                    LinkSpec {
                        text: vm.text,
                        url: spec_resolve(vm.url, base@),
                        title: vm.title,
                        num: counter as int,
                    },
                ] + cite_links(all.skip(k + 1), base@, counter + 1)) =~= (oldmap + seq![
                    LinkSpec {
                        text: vm.text,
                        url: spec_resolve(vm.url, base@),
                        title: vm.title,
                        num: counter as int,
                    },
                ]) + cite_links(all.skip(k + 1), base@, counter + 1));
            }
            counter += 1;
        }
    }
    proof {
        assert(all.skip(n as int).len() == 0);
    }
    (links, cur)
}

// --- the references block ------------------------------------------------------------

pub open spec fn ref_line(l: LinkSpec) -> Seq<char> {
    "["@ + dec_of(l.num as nat) + "]: "@ + l.url + (if l.title.len() > 0 {
        " \""@ + l.title + "\""@
    } else {
        Seq::empty()
    }) + "\n"@
}

pub open spec fn ref_lines(ls: Seq<LinkSpec>) -> Seq<char>
    decreases ls.len(),
{
    if ls.len() == 0 {
        Seq::empty()
    } else {
        ref_lines(ls.drop_last()) + ref_line(ls.last())
    }
}

/// The references block: a heading and one `[n]: url "title"` line per link;
/// empty when there are no links.
pub open spec fn spec_references(ls: Seq<LinkSpec>) -> Seq<char> {
    if ls.len() == 0 {
        Seq::empty()
    } else {
        "## References\n"@ + ref_lines(ls)
    }
}

#[verifier::loop_isolation(false)]
#[verifier::rlimit(100)]
pub fn generate_references(links: &Vec<LinkInfo>) -> (r: Vec<char>)
    ensures
        r@ == spec_references(links@.map_values(|l: LinkInfo| link_view(l))),
{
    let ghost ls = links@.map_values(|l: LinkInfo| link_view(l));
    if links.len() == 0 {
        let r: Vec<char> = Vec::new();
        proof {
            assert(r@ =~= spec_references(ls));
        }
        return r;
    }
    let mut out: Vec<char> = Vec::new();
    push_lit(&mut out, "## References\n");
    let n = links.len();
    proof {
        assert(ls.take(0) =~= Seq::<LinkSpec>::empty());
        assert(out@ =~= "## References\n"@ + ref_lines(ls.take(0)));
    }
    for k in 0..n
        invariant
            ls == links@.map_values(|l: LinkInfo| link_view(l)),
            ls.len() == n,
            out@ == "## References\n"@ + ref_lines(ls.take(k as int)),
    {
        push_lit(&mut out, "[");
        let num = to_decimal(links[k].citation_number);
        push_all(&mut out, &num);
        push_lit(&mut out, "]: ");
        let url = str_to_chars(links[k].url.as_str());
        push_all(&mut out, &url);
        let title = str_to_chars(links[k].title.as_str());
        if title.len() > 0 {
            push_lit(&mut out, " \"");
            push_all(&mut out, &title);
            push_lit(&mut out, "\"");
        }
        push_lit(&mut out, "\n");
        proof {
            assert(ls.take(k + 1).drop_last() =~= ls.take(k as int));
            assert(ls.take(k + 1).last() == ls[k as int]);
            assert(out@ =~= "## References\n"@ + ref_lines(ls.take(k + 1)));
        }
    }
    proof {
        assert(ls.take(n as int) =~= ls);
    }
    out
}

// --- link stripping --------------------------------------------------------------------

/// One pass of link stripping: each `[text](url)` (with `!` before `[` and a
/// possibly empty text in image mode) becomes its bare text.
pub open spec fn strip_pass(s: Seq<char>, img: bool) -> Seq<char>
    decreases s.len(),
{
    if s.len() == 0 {
        Seq::empty()
    } else {
        let j: int = if img {
            1
        } else {
            0
        };
        let t = run_of(s.skip(j + 1), |c: char| c != ']') as int;
        let p = j + 2 + t;
        let u = run_of(s.skip(p + 1), |c: char| c != ')') as int;
        if (!img || s[0] == '!') && j < s.len() && s[j] == '[' && (t >= 1 || img) && j + 1 + t
            < s.len() && s[j + 1 + t] == ']' && p < s.len() && s[p] == '(' && u >= 1 && p + 1 + u
            < s.len() && s[p + 1 + u] == ')' {
            s.subrange(j + 1, j + 1 + t) + strip_pass(s.skip(p + u + 2), img)
        } else {
            seq![s[0]] + strip_pass(s.skip(1), img)
        }
    }
}

/// The plain-text variant: images stripped to their alt text, then links
/// stripped to their text.
pub open spec fn spec_strip(s: Seq<char>) -> Seq<char> {
    strip_pass(strip_pass(s, true), false)
}

#[verifier::loop_isolation(false)]
#[verifier::rlimit(100)]
fn strip_pass_c(s: &Vec<char>, img: bool) -> (r: Vec<char>)
    ensures
        r@ == strip_pass(s@, img),
{
    let mut out: Vec<char> = Vec::new();
    let n = s.len();
    let mut i: usize = 0;
    proof {
        assert(s@.skip(0) =~= s@);
    }
    while i < n
        invariant
            i <= n,
            strip_pass(s@, img) == out@ + strip_pass(s@.skip(i as int), img),
        decreases n - i,
    {
        proof {
            assert forall|q: int| 0 <= q < n - i implies s@.skip(i as int)[q] == s@[i + q] by {}
            assert(s@.skip(i as int).skip(1) =~= s@.skip(i + 1));
        }
        let j: usize = if img {
            i + 1
        } else {
            i
        };
        let mut matched = false;
        if (!img || s[i] == '!') && j < n && s[j] == '[' {
            let t = count_ne(s, j + 1, ']');
            proof {
                assert(s@.skip(j + 1) =~= s@.skip(i as int).skip(j - i + 1));
            }
            if (t >= 1 || img) && j + 1 + t < n && s[j + 1 + t] == ']' {
                let p = j + 2 + t;
                if p < n && s[p] == '(' {
                    let u = count_ne(s, p + 1, ')');
                    proof {
                        assert(s@.skip(p + 1) =~= s@.skip(i as int).skip(p - i + 1));
                    }
                    if u >= 1 && p + 1 + u < n && s[p + 1 + u] == ')' {
                        let text = copy_range(s, j + 1, j + 1 + t);
                        push_all(&mut out, &text);
                        proof {
                            assert(s@.subrange(j + 1, j + 1 + t) =~= s@.skip(i as int).subrange(
                                j - i + 1,
                                j - i + 1 + t,
                            ));
                            assert(s@.skip(i as int).skip(p - i + u + 2) =~= s@.skip(
                                i + (p - i) + u + 2,
                            ));
                        }
                        i = p + u + 2;
                        matched = true;
                    }
                }
            }
        }
        if !matched {
            out.push(s[i]);
            i += 1;
        }
    }
    proof {
        assert(s@.skip(n as int).len() == 0);
    }
    out
}

pub fn strip_links(md: &Vec<char>) -> (r: Vec<char>)
    ensures
        r@ == spec_strip(md@),
{
    let a = strip_pass_c(md, true);
    strip_pass_c(&a, false)
}

// --- the plain text carries no link syntax ------------------------------------------------

/// No `]` anywhere.
pub open spec fn no_rbracket(s: Seq<char>) -> bool {
    forall|i: int| 0 <= i < s.len() ==> (#[trigger] s[i]) != ']'
}

/// Every `]` in the text closes the text of a stripped link: walking the text
/// as the stripping pass does, a `]` only ever appears as a match's text
/// terminator, never on its own.
pub open spec fn brackets_matched(s: Seq<char>, img: bool) -> bool
    decreases s.len(),
{
    if s.len() == 0 {
        true
    } else {
        let j: int = if img {
            1
        } else {
            0
        };
        let t = run_of(s.skip(j + 1), |c: char| c != ']') as int;
        let p = j + 2 + t;
        let u = run_of(s.skip(p + 1), |c: char| c != ')') as int;
        if (!img || s[0] == '!') && j < s.len() && s[j] == '[' && (t >= 1 || img) && j + 1 + t
            < s.len() && s[j + 1 + t] == ']' && p < s.len() && s[p] == '(' && u >= 1 && p + 1 + u
            < s.len() && s[p + 1 + u] == ')' {
            brackets_matched(s.skip(p + u + 2), img)
        } else {
            s[0] != ']' && brackets_matched(s.skip(1), img)
        }
    }
}

proof fn lemma_strip_pass_no_rbracket(s: Seq<char>, img: bool)
    requires
        brackets_matched(s, img),
    ensures
        no_rbracket(strip_pass(s, img)),
    decreases s.len(),
{
    if s.len() == 0 {
    } else {
        let j: int = if img {
            1
        } else {
            0
        };
        let t = run_of(s.skip(j + 1), |c: char| c != ']') as int;
        let p = j + 2 + t;
        let u = run_of(s.skip(p + 1), |c: char| c != ')') as int;
        if (!img || s[0] == '!') && j < s.len() && s[j] == '[' && (t >= 1 || img) && j + 1 + t
            < s.len() && s[j + 1 + t] == ']' && p < s.len() && s[p] == '(' && u >= 1 && p + 1 + u
            < s.len() && s[p + 1 + u] == ')' {
            lemma_strip_pass_no_rbracket(s.skip(p + u + 2), img);
            let text = s.subrange(j + 1, j + 1 + t);
            let rest = strip_pass(s.skip(p + u + 2), img);
            crate::chars::lemma_run_of_le(s.skip(j + 1), |c: char| c != ']');
            assert forall|i: int| 0 <= i < text.len() implies (#[trigger] text[i]) != ']' by {
                assert(text[i] == s.skip(j + 1)[i]);
            }
            let out = text + rest;
            assert(strip_pass(s, img) == out);
            assert forall|i: int| 0 <= i < out.len() implies (#[trigger] out[i]) != ']' by {
                if i < text.len() {
                    assert(out[i] == text[i]);
                } else {
                    assert(out[i] == rest[i - text.len()]);
                }
            }
        } else {
            lemma_strip_pass_no_rbracket(s.skip(1), img);
            let rest = strip_pass(s.skip(1), img);
            let out = seq![s[0]] + rest;
            assert(strip_pass(s, img) == out);
            assert forall|i: int| 0 <= i < out.len() implies (#[trigger] out[i]) != ']' by {
                if i >= 1 {
                    assert(out[i] == rest[i - 1]);
                }
            }
        }
    }
}

/// The plain-text variant holds no `](` — for any text in which, once images
/// are stripped, every remaining `]` closes a link's text.  The tree walk's
/// own output satisfies this; a bare `](` typed in a document's text falls
/// outside it.
pub proof fn lemma_plain_no_link_syntax(s: Seq<char>)
    requires
        brackets_matched(strip_pass(s, true), false),
    ensures
        !has_sub(spec_strip(s), "]("@),
{
    let mid = strip_pass(s, true);
    lemma_strip_pass_no_rbracket(mid, false);
    let out = strip_pass(mid, false);
    assert forall|i: int| !match_at(out, "]("@, i) by {
        reveal_strlit("](");
        if match_at(out, "]("@, i) {
            assert(out.subrange(i, i + 2)[0] == out[i]);
            assert(out[i] == ']');
        }
    }
}

// --- image collection --------------------------------------------------------------------

/// One discovered image.
pub struct ImageInfo {
    pub alt: String,
    pub url: String,
    pub title: String,
}

pub open spec fn img_view(m: ImageInfo) -> LinkMatch {
    LinkMatch { bang: true, text: m.alt@, url: m.url@, title: m.title@, start: 0, end: 0 }
}

/// The images of the text, in order of occurrence, URLs as written.
#[verifier::loop_isolation(false)]
pub fn extract_images(md: &Vec<char>) -> (r: Vec<ImageInfo>)
    ensures
        r@.len() == scan_imgs(md@, 0).len(),
        forall|k: int|
            0 <= k < r@.len() ==> (#[trigger] r@[k]).alt@ == scan_imgs(md@, 0)[k].text && r@[k].url@
                == scan_imgs(md@, 0)[k].url && r@[k].title@ == scan_imgs(md@, 0)[k].title,
{
    let matches = scan_pats_c(md, true);
    let ghost all = scan_pats(md@, 0, true);
    let mut out: Vec<ImageInfo> = Vec::new();
    let n = matches.len();
    proof {
        assert(matches@.map_values(|m: FoundLink| found_view(m)).len() == n);
    }
    for k in 0..n
        invariant
            out@.len() == k,
            matches@.map_values(|m: FoundLink| found_view(m)) == all,
            matches@.len() == n,
            forall|q: int|
                0 <= q < k ==> (#[trigger] out@[q]).alt@ == all[q].text && out@[q].url@
                    == all[q].url && out@[q].title@ == all[q].title,
    {
        let m = &matches[k];
        proof {
            assert(all[k as int] == found_view(matches@[k as int]));
        }
        out.push(
            ImageInfo {
                alt: chars_to_string(&m.text),
                url: chars_to_string(&m.url),
                title: chars_to_string(&m.title),
            },
        );
    }
    out
}

} // verus!
