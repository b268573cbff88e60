use crate::chars::{
    copy_range, count_digits, count_eq, count_ne, is_digit, is_digit_c, push_all, push_lit,
    run_of, spec_trim, trim_chars,
};
use vstd::prelude::*;

verus! {

// --- runs -------------------------------------------------------------------

pub open spec fn nl_run(s: Seq<char>) -> nat {
    run_of(s, |c: char| c == '\n')
}

pub open spec fn hash_run(s: Seq<char>) -> nat {
    run_of(s, |c: char| c == '#')
}

pub open spec fn nonnl_run(s: Seq<char>) -> nat {
    run_of(s, |c: char| c != '\n')
}

pub open spec fn digit_run(s: Seq<char>) -> nat {
    run_of(s, |c: char| is_digit(c))
}

// --- newline collapse ---------------------------------------------------------

/// One pass over the text with `run` newlines already seen just before this
/// point: of every maximal newline run only the first two characters are kept.
pub open spec fn cnl_go(s: Seq<char>, run: int) -> Seq<char>
    decreases s.len(),
{
    if s.len() == 0 {
        Seq::empty()
    } else if s[0] == '\n' {
        (if run < 2 {
            seq!['\n']
        } else {
            Seq::empty()
        }) + cnl_go(s.skip(1), run + 1)
    } else {
        seq![s[0]] + cnl_go(s.skip(1), 0)
    }
}

/// Collapse every run of three or more newlines to exactly two.
pub open spec fn collapse_nl(s: Seq<char>) -> Seq<char> {
    cnl_go(s, 0)
}

#[verifier::loop_isolation(false)]
pub fn collapse_nl_c(s: &Vec<char>) -> (r: Vec<char>)
    ensures
        r@ == collapse_nl(s@),
{
    let mut out: Vec<char> = Vec::new();
    let mut run: usize = 0;
    let n = s.len();
    proof {
        assert(s@.skip(0) =~= s@);
    }
    for i in 0..n
        invariant
            run <= i,
            collapse_nl(s@) == out@ + cnl_go(s@.skip(i as int), run as int),
    {
        proof {
            assert(s@.skip(i as int)[0] == s@[i as int]);
            assert(s@.skip(i as int).skip(1) =~= s@.skip(i + 1));
        }
        let c = s[i];
        if c == '\n' {
            if run < 2 {
                out.push('\n');
            }
            run += 1;
        } else {
            out.push(c);
            run = 0;
        }
    }
    proof {
        assert(s@.skip(n as int).len() == 0);
    }
    out
}

// --- space collapse -----------------------------------------------------------

/// Like the newline pass, keeping only the first character of every run of
/// spaces.
pub open spec fn csp_go(s: Seq<char>, run: int) -> Seq<char>
    decreases s.len(),
{
    if s.len() == 0 {
        Seq::empty()
    } else if s[0] == ' ' {
        (if run < 1 {
            seq![' ']
        } else {
            Seq::empty()
        }) + csp_go(s.skip(1), run + 1)
    } else {
        seq![s[0]] + csp_go(s.skip(1), 0)
    }
}

/// Collapse every run of two or more spaces to a single space.
pub open spec fn collapse_sp(s: Seq<char>) -> Seq<char> {
    csp_go(s, 0)
}

#[verifier::loop_isolation(false)]
pub fn collapse_sp_c(s: &Vec<char>) -> (r: Vec<char>)
    ensures
        r@ == collapse_sp(s@),
{
    let mut out: Vec<char> = Vec::new();
    let mut run: usize = 0;
    let n = s.len();
    proof {
        assert(s@.skip(0) =~= s@);
    }
    for i in 0..n
        invariant
            run <= i,
            collapse_sp(s@) == out@ + csp_go(s@.skip(i as int), run as int),
    {
        proof {
            assert(s@.skip(i as int)[0] == s@[i as int]);
            assert(s@.skip(i as int).skip(1) =~= s@.skip(i + 1));
        }
        let c = s[i];
        if c == ' ' {
            if run < 1 {
                out.push(' ');
            }
            run += 1;
        } else {
            out.push(c);
            run = 0;
        }
    }
    proof {
        assert(s@.skip(n as int).len() == 0);
    }
    out
}

// --- empty bullet removal -------------------------------------------------------

/// The empty unordered bullet: a line holding exactly `- `.
pub open spec fn li_at(s: Seq<char>, i: int) -> bool {
    0 <= i && i + 4 <= s.len() && s[i] == '\n' && s[i + 1] == '-' && s[i + 2] == ' ' && s[i + 3]
        == '\n'
}

/// Replace every occurrence of an empty `- ` bullet line by a single newline,
/// in one left-to-right pass.
pub open spec fn drop_li(s: Seq<char>) -> Seq<char>
    decreases s.len(),
{
    if s.len() == 0 {
        Seq::empty()
    } else if li_at(s, 0) {
        seq!['\n'] + drop_li(s.skip(4))
    } else {
        seq![s[0]] + drop_li(s.skip(1))
    }
}

#[verifier::loop_isolation(false)]
pub fn drop_li_c(s: &Vec<char>) -> (r: Vec<char>)
    ensures
        r@ == drop_li(s@),
{
    let mut out: Vec<char> = Vec::new();
    let n = s.len();
    let mut i: usize = 0;
    proof {
        assert(s@.skip(0) =~= s@);
    }
    while i < n
        invariant
            i <= n,
            drop_li(s@) == out@ + drop_li(s@.skip(i as int)),
        decreases n - i,
    {
        proof {
            assert forall|q: int| 0 <= q < n - i implies s@.skip(i as int)[q] == s@[i + q] by {}
            assert(s@.skip(i as int).skip(1) =~= s@.skip(i + 1));
        }
        if n - i >= 4 && s[i] == '\n' && s[i + 1] == '-' && s[i + 2] == ' ' && s[i + 3] == '\n' {
            proof {
                assert(s@.skip(i as int).skip(4) =~= s@.skip(i + 4));
            }
            out.push('\n');
            i += 4;
        } else {
            out.push(s[i]);
            i += 1;
        }
    }
    proof {
        assert(s@.skip(n as int).len() == 0);
    }
    out
}

/// `d` digits make an empty ordered bullet line at `i`.
pub open spec fn ol_wit(s: Seq<char>, i: int, d: int) -> bool {
    1 <= d && 0 <= i && i + d + 4 <= s.len() && s[i] == '\n' && (forall|j: int|
        i + 1 <= j <= i + d ==> is_digit(#[trigger] s[j])) && s[i + d + 1] == '.' && s[i + d + 2]
        == ' ' && s[i + d + 3] == '\n'
}

/// The empty ordered bullet: a line holding exactly `N. ` for some digits `N`.
pub open spec fn ol_at(s: Seq<char>, i: int) -> bool {
    exists|d: int| #[trigger] ol_wit(s, i, d)
}

/// Replace every occurrence of an empty numbered bullet line by a single
/// newline, in one left-to-right pass.
pub open spec fn drop_ol(s: Seq<char>) -> Seq<char>
    decreases s.len(),
{
    if s.len() == 0 {
        Seq::empty()
    } else {
        let d = digit_run(s.skip(1)) as int;
        if s[0] == '\n' && 1 <= d && d + 4 <= s.len() && s[d + 1] == '.' && s[d + 2] == ' ' && s[d
            + 3] == '\n' {
            seq!['\n'] + drop_ol(s.skip(d + 4))
        } else {
            seq![s[0]] + drop_ol(s.skip(1))
        }
    }
}

#[verifier::loop_isolation(false)]
pub fn drop_ol_c(s: &Vec<char>) -> (r: Vec<char>)
    ensures
        r@ == drop_ol(s@),
{
    let mut out: Vec<char> = Vec::new();
    let n = s.len();
    let mut i: usize = 0;
    proof {
        assert(s@.skip(0) =~= s@);
    }
    while i < n
        invariant
            i <= n,
            drop_ol(s@) == out@ + drop_ol(s@.skip(i as int)),
        decreases n - i,
    {
        proof {
            assert forall|q: int| 0 <= q < n - i implies s@.skip(i as int)[q] == s@[i + q] by {}
            assert(s@.skip(i as int).skip(1) =~= s@.skip(i + 1));
        }
        let mut step: usize = 1;
        if s[i] == '\n' {
            let d = count_digits(s, i + 1);
            proof {
                assert(s@.skip(i + 1) =~= s@.skip(i as int).skip(1));
            }
            if 1 <= d && 3 <= n - (i + 1 + d) && s[i + d + 1] == '.' && s[i + d + 2] == ' ' && s[i
                + d + 3] == '\n' {
                proof {
                    assert(s@.skip(i as int).skip(d + 4) =~= s@.skip(i + d + 4));
                }
                out.push('\n');
                step = d + 4;
            } else {
                out.push('\n');
            }
        } else {
            out.push(s[i]);
        }
        i += step;
    }
    proof {
        assert(s@.skip(n as int).len() == 0);
    }
    out
}

// --- heading spacing (readable variant) ----------------------------------------

/// Force a blank line before every heading marker: every newline run followed
/// by `#` marks becomes exactly two newlines, keeping the marks.
pub open spec fn spec_min(a: int, b: int) -> int {
    if a <= b {
        a
    } else {
        b
    }
}

pub open spec fn hdr_before(s: Seq<char>) -> Seq<char>
    decreases s.len(),
{
    if s.len() == 0 {
        Seq::empty()
    } else {
        let k = nl_run(s) as int;
        let h = spec_min(hash_run(s.skip(k)) as int, 6);
        if s[0] == '\n' && k < s.len() && s[k] == '#' && k + h <= s.len() {
            seq!['\n', '\n'] + s.subrange(k, k + h) + hdr_before(s.skip(k + h))
        } else {
            seq![s[0]] + hdr_before(s.skip(1))
        }
    }
}

/// Force a blank line after every heading line: a line that starts with `#`
/// marks keeps its text and its trailing newline run becomes exactly two.
pub open spec fn hdr_after(s: Seq<char>) -> Seq<char>
    decreases s.len(),
{
    if s.len() == 0 {
        Seq::empty()
    } else {
        let h = spec_min(hash_run(s) as int, 6);
        let r = nonnl_run(s.skip(h)) as int;
        let k = nl_run(s.skip(h + r)) as int;
        if s[0] == '#' && h + r < s.len() && s[h + r] == '\n' && h + r + k <= s.len() {
            s.subrange(0, h + r) + seq!['\n', '\n'] + hdr_after(s.skip(h + r + k))
        } else {
            seq![s[0]] + hdr_after(s.skip(1))
        }
    }
}

#[verifier::loop_isolation(false)]
#[verifier::rlimit(50)]
pub fn hdr_before_c(s: &Vec<char>) -> (r: Vec<char>)
    ensures
        r@ == hdr_before(s@),
{
    let mut out: Vec<char> = Vec::new();
    let n = s.len();
    let mut i: usize = 0;
    proof {
        assert(s@.skip(0) =~= s@);
    }
    while i < n
        invariant
            i <= n,
            hdr_before(s@) == out@ + hdr_before(s@.skip(i as int)),
        decreases n - i,
    {
        proof {
            assert forall|q: int| 0 <= q < n - i implies s@.skip(i as int)[q] == s@[i + q] by {}
            assert(s@.skip(i as int).skip(1) =~= s@.skip(i + 1));
        }
        let mut step: usize = 1;
        let mut matched = false;
        if s[i] == '\n' {
            let k = count_eq(s, i, '\n');
            if i + k < n && s[i + k] == '#' {
                let h0 = count_eq(s, i + k, '#');
                let h = if h0 <= 6 {
                    h0
                } else {
                    6
                };
                proof {
                    assert(s@.skip(i + k) =~= s@.skip(i as int).skip(k as int));
                    assert(s@.skip(i as int).skip(k + h) =~= s@.skip(i + k + h));
                    assert(s@.skip(i as int).subrange(k as int, k + h) =~= s@.subrange(
                        i + k,
                        i + k + h,
                    ));
                }
                out.push('\n');
                out.push('\n');
                let marks = copy_range(s, i + k, i + k + h);
                push_all(&mut out, &marks);
                step = k + h;
                matched = true;
            }
        }
        if !matched {
            out.push(s[i]);
        }
        i += step;
    }
    proof {
        assert(s@.skip(n as int).len() == 0);
    }
    out
}

#[verifier::loop_isolation(false)]
#[verifier::rlimit(50)]
pub fn hdr_after_c(s: &Vec<char>) -> (r: Vec<char>)
    ensures
        r@ == hdr_after(s@),
{
    let mut out: Vec<char> = Vec::new();
    let n = s.len();
    let mut i: usize = 0;
    proof {
        assert(s@.skip(0) =~= s@);
    }
    while i < n
        invariant
            i <= n,
            hdr_after(s@) == out@ + hdr_after(s@.skip(i as int)),
        decreases n - i,
    {
        proof {
            assert forall|q: int| 0 <= q < n - i implies s@.skip(i as int)[q] == s@[i + q] by {}
            assert(s@.skip(i as int).skip(1) =~= s@.skip(i + 1));
        }
        let mut step: usize = 1;
        let mut matched = false;
        if s[i] == '#' {
            let h0 = count_eq(s, i, '#');
            let h = if h0 <= 6 {
                h0
            } else {
                6
            };
            let r0 = count_ne(s, i + h, '\n');
            proof {
                assert(s@.skip(i + h) =~= s@.skip(i as int).skip(h as int));
            }
            if i + h + r0 < n && s[i + h + r0] == '\n' {
                let k = count_eq(s, i + h + r0, '\n');
                proof {
                    assert(s@.skip(i + h + r0) =~= s@.skip(i as int).skip(h + r0));
                    assert(s@.skip(i as int).skip(h + r0 + k) =~= s@.skip(i + h + r0 + k));
                    assert(s@.skip(i as int).subrange(0, h + r0) =~= s@.subrange(
                        i as int,
                        i + h + r0,
                    ));
                }
                let line = copy_range(s, i, i + h + r0);
                push_all(&mut out, &line);
                out.push('\n');
                out.push('\n');
                step = h + r0 + k;
                matched = true;
            }
        }
        if !matched {
            out.push(s[i]);
        }
        i += step;
    }
    proof {
        assert(s@.skip(n as int).len() == 0);
    }
    out
}

// --- the two cleaners -----------------------------------------------------------

/// The raw cleaner: collapse newline runs of three or more to two, collapse
/// space runs of two or more to one, delete empty bullet lines, and trim.
pub open spec fn spec_clean(s: Seq<char>) -> Seq<char> {
    spec_trim(drop_ol(drop_li(collapse_sp(collapse_nl(s)))))
}

pub fn clean_markdown(s: &Vec<char>) -> (r: Vec<char>)
    ensures
        r@ == spec_clean(s@),
{
    let a = collapse_nl_c(s);
    let b = collapse_sp_c(&a);
    let c = drop_li_c(&b);
    let d = drop_ol_c(&c);
    trim_chars(&d)
}

// --- laws of the raw cleaner ------------------------------------------------------

/// No three consecutive newline characters anywhere.
pub open spec fn no_triple_nl(s: Seq<char>) -> bool {
    forall|i: int|
        0 <= i && i + 2 < s.len() ==> !(#[trigger] s[i] == '\n' && s[i + 1] == '\n' && s[i + 2]
            == '\n')
}

/// No two consecutive spaces anywhere.
pub open spec fn no_double_sp(s: Seq<char>) -> bool {
    forall|i: int| 0 <= i && i + 1 < s.len() ==> !(#[trigger] s[i] == ' ' && s[i + 1] == ' ')
}

/// No empty `- ` bullet line anywhere.
pub open spec fn li_free(s: Seq<char>) -> bool {
    forall|i: int| !li_at(s, i)
}

/// No empty numbered bullet line anywhere.
pub open spec fn ol_free(s: Seq<char>) -> bool {
    forall|i: int| !ol_at(s, i)
}

pub open spec fn starts1_nl(s: Seq<char>) -> bool {
    s.len() >= 1 && s[0] == '\n'
}

pub open spec fn starts2_nl(s: Seq<char>) -> bool {
    s.len() >= 2 && s[0] == '\n' && s[1] == '\n'
}

proof fn lemma_no_triple_suffix(s: Seq<char>)
    requires
        no_triple_nl(s),
        s.len() >= 1,
    ensures
        no_triple_nl(s.skip(1)),
{
    let t = s.skip(1);
    assert(t =~= s.subrange(1, s.len() as int));
    assert forall|i: int|
        0 <= i && i + 2 < t.len() implies !(#[trigger] t[i] == '\n' && t[i + 1] == '\n' && t[i
        + 2] == '\n') by {
        assert(t[i] == s[i + 1]);
        assert(t[i + 1] == s[i + 2]);
        assert(t[i + 2] == s[i + 3]);
        assert(!(s[i + 1] == '\n' && s[i + 2] == '\n' && s[i + 3] == '\n'));
    }
}

proof fn lemma_no2sp_suffix(s: Seq<char>)
    requires
        no_double_sp(s),
        s.len() >= 1,
    ensures
        no_double_sp(s.skip(1)),
{
    let t = s.skip(1);
    assert(t =~= s.subrange(1, s.len() as int));
    assert forall|i: int|
        0 <= i && i + 1 < t.len() implies !(#[trigger] t[i] == ' ' && t[i + 1] == ' ') by {
        assert(t[i] == s[i + 1]);
        assert(t[i + 1] == s[i + 2]);
        assert(!(s[i + 1] == ' ' && s[i + 2] == ' '));
    }
}

proof fn lemma_cons_no_triple(c: char, rest: Seq<char>)
    requires
        no_triple_nl(rest),
        c == '\n' ==> !starts2_nl(rest),
    ensures
        no_triple_nl(seq![c] + rest),
{
    let out = seq![c] + rest;
    assert forall|i: int|
        0 <= i && i + 2 < out.len() implies !(#[trigger] out[i] == '\n' && out[i + 1] == '\n'
        && out[i + 2] == '\n') by {
        if i == 0 {
            assert(out[1] == rest[0]);
            assert(out[2] == rest[1]);
        } else {
            assert(out[i] == rest[i - 1]);
            assert(out[i + 1] == rest[i]);
            assert(out[i + 2] == rest[i + 1]);
            assert(!(rest[i - 1] == '\n' && rest[i] == '\n' && rest[i + 1] == '\n'));
        }
    }
}

/// The newline pass leaves no run of three: after two kept newlines the rest
/// of the run is dropped.
proof fn lemma_cnl_no_triple(s: Seq<char>, run: int)
    requires
        run >= 0,
    ensures
        no_triple_nl(cnl_go(s, run)),
        run >= 2 ==> !starts1_nl(cnl_go(s, run)),
        run == 1 ==> !starts2_nl(cnl_go(s, run)),
    decreases s.len(),
{
    if s.len() == 0 {
    } else if s[0] == '\n' {
        lemma_cnl_no_triple(s.skip(1), run + 1);
        let rest = cnl_go(s.skip(1), run + 1);
        if run < 2 {
            if run + 1 == 1 {
                assert(!starts2_nl(rest));
            } else {
                assert(!starts1_nl(rest));
            }
            lemma_cons_no_triple('\n', rest);
            assert(cnl_go(s, run) == seq!['\n'] + rest);
            if run == 1 && rest.len() >= 1 {
                assert((seq!['\n'] + rest)[1] == rest[0]);
            }
        } else {
            assert(cnl_go(s, run) =~= Seq::<char>::empty() + rest);
            assert(cnl_go(s, run) =~= rest);
        }
    } else {
        lemma_cnl_no_triple(s.skip(1), 0);
        let rest = cnl_go(s.skip(1), 0);
        lemma_cons_no_triple(s[0], rest);
        assert(cnl_go(s, run) == seq![s[0]] + rest);
    }
}

/// The space pass never brings newlines together: every kept character pair
/// was adjacent in the input or separated only by dropped extra spaces.
proof fn lemma_csp_no_triple(s: Seq<char>, run: int)
    requires
        no_triple_nl(s),
    ensures
        no_triple_nl(csp_go(s, run)),
        run == 0 ==> (starts1_nl(csp_go(s, run)) ==> starts1_nl(s)),
        run == 0 ==> (starts2_nl(csp_go(s, run)) ==> starts2_nl(s)),
    decreases s.len(),
{
    if s.len() == 0 {
    } else if s[0] == ' ' {
        lemma_no_triple_suffix(s);
        lemma_csp_no_triple(s.skip(1), run + 1);
        let rest = csp_go(s.skip(1), run + 1);
        if run < 1 {
            lemma_cons_no_triple(' ', rest);
            assert(csp_go(s, run) == seq![' '] + rest);
            assert(!starts1_nl(csp_go(s, run)));
        } else {
            assert(csp_go(s, run) =~= rest);
        }
    } else {
        lemma_no_triple_suffix(s);
        lemma_csp_no_triple(s.skip(1), 0);
        let rest = csp_go(s.skip(1), 0);
        let out = seq![s[0]] + rest;
        assert(csp_go(s, run) == out);
        if s[0] == '\n' {
            if starts2_nl(rest) {
                assert(starts2_nl(s.skip(1)));
                assert(s.skip(1)[0] == s[1]);
                assert(s.skip(1)[1] == s[2]);
                assert(s[0] == '\n' && s[1] == '\n' && s[2] == '\n');
            }
            lemma_cons_no_triple(s[0], rest);
        } else {
            lemma_cons_no_triple(s[0], rest);
        }
        if starts2_nl(out) {
            assert(out[1] == rest[0]);
            assert(starts1_nl(rest));
            assert(starts1_nl(s.skip(1)));
            assert(s.skip(1)[0] == s[1]);
        }
    }
}

proof fn lemma_li_free_suffix(s: Seq<char>, n: int)
    requires
        li_free(s),
        0 <= n <= s.len(),
    ensures
        li_free(s.skip(n)),
{
    assert forall|i: int| !li_at(s.skip(n), i) by {
        if 0 <= i && i + 4 <= s.skip(n).len() {
            assert(s.skip(n)[i] == s[n + i]);
            assert(s.skip(n)[i + 1] == s[n + i + 1]);
            assert(s.skip(n)[i + 2] == s[n + i + 2]);
            assert(s.skip(n)[i + 3] == s[n + i + 3]);
            assert(!li_at(s, n + i));
        }
    }
}

proof fn lemma_ol_free_suffix(s: Seq<char>, n: int)
    requires
        ol_free(s),
        0 <= n <= s.len(),
    ensures
        ol_free(s.skip(n)),
{
    let t = s.skip(n);
    assert forall|i: int| !ol_at(t, i) by {
        if ol_at(t, i) {
            let d = choose|d: int| ol_wit(t, i, d);
            assert forall|j: int| n + i + 1 <= j <= n + i + d implies is_digit(#[trigger] s[j]) by {
                assert(is_digit(t[j - n]));
            }
            assert(t[i] == s[n + i]);
            assert(t[i + d + 1] == s[n + i + d + 1]);
            assert(t[i + d + 2] == s[n + i + d + 2]);
            assert(t[i + d + 3] == s[n + i + d + 3]);
            assert(ol_wit(s, n + i, d));
            assert(!ol_at(s, n + i));
        }
    }
}

/// Without an empty bullet, the unordered bullet pass is the identity.
proof fn lemma_drop_li_id(s: Seq<char>)
    requires
        li_free(s),
    ensures
        drop_li(s) == s,
    decreases s.len(),
{
    if s.len() == 0 {
        assert(drop_li(s) =~= s);
    } else {
        assert(!li_at(s, 0));
        lemma_li_free_suffix(s, 1);
        lemma_drop_li_id(s.skip(1));
        assert(drop_li(s) =~= s);
    }
}

/// Without an empty numbered bullet, the numbered bullet pass is the
/// identity.
proof fn lemma_drop_ol_id(s: Seq<char>)
    requires
        ol_free(s),
    ensures
        drop_ol(s) == s,
    decreases s.len(),
{
    if s.len() == 0 {
        assert(drop_ol(s) =~= s);
    } else {
        let d = digit_run(s.skip(1)) as int;
        if s[0] == '\n' && 1 <= d && d + 4 <= s.len() && s[d + 1] == '.' && s[d + 2] == ' ' && s[d
            + 3] == '\n' {
            crate::chars::lemma_run_of_le(s.skip(1), |c: char| is_digit(c));
            assert forall|j: int| 1 <= j <= d implies is_digit(s[j]) by {
                assert(is_digit(s.skip(1)[j - 1]));
            }
            assert(ol_wit(s, 0, d));
            assert(ol_at(s, 0));
            assert(false);
        }
        lemma_ol_free_suffix(s, 1);
        lemma_drop_ol_id(s.skip(1));
        assert(drop_ol(s) =~= s);
    }
}

/// With no run of three newlines, the newline pass is the identity.
proof fn lemma_cnl_id(t: Seq<char>, run: int)
    requires
        no_triple_nl(t),
        run == 1 ==> !starts2_nl(t),
        run >= 2 ==> !starts1_nl(t),
    ensures
        cnl_go(t, run) == t,
    decreases t.len(),
{
    if t.len() == 0 {
        assert(cnl_go(t, run) =~= t);
    } else if t[0] == '\n' {
        lemma_no_triple_suffix(t);
        if run + 1 == 1 {
            if starts2_nl(t.skip(1)) {
                assert(t.skip(1)[0] == t[1]);
                assert(t.skip(1)[1] == t[2]);
            }
        }
        if run + 1 >= 2 {
            if starts1_nl(t.skip(1)) {
                assert(t.skip(1)[0] == t[1]);
            }
        }
        lemma_cnl_id(t.skip(1), run + 1);
        assert(cnl_go(t, run) =~= t);
    } else {
        lemma_no_triple_suffix(t);
        lemma_cnl_id(t.skip(1), 0);
        assert(cnl_go(t, run) =~= t);
    }
}

/// With no run of two spaces, the space pass is the identity.
proof fn lemma_csp_id(t: Seq<char>, run: int)
    requires
        no_double_sp(t),
        run >= 1 ==> !(t.len() >= 1 && t[0] == ' '),
    ensures
        csp_go(t, run) == t,
    decreases t.len(),
{
    if t.len() == 0 {
        assert(csp_go(t, run) =~= t);
    } else if t[0] == ' ' {
        lemma_no2sp_suffix(t);
        if t.skip(1).len() >= 1 && t.skip(1)[0] == ' ' {
            assert(t.skip(1)[0] == t[1]);
        }
        lemma_csp_id(t.skip(1), run + 1);
        assert(csp_go(t, run) =~= t);
    } else {
        lemma_no2sp_suffix(t);
        lemma_csp_id(t.skip(1), 0);
        assert(csp_go(t, run) =~= t);
    }
}

/// The space pass leaves no two adjacent spaces.
proof fn lemma_csp_no2sp(s: Seq<char>, run: int)
    requires
        run >= 0,
    ensures
        no_double_sp(csp_go(s, run)),
        run >= 1 ==> !(csp_go(s, run).len() >= 1 && csp_go(s, run)[0] == ' '),
    decreases s.len(),
{
    if s.len() == 0 {
    } else if s[0] == ' ' {
        lemma_csp_no2sp(s.skip(1), run + 1);
        let rest = csp_go(s.skip(1), run + 1);
        if run < 1 {
            let out = seq![' '] + rest;
            assert(csp_go(s, run) == out);
            assert forall|i: int|
                0 <= i && i + 1 < out.len() implies !(#[trigger] out[i] == ' ' && out[i + 1]
                == ' ') by {
                if i == 0 {
                    assert(out[1] == rest[0]);
                    assert(rest[0] != ' ');
                } else {
                    assert(out[i] == rest[i - 1]);
                    assert(out[i + 1] == rest[i]);
                    assert(!(rest[i - 1] == ' ' && rest[i] == ' '));
                }
            }
        } else {
            assert(csp_go(s, run) =~= rest);
        }
    } else {
        lemma_csp_no2sp(s.skip(1), 0);
        let rest = csp_go(s.skip(1), 0);
        let out = seq![s[0]] + rest;
        assert(csp_go(s, run) == out);
        assert forall|i: int|
            0 <= i && i + 1 < out.len() implies !(#[trigger] out[i] == ' ' && out[i + 1]
            == ' ') by {
            if i == 0 {
                assert(out[0] == s[0]);
            } else {
                assert(out[i] == rest[i - 1]);
                assert(out[i + 1] == rest[i]);
                assert(!(rest[i - 1] == ' ' && rest[i] == ' '));
            }
        }
    }
}

proof fn lemma_sub_preserves(s: Seq<char>, a: int, b: int)
    requires
        0 <= a <= b <= s.len(),
    ensures
        no_triple_nl(s) ==> no_triple_nl(s.subrange(a, b)),
        no_double_sp(s) ==> no_double_sp(s.subrange(a, b)),
        li_free(s) ==> li_free(s.subrange(a, b)),
        ol_free(s) ==> ol_free(s.subrange(a, b)),
{
    let t = s.subrange(a, b);
    assert forall|j: int| 0 <= j < t.len() implies t[j] == s[a + j] by {}
    if no_triple_nl(s) {
        assert forall|i: int|
            0 <= i && i + 2 < t.len() implies !(#[trigger] t[i] == '\n' && t[i + 1] == '\n' && t[i
            + 2] == '\n') by {
            assert(!(s[a + i] == '\n' && s[a + i + 1] == '\n' && s[a + i + 2] == '\n'));
        }
    }
    if no_double_sp(s) {
        assert forall|i: int|
            0 <= i && i + 1 < t.len() implies !(#[trigger] t[i] == ' ' && t[i + 1] == ' ') by {
            assert(!(s[a + i] == ' ' && s[a + i + 1] == ' '));
        }
    }
    if li_free(s) {
        assert forall|i: int| !li_at(t, i) by {
            if 0 <= i && i + 4 <= t.len() {
                assert(!li_at(s, a + i));
            }
        }
    }
    if ol_free(s) {
        assert forall|i: int| !ol_at(t, i) by {
            if ol_at(t, i) {
                let d = choose|d: int| ol_wit(t, i, d);
                assert forall|j: int|
                    a + i + 1 <= j <= a + i + d implies is_digit(#[trigger] s[j]) by {
                    assert(is_digit(t[j - a]));
                }
                assert(t[i] == s[a + i]);
                assert(t[i + d + 1] == s[a + i + d + 1]);
                assert(t[i + d + 2] == s[a + i + d + 2]);
                assert(t[i + d + 3] == s[a + i + d + 3]);
                assert(ol_wit(s, a + i, d));
                assert(!ol_at(s, a + i));
            }
        }
    }
}

/// Trimming a trimmed text changes nothing.
proof fn lemma_trim_idem(s: Seq<char>)
    ensures
        spec_trim(spec_trim(s)) == spec_trim(s),
{
    crate::chars::lemma_leading_ws(s);
    crate::chars::lemma_trailing_ws(s);
    let y = spec_trim(s);
    if crate::chars::leading_ws(s) == s.len() {
        assert(y.len() == 0);
        assert(spec_trim(y) =~= y);
    } else {
        let a = crate::chars::leading_ws(s) as int;
        let b = s.len() - crate::chars::trailing_ws(s);
        if a + crate::chars::trailing_ws(s) > s.len() {
            assert(crate::chars::is_space(s[a]));
        }
        assert(y == s.subrange(a, b));
        assert(y[0] == s[a]);
        assert(!crate::chars::is_space(y[0]));
        crate::chars::lemma_leading_ws(y);
        if crate::chars::leading_ws(y) != 0 {
            assert(crate::chars::is_space(y[0]));
        }
        assert(y[y.len() - 1] == s[b - 1]);
        assert(!crate::chars::is_space(y[y.len() - 1]));
        crate::chars::lemma_trailing_ws(y);
        if crate::chars::trailing_ws(y) != 0 {
            assert(crate::chars::is_space(y[y.len() - 1]));
        }
        assert(spec_trim(y) =~= y);
    }
}

/// The raw-cleaned text never holds three consecutive newlines, as long as
/// the collapsed intermediate text holds no empty bullet line (deleting one
/// can splice two blank lines together).
pub proof fn lemma_clean_no_triple(s: Seq<char>)
    requires
        li_free(collapse_sp(collapse_nl(s))),
        ol_free(collapse_sp(collapse_nl(s))),
    ensures
        no_triple_nl(spec_clean(s)),
{
    let x = collapse_sp(collapse_nl(s));
    lemma_cnl_no_triple(s, 0);
    lemma_csp_no_triple(collapse_nl(s), 0);
    lemma_drop_li_id(x);
    lemma_drop_ol_id(x);
    if crate::chars::leading_ws(x) == x.len() {
    } else {
        crate::chars::lemma_leading_ws(x);
        crate::chars::lemma_trailing_ws(x);
        if crate::chars::leading_ws(x) + crate::chars::trailing_ws(x) > x.len() {
            assert(crate::chars::is_space(x[crate::chars::leading_ws(x) as int]));
        }
        lemma_sub_preserves(
            x,
            crate::chars::leading_ws(x) as int,
            x.len() - crate::chars::trailing_ws(x),
        );
    }
}

/// Applying the raw cleaner twice gives the same text as applying it once,
/// as long as the collapsed intermediate text holds no empty bullet line
/// (deleting one can splice two blank lines into three, which a second
/// application would collapse again).
pub proof fn lemma_clean_idempotent(s: Seq<char>)
    requires
        li_free(collapse_sp(collapse_nl(s))),
        ol_free(collapse_sp(collapse_nl(s))),
    ensures
        spec_clean(spec_clean(s)) == spec_clean(s),
{
    let x = collapse_sp(collapse_nl(s));
    lemma_cnl_no_triple(s, 0);
    lemma_csp_no_triple(collapse_nl(s), 0);
    lemma_csp_no2sp(collapse_nl(s), 0);
    lemma_drop_li_id(x);
    lemma_drop_ol_id(x);
    let y = spec_clean(s);
    assert(y == spec_trim(x));
    if crate::chars::leading_ws(x) == x.len() {
        assert(y.len() == 0);
        assert(cnl_go(y, 0) =~= y);
        assert(csp_go(y, 0) =~= y);
        assert(drop_li(y) =~= y);
        assert(drop_ol(y) =~= y);
        assert(spec_trim(y) =~= y);
    } else {
        crate::chars::lemma_leading_ws(x);
        crate::chars::lemma_trailing_ws(x);
        if crate::chars::leading_ws(x) + crate::chars::trailing_ws(x) > x.len() {
            assert(crate::chars::is_space(x[crate::chars::leading_ws(x) as int]));
        }
        lemma_sub_preserves(
            x,
            crate::chars::leading_ws(x) as int,
            x.len() - crate::chars::trailing_ws(x),
        );
        lemma_cnl_id(y, 0);
        lemma_csp_id(y, 0);
        lemma_drop_li_id(y);
        lemma_drop_ol_id(y);
        lemma_trim_idem(x);
    }
}

/// The guard of the heading-spacing pass `hdr_before` at the text's start.
pub open spec fn hb_match(s: Seq<char>) -> bool {
    let k = nl_run(s) as int;
    let h = spec_min(hash_run(s.skip(k)) as int, 6);
    s.len() > 0 && s[0] == '\n' && k < s.len() && s[k] == '#' && k + h <= s.len()
}

/// The guard of the heading-spacing pass `hdr_after` at the text's start.
pub open spec fn ha_match(s: Seq<char>) -> bool {
    let h = spec_min(hash_run(s) as int, 6);
    let r = nonnl_run(s.skip(h)) as int;
    let k = nl_run(s.skip(h + r)) as int;
    s.len() > 0 && s[0] == '#' && h + r < s.len() && s[h + r] == '\n' && h + r + k <= s.len()
}

proof fn lemma_no_triple_skipn(s: Seq<char>, n: int)
    requires
        no_triple_nl(s),
        0 <= n <= s.len(),
    ensures
        no_triple_nl(s.skip(n)),
{
    let t = s.skip(n);
    assert forall|i: int|
        0 <= i && i + 2 < t.len() implies !(#[trigger] t[i] == '\n' && t[i + 1] == '\n' && t[i + 2]
        == '\n') by {
        assert(t[i] == s[n + i]);
        assert(t[i + 1] == s[n + i + 1]);
        assert(t[i + 2] == s[n + i + 2]);
        assert(!(s[n + i] == '\n' && s[n + i + 1] == '\n' && s[n + i + 2] == '\n'));
    }
}

/// The blank-line-before-headings pass keeps the text free of newline runs of
/// three: a replaced run becomes exactly two newlines followed by a mark.
proof fn lemma_hb_no_triple(s: Seq<char>)
    requires
        no_triple_nl(s),
    ensures
        no_triple_nl(hdr_before(s)),
        starts1_nl(hdr_before(s)) ==> starts1_nl(s),
        starts2_nl(hdr_before(s)) ==> (starts2_nl(s) || hb_match(s)),
    decreases s.len(),
{
    if s.len() == 0 {
    } else {
        let k = nl_run(s) as int;
        let h = spec_min(hash_run(s.skip(k)) as int, 6);
        if hb_match(s) {
            crate::chars::lemma_run_of_le(s, |c: char| c == '\n');
            crate::chars::lemma_run_of_le(s.skip(k), |c: char| c == '#');
            assert(s.skip(k)[0] == s[k]);
            assert(h >= 1);
            lemma_no_triple_skipn(s, k + h);
            lemma_hb_no_triple(s.skip(k + h));
            let marks = s.subrange(k, k + h);
            let rest = hdr_before(s.skip(k + h));
            let out = seq!['\n', '\n'] + marks + rest;
            assert(hdr_before(s) == out);
            assert forall|j: int| 0 <= j < h implies (#[trigger] marks[j]) != '\n' by {
                assert(marks[j] == s.skip(k)[j]);
            }
            assert forall|i: int|
                0 <= i && i + 2 < out.len() implies !(#[trigger] out[i] == '\n' && out[i + 1]
                == '\n' && out[i + 2] == '\n') by {
                if i >= 2 + h {
                    assert(out[i] == rest[i - 2 - h]);
                    assert(out[i + 1] == rest[i - 2 - h + 1]);
                    assert(out[i + 2] == rest[i - 2 - h + 2]);
                    assert(!(rest[i - 2 - h] == '\n' && rest[i - 2 - h + 1] == '\n' && rest[i - 2
                        - h + 2] == '\n'));
                } else {
                    let m: int = if i >= 2 {
                        i
                    } else {
                        2
                    };
                    assert(i <= m <= i + 2);
                    assert(2 <= m < 2 + h);
                    assert(out[m] == marks[m - 2]);
                }
            }
        } else {
            lemma_no_triple_skipn(s, 1);
            lemma_hb_no_triple(s.skip(1));
            let rest = hdr_before(s.skip(1));
            let out = seq![s[0]] + rest;
            assert(hdr_before(s) == out);
            if s[0] == '\n' && starts2_nl(rest) {
                if starts2_nl(s.skip(1)) {
                    assert(s.skip(1)[0] == s[1]);
                    assert(s.skip(1)[1] == s[2]);
                    assert(false);
                } else {
                    assert(hb_match(s.skip(1)));
                    let k2 = nl_run(s.skip(1)) as int;
                    assert(s.skip(1)[0] == s[1]);
                    assert(nl_run(s) == 1 + k2);
                    assert(s.skip(1).skip(k2) =~= s.skip(1 + k2));
                    assert(s[1 + k2] == s.skip(1)[k2]);
                    assert(hb_match(s));
                    assert(false);
                }
            }
            assert forall|i: int|
                0 <= i && i + 2 < out.len() implies !(#[trigger] out[i] == '\n' && out[i + 1]
                == '\n' && out[i + 2] == '\n') by {
                if i == 0 {
                    assert(out[1] == rest[0]);
                    assert(out[2] == rest[1]);
                } else {
                    assert(out[i] == rest[i - 1]);
                    assert(out[i + 1] == rest[i]);
                    assert(out[i + 2] == rest[i + 1]);
                    assert(!(rest[i - 1] == '\n' && rest[i] == '\n' && rest[i + 1] == '\n'));
                }
            }
            if starts2_nl(out) {
                assert(out[1] == rest[0]);
                assert(starts1_nl(rest));
                assert(s.skip(1)[0] == s[1]);
            }
        }
    }
}

/// The blank-line-after-headings pass keeps the text free of newline runs of
/// three: a heading line holds no newline, and the run after it becomes
/// exactly two newlines followed by a character that is not a newline.
proof fn lemma_ha_no_triple(s: Seq<char>)
    requires
        no_triple_nl(s),
    ensures
        no_triple_nl(hdr_after(s)),
        starts1_nl(hdr_after(s)) ==> starts1_nl(s),
        starts2_nl(hdr_after(s)) ==> starts2_nl(s),
    decreases s.len(),
{
    if s.len() == 0 {
    } else {
        let h = spec_min(hash_run(s) as int, 6);
        let r = nonnl_run(s.skip(h)) as int;
        let k = nl_run(s.skip(h + r)) as int;
        if ha_match(s) {
            crate::chars::lemma_run_of_le(s, |c: char| c == '#');
            crate::chars::lemma_run_of_le(s.skip(h), |c: char| c != '\n');
            crate::chars::lemma_run_of_le(s.skip(h + r), |c: char| c == '\n');
            assert(h >= 1);
            lemma_no_triple_skipn(s, h + r + k);
            lemma_ha_no_triple(s.skip(h + r + k));
            let line = s.subrange(0, h + r);
            let rest = hdr_after(s.skip(h + r + k));
            let out = line + seq!['\n', '\n'] + rest;
            assert(hdr_after(s) == out);
            assert forall|j: int| 0 <= j < h + r implies (#[trigger] line[j]) != '\n' by {
                if j < h {
                    assert(line[j] == s[j]);
                } else {
                    assert(line[j] == s.skip(h)[j - h]);
                }
            }
            if rest.len() > 0 && rest[0] == '\n' {
                assert(starts1_nl(s.skip(h + r + k)));
                assert(s.skip(h + r + k)[0] == s.skip(h + r)[k]);
                assert(false);
            }
            assert forall|i: int|
                0 <= i && i + 2 < out.len() implies !(#[trigger] out[i] == '\n' && out[i + 1]
                == '\n' && out[i + 2] == '\n') by {
                if i + 2 < h + r + 2 {
                    let m: int = if i + 2 < h + r {
                        i + 2
                    } else {
                        i
                    };
                    assert(i <= m <= i + 2);
                    assert(0 <= m < h + r);
                    assert(out[m] == line[m - 0]);
                } else if i < h + r + 2 {
                    assert(out[i + 2] == rest[i + 2 - (h + r + 2)]);
                    assert(i + 2 - (h + r + 2) == 0 || out[i] == line[i] || out[i] == '\n');
                    if i >= h + r {
                        assert(out[i + 2] == rest[i - h - r]);
                    } else {
                        assert(out[i] == line[i]);
                    }
                } else {
                    assert(out[i] == rest[i - h - r - 2]);
                    assert(out[i + 1] == rest[i - h - r - 1]);
                    assert(out[i + 2] == rest[i - h - r]);
                    assert(!(rest[i - h - r - 2] == '\n' && rest[i - h - r - 1] == '\n' && rest[i
                        - h - r] == '\n'));
                }
            }
            if starts1_nl(out) {
                assert(out[0] == line[0]);
                assert(line[0] == s[0]);
            }
        } else {
            lemma_no_triple_skipn(s, 1);
            lemma_ha_no_triple(s.skip(1));
            let rest = hdr_after(s.skip(1));
            let out = seq![s[0]] + rest;
            assert(hdr_after(s) == out);
            assert forall|i: int|
                0 <= i && i + 2 < out.len() implies !(#[trigger] out[i] == '\n' && out[i + 1]
                == '\n' && out[i + 2] == '\n') by {
                if i == 0 {
                    assert(out[1] == rest[0]);
                    assert(out[2] == rest[1]);
                    if s[0] == '\n' && rest.len() >= 2 && rest[0] == '\n' && rest[1] == '\n' {
                        assert(starts2_nl(s.skip(1)));
                        assert(s.skip(1)[0] == s[1]);
                        assert(s.skip(1)[1] == s[2]);
                    }
                } else {
                    assert(out[i] == rest[i - 1]);
                    assert(out[i + 1] == rest[i]);
                    assert(out[i + 2] == rest[i + 1]);
                    assert(!(rest[i - 1] == '\n' && rest[i] == '\n' && rest[i + 1] == '\n'));
                }
            }
            if starts2_nl(out) {
                assert(out[1] == rest[0]);
                assert(s.skip(1)[0] == s[1]);
            }
        }
    }
}

/// The readable-cleaned text never holds three consecutive newlines, as long
/// as the newline-collapsed text holds no empty `- ` bullet line (deleting
/// one can splice two blank lines together).
pub proof fn lemma_clean_readable_no_triple(s: Seq<char>)
    requires
        li_free(collapse_nl(s)),
    ensures
        no_triple_nl(spec_clean_readable(s)),
{
    let x = collapse_nl(s);
    lemma_cnl_no_triple(s, 0);
    lemma_drop_li_id(x);
    lemma_hb_no_triple(x);
    lemma_ha_no_triple(hdr_before(x));
    let y = hdr_after(hdr_before(x));
    if crate::chars::leading_ws(y) == y.len() {
    } else {
        crate::chars::lemma_leading_ws(y);
        crate::chars::lemma_trailing_ws(y);
        if crate::chars::leading_ws(y) + crate::chars::trailing_ws(y) > y.len() {
            assert(crate::chars::is_space(y[crate::chars::leading_ws(y) as int]));
        }
        lemma_sub_preserves(
            y,
            crate::chars::leading_ws(y) as int,
            y.len() - crate::chars::trailing_ws(y),
        );
    }
}

/// The readable cleaner: collapse newline runs, delete empty `- ` bullet
/// lines, put a blank line before and after every heading line, and trim.
/// Unlike the raw cleaner it leaves space runs alone.
pub open spec fn spec_clean_readable(s: Seq<char>) -> Seq<char> {
    spec_trim(hdr_after(hdr_before(drop_li(collapse_nl(s)))))
}

pub fn clean_markdown_readable(s: &Vec<char>) -> (r: Vec<char>)
    ensures
        r@ == spec_clean_readable(s@),
{
    let a = collapse_nl_c(s);
    let b = drop_li_c(&a);
    let c = hdr_before_c(&b);
    let d = hdr_after_c(&c);
    trim_chars(&d)
}

} // verus!
