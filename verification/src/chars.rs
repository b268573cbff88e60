use vstd::prelude::*;

verus! {

// --- character classes --------------------------------------------------

/// The Unicode `White_Space` code points: the set that `str::trim` and
/// `str::split_whitespace` go by.
pub open spec fn is_space(c: char) -> bool {
    let u = c as u32;
    u == 0x20 || u == 0x09 || u == 0x0A || u == 0x0B || u == 0x0C || u == 0x0D || u == 0x85
        || u == 0xA0 || u == 0x1680 || (0x2000 <= u && u <= 0x200A) || u == 0x2028 || u == 0x2029
        || u == 0x202F || u == 0x205F || u == 0x3000
}

pub fn is_space_c(c: char) -> (b: bool)
    ensures
        b == is_space(c),
{
    let u = c as u32;
    u == 0x20 || u == 0x09 || u == 0x0A || u == 0x0B || u == 0x0C || u == 0x0D || u == 0x85
        || u == 0xA0 || u == 0x1680 || (0x2000 <= u && u <= 0x200A) || u == 0x2028 || u == 0x2029
        || u == 0x202F || u == 0x205F || u == 0x3000
}

pub open spec fn is_digit(c: char) -> bool {
    let u = c as u32;
    0x30 <= u && u <= 0x39
}

pub fn is_digit_c(c: char) -> (b: bool)
    ensures
        b == is_digit(c),
{
    let u = c as u32;
    0x30 <= u && u <= 0x39
}

// --- the one bridge from `str` to `Vec<char>` ---------------------------

/// Relies on `str::chars`: it yields exactly the string's characters, in
/// order (the view of a `str` in vstd is that character sequence).
#[verifier::external_body]
pub fn str_to_chars(s: &str) -> (r: Vec<char>)
    ensures
        r@ == s@,
{
    s.chars().collect()
}

/// Relies on `String`'s `FromIterator<char>`: collecting characters gives
/// the string with exactly those characters, in order.
#[verifier::external_body]
pub fn chars_to_string(v: &Vec<char>) -> (r: String)
    ensures
        r@ == v@,
{
    v.iter().collect()
}

// --- small vector helpers ------------------------------------------------

#[verifier::loop_isolation(false)]
pub fn push_all(out: &mut Vec<char>, v: &Vec<char>)
    ensures
        final(out)@ == old(out)@ + v@,
{
    let ghost orig = out@;
    let n = v.len();
    for j in 0..n
        invariant
            out@ == orig + v@.subrange(0, j as int),
    {
        out.push(v[j]);
        proof {
            assert(v@.subrange(0, j + 1) == v@.subrange(0, j as int).push(v@[j as int]));
        }
    }
    proof {
        assert(v@.subrange(0, n as int) == v@);
    }
}

pub fn push_lit(out: &mut Vec<char>, w: &str)
    ensures
        final(out)@ == old(out)@ + w@,
{
    let wc = str_to_chars(w);
    push_all(out, &wc);
}

#[verifier::loop_isolation(false)]
pub fn copy_range(s: &Vec<char>, a: usize, b: usize) -> (r: Vec<char>)
    requires
        a <= b <= s@.len(),
    ensures
        r@ == s@.subrange(a as int, b as int),
{
    let mut r: Vec<char> = Vec::new();
    for j in a..b
        invariant
            a <= j <= b,
            r@ == s@.subrange(a as int, j as int),
    {
        r.push(s[j]);
        proof {
            assert(s@.subrange(a as int, j + 1) == s@.subrange(a as int, j as int).push(
                s@[j as int],
            ));
        }
    }
    r
}

#[verifier::loop_isolation(false)]
pub fn eq_chars(a: &Vec<char>, b: &Vec<char>) -> (r: bool)
    ensures
        r == (a@ == b@),
{
    if a.len() != b.len() {
        proof {
            assert(a@ != b@);
        }
        return false;
    }
    let n = a.len();
    for j in 0..n
        invariant
            a@.len() == b@.len() == n,
            forall|p: int| 0 <= p < j ==> a@[p] == b@[p],
    {
        if a[j] != b[j] {
            return false;
        }
    }
    proof {
        assert(a@ =~= b@);
    }
    true
}

/// Does the character vector equal the given literal?
pub fn eq_lit(a: &Vec<char>, w: &str) -> (r: bool)
    ensures
        r == (a@ == w@),
{
    let wc = str_to_chars(w);
    eq_chars(a, &wc)
}

// --- substring and word search -------------------------------------------

/// `p` occurs in `s` starting at `i`.
pub open spec fn match_at(s: Seq<char>, p: Seq<char>, i: int) -> bool {
    0 <= i && i + p.len() <= s.len() && s.subrange(i, i + p.len()) == p
}

/// `p` occurs somewhere in `s`.
pub open spec fn has_sub(s: Seq<char>, p: Seq<char>) -> bool {
    exists|i: int| match_at(s, p, i)
}

#[verifier::loop_isolation(false)]
pub fn match_at_c(s: &Vec<char>, p: &Vec<char>, i: usize) -> (r: bool)
    requires
        i + p@.len() <= s@.len(),
    ensures
        r == match_at(s@, p@, i as int),
{
    let n = p.len();
    let sl = s.len();
    for j in 0..n
        invariant
            i + p@.len() <= s@.len(),
            sl == s@.len(),
            forall|q: int| 0 <= q < j ==> s@[i + q] == p@[q],
    {
        if s[i + j] != p[j] {
            proof {
                assert(s@.subrange(i as int, i + p@.len())[j as int] == s@[i + j]);
            }
            return false;
        }
    }
    proof {
        assert(s@.subrange(i as int, i + p@.len()) =~= p@);
    }
    true
}

#[verifier::loop_isolation(false)]
pub fn contains_sub(s: &Vec<char>, p: &Vec<char>) -> (r: bool)
    ensures
        r == has_sub(s@, p@),
{
    if p.len() > s.len() {
        return false;
    }
    if p.len() == 0 {
        proof {
            assert(s@.subrange(0, 0) =~= p@);
            assert(match_at(s@, p@, 0));
        }
        return true;
    }
    let last = s.len() - p.len();
    let mut i: usize = 0;
    while i <= last
        invariant
            i <= last + 1,
            p@.len() <= s@.len(),
            last == s@.len() - p@.len(),
            forall|q: int| 0 <= q < i ==> !match_at(s@, p@, q),
        decreases last + 1 - i,
    {
        if match_at_c(s, p, i) {
            return true;
        }
        i += 1;
    }
    proof {
        assert(forall|q: int| match_at(s@, p@, q) ==> 0 <= q <= last);
    }
    false
}

pub fn contains_lit(s: &Vec<char>, w: &str) -> (r: bool)
    ensures
        r == has_sub(s@, w@),
{
    let wc = str_to_chars(w);
    contains_sub(s, &wc)
}

/// `w` occurs in `s` as a whole whitespace-delimited word.  For a non-empty
/// `w` without whitespace this says exactly that `w` is one of the words of
/// `str::split_whitespace`.
pub open spec fn has_word(s: Seq<char>, w: Seq<char>) -> bool {
    exists|i: int|
        #![trigger match_at(s, w, i)]
        match_at(s, w, i) && (i == 0 || is_space(s[i - 1])) && (i + w.len() == s.len() || is_space(
            s[i + w.len()],
        ))
}

#[verifier::loop_isolation(false)]
fn empty_word(s: &Vec<char>) -> (r: bool)
    ensures
        r == has_word(s@, Seq::<char>::empty()),
{
    let ghost w = Seq::<char>::empty();
    proof {
        assert forall|i: int| 0 <= i <= s@.len() implies s@.subrange(i, i) =~= w by {}
    }
    let n = s.len();
    if n == 0 {
        proof {
            assert(match_at(s@, w, 0));
        }
        return true;
    }
    if is_space_c(s[0]) {
        proof {
            assert(match_at(s@, w, 0));
        }
        return true;
    }
    if is_space_c(s[n - 1]) {
        proof {
            assert(match_at(s@, w, n as int));
        }
        return true;
    }
    for j in 1..n
        invariant
            forall|q: int| 1 <= q < j ==> !(is_space(#[trigger] s@[q - 1]) && is_space(s@[q])),
    {
        if is_space_c(s[j - 1]) && is_space_c(s[j]) {
            proof {
                assert(match_at(s@, w, j as int));
            }
            return true;
        }
    }
    proof {
        assert forall|i: int|
            !(#[trigger] match_at(s@, w, i) && (i == 0 || is_space(s@[i - 1])) && (i + w.len()
                == s@.len() || is_space(s@[i + w.len()]))) by {
            if match_at(s@, w, i) {
                if 0 < i < s@.len() {
                    assert(!(is_space(s@[i - 1]) && is_space(s@[i])));
                }
            }
        }
    }
    false
}

#[verifier::loop_isolation(false)]
pub fn contains_word(s: &Vec<char>, w: &str) -> (r: bool)
    ensures
        r == has_word(s@, w@),
{
    let wc = str_to_chars(w);
    if wc.len() > s.len() {
        return false;
    }
    if wc.len() == 0 {
        proof {
            assert(w@ =~= Seq::<char>::empty());
        }
        return empty_word(s);
    }
    let last = s.len() - wc.len();
    let mut i: usize = 0;
    while i <= last
        invariant
            i <= last + 1,
            wc@ == w@,
            wc@.len() <= s@.len(),
            last == s@.len() - wc@.len(),
            forall|q: int|
                #![trigger match_at(s@, w@, q)]
                0 <= q < i ==> !(match_at(s@, w@, q) && (q == 0 || is_space(s@[q - 1])) && (q
                    + w@.len() == s@.len() || is_space(s@[q + w@.len()]))),
        decreases last + 1 - i,
    {
        if match_at_c(s, &wc, i) {
            let left_ok = if i == 0 {
                true
            } else {
                is_space_c(s[i - 1])
            };
            let right_ok = if i + wc.len() == s.len() {
                true
            } else {
                is_space_c(s[i + wc.len()])
            };
            if left_ok && right_ok {
                return true;
            }
        }
        i += 1;
    }
    proof {
        assert(forall|q: int| match_at(s@, w@, q) ==> 0 <= q <= last);
    }
    false
}

// --- decimal rendering ------------------------------------------------------

pub open spec fn digit_char(d: int) -> char {
    if d == 0 {
        '0'
    } else if d == 1 {
        '1'
    } else if d == 2 {
        '2'
    } else if d == 3 {
        '3'
    } else if d == 4 {
        '4'
    } else if d == 5 {
        '5'
    } else if d == 6 {
        '6'
    } else if d == 7 {
        '7'
    } else if d == 8 {
        '8'
    } else {
        '9'
    }
}

/// The decimal digits of `n`, most significant first.
pub open spec fn dec_of(n: nat) -> Seq<char>
    decreases n,
{
    if n < 10 {
        seq![digit_char(n as int)]
    } else {
        dec_of(n / 10) + seq![digit_char((n % 10) as int)]
    }
}

pub fn to_decimal(n: usize) -> (r: Vec<char>)
    ensures
        r@ == dec_of(n as nat),
    decreases n,
{
    let d = n % 10;
    let c = (48 + d) as u8 as char;
    proof {
        assert(c == digit_char(d as int));
    }
    if n < 10 {
        let mut r: Vec<char> = Vec::new();
        r.push(c);
        proof {
            assert(r@ =~= dec_of(n as nat));
        }
        r
    } else {
        let mut r = to_decimal(n / 10);
        r.push(c);
        proof {
            assert(r@ =~= dec_of(n as nat));
        }
        r
    }
}

// --- whitespace normalization ---------------------------------------------

/// One step of the whitespace normalizer: `started` says whether a word
/// character was already emitted, `gap` whether whitespace was seen since.
pub open spec fn norm_go(s: Seq<char>, started: bool, gap: bool) -> Seq<char>
    decreases s.len(),
{
    if s.len() == 0 {
        Seq::empty()
    } else if is_space(s[0]) {
        norm_go(s.skip(1), started, true)
    } else {
        (if started && gap {
            seq![' ']
        } else {
            Seq::empty()
        }) + seq![s[0]] + norm_go(s.skip(1), true, false)
    }
}

/// Whitespace normalization: every run of whitespace collapses to a single
/// space, and leading and trailing whitespace is removed.
pub open spec fn norm(s: Seq<char>) -> Seq<char> {
    norm_go(s, false, false)
}

#[verifier::loop_isolation(false)]
pub fn normalize(s: &Vec<char>) -> (r: Vec<char>)
    ensures
        r@ == norm(s@),
{
    let mut out: Vec<char> = Vec::new();
    let mut started = false;
    let mut gap = false;
    let n = s.len();
    proof {
        assert(s@.skip(0) =~= s@);
    }
    for i in 0..n
        invariant
            norm(s@) == out@ + norm_go(s@.skip(i as int), started, gap),
    {
        proof {
            assert(s@.skip(i as int).len() == n - i);
            assert(s@.skip(i as int)[0] == s@[i as int]);
            assert(s@.skip(i as int).skip(1) =~= s@.skip(i + 1));
        }
        let c = s[i];
        if is_space_c(c) {
            gap = true;
        } else {
            if started && gap {
                out.push(' ');
            }
            out.push(c);
            started = true;
            gap = false;
        }
    }
    proof {
        assert(s@.skip(n as int).len() == 0);
    }
    out
}

// --- leading runs of a character class ---------------------------------------

/// Length of the longest prefix of `s` whose characters all satisfy `p`.
pub open spec fn run_of(s: Seq<char>, p: spec_fn(char) -> bool) -> nat
    decreases s.len(),
{
    if s.len() > 0 && p(s[0]) {
        1 + run_of(s.skip(1), p)
    } else {
        0
    }
}

pub proof fn lemma_run_of_unique(s: Seq<char>, p: spec_fn(char) -> bool, k: int)
    requires
        0 <= k <= s.len(),
        forall|j: int| 0 <= j < k ==> p(s[j]),
        k < s.len() ==> !p(s[k]),
    ensures
        k == run_of(s, p),
    decreases s.len(),
{
    if k == 0 {
        if s.len() > 0 {
            assert(!p(s[0]));
        }
    } else {
        assert(p(s[0]));
        lemma_run_of_unique(s.skip(1), p, k - 1);
    }
}

pub proof fn lemma_run_of_le(s: Seq<char>, p: spec_fn(char) -> bool)
    ensures
        run_of(s, p) <= s.len(),
        forall|j: int| 0 <= j < run_of(s, p) ==> p(s[j]),
        run_of(s, p) < s.len() ==> !p(s[run_of(s, p) as int]),
    decreases s.len(),
{
    if s.len() > 0 && p(s[0]) {
        lemma_run_of_le(s.skip(1), p);
        assert forall|j: int| 0 <= j < run_of(s, p) implies p(s[j]) by {
            if j >= 1 {
                assert(p(s.skip(1)[j - 1]));
            }
        }
    }
}

#[verifier::loop_isolation(false)]
pub fn count_eq(s: &Vec<char>, from: usize, c: char) -> (k: usize)
    requires
        from <= s@.len(),
    ensures
        k == run_of(s@.skip(from as int), |x: char| x == c),
        from + k <= s@.len(),
{
    let n = s.len();
    let mut k: usize = 0;
    while from + k < n && s[from + k] == c
        invariant
            from + k <= n,
            forall|j: int| 0 <= j < k ==> #[trigger] s@[from + j] == c,
        decreases n - from - k,
    {
        k += 1;
    }
    proof {
        let t = s@.skip(from as int);
        assert forall|j: int| 0 <= j < k implies (|x: char| x == c)(t[j]) by {
            assert(t[j] == s@[from + j]);
        }
        if (k as int) < t.len() {
            assert(t[k as int] == s@[from + k]);
        }
        lemma_run_of_unique(t, |x: char| x == c, k as int);
    }
    k
}

#[verifier::loop_isolation(false)]
pub fn count_ne(s: &Vec<char>, from: usize, c: char) -> (k: usize)
    requires
        from <= s@.len(),
    ensures
        k == run_of(s@.skip(from as int), |x: char| x != c),
        from + k <= s@.len(),
{
    let n = s.len();
    let mut k: usize = 0;
    while from + k < n && s[from + k] != c
        invariant
            from + k <= n,
            forall|j: int| 0 <= j < k ==> #[trigger] s@[from + j] != c,
        decreases n - from - k,
    {
        k += 1;
    }
    proof {
        let t = s@.skip(from as int);
        assert forall|j: int| 0 <= j < k implies (|x: char| x != c)(t[j]) by {
            assert(t[j] == s@[from + j]);
        }
        if (k as int) < t.len() {
            assert(t[k as int] == s@[from + k]);
        }
        lemma_run_of_unique(t, |x: char| x != c, k as int);
    }
    k
}

#[verifier::loop_isolation(false)]
pub fn count_digits(s: &Vec<char>, from: usize) -> (k: usize)
    requires
        from <= s@.len(),
    ensures
        k == run_of(s@.skip(from as int), |x: char| is_digit(x)),
        from + k <= s@.len(),
{
    let n = s.len();
    let mut k: usize = 0;
    while from + k < n && is_digit_c(s[from + k])
        invariant
            from + k <= n,
            forall|j: int| 0 <= j < k ==> is_digit(#[trigger] s@[from + j]),
        decreases n - from - k,
    {
        k += 1;
    }
    proof {
        let t = s@.skip(from as int);
        assert forall|j: int| 0 <= j < k implies (|x: char| is_digit(x))(t[j]) by {
            assert(t[j] == s@[from + j]);
        }
        if (k as int) < t.len() {
            assert(t[k as int] == s@[from + k]);
        }
        lemma_run_of_unique(t, |x: char| is_digit(x), k as int);
    }
    k
}

// --- trimming ---------------------------------------------------------------

pub open spec fn leading_ws(s: Seq<char>) -> nat
    decreases s.len(),
{
    if s.len() > 0 && is_space(s[0]) {
        1 + leading_ws(s.skip(1))
    } else {
        0
    }
}

pub open spec fn trailing_ws(s: Seq<char>) -> nat
    decreases s.len(),
{
    if s.len() > 0 && is_space(s[s.len() - 1]) {
        1 + trailing_ws(s.drop_last())
    } else {
        0
    }
}

pub proof fn lemma_leading_ws(s: Seq<char>)
    ensures
        leading_ws(s) <= s.len(),
        forall|j: int| 0 <= j < leading_ws(s) ==> is_space(s[j]),
        leading_ws(s) < s.len() ==> !is_space(s[leading_ws(s) as int]),
    decreases s.len(),
{
    if s.len() > 0 && is_space(s[0]) {
        lemma_leading_ws(s.skip(1));
        assert forall|j: int| 0 <= j < leading_ws(s) implies is_space(s[j]) by {
            if j >= 1 {
                assert(is_space(s.skip(1)[j - 1]));
            }
        }
    }
}

pub proof fn lemma_trailing_ws(s: Seq<char>)
    ensures
        trailing_ws(s) <= s.len(),
        forall|j: int| s.len() - trailing_ws(s) <= j < s.len() ==> is_space(s[j]),
        trailing_ws(s) < s.len() ==> !is_space(s[s.len() - trailing_ws(s) - 1]),
    decreases s.len(),
{
    if s.len() > 0 && is_space(s[s.len() - 1]) {
        lemma_trailing_ws(s.drop_last());
        assert forall|j: int| s.len() - trailing_ws(s) <= j < s.len() implies is_space(s[j]) by {
            if j < s.len() - 1 {
                assert(is_space(s.drop_last()[j]));
            }
        }
    }
}

/// What `str::trim` leaves: the input without leading and trailing whitespace.
pub open spec fn spec_trim(s: Seq<char>) -> Seq<char> {
    if leading_ws(s) == s.len() {
        Seq::empty()
    } else {
        s.subrange(leading_ws(s) as int, s.len() - trailing_ws(s))
    }
}

proof fn lemma_leading_ws_unique(s: Seq<char>, a: int)
    requires
        0 <= a <= s.len(),
        forall|j: int| 0 <= j < a ==> is_space(s[j]),
        a < s.len() ==> !is_space(s[a]),
    ensures
        a == leading_ws(s),
{
    lemma_leading_ws(s);
    if a < leading_ws(s) {
        assert(is_space(s[a]));
    } else if leading_ws(s) < a {
        assert(is_space(s[leading_ws(s) as int]));
    }
}

proof fn lemma_trailing_ws_unique(s: Seq<char>, t: int)
    requires
        0 <= t <= s.len(),
        forall|j: int| s.len() - t <= j < s.len() ==> is_space(s[j]),
        t < s.len() ==> !is_space(s[s.len() - t - 1]),
    ensures
        t == trailing_ws(s),
{
    lemma_trailing_ws(s);
    if t < trailing_ws(s) {
        assert(is_space(s[s.len() - t - 1]));
    } else if trailing_ws(s) < t {
        assert(is_space(s[s.len() - trailing_ws(s) - 1]));
    }
}

#[verifier::loop_isolation(false)]
pub fn trim_chars(s: &Vec<char>) -> (r: Vec<char>)
    ensures
        r@ == spec_trim(s@),
{
    let n = s.len();
    let mut a: usize = 0;
    while a < n && is_space_c(s[a])
        invariant
            a <= n,
            forall|j: int| 0 <= j < a ==> is_space(s@[j]),
        decreases n - a,
    {
        a += 1;
    }
    proof {
        lemma_leading_ws_unique(s@, a as int);
    }
    if a == n {
        return Vec::new();
    }
    let mut t: usize = 0;
    while t < n && is_space_c(s[n - t - 1])
        invariant
            t <= n,
            forall|j: int| n - t <= j < n ==> is_space(s@[j]),
        decreases n - t,
    {
        t += 1;
    }
    proof {
        lemma_trailing_ws_unique(s@, t as int);
        lemma_leading_ws(s@);
        lemma_trailing_ws(s@);
        if a + t > n {
            assert(is_space(s@[a as int]));
        }
    }
    copy_range(s, a, n - t)
}

} // verus!
