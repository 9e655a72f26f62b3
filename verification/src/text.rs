//! Text-level grammar of the wire format: separator splitting, whitespace
//! trimming, and the decimal-number grammar used for data cells.

use vstd::prelude::*;

verus! {

/// The character sequences of a sequence of strings.
pub open spec fn views_of(v: Seq<String>) -> Seq<Seq<char>> {
    v.map_values(|s: String| s@)
}

pub proof fn lemma_views_push(v: Seq<String>, e: String)
    ensures
        views_of(v.push(e)) == views_of(v).push(e@),
{
    assert(views_of(v.push(e)) =~= views_of(v).push(e@));
}

/// Index of the first occurrence of `a` or `b` in `s`, or -1 if absent.
pub open spec fn first_either(s: Seq<char>, a: char, b: char) -> int
    decreases s.len(),
{
    if s.len() == 0 {
        -1
    } else if s[0] == a || s[0] == b {
        0
    } else {
        let r = first_either(s.skip(1), a, b);
        if r < 0 {
            -1
        } else {
            r + 1
        }
    }
}

pub proof fn lemma_first_either(s: Seq<char>, a: char, b: char)
    ensures
        first_either(s, a, b) >= 0 ==> {
            let f = first_either(s, a, b);
            &&& f < s.len()
            &&& (s[f] == a || s[f] == b)
            &&& forall|k: int| 0 <= k < f ==> s[k] != a && s[k] != b
        },
        first_either(s, a, b) < 0 ==> forall|k: int|
            0 <= k < s.len() ==> s[k] != a && s[k] != b,
    decreases s.len(),
{
    if s.len() != 0 && !(s[0] == a || s[0] == b) {
        let t = s.skip(1);
        lemma_first_either(t, a, b);
        let r = first_either(t, a, b);
        if r >= 0 {
            let f = first_either(s, a, b);
            assert(f == r + 1);
            assert(s[f] == t[r]);
            assert forall|k: int| 0 <= k < f implies s[k] != a && s[k] != b by {
                if k > 0 {
                    assert(s[k] == t[k - 1]);
                }
            }
        } else {
            assert forall|k: int| 0 <= k < s.len() implies s[k] != a && s[k] != b by {
                if k > 0 {
                    assert(s[k] == t[k - 1]);
                }
            }
        }
    }
}

/// `s` split on the separator `sep`: the fields between separators, kept
/// in order, empty fields included.  A string without any separator is a
/// single field, so the result never has fewer than one field.
pub open spec fn spec_split(s: Seq<char>, sep: char) -> Seq<Seq<char>>
    decreases s.len(),
{
    let j = first_either(s, sep, sep);
    if j < 0 || j >= s.len() {
        seq![s]
    } else {
        seq![s.take(j)] + spec_split(s.skip(j + 1), sep)
    }
}

/// Splits `s` on the separator character, keeping empty fields.
pub fn split_on(s: &str, sep: char) -> (r: Vec<String>)
    ensures
        views_of(r@) == spec_split(s@, sep),
{
    let n = s.unicode_len();
    let mut r: Vec<String> = Vec::new();
    let mut start: usize = 0;
    let mut i: usize = 0;
    proof {
        assert(s@.skip(0) =~= s@);
    }
    while i < n
        invariant
            start <= i <= n,
            n == s@.len(),
            spec_split(s@, sep) == views_of(r@) + spec_split(s@.skip(start as int), sep),
            forall|k: int| start <= k < i ==> s@[k] != sep,
        decreases n - i,
    {
        let c = s.get_char(i);
        if c == sep {
            let field = s.substring_char(start, i).to_owned();
            proof {
                let t = s@.skip(start as int);
                assert(forall|k: int| 0 <= k < t.len() ==> t[k] == s@[k + start]);
                lemma_first_either(t, sep, sep);
                let f = first_either(t, sep, sep);
                assert(t[i - start] == sep);
                if f < 0 {
                    assert(false);
                }
                if f < i - start {
                    assert(s@[f + start] != sep);
                    assert(false);
                }
                if f > i - start {
                    assert(t[i - start] != sep);
                    assert(false);
                }
                assert(f == i - start);
                assert(spec_split(t, sep) == seq![t.take(f)] + spec_split(t.skip(f + 1), sep));
                assert(t.take(f) =~= s@.subrange(start as int, i as int));
                assert(t.skip(f + 1) =~= s@.skip(i + 1));
                lemma_views_push(r@, field);
                assert(views_of(r@.push(field)) + spec_split(s@.skip(i + 1), sep)
                    =~= views_of(r@) + spec_split(t, sep));
            }
            r.push(field);
            start = i + 1;
        }
        i += 1;
    }
    let field = s.substring_char(start, n).to_owned();
    proof {
        let t = s@.skip(start as int);
        assert(forall|k: int| 0 <= k < t.len() ==> t[k] == s@[k + start]);
        lemma_first_either(t, sep, sep);
        let f = first_either(t, sep, sep);
        if f >= 0 {
            assert(s@[f + start] != sep);
            assert(false);
        }
        assert(spec_split(t, sep) == seq![t]);
        assert(field@ =~= t);
        lemma_views_push(r@, field);
        assert(views_of(r@.push(field)) =~= views_of(r@) + spec_split(t, sep));
    }
    r.push(field);
    r
}

/// The Unicode white-space characters, as `char::is_whitespace` lists them.
pub open spec fn spec_is_ws(c: char) -> bool {
    ||| c == ' '
    ||| c == '\t'
    ||| c == '\n'
    ||| c == '\r'
    ||| c as u32 == 0x0B
    ||| c as u32 == 0x0C
    ||| c as u32 == 0x85
    ||| c as u32 == 0xA0
    ||| c as u32 == 0x1680
    ||| (0x2000 <= c as u32 && c as u32 <= 0x200A)
    ||| c as u32 == 0x2028
    ||| c as u32 == 0x2029
    ||| c as u32 == 0x202F
    ||| c as u32 == 0x205F
    ||| c as u32 == 0x3000
}

fn is_ws_char(c: char) -> (r: bool)
    ensures
        r == spec_is_ws(c),
{
    let u = c as u32;
    u == 0x20 || u == 0x09 || u == 0x0A || u == 0x0D || u == 0x0B || u == 0x0C || u == 0x85
        || u == 0xA0 || u == 0x1680 || (0x2000 <= u && u <= 0x200A) || u == 0x2028 || u == 0x2029
        || u == 0x202F || u == 0x205F || u == 0x3000
}

/// How many white-space characters `s` begins with.
pub open spec fn ws_prefix_len(s: Seq<char>) -> int
    decreases s.len(),
{
    if s.len() == 0 || !spec_is_ws(s[0]) {
        0
    } else {
        1 + ws_prefix_len(s.skip(1))
    }
}

/// How many white-space characters `s` ends with.
pub open spec fn ws_suffix_len(s: Seq<char>) -> int
    decreases s.len(),
{
    if s.len() == 0 || !spec_is_ws(s[s.len() - 1]) {
        0
    } else {
        1 + ws_suffix_len(s.drop_last())
    }
}

/// `s` without leading and trailing white space.
pub open spec fn spec_trim(s: Seq<char>) -> Seq<char> {
    let t = s.skip(ws_prefix_len(s));
    t.take(t.len() - ws_suffix_len(t))
}

proof fn lemma_ws_prefix(s: Seq<char>, j: int)
    requires
        0 <= j <= s.len(),
        forall|k: int| 0 <= k < j ==> spec_is_ws(s[k]),
        j < s.len() ==> !spec_is_ws(s[j]),
    ensures
        ws_prefix_len(s) == j,
    decreases j,
{
    if j == 0 {
    } else {
        let t = s.skip(1);
        assert(spec_is_ws(s[0]));
        assert forall|k: int| 0 <= k < j - 1 implies spec_is_ws(t[k]) by {
            assert(t[k] == s[k + 1]);
        }
        if j - 1 < t.len() {
            assert(t[j - 1] == s[j]);
        }
        lemma_ws_prefix(t, j - 1);
    }
}

proof fn lemma_ws_suffix(s: Seq<char>, j: int)
    requires
        0 <= j <= s.len(),
        forall|k: int| s.len() - j <= k < s.len() ==> spec_is_ws(s[k]),
        s.len() - j - 1 >= 0 ==> !spec_is_ws(s[s.len() - j - 1]),
    ensures
        ws_suffix_len(s) == j,
    decreases j,
{
    if j == 0 {
    } else {
        let t = s.drop_last();
        assert(spec_is_ws(s[s.len() - 1]));
        assert forall|k: int| t.len() - (j - 1) <= k < t.len() implies spec_is_ws(t[k]) by {
            assert(t[k] == s[k]);
        }
        if t.len() - (j - 1) - 1 >= 0 {
            assert(t[t.len() - (j - 1) - 1] == s[s.len() - j - 1]);
        }
        lemma_ws_suffix(t, j - 1);
    }
}

/// Removes leading and trailing white space, as `str::trim` does.
pub fn trim(s: &str) -> (r: String)
    ensures
        r@ == spec_trim(s@),
{
    let n = s.unicode_len();
    let mut a: usize = 0;
    while a < n && is_ws_char(s.get_char(a))
        invariant
            a <= n,
            n == s@.len(),
            forall|k: int| 0 <= k < a ==> spec_is_ws(s@[k]),
        decreases n - a,
    {
        a += 1;
    }
    let mut b: usize = n;
    while b > a && is_ws_char(s.get_char(b - 1))
        invariant
            a <= b <= n,
            n == s@.len(),
            forall|k: int| b <= k < n ==> spec_is_ws(s@[k]),
        decreases b,
    {
        b -= 1;
    }
    let r = s.substring_char(a, b).to_owned();
    proof {
        lemma_ws_prefix(s@, a as int);
        let t = s@.skip(a as int);
        assert(forall|k: int| 0 <= k < t.len() ==> t[k] == s@[k + a]);
        assert forall|k: int| t.len() - (n - b) <= k < t.len() implies spec_is_ws(t[k]) by {
            assert(t[k] == s@[k + a]);
        }
        if t.len() - (n - b) - 1 >= 0 {
            assert(t[b - a - 1] == s@[b - 1]);
        }
        lemma_ws_suffix(t, n as int - b as int);
        assert(t.take(t.len() - (n - b)) =~= s@.subrange(a as int, b as int));
    }
    r
}

/// An ASCII decimal digit.
pub open spec fn spec_is_digit(c: char) -> bool {
    0x30 <= c as u32 && c as u32 <= 0x39
}

fn is_digit_char(c: char) -> (r: bool)
    ensures
        r == spec_is_digit(c),
{
    let u = c as u32;
    0x30 <= u && u <= 0x39
}

/// `a` equals the lower-case letter `lower`, ignoring ASCII case.
pub open spec fn eq_ci(a: char, lower: char) -> bool {
    a as u32 == lower as u32 || (0x41 <= a as u32 <= 0x5A && a as u32 + 0x20 == lower as u32)
}

fn eq_ci_char(a: char, lower: char) -> (r: bool)
    ensures
        r == eq_ci(a, lower),
{
    let u = a as u32;
    let l = lower as u32;
    u == l || (0x41 <= u && u <= 0x5A && u + 0x20 == l)
}

/// `s` spells `kw` (a lower-case keyword), ignoring ASCII case.
pub open spec fn matches_ci(s: Seq<char>, kw: Seq<char>) -> bool {
    s.len() == kw.len() && forall|k: int| 0 <= k < s.len() ==> eq_ci(s[k], kw[k])
}

/// Compares `s` from position `from` on with a keyword, ignoring ASCII case.
fn tail_matches_ci(s: &str, from: usize, kw: &Vec<char>) -> (r: bool)
    requires
        from <= s@.len(),
    ensures
        r == matches_ci(s@.skip(from as int), kw@),
{
    let n = s.unicode_len();
    if n - from != kw.len() {
        return false;
    }
    let ghost t = s@.skip(from as int);
    proof {
        assert(forall|k: int| 0 <= k < t.len() ==> t[k] == s@[k + from]);
    }
    let mut i: usize = 0;
    while i < kw.len()
        invariant
            i <= kw.len(),
            kw.len() == n - from,
            from <= n == s@.len(),
            t == s@.skip(from as int),
            t.len() == kw@.len(),
            forall|k: int| 0 <= k < t.len() ==> t[k] == s@[k + from],
            forall|k: int| 0 <= k < i ==> eq_ci(t[k], kw@[k]),
        decreases kw.len() - i,
    {
        if !eq_ci_char(s.get_char(from + i), kw[i]) {
            assert(!eq_ci(t[i as int], kw@[i as int]));
            return false;
        }
        i += 1;
    }
    true
}

/// The optional leading sign of a number, stripped.
pub open spec fn spec_strip_sign(s: Seq<char>) -> Seq<char> {
    if s.len() > 0 && (s[0] == '+' || s[0] == '-') {
        s.skip(1)
    } else {
        s
    }
}

/// The digits-and-point part of a number: at least one digit, at most one
/// decimal point, nothing else.
pub open spec fn spec_is_mantissa(m: Seq<char>) -> bool {
    &&& m.len() > 0
    &&& forall|k: int| 0 <= k < m.len() ==> spec_is_digit(m[k]) || m[k] == '.'
    &&& forall|i: int, j: int| 0 <= i < j < m.len() ==> !(m[i] == '.' && m[j] == '.')
    &&& exists|k: int| 0 <= k < m.len() && spec_is_digit(m[k])
}

/// An exponent part: an optional sign, then at least one digit.
pub open spec fn spec_is_exponent(x: Seq<char>) -> bool {
    let d = spec_strip_sign(x);
    d.len() > 0 && forall|k: int| 0 <= k < d.len() ==> spec_is_digit(d[k])
}

/// A signless numeral: a mantissa, optionally followed by `e` or `E` and
/// an exponent.
pub open spec fn spec_is_numeral(s: Seq<char>) -> bool {
    let j = first_either(s, 'e', 'E');
    if j < 0 {
        spec_is_mantissa(s)
    } else {
        spec_is_mantissa(s.take(j)) && spec_is_exponent(s.skip(j + 1))
    }
}

/// The texts that parse as a decimal floating-point number: an optional
/// sign, then `inf`, `infinity` or `nan` (ASCII case-insensitive) or a
/// numeral such as `12`, `3.5`, `.5`, `2.` or `1.5e-3`.
pub open spec fn spec_is_number(s: Seq<char>) -> bool {
    let b = spec_strip_sign(s);
    ||| matches_ci(b, seq!['i', 'n', 'f'])
    ||| matches_ci(b, seq!['i', 'n', 'f', 'i', 'n', 'i', 't', 'y'])
    ||| matches_ci(b, seq!['n', 'a', 'n'])
    ||| spec_is_numeral(b)
}

/// Checks `s@.subrange(from, to)` against the mantissa grammar.
fn is_mantissa_range(s: &str, from: usize, to: usize) -> (r: bool)
    requires
        from <= to <= s@.len(),
    ensures
        r == spec_is_mantissa(s@.subrange(from as int, to as int)),
{
    let ghost m = s@.subrange(from as int, to as int);
    proof {
        assert(forall|k: int| 0 <= k < m.len() ==> m[k] == s@[k + from]);
    }
    if to == from {
        return false;
    }
    let mut i: usize = from;
    let mut seen_digit = false;
    let mut seen_dot = false;
    while i < to
        invariant
            from <= i <= to <= s@.len(),
            m == s@.subrange(from as int, to as int),
            forall|k: int| 0 <= k < m.len() ==> m[k] == s@[k + from],
            forall|k: int| 0 <= k < i - from ==> spec_is_digit(m[k]) || m[k] == '.',
            seen_digit == exists|k: int| 0 <= k < i - from && spec_is_digit(m[k]),
            seen_dot == exists|k: int| 0 <= k < i - from && m[k] == '.',
            forall|a: int, b: int| 0 <= a < b < i - from ==> !(m[a] == '.' && m[b] == '.'),
        decreases to - i,
    {
        let c = s.get_char(i);
        if is_digit_char(c) {
            proof {
                assert(0 <= i - from < i + 1 - from && spec_is_digit(m[i - from]));
                assert(m[i - from] != '.');
                if seen_dot {
                    let ghost w = choose|k: int| 0 <= k < i - from && m[k] == '.';
                    assert(0 <= w < i + 1 - from && m[w] == '.');
                }
            }
            seen_digit = true;
        } else if c == '.' {
            if seen_dot {
                let ghost a = choose|k: int| 0 <= k < i - from && m[k] == '.';
                assert(m[a] == '.' && m[i - from] == '.');
                return false;
            }
            proof {
                assert(0 <= i - from < i + 1 - from && m[i - from] == '.');
                if seen_digit {
                    let ghost w = choose|k: int| 0 <= k < i - from && spec_is_digit(m[k]);
                    assert(0 <= w < i + 1 - from && spec_is_digit(m[w]));
                } else {
                    assert(!spec_is_digit(m[i - from]));
                }
            }
            seen_dot = true;
        } else {
            assert(!(spec_is_digit(m[i - from]) || m[i - from] == '.'));
            return false;
        }
        i += 1;
    }
    seen_digit
}

/// Checks `s@.subrange(from, to)` against the exponent grammar.
fn is_exponent_range(s: &str, from: usize, to: usize) -> (r: bool)
    requires
        from <= to <= s@.len(),
    ensures
        r == spec_is_exponent(s@.subrange(from as int, to as int)),
{
    let ghost x = s@.subrange(from as int, to as int);
    proof {
        assert(forall|k: int| 0 <= k < x.len() ==> x[k] == s@[k + from]);
    }
    let mut a = from;
    if from < to {
        let c = s.get_char(from);
        if c == '+' || c == '-' {
            a = from + 1;
        }
    }
    let ghost d = spec_strip_sign(x);
    proof {
        if x.len() > 0 && (x[0] == '+' || x[0] == '-') {
            assert(d =~= s@.subrange(a as int, to as int));
        } else {
            assert(d =~= s@.subrange(a as int, to as int));
        }
        assert(forall|k: int| 0 <= k < d.len() ==> d[k] == s@[k + a]);
    }
    if a == to {
        return false;
    }
    let mut i: usize = a;
    while i < to
        invariant
            a <= i <= to <= s@.len(),
            from <= to,
            x == s@.subrange(from as int, to as int),
            d == spec_strip_sign(x),
            d.len() == to - a,
            forall|k: int| 0 <= k < d.len() ==> d[k] == s@[k + a],
            forall|k: int| 0 <= k < i - a ==> spec_is_digit(d[k]),
        decreases to - i,
    {
        if !is_digit_char(s.get_char(i)) {
            assert(!spec_is_digit(d[i - a]));
            return false;
        }
        i += 1;
    }
    true
}

/// The first `n` of `parts`, joined with single spaces.
pub open spec fn spec_join(parts: Seq<Seq<char>>, n: int) -> Seq<char>
    decreases n,
{
    if n <= 0 {
        Seq::empty()
    } else if n == 1 {
        parts[0]
    } else {
        spec_join(parts, n - 1) + seq![' '] + parts[n - 1]
    }
}

/// Joins the strings with single spaces, as a command line is assembled
/// from its words.
pub fn join_spaces(parts: &Vec<String>) -> (r: String)
    ensures
        r@ == spec_join(views_of(parts@), parts@.len() as int),
{
    let mut r = String::new();
    let mut i: usize = 0;
    while i < parts.len()
        invariant
            i <= parts@.len(),
            r@ == spec_join(views_of(parts@), i as int),
        decreases parts@.len() - i,
    {
        if i > 0 {
            r.append(" ");
            proof {
                reveal_strlit(" ");
                assert(" "@ =~= seq![' ']);
            }
        }
        r.append(parts[i].as_str());
        proof {
            assert(views_of(parts@)[i as int] == parts@[i as int]@);
        }
        i += 1;
    }
    r
}

/// A line with a trailing carriage return removed.
pub open spec fn spec_strip_cr(t: Seq<char>) -> Seq<char> {
    if t.len() > 0 && t[t.len() - 1] == '\r' {
        t.drop_last()
    } else {
        t
    }
}

/// The lines of `s`: split on `'\n'`, a trailing `'\r'` removed from each
/// line, and the empty tail after a final `'\n'` dropped, as a buffered
/// line reader yields them.
pub open spec fn spec_lines(s: Seq<char>) -> Seq<Seq<char>> {
    if s.len() == 0 {
        Seq::empty()
    } else {
        let raw = spec_split(s, '\n');
        let cut = if raw.last().len() == 0 {
            raw.drop_last()
        } else {
            raw
        };
        cut.map_values(|t: Seq<char>| spec_strip_cr(t))
    }
}

/// Splits `s` into lines, per [`spec_lines`].
pub fn split_lines(s: &str) -> (r: Vec<String>)
    ensures
        views_of(r@) == spec_lines(s@),
{
    if s.unicode_len() == 0 {
        let r: Vec<String> = Vec::new();
        proof {
            assert(views_of(r@) =~= spec_lines(s@));
        }
        return r;
    }
    let mut r = split_on(s, '\n');
    let ghost raw = spec_split(s@, '\n');
    proof {
        assert(raw.len() > 0);
        assert(views_of(r@).len() == r@.len());
        assert(r@[r@.len() - 1]@ == raw.last());
    }
    if r[r.len() - 1].as_str().unicode_len() == 0 {
        r.pop();
        proof {
            assert(views_of(r@) =~= raw.drop_last());
        }
    }
    let ghost cut = views_of(r@);
    let mut i: usize = 0;
    while i < r.len()
        invariant
            i <= r@.len(),
            r@.len() == cut.len(),
            forall|k: int| i <= k < r@.len() ==> r@[k]@ == cut[k],
            forall|k: int| 0 <= k < i ==> r@[k]@ == spec_strip_cr(cut[k]),
        decreases r@.len() - i,
    {
        let line = &r[i];
        let m = line.as_str().unicode_len();
        if m > 0 {
            let c = line.as_str().get_char(m - 1);
            if c == '\r' {
                let stripped = line.as_str().substring_char(0, m - 1).to_owned();
                proof {
                    assert(stripped@ =~= spec_strip_cr(cut[i as int]));
                }
                r.set(i, stripped);
            }
        }
        i += 1;
    }
    proof {
        assert(views_of(r@) =~= cut.map_values(|t: Seq<char>| spec_strip_cr(t)));
        assert(views_of(r@) =~= spec_lines(s@));
    }
    r
}

fn is_exp_char(c: char) -> (r: bool)
    ensures
        r == (c == 'e' || c == 'E'),
{
    c == 'e' || c == 'E'
}

/// Decides whether `s` parses as a decimal floating-point number, per
/// [`spec_is_number`].
pub fn is_number(s: &str) -> (r: bool)
    ensures
        r == spec_is_number(s@),
{
    let n = s.unicode_len();
    let mut a: usize = 0;
    if n > 0 {
        let c = s.get_char(0);
        if c == '+' || c == '-' {
            a = 1;
        }
    }
    let ghost b = spec_strip_sign(s@);
    proof {
        assert(b =~= s@.skip(a as int));
    }
    let kw_inf: Vec<char> = vec!['i', 'n', 'f'];
    let kw_infinity: Vec<char> = vec!['i', 'n', 'f', 'i', 'n', 'i', 't', 'y'];
    let kw_nan: Vec<char> = vec!['n', 'a', 'n'];
    proof {
        assert(kw_inf@ =~= seq!['i', 'n', 'f']);
        assert(kw_infinity@ =~= seq!['i', 'n', 'f', 'i', 'n', 'i', 't', 'y']);
        assert(kw_nan@ =~= seq!['n', 'a', 'n']);
    }
    if tail_matches_ci(s, a, &kw_inf) || tail_matches_ci(s, a, &kw_infinity)
        || tail_matches_ci(s, a, &kw_nan) {
        return true;
    }
    // find the first `e` or `E` after the sign
    let mut j: usize = a;
    while j < n && !is_exp_char(s.get_char(j))
        invariant
            a <= j <= n,
            n == s@.len(),
            forall|k: int| a <= k < j ==> s@[k] != 'e' && s@[k] != 'E',
        decreases n - j,
    {
        j += 1;
    }
    proof {
        assert(forall|k: int| 0 <= k < b.len() ==> b[k] == s@[k + a]);
        lemma_first_either(b, 'e', 'E');
        let f = first_either(b, 'e', 'E');
        if j < n {
            assert(b[j - a] == s@[j as int]);
            if f < 0 {
                assert(false);
            }
            if f < j - a {
                assert(s@[f + a] != 'e' && s@[f + a] != 'E');
                assert(false);
            }
            if f > j - a {
                assert(b[j - a] != 'e' && b[j - a] != 'E');
                assert(false);
            }
            assert(f == j - a);
        } else {
            if f >= 0 {
                assert(s@[f + a] != 'e' && s@[f + a] != 'E');
                assert(false);
            }
        }
    }
    if j < n {
        let ghost f = first_either(b, 'e', 'E');
        proof {
            assert(b.take(f) =~= s@.subrange(a as int, j as int));
            assert(b.skip(f + 1) =~= s@.subrange(j + 1, n as int));
        }
        is_mantissa_range(s, a, j) && is_exponent_range(s, j + 1, n)
    } else {
        proof {
            assert(b =~= s@.subrange(a as int, n as int));
        }
        is_mantissa_range(s, a, n)
    }
}

} // verus!

