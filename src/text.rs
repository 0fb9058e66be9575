use vstd::prelude::*;

verus! {

/// A string with the characters of `s`.
pub fn text(s: &str) -> (r: String)
    ensures
        r@ == s@,
{
    String::from_str(s)
}

/// `a` followed by `b`.
pub fn joined(a: &str, b: &str) -> (r: String)
    ensures
        r@ == a@ + b@,
{
    let mut r = String::from_str(a);
    r.append(b);
    r
}

/// The character contents of each string.
pub open spec fn views_of(v: Seq<String>) -> Seq<Seq<char>> {
    v.map_values(|t: String| t@)
}

/// The characters with the Unicode `White_Space` property, those for which
/// `char::is_whitespace` holds.
pub open spec fn is_space(c: char) -> bool {
    ('\u{9}' <= c && c <= '\u{D}') || c == ' ' || c == '\u{85}' || c == '\u{A0}' || c == '\u{1680}'
        || ('\u{2000}' <= c && c <= '\u{200A}') || c == '\u{2028}' || c == '\u{2029}' || c == '\u{202F}'
        || c == '\u{205F}' || c == '\u{3000}'
}

/// Whether `c` is whitespace.
pub fn is_space_char(c: char) -> (r: bool)
    ensures
        r == is_space(c),
{
    ('\u{9}' <= c && c <= '\u{D}') || c == ' ' || c == '\u{85}' || c == '\u{A0}' || c == '\u{1680}'
        || ('\u{2000}' <= c && c <= '\u{200A}') || c == '\u{2028}' || c == '\u{2029}' || c == '\u{202F}'
        || c == '\u{205F}' || c == '\u{3000}'
}

/// A line without its trailing carriage return.
pub open spec fn strip_cr(l: Seq<char>) -> Seq<char> {
    if l.len() > 0 && l.last() == '\r' {
        l.drop_last()
    } else {
        l
    }
}

/// The finished lines of `s` and the unfinished tail after its last newline.
pub open spec fn line_scan(s: Seq<char>) -> (Seq<Seq<char>>, Seq<char>)
    decreases s.len(),
{
    if s.len() == 0 {
        (seq![], seq![])
    } else {
        let (done, cur) = line_scan(s.drop_last());
        if s.last() == '\n' {
            (done.push(strip_cr(cur)), seq![])
        } else {
            (done, cur.push(s.last()))
        }
    }
}

/// The lines of `s`: split at each newline, each without a trailing carriage
/// return; a final newline ends the last line and opens no new one.
pub open spec fn lines_of(s: Seq<char>) -> Seq<Seq<char>> {
    let (done, cur) = line_scan(s);
    if cur.len() > 0 {
        done.push(strip_cr(cur))
    } else {
        done
    }
}

/// The finished words of `s` and the word still being read at its end.
pub open spec fn word_scan(s: Seq<char>) -> (Seq<Seq<char>>, Seq<char>)
    decreases s.len(),
{
    if s.len() == 0 {
        (seq![], seq![])
    } else {
        let (done, cur) = word_scan(s.drop_last());
        if is_space(s.last()) {
            if cur.len() > 0 {
                (done.push(cur), seq![])
            } else {
                (done, seq![])
            }
        } else {
            (done, cur.push(s.last()))
        }
    }
}

/// The maximal runs of non-space characters of `s`, in order.
pub open spec fn words_of(s: Seq<char>) -> Seq<Seq<char>> {
    let (done, cur) = word_scan(s);
    if cur.len() > 0 {
        done.push(cur)
    } else {
        done
    }
}

/// The characters of `s` in a vector.
pub fn chars_of(s: &str) -> (r: Vec<char>)
    ensures
        r@ == s@,
{
    let n = s.unicode_len();
    let mut r: Vec<char> = Vec::new();
    let mut i: usize = 0;
    while i < n
        invariant
            n == s@.len(),
            i <= n,
            r@ == s@.subrange(0, i as int),
        decreases n - i,
    {
        r.push(s.get_char(i));
        i = i + 1;
        assert(r@ =~= s@.subrange(0, i as int));
    }
    r
}

/// The characters `s[from..to]` as a string.
pub fn slice_string(s: &str, from: usize, to: usize) -> (r: String)
    requires
        from <= to <= s@.len(),
    ensures
        r@ == s@.subrange(from as int, to as int),
{
    String::from_str(s.substring_char(from, to))
}

/// Splits `s` into its lines.
pub fn split_lines(s: &str) -> (r: Vec<String>)
    ensures
        views_of(r@) == lines_of(s@),
{
    let cs = chars_of(s);
    let n = cs.len();
    let mut out: Vec<String> = Vec::new();
    let mut start: usize = 0;
    let mut i: usize = 0;
    while i < n
        invariant
            n == s@.len(),
            cs@ == s@,
            start <= i <= n,
            line_scan(s@.subrange(0, i as int)) == (views_of(out@), s@.subrange(start as int, i as int)),
        decreases n - i,
    {
        let ghost pre = s@.subrange(0, i as int);
        assert(s@.subrange(0, i + 1).drop_last() =~= pre);
        if cs[i] == '\n' {
            let end = if i > start && cs[i - 1] == '\r' { i - 1 } else { i };
            let line = slice_string(s, start, end);
            proof {
                let cur = s@.subrange(start as int, i as int);
                assert(strip_cr(cur) =~= s@.subrange(start as int, end as int));
            }
            let ghost ov = views_of(out@);
            out.push(line);
            assert(views_of(out@) =~= ov.push(s@.subrange(start as int, end as int)));
            start = i + 1;
        } else {
            assert(s@.subrange(start as int, i + 1) =~= s@.subrange(start as int, i as int).push(cs@[i as int]));
        }
        i = i + 1;
    }
    assert(s@.subrange(0, n as int) =~= s@);
    if start < n {
        let end = if cs[n - 1] == '\r' { n - 1 } else { n };
        proof {
            let cur = s@.subrange(start as int, n as int);
            assert(strip_cr(cur) =~= s@.subrange(start as int, end as int));
        }
        let ghost ov = views_of(out@);
        out.push(slice_string(s, start, end));
        assert(views_of(out@) =~= ov.push(s@.subrange(start as int, end as int)));
    }
    out
}


/// Splits `s` at runs of whitespace.
pub fn split_words(s: &str) -> (r: Vec<String>)
    ensures
        views_of(r@) == words_of(s@),
{
    let cs = chars_of(s);
    let n = cs.len();
    let mut out: Vec<String> = Vec::new();
    let mut start: usize = 0;
    let mut i: usize = 0;
    while i < n
        invariant
            n == s@.len(),
            cs@ == s@,
            start <= i <= n,
            word_scan(s@.subrange(0, i as int)) == (views_of(out@), s@.subrange(start as int, i as int)),
        decreases n - i,
    {
        let ghost pre = s@.subrange(0, i as int);
        assert(s@.subrange(0, i + 1).drop_last() =~= pre);
        let c = cs[i];
        if is_space_char(c) {
            if start < i {
                let ghost ov = views_of(out@);
                out.push(slice_string(s, start, i));
                assert(views_of(out@) =~= ov.push(s@.subrange(start as int, i as int)));
            }
            start = i + 1;
            assert(s@.subrange(start as int, i + 1) =~= seq![]);
        } else {
            assert(s@.subrange(start as int, i + 1) =~= s@.subrange(start as int, i as int).push(c));
        }
        i = i + 1;
    }
    assert(s@.subrange(0, n as int) =~= s@);
    if start < n {
        let ghost ov = views_of(out@);
        out.push(slice_string(s, start, n));
        assert(views_of(out@) =~= ov.push(s@.subrange(start as int, n as int)));
    }
    out
}

pub open spec fn is_digit(c: char) -> bool {
    '0' <= c && c <= '9'
}

pub open spec fn digit_value(c: char) -> nat {
    (c as nat - '0' as nat) as nat
}

pub open spec fn all_digits(s: Seq<char>) -> bool {
    forall|i: int| 0 <= i < s.len() ==> is_digit(#[trigger] s[i])
}

/// The number that the decimal digits `s` write.
pub open spec fn digits_value(s: Seq<char>) -> nat
    decreases s.len(),
{
    if s.len() == 0 {
        0
    } else {
        digits_value(s.drop_last()) * 10 + digit_value(s.last())
    }
}

/// Whether `s` is a non-empty run of decimal digits whose value is at most `max`.
pub open spec fn is_number_text(s: Seq<char>, max: nat) -> bool {
    s.len() > 0 && all_digits(s) && digits_value(s) <= max
}

proof fn lemma_digits_grow(s: Seq<char>, i: int, j: int)
    requires
        0 <= i <= j <= s.len(),
        all_digits(s),
    ensures
        digits_value(s.subrange(0, i)) <= digits_value(s.subrange(0, j)),
    decreases j - i,
{
    if i < j {
        lemma_digits_grow(s, i, j - 1);
        assert(s.subrange(0, j).drop_last() =~= s.subrange(0, j - 1));
    }
}

/// Reads the decimal number written by `cs[from..to]`, if it is one and at most `max`.
pub fn digits_in(cs: &Vec<char>, from: usize, to: usize, max: u64) -> (r: Option<u64>)
    requires
        from <= to <= cs@.len(),
    ensures
        match r {
            Some(v) => is_number_text(cs@.subrange(from as int, to as int), max as nat)
                && v == digits_value(cs@.subrange(from as int, to as int)),
            None => !is_number_text(cs@.subrange(from as int, to as int), max as nat),
        },
{
    let ghost t = cs@.subrange(from as int, to as int);
    if from == to {
        return None;
    }
    let mut v: u64 = 0;
    let mut i: usize = from;
    while i < to
        invariant
            from <= i <= to <= cs@.len(),
            t == cs@.subrange(from as int, to as int),
            v <= max,
            all_digits(cs@.subrange(from as int, i as int)),
            v == digits_value(cs@.subrange(from as int, i as int)),
        decreases to - i,
    {
        let c = cs[i];
        let ghost pre = cs@.subrange(from as int, i as int);
        let ghost next = cs@.subrange(from as int, i + 1);
        assert(next.drop_last() =~= pre);
        if !('0' <= c && c <= '9') {
            assert(t[i - from] == c);
            return None;
        }
        let dg: u64 = (c as u32 - '0' as u32) as u64;
        assert(all_digits(next)) by {
            assert forall|k: int| 0 <= k < next.len() implies is_digit(#[trigger] next[k]) by {
                if k < pre.len() {
                    assert(next[k] == pre[k]);
                }
            }
        }
        if dg > max || v > (max - dg) / 10 {
            proof {
                if dg <= max {
                    assert(v * 10 + dg > max) by (nonlinear_arith)
                        requires
                            v > (max - dg) / 10,
                            dg <= max,
                    ;
                }
                if all_digits(t) {
                    assert(next =~= t.subrange(0, i + 1 - from));
                    assert(t =~= t.subrange(0, t.len() as int));
                    lemma_digits_grow(t, i + 1 - from, t.len() as int);
                }
            }
            return None;
        }
        proof {
            assert(v * 10 + dg <= max) by (nonlinear_arith)
                requires
                    v <= (max - dg) / 10,
                    dg <= max,
            ;
        }
        v = v * 10 + dg;
        i = i + 1;
    }
    Some(v)
}


/// The value, in hundredths, of a decimal written as digits optionally
/// followed by a point and one or two digits.
pub open spec fn centi_value(s: Seq<char>) -> Option<nat> {
    let n = s.len();
    if n >= 4 && s[n - 3] == '.' {
        let (a, b) = (s.subrange(0, n - 3), s.subrange(n - 2, n as int));
        if all_digits(a) && all_digits(b) {
            Some(digits_value(a) * 100 + digits_value(b))
        } else {
            None
        }
    } else if n >= 3 && s[n - 2] == '.' {
        let (a, b) = (s.subrange(0, n - 2), s.subrange(n - 1, n as int));
        if all_digits(a) && all_digits(b) {
            Some(digits_value(a) * 100 + digits_value(b) * 10)
        } else {
            None
        }
    } else if n > 0 && all_digits(s) {
        Some(digits_value(s) * 100)
    } else {
        None
    }
}

/// Whether `s` is a decimal that `centi_value` reads and whose value fits in a `u64`.
pub open spec fn is_centi_text(s: Seq<char>) -> bool {
    centi_value(s) is Some && centi_value(s).unwrap() <= u64::MAX
}

proof fn lemma_short_digits(b: Seq<char>)
    requires
        b.len() <= 2,
        all_digits(b),
    ensures
        digits_value(b) <= 99,
        b.len() <= 1 ==> digits_value(b) <= 9,
{
    if b.len() > 0 {
        let p = b.drop_last();
        assert(is_digit(b[b.len() - 1]));
        assert(digit_value(b.last()) <= 9);
        if p.len() > 0 {
            assert(p.drop_last().len() == 0);
            assert(digits_value(p.drop_last()) == 0);
            assert(p[0] == b[0]);
            assert(is_digit(b[0]));
            assert(digit_value(p.last()) <= 9);
            assert(digits_value(p) <= 9);
        } else {
            assert(digits_value(p) == 0);
        }
    }
}

/// `a * m + b`, where `a` reads the digits `cs[from..mid]`, if it fits in a `u64`.
fn combine_scaled(cs: &Vec<char>, from: usize, mid: usize, m: u64, b: u64) -> (r: Option<u64>)
    requires
        from < mid <= cs@.len(),
        1 <= m <= 100,
        b <= 99,
    ensures
        all_digits(cs@.subrange(from as int, mid as int)) ==> match r {
            Some(v) => v == digits_value(cs@.subrange(from as int, mid as int)) * m + b,
            None => digits_value(cs@.subrange(from as int, mid as int)) * m + b > u64::MAX,
        },
        !all_digits(cs@.subrange(from as int, mid as int)) ==> r is None,
{
    let lim: u64 = 18446744073709551615u64 / m;
    match digits_in(cs, from, mid, lim) {
        None => {
            proof {
                let a = cs@.subrange(from as int, mid as int);
                if all_digits(a) {
                    let x = digits_value(a);
                    assert(x > lim);
                    assert(x * m + b > u64::MAX) by (nonlinear_arith)
                        requires
                            x > lim,
                            lim == 18446744073709551615u64 / m,
                            1 <= m,
                    ;
                }
            }
            None
        },
        Some(a) => {
            proof {
                assert(a * m <= 18446744073709551615u64) by (nonlinear_arith)
                    requires
                        a <= lim,
                        lim == 18446744073709551615u64 / m,
                        1 <= m,
                ;
            }
            let am = a * m;
            if am > 18446744073709551615u64 - b {
                None
            } else {
                Some(am + b)
            }
        },
    }
}

/// Reads the decimal `cs[from..to]` in hundredths, if `is_centi_text` holds of it.
pub fn centi_in(cs: &Vec<char>, from: usize, to: usize) -> (r: Option<u64>)
    requires
        from <= to <= cs@.len(),
    ensures
        match r {
            Some(v) => is_centi_text(cs@.subrange(from as int, to as int))
                && v == centi_value(cs@.subrange(from as int, to as int)).unwrap(),
            None => !is_centi_text(cs@.subrange(from as int, to as int)),
        },
{
    let ghost s = cs@.subrange(from as int, to as int);
    let n = to - from;
    if n >= 4 && cs[to - 3] == '.' {
        assert(s[n - 3] == cs@[to - 3]);
        assert(s.subrange(0, n - 3) =~= cs@.subrange(from as int, to - 3));
        assert(s.subrange(n - 2, n as int) =~= cs@.subrange(to - 2, to as int));
        match digits_in(cs, to - 2, to, 99) {
            None => {
                proof {
                    let b = cs@.subrange(to - 2, to as int);
                    if all_digits(b) {
                        lemma_short_digits(b);
                    }
                }
                None
            },
            Some(b) => combine_scaled(cs, from, to - 3, 100, b),
        }
    } else if n >= 3 && cs[to - 2] == '.' {
        assert(s[n - 2] == cs@[to - 2]);
        assert(s.subrange(0, n - 2) =~= cs@.subrange(from as int, to - 2));
        assert(s.subrange(n - 1, n as int) =~= cs@.subrange(to - 1, to as int));
        match digits_in(cs, to - 1, to, 9) {
            None => {
                proof {
                    let b = cs@.subrange(to - 1, to as int);
                    if all_digits(b) {
                        lemma_short_digits(b);
                    }
                }
                None
            },
            Some(b) => combine_scaled(cs, from, to - 2, 100, b * 10),
        }
    } else {
        if n >= 4 {
            assert(s[n - 3] == cs@[to - 3]);
        }
        if n >= 3 {
            assert(s[n - 2] == cs@[to - 2]);
        }
        if n == 0 {
            return None;
        }
        combine_scaled(cs, from, to, 100, 0)
    }
}


/// The character of a decimal digit.
pub open spec fn digit_char(d: nat) -> char {
    if d == 0 { '0' } else if d == 1 { '1' } else if d == 2 { '2' } else if d == 3 { '3' } else if d == 4 { '4' }
    else if d == 5 { '5' } else if d == 6 { '6' } else if d == 7 { '7' } else if d == 8 { '8' } else { '9' }
}

/// The decimal digits of `n`, without leading zeros.
pub open spec fn decimal_of(n: nat) -> Seq<char>
    decreases n,
{
    if n < 10 {
        seq![digit_char(n)]
    } else {
        decimal_of(n / 10).push(digit_char(n % 10))
    }
}

fn digit_text(d: u64) -> (r: &'static str)
    requires
        d < 10,
    ensures
        r@ == seq![digit_char(d as nat)],
{
    proof {
        reveal_strlit("0");
        reveal_strlit("1");
        reveal_strlit("2");
        reveal_strlit("3");
        reveal_strlit("4");
        reveal_strlit("5");
        reveal_strlit("6");
        reveal_strlit("7");
        reveal_strlit("8");
        reveal_strlit("9");
    }
    let r = if d == 0 { "0" } else if d == 1 { "1" } else if d == 2 { "2" } else if d == 3 { "3" }
    else if d == 4 { "4" } else if d == 5 { "5" } else if d == 6 { "6" } else if d == 7 { "7" }
    else if d == 8 { "8" } else { "9" };
    assert(r@ =~= seq![digit_char(d as nat)]);
    r
}

/// Writes `n` in decimal.
pub fn decimal_text(n: u64) -> (r: String)
    ensures
        r@ == decimal_of(n as nat),
    decreases n,
{
    if n < 10 {
        String::from_str(digit_text(n))
    } else {
        let mut r = decimal_text(n / 10);
        r.append(digit_text(n % 10));
        r
    }
}

/// Whether `pat` occurs in `s` starting at `i`.
pub open spec fn occurs_at(s: Seq<char>, pat: Seq<char>, i: int) -> bool {
    0 <= i && i + pat.len() <= s.len() && s.subrange(i, i + pat.len()) == pat
}

/// Whether `pat` occurs in `s`.
pub open spec fn has_sub(s: Seq<char>, pat: Seq<char>) -> bool {
    exists|i: int| occurs_at(s, pat, i)
}

/// Whether `pat` occurs in `s`.
pub fn contains_text(s: &str, pat: &str) -> (r: bool)
    ensures
        r == has_sub(s@, pat@),
{
    let cs = chars_of(s);
    let ps = chars_of(pat);
    let n = cs.len();
    let m = ps.len();
    if m > n {
        assert forall|i: int| !occurs_at(s@, pat@, i) by {}
        return false;
    }
    let mut i: usize = 0;
    while i <= n - m
        invariant
            cs@ == s@,
            ps@ == pat@,
            n == s@.len(),
            m == pat@.len(),
            m <= n,
            i <= n - m + 1,
            forall|k: int| 0 <= k < i ==> !#[trigger] occurs_at(s@, pat@, k),
        decreases n - m + 1 - i,
    {
        let mut j: usize = 0;
        while j < m && cs[i + j] == ps[j]
            invariant
                cs@ == s@,
                ps@ == pat@,
                n == s@.len(),
                m == pat@.len(),
                i + m <= n,
                j <= m,
                forall|t: int| 0 <= t < j ==> s@[i + t] == pat@[t],
            decreases m - j,
        {
            j = j + 1;
        }
        if j == m {
            assert(s@.subrange(i as int, i + m) =~= pat@);
            assert(occurs_at(s@, pat@, i as int));
            return true;
        }
        assert(s@.subrange(i as int, i + m)[j as int] != pat@[j as int]);
        i = i + 1;
    }
    assert forall|k: int| !occurs_at(s@, pat@, k) by {
        if 0 <= k < i {
        }
    }
    false
}

} // verus!
