//! Character-sequence helpers shared by the extractor and the validator.
use vstd::prelude::*;

verus! {

/// Unicode `White_Space` property, as `char::is_whitespace` reports it.
pub open spec fn is_ws(c: char) -> bool {
    let u = c as u32;
    u == 0x20 || (0x09 <= u && u <= 0x0d) || u == 0x85 || u == 0xa0 || u == 0x1680
        || (0x2000 <= u && u <= 0x200a) || u == 0x2028 || u == 0x2029 || u == 0x202f
        || u == 0x205f || u == 0x3000
}

pub fn is_whitespace(c: char) -> (r: bool)
    ensures
        r == is_ws(c),
{
    let u = c as u32;
    u == 0x20 || (0x09 <= u && u <= 0x0d) || u == 0x85 || u == 0xa0 || u == 0x1680
        || (0x2000 <= u && u <= 0x200a) || u == 0x2028 || u == 0x2029 || u == 0x202f
        || u == 0x205f || u == 0x3000
}

/// ASCII lower-casing of one character; other characters are kept.
pub open spec fn lower_char(c: char) -> char {
    if 'A' <= c && c <= 'Z' {
        ((c as u8) + 32u8) as char
    } else {
        c
    }
}

pub open spec fn lower(s: Seq<char>) -> Seq<char> {
    s.map_values(|c: char| lower_char(c))
}

pub fn to_lower_char(c: char) -> (r: char)
    ensures
        r == lower_char(c),
{
    if 'A' <= c && c <= 'Z' {
        ((c as u8) + 32u8) as char
    } else {
        c
    }
}

pub open spec fn trim_start(s: Seq<char>) -> Seq<char>
    decreases s.len(),
{
    if s.len() > 0 && is_ws(s[0]) {
        trim_start(s.drop_first())
    } else {
        s
    }
}

pub open spec fn trim_end(s: Seq<char>) -> Seq<char>
    decreases s.len(),
{
    if s.len() > 0 && is_ws(s.last()) {
        trim_end(s.drop_last())
    } else {
        s
    }
}

/// `str::trim`: leading and trailing whitespace removed.
pub open spec fn trim(s: Seq<char>) -> Seq<char> {
    trim_end(trim_start(s))
}

/// `p` occurs in `s` as a contiguous run.
pub open spec fn has_sub(s: Seq<char>, p: Seq<char>) -> bool {
    exists|i: int| 0 <= i && i + p.len() <= s.len() && #[trigger] s.subrange(i, i + p.len()) == p
}

/// The characters of `s`, one by one.
pub fn chars_of(s: &str) -> (r: Vec<char>)
    ensures
        r@ == s@,
{
    let n = s.unicode_len();
    let mut r: Vec<char> = Vec::new();
    let mut i: usize = 0;
    while i < n
        invariant
            n == s@.len(),
            i <= n,
            r@ == s@.subrange(0, i as int),
        decreases n - i,
    {
        r.push(s.get_char(i));
        i += 1;
    }
    r
}

/// Relies on `String`'s `FromIterator<&char>`: the string holds exactly the
/// given characters, in order.
#[verifier::external_body]
pub(crate) fn string_of(v: &[char]) -> (r: String)
    ensures
        r@ == v@,
{
    v.iter().collect()
}

/// A copy of `s[a..b]`.
pub fn sub_vec(s: &Vec<char>, a: usize, b: usize) -> (r: Vec<char>)
    requires
        a <= b <= s@.len(),
    ensures
        r@ == s@.subrange(a as int, b as int),
{
    let mut r: Vec<char> = Vec::new();
    let mut i: usize = a;
    while i < b
        invariant
            a <= i <= b,
            b <= s@.len(),
            r@ == s@.subrange(a as int, i as int),
        decreases b - i,
    {
        r.push(s[i]);
        i += 1;
    }
    r
}

/// The bounds of `trim(s[a..b])` inside `s`.
pub fn trim_bounds(s: &Vec<char>, a: usize, b: usize) -> (r: (usize, usize))
    requires
        a <= b <= s@.len(),
    ensures
        a <= r.0 <= r.1 <= b,
        s@.subrange(r.0 as int, r.1 as int) == trim(s@.subrange(a as int, b as int)),
{
    let mut i: usize = a;
    while i < b && is_whitespace(s[i])
        invariant
            a <= i <= b,
            b <= s@.len(),
            trim_start(s@.subrange(a as int, b as int)) == trim_start(s@.subrange(i as int, b as int)),
        decreases b - i,
    {
        assert(s@.subrange(i as int, b as int).drop_first() =~= s@.subrange(i + 1, b as int));
        i += 1;
    }
    let mut j: usize = b;
    while j > i && is_whitespace(s[j - 1])
        invariant
            a <= i <= j <= b,
            b <= s@.len(),
            trim_start(s@.subrange(a as int, b as int)) == s@.subrange(i as int, b as int),
            trim_end(s@.subrange(i as int, b as int)) == trim_end(s@.subrange(i as int, j as int)),
            i < j ==> !is_ws(s@[i as int]),
        decreases j - i,
    {
        assert(s@.subrange(i as int, j as int).drop_last() =~= s@.subrange(i as int, j - 1));
        j -= 1;
    }
    (i, j)
}

/// `trim(s)`, as a new vector.
pub fn trim_vec(s: &Vec<char>) -> (r: Vec<char>)
    ensures
        r@ == trim(s@),
{
    let (i, j) = trim_bounds(s, 0, s.len());
    assert(s@.subrange(0, s@.len() as int) =~= s@);
    sub_vec(s, i, j)
}

/// `s` with ASCII capitals lowered.
pub fn lower_vec(s: &Vec<char>) -> (r: Vec<char>)
    ensures
        r@ == lower(s@),
{
    let mut r: Vec<char> = Vec::new();
    let mut i: usize = 0;
    while i < s.len()
        invariant
            i <= s@.len(),
            r@ == lower(s@.subrange(0, i as int)),
        decreases s@.len() - i,
    {
        r.push(to_lower_char(s[i]));
        i += 1;
        assert(lower(s@.subrange(0, i as int)) =~= lower(s@.subrange(0, i - 1)).push(lower_char(s@[i - 1])));
    }
    assert(s@.subrange(0, s@.len() as int) =~= s@);
    r
}

/// Whether `p` occurs in `s`.
pub fn contains(s: &Vec<char>, p: &Vec<char>) -> (r: bool)
    ensures
        r == has_sub(s@, p@),
{
    if p.len() > s.len() {
        return false;
    }
    let n: usize = s.len();
    let last: usize = n - p.len();
    let mut i: usize = 0;
    while i <= last
        invariant
            last == s@.len() - p@.len(),
            p@.len() <= s@.len(),
            n == s@.len(),
            i <= last + 1,
            forall|k: int| 0 <= k < i ==> #[trigger] s@.subrange(k, k + p@.len()) != p@,
        decreases last + 1 - i,
    {
        let mut j: usize = 0;
        while j < p.len() && s[i + j] == p[j]
            invariant
                i <= last,
                last == s@.len() - p@.len(),
                p@.len() <= s@.len(),
                n == s@.len(),
                j <= p@.len(),
                forall|t: int| 0 <= t < j ==> s@[i + t] == p@[t],
            decreases p@.len() - j,
        {
            j += 1;
        }
        if j == p.len() {
            assert(s@.subrange(i as int, i + p@.len()) =~= p@);
            return true;
        }
        assert(s@.subrange(i as int, i + p@.len())[j as int] != p@[j as int]);
        i += 1;
    }
    proof {
        assert forall|k: int| 0 <= k && k + p@.len() <= s@.len() implies #[trigger] s@.subrange(k, k + p@.len()) != p@ by {
            assert(k < i);
        }
    }
    false
}

/// A carriage return that ends a line is not part of it.
pub open spec fn strip_cr(s: Seq<char>) -> Seq<char> {
    if s.len() > 0 && s.last() == '\r' {
        s.drop_last()
    } else {
        s
    }
}

/// Lines completed so far, and the unfinished last one.
pub open spec fn lines_acc(s: Seq<char>) -> (Seq<Seq<char>>, Seq<char>)
    decreases s.len(),
{
    if s.len() == 0 {
        (seq![], seq![])
    } else {
        let (done, cur) = lines_acc(s.drop_last());
        if s.last() == '\n' {
            (done.push(strip_cr(cur)), seq![])
        } else {
            (done, cur.push(s.last()))
        }
    }
}

/// `str::lines`: split at `\n` (dropping a `\r` before it); a final empty
/// line is not produced.
pub open spec fn lines(s: Seq<char>) -> Seq<Seq<char>> {
    let (done, cur) = lines_acc(s);
    if cur.len() > 0 {
        done.push(cur)
    } else {
        done
    }
}

pub fn split_lines(s: &Vec<char>) -> (r: Vec<Vec<char>>)
    ensures
        r.deep_view() == lines(s@),
{
    let n: usize = s.len();
    let mut done: Vec<Vec<char>> = Vec::new();
    let mut cur: Vec<char> = Vec::new();
    let mut i: usize = 0;
    while i < n
        invariant
            n == s@.len(),
            i <= n,
            (done.deep_view(), cur@) == lines_acc(s@.subrange(0, i as int)),
        decreases n - i,
    {
        let c = s[i];
        assert(s@.subrange(0, i + 1).drop_last() =~= s@.subrange(0, i as int));
        if c == '\n' {
            let ln: usize = cur.len();
            let line = if ln > 0 && cur[ln - 1] == '\r' {
                sub_vec(&cur, 0, ln - 1)
            } else {
                sub_vec(&cur, 0, ln)
            };
            proof {
                assert(cur@.subrange(0, ln as int) =~= cur@);
            }
            let ghost old_done = done.deep_view();
            assert(line.deep_view() =~= line@);
            done.push(line);
            assert(done.deep_view() =~= old_done.push(strip_cr(cur@)));
            cur = Vec::new();
        } else {
            cur.push(c);
        }
        i += 1;
    }
    assert(s@.subrange(0, n as int) =~= s@);
    if cur.len() > 0 {
        let ghost old_done = done.deep_view();
        let ghost c = cur@;
        assert(cur.deep_view() =~= cur@);
        done.push(cur);
        assert(done.deep_view() =~= old_done.push(c));
    }
    done
}

pub open spec fn is_digit(c: char) -> bool {
    '0' <= c && c <= '9'
}

pub open spec fn digit_of(c: char) -> nat {
    (c as u32 - 48) as nat
}

pub open spec fn all_digits(s: Seq<char>) -> bool {
    forall|i: int| 0 <= i < s.len() ==> is_digit(#[trigger] s[i])
}

/// The value of a run of decimal digits.
pub open spec fn digits_val(s: Seq<char>) -> nat
    decreases s.len(),
{
    if s.len() == 0 {
        0
    } else {
        digits_val(s.drop_last()) * 10 + digit_of(s.last())
    }
}

/// The first two fractional digits, in hundredths.
pub open spec fn frac_hundredths(f: Seq<char>) -> nat {
    if f.len() >= 2 {
        digits_val(f.subrange(0, 2))
    } else {
        digits_val(f) * 10
    }
}

/// A numeral `D+` or `D+.D+` whose dot stands at `k`.
pub open spec fn dot_split(s: Seq<char>, k: int) -> bool {
    1 <= k && k + 1 < s.len() && s[k] == '.' && all_digits(s.subrange(0, k))
        && all_digits(s.subrange(k + 1, s.len() as int))
}

/// The value, in hundredths, of a numeral `D+` or `D+.D+` (ASCII digits);
/// fractional digits after the second are dropped.
pub open spec fn numeral_value(s: Seq<char>) -> Option<nat> {
    if s.len() > 0 && all_digits(s) {
        Some(digits_val(s) * 100)
    } else if exists|k: int| dot_split(s, k) {
        let k = choose|k: int| dot_split(s, k);
        Some(digits_val(s.subrange(0, k)) * 100 + frac_hundredths(s.subrange(k + 1, s.len() as int)))
    } else {
        None
    }
}

/// The largest amount of points the library reads, in hundredths
/// (ten million points).
pub const MAX_POINTS: u64 = 1_000_000_000;

/// A numeral read as hundredths of a point, when it is at most
/// `MAX_POINTS`.
pub open spec fn points_of(s: Seq<char>) -> Option<u64> {
    match numeral_value(s) {
        Some(v) => if v <= MAX_POINTS {
            Some(v as u64)
        } else {
            None
        },
        None => None,
    }
}

proof fn lemma_digits_mono(s: Seq<char>, i: int, j: int)
    requires
        0 <= i <= j <= s.len(),
    ensures
        digits_val(s.subrange(0, i)) <= digits_val(s.subrange(0, j)),
    decreases j - i,
{
    if i < j {
        lemma_digits_mono(s, i, j - 1);
        assert(s.subrange(0, j).drop_last() =~= s.subrange(0, j - 1));
    }
}

/// Value of the digits `s[a..b]`, or `None` once it passes `cap`.
pub fn digits_upto(s: &Vec<char>, a: usize, b: usize, cap: u64) -> (r: Option<u64>)
    requires
        a <= b <= s@.len(),
        all_digits(s@.subrange(a as int, b as int)),
        cap <= 1_000_000_000_000_000_000,
    ensures
        match r {
            Some(v) => v == digits_val(s@.subrange(a as int, b as int)) && v <= cap,
            None => digits_val(s@.subrange(a as int, b as int)) > cap,
        },
{
    let mut v: u64 = 0;
    let mut i: usize = a;
    while i < b
        invariant
            a <= i <= b <= s@.len(),
            all_digits(s@.subrange(a as int, b as int)),
            cap <= 1_000_000_000_000_000_000,
            v == digits_val(s@.subrange(a as int, i as int)),
            v <= cap,
        decreases b - i,
    {
        assert(s@.subrange(a as int, i + 1).drop_last() =~= s@.subrange(a as int, i as int));
        assert(s@.subrange(a as int, b as int)[i - a] == s@[i as int]);
        let d = (s[i] as u32 - 48) as u64;
        v = v * 10 + d;
        i += 1;
        if v > cap {
            proof {
                lemma_digits_mono(s@.subrange(a as int, b as int), i - a, b - a);
                assert(s@.subrange(a as int, b as int).subrange(0, i - a) =~= s@.subrange(a as int, i as int));
                assert(s@.subrange(a as int, b as int).subrange(0, b - a) =~= s@.subrange(a as int, b as int));
            }
            return None;
        }
    }
    Some(v)
}

/// Reads a numeral `D+` or `D+.D+` as hundredths of a point.
pub fn parse_points(s: &Vec<char>) -> (r: Option<u64>)
    ensures
        r == points_of(s@),
{
    let n: usize = s.len();
    let mut k: usize = 0;
    while k < n && '0' <= s[k] && s[k] <= '9'
        invariant
            k <= n == s@.len(),
            all_digits(s@.subrange(0, k as int)),
        decreases n - k,
    {
        k += 1;
        assert(all_digits(s@.subrange(0, k as int)));
    }
    if k == n {
        if n == 0 {
            return None;
        }
        assert(s@.subrange(0, n as int) =~= s@);
        match digits_upto(s, 0, n, MAX_POINTS / 100) {
            Some(v) => return Some(v * 100),
            None => return None,
        }
    }
    // s[k] is the first character that is not a digit
    if k == 0 || s[k] != '.' || k + 1 == n {
        proof {
            assert(!all_digits(s@));
            assert forall|j: int| !dot_split(s@, j) by {
                if dot_split(s@, j) {
                    if j < k {
                        assert(s@.subrange(0, k as int)[j] == '.');
                    } else if j > k {
                        assert(s@.subrange(0, j)[k as int] == s@[k as int]);
                    }
                }
            }
        }
        return None;
    }
    let mut m: usize = k + 1;
    while m < n && '0' <= s[m] && s[m] <= '9'
        invariant
            k + 1 <= m <= n == s@.len(),
            all_digits(s@.subrange(k + 1, m as int)),
        decreases n - m,
    {
        m += 1;
        assert(all_digits(s@.subrange(k + 1, m as int)));
    }
    proof {
        assert(!all_digits(s@)) by {
            assert(!is_digit(s@[k as int]));
        }
    }
    if m < n {
        proof {
            assert forall|j: int| !dot_split(s@, j) by {
                if dot_split(s@, j) {
                    if j < k {
                        assert(s@.subrange(0, k as int)[j] == '.');
                    } else if j > k {
                        assert(s@.subrange(0, j)[k as int] == s@[k as int]);
                    } else {
                        assert(s@.subrange(k + 1, n as int)[m - k - 1] == s@[m as int]);
                    }
                }
            }
        }
        return None;
    }
    proof {
        assert(dot_split(s@, k as int));
        assert forall|j: int| dot_split(s@, j) implies j == k by {
            if j < k {
                assert(s@.subrange(0, k as int)[j] == '.');
            } else if j > k {
                assert(s@.subrange(0, j)[k as int] == s@[k as int]);
            }
        }
    }
    let ghost f = s@.subrange(k + 1, n as int);
    let ip = match digits_upto(s, 0, k, MAX_POINTS / 100) {
        Some(v) => v,
        None => {
            proof {
                let d = digits_val(s@.subrange(0, k as int));
                assert(d * 100 + frac_hundredths(f) > MAX_POINTS) by (nonlinear_arith)
                    requires d > MAX_POINTS / 100, MAX_POINTS == 1_000_000_000u64;
            }
            return None;
        },
    };
    let fp: u64 = if n - (k + 1) >= 2 {
        assert(s@.subrange(k + 1, n as int).subrange(0, 2) =~= s@.subrange(k + 1, k + 3));
        assert(s@.subrange(k + 1, n as int)[0] == s@[k + 1]);
        assert(s@.subrange(k + 1, n as int)[1] == s@[k + 2]);
        assert(s@.subrange(k + 1, k + 3).drop_last() =~= s@.subrange(k + 1, k + 2));
        assert(s@.subrange(k + 1, k + 2).drop_last() =~= s@.subrange(k + 1, k + 1));
        assert(digits_val(s@.subrange(k + 1, k + 1)) == 0);
        assert(s@.subrange(k + 1, k + 2).last() == s@[k + 1]);
        assert(digits_val(s@.subrange(k + 1, k + 2)) == digit_of(s@[k + 1]));
        assert(digits_val(s@.subrange(k + 1, k + 3)) == digit_of(s@[k + 1]) * 10 + digit_of(s@[k + 2]));
        assert(frac_hundredths(f) == digit_of(s@[k + 1]) * 10 + digit_of(s@[k + 2]));
        (s[k + 1] as u32 - 48) as u64 * 10 + (s[k + 2] as u32 - 48) as u64
    } else {
        assert(s@.subrange(k + 1, n as int)[0] == s@[k + 1]);
        assert(s@.subrange(k + 1, n as int).drop_last() =~= s@.subrange(k + 1, k + 1));
        assert(digits_val(s@.subrange(k + 1, k + 1)) == 0);
        assert(f.last() == s@[k + 1]);
        assert(digits_val(f) == digit_of(s@[k + 1]));
        (s[k + 1] as u32 - 48) as u64 * 10
    };
    let v = ip * 100 + fp;
    assert(numeral_value(s@) == Some((v as nat)));
    if v > MAX_POINTS {
        return None;
    }
    Some(v)
}

pub open spec fn digit_char(d: nat) -> char {
    ((d + 48) as u8) as char
}

/// Decimal digits of `n`, without leading zeros.
pub open spec fn dec_str(n: nat) -> Seq<char>
    decreases n,
{
    if n < 10 {
        seq![digit_char(n)]
    } else {
        dec_str(n / 10).push(digit_char(n % 10))
    }
}

pub fn push_decimal(n: u64, out: &mut Vec<char>)
    ensures
        final(out)@ == old(out)@ + dec_str(n as nat),
    decreases n,
{
    if n >= 10 {
        push_decimal(n / 10, out);
    }
    out.push(((n % 10) as u8 + 48u8) as char);
    assert(final(out)@ =~= old(out)@ + dec_str(n as nat));
}

/// Unicode `Alphabetic` or `Numeric`, as `char::is_alphanumeric` reports it.
pub uninterp spec fn alnum(c: char) -> bool;

/// Relies on `char::is_alphanumeric`: whether the character is alphabetic or
/// numeric.
#[verifier::external_body]
pub(crate) fn is_alphanumeric(c: char) -> (r: bool)
    ensures
        r == alnum(c),
{
    c.is_alphanumeric()
}

/// Words completed so far, and the unfinished last one.
pub open spec fn words_acc(s: Seq<char>) -> (Seq<Seq<char>>, Seq<char>)
    decreases s.len(),
{
    if s.len() == 0 {
        (seq![], seq![])
    } else {
        let (done, cur) = words_acc(s.drop_last());
        if is_ws(s.last()) {
            if cur.len() > 0 {
                (done.push(cur), seq![])
            } else {
                (done, seq![])
            }
        } else {
            (done, cur.push(s.last()))
        }
    }
}

/// `str::split_whitespace`: the maximal runs of non-whitespace characters.
pub open spec fn words(s: Seq<char>) -> Seq<Seq<char>> {
    let (done, cur) = words_acc(s);
    if cur.len() > 0 {
        done.push(cur)
    } else {
        done
    }
}

pub fn split_words(s: &Vec<char>) -> (r: Vec<Vec<char>>)
    ensures
        r.deep_view() == words(s@),
{
    let n: usize = s.len();
    let mut done: Vec<Vec<char>> = Vec::new();
    let mut cur: Vec<char> = Vec::new();
    let mut i: usize = 0;
    while i < n
        invariant
            n == s@.len(),
            i <= n,
            (done.deep_view(), cur@) == words_acc(s@.subrange(0, i as int)),
        decreases n - i,
    {
        let c = s[i];
        assert(s@.subrange(0, i + 1).drop_last() =~= s@.subrange(0, i as int));
        if is_whitespace(c) {
            if cur.len() > 0 {
                let ghost old_done = done.deep_view();
                let ghost cv = cur@;
                assert(cur.deep_view() =~= cur@);
                done.push(cur);
                assert(done.deep_view() =~= old_done.push(cv));
            }
            cur = Vec::new();
        } else {
            cur.push(c);
        }
        i += 1;
    }
    assert(s@.subrange(0, n as int) =~= s@);
    if cur.len() > 0 {
        let ghost old_done = done.deep_view();
        let ghost c = cur@;
        assert(cur.deep_view() =~= cur@);
        done.push(cur);
        assert(done.deep_view() =~= old_done.push(c));
    }
    done
}

/// The words joined by single spaces.
pub open spec fn join_space(ws: Seq<Seq<char>>) -> Seq<char>
    decreases ws.len(),
{
    if ws.len() == 0 {
        seq![]
    } else if ws.len() == 1 {
        ws[0]
    } else {
        join_space(ws.drop_last()) + seq![' '] + ws.last()
    }
}

pub fn join_words(ws: &Vec<Vec<char>>) -> (r: Vec<char>)
    ensures
        r@ == join_space(ws.deep_view()),
{
    let n: usize = ws.len();
    let mut r: Vec<char> = Vec::new();
    let mut i: usize = 0;
    while i < n
        invariant
            n == ws@.len(),
            i <= n,
            r@ == join_space(ws.deep_view().subrange(0, i as int)),
        decreases n - i,
    {
        assert(ws.deep_view().subrange(0, i + 1).drop_last() =~= ws.deep_view().subrange(0, i as int));
        assert(ws.deep_view()[i as int] == ws@[i as int]@);
        if i > 0 {
            r.push(' ');
        }
        let w = &ws[i];
        let m: usize = w.len();
        let mut j: usize = 0;
        let ghost base = r@;
        while j < m
            invariant
                m == w@.len(),
                j <= m,
                r@ == base + w@.subrange(0, j as int),
            decreases m - j,
        {
            r.push(w[j]);
            j += 1;
            assert(r@ =~= base + w@.subrange(0, j as int));
        }
        assert(w@.subrange(0, m as int) =~= w@);
        proof {
            if i == 0 {
                assert(ws.deep_view().subrange(0, 1)[0] == w@);
                assert(r@ =~= w@);
            } else {
                assert(ws.deep_view().subrange(0, i + 1).last() == w@);
            }
        }
        i += 1;
    }
    assert(ws.deep_view().subrange(0, n as int) =~= ws.deep_view());
    r
}

/// Some word of `ws` occurs in `s`.
pub open spec fn any_sub(s: Seq<char>, ws: Seq<Seq<char>>) -> bool {
    exists|i: int| 0 <= i < ws.len() && has_sub(s, #[trigger] ws[i])
}

pub open spec fn strs_view(p: Seq<&str>) -> Seq<Seq<char>> {
    p.map_values(|x: &str| x@)
}

/// Whether one of `words` occurs in `s`.
pub fn contains_any(s: &Vec<char>, words: &Vec<&str>) -> (r: bool)
    ensures
        r == any_sub(s@, strs_view(words@)),
{
    let n: usize = words.len();
    let mut i: usize = 0;
    while i < n
        invariant
            n == words@.len(),
            i <= n,
            forall|k: int| 0 <= k < i ==> !has_sub(s@, #[trigger] strs_view(words@)[k]),
        decreases n - i,
    {
        let w = chars_of(words[i]);
        assert(strs_view(words@)[i as int] == w@);
        if contains(s, &w) {
            return true;
        }
        i += 1;
    }
    false
}

/// Tenths as `X.Y`.
pub open spec fn tenths_text(v: nat) -> Seq<char> {
    dec_str(v / 10) + seq!['.'] + dec_str(v % 10)
}

/// Signed tenths as `X.Y` or `-X.Y`.
pub open spec fn signed_tenths_text(v: int) -> Seq<char> {
    if v < 0 {
        seq!['-'] + tenths_text((-v) as nat)
    } else {
        tenths_text(v as nat)
    }
}

pub fn decimal_string(v: u64) -> (r: String)
    ensures
        r@ == dec_str(v as nat),
{
    let mut out: Vec<char> = Vec::new();
    push_decimal(v, &mut out);
    assert(out@ =~= dec_str(v as nat));
    string_of(out.as_slice())
}

pub fn tenths_string(v: u64) -> (r: String)
    ensures
        r@ == tenths_text(v as nat),
{
    let mut out: Vec<char> = Vec::new();
    push_decimal(v / 10, &mut out);
    out.push('.');
    push_decimal(v % 10, &mut out);
    assert(out@ =~= tenths_text(v as nat));
    string_of(out.as_slice())
}

pub fn signed_tenths_string(v: i32) -> (r: String)
    ensures
        r@ == signed_tenths_text(v as int),
{
    let m: u64 = if v < 0 {
        (-(v as i64)) as u64
    } else {
        v as u64
    };
    let mut out: Vec<char> = Vec::new();
    if v < 0 {
        out.push('-');
    }
    push_decimal(m / 10, &mut out);
    out.push('.');
    push_decimal(m % 10, &mut out);
    assert(out@ =~= signed_tenths_text(v as int));
    string_of(out.as_slice())
}

/// Whether two character sequences are equal.
pub fn same_chars(a: &Vec<char>, b: &Vec<char>) -> (r: bool)
    ensures
        r == (a@ == b@),
{
    if a.len() != b.len() {
        return false;
    }
    let n: usize = a.len();
    let mut i: usize = 0;
    while i < n
        invariant
            n == a@.len() == b@.len(),
            i <= n,
            forall|k: int| 0 <= k < i ==> a@[k] == b@[k],
        decreases n - i,
    {
        if a[i] != b[i] {
            return false;
        }
        i += 1;
    }
    assert(a@ =~= b@);
    true
}

/// The Unicode lowercase mapping of a text, as `str::to_lowercase` gives it.
pub uninterp spec fn lower_of(s: Seq<char>) -> Seq<char>;

/// Relies on `str::to_lowercase`: the lowercase form of the text, which
/// depends on the text alone.
#[verifier::external_body]
pub(crate) fn to_lowercase(s: &str) -> (r: String)
    ensures
        r@ == lower_of(s@),
{
    s.to_lowercase()
}

/// The Unicode uppercase mapping of a text, as `str::to_uppercase` gives it.
pub uninterp spec fn upper_of(s: Seq<char>) -> Seq<char>;

/// Relies on `str::to_uppercase`: the uppercase form of the text, which
/// depends on the text alone.
#[verifier::external_body]
pub(crate) fn to_uppercase(s: &str) -> (r: String)
    ensures
        r@ == upper_of(s@),
{
    s.to_uppercase()
}

/// The lowercase form of the characters.
pub fn lower_chars(v: &Vec<char>) -> (r: Vec<char>)
    ensures
        r@ == lower_of(v@),
{
    let s = string_of(v.as_slice());
    chars_of(to_lowercase(s.as_str()).as_str())
}

} // verus!
