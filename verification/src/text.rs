//! Character-level text handling: the whitespace, line and prefix rules that the
//! status parsers rely on, stated over `Seq<char>` and implemented over `Vec<char>`.
use vstd::prelude::*;

verus! {

broadcast use vstd::string::group_string_axioms;

/// `String::push` appends one character.
pub assume_specification[ std::string::String::push ](string: &mut std::string::String, ch: char)
    ensures
        final(string)@ == old(string)@.push(ch),
;

/// Unicode `White_Space`, the property that `char::is_whitespace` and `str::trim` use.
pub open spec fn is_ws(c: char) -> bool {
    let n = c as u32;
    ||| (0x09 <= n && n <= 0x0d)
    ||| n == 0x20
    ||| n == 0x85
    ||| n == 0xa0
    ||| n == 0x1680
    ||| (0x2000 <= n && n <= 0x200a)
    ||| n == 0x2028
    ||| n == 0x2029
    ||| n == 0x202f
    ||| n == 0x205f
    ||| n == 0x3000
}

pub fn is_whitespace(c: char) -> (r: bool)
    ensures
        r == is_ws(c),
{
    let n = c as u32;
    (0x09 <= n && n <= 0x0d) || n == 0x20 || n == 0x85 || n == 0xa0 || n == 0x1680 || (0x2000
        <= n && n <= 0x200a) || n == 0x2028 || n == 0x2029 || n == 0x202f || n == 0x205f || n
        == 0x3000
}

/// The characters of a string slice.
pub fn chars_of(s: &str) -> (v: Vec<char>)
    ensures
        v@ == s@,
{
    let mut v: Vec<char> = Vec::new();
    for c in it: s.chars()
        invariant
            v@ == it.seq().take(it.index() as int),
            it.seq() == s@,
    {
        proof {
            assert(it.seq().take(it.index() as int + 1) == it.seq().take(it.index() as int).push(c));
        }
        v.push(c);
    }
    v
}

/// A string made of the characters `chars[lo..hi]`.
pub fn string_of(chars: &Vec<char>, lo: usize, hi: usize) -> (s: String)
    requires
        lo <= hi <= chars@.len(),
    ensures
        s@ == chars@.subrange(lo as int, hi as int),
{
    let mut s = String::new();
    let mut i = lo;
    while i < hi
        invariant
            lo <= i <= hi <= chars@.len(),
            s@ == chars@.subrange(lo as int, i as int),
        decreases hi - i,
    {
        s.push(chars[i]);
        proof {
            assert(chars@.subrange(lo as int, i + 1) == chars@.subrange(lo as int, i as int).push(chars@[i as int]));
        }
        i = i + 1;
    }
    s
}


/// `str::trim_start`: the string without its leading whitespace.
pub open spec fn trim_start(s: Seq<char>) -> Seq<char>
    decreases s.len(),
{
    if s.len() > 0 && is_ws(s[0]) {
        trim_start(s.drop_first())
    } else {
        s
    }
}

/// `str::trim_end`: the string without its trailing whitespace.
pub open spec fn trim_end(s: Seq<char>) -> Seq<char>
    decreases s.len(),
{
    if s.len() > 0 && is_ws(s.last()) {
        trim_end(s.drop_last())
    } else {
        s
    }
}

/// `str::trim`: the string without leading and trailing whitespace.
pub open spec fn trim(s: Seq<char>) -> Seq<char> {
    trim_end(trim_start(s))
}

pub proof fn lemma_trim_start_len(s: Seq<char>)
    ensures
        trim_start(s).len() <= s.len(),
        trim_start(s).len() == 0 || !is_ws(trim_start(s)[0]),
        trim_start(s) == s.subrange(s.len() - trim_start(s).len(), s.len() as int),
    decreases s.len(),
{
    if s.len() > 0 && is_ws(s[0]) {
        lemma_trim_start_len(s.drop_first());
        assert(s.drop_first().subrange(s.drop_first().len() - trim_start(s).len(), s.drop_first().len() as int)
            =~= s.subrange(s.len() - trim_start(s).len(), s.len() as int));
    } else {
        assert(s.subrange(0, s.len() as int) =~= s);
    }
}

/// `str::starts_with` for a prefix given as characters.
pub open spec fn starts_with(s: Seq<char>, p: Seq<char>) -> bool {
    p.len() <= s.len() && s.subrange(0, p.len() as int) == p
}

/// `str::contains` for a pattern given as characters.
pub open spec fn contains(s: Seq<char>, p: Seq<char>) -> bool {
    exists|i: int| 0 <= i && i + p.len() <= s.len() && #[trigger] s.subrange(i, i + p.len()) == p
}

/// Index of the first non-whitespace character of `chars[lo..hi]`, or `hi`.
pub fn skip_ws(chars: &Vec<char>, lo: usize, hi: usize) -> (a: usize)
    requires
        lo <= hi <= chars@.len(),
    ensures
        lo <= a <= hi,
        chars@.subrange(a as int, hi as int) == trim_start(chars@.subrange(lo as int, hi as int)),
        a == hi || !is_ws(chars@[a as int]),
{
    let ghost s = chars@;
    let mut i = lo;
    while i < hi && is_whitespace(chars[i])
        invariant
            lo <= i <= hi <= s.len(),
            s == chars@,
            trim_start(s.subrange(lo as int, hi as int)) == trim_start(s.subrange(i as int, hi as int)),
        decreases hi - i,
    {
        assert(s.subrange(i as int, hi as int).drop_first() =~= s.subrange(i + 1, hi as int));
        i = i + 1;
    }
    assert(trim_start(s.subrange(i as int, hi as int)) == s.subrange(i as int, hi as int));
    i
}

/// Bounds `(a, b)` of `trim(chars[lo..hi])` inside `chars`.
pub fn trim_bounds(chars: &Vec<char>, lo: usize, hi: usize) -> (r: (usize, usize))
    requires
        lo <= hi <= chars@.len(),
    ensures
        lo <= r.0 <= r.1 <= hi,
        chars@.subrange(r.0 as int, r.1 as int) == trim(chars@.subrange(lo as int, hi as int)),
{
    let ghost s = chars@;
    let i = skip_ws(chars, lo, hi);
    let mut j = hi;
    while j > i && is_whitespace(chars[j - 1])
        invariant
            lo <= i <= j <= hi <= s.len(),
            s == chars@,
            trim_end(s.subrange(i as int, hi as int)) == trim_end(s.subrange(i as int, j as int)),
        decreases j - i,
    {
        assert(s.subrange(i as int, j as int).drop_last() =~= s.subrange(i as int, j - 1));
        j = j - 1;
    }
    (i, j)
}

/// Whether `chars[lo..hi]` starts with `p`.
pub fn range_starts_with(chars: &Vec<char>, lo: usize, hi: usize, p: &Vec<char>) -> (r: bool)
    requires
        lo <= hi <= chars@.len(),
    ensures
        r == starts_with(chars@.subrange(lo as int, hi as int), p@),
{
    if p.len() > hi - lo {
        return false;
    }
    let mut k: usize = 0;
    while k < p.len()
        invariant
            lo <= hi <= chars@.len(),
            p@.len() <= hi - lo,
            k <= p@.len(),
            forall|m: int| 0 <= m < k ==> chars@[lo + m] == p@[m],
        decreases p@.len() - k,
    {
        if chars[lo + k] != p[k] {
            assert(chars@.subrange(lo as int, hi as int).subrange(0, p@.len() as int)[k as int] != p@[k as int]);
            return false;
        }
        k = k + 1;
    }
    assert(chars@.subrange(lo as int, hi as int).subrange(0, p@.len() as int) =~= p@);
    true
}

/// Whether `chars[lo..hi]` contains `p`.
pub fn range_contains(chars: &Vec<char>, lo: usize, hi: usize, p: &Vec<char>) -> (r: bool)
    requires
        lo <= hi <= chars@.len(),
    ensures
        r == contains(chars@.subrange(lo as int, hi as int), p@),
{
    let ghost s = chars@.subrange(lo as int, hi as int);
    if p.len() > hi - lo {
        assert forall|i: int| 0 <= i && i + p@.len() <= s.len() implies #[trigger] s.subrange(i, i + p@.len()) != p@ by {}
        return false;
    }
    if p.len() == 0 {
        assert(s.subrange(0, 0 + p@.len() as int) =~= p@);
        return true;
    }
    let last = hi - p.len();
    let mut i = lo;
    while i <= last
        invariant
            lo <= i <= last + 1,
            last + p@.len() == hi,
            p@.len() > 0,
            hi <= chars@.len(),
            s == chars@.subrange(lo as int, hi as int),
            forall|m: int| 0 <= m < i - lo && m + p@.len() <= s.len() ==> #[trigger] s.subrange(m, m + p@.len()) != p@,
        decreases last + 1 - i,
    {
        if range_starts_with(chars, i, hi, p) {
            assert(s.subrange(i - lo, i - lo + p@.len()) =~= chars@.subrange(i as int, hi as int).subrange(0, p@.len() as int));
            return true;
        }
        assert(s.subrange(i - lo, i - lo + p@.len()) =~= chars@.subrange(i as int, hi as int).subrange(0, p@.len() as int));
        i = i + 1;
    }
    assert forall|m: int| 0 <= m && m + p@.len() <= s.len() implies #[trigger] s.subrange(m, m + p@.len()) != p@ by {
        assert(m < i - lo);
    }
    false
}


/// Index of the first `'\n'` at or after `start`, or the length when there is none.
pub open spec fn line_end(s: Seq<char>, start: int) -> int
    decreases s.len() - start,
{
    if start < 0 || start >= s.len() {
        s.len() as int
    } else if s[start] == '\n' {
        start
    } else {
        line_end(s, start + 1)
    }
}

pub proof fn lemma_line_end(s: Seq<char>, start: int)
    requires
        0 <= start <= s.len(),
    ensures
        start <= line_end(s, start) <= s.len(),
        line_end(s, start) < s.len() ==> s[line_end(s, start)] == '\n',
        forall|m: int| start <= m < line_end(s, start) ==> s[m] != '\n',
    decreases s.len() - start,
{
    if start < s.len() && s[start] != '\n' {
        lemma_line_end(s, start + 1);
    }
}

/// The lines of `s` from index `start` on, as `str::lines` yields them: split at
/// `'\n'`, with a `'\r'` just before a `'\n'` removed, and no empty line after a
/// final `'\n'`.
pub open spec fn lines_from(s: Seq<char>, start: int) -> Seq<Seq<char>>
    decreases s.len() - start,
{
    if start < 0 || start >= s.len() {
        seq![]
    } else {
        let e = line_end(s, start);
        if e < start || e >= s.len() {
            seq![s.subrange(start, s.len() as int)]
        } else {
            let raw = s.subrange(start, e);
            let line = if raw.len() > 0 && raw.last() == '\r' {
                raw.drop_last()
            } else {
                raw
            };
            seq![line] + lines_from(s, e + 1)
        }
    }
}

/// `str::lines`.
pub open spec fn lines(s: Seq<char>) -> Seq<Seq<char>> {
    lines_from(s, 0)
}

/// The spans `[a, b)` of the lines of `chars`, in order.
pub fn line_spans(chars: &Vec<char>) -> (r: Vec<(usize, usize)>)
    ensures
        spans_of_lines(chars@, r@),
        r@.len() == lines(chars@).len(),
        forall|k: int|
            0 <= k < r@.len() ==> {
                &&& (#[trigger] r@[k]).0 <= r@[k].1 <= chars@.len()
                &&& chars@.subrange(r@[k].0 as int, r@[k].1 as int) == lines(chars@)[k]
            },
{
    let ghost s = chars@;
    let n = chars.len();
    let mut r: Vec<(usize, usize)> = Vec::new();
    let ghost mut done: Seq<Seq<char>> = seq![];
    let mut start: usize = 0;
    while start < n
        invariant
            s == chars@,
            n == s.len(),
            start <= n,
            lines(s) == done + lines_from(s, start as int),
            done.len() == r@.len(),
            forall|k: int|
                0 <= k < r@.len() ==> {
                    &&& (#[trigger] r@[k]).0 <= r@[k].1 <= n
                    &&& s.subrange(r@[k].0 as int, r@[k].1 as int) == done[k]
                },
        decreases n - start,
    {
        let mut e = start;
        while e < n && chars[e] != '\n'
            invariant
                s == chars@,
                n == s.len(),
                start <= e <= n,
                line_end(s, start as int) == line_end(s, e as int),
            decreases n - e,
        {
            e = e + 1;
        }
        proof {
            lemma_line_end(s, start as int);
        }
        let mut b = e;
        if e < n && e > start && chars[e - 1] == '\r' {
            b = e - 1;
        }
        proof {
            let raw = s.subrange(start as int, e as int);
            assert(line_end(s, start as int) == e);
            if e < n {
                if e > start && s[e - 1] == '\r' {
                    assert(raw.drop_last() =~= s.subrange(start as int, b as int));
                }
                assert(lines_from(s, start as int) == seq![s.subrange(start as int, b as int)] + lines_from(s, e + 1));
                assert(done.push(s.subrange(start as int, b as int)) + lines_from(s, e + 1)
                    =~= done + lines_from(s, start as int));
            } else {
                assert(lines_from(s, start as int) == seq![s.subrange(start as int, b as int)]);
                assert(lines_from(s, n as int) == Seq::<Seq<char>>::empty());
                assert(done.push(s.subrange(start as int, b as int)) + lines_from(s, n as int)
                    =~= done + lines_from(s, start as int));
            }
            done = done.push(s.subrange(start as int, b as int));
        }
        r.push((start, b));
        if e >= n {
            start = n;
        } else {
            start = e + 1;
        }
    }
    proof {
        assert(lines_from(s, start as int) == Seq::<Seq<char>>::empty());
        assert(done + lines_from(s, start as int) =~= done);
    }
    r
}


/// Index just past the run of non-whitespace characters that starts at `i`.
pub open spec fn word_end(s: Seq<char>, i: int) -> int
    decreases s.len() - i,
{
    if i < 0 || i >= s.len() || is_ws(s[i]) {
        i
    } else {
        word_end(s, i + 1)
    }
}

pub proof fn lemma_word_end(s: Seq<char>, i: int)
    requires
        0 <= i <= s.len(),
    ensures
        i <= word_end(s, i) <= s.len(),
        word_end(s, i) < s.len() ==> is_ws(s[word_end(s, i)]),
        forall|m: int| i <= m < word_end(s, i) ==> !is_ws(s[m]),
    decreases s.len() - i,
{
    if i < s.len() && !is_ws(s[i]) {
        lemma_word_end(s, i + 1);
    }
}

/// `str::split_whitespace`: the maximal runs of non-whitespace characters.
pub open spec fn tokens(s: Seq<char>) -> Seq<Seq<char>>
    decreases s.len(),
{
    let t = trim_start(s);
    if t.len() == 0 || t.len() > s.len() {
        seq![]
    } else {
        let e = word_end(t, 0);
        if e <= 0 || e > t.len() {
            seq![]
        } else {
            seq![t.subrange(0, e)] + tokens(t.subrange(e, t.len() as int))
        }
    }
}

/// Bounds of the `n`-th whitespace-separated token of `chars[lo..hi]`, if there is one.
pub fn nth_token(chars: &Vec<char>, lo: usize, hi: usize, n: usize) -> (r: Option<(usize, usize)>)
    requires
        lo <= hi <= chars@.len(),
    ensures
        match r {
            Some((a, b)) => {
                &&& n < tokens(chars@.subrange(lo as int, hi as int)).len()
                &&& lo <= a <= b <= hi
                &&& chars@.subrange(a as int, b as int) == tokens(chars@.subrange(lo as int, hi as int))[n as int]
            },
            None => n >= tokens(chars@.subrange(lo as int, hi as int)).len(),
        },
{
    let ghost s = chars@;
    let ghost whole = tokens(s.subrange(lo as int, hi as int));
    let ghost mut skipped: Seq<Seq<char>> = seq![];
    let mut k: usize = 0;
    let mut i = lo;
    loop
        invariant
            s == chars@,
            whole == tokens(s.subrange(lo as int, hi as int)),
            lo <= i <= hi <= s.len(),
            k <= n,
            skipped.len() == k,
            whole == skipped + tokens(s.subrange(i as int, hi as int)),
        decreases hi - i,
    {
        let ghost rest = s.subrange(i as int, hi as int);
        let a = skip_ws(chars, i, hi);
        if a == hi {
            proof {
                assert(tokens(rest) == Seq::<Seq<char>>::empty());
                assert(whole =~= skipped);
            }
            return None;
        }
        let mut e = a;
        while e < hi && !is_whitespace(chars[e])
            invariant
                s == chars@,
                lo <= i <= a <= e <= hi <= s.len(),
                word_end(s.subrange(a as int, hi as int), 0) == word_end(s.subrange(a as int, hi as int), e - a),
            decreases hi - e,
        {
            e = e + 1;
        }
        proof {
            let t = s.subrange(a as int, hi as int);
            lemma_word_end(t, 0);
            assert(word_end(t, 0) == e - a);
            assert(t.subrange(0, e - a) =~= s.subrange(a as int, e as int));
            assert(t.subrange(e - a, t.len() as int) =~= s.subrange(e as int, hi as int));
            assert(tokens(rest) == seq![s.subrange(a as int, e as int)] + tokens(s.subrange(e as int, hi as int)));
            assert(whole =~= skipped.push(s.subrange(a as int, e as int)) + tokens(s.subrange(e as int, hi as int)));
        }
        if k == n {
            proof {
                assert(whole[n as int] == s.subrange(a as int, e as int));
            }
            return Some((a, e));
        }
        proof {
            skipped = skipped.push(s.subrange(a as int, e as int));
        }
        k = k + 1;
        i = e;
    }
}

/// The decimal digit character for `d < 10`.
pub open spec fn digit(d: nat) -> char {
    ((48 + d) as u8) as char
}

/// The decimal representation of `n`, without leading zeros.
pub open spec fn decimal(n: nat) -> Seq<char>
    decreases n,
{
    if n < 10 {
        seq![digit(n)]
    } else {
        decimal(n / 10).push(digit(n % 10))
    }
}

/// Appends the decimal representation of `n`, as `Display` for integers writes it.
pub fn push_decimal(s: &mut String, n: u64)
    ensures
        final(s)@ == old(s)@ + decimal(n as nat),
    decreases n,
{
    if n >= 10 {
        push_decimal(s, n / 10);
    }
    let d = (48 + (n % 10)) as u8;
    s.push(d as char);
    proof {
        if n >= 10 {
            assert(old(s)@ + decimal(n as nat) =~= old(s)@ + decimal((n / 10) as nat) + seq![digit((n % 10) as nat)]);
        } else {
            assert(old(s)@ + decimal(n as nat) =~= old(s)@.push(digit(n as nat)));
        }
    }
}

/// A decimal digit character.
pub open spec fn is_digit(c: char) -> bool {
    48 <= (c as u32) && (c as u32) <= 57
}

/// The value of a string of decimal digits.
pub open spec fn digits_value(d: Seq<char>) -> nat
    decreases d.len(),
{
    if d.len() == 0 {
        0
    } else {
        digits_value(d.drop_last()) * 10 + ((d.last() as u32) - 48) as nat
    }
}

/// Every character of `d` is a decimal digit.
pub open spec fn all_digits(d: Seq<char>) -> bool {
    forall|i: int| 0 <= i < d.len() ==> is_digit(#[trigger] d[i])
}

/// The digits of an unsigned number: the text without one leading `'+'`.
pub open spec fn unsigned_digits(s: Seq<char>) -> Seq<char> {
    if s.len() > 0 && s[0] == '+' {
        s.drop_first()
    } else {
        s
    }
}

/// `<u16 as FromStr>::from_str`: an optional `'+'`, then one or more decimal digits
/// whose value fits in 16 bits.
pub open spec fn parse_u16(s: Seq<char>) -> Option<u16> {
    let d = unsigned_digits(s);
    if d.len() == 0 || !all_digits(d) || digits_value(d) > 65535 {
        None
    } else {
        Some(digits_value(d) as u16)
    }
}

pub proof fn lemma_digits_value_grows(d: Seq<char>, k: int)
    requires
        0 <= k <= d.len(),
        all_digits(d),
    ensures
        digits_value(d.subrange(0, k)) <= digits_value(d),
    decreases d.len() - k,
{
    if k < d.len() {
        lemma_digits_value_grows(d, k + 1);
        assert(d.subrange(0, k + 1).drop_last() =~= d.subrange(0, k));
    } else {
        assert(d.subrange(0, k) =~= d);
    }
}

/// Parses `chars[lo..hi]` as a `u16`, with the rules of `str::parse::<u16>`.
pub fn parse_u16_range(chars: &Vec<char>, lo: usize, hi: usize) -> (r: Option<u16>)
    requires
        lo <= hi <= chars@.len(),
    ensures
        r == parse_u16(chars@.subrange(lo as int, hi as int)),
{
    let ghost s = chars@.subrange(lo as int, hi as int);
    let mut start = lo;
    if hi > lo && chars[lo] == '+' {
        start = lo + 1;
    }
    let ghost d = chars@.subrange(start as int, hi as int);
    proof {
        if hi > lo && chars@[lo as int] == '+' {
            assert(s.drop_first() =~= d);
        } else {
            assert(s =~= d);
        }
    }
    if start == hi {
        return None;
    }
    let mut value: u32 = 0;
    let mut i = start;
    while i < hi
        invariant
            lo <= start <= i <= hi <= chars@.len(),
            d == chars@.subrange(start as int, hi as int),
            s == chars@.subrange(lo as int, hi as int),
            d == unsigned_digits(s),
            forall|m: int| 0 <= m < i - start ==> is_digit(#[trigger] d[m]),
            value as nat == digits_value(d.subrange(0, i - start)),
            value <= 65535,
        decreases hi - i,
    {
        let c = chars[i];
        let cv = c as u32;
        proof {
            assert(d[i - start] == c);
            assert(d.subrange(0, i - start + 1).drop_last() =~= d.subrange(0, i - start));
            assert(d.subrange(0, i - start + 1).last() == c);
        }
        if !(cv >= 48 && cv <= 57) {
            proof {
                assert(!is_digit(d[i - start]));
                assert(!all_digits(d));
            }
            return None;
        }
        let next = value * 10 + (cv - 48);
        if next > 65535 {
            proof {
                assert(digits_value(d.subrange(0, i - start + 1)) == next);
                if all_digits(d) {
                    lemma_digits_value_grows(d, i - start + 1);
                }
            }
            return None;
        }
        value = next;
        i = i + 1;
    }
    proof {
        assert(d.subrange(0, d.len() as int) =~= d);
    }
    Some(value as u16)
}

/// ASCII letters lowered, every other character kept: `char::to_ascii_lowercase`.
pub open spec fn ascii_lower(c: char) -> char {
    if 65 <= (c as u32) && (c as u32) <= 90 {
        ((c as u32) + 32) as char
    } else {
        c
    }
}

/// `str::eq_ignore_ascii_case`: equal once ASCII letters are lowered.
pub open spec fn eq_ignore_ascii_case(a: Seq<char>, b: Seq<char>) -> bool {
    a.len() == b.len() && forall|i: int| 0 <= i < a.len() ==> ascii_lower(#[trigger] a[i]) == ascii_lower(b[i])
}

pub fn to_ascii_lower(c: char) -> (r: char)
    ensures
        r == ascii_lower(c),
{
    let n = c as u32;
    if n >= 65 && n <= 90 {
        let m = (n + 32) as u8;
        m as char
    } else {
        c
    }
}

/// Whether `a` and `b` are an ASCII case-insensitive match.
pub fn chars_eq_ignore_ascii_case(a: &Vec<char>, b: &Vec<char>) -> (r: bool)
    ensures
        r == eq_ignore_ascii_case(a@, b@),
{
    if a.len() != b.len() {
        return false;
    }
    let mut i: usize = 0;
    while i < a.len()
        invariant
            a@.len() == b@.len(),
            i <= a@.len(),
            forall|m: int| 0 <= m < i ==> ascii_lower(#[trigger] a@[m]) == ascii_lower(b@[m]),
        decreases a@.len() - i,
    {
        if to_ascii_lower(a[i]) != to_ascii_lower(b[i]) {
            return false;
        }
        i = i + 1;
    }
    true
}

/// Whether two character vectors are equal.
pub fn chars_eq(a: &Vec<char>, b: &Vec<char>) -> (r: bool)
    ensures
        r == (a@ == b@),
{
    if a.len() != b.len() {
        return false;
    }
    let mut i: usize = 0;
    while i < a.len()
        invariant
            a@.len() == b@.len(),
            i <= a@.len(),
            forall|m: int| 0 <= m < i ==> #[trigger] a@[m] == b@[m],
        decreases a@.len() - i,
    {
        if a[i] != b[i] {
            return false;
        }
        i = i + 1;
    }
    assert(a@ =~= b@);
    true
}

/// Whether two strings are equal.
pub fn str_eq(a: &str, b: &str) -> (r: bool)
    ensures
        r == (a@ == b@),
{
    chars_eq(&chars_of(a), &chars_of(b))
}


/// Appends the characters of `t`.
pub fn append_str(s: &mut String, t: &str)
    ensures
        final(s)@ == old(s)@ + t@,
{
    let ghost start = s@;
    for c in it: t.chars()
        invariant
            it.seq() == t@,
            s@ == start + it.seq().take(it.index() as int),
    {
        proof {
            assert(it.seq().take(it.index() as int + 1) == it.seq().take(it.index() as int).push(c));
        }
        s.push(c);
    }
    proof {
        assert(t@.take(t@.len() as int) =~= t@);
    }
}

/// `str::to_string` on a literal or slice.
pub fn owned(t: &str) -> (s: String)
    ensures
        s@ == t@,
{
    let mut s = String::new();
    append_str(&mut s, t);
    s
}

/// The text `Display` writes for a signed integer.
pub open spec fn int_text(n: int) -> Seq<char> {
    if n < 0 {
        seq!['-'] + decimal((-n) as nat)
    } else {
        decimal(n as nat)
    }
}

/// Appends the decimal representation of a signed integer.
pub fn push_int(s: &mut String, n: i64)
    ensures
        final(s)@ == old(s)@ + int_text(n as int),
{
    if n < 0 {
        s.push('-');
        let m = (0i128 - (n as i128)) as u64;
        push_decimal(s, m);
        proof {
            assert(old(s)@ + int_text(n as int) =~= old(s)@.push('-') + decimal(m as nat));
        }
    } else {
        push_decimal(s, n as u64);
    }
}

/// What `String::from_utf8(bytes)` reports as the text of its error.
pub uninterp spec fn utf8_error_text(bytes: Seq<u8>) -> Seq<char>;

/// What `String::from_utf8_lossy` gives for bytes, invalid sequences replaced.
pub uninterp spec fn utf8_lossy(bytes: Seq<u8>) -> Seq<char>;

/// `String::from_utf8`: succeeds exactly on valid UTF-8, with the decoded
/// characters; the error's `to_string` is named, not stated.
#[verifier::external_body]
pub(crate) fn string_from_utf8(bytes: Vec<u8>) -> (r: Result<String, String>)
    ensures
        match r {
            Ok(s) => vstd::utf8::valid_utf8(bytes@) && s@ == vstd::utf8::decode_utf8(bytes@),
            Err(m) => !vstd::utf8::valid_utf8(bytes@) && m@ == utf8_error_text(bytes@),
        },
{
    std::string::String::from_utf8(bytes).map_err(|e| e.to_string())
}

/// `String::from_utf8_lossy(..).to_string()`: on valid UTF-8 the decoded characters
/// (the documentation says the input is then returned as it is); otherwise named.
#[verifier::external_body]
pub(crate) fn string_from_utf8_lossy(bytes: &[u8]) -> (s: String)
    ensures
        s@ == utf8_lossy(bytes@),
        vstd::utf8::valid_utf8(bytes@) ==> s@ == vstd::utf8::decode_utf8(bytes@),
{
    std::string::String::from_utf8_lossy(bytes).to_string()
}


/// `str::trim_start_matches(p)`: every leading repetition of a non-empty `p` removed.
pub open spec fn strip_prefixes(s: Seq<char>, p: Seq<char>) -> Seq<char>
    decreases s.len(),
{
    if p.len() > 0 && starts_with(s, p) {
        strip_prefixes(s.subrange(p.len() as int, s.len() as int), p)
    } else {
        s
    }
}

/// Start of `strip_prefixes(chars[lo..hi], p)` inside `chars`.
pub fn strip_prefixes_from(chars: &Vec<char>, lo: usize, hi: usize, p: &Vec<char>) -> (a: usize)
    requires
        lo <= hi <= chars@.len(),
    ensures
        lo <= a <= hi,
        chars@.subrange(a as int, hi as int) == strip_prefixes(chars@.subrange(lo as int, hi as int), p@),
{
    if p.len() == 0 {
        return lo;
    }
    let mut i = lo;
    while range_starts_with(chars, i, hi, p)
        invariant
            lo <= i <= hi <= chars@.len(),
            p@.len() > 0,
            strip_prefixes(chars@.subrange(lo as int, hi as int), p@) == strip_prefixes(chars@.subrange(i as int, hi as int), p@),
        decreases hi - i,
    {
        assert(chars@.subrange(i as int, hi as int).subrange(p@.len() as int, hi - i) =~= chars@.subrange(i + p@.len(), hi as int));
        i = i + p.len();
    }
    i
}

/// Index of the first `c` at or after `i`.
pub open spec fn find_from(s: Seq<char>, c: char, i: int) -> Option<int>
    decreases s.len() - i,
{
    if i < 0 || i >= s.len() {
        None
    } else if s[i] == c {
        Some(i)
    } else {
        find_from(s, c, i + 1)
    }
}

/// `str::split_once(c)`: the text before and after the first `c`.
pub open spec fn split_once(s: Seq<char>, c: char) -> Option<(Seq<char>, Seq<char>)> {
    match find_from(s, c, 0) {
        Some(i) => Some((s.subrange(0, i), s.subrange(i + 1, s.len() as int))),
        None => None,
    }
}

/// Position in `chars` of the first `c` in `chars[lo..hi]`.
pub fn find_char(chars: &Vec<char>, lo: usize, hi: usize, c: char) -> (r: Option<usize>)
    requires
        lo <= hi <= chars@.len(),
    ensures
        match r {
            Some(k) => lo <= k < hi && find_from(chars@.subrange(lo as int, hi as int), c, 0) == Some(k - lo),
            None => find_from(chars@.subrange(lo as int, hi as int), c, 0) is None,
        },
{
    let ghost s = chars@.subrange(lo as int, hi as int);
    let mut i = lo;
    while i < hi
        invariant
            lo <= i <= hi <= chars@.len(),
            s == chars@.subrange(lo as int, hi as int),
            find_from(s, c, 0) == find_from(s, c, i - lo),
        decreases hi - i,
    {
        if chars[i] == c {
            return Some(i);
        }
        i = i + 1;
    }
    None
}


/// Whether `chars[lo..hi]` is exactly `p`.
pub fn range_eq(chars: &Vec<char>, lo: usize, hi: usize, p: &Vec<char>) -> (r: bool)
    requires
        lo <= hi <= chars@.len(),
    ensures
        r == (chars@.subrange(lo as int, hi as int) == p@),
{
    if hi - lo != p.len() {
        return false;
    }
    let r = range_starts_with(chars, lo, hi, p);
    proof {
        assert(chars@.subrange(lo as int, hi as int).subrange(0, p@.len() as int) =~= chars@.subrange(lo as int, hi as int));
    }
    r
}

/// The first of `ls` that starts with `p`.
pub open spec fn first_with_prefix(ls: Seq<Seq<char>>, p: Seq<char>) -> Option<Seq<char>>
    decreases ls.len(),
{
    if ls.len() == 0 {
        None
    } else if starts_with(ls[0], p) {
        Some(ls[0])
    } else {
        first_with_prefix(ls.drop_first(), p)
    }
}

/// `str::strip_prefix(p)`, for a text that starts with `p`.
pub open spec fn after_prefix(s: Seq<char>, p: Seq<char>) -> Seq<char> {
    s.subrange(p.len() as int, s.len() as int)
}


/// `spans` are the spans of the lines of `chars`.
pub open spec fn spans_of_lines(chars: Seq<char>, spans: Seq<(usize, usize)>) -> bool {
    &&& spans.len() == lines(chars).len()
    &&& forall|j: int|
        0 <= j < spans.len() ==> {
            &&& (#[trigger] spans[j]).0 <= spans[j].1 <= chars.len()
            &&& chars.subrange(spans[j].0 as int, spans[j].1 as int) == lines(chars)[j]
        }
}

/// Index of the first line of `chars` that starts with `p`.
pub fn first_line_with_prefix(chars: &Vec<char>, spans: &Vec<(usize, usize)>, p: &Vec<char>) -> (r: Option<usize>)
    requires
        spans_of_lines(chars@, spans@),
    ensures
        match r {
            Some(k) => k < spans@.len() && first_with_prefix(lines(chars@), p@) == Some(lines(chars@)[k as int]),
            None => first_with_prefix(lines(chars@), p@) is None,
        },
{
    let ghost ls = lines(chars@);
    let mut k: usize = 0;
    assert(ls.subrange(0, ls.len() as int) =~= ls);
    while k < spans.len()
        invariant
            ls == lines(chars@),
            spans_of_lines(chars@, spans@),
            k <= spans@.len(),
            first_with_prefix(ls, p@) == first_with_prefix(ls.subrange(k as int, ls.len() as int), p@),
        decreases spans@.len() - k,
    {
        let (lo, hi) = spans[k];
        proof {
            let rest = ls.subrange(k as int, ls.len() as int);
            assert(rest[0] == ls[k as int]);
            assert(rest.drop_first() =~= ls.subrange(k + 1, ls.len() as int));
        }
        if range_starts_with(chars, lo, hi, p) {
            return Some(k);
        }
        k = k + 1;
    }
    assert(ls.subrange(k as int, ls.len() as int) =~= Seq::<Seq<char>>::empty());
    None
}

/// A copy of `chars[lo..hi]`.
pub fn sub_chars(chars: &Vec<char>, lo: usize, hi: usize) -> (v: Vec<char>)
    requires
        lo <= hi <= chars@.len(),
    ensures
        v@ == chars@.subrange(lo as int, hi as int),
{
    let mut v: Vec<char> = Vec::new();
    let mut i = lo;
    while i < hi
        invariant
            lo <= i <= hi <= chars@.len(),
            v@ == chars@.subrange(lo as int, i as int),
        decreases hi - i,
    {
        v.push(chars[i]);
        proof {
            assert(chars@.subrange(lo as int, i + 1) =~= chars@.subrange(lo as int, i as int).push(chars@[i as int]));
        }
        i = i + 1;
    }
    v
}

/// The first index at or after `i` where `p` occurs in `s`.
pub open spec fn find_text_from(s: Seq<char>, p: Seq<char>, i: int) -> Option<int>
    decreases s.len() + 1 - i,
{
    if i < 0 || i + p.len() > s.len() {
        None
    } else if s.subrange(i, i + p.len()) == p {
        Some(i)
    } else {
        find_text_from(s, p, i + 1)
    }
}

/// The first index where `p` occurs in `chars`.
pub fn find_text(chars: &Vec<char>, p: &Vec<char>) -> (r: Option<usize>)
    ensures
        match r {
            Some(i) => i + p@.len() <= chars@.len() && find_text_from(chars@, p@, 0) == Some(i as int),
            None => find_text_from(chars@, p@, 0) is None,
        },
{
    if p.len() > chars.len() {
        return None;
    }
    let last = chars.len() - p.len();
    let mut i: usize = 0;
    while i <= last
        invariant
            last + p@.len() == chars@.len(),
            i <= last + 1,
            find_text_from(chars@, p@, 0) == find_text_from(chars@, p@, i as int),
        decreases last + 1 - i,
    {
        if range_starts_with(chars, i, chars.len(), p) {
            assert(chars@.subrange(i as int, chars@.len() as int).subrange(0, p@.len() as int) =~= chars@.subrange(i as int, i + p@.len()));
            return Some(i);
        }
        assert(chars@.subrange(i as int, chars@.len() as int).subrange(0, p@.len() as int) =~= chars@.subrange(i as int, i + p@.len()));
        if i == last {
            return None;
        }
        i = i + 1;
    }
    None
}

/// Every character is whitespace.
pub open spec fn all_ws(s: Seq<char>) -> bool {
    forall|i: int| 0 <= i < s.len() ==> is_ws(#[trigger] s[i])
}

pub proof fn lemma_all_ws_trim_start(s: Seq<char>)
    ensures
        all_ws(s) <==> trim_start(s).len() == 0,
    decreases s.len(),
{
    if s.len() > 0 {
        lemma_all_ws_trim_start(s.drop_first());
        if is_ws(s[0]) {
            if all_ws(s.drop_first()) {
                assert forall|i: int| 0 <= i < s.len() implies is_ws(#[trigger] s[i]) by {
                    if i > 0 {
                        assert(s[i] == s.drop_first()[i - 1]);
                    }
                }
            } else {
                let j = choose|j: int| 0 <= j < s.drop_first().len() && !is_ws(#[trigger] s.drop_first()[j]);
                assert(s[j + 1] == s.drop_first()[j]);
            }
        }
    }
}

pub proof fn lemma_trim_end_keeps_first(t: Seq<char>)
    requires
        t.len() > 0,
        !is_ws(t[0]),
    ensures
        trim_end(t).len() > 0,
    decreases t.len(),
{
    if is_ws(t.last()) {
        if t.len() == 1 {
            assert(t.last() == t[0]);
        } else {
            assert(t.drop_last()[0] == t[0]);
            lemma_trim_end_keeps_first(t.drop_last());
        }
    }
}

/// A text trims to nothing exactly when all of it is whitespace.
pub proof fn lemma_trim_empty(s: Seq<char>)
    ensures
        trim(s).len() == 0 <==> all_ws(s),
{
    lemma_all_ws_trim_start(s);
    lemma_trim_start_len(s);
    if trim_start(s).len() > 0 {
        lemma_trim_end_keeps_first(trim_start(s));
    }
}

/// The lines of an all-whitespace text are all whitespace.
pub proof fn lemma_lines_all_ws(s: Seq<char>, start: int)
    requires
        all_ws(s),
        0 <= start,
    ensures
        forall|k: int| 0 <= k < lines_from(s, start).len() ==> all_ws(#[trigger] lines_from(s, start)[k]),
    decreases s.len() - start,
{
    if start < s.len() {
        let e = line_end(s, start);
        lemma_line_end(s, start);
        let ls = lines_from(s, start);
        if e < s.len() {
            lemma_lines_all_ws(s, e + 1);
            let raw = s.subrange(start, e);
            assert(all_ws(raw)) by {
                assert forall|i: int| 0 <= i < raw.len() implies is_ws(#[trigger] raw[i]) by {
                    assert(raw[i] == s[start + i]);
                }
            }
            let line = if raw.len() > 0 && raw.last() == '\r' { raw.drop_last() } else { raw };
            assert(all_ws(line)) by {
                assert forall|i: int| 0 <= i < line.len() implies is_ws(#[trigger] line[i]) by {
                    assert(line[i] == raw[i]);
                }
            }
            assert forall|k: int| 0 <= k < ls.len() implies all_ws(#[trigger] ls[k]) by {
                if k == 0 {
                    assert(ls[0] == line);
                } else {
                    assert(ls[k] == lines_from(s, e + 1)[k - 1]);
                }
            }
        } else {
            let raw = s.subrange(start, s.len() as int);
            assert(ls == seq![raw]);
            assert(all_ws(raw)) by {
                assert forall|i: int| 0 <= i < raw.len() implies is_ws(#[trigger] raw[i]) by {
                    assert(raw[i] == s[start + i]);
                }
            }
        }
    }
}

/// Reading a number back from its decimal text gives the number: the texts
/// `push_decimal` writes are what `parse_u16` accepts.
pub proof fn law_decimal_round_trip(n: u16)
    ensures
        parse_u16(decimal(n as nat)) == Some(n),
{
    lemma_decimal_digits(n as nat);
    assert(decimal(n as nat)[0] != '+') by {
        assert(is_digit(decimal(n as nat)[0]));
    }
}

pub proof fn lemma_digit_value(d: nat)
    requires
        d < 10,
    ensures
        (digit(d) as u32) == 48 + d,
        is_digit(digit(d)),
{
    assert(((48 + d) as u8) as u32 == 48 + d);
}

pub proof fn lemma_decimal_digits(n: nat)
    ensures
        decimal(n).len() > 0,
        all_digits(decimal(n)),
        digits_value(decimal(n)) == n,
    decreases n,
{
    if n < 10 {
        lemma_digit_value(n);
        assert(decimal(n) =~= seq![digit(n)]);
        assert(seq![digit(n)].drop_last() =~= Seq::<char>::empty());
        assert(digits_value(Seq::<char>::empty()) == 0);
        assert(seq![digit(n)].last() == digit(n));
    } else {
        lemma_digit_value(n % 10);
        lemma_decimal_digits(n / 10);
        let d = decimal(n / 10).push(digit(n % 10));
        assert(d.drop_last() =~= decimal(n / 10));
        assert(d.last() == digit(n % 10));
        assert(decimal(n) == d);
        assert(digits_value(d) == digits_value(decimal(n / 10)) * 10 + ((d.last() as u32) - 48) as nat);
        assert((n / 10) * 10 + n % 10 == n);
        assert forall|i: int| 0 <= i < d.len() implies is_digit(#[trigger] d[i]) by {
            if i < d.len() - 1 {
                assert(d[i] == decimal(n / 10)[i]);
            }
        }
    }
}

} // verus!
