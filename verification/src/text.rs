use vstd::prelude::*;

verus! {

/// The decimal digit `d` (0..10) as text.
pub open spec fn digit_text(d: int) -> Seq<char> {
    if d == 0 {
        "0"@
    } else if d == 1 {
        "1"@
    } else if d == 2 {
        "2"@
    } else if d == 3 {
        "3"@
    } else if d == 4 {
        "4"@
    } else if d == 5 {
        "5"@
    } else if d == 6 {
        "6"@
    } else if d == 7 {
        "7"@
    } else if d == 8 {
        "8"@
    } else {
        "9"@
    }
}

/// The decimal notation of a natural number, without leading zeros.
pub open spec fn decimal(n: nat) -> Seq<char>
    decreases n,
{
    if n < 10 {
        digit_text(n as int)
    } else {
        decimal(n / 10) + digit_text((n % 10) as int)
    }
}

/// The decimal notation of an integer, with a leading `-` when negative.
pub open spec fn signed_decimal(x: int) -> Seq<char> {
    if x < 0 {
        "-"@ + decimal((-x) as nat)
    } else {
        decimal(x as nat)
    }
}

/// `x / 100` written with exactly two decimals, as `{:.2}` prints `x as f64 / 100.0`
/// (for example 35 gives "0.35", -120 gives "-1.20", -5 gives "-0.05").
pub open spec fn centi_text(x: int) -> Seq<char> {
    let m: int = if x < 0 {
        -x
    } else {
        x
    };
    (if x < 0 {
        "-"@
    } else {
        Seq::<char>::empty()
    }) + decimal((m / 100) as nat) + "."@ + digit_text((m % 100) / 10) + digit_text(m % 10)
}

/// A centipawn evaluation in pawns, with an explicit `+` when not negative ("+0.35", "-1.20").
pub open spec fn pawns_text(cp: int) -> Seq<char> {
    (if cp >= 0 {
        "+"@
    } else {
        Seq::<char>::empty()
    }) + centi_text(cp)
}

/// The digit `d` as a string.
pub fn digit_str(d: u64) -> (r: &'static str)
    requires
        d < 10,
    ensures
        r@ == digit_text(d as int),
{
    if d == 0 {
        "0"
    } else if d == 1 {
        "1"
    } else if d == 2 {
        "2"
    } else if d == 3 {
        "3"
    } else if d == 4 {
        "4"
    } else if d == 5 {
        "5"
    } else if d == 6 {
        "6"
    } else if d == 7 {
        "7"
    } else if d == 8 {
        "8"
    } else {
        "9"
    }
}

/// Decimal notation of `n`.
pub fn decimal_string(n: u64) -> (r: String)
    ensures
        r@ == decimal(n as nat),
    decreases n,
{
    if n < 10 {
        String::from_str(digit_str(n))
    } else {
        let mut s = decimal_string(n / 10);
        s.append(digit_str(n % 10));
        s
    }
}

/// Decimal notation of `x`, negative numbers with a leading `-`.
pub fn signed_decimal_string(x: i64) -> (r: String)
    ensures
        r@ == signed_decimal(x as int),
{
    if x < 0 {
        let m: u64 = (0i128 - (x as i128)) as u64;
        let mut s = String::from_str("-");
        let d = decimal_string(m);
        s.append(d.as_str());
        s
    } else {
        decimal_string(x as u64)
    }
}

/// `x / 100` with exactly two decimals.
pub fn centi_string(x: i64) -> (r: String)
    ensures
        r@ == centi_text(x as int),
{
    let m: u64 = if x < 0 {
        (0i128 - (x as i128)) as u64
    } else {
        x as u64
    };
    let mut s = String::new();
    if x < 0 {
        s.append("-");
    }
    let whole = decimal_string(m / 100);
    s.append(whole.as_str());
    s.append(".");
    s.append(digit_str((m % 100) / 10));
    s.append(digit_str(m % 10));
    s
}

/// A centipawn evaluation in pawns, with a `+` for evaluations that are not negative.
pub fn pawns_string(cp: i64) -> (r: String)
    ensures
        r@ == pawns_text(cp as int),
{
    let mut s = String::new();
    if cp >= 0 {
        s.append("+");
    }
    let body = centi_string(cp);
    s.append(body.as_str());
    s
}

/// Whether `c` has the Unicode White_Space property (what `char::is_whitespace` tests).
pub open spec fn is_space(c: char) -> bool {
    ('\u{9}' <= c && c <= '\u{d}') || c == ' ' || c == '\u{85}' || c == '\u{a0}' || c
        == '\u{1680}' || ('\u{2000}' <= c && c <= '\u{200a}') || c == '\u{2028}' || c
        == '\u{2029}' || c == '\u{202f}' || c == '\u{205f}' || c == '\u{3000}'
}

/// Whether `c` is white space.
pub fn is_space_char(c: char) -> (r: bool)
    ensures
        r == is_space(c),
{
    ('\u{9}' <= c && c <= '\u{d}') || c == ' ' || c == '\u{85}' || c == '\u{a0}' || c
        == '\u{1680}' || ('\u{2000}' <= c && c <= '\u{200a}') || c == '\u{2028}' || c
        == '\u{2029}' || c == '\u{202f}' || c == '\u{205f}' || c == '\u{3000}'
}

/// The maximal runs of non-space characters of `s`, in order (what `split_whitespace` yields).
pub open spec fn ws_tokens(s: Seq<char>) -> Seq<Seq<char>>
    decreases s.len(),
{
    if s.len() == 0 {
        Seq::empty()
    } else {
        let p = s.drop_last();
        let c = s.last();
        let t = ws_tokens(p);
        if is_space(c) {
            t
        } else if p.len() > 0 && !is_space(p.last()) {
            t.drop_last().push(t.last().push(c))
        } else {
            t.push(seq![c])
        }
    }
}

/// `s` without its leading white space.
pub open spec fn trim_start(s: Seq<char>) -> Seq<char>
    decreases s.len(),
{
    if s.len() > 0 && is_space(s[0]) {
        trim_start(s.drop_first())
    } else {
        s
    }
}

/// `s` without its trailing white space.
pub open spec fn trim_end(s: Seq<char>) -> Seq<char>
    decreases s.len(),
{
    if s.len() > 0 && is_space(s.last()) {
        trim_end(s.drop_last())
    } else {
        s
    }
}

/// `s` without leading and trailing white space.
pub open spec fn trim(s: Seq<char>) -> Seq<char> {
    trim_end(trim_start(s))
}

/// Whether `needle` occurs in `hay` as a contiguous run.
pub open spec fn has_substring(hay: Seq<char>, needle: Seq<char>) -> bool {
    exists|i: int|
        0 <= i && i + needle.len() <= hay.len() && #[trigger] hay.subrange(i, i + needle.len())
            == needle
}

/// The parts separated by `sep`.
pub open spec fn join(parts: Seq<Seq<char>>, sep: Seq<char>) -> Seq<char>
    decreases parts.len(),
{
    if parts.len() == 0 {
        Seq::empty()
    } else if parts.len() == 1 {
        parts[0]
    } else {
        join(parts.drop_last(), sep) + sep + parts.last()
    }
}

/// The characters of a string slice.
pub fn chars_of(s: &str) -> (r: Vec<char>)
    ensures
        r@ == s@,
{
    let n = s.unicode_len();
    let mut v: Vec<char> = Vec::new();
    let mut i: usize = 0;
    while i < n
        invariant
            n == s@.len(),
            i <= n,
            v@ == s@.take(i as int),
        decreases n - i,
    {
        let c = s.get_char(i);
        v.push(c);
        i = i + 1;
        assert(v@ =~= s@.take(i as int));
    }
    assert(v@ =~= s@);
    v
}

proof fn lemma_tokens_step(s: Seq<char>, i: int)
    requires
        0 <= i < s.len(),
    ensures
        s.take(i + 1).drop_last() == s.take(i),
        s.take(i + 1).last() == s[i],
{
    assert(s.take(i + 1).drop_last() =~= s.take(i));
}

/// Splits `s` at white space, dropping the white space (as `split_whitespace` does).
pub fn split_whitespace(s: &str) -> (r: Vec<String>)
    ensures
        r.deep_view() == ws_tokens(s@),
{
    let chars = chars_of(s);
    let n = chars.len();
    let mut tokens: Vec<String> = Vec::new();
    let mut start: usize = 0;
    let mut in_tok = false;
    let mut i: usize = 0;
    while i < n
        invariant
            chars@ == s@,
            n == s@.len(),
            i <= n,
            start <= i,
            in_tok ==> start < i,
            in_tok <==> (i > 0 && !is_space(s@[i - 1])),
            in_tok ==> ws_tokens(s@.take(i as int)) == tokens.deep_view().push(
                s@.subrange(start as int, i as int),
            ),
            !in_tok ==> ws_tokens(s@.take(i as int)) == tokens.deep_view(),
        decreases n - i,
    {
        let c = chars[i];
        proof {
            lemma_tokens_step(s@, i as int);
        }
        let ghost old_tokens = tokens.deep_view();
        if is_space_char(c) {
            if in_tok {
                let t = String::from_str(s.substring_char(start, i));
                tokens.push(t);
                assert(tokens.deep_view() =~= old_tokens.push(s@.subrange(start as int, i as int)));
                in_tok = false;
            }
        } else {
            if !in_tok {
                start = i;
                in_tok = true;
                assert(s@.subrange(i as int, i as int + 1) =~= seq![c]);
                if i > 0 {
                    assert(s@.take(i as int).last() == s@[i - 1]);
                }
                assert(ws_tokens(s@.take(i as int + 1)) =~= tokens.deep_view().push(
                    s@.subrange(start as int, i as int + 1),
                ));
            } else {
                let ghost t = ws_tokens(s@.take(i as int));
                assert(s@.subrange(start as int, i as int).push(c) =~= s@.subrange(
                    start as int,
                    i as int + 1,
                ));
                assert(t.drop_last() =~= old_tokens);
            }
        }
        i = i + 1;
    }
    assert(s@.take(n as int) =~= s@);
    if in_tok {
        let ghost old_tokens = tokens.deep_view();
        let t = String::from_str(s.substring_char(start, n));
        tokens.push(t);
        assert(tokens.deep_view() =~= old_tokens.push(s@.subrange(start as int, n as int)));
    }
    tokens
}

/// `s` without leading and trailing white space (as `str::trim` returns it).
pub fn trim_str<'a>(s: &'a str) -> (r: &'a str)
    ensures
        r@ == trim(s@),
{
    let chars = chars_of(s);
    let n = chars.len();
    let mut a: usize = 0;
    assert(s@.subrange(0, n as int) =~= s@);
    while a < n && is_space_char(chars[a])
        invariant
            chars@ == s@,
            n == s@.len(),
            a <= n,
            trim_start(s@) == trim_start(s@.subrange(a as int, n as int)),
        decreases n - a,
    {
        assert(s@.subrange(a as int, n as int).drop_first() =~= s@.subrange(
            a as int + 1,
            n as int,
        ));
        a = a + 1;
    }
    assert(trim_start(s@) == s@.subrange(a as int, n as int));
    let mut b: usize = n;
    while b > a && is_space_char(chars[b - 1])
        invariant
            chars@ == s@,
            n == s@.len(),
            a <= b <= n,
            trim_end(s@.subrange(a as int, n as int)) == trim_end(
                s@.subrange(a as int, b as int),
            ),
        decreases b,
    {
        assert(s@.subrange(a as int, b as int).drop_last() =~= s@.subrange(
            a as int,
            b as int - 1,
        ));
        b = b - 1;
    }
    s.substring_char(a, b)
}

/// Whether `s` begins with `prefix`.
pub fn starts_with(s: &str, prefix: &str) -> (r: bool)
    ensures
        r == prefix@.is_prefix_of(s@),
{
    let a = chars_of(s);
    let p = chars_of(prefix);
    if p.len() > a.len() {
        return false;
    }
    let mut i: usize = 0;
    while i < p.len()
        invariant
            a@ == s@,
            p@ == prefix@,
            p@.len() <= a@.len(),
            i <= p@.len(),
            forall|j: int| 0 <= j < i ==> a@[j] == p@[j],
        decreases p.len() - i,
    {
        if a[i] != p[i] {
            assert(s@.subrange(0, prefix@.len() as int)[i as int] != prefix@[i as int]);
            return false;
        }
        i = i + 1;
    }
    assert(prefix@ =~= s@.subrange(0, prefix@.len() as int));
    true
}

/// Whether `needle` occurs in `hay` at position `at`.
fn occurs_at(hay: &Vec<char>, needle: &Vec<char>, at: usize) -> (r: bool)
    requires
        at + needle@.len() <= hay@.len(),
    ensures
        r == (hay@.subrange(at as int, at + needle@.len()) == needle@),
{
    let mut j: usize = 0;
    let hl = hay.len();
    while j < needle.len()
        invariant
            hl == hay@.len(),
            at + needle@.len() <= hay@.len(),
            j <= needle@.len(),
            forall|k: int| 0 <= k < j ==> hay@[at + k] == needle@[k],
        decreases needle.len() - j,
    {
        if hay[at + j] != needle[j] {
            assert(hay@.subrange(at as int, at + needle@.len())[j as int] != needle@[j as int]);
            return false;
        }
        j = j + 1;
    }
    assert(hay@.subrange(at as int, at + needle@.len()) =~= needle@);
    true
}

/// Whether `needle` occurs in the characters `hay`.
pub fn chars_contain(hay: &Vec<char>, needle: &Vec<char>) -> (r: bool)
    ensures
        r == has_substring(hay@, needle@),
{
    if needle.len() > hay.len() {
        return false;
    }
    let last = hay.len() - needle.len();
    let mut i: usize = 0;
    while i <= last
        invariant
            last == hay@.len() - needle@.len(),
            needle@.len() <= hay@.len(),
            forall|k: int|
                0 <= k < i ==> #[trigger] hay@.subrange(k, k + needle@.len()) != needle@,
        decreases last + 1 - i,
    {
        if occurs_at(hay, needle, i) {
            return true;
        }
        if i == last {
            return false;
        }
        i = i + 1;
    }
    false
}

/// Whether `needle` occurs in `hay` (as `str::contains` with a string pattern).
pub fn str_contains(hay: &str, needle: &str) -> (r: bool)
    ensures
        r == has_substring(hay@, needle@),
{
    let h = chars_of(hay);
    let n = chars_of(needle);
    chars_contain(&h, &n)
}

/// The strings of `parts` separated by `sep`.
pub fn join_strings(parts: &Vec<String>, sep: &str) -> (r: String)
    ensures
        r@ == join(parts.deep_view(), sep@),
{
    let mut res = String::new();
    let ghost dv = parts.deep_view();
    let mut i: usize = 0;
    while i < parts.len()
        invariant
            dv == parts.deep_view(),
            i <= parts.len(),
            res@ == join(dv.take(i as int), sep@),
        decreases parts.len() - i,
    {
        assert(dv.take(i as int + 1).drop_last() =~= dv.take(i as int));
        if i > 0 {
            res.append(sep);
        }
        res.append(parts[i].as_str());
        i = i + 1;
    }
    assert(dv.take(parts.len() as int) =~= dv);
    res
}

/// Whether `c` is an ASCII decimal digit.
pub open spec fn is_digit(c: char) -> bool {
    '0' <= c && c <= '9'
}

/// The value of the decimal digits `s`.
pub open spec fn digits_value(s: Seq<char>) -> nat
    decreases s.len(),
{
    if s.len() == 0 {
        0
    } else {
        digits_value(s.drop_last()) * 10 + ((s.last() as int) - ('0' as int)) as nat
    }
}

/// Whether all characters of `s` are decimal digits.
pub open spec fn all_digits(s: Seq<char>) -> bool {
    forall|i: int| 0 <= i < s.len() ==> is_digit(#[trigger] s[i])
}

/// The value of `s` when it is a non-empty run of digits of value at most `limit`.
pub open spec fn bounded_digits(s: Seq<char>, limit: nat) -> Option<nat> {
    if s.len() > 0 && all_digits(s) && digits_value(s) <= limit {
        Some(digits_value(s))
    } else {
        None
    }
}

/// `s` without one leading `+`.
pub open spec fn without_plus(s: Seq<char>) -> Seq<char> {
    if s.len() > 0 && s[0] == '+' {
        s.drop_first()
    } else {
        s
    }
}

/// What `s.parse::<u32>()` gives: an optional `+`, then one or more digits, of value in range.
pub open spec fn parse_u32_text(s: Seq<char>) -> Option<u32> {
    match bounded_digits(without_plus(s), 4294967295) {
        Some(v) => Some(v as u32),
        None => None,
    }
}

/// What `s.parse::<i32>()` gives: an optional sign, then one or more digits, of value in range.
pub open spec fn parse_i32_text(s: Seq<char>) -> Option<i32> {
    if s.len() > 0 && s[0] == '-' {
        match bounded_digits(s.drop_first(), 2147483648) {
            Some(v) => Some((0 - v) as i32),
            None => None,
        }
    } else {
        match bounded_digits(without_plus(s), 2147483647) {
            Some(v) => Some(v as i32),
            None => None,
        }
    }
}

/// The digits `chars[start..]` read as a number of at most `limit`.
fn read_digits(chars: &Vec<char>, start: usize, limit: u64) -> (r: Option<u64>)
    requires
        start <= chars@.len(),
        limit <= 4294967296,
    ensures
        r matches Some(v) ==> bounded_digits(chars@.subrange(start as int, chars@.len() as int), limit as nat) == Some(v as nat),
        r is None ==> bounded_digits(chars@.subrange(start as int, chars@.len() as int), limit as nat) is None,
{
    let n = chars.len();
    if start == n {
        return None;
    }
    let mut v: u64 = 0;
    let mut over = false;
    let mut i: usize = start;
    while i < n
        invariant
            n == chars@.len(),
            start < n,
            start <= i <= n,
            limit <= 4294967296,
            all_digits(chars@.subrange(start as int, i as int)),
            over ==> digits_value(chars@.subrange(start as int, i as int)) > limit,
            !over ==> v == digits_value(chars@.subrange(start as int, i as int)) && v <= limit,
        decreases n - i,
    {
        let c = chars[i];
        let ghost pre = chars@.subrange(start as int, i as int);
        let ghost next = chars@.subrange(start as int, i as int + 1);
        assert(next.drop_last() =~= pre);
        assert(next.last() == c);
        if !('0' <= c && c <= '9') {
            assert(!is_digit(chars@.subrange(start as int, n as int)[i - start]));
            return None;
        }
        let d: u64 = ((c as u32) - ('0' as u32)) as u64;
        if !over {
            if v * 10 + d > limit {
                over = true;
            } else {
                v = v * 10 + d;
            }
        }
        i = i + 1;
        assert forall|k: int| 0 <= k < next.len() implies is_digit(#[trigger] next[k]) by {
            if k < pre.len() {
                assert(next[k] == pre[k]);
            }
        }
    }
    assert(chars@.subrange(start as int, n as int) == chars@.subrange(start as int, i as int));
    if over {
        None
    } else {
        Some(v)
    }
}

/// Parses `s` as `s.parse::<u32>()` does.
pub fn parse_u32(s: &str) -> (r: Option<u32>)
    ensures
        r == parse_u32_text(s@),
{
    let chars = chars_of(s);
    let start: usize = if chars.len() > 0 && chars[0] == '+' {
        1
    } else {
        0
    };
    assert(without_plus(s@) =~= chars@.subrange(start as int, chars@.len() as int));
    match read_digits(&chars, start, 4294967295) {
        Some(v) => Some(v as u32),
        None => None,
    }
}

/// Parses `s` as `s.parse::<i32>()` does.
pub fn parse_i32(s: &str) -> (r: Option<i32>)
    ensures
        r == parse_i32_text(s@),
{
    let chars = chars_of(s);
    if chars.len() > 0 && chars[0] == '-' {
        assert(s@.drop_first() =~= chars@.subrange(1, chars@.len() as int));
        match read_digits(&chars, 1, 2147483648) {
            Some(v) => Some((0i64 - (v as i64)) as i32),
            None => None,
        }
    } else {
        let start: usize = if chars.len() > 0 && chars[0] == '+' {
            1
        } else {
            0
        };
        assert(without_plus(s@) =~= chars@.subrange(start as int, chars@.len() as int));
        match read_digits(&chars, start, 2147483647) {
            Some(v) => Some(v as i32),
            None => None,
        }
    }
}

/// Whether two string slices hold the same characters.
pub fn str_eq(a: &str, b: &str) -> (r: bool)
    ensures
        r == (a@ == b@),
{
    let x = chars_of(a);
    let y = chars_of(b);
    if x.len() != y.len() {
        return false;
    }
    let mut i: usize = 0;
    while i < x.len()
        invariant
            x@ == a@,
            y@ == b@,
            x@.len() == y@.len(),
            i <= x@.len(),
            forall|j: int| 0 <= j < i ==> x@[j] == y@[j],
        decreases x.len() - i,
    {
        if x[i] != y[i] {
            return false;
        }
        i = i + 1;
    }
    assert(a@ =~= b@);
    true
}

/// The position of the first element of `t` below `n` equal to `w`.
pub open spec fn first_index_upto(t: Seq<Seq<char>>, w: Seq<char>, n: int) -> Option<int>
    decreases n,
{
    if n <= 0 {
        None
    } else {
        match first_index_upto(t, w, n - 1) {
            Some(i) => Some(i),
            None => if t[n - 1] == w {
                Some(n - 1)
            } else {
                None
            },
        }
    }
}

/// The position of the first element of `t` equal to `w`.
pub open spec fn first_index(t: Seq<Seq<char>>, w: Seq<char>) -> Option<int> {
    first_index_upto(t, w, t.len() as int)
}

proof fn lemma_first_index_extends(t: Seq<Seq<char>>, w: Seq<char>, n: int, m: int)
    requires
        0 <= n <= m,
        first_index_upto(t, w, n) is Some,
    ensures
        first_index_upto(t, w, m) == first_index_upto(t, w, n),
    decreases m - n,
{
    if n < m {
        lemma_first_index_extends(t, w, n, m - 1);
    }
}

proof fn lemma_first_index_bound(t: Seq<Seq<char>>, w: Seq<char>, n: int)
    ensures
        first_index_upto(t, w, n) matches Some(i) ==> 0 <= i < n && t[i] == w,
    decreases n,
{
    if n > 0 {
        lemma_first_index_bound(t, w, n - 1);
    }
}

/// The position of the first of `tokens` equal to `w` (as `iter().position`).
pub fn find_token(tokens: &Vec<String>, w: &str) -> (r: Option<usize>)
    ensures
        r matches Some(i) ==> first_index(tokens.deep_view(), w@) == Some(i as int) && i
            < tokens.len(),
        r is None ==> first_index(tokens.deep_view(), w@) is None,
{
    let ghost t = tokens.deep_view();
    let mut i: usize = 0;
    while i < tokens.len()
        invariant
            t == tokens.deep_view(),
            i <= tokens.len(),
            first_index_upto(t, w@, i as int) is None,
        decreases tokens.len() - i,
    {
        if str_eq(tokens[i].as_str(), w) {
            assert(t[i as int] == w@);
            proof {
                lemma_first_index_extends(t, w@, i as int + 1, t.len() as int);
            }
            return Some(i);
        }
        i = i + 1;
    }
    None
}

} // verus!
