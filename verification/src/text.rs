//! Character-level text primitives shared by the generators: building
//! strings, comparing them, decimal formatting and the small parsers that
//! the configuration rules rely on. Every operation is specified over the
//! `Seq<char>` view of the strings involved.
use vstd::prelude::*;

verus! {

/// The ASCII decimal digit for `d`.
pub open spec fn digit_char(d: nat) -> char {
    ((48 + d) as u8) as char
}

/// Decimal notation of a natural number, without sign or leading zeros.
pub open spec fn decimal_nat(n: nat) -> Seq<char>
    decreases n,
{
    if n < 10 {
        seq![digit_char(n)]
    } else {
        decimal_nat(n / 10).push(digit_char(n % 10))
    }
}

/// Decimal notation of an integer, with a leading `-` when negative.
pub open spec fn decimal_int(n: int) -> Seq<char> {
    if n < 0 {
        seq!['-'] + decimal_nat((-n) as nat)
    } else {
        decimal_nat(n as nat)
    }
}

pub open spec fn is_ascii_digit(c: char) -> bool {
    '0' <= c && c <= '9'
}

pub open spec fn digit_value(c: char) -> nat {
    (c as u32 - 48) as nat
}

/// The Unicode `White_Space` property, as used by `char::is_whitespace`.
pub open spec fn is_whitespace(c: char) -> bool {
    ||| c == ' ' || c == '\t' || c == '\n' || c == '\u{B}' || c == '\u{C}' || c == '\r'
    ||| c == '\u{85}' || c == '\u{A0}' || c == '\u{1680}'
    ||| ('\u{2000}' <= c && c <= '\u{200A}')
    ||| c == '\u{2028}' || c == '\u{2029}' || c == '\u{202F}' || c == '\u{205F}'
        || c == '\u{3000}'
}

/// `p` is a prefix of `s`.
pub open spec fn has_prefix(s: Seq<char>, p: Seq<char>) -> bool {
    p.len() <= s.len() && s.take(p.len() as int) == p
}

/// `p` is a suffix of `s`.
pub open spec fn has_suffix(s: Seq<char>, p: Seq<char>) -> bool {
    p.len() <= s.len() && s.skip(s.len() - p.len()) == p
}

/// `p` occurs in `s` starting at position `i`.
pub open spec fn occurs_at(s: Seq<char>, p: Seq<char>, i: int) -> bool {
    0 <= i && i + p.len() <= s.len() && s.subrange(i, i + p.len()) == p
}

/// `p` occurs somewhere in `s`.
pub open spec fn contains_seq(s: Seq<char>, p: Seq<char>) -> bool {
    exists|i: int| occurs_at(s, p, i)
}

/// Position of the first occurrence of `c` in `s`, if any.
pub open spec fn first_index_of(s: Seq<char>, c: char) -> Option<int>
    decreases s.len(),
{
    if s.len() == 0 {
        None
    } else if s[0] == c {
        Some(0)
    } else {
        match first_index_of(s.drop_first(), c) {
            Some(i) => Some(i + 1),
            None => None,
        }
    }
}

pub proof fn lemma_first_index_of(s: Seq<char>, c: char)
    ensures
        match first_index_of(s, c) {
            Some(i) => 0 <= i < s.len() && s[i] == c && forall|j: int| 0 <= j < i ==> s[j] != c,
            None => forall|j: int| 0 <= j < s.len() ==> s[j] != c,
        },
    decreases s.len(),
{
    if s.len() > 0 && s[0] != c {
        lemma_first_index_of(s.drop_first(), c);
        match first_index_of(s.drop_first(), c) {
            Some(i) => {
                assert forall|j: int| 0 <= j < i + 1 implies s[j] != c by {
                    if j > 0 {
                        assert(s[j] == s.drop_first()[j - 1]);
                    }
                }
            },
            None => {
                assert forall|j: int| 0 <= j < s.len() implies s[j] != c by {
                    if j > 0 {
                        assert(s[j] == s.drop_first()[j - 1]);
                    }
                }
            },
        }
    }
}

/// `s` with leading white space removed.
pub open spec fn trim_start(s: Seq<char>) -> Seq<char>
    decreases s.len(),
{
    if s.len() > 0 && is_whitespace(s[0]) {
        trim_start(s.drop_first())
    } else {
        s
    }
}

/// `s` with trailing white space removed.
pub open spec fn trim_end(s: Seq<char>) -> Seq<char>
    decreases s.len(),
{
    if s.len() > 0 && is_whitespace(s.last()) {
        trim_end(s.drop_last())
    } else {
        s
    }
}

/// `s` with leading and trailing white space removed (`str::trim`).
pub open spec fn trim(s: Seq<char>) -> Seq<char> {
    trim_end(trim_start(s))
}

/// The pieces of `s` between occurrences of `sep` (`str::split` with a
/// char pattern): always one more piece than there are separators.
pub open spec fn split_char(s: Seq<char>, sep: char) -> Seq<Seq<char>>
    decreases s.len(),
{
    match first_index_of(s, sep) {
        None => seq![s],
        Some(i) => {
            proof {
                lemma_first_index_of(s, sep);
            }
            seq![s.take(i)] + split_char(s.skip(i + 1), sep)
        },
    }
}

/// Join `parts` with `sep` between consecutive parts.
pub open spec fn join_with(parts: Seq<Seq<char>>, sep: Seq<char>) -> Seq<char>
    decreases parts.len(),
{
    if parts.len() == 0 {
        seq![]
    } else if parts.len() == 1 {
        parts[0]
    } else {
        join_with(parts.drop_last(), sep) + sep + parts.last()
    }
}

/// `s` repeated `n` times.
pub open spec fn repeat_seq(s: Seq<char>, n: nat) -> Seq<char>
    decreases n,
{
    if n == 0 {
        seq![]
    } else {
        repeat_seq(s, (n - 1) as nat) + s
    }
}

/// Value of a non-empty run of ASCII digits.
pub open spec fn digits_value(s: Seq<char>) -> nat
    decreases s.len(),
{
    if s.len() == 0 {
        0
    } else {
        digits_value(s.drop_last()) * 10 + digit_value(s.last())
    }
}

pub open spec fn all_digits(s: Seq<char>) -> bool {
    forall|i: int| 0 <= i < s.len() ==> is_ascii_digit(s[i])
}

/// What `str::parse::<u32>` accepts: an optional `+`, then one or more
/// ASCII digits whose value fits in a `u32`.
pub open spec fn parse_u32(s: Seq<char>) -> Option<u32> {
    let body = if s.len() > 0 && s[0] == '+' {
        s.drop_first()
    } else {
        s
    };
    if body.len() > 0 && all_digits(body) && digits_value(body) <= u32::MAX {
        Some(digits_value(body) as u32)
    } else {
        None
    }
}

/// Appends `c` to `s` (`String::push`).
#[verifier::external_body]
pub(crate) fn push_char(s: &mut String, c: char)
    ensures
        final(s)@ == old(s)@.push(c),
{
    s.push(c);
}

/// Appends `t` to `s`.
pub fn push_str(s: &mut String, t: &str)
    ensures
        final(s)@ == old(s)@ + t@,
{
    s.append(t);
}

/// The characters of `s`, in order.
pub(crate) fn chars_of(s: &str) -> (v: Vec<char>)
    ensures
        v@ == s@,
{
    broadcast use vstd::string::axiom_spec_iter;
    let mut v: Vec<char> = Vec::new();
    for c in it: s.chars()
        invariant
            it.seq() == s@,
            v@ == s@.take(it.index()),
    {
        v.push(c);
        assert(s@.take(it.index() + 1) == s@.take(it.index()).push(c));
    }
    assert(s@.take(s@.len() as int) == s@);
    v
}

/// Appends the characters `v[from..to]` to `s`.
pub fn push_chars(s: &mut String, v: &[char], from: usize, to: usize)
    requires
        from <= to <= v@.len(),
    ensures
        final(s)@ == old(s)@ + v@.subrange(from as int, to as int),
{
    let mut i: usize = from;
    while i < to
        invariant
            from <= i <= to <= v@.len(),
            s@ == old(s)@ + v@.subrange(from as int, i as int),
        decreases to - i,
    {
        push_char(s, v[i]);
        assert(v@.subrange(from as int, i + 1) == v@.subrange(from as int, i as int).push(v@[i as int]));
        i += 1;
    }
}

/// A string holding the characters `v[from..to]`.
pub fn string_of_range(v: &[char], from: usize, to: usize) -> (s: String)
    requires
        from <= to <= v@.len(),
    ensures
        s@ == v@.subrange(from as int, to as int),
{
    let mut s = String::new();
    push_chars(&mut s, v, from, to);
    s
}

/// Copy of `s` as an owned string.
pub fn owned(s: &str) -> (r: String)
    ensures
        r@ == s@,
{
    let mut r = String::new();
    r.append(s);
    r
}

/// Content equality of two strings: the same characters in the same order.
pub(crate) fn str_eq(a: &str, b: &str) -> (r: bool)
    ensures
        r == (a@ == b@),
{
    let x = chars_of(a);
    let y = chars_of(b);
    if x.len() != y.len() {
        return false;
    }
    let mut i: usize = 0;
    while i < x.len()
        invariant
            x@ == a@,
            y@ == b@,
            x@.len() == y@.len(),
            0 <= i <= x@.len(),
            forall|j: int| 0 <= j < i ==> x@[j] == y@[j],
        decreases x@.len() - i,
    {
        if x[i] != y[i] {
            assert(a@[i as int] != b@[i as int]);
            return false;
        }
        i += 1;
    }
    assert(x@ =~= y@);
    true
}

/// Appends the decimal notation of `n`.
pub fn push_decimal_u64(s: &mut String, n: u64)
    ensures
        final(s)@ == old(s)@ + decimal_nat(n as nat),
    decreases n,
{
    if n >= 10 {
        push_decimal_u64(s, n / 10);
    }
    let d: u8 = (n % 10) as u8;
    push_char(s, (48u8 + d) as char);
}

/// Appends the decimal notation of `n`, with a leading `-` when negative.
pub fn push_decimal_i64(s: &mut String, n: i64)
    ensures
        final(s)@ == old(s)@ + decimal_int(n as int),
{
    if n < 0 {
        push_char(s, '-');
        let m: u64 = (0i128 - n as i128) as u64;
        push_decimal_u64(s, m);
        assert(old(s)@.push('-') + decimal_nat(m as nat) == old(s)@ + (seq!['-'] + decimal_nat(
            m as nat,
        )));
    } else {
        push_decimal_u64(s, n as u64);
    }
}

/// The decimal notation of `n`.
pub fn decimal_string(n: i64) -> (s: String)
    ensures
        s@ == decimal_int(n as int),
{
    let mut s = String::new();
    push_decimal_i64(&mut s, n);
    s
}

/// Position of the first `c` in `v`, if any.
pub fn find_char(v: &[char], c: char) -> (r: Option<usize>)
    ensures
        r == (match first_index_of(v@, c) {
            Some(i) => Some(i as usize),
            None => None::<usize>,
        }),
{
    proof {
        lemma_first_index_of(v@, c);
    }
    let mut i: usize = 0;
    while i < v.len()
        invariant
            0 <= i <= v@.len(),
            forall|j: int| 0 <= j < i ==> v@[j] != c,
        decreases v.len() - i,
    {
        if v[i] == c {
            proof {
                lemma_first_index_unique(v@, c, i as int);
            }
            return Some(i);
        }
        i += 1;
    }
    None
}

pub proof fn lemma_first_index_unique(s: Seq<char>, c: char, i: int)
    requires
        0 <= i < s.len(),
        s[i] == c,
        forall|j: int| 0 <= j < i ==> s[j] != c,
    ensures
        first_index_of(s, c) == Some(i),
{
    lemma_first_index_of(s, c);
    match first_index_of(s, c) {
        Some(k) => {
            if k < i {
                assert(s[k] != c);
            } else if k > i {
                assert(s[i] != c);
            }
        },
        None => {
            assert(s[i] != c);
        },
    }
}


/// Position of the first `c` in `v` at or after `start`, if any.
pub fn find_char_from(v: &[char], c: char, start: usize) -> (r: Option<usize>)
    requires
        start <= v@.len(),
    ensures
        r == (match first_index_of(v@.skip(start as int), c) {
            Some(i) => Some((i + start) as usize),
            None => None::<usize>,
        }),
{
    let ghost t = v@.skip(start as int);
    proof {
        lemma_first_index_of(t, c);
    }
    let mut i: usize = start;
    while i < v.len()
        invariant
            start <= i <= v@.len(),
            t == v@.skip(start as int),
            forall|j: int| 0 <= j < i - start ==> t[j] != c,
        decreases v.len() - i,
    {
        if v[i] == c {
            proof {
                assert(t[i - start] == c);
                lemma_first_index_unique(t, c, i - start);
            }
            return Some(i);
        }
        assert(t[i - start] == v@[i as int]);
        i += 1;
    }
    None
}

/// The pieces of `s` between occurrences of `sep` (`str::split`).
pub fn split(s: &str, sep: char) -> (r: Vec<String>)
    ensures
        r.deep_view() == split_char(s@, sep),
{
    let v = chars_of(s);
    let n = v.len();
    let mut r: Vec<String> = Vec::new();
    let mut start: usize = 0;
    assert(v@.skip(0) == v@);
    assert(r.deep_view() =~= Seq::<Seq<char>>::empty());
    loop
        invariant
            start <= v@.len(),
            n == v@.len(),
            v@ == s@,
            split_char(s@, sep) == r.deep_view() + split_char(v@.skip(start as int), sep),
        decreases v@.len() - start,
    {
        let ghost rest = v@.skip(start as int);
        match find_char_from(v.as_slice(), sep, start) {
            Some(i) => {
                proof {
                    lemma_first_index_of(rest, sep);
                }
                assert(start <= i < v@.len());
                let piece = string_of_range(v.as_slice(), start, i);
                proof {
                    assert(rest.take(i - start) == v@.subrange(start as int, i as int));
                    assert(rest.skip(i - start + 1) == v@.skip(i + 1));
                }
                let ghost before = r.deep_view();
                r.push(piece);
                assert(r.deep_view() == before.push(piece@));
                assert(seq![piece@] + split_char(v@.skip(i + 1), sep) == split_char(rest, sep));
                assert(before + split_char(rest, sep) == r.deep_view() + split_char(v@.skip(i + 1), sep));
                start = i + 1;
            },
            None => {
                let piece = string_of_range(v.as_slice(), start, v.len());
                assert(v@.subrange(start as int, v@.len() as int) == rest);
                let ghost before = r.deep_view();
                r.push(piece);
                assert(r.deep_view() == before.push(piece@));
                assert(split_char(rest, sep) == seq![rest]);
                assert(r.deep_view() == before + split_char(rest, sep));
                return r;
            },
        }
    }
}

pub proof fn lemma_digits_value_push(s: Seq<char>, c: char)
    ensures
        digits_value(s.push(c)) == digits_value(s) * 10 + digit_value(c),
{
    assert(s.push(c).drop_last() == s);
}

/// `str::parse::<u32>`.
pub fn parse_u32_chars(v: &[char]) -> (r: Option<u32>)
    ensures
        r == parse_u32(v@),
{
    let start: usize = if v.len() > 0 && v[0] == '+' { 1 } else { 0 };
    let ghost body = if v@.len() > 0 && v@[0] == '+' { v@.drop_first() } else { v@ };
    assert(body == v@.skip(start as int));
    if start >= v.len() {
        assert(body.len() == 0);
        return None;
    }
    let mut acc: u64 = 0;
    let mut i: usize = start;
    while i < v.len()
        invariant
            start <= i <= v@.len(),
            body == v@.skip(start as int),
            body == (if v@.len() > 0 && v@[0] == '+' { v@.drop_first() } else { v@ }),
            acc <= u32::MAX,
            all_digits(body.take(i - start)),
            acc == digits_value(body.take(i - start)),
        decreases v.len() - i,
    {
        let c = v[i];
        assert(body[i - start] == c);
        if !('0' <= c && c <= '9') {
            assert(!is_ascii_digit(body[i - start]));
            assert(!all_digits(body));
            assert(parse_u32(v@).is_none());
            return None;
        }
        let d: u64 = (c as u32 - 48) as u64;
        proof {
            assert(body.take(i - start + 1) == body.take(i - start).push(c));
            lemma_digits_value_push(body.take(i - start), c);
        }
        let next: u64 = acc * 10 + d;
        if next > 0xFFFF_FFFFu64 {
            proof {
                lemma_digits_value_monotone(body, i - start + 1);
                assert(body.take(body.len() as int) == body);
                assert(digits_value(body) > u32::MAX);
                assert(parse_u32(v@).is_none());
            }
            return None;
        }
        acc = next;
        i += 1;
    }
    assert(body.take(i - start) == body);
    Some(acc as u32)
}

/// What `str::parse::<usize>` accepts: an optional `+`, then one or more
/// ASCII digits whose value fits in a `usize`.
pub open spec fn parse_usize(s: Seq<char>) -> Option<usize> {
    let body = if s.len() > 0 && s[0] == '+' {
        s.drop_first()
    } else {
        s
    };
    if body.len() > 0 && all_digits(body) && digits_value(body) <= usize::MAX {
        Some(digits_value(body) as usize)
    } else {
        None
    }
}

/// `str::parse::<usize>`.
pub fn parse_usize_chars(v: &[char]) -> (r: Option<usize>)
    ensures
        r == parse_usize(v@),
{
    let start: usize = if v.len() > 0 && v[0] == '+' { 1 } else { 0 };
    let ghost body = if v@.len() > 0 && v@[0] == '+' { v@.drop_first() } else { v@ };
    assert(body == v@.skip(start as int));
    if start >= v.len() {
        assert(body.len() == 0);
        return None;
    }
    let mut acc: u128 = 0;
    let mut i: usize = start;
    while i < v.len()
        invariant
            start <= i <= v@.len(),
            body == v@.skip(start as int),
            body == (if v@.len() > 0 && v@[0] == '+' { v@.drop_first() } else { v@ }),
            acc <= usize::MAX,
            all_digits(body.take(i - start)),
            acc == digits_value(body.take(i - start)),
        decreases v.len() - i,
    {
        let c = v[i];
        assert(body[i - start] == c);
        if !('0' <= c && c <= '9') {
            assert(!is_ascii_digit(body[i - start]));
            assert(!all_digits(body));
            return None;
        }
        let d: u128 = (c as u32 - 48) as u128;
        proof {
            assert(body.take(i - start + 1) == body.take(i - start).push(c));
            lemma_digits_value_push(body.take(i - start), c);
        }
        let next: u128 = acc * 10 + d;
        if next > usize::MAX as u128 {
            proof {
                lemma_digits_value_monotone(body, i - start + 1);
                assert(body.take(body.len() as int) == body);
            }
            return None;
        }
        acc = next;
        i += 1;
    }
    assert(body.take(i - start) == body);
    Some(acc as usize)
}


/// `trim_start(s)` skips exactly the leading white space.
pub proof fn lemma_trim_start_skip(s: Seq<char>, i: int)
    requires
        0 <= i <= s.len(),
        forall|j: int| 0 <= j < i ==> is_whitespace(#[trigger] s[j]),
    ensures
        trim_start(s) == trim_start(s.skip(i)),
    decreases i,
{
    if i > 0 {
        assert(s.drop_first().skip(i - 1) == s.skip(i));
        assert forall|j: int| 0 <= j < i - 1 implies is_whitespace(#[trigger] s.drop_first()[j]) by {
            assert(s.drop_first()[j] == s[j + 1]);
        }
        lemma_trim_start_skip(s.drop_first(), i - 1);
    } else {
        assert(s.skip(0) == s);
    }
}

/// `trim_end(s)` drops exactly the trailing white space.
pub proof fn lemma_trim_end_take(s: Seq<char>, i: int)
    requires
        0 <= i <= s.len(),
        forall|j: int| i <= j < s.len() ==> is_whitespace(#[trigger] s[j]),
    ensures
        trim_end(s) == trim_end(s.take(i)),
    decreases s.len() - i,
{
    if i < s.len() {
        assert(s.drop_last().take(i) == s.take(i));
        assert forall|j: int| i <= j < s.len() - 1 implies is_whitespace(#[trigger] s.drop_last()[j]) by {
            assert(s.drop_last()[j] == s[j]);
        }
        lemma_trim_end_take(s.drop_last(), i);
    } else {
        assert(s.take(i) == s);
    }
}

/// Whether `c` is white space (`char::is_whitespace`).
pub fn is_space(c: char) -> (r: bool)
    ensures
        r == is_whitespace(c),
{
    c == ' ' || c == '\t' || c == '\n' || c == '\u{B}' || c == '\u{C}' || c == '\r' || c == '\u{85}' || c == '\u{A0}'
        || c == '\u{1680}' || ('\u{2000}' <= c && c <= '\u{200A}') || c == '\u{2028}' || c == '\u{2029}' || c
        == '\u{202F}' || c == '\u{205F}' || c == '\u{3000}'
}

/// `s` without leading white space (`str::trim_start`).
pub fn trim_start_str(s: &str) -> (r: String)
    ensures
        r@ == trim_start(s@),
{
    let v = chars_of(s);
    let n = v.len();
    let mut a: usize = 0;
    while a < n && is_space(v[a])
        invariant
            0 <= a <= n,
            n == v@.len(),
            forall|j: int| 0 <= j < a ==> is_whitespace(#[trigger] v@[j]),
        decreases n - a,
    {
        a += 1;
    }
    proof {
        lemma_trim_start_skip(v@, a as int);
        if a < n {
            assert(!is_whitespace(v@.skip(a as int)[0]));
        }
        assert(v@.skip(a as int) == v@.subrange(a as int, n as int));
    }
    string_of_range(v.as_slice(), a, n)
}

/// `s` without its leading `c` characters (`str::trim_start_matches`
/// with a char).
pub open spec fn skip_leading(s: Seq<char>, c: char) -> Seq<char>
    decreases s.len(),
{
    if s.len() > 0 && s[0] == c {
        skip_leading(s.drop_first(), c)
    } else {
        s
    }
}

/// `skip_leading` drops exactly the leading run of `c`.
pub proof fn lemma_skip_leading(s: Seq<char>, c: char, i: int)
    requires
        0 <= i <= s.len(),
        forall|j: int| 0 <= j < i ==> #[trigger] s[j] == c,
    ensures
        skip_leading(s, c) == skip_leading(s.skip(i), c),
    decreases i,
{
    if i > 0 {
        assert(s.drop_first().skip(i - 1) == s.skip(i));
        assert forall|j: int| 0 <= j < i - 1 implies #[trigger] s.drop_first()[j] == c by {
            assert(s.drop_first()[j] == s[j + 1]);
        }
        lemma_skip_leading(s.drop_first(), c, i - 1);
    } else {
        assert(s.skip(0) == s);
    }
}

/// `str::trim_start_matches` with a char pattern.
pub fn trim_start_char(s: &str, c: char) -> (r: String)
    ensures
        r@ == skip_leading(s@, c),
{
    let v = chars_of(s);
    let n = v.len();
    let mut a: usize = 0;
    while a < n && v[a] == c
        invariant
            0 <= a <= n,
            n == v@.len(),
            forall|j: int| 0 <= j < a ==> #[trigger] v@[j] == c,
        decreases n - a,
    {
        a += 1;
    }
    proof {
        lemma_skip_leading(v@, c, a as int);
        if a < n {
            assert(v@.skip(a as int)[0] != c);
        }
        assert(v@.skip(a as int) == v@.subrange(a as int, n as int));
    }
    string_of_range(v.as_slice(), a, n)
}

/// `s` without leading and trailing white space (`str::trim`).
pub fn trim_str(s: &str) -> (r: String)
    ensures
        r@ == trim(s@),
{
    let v = chars_of(s);
    let n = v.len();
    let mut a: usize = 0;
    while a < n && is_space(v[a])
        invariant
            0 <= a <= n,
            n == v@.len(),
            forall|j: int| 0 <= j < a ==> is_whitespace(#[trigger] v@[j]),
        decreases n - a,
    {
        a += 1;
    }
    proof {
        lemma_trim_start_skip(v@, a as int);
        if a < n {
            assert(!is_whitespace(v@.skip(a as int)[0]));
        }
        assert(trim_start(v@) == v@.skip(a as int));
    }
    let mut b: usize = n;
    while b > a && is_space(v[b - 1])
        invariant
            a <= b <= n,
            n == v@.len(),
            forall|j: int| b <= j < n ==> is_whitespace(#[trigger] v@[j]),
        decreases b - a,
    {
        b -= 1;
    }
    proof {
        let t = v@.skip(a as int);
        assert forall|j: int| b - a <= j < t.len() implies is_whitespace(#[trigger] t[j]) by {
            assert(t[j] == v@[a + j]);
        }
        lemma_trim_end_take(t, b - a);
        if b > a {
            assert(t.take(b - a).last() == v@[b - 1]);
        }
        assert(t.take(b - a) == v@.subrange(a as int, b as int));
    }
    string_of_range(v.as_slice(), a, b)
}

/// The lines of `s` (`str::lines`): split at `\n`, without a last empty
/// piece, each without a trailing `\r`.
pub open spec fn lines_of(s: Seq<char>) -> Seq<Seq<char>> {
    let parts = split_char(s, '\n');
    let kept = if parts.last().len() == 0 {
        parts.drop_last()
    } else {
        parts
    };
    kept.map_values(|l: Seq<char>| strip_cr(l))
}

/// `l` without one trailing `\r`.
pub open spec fn strip_cr(l: Seq<char>) -> Seq<char> {
    if l.len() > 0 && l.last() == '\r' {
        l.drop_last()
    } else {
        l
    }
}

/// `str::lines`.
pub fn lines(s: &str) -> (r: Vec<String>)
    ensures
        views_of(r@) == lines_of(s@),
{
    let parts = split(s, '\n');
    let ghost pv = split_char(s@, '\n');
    assert(views_of(parts@) == pv);
    let mut kept = parts.len();
    proof {
        lemma_split_char_nonempty(s@, '\n');
        assert(pv.len() > 0);
    }
    if chars_of(parts[parts.len() - 1].as_str()).len() == 0 {
        assert(pv.last().len() == 0) by {
            assert(pv.last() == parts@[parts@.len() - 1]@);
        }
        kept = parts.len() - 1;
    } else {
        assert(pv.last() == parts@[parts@.len() - 1]@);
    }
    let mut r: Vec<String> = Vec::new();
    let mut i: usize = 0;
    while i < kept
        invariant
            0 <= i <= kept <= parts@.len(),
            views_of(parts@) == pv,
            kept == (if pv.last().len() == 0 { pv.len() - 1 } else { pv.len() as int }),
            views_of(r@) == pv.take(kept as int).map_values(|l: Seq<char>| strip_cr(l)).take(i as int),
        decreases kept - i,
    {
        let v = chars_of(parts[i].as_str());
        let n = v.len();
        let line = if n > 0 && v[n - 1] == '\r' {
            string_of_range(v.as_slice(), 0, n - 1)
        } else {
            string_of_range(v.as_slice(), 0, n)
        };
        proof {
            assert(pv[i as int] == parts@[i as int]@);
            if n > 0 {
                assert(v@.subrange(0, n - 1) == v@.drop_last());
            }
            assert(v@.subrange(0, n as int) == v@);
            assert(line@ == strip_cr(pv[i as int]));
        }
        let ghost before = views_of(r@);
        r.push(line);
        assert(views_of(r@) == before.push(line@));
        i += 1;
    }
    proof {
        let kp = if pv.last().len() == 0 { pv.drop_last() } else { pv };
        assert(pv.take(kept as int) == kp);
        assert(kp.map_values(|l: Seq<char>| strip_cr(l)).take(kept as int) == kp.map_values(|l: Seq<char>| strip_cr(l)));
    }
    r
}

/// `split_char` always gives at least one piece.
pub proof fn lemma_split_char_nonempty(s: Seq<char>, sep: char)
    ensures
        split_char(s, sep).len() > 0,
    decreases s.len(),
{
    match first_index_of(s, sep) {
        None => {},
        Some(i) => {
            lemma_first_index_of(s, sep);
            lemma_split_char_nonempty(s.skip(i + 1), sep);
        },
    }
}


/// Position of the first occurrence of `p` in `s`, if any.
pub open spec fn first_occurrence(s: Seq<char>, p: Seq<char>) -> Option<int> {
    if exists|i: int| occurs_at(s, p, i) {
        Some(choose|i: int| occurs_at(s, p, i) && forall|j: int| 0 <= j < i ==> !occurs_at(s, p, j))
    } else {
        None
    }
}

/// The first position where `p` occurs is what `first_occurrence` gives.
pub proof fn lemma_first_occurrence(s: Seq<char>, p: Seq<char>, i: int)
    requires
        occurs_at(s, p, i),
        forall|j: int| 0 <= j < i ==> !occurs_at(s, p, j),
    ensures
        first_occurrence(s, p) == Some(i),
{
    let w = choose|k: int| occurs_at(s, p, k) && forall|j: int| 0 <= j < k ==> !occurs_at(s, p, j);
    assert(occurs_at(s, p, w) && forall|j: int| 0 <= j < w ==> !occurs_at(s, p, j));
    if w < i {
        assert(!occurs_at(s, p, w));
    } else if w > i {
        assert(!occurs_at(s, p, i));
    }
}

/// `str::find` with a string pattern.
pub fn find_str(s: &str, p: &str) -> (r: Option<usize>)
    ensures
        match first_occurrence(s@, p@) {
            Some(i) => r == Some(i as usize),
            None => r is None,
        },
        r matches Some(i) ==> occurs_at(s@, p@, i as int) && forall|j: int| 0 <= j < i ==> !occurs_at(s@, p@, j),
{
    let v = chars_of(s);
    let pv = chars_of(p);
    let n = v.len();
    let mut i: usize = 0;
    while i < n
        invariant
            0 <= i <= n,
            n == v@.len(),
            v@ == s@,
            pv@ == p@,
            forall|j: int| 0 <= j < i ==> !occurs_at(s@, p@, j),
        decreases n - i,
    {
        let m = matches_at(v.as_slice(), pv.as_slice(), i);
        proof {
            if p@.len() <= n - i {
                assert(v@.skip(i as int).take(p@.len() as int) =~= v@.subrange(i as int, i + p@.len()));
            }
        }
        if m {
            proof {
                lemma_first_occurrence(s@, p@, i as int);
            }
            return Some(i);
        }
        i += 1;
    }
    let m = matches_at(v.as_slice(), pv.as_slice(), n);
    if m {
        proof {
            assert(p@.len() == 0);
            assert(s@.subrange(n as int, n as int) =~= p@);
            lemma_first_occurrence(s@, p@, n as int);
        }
        return Some(n);
    }
    proof {
        assert forall|k: int| !occurs_at(s@, p@, k) by {
            if k == n {
                if occurs_at(s@, p@, k) {
                    assert(p@.len() == 0);
                    assert(v@.skip(n as int).take(0) =~= p@);
                }
            }
        }
    }
    None
}

/// A longer run of digits is worth at least as much as its prefix.
pub proof fn lemma_digits_value_monotone(s: Seq<char>, k: int)
    requires
        0 <= k <= s.len(),
    ensures
        digits_value(s.take(k)) <= digits_value(s),
    decreases s.len() - k,
{
    if k < s.len() {
        lemma_digits_value_monotone(s, k + 1);
        assert(s.take(k + 1) == s.take(k).push(s[k]));
        lemma_digits_value_push(s.take(k), s[k]);
        assert(digits_value(s.take(k)) <= digits_value(s.take(k)) * 10);
    } else {
        assert(s.take(k) == s);
    }
}

/// `p` is a prefix of `s`.
pub fn starts_with_chars(s: &[char], p: &[char]) -> (r: bool)
    ensures
        r == has_prefix(s@, p@),
{
    if p.len() > s.len() {
        return false;
    }
    let mut i: usize = 0;
    while i < p.len()
        invariant
            p@.len() <= s@.len(),
            0 <= i <= p@.len(),
            forall|j: int| 0 <= j < i ==> s@[j] == p@[j],
        decreases p.len() - i,
    {
        if s[i] != p[i] {
            assert(s@.take(p@.len() as int)[i as int] != p@[i as int]);
            return false;
        }
        i += 1;
    }
    assert(s@.take(p@.len() as int) =~= p@);
    true
}

/// `p` is a prefix of `s`.
pub fn starts_with(s: &str, p: &str) -> (r: bool)
    ensures
        r == has_prefix(s@, p@),
{
    let sv = chars_of(s);
    let pv = chars_of(p);
    starts_with_chars(sv.as_slice(), pv.as_slice())
}

/// `p` is a suffix of `s`.
pub fn ends_with(s: &str, p: &str) -> (r: bool)
    ensures
        r == has_suffix(s@, p@),
{
    let sv = chars_of(s);
    let pv = chars_of(p);
    if pv.len() > sv.len() {
        return false;
    }
    let n = sv.len();
    let off = n - pv.len();
    let mut i: usize = 0;
    while i < pv.len()
        invariant
            n == sv@.len(),
            off + pv@.len() == sv@.len(),
            sv@ == s@,
            pv@ == p@,
            0 <= i <= pv@.len(),
            forall|j: int| 0 <= j < i ==> sv@[off + j] == pv@[j],
        decreases pv.len() - i,
    {
        assert(off + i < sv@.len());
        if sv[off + i] != pv[i] {
            assert(sv@.skip(off as int)[i as int] != pv@[i as int]);
            return false;
        }
        i += 1;
    }
    assert(sv@.skip(off as int) =~= pv@);
    true
}


/// View of an optional string.
pub open spec fn opt_view(o: Option<String>) -> Option<Seq<char>> {
    match o {
        Some(s) => Some(s@),
        None => None,
    }
}

/// Views of a sequence of strings.
pub open spec fn views_of(v: Seq<String>) -> Seq<Seq<char>> {
    v.map_values(|s: String| s@)
}

/// A copy of an optional string.
pub fn clone_opt(o: &Option<String>) -> (r: Option<String>)
    ensures
        r == *o,
{
    match o {
        Some(s) => Some(s.clone()),
        None => None,
    }
}

/// A copy of a list of strings.
pub fn clone_strings(v: &Vec<String>) -> (r: Vec<String>)
    ensures
        r@ == v@,
{
    let mut r: Vec<String> = Vec::new();
    let mut i: usize = 0;
    while i < v.len()
        invariant
            0 <= i <= v@.len(),
            r@ == v@.take(i as int),
        decreases v.len() - i,
    {
        r.push(v[i].clone());
        assert(v@.take(i + 1) == v@.take(i as int).push(v@[i as int]));
        i += 1;
    }
    assert(v@.take(v@.len() as int) == v@);
    r
}

/// A copy of an optional list of strings.
pub fn clone_opt_strings(o: &Option<Vec<String>>) -> (r: Option<Vec<String>>)
    ensures
        match (r, *o) {
            (Some(a), Some(b)) => a@ == b@,
            (None, None) => true,
            _ => false,
        },
{
    match o {
        Some(v) => Some(clone_strings(v)),
        None => None,
    }
}

/// Code-point (equivalently, UTF-8 byte) lexicographic order: `String`'s `<`.
pub open spec fn lex_lt(a: Seq<char>, b: Seq<char>) -> bool
    decreases a.len(),
{
    if a.len() == 0 {
        b.len() > 0
    } else if b.len() == 0 {
        false
    } else if a[0] == b[0] {
        lex_lt(a.drop_first(), b.drop_first())
    } else {
        a[0] < b[0]
    }
}

pub proof fn lemma_lex_lt_irreflexive(a: Seq<char>)
    ensures
        !lex_lt(a, a),
    decreases a.len(),
{
    if a.len() > 0 {
        lemma_lex_lt_irreflexive(a.drop_first());
    }
}

pub proof fn lemma_lex_lt_asymmetric(a: Seq<char>, b: Seq<char>)
    ensures
        !(lex_lt(a, b) && lex_lt(b, a)),
    decreases a.len(),
{
    if a.len() > 0 && b.len() > 0 && a[0] == b[0] {
        lemma_lex_lt_asymmetric(a.drop_first(), b.drop_first());
    }
}

pub proof fn lemma_lex_lt_total(a: Seq<char>, b: Seq<char>)
    ensures
        a != b ==> lex_lt(a, b) || lex_lt(b, a),
    decreases a.len(),
{
    if a.len() > 0 && b.len() > 0 && a[0] == b[0] {
        lemma_lex_lt_total(a.drop_first(), b.drop_first());
        if a.drop_first() == b.drop_first() {
            assert(a == seq![a[0]] + a.drop_first());
            assert(b == seq![b[0]] + b.drop_first());
        }
    } else if a.len() > 0 && b.len() > 0 {
    } else if a.len() == 0 && b.len() == 0 {
        assert(a == b);
    }
}

pub proof fn lemma_lex_lt_transitive(a: Seq<char>, b: Seq<char>, c: Seq<char>)
    requires
        lex_lt(a, b),
        lex_lt(b, c),
    ensures
        lex_lt(a, c),
    decreases a.len(),
{
    if a.len() > 0 && b.len() > 0 && c.len() > 0 && a[0] == b[0] && b[0] == c[0] {
        lemma_lex_lt_transitive(a.drop_first(), b.drop_first(), c.drop_first());
    }
}

/// `a < b` in `String` order.
pub fn str_lt(a: &str, b: &str) -> (r: bool)
    ensures
        r == lex_lt(a@, b@),
{
    let av = chars_of(a);
    let bv = chars_of(b);
    let mut i: usize = 0;
    assert(a@.skip(0) == a@);
    assert(b@.skip(0) == b@);
    while i < av.len() && i < bv.len()
        invariant
            0 <= i <= av@.len(),
            i <= bv@.len(),
            av@ == a@,
            bv@ == b@,
            lex_lt(a@, b@) == lex_lt(a@.skip(i as int), b@.skip(i as int)),
        decreases av.len() - i,
    {
        let x = av[i];
        let y = bv[i];
        if x != y {
            proof {
                assert(a@.skip(i as int)[0] == x);
                assert(b@.skip(i as int)[0] == y);
            }
            return x < y;
        }
        proof {
            assert(a@.skip(i as int).drop_first() == a@.skip(i + 1));
            assert(b@.skip(i as int).drop_first() == b@.skip(i + 1));
        }
        i += 1;
    }
    i < bv.len()
}


pub proof fn lemma_push_to_set<A>(s: Seq<A>, a: A)
    ensures
        s.push(a).to_set() == s.to_set().insert(a),
{
    let t = s.push(a);
    assert forall|y: A| t.to_set().contains(y) <==> s.to_set().insert(a).contains(y) by {
        if t.to_set().contains(y) {
            let i = choose|i: int| 0 <= i < t.len() && t[i] == y;
            if i < s.len() {
                assert(s[i] == y);
            }
        }
        if s.to_set().contains(y) {
            let i = choose|i: int| 0 <= i < s.len() && s[i] == y;
            assert(t[i] == y);
        }
        if y == a {
            assert(t[s.len() as int] == y);
        }
    }
    assert(t.to_set() =~= s.to_set().insert(a));
}

/// `s` is in strictly increasing `String` order (hence free of duplicates).
pub open spec fn strictly_sorted(s: Seq<Seq<char>>) -> bool {
    forall|i: int, j: int| 0 <= i < j < s.len() ==> lex_lt(#[trigger] s[i], #[trigger] s[j])
}

/// The distinct strings of `v`, in increasing order (`sort` then `dedup`).
pub fn sort_dedup(v: &Vec<String>) -> (r: Vec<String>)
    ensures
        strictly_sorted(views_of(r@)),
        views_of(r@).to_set() == views_of(v@).to_set(),
{
    let mut r: Vec<String> = Vec::new();
    let mut i: usize = 0;
    assert(views_of(r@).to_set() =~= views_of(v@.take(0)).to_set());
    while i < v.len()
        invariant
            0 <= i <= v@.len(),
            strictly_sorted(views_of(r@)),
            views_of(r@).to_set() == views_of(v@.take(i as int)).to_set(),
        decreases v@.len() - i,
    {
        let x = &v[i];
        let ghost rv = views_of(r@);
        let mut k: usize = 0;
        while k < r.len() && str_lt(r[k].as_str(), x.as_str())
            invariant
                0 <= k <= r@.len(),
                rv == views_of(r@),
                forall|j: int| 0 <= j < k ==> lex_lt(#[trigger] rv[j], x@),
            decreases r@.len() - k,
        {
            k += 1;
        }
        proof {
            assert(v@.take(i + 1) == v@.take(i as int).push(*x));
            assert(views_of(v@.take(i + 1)) == views_of(v@.take(i as int)).push(x@));
            lemma_push_to_set(views_of(v@.take(i as int)), x@);
        }
        if k < r.len() && str_eq(r[k].as_str(), x.as_str()) {
            assert(rv[k as int] == x@);
            assert(views_of(v@.take(i + 1)).to_set() =~= views_of(v@.take(i as int)).to_set().insert(x@));
            assert(rv.to_set().contains(x@));
            assert(rv.to_set().insert(x@) =~= rv.to_set());
        } else {
            proof {
                if k < rv.len() {
                    assert(!lex_lt(rv[k as int], x@));
                    lemma_lex_lt_total(rv[k as int], x@);
                }
                assert forall|j: int| k <= j < rv.len() implies lex_lt(x@, #[trigger] rv[j]) by {
                    if j > k {
                        assert(lex_lt(rv[k as int], rv[j]));
                        lemma_lex_lt_transitive(x@, rv[k as int], rv[j]);
                    }
                }
            }
            r.insert(k, x.clone());
            proof {
                let nv = views_of(r@);
                assert(nv =~= rv.insert(k as int, x@));
                assert forall|a: int, b: int| 0 <= a < b < nv.len() implies lex_lt(#[trigger] nv[a], #[trigger] nv[b]) by {
                    if b < k {
                        assert(nv[a] == rv[a] && nv[b] == rv[b]);
                    } else if a > k {
                        assert(nv[a] == rv[a - 1] && nv[b] == rv[b - 1]);
                    } else if a == k {
                        assert(nv[b] == rv[b - 1]);
                    } else if b == k {
                        assert(nv[a] == rv[a]);
                    } else {
                        assert(nv[a] == rv[a] && nv[b] == rv[b - 1]);
                        lemma_lex_lt_transitive(rv[a], x@, rv[b - 1]);
                    }
                }
                assert(nv.to_set() =~= rv.to_set().insert(x@)) by {
                    assert forall|y: Seq<char>| nv.to_set().contains(y) <==> rv.to_set().insert(x@).contains(y) by {
                        if nv.to_set().contains(y) {
                            let a = choose|a: int| 0 <= a < nv.len() && nv[a] == y;
                            if a < k {
                                assert(rv[a] == y);
                            } else if a > k {
                                assert(rv[a - 1] == y);
                            }
                        }
                        if rv.to_set().contains(y) {
                            let a = choose|a: int| 0 <= a < rv.len() && rv[a] == y;
                            if a < k {
                                assert(nv[a] == y);
                            } else {
                                assert(nv[a + 1] == y);
                            }
                        }
                        if y == x@ {
                            assert(nv[k as int] == y);
                        }
                    }
                }
                assert(views_of(v@.take(i + 1)).to_set() =~= views_of(v@.take(i as int)).to_set().insert(x@));
            }
        }
        i += 1;
    }
    assert(v@.take(v@.len() as int) == v@);
    r
}


/// `s` with every occurrence of the non-empty `pat` replaced by `rep`,
/// scanning left to right without overlap (`str::replace`).
pub open spec fn replace_seq(s: Seq<char>, pat: Seq<char>, rep: Seq<char>) -> Seq<char>
    decreases s.len(),
{
    if pat.len() == 0 || s.len() < pat.len() {
        s
    } else if s.take(pat.len() as int) == pat {
        rep + replace_seq(s.skip(pat.len() as int), pat, rep)
    } else {
        seq![s[0]] + replace_seq(s.drop_first(), pat, rep)
    }
}

/// `pat` occurs in `v` at position `i`.
pub fn matches_at(v: &[char], pat: &[char], i: usize) -> (r: bool)
    requires
        i <= v@.len(),
    ensures
        r == (pat@.len() <= v@.len() - i && v@.skip(i as int).take(pat@.len() as int) == pat@),
{
    let n = v.len();
    if pat.len() > n - i {
        return false;
    }
    let mut k: usize = 0;
    while k < pat.len()
        invariant
            n == v@.len(),
            pat@.len() <= n - i,
            0 <= k <= pat@.len(),
            forall|j: int| 0 <= j < k ==> v@[i + j] == pat@[j],
        decreases pat@.len() - k,
    {
        if v[i + k] != pat[k] {
            assert(v@.skip(i as int).take(pat@.len() as int)[k as int] != pat@[k as int]);
            return false;
        }
        k += 1;
    }
    assert(v@.skip(i as int).take(pat@.len() as int) =~= pat@);
    true
}

/// `s` with every occurrence of `pat` replaced by `rep` (`str::replace`).
pub fn replace(s: &str, pat: &str, rep: &str) -> (r: String)
    requires
        pat@.len() > 0,
    ensures
        r@ == replace_seq(s@, pat@, rep@),
{
    let v = chars_of(s);
    let p = chars_of(pat);
    let n = v.len();
    let mut r = String::new();
    let mut i: usize = 0;
    assert(v@.skip(0) == v@);
    while i < n
        invariant
            n == v@.len(),
            v@ == s@,
            p@ == pat@,
            p@.len() > 0,
            0 <= i <= n,
            r@ + replace_seq(v@.skip(i as int), pat@, rep@) == replace_seq(s@, pat@, rep@),
        decreases n - i,
    {
        let ghost rest = v@.skip(i as int);
        if matches_at(v.as_slice(), p.as_slice(), i) {
            push_str(&mut r, rep);
            assert(rest.skip(p@.len() as int) == v@.skip(i + p@.len()));
            assert(r@ + replace_seq(v@.skip(i + p@.len()), pat@, rep@) =~= replace_seq(s@, pat@, rep@));
            i += p.len();
        } else {
            let c = v[i];
            push_char(&mut r, c);
            proof {
                if rest.len() >= p@.len() {
                    assert(rest.drop_first() == v@.skip(i + 1));
                    assert(rest[0] == c);
                } else {
                    assert(replace_seq(rest, pat@, rep@) == rest);
                    assert(rest.len() >= 1);
                    assert(rest == seq![c] + v@.skip(i + 1));
                    lemma_replace_short(v@.skip(i + 1), pat@, rep@);
                }
            }
            assert(r@ + replace_seq(v@.skip(i + 1), pat@, rep@) =~= replace_seq(s@, pat@, rep@));
            i += 1;
        }
    }
    assert(v@.skip(n as int).len() == 0);
    assert(r@ + Seq::<char>::empty() == r@);
    r
}

pub proof fn lemma_replace_short(s: Seq<char>, pat: Seq<char>, rep: Seq<char>)
    requires
        s.len() < pat.len(),
    ensures
        replace_seq(s, pat, rep) == s,
{
}

} // verus!
