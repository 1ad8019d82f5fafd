use vstd::prelude::*;
use vstd::utf8::{decode_utf8, valid_utf8};

verus! {

/// The first index at or after `from` at which `s` holds `c`, or `s.len()`
/// if there is none.
pub open spec fn index_from<T>(s: Seq<T>, c: T, from: int) -> int
    decreases s.len() - from,
{
    if from < 0 || from >= s.len() {
        s.len() as int
    } else if s[from] == c {
        from
    } else {
        index_from(s, c, from + 1)
    }
}

/// The first index at which `s` holds `c`, or `s.len()` if there is none.
pub open spec fn index_of<T>(s: Seq<T>, c: T) -> int {
    index_from(s, c, 0)
}

/// The text before the first `c`; all of `s` if it holds no `c`.
pub open spec fn before_first(s: Seq<char>, c: char) -> Seq<char> {
    s.subrange(0, index_of(s, c))
}

/// The text after the first `c`, if `s` holds one.
pub open spec fn after_first(s: Seq<char>, c: char) -> Option<Seq<char>> {
    let i = index_of(s, c);
    if i < s.len() {
        Some(s.subrange(i + 1, s.len() as int))
    } else {
        None
    }
}

/// `s` ends with `suffix`.
pub open spec fn ends_with(s: Seq<char>, suffix: Seq<char>) -> bool {
    s.len() >= suffix.len() && s.subrange(s.len() - suffix.len(), s.len() as int) == suffix
}

/// `s` without `suffix` at its end, if it ends with it.
pub open spec fn strip_suffix(s: Seq<char>, suffix: Seq<char>) -> Option<Seq<char>> {
    if ends_with(s, suffix) {
        Some(s.subrange(0, s.len() - suffix.len()))
    } else {
        None
    }
}

/// `s` holds `a` at index `k` and `b` directly after it.
pub open spec fn pair_at(s: Seq<char>, a: char, b: char, k: int) -> bool {
    0 <= k && k + 1 < s.len() && s[k] == a && s[k + 1] == b
}

/// The first index at or after `from` at which `s` holds `a` directly
/// followed by `b`, or `s.len()` if there is none.
pub open spec fn pair_index_from(s: Seq<char>, a: char, b: char, from: int) -> int
    decreases s.len() - from,
{
    if from < 0 || from + 1 >= s.len() {
        s.len() as int
    } else if pair_at(s, a, b, from) {
        from
    } else {
        pair_index_from(s, a, b, from + 1)
    }
}

/// The decimal digit that stands for `d`.
pub open spec fn digit_char(d: nat) -> char
    recommends
        d < 10,
{
    if d == 0 {
        '0'
    } else if d == 1 {
        '1'
    } else if d == 2 {
        '2'
    } else if d == 3 {
        '3'
    } else if d == 4 {
        '4'
    } else if d == 5 {
        '5'
    } else if d == 6 {
        '6'
    } else if d == 7 {
        '7'
    } else if d == 8 {
        '8'
    } else {
        '9'
    }
}

/// `n` written in decimal, without sign or leading zeros.
pub open spec fn decimal(n: nat) -> Seq<char>
    decreases n,
{
    if n < 10 {
        seq![digit_char(n)]
    } else {
        decimal(n / 10).push(digit_char(n % 10))
    }
}

/// `c` is one of `'0'` to `'9'`.
pub open spec fn is_digit(c: char) -> bool {
    '0' <= c <= '9'
}

/// The number that the decimal digits `s` stand for.
pub open spec fn digits_value(s: Seq<char>) -> nat
    decreases s.len(),
{
    if s.len() == 0 {
        0
    } else {
        (digits_value(s.drop_last()) * 10 + (s.last() as nat - '0' as nat)) as nat
    }
}

/// The digits of `s`: `s` itself, or what follows a leading `+`.
pub open spec fn unsigned_digits(s: Seq<char>) -> Seq<char> {
    if s.len() > 0 && s[0] == '+' {
        s.subrange(1, s.len() as int)
    } else {
        s
    }
}

/// The number that `s` stands for: an optional `+` and then one or more
/// decimal digits, whose value fits a `usize`. Anything else stands for no
/// number.
pub open spec fn parse_number(s: Seq<char>) -> Option<usize> {
    let d = unsigned_digits(s);
    if d.len() > 0 && (forall|i: int| 0 <= i < d.len() ==> is_digit(#[trigger] d[i]))
        && digits_value(d) <= usize::MAX {
        Some(digits_value(d) as usize)
    } else {
        None
    }
}

/// `index_from` stays in range and finds the first `c`.
pub proof fn lemma_index_from<T>(s: Seq<T>, c: T, from: int)
    requires
        0 <= from <= s.len(),
    ensures
        from <= index_from(s, c, from) <= s.len(),
        forall|k: int| from <= k < index_from(s, c, from) ==> s[k] != c,
        index_from(s, c, from) < s.len() ==> s[index_from(s, c, from)] == c,
    decreases s.len() - from,
{
    if from < s.len() && s[from] != c {
        lemma_index_from(s, c, from + 1);
    }
}

/// An index that holds the first `c` at or after `from` is `index_from`.
pub proof fn lemma_index_from_is<T>(s: Seq<T>, c: T, from: int, i: int)
    requires
        0 <= from <= i <= s.len(),
        forall|k: int| from <= k < i ==> s[k] != c,
        i < s.len() ==> s[i] == c,
    ensures
        index_from(s, c, from) == i,
{
    lemma_index_from(s, c, from);
}

/// Searching the tail of `s` from its start is searching `s` from where the
/// tail begins.
pub proof fn lemma_index_of_tail<T>(s: Seq<T>, c: T, from: int)
    requires
        0 <= from <= s.len(),
    ensures
        index_of(s.subrange(from, s.len() as int), c) == index_from(s, c, from) - from,
{
    let tail = s.subrange(from, s.len() as int);
    lemma_index_from(s, c, from);
    lemma_index_from_is(tail, c, 0, index_from(s, c, from) - from);
}

/// `pair_index_from` stays in range and finds the first such pair.
pub proof fn lemma_pair_index_from(s: Seq<char>, a: char, b: char, from: int)
    requires
        0 <= from <= s.len(),
    ensures
        from <= pair_index_from(s, a, b, from) <= s.len(),
        forall|k: int|
            from <= k < pair_index_from(s, a, b, from) ==> !#[trigger] pair_at(s, a, b, k),
        pair_index_from(s, a, b, from) < s.len() ==> pair_at(
            s,
            a,
            b,
            pair_index_from(s, a, b, from),
        ),
    decreases s.len() - from,
{
    if from + 1 < s.len() && !pair_at(s, a, b, from) {
        lemma_pair_index_from(s, a, b, from + 1);
    }
}

/// An index that holds the first such pair at or after `from` is
/// `pair_index_from`.
pub proof fn lemma_pair_index_from_is(s: Seq<char>, a: char, b: char, from: int, i: int)
    requires
        0 <= from <= i <= s.len(),
        forall|k: int| from <= k < i ==> !#[trigger] pair_at(s, a, b, k),
        i < s.len() ==> pair_at(s, a, b, i),
    ensures
        pair_index_from(s, a, b, from) == i,
{
    lemma_pair_index_from(s, a, b, from);
}

/// A longer run of digits stands for a number that is no smaller.
pub proof fn lemma_digits_value_prefix(s: Seq<char>, n: int)
    requires
        0 <= n <= s.len(),
        forall|i: int| 0 <= i < s.len() ==> is_digit(#[trigger] s[i]),
    ensures
        digits_value(s.subrange(0, n)) <= digits_value(s),
    decreases s.len() - n,
{
    if n < s.len() {
        let shorter = s.drop_last();
        assert(shorter.subrange(0, n) =~= s.subrange(0, n));
        assert(is_digit(s[s.len() - 1]));
        lemma_digits_value_prefix(shorter, n);
    } else {
        assert(s.subrange(0, n) =~= s);
    }
}

/// `core::str::from_utf8`: succeeds on exactly the byte sequences that are
/// well-formed UTF-8, and the text it gives is what they decode to.
#[verifier::external_body]
pub(crate) fn text_of(bytes: &[u8]) -> (r: Option<&str>)
    ensures
        r.is_some() == valid_utf8(bytes@),
        r matches Some(s) ==> s@ == decode_utf8(bytes@),
{
    core::str::from_utf8(bytes).ok()
}

/// The characters of `s`, in order.
pub fn chars_of(s: &str) -> (v: Vec<char>)
    ensures
        v@ == s@,
{
    let mut v: Vec<char> = Vec::new();
    for c in it: s.chars()
        invariant
            it.seq() == s@,
            v@ == it.seq().subrange(0, it.index() as int),
    {
        v.push(c);
    }
    v
}

/// The first index at or after `from` at which `v` holds `c`.
pub fn find_from(v: &Vec<char>, c: char, from: usize) -> (i: usize)
    ensures
        i == index_from(v@, c, from as int),
        i <= v.len(),
        from <= v.len() ==> from <= i,
{
    if from > v.len() {
        return v.len();
    }
    let mut i: usize = from;
    while i < v.len() && v[i] != c
        invariant
            from <= i <= v.len(),
            forall|k: int| from <= k < i ==> v@[k] != c,
        decreases v.len() - i,
    {
        i += 1;
    }
    proof {
        lemma_index_from_is(v@, c, from as int, i as int);
    }
    i
}

/// The first index at or after `from` at which `bytes` holds `c`.
pub fn find_byte_from(bytes: &[u8], c: u8, from: usize) -> (i: usize)
    ensures
        i == index_from(bytes@, c, from as int),
        i <= bytes.len(),
        from <= bytes.len() ==> from <= i,
{
    if from > bytes.len() {
        return bytes.len();
    }
    let mut i: usize = from;
    while i < bytes.len() && bytes[i] != c
        invariant
            from <= i <= bytes.len(),
            forall|k: int| from <= k < i ==> bytes@[k] != c,
        decreases bytes.len() - i,
    {
        i += 1;
    }
    proof {
        lemma_index_from_is(bytes@, c, from as int, i as int);
    }
    i
}

/// The first index at or after `from` at which `v` holds `a` directly
/// followed by `b`.
pub fn find_pair_from(v: &Vec<char>, a: char, b: char, from: usize) -> (i: usize)
    ensures
        i == pair_index_from(v@, a, b, from as int),
        i <= v.len(),
        from <= v.len() ==> from <= i,
{
    let n = v.len();
    if from > n {
        return n;
    }
    let mut i: usize = from;
    while i < n && !(i + 1 < n && v[i] == a && v[i + 1] == b)
        invariant
            n == v.len(),
            from <= i <= n,
            forall|k: int| from <= k < i ==> !#[trigger] pair_at(v@, a, b, k),
        decreases n - i,
    {
        i += 1;
    }
    proof {
        if i < n {
            lemma_pair_index_from_is(v@, a, b, from as int, i as int);
        } else {
            lemma_pair_index_from_is(v@, a, b, from as int, n as int);
        }
    }
    i
}

/// Whether `lo` and `hi` bound a range of `v` and `v` holds exactly the text
/// `word` in it.
pub fn range_is(v: &Vec<char>, lo: usize, hi: usize, word: &str) -> (b: bool)
    ensures
        b == (lo <= hi <= v.len() && v@.subrange(lo as int, hi as int) == word@),
{
    if !(lo <= hi && hi <= v.len()) {
        return false;
    }
    let w = chars_of(word);
    if w.len() != hi - lo {
        return false;
    }
    let mut k: usize = 0;
    while k < w.len()
        invariant
            lo <= hi <= v.len(),
            w.len() == hi - lo,
            w@ == word@,
            k <= w.len(),
            forall|j: int| 0 <= j < k ==> v@[lo + j] == w@[j],
        decreases w.len() - k,
    {
        if v[lo + k] != w[k] {
            assert(v@.subrange(lo as int, hi as int)[k as int] != w@[k as int]);
            return false;
        }
        k += 1;
    }
    assert(v@.subrange(lo as int, hi as int) =~= w@);
    true
}

/// The text that `digit_char` gives for `d`.
fn digit_text(d: usize) -> (t: &'static str)
    requires
        d < 10,
    ensures
        t@ == seq![digit_char(d as nat)],
{
    proof {
        reveal_strlit("0");
        reveal_strlit("1");
        reveal_strlit("2");
        reveal_strlit("3");
        reveal_strlit("4");
        reveal_strlit("5");
        reveal_strlit("6");
        reveal_strlit("7");
        reveal_strlit("8");
        reveal_strlit("9");
    }
    let t = if d == 0 {
        "0"
    } else if d == 1 {
        "1"
    } else if d == 2 {
        "2"
    } else if d == 3 {
        "3"
    } else if d == 4 {
        "4"
    } else if d == 5 {
        "5"
    } else if d == 6 {
        "6"
    } else if d == 7 {
        "7"
    } else if d == 8 {
        "8"
    } else {
        "9"
    };
    assert(t@ =~= seq![digit_char(d as nat)]);
    t
}

/// Appends `n`, written in decimal, to `out`.
pub fn push_decimal(out: &mut String, n: usize)
    ensures
        final(out)@ == old(out)@ + decimal(n as nat),
    decreases n,
{
    if n >= 10 {
        push_decimal(out, n / 10);
    }
    out.append(digit_text(n % 10));
    proof {
        if n >= 10 {
            assert(old(out)@ + decimal(n as nat / 10) + seq![digit_char(n as nat % 10)] =~= old(
                out,
            )@ + decimal(n as nat));
        }
    }
}

/// `n` written in decimal.
pub fn decimal_string(n: usize) -> (s: String)
    ensures
        s@ == decimal(n as nat),
{
    let mut s = String::new();
    push_decimal(&mut s, n);
    assert(Seq::<char>::empty() + decimal(n as nat) =~= decimal(n as nat));
    s
}

/// The number that `v` stands for, as `parse_number` defines it.
pub fn parse_usize(v: &Vec<char>) -> (r: Option<usize>)
    ensures
        r == parse_number(v@),
{
    let n = v.len();
    let start: usize = if n > 0 && v[0] == '+' {
        1
    } else {
        0
    };
    let ghost d = unsigned_digits(v@);
    assert(d =~= v@.subrange(start as int, n as int));
    if start == n {
        return None;
    }
    let mut acc: usize = 0;
    let mut i: usize = start;
    while i < n
        invariant
            start <= i <= n,
            n == v.len(),
            d == unsigned_digits(v@),
            d == v@.subrange(start as int, n as int),
            forall|k: int| 0 <= k < i - start ==> is_digit(#[trigger] d[k]),
            acc == digits_value(d.subrange(0, i - start)),
        decreases n - i,
    {
        let c = v[i];
        if !(c >= '0' && c <= '9') {
            assert(!is_digit(d[i - start]));
            return None;
        }
        let digit: usize = (c as u32 - '0' as u32) as usize;
        let ghost longer = d.subrange(0, i - start + 1);
        proof {
            assert(longer.drop_last() =~= d.subrange(0, i - start));
            assert(longer.last() == c);
            assert(digits_value(longer) == acc * 10 + digit);
        }
        let next = match acc.checked_mul(10) {
            Some(tens) => tens.checked_add(digit),
            None => None,
        };
        match next {
            Some(value) => {
                acc = value;
            },
            None => {
                proof {
                    assert(digits_value(longer) > usize::MAX);
                    if forall|k: int| 0 <= k < d.len() ==> is_digit(#[trigger] d[k]) {
                        lemma_digits_value_prefix(d, i - start + 1);
                    }
                }
                return None;
            },
        }
        i += 1;
    }
    assert(d.subrange(0, n - start) =~= d);
    Some(acc)
}

} // verus!
