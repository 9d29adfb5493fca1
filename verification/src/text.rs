//! Plain-text helpers: characters in and out of strings, words, and decimal
//! numbers.

use vstd::prelude::*;

verus! {

/// `String::push` appends the character `c` to the end of the string.
pub assume_specification[ String::push ](s: &mut String, c: char)
    ensures
        final(s)@ == old(s)@.push(c),
;

/// The characters of `s`, in order.
pub fn chars_of(s: &str) -> (r: Vec<char>)
    ensures
        r@ == s@,
{
    let mut out: Vec<char> = Vec::new();
    for c in it: s.chars()
        invariant
            it.seq() == s@,
            out@ == s@.take(it.index() as int),
    {
        out.push(c);
        assert(out@ =~= s@.take(it.index() + 1));
    }
    proof {
        assert(out@ =~= s@);
    }
    out
}

/// Append every character of `tail` to `s`.
pub fn push_chars(s: &mut String, tail: &Vec<char>)
    ensures
        final(s)@ == old(s)@ + tail@,
{
    let ghost start = s@;
    let mut i: usize = 0;
    while i < tail.len()
        invariant
            i <= tail.len(),
            s@ == start + tail@.take(i as int),
        decreases tail.len() - i,
    {
        s.push(tail[i]);
        proof {
            assert(tail@.take(i + 1) =~= tail@.take(i as int).push(tail@[i as int]));
            assert(s@ =~= start + tail@.take(i + 1));
        }
        i += 1;
    }
    proof {
        assert(tail@.take(i as int) =~= tail@);
    }
}

/// The string made of the characters of `v`.
pub fn string_of(v: &Vec<char>) -> (r: String)
    ensures
        r@ == v@,
{
    let mut s = String::new();
    push_chars(&mut s, v);
    proof {
        assert(s@ =~= v@);
    }
    s
}

/// True when the two pieces of text hold the same characters.
pub fn same_text(a: &Vec<char>, b: &Vec<char>) -> (r: bool)
    ensures
        r == (a@ == b@),
{
    if a.len() != b.len() {
        return false;
    }
    let mut i: usize = 0;
    while i < a.len()
        invariant
            i <= a.len(),
            a.len() == b.len(),
            a@.take(i as int) == b@.take(i as int),
        decreases a.len() - i,
    {
        if a[i] != b[i] {
            proof {
                assert(a@[i as int] != b@[i as int]);
            }
            return false;
        }
        proof {
            assert(a@.take(i + 1) =~= a@.take(i as int).push(a@[i as int]));
            assert(b@.take(i + 1) =~= b@.take(i as int).push(b@[i as int]));
        }
        i += 1;
    }
    proof {
        assert(a@.take(i as int) =~= a@);
        assert(b@.take(i as int) =~= b@);
    }
    true
}

/// True when `a` holds exactly the characters of `b`.
pub fn text_is(a: &Vec<char>, b: &str) -> (r: bool)
    ensures
        r == (a@ == b@),
{
    same_text(a, &chars_of(b))
}

/// A copy of `v[from..to]`.
pub fn slice_of(v: &Vec<char>, from: usize, to: usize) -> (r: Vec<char>)
    requires
        from <= to <= v.len(),
    ensures
        r@ == v@.subrange(from as int, to as int),
{
    let mut out: Vec<char> = Vec::new();
    let mut i: usize = from;
    while i < to
        invariant
            from <= i <= to <= v.len(),
            out@ == v@.subrange(from as int, i as int),
        decreases to - i,
    {
        out.push(v[i]);
        proof {
            assert(v@.subrange(from as int, i + 1) =~= v@.subrange(from as int, i as int).push(
                v@[i as int],
            ));
        }
        i += 1;
    }
    out
}

/// The Unicode `White_Space` characters.
pub open spec fn is_space(c: char) -> bool {
    let n = c as u32;
    ||| 0x09 <= n <= 0x0d
    ||| n == 0x20
    ||| n == 0x85
    ||| n == 0xa0
    ||| n == 0x1680
    ||| 0x2000 <= n <= 0x200a
    ||| n == 0x2028
    ||| n == 0x2029
    ||| n == 0x202f
    ||| n == 0x205f
    ||| n == 0x3000
}

/// True for the Unicode `White_Space` characters.
pub fn space(c: char) -> (r: bool)
    ensures
        r == is_space(c),
{
    let n: u32 = c as u32;
    (0x09 <= n && n <= 0x0d) || n == 0x20 || n == 0x85 || n == 0xa0 || n == 0x1680 || (0x2000 <= n
        && n <= 0x200a) || n == 0x2028 || n == 0x2029 || n == 0x202f || n == 0x205f || n == 0x3000
}

/// The length of the leading run of characters of `s` that are not spaces.
pub open spec fn word_len(s: Seq<char>) -> nat
    decreases s.len(),
{
    if s.len() == 0 || is_space(s[0]) {
        0
    } else {
        1 + word_len(s.drop_first())
    }
}

/// The words of `s`: its maximal runs of characters that are not spaces.
pub open spec fn words(s: Seq<char>) -> Seq<Seq<char>>
    decreases s.len(),
{
    if s.len() == 0 {
        Seq::empty()
    } else if is_space(s[0]) {
        words(s.drop_first())
    } else {
        let n = word_len(s) as int;
        if 0 < n <= s.len() {
            seq![s.take(n)] + words(s.skip(n))
        } else {
            Seq::empty()
        }
    }
}

pub proof fn lemma_word_len(s: Seq<char>)
    ensures
        word_len(s) <= s.len(),
        forall|i: int| 0 <= i < word_len(s) ==> !is_space(#[trigger] s[i]),
        word_len(s) < s.len() ==> is_space(s[word_len(s) as int]),
    decreases s.len(),
{
    if s.len() == 0 || is_space(s[0]) {
    } else {
        let t = s.drop_first();
        lemma_word_len(t);
        assert forall|i: int| 0 <= i < word_len(s) implies !is_space(#[trigger] s[i]) by {
            if i > 0 {
                assert(s[i] == t[i - 1]);
            }
        }
        if word_len(s) < s.len() {
            assert(s[word_len(s) as int] == t[word_len(t) as int]);
        }
    }
}

/// A run of non-space characters that ends the text or meets a space is a word.
pub proof fn lemma_word_len_is(s: Seq<char>, n: nat)
    requires
        n <= s.len(),
        forall|i: int| 0 <= i < n ==> !is_space(#[trigger] s[i]),
        n < s.len() ==> is_space(s[n as int]),
    ensures
        word_len(s) == n,
{
    lemma_word_len(s);
    if word_len(s) < n {
        assert(is_space(s[word_len(s) as int]));
    } else if word_len(s) > n {
        assert(!is_space(s[n as int]));
    }
}

/// The words of `s`, in order.
pub fn split_words(s: &Vec<char>) -> (r: Vec<Vec<char>>)
    ensures
        r@.len() == words(s@).len(),
        forall|i: int| 0 <= i < r@.len() ==> #[trigger] r@[i]@ == words(s@)[i],
{
    let mut out: Vec<Vec<char>> = Vec::new();
    let mut i: usize = 0;
    proof {
        assert(s@.skip(0) =~= s@);
    }
    while i < s.len()
        invariant
            i <= s.len(),
            out@.len() + words(s@.skip(i as int)).len() == words(s@).len(),
            forall|k: int| 0 <= k < out@.len() ==> #[trigger] out@[k]@ == words(s@)[k],
            forall|k: int|
                0 <= k < words(s@.skip(i as int)).len() ==> #[trigger] words(s@.skip(i as int))[k]
                    == words(s@)[k + out@.len()],
        decreases s.len() - i,
    {
        let ghost rest = s@.skip(i as int);
        if space(s[i]) {
            proof {
                assert(rest.drop_first() =~= s@.skip(i + 1));
            }
            i += 1;
        } else {
            let mut j: usize = i;
            while j < s.len() && !space(s[j])
                invariant
                    i <= j <= s.len(),
                    forall|k: int| i <= k < j ==> !is_space(#[trigger] s@[k]),
                decreases s.len() - j,
            {
                j += 1;
            }
            proof {
                let n = (j - i) as nat;
                assert forall|k: int| 0 <= k < n implies !is_space(#[trigger] rest[k]) by {
                    assert(rest[k] == s@[i + k]);
                }
                lemma_word_len_is(rest, n);
                assert(rest.take(n as int) =~= s@.subrange(i as int, j as int));
                assert(rest.skip(n as int) =~= s@.skip(j as int));
                let w = words(rest.skip(n as int));
                assert(words(rest) == seq![rest.take(n as int)] + w);
                assert forall|k: int| 0 <= k < w.len() implies #[trigger] w[k] == words(s@)[k + (
                out@.len() + 1)] by {
                    assert(words(rest)[k + 1] == w[k]);
                }
                assert(words(rest)[0] == words(s@)[0 + out@.len() as int]);
            }
            out.push(slice_of(s, i, j));
            i = j;
        }
    }
    proof {
        assert(s@.skip(i as int).len() == 0);
    }
    out
}

/// Words that are separated by one space are found one after the other.
pub proof fn lemma_words_first(w: Seq<char>, rest: Seq<char>)
    requires
        w.len() > 0,
        forall|i: int| 0 <= i < w.len() ==> !is_space(#[trigger] w[i]),
    ensures
        words(w + seq![' '] + rest) == seq![w] + words(rest),
        words(w) == seq![w],
{
    let s = w + seq![' '] + rest;
    let n = w.len();
    assert forall|i: int| 0 <= i < n implies !is_space(#[trigger] s[i]) by {
        assert(s[i] == w[i]);
    }
    assert(is_space(s[n as int]));
    lemma_word_len_is(s, n);
    assert(s.take(n as int) =~= w);
    let t = s.skip(n as int);
    assert(t[0] == ' ');
    assert(t.drop_first() =~= rest);
    assert(words(t) == words(rest));
    lemma_word_len_is(w, n);
    assert(w.take(n as int) =~= w);
    assert(w.skip(n as int) =~= Seq::<char>::empty());
    assert(words(w.skip(n as int)).len() == 0);
    assert(words(w) =~= seq![w]);
}

/// The length of the leading run of characters of `s` other than `c`.
pub open spec fn run_len(s: Seq<char>, c: char) -> nat
    decreases s.len(),
{
    if s.len() == 0 || s[0] == c {
        0
    } else {
        1 + run_len(s.drop_first(), c)
    }
}

/// The pieces of `s` between the characters `c`.
pub open spec fn split(s: Seq<char>, c: char) -> Seq<Seq<char>>
    decreases s.len(),
{
    let n = run_len(s, c) as int;
    if n >= s.len() {
        seq![s]
    } else {
        seq![s.take(n)] + split(s.skip(n + 1), c)
    }
}

/// A run that ends the text or meets `c` is as long as `run_len` says.
pub proof fn lemma_run_len_is(s: Seq<char>, c: char, n: nat)
    requires
        n <= s.len(),
        forall|i: int| 0 <= i < n ==> #[trigger] s[i] != c,
        n < s.len() ==> s[n as int] == c,
    ensures
        run_len(s, c) == n,
    decreases s.len(),
{
    if n > 0 {
        let t = s.drop_first();
        assert(s[0] != c);
        assert forall|i: int| 0 <= i < n - 1 implies #[trigger] t[i] != c by {
            assert(t[i] == s[i + 1]);
        }
        if n < s.len() {
            assert(t[n - 1] == s[n as int]);
        }
        lemma_run_len_is(t, c, (n - 1) as nat);
    }
}

/// Splitting at `c` finds the text before the first `c`, then the rest.
pub proof fn lemma_split_first(w: Seq<char>, rest: Seq<char>, c: char)
    requires
        forall|i: int| 0 <= i < w.len() ==> #[trigger] w[i] != c,
    ensures
        split(w + seq![c] + rest, c) == seq![w] + split(rest, c),
        split(w, c) == seq![w],
{
    let s = w + seq![c] + rest;
    let n = w.len();
    assert forall|i: int| 0 <= i < n implies #[trigger] s[i] != c by {
        assert(s[i] == w[i]);
    }
    lemma_run_len_is(s, c, n);
    assert(s.take(n as int) =~= w);
    assert(s.skip(n as int + 1) =~= rest);
    lemma_run_len_is(w, c, n);
}

/// The pieces of `s` between the characters `c`.
pub fn split_on(s: &Vec<char>, c: char) -> (r: Vec<Vec<char>>)
    ensures
        r@.len() == split(s@, c).len(),
        forall|i: int| 0 <= i < r@.len() ==> #[trigger] r@[i]@ == split(s@, c)[i],
{
    let mut out: Vec<Vec<char>> = Vec::new();
    let mut i: usize = 0;
    proof {
        assert(s@.skip(0) =~= s@);
    }
    loop
        invariant
            i <= s.len(),
            out@.len() + split(s@.skip(i as int), c).len() == split(s@, c).len(),
            forall|k: int| 0 <= k < out@.len() ==> #[trigger] out@[k]@ == split(s@, c)[k],
            forall|k: int|
                0 <= k < split(s@.skip(i as int), c).len() ==> #[trigger] split(
                    s@.skip(i as int),
                    c,
                )[k] == split(s@, c)[k + out@.len()],
        decreases s.len() - i,
    {
        let ghost rest = s@.skip(i as int);
        let mut j: usize = i;
        while j < s.len() && s[j] != c
            invariant
                i <= j <= s.len(),
                forall|k: int| i <= k < j ==> #[trigger] s@[k] != c,
            decreases s.len() - j,
        {
            j += 1;
        }
        let ghost n = (j - i) as nat;
        proof {
            assert forall|k: int| 0 <= k < n implies #[trigger] rest[k] != c by {
                assert(rest[k] == s@[i + k]);
            }
            lemma_run_len_is(rest, c, n);
            assert(rest.take(n as int) =~= s@.subrange(i as int, j as int));
            assert(split(rest, c)[0] == split(s@, c)[0 + out@.len() as int]);
        }
        out.push(slice_of(s, i, j));
        if j == s.len() {
            proof {
                assert(rest =~= s@.subrange(i as int, j as int));
            }
            return out;
        }
        proof {
            assert(rest.skip(n as int + 1) =~= s@.skip(j + 1));
            let w = split(rest.skip(n as int + 1), c);
            assert(split(rest, c) == seq![rest.take(n as int)] + w);
            assert forall|k: int| 0 <= k < w.len() implies #[trigger] w[k] == split(s@, c)[k
                + out@.len()] by {
                assert(split(rest, c)[k + 1] == w[k]);
            }
        }
        i = j + 1;
    }
}

/// The value of a decimal digit character.
pub open spec fn digit_value(c: char) -> Option<int> {
    if '0' <= c && c <= '9' {
        Some(c as u32 - 48)
    } else {
        None
    }
}

/// The value of a decimal digit character.
pub fn digit(c: char) -> (r: Option<u32>)
    ensures
        r is Some <==> digit_value(c) is Some,
        r matches Some(d) ==> digit_value(c) == Some(d as int) && d <= 9,
{
    if '0' <= c && c <= '9' {
        Some(c as u32 - 48)
    } else {
        None
    }
}

/// The number that a run of digits denotes, or `None` where a character is
/// not a digit.
pub open spec fn decimal(s: Seq<char>) -> Option<int>
    decreases s.len(),
{
    if s.len() == 0 {
        Some(0)
    } else {
        match (decimal(s.drop_last()), digit_value(s.last())) {
            (Some(n), Some(d)) => Some(10 * n + d),
            _ => None,
        }
    }
}

pub proof fn lemma_decimal_nonneg(s: Seq<char>)
    ensures
        decimal(s) matches Some(n) ==> n >= 0,
    decreases s.len(),
{
    if s.len() > 0 {
        lemma_decimal_nonneg(s.drop_last());
    }
}

/// A longer run of digits denotes a number that is no smaller.
pub proof fn lemma_decimal_prefix(s: Seq<char>, k: int)
    requires
        0 <= k <= s.len(),
        decimal(s) is Some,
    ensures
        decimal(s.take(k)) is Some,
        decimal(s.take(k))->0 <= decimal(s)->0,
    decreases s.len() - k,
{
    lemma_decimal_nonneg(s);
    if k == s.len() {
        assert(s.take(k) =~= s);
    } else {
        let p = s.take(k + 1);
        lemma_decimal_prefix(s, k + 1);
        assert(p.drop_last() =~= s.take(k));
        lemma_decimal_nonneg(s.take(k));
    }
}

/// The digits of a non-negative number, most significant first.
pub open spec fn digits(n: int) -> Seq<char>
    decreases n,
{
    if n < 10 {
        seq![digit_char(n)]
    } else {
        digits(n / 10).push(digit_char(n % 10))
    }
}

/// The character of a single digit.
pub open spec fn digit_char(d: int) -> char {
    if d == 1 {
        '1'
    } else if d == 2 {
        '2'
    } else if d == 3 {
        '3'
    } else if d == 4 {
        '4'
    } else if d == 5 {
        '5'
    } else if d == 6 {
        '6'
    } else if d == 7 {
        '7'
    } else if d == 8 {
        '8'
    } else if d == 9 {
        '9'
    } else {
        '0'
    }
}

/// Writing a number in decimal and reading it back gives the number.
pub proof fn lemma_digits_decimal(n: int)
    requires
        0 <= n,
    ensures
        decimal(digits(n)) == Some(n),
        digits(n).len() >= 1,
        forall|i: int| 0 <= i < digits(n).len() ==> digit_value(#[trigger] digits(n)[i]) is Some,
    decreases n,
{
    let s = digits(n);
    if n < 10 {
        assert(s.drop_last() =~= Seq::<char>::empty());
        assert(decimal(s.drop_last()) == Some(0int));
    } else {
        lemma_digits_decimal(n / 10);
        assert(s.drop_last() =~= digits(n / 10));
    }
}

/// The decimal digits of `n`.
pub fn number_chars(n: u64) -> (r: Vec<char>)
    ensures
        r@ == digits(n as int),
    decreases n,
{
    let d: u64 = n % 10;
    let c = if d == 1 {
        '1'
    } else if d == 2 {
        '2'
    } else if d == 3 {
        '3'
    } else if d == 4 {
        '4'
    } else if d == 5 {
        '5'
    } else if d == 6 {
        '6'
    } else if d == 7 {
        '7'
    } else if d == 8 {
        '8'
    } else if d == 9 {
        '9'
    } else {
        '0'
    };
    if n < 10 {
        let mut out: Vec<char> = Vec::new();
        out.push(c);
        proof {
            assert(out@ =~= digits(n as int));
        }
        out
    } else {
        let mut out = number_chars(n / 10);
        out.push(c);
        out
    }
}

/// The value that text denotes as an unsigned number: digits after an
/// optional `+`, at least one of them, and no more than `max`.
pub open spec fn unsigned_value(s: Seq<char>, max: int) -> Option<int> {
    let body = if s.len() > 0 && s[0] == '+' {
        s.drop_first()
    } else {
        s
    };
    if body.len() == 0 {
        None
    } else {
        match decimal(body) {
            Some(n) => if n <= max {
                Some(n)
            } else {
                None
            },
            None => None,
        }
    }
}

/// The value that text denotes as a signed number: digits after an optional
/// sign, at least one of them, and within `min..=max`.
pub open spec fn signed_value(s: Seq<char>, min: int, max: int) -> Option<int> {
    if s.len() > 0 && s[0] == '-' {
        let body = s.drop_first();
        if body.len() == 0 {
            None
        } else {
            match decimal(body) {
                Some(n) => if min <= -n {
                    Some(-n)
                } else {
                    None
                },
                None => None,
            }
        }
    } else {
        unsigned_value(s, max)
    }
}

/// The number denoted by the digits of `s` from `start` on, as far as it is no
/// more than `max`.
fn parse_digits(s: &Vec<char>, start: usize, max: u64) -> (r: Option<u64>)
    requires
        start <= s.len(),
    ensures
        r is Some <==> (start < s.len() && decimal(s@.skip(start as int)) is Some && decimal(
            s@.skip(start as int),
        )->0 <= max),
        r matches Some(n) ==> decimal(s@.skip(start as int)) == Some(n as int),
{
    if start == s.len() {
        return None;
    }
    let ghost body = s@.skip(start as int);
    let mut n: u128 = 0;
    let mut i: usize = start;
    while i < s.len()
        invariant
            start <= i <= s.len(),
            body == s@.skip(start as int),
            n <= max,
            decimal(body.take(i - start)) == Some(n as int),
        decreases s.len() - i,
    {
        let ghost p = body.take(i - start + 1);
        proof {
            assert(p.drop_last() =~= body.take(i - start));
            assert(p.last() == s@[i as int]);
            assert(p =~= body.take(i + 1 - start));
            if decimal(body) is Some {
                lemma_decimal_prefix(body, i - start + 1);
            }
        }
        match digit(s[i]) {
            Some(d) => {
                n = n * 10 + d as u128;
                if n > max as u128 {
                    return None;
                }
            },
            None => {
                return None;
            },
        }
        i += 1;
    }
    proof {
        assert(body.take(i - start) =~= body);
    }
    Some(n as u64)
}

/// Parse an unsigned number of at most `max`.
pub fn parse_unsigned(s: &Vec<char>, max: u64) -> (r: Option<u64>)
    ensures
        r is Some <==> unsigned_value(s@, max as int) is Some,
        r matches Some(n) ==> unsigned_value(s@, max as int) == Some(n as int),
{
    if s.len() > 0 && s[0] == '+' {
        proof {
            assert(s@.skip(1) =~= s@.drop_first());
        }
        parse_digits(s, 1, max)
    } else {
        proof {
            assert(s@.skip(0) =~= s@);
        }
        parse_digits(s, 0, max)
    }
}

/// Parse a 32-bit signed number.
pub fn parse_i32(s: &Vec<char>) -> (r: Option<i32>)
    ensures
        r is Some <==> signed_value(s@, i32::MIN as int, i32::MAX as int) is Some,
        r matches Some(n) ==> signed_value(s@, i32::MIN as int, i32::MAX as int) == Some(n as int),
{
    if s.len() > 0 && s[0] == '-' {
        proof {
            assert(s@.skip(1) =~= s@.drop_first());
        }
        match parse_digits(s, 1, 0x8000_0000) {
            Some(n) => Some((-(n as i64)) as i32),
            None => None,
        }
    } else {
        match parse_unsigned(s, 0x7fff_ffff) {
            Some(n) => Some(n as i32),
            None => None,
        }
    }
}

/// A class of characters.
#[derive(Clone, Copy, PartialEq, Eq, Debug, Structural)]
pub enum CharClass {
    /// Unicode white space.
    Space,
    /// The double quote.
    Quote,
    /// The marks behind a move: `+`, `#`, `!` and `?`.
    Annotation,
}

impl CharClass {
    /// The character is in the class.
    pub open spec fn covers(self, c: char) -> bool {
        match self {
            CharClass::Space => is_space(c),
            CharClass::Quote => c == '"',
            CharClass::Annotation => c == '+' || c == '#' || c == '!' || c == '?',
        }
    }

    /// True if the character is in the class.
    pub fn has(self, c: char) -> (r: bool)
        ensures
            r == self.covers(c),
    {
        match self {
            CharClass::Space => space(c),
            CharClass::Quote => c == '"',
            CharClass::Annotation => c == '+' || c == '#' || c == '!' || c == '?',
        }
    }
}

/// The text without the leading characters of a class.
pub open spec fn strip_front(s: Seq<char>, class: CharClass) -> Seq<char>
    decreases s.len(),
{
    if s.len() > 0 && class.covers(s[0]) {
        strip_front(s.drop_first(), class)
    } else {
        s
    }
}

/// The text without the trailing characters of a class.
pub open spec fn strip_back(s: Seq<char>, class: CharClass) -> Seq<char>
    decreases s.len(),
{
    if s.len() > 0 && class.covers(s.last()) {
        strip_back(s.drop_last(), class)
    } else {
        s
    }
}

/// The text without the leading and trailing characters of a class.
pub open spec fn trim(s: Seq<char>, class: CharClass) -> Seq<char> {
    strip_back(strip_front(s, class), class)
}

/// The text without the trailing characters of a class.
pub fn trim_end(s: &Vec<char>, class: CharClass) -> (r: Vec<char>)
    ensures
        r@ == strip_back(s@, class),
{
    let mut n: usize = s.len();
    proof {
        assert(s@.take(n as int) =~= s@);
    }
    while n > 0 && class.has(s[n - 1])
        invariant
            n <= s.len(),
            strip_back(s@.take(n as int), class) == strip_back(s@, class),
        decreases n,
    {
        proof {
            assert(s@.take(n as int).drop_last() =~= s@.take(n - 1));
        }
        n -= 1;
    }
    proof {
        assert(s@.subrange(0, n as int) =~= s@.take(n as int));
    }
    slice_of(s, 0, n)
}

/// The text without the leading and trailing characters of a class.
pub fn trimmed(s: &Vec<char>, class: CharClass) -> (r: Vec<char>)
    ensures
        r@ == trim(s@, class),
{
    let mut n: usize = 0;
    proof {
        assert(s@.skip(0) =~= s@);
    }
    while n < s.len() && class.has(s[n])
        invariant
            n <= s.len(),
            strip_front(s@.skip(n as int), class) == strip_front(s@, class),
        decreases s.len() - n,
    {
        proof {
            assert(s@.skip(n as int).drop_first() =~= s@.skip(n + 1));
        }
        n += 1;
    }
    proof {
        assert(s@.subrange(n as int, s@.len() as int) =~= s@.skip(n as int));
    }
    trim_end(&slice_of(s, n, s.len()), class)
}

/// The pieces of `s` between the first `n - 1` characters `c`; the last piece is
/// the rest.
pub open spec fn split_in(s: Seq<char>, c: char, n: nat) -> Seq<Seq<char>>
    decreases n,
{
    let k = run_len(s, c) as int;
    if n <= 1 || k >= s.len() {
        seq![s]
    } else {
        seq![s.take(k)] + split_in(s.skip(k + 1), c, (n - 1) as nat)
    }
}

/// The index of the first `c` at or behind `from`, or the length of the text.
pub fn index_of(s: &Vec<char>, c: char, from: usize) -> (r: usize)
    requires
        from <= s@.len(),
    ensures
        from <= r <= s@.len(),
        r == from + run_len(s@.skip(from as int), c),
        r < s@.len() ==> s@[r as int] == c,
{
    let mut j: usize = from;
    while j < s.len() && s[j] != c
        invariant
            from <= j <= s.len(),
            forall|k: int| from <= k < j ==> #[trigger] s@[k] != c,
        decreases s.len() - j,
    {
        j += 1;
    }
    proof {
        let rest = s@.skip(from as int);
        assert forall|k: int| 0 <= k < j - from implies #[trigger] rest[k] != c by {
            assert(rest[k] == s@[from + k]);
        }
        lemma_run_len_is(rest, c, (j - from) as nat);
    }
    j
}

/// The pieces of the rest of `s` from `from` on between the first `n - 1`
/// characters `c`.
pub fn split_at_most(s: &Vec<char>, c: char, n: usize, from: usize) -> (r: Vec<Vec<char>>)
    requires
        from <= s@.len(),
    ensures
        r@.len() == split_in(s@.skip(from as int), c, n as nat).len(),
        forall|i: int|
            0 <= i < r@.len() ==> #[trigger] r@[i]@ == split_in(s@.skip(from as int), c, n as nat)[i],
    decreases n,
{
    let ghost rest = s@.skip(from as int);
    let j: usize = index_of(s, c, from);
    proof {
        assert(s@.subrange(from as int, s@.len() as int) =~= rest);
    }
    if n <= 1 || j == s.len() {
        let mut out: Vec<Vec<char>> = Vec::new();
        out.push(slice_of(s, from, s.len()));
        return out;
    }
    let mut out = split_at_most(s, c, n - 1, j + 1);
    let ghost tail = out@;
    out.insert(0, slice_of(s, from, j));
    proof {
        let k = (j - from) as int;
        assert(rest.take(k) =~= s@.subrange(from as int, j as int));
        assert(rest.skip(k + 1) =~= s@.skip(j + 1));
        let w = split_in(rest.skip(k + 1), c, (n - 1) as nat);
        assert(split_in(rest, c, n as nat) == seq![rest.take(k)] + w);
        assert forall|i: int| 0 <= i < out@.len() implies #[trigger] out@[i]@ == split_in(
            rest,
            c,
            n as nat,
        )[i] by {
            if i > 0 {
                assert(out@[i] == tail[i - 1]);
            }
        }
    }
    out
}

/// The texts of a list of strings.
pub open spec fn texts(v: Seq<String>) -> Seq<Seq<char>> {
    v.map_values(|s: String| s@)
}

/// Append every word of `s` to a list of strings.
pub fn push_words(list: &mut Vec<String>, s: &Vec<char>)
    ensures
        texts(final(list)@) == texts(old(list)@) + words(s@),
{
    let ghost start = texts(list@);
    let ws = split_words(s);
    let mut i: usize = 0;
    proof {
        assert(words(s@).take(0) =~= Seq::empty());
        assert(start + Seq::<Seq<char>>::empty() =~= start);
    }
    while i < ws.len()
        invariant
            i <= ws@.len(),
            ws@.len() == words(s@).len(),
            forall|k: int| 0 <= k < ws@.len() ==> #[trigger] ws@[k]@ == words(s@)[k],
            texts(list@) == start + words(s@).take(i as int),
        decreases ws@.len() - i,
    {
        let ghost before = list@;
        list.push(string_of(&ws[i]));
        proof {
            assert(texts(list@) =~= texts(before).push(ws@[i as int]@));
            assert(words(s@).take(i + 1) =~= words(s@).take(i as int).push(words(s@)[i as int]));
            assert(texts(list@) =~= start + words(s@).take(i + 1));
        }
        i += 1;
    }
    proof {
        assert(words(s@).take(i as int) =~= words(s@));
    }
}

/// A number in decimal digits, with a sign if it is negative.
pub open spec fn signed_text(n: int) -> Seq<char> {
    if n < 0 {
        seq!['-'] + digits(-n)
    } else {
        digits(n)
    }
}

/// A number in decimal digits, with a sign if it is negative.
pub fn signed_chars(n: i64) -> (r: Vec<char>)
    requires
        n > i64::MIN,
    ensures
        r@ == signed_text(n as int),
{
    if n < 0 {
        let mut out = number_chars((-n) as u64);
        out.insert(0, '-');
        proof {
            assert(out@ =~= seq!['-'] + digits(-(n as int)));
        }
        out
    } else {
        number_chars(n as u64)
    }
}

/// The pieces with the character `c` between them.
pub open spec fn joined(pieces: Seq<Seq<char>>, c: char) -> Seq<char>
    decreases pieces.len(),
{
    if pieces.len() == 0 {
        Seq::empty()
    } else if pieces.len() == 1 {
        pieces[0]
    } else {
        pieces[0] + seq![c] + joined(pieces.drop_first(), c)
    }
}

proof fn lemma_run(s: Seq<char>, c: char)
    ensures
        run_len(s, c) <= s.len(),
        forall|i: int| 0 <= i < run_len(s, c) ==> #[trigger] s[i] != c,
        run_len(s, c) < s.len() ==> s[run_len(s, c) as int] == c,
    decreases s.len(),
{
    if s.len() > 0 && s[0] != c {
        let rest = s.drop_first();
        lemma_run(rest, c);
        assert forall|i: int| 0 <= i < run_len(s, c) implies #[trigger] s[i] != c by {
            if i > 0 {
                assert(rest[i - 1] != c);
            }
        }
    }
}

/// Splitting a text at a character and joining the pieces again gives the text, and no
/// piece holds the character.
pub proof fn law_split_and_join(s: Seq<char>, c: char)
    ensures
        joined(split(s, c), c) == s,
        split(s, c).len() >= 1,
        forall|i: int| 0 <= i < split(s, c).len() ==> !(#[trigger] split(s, c)[i]).contains(c),
    decreases s.len(),
{
    let n = run_len(s, c) as int;
    lemma_run(s, c);
    if n < s.len() {
        let rest = s.skip(n + 1);
        law_split_and_join(rest, c);
        let parts = split(s, c);
        assert(parts.drop_first() =~= split(rest, c));
        assert(s =~= s.take(n) + seq![c] + rest);
        assert forall|i: int| 0 <= i < parts.len() implies !(#[trigger] parts[i]).contains(c) by {
            if i > 0 {
                assert(parts[i] == split(rest, c)[i - 1]);
            }
        }
    } else {
        assert(split(s, c) =~= seq![s]);
    }
}

/// The words of a text hold no space and are not empty, and together they hold all of
/// its characters but the spaces, in their order.
pub proof fn law_words(s: Seq<char>)
    ensures
        forall|i: int|
            0 <= i < words(s).len() ==> (#[trigger] words(s)[i]).len() > 0 && forall|k: int|
                0 <= k < words(s)[i].len() ==> !is_space(#[trigger] words(s)[i][k]),
        together(words(s)) == s.filter(|c: char| !is_space(c)),
    decreases s.len(),
{
    let q = |c: char| !is_space(c);
    if s.len() == 0 {
        reveal(Seq::filter);
    } else if is_space(s[0]) {
        let rest = s.drop_first();
        law_words(rest);
        assert(s =~= seq![s[0]] + rest);
        lemma_filter_sum(seq![s[0]], rest, q);
        lemma_filter_none(seq![s[0]], q);
        assert(seq![s[0]].filter(q) + rest.filter(q) =~= rest.filter(q));
    } else {
        lemma_word_len(s);
        let n = word_len(s) as int;
        let rest = s.skip(n);
        law_words(rest);
        let w = s.take(n);
        assert(s =~= w + rest);
        lemma_filter_sum(w, rest, q);
        lemma_word_is_clean(s);
        lemma_filter_all(w, q);
        let ws = words(s);
        assert(ws.drop_first() =~= words(rest));
        assert forall|i: int| 0 <= i < ws.len() implies (#[trigger] ws[i]).len() > 0 && forall|k: int|
            0 <= k < ws[i].len() ==> !is_space(#[trigger] ws[i][k]) by {
            if i > 0 {
                assert(ws[i] == words(rest)[i - 1]);
            }
        }
    }
}

/// The texts one after the other.
pub open spec fn together(ws: Seq<Seq<char>>) -> Seq<char>
    decreases ws.len(),
{
    if ws.len() == 0 {
        Seq::empty()
    } else {
        ws[0] + together(ws.drop_first())
    }
}

proof fn lemma_word_is_clean(s: Seq<char>)
    requires
        s.len() > 0,
        !is_space(s[0]),
    ensures
        0 < word_len(s) <= s.len(),
        forall|k: int| 0 <= k < word_len(s) ==> !is_space(#[trigger] s[k]),
    decreases s.len(),
{
    let rest = s.drop_first();
    if rest.len() > 0 && !is_space(rest[0]) {
        lemma_word_is_clean(rest);
        assert forall|k: int| 0 <= k < word_len(s) implies !is_space(#[trigger] s[k]) by {
            if k > 0 {
                assert(!is_space(rest[k - 1]));
            }
        }
    } else {
        assert(word_len(rest) == 0);
    }
}

proof fn lemma_filter_sum(a: Seq<char>, b: Seq<char>, q: spec_fn(char) -> bool)
    ensures
        (a + b).filter(q) == a.filter(q) + b.filter(q),
    decreases b.len(),
{
    reveal(Seq::filter);
    if b.len() > 0 {
        lemma_filter_sum(a, b.drop_last(), q);
        assert((a + b).drop_last() =~= a + b.drop_last());
        assert((a + b).filter(q) =~= a.filter(q) + b.filter(q));
    } else {
        assert(a + b =~= a);
        assert(a.filter(q) + b.filter(q) =~= a.filter(q));
    }
}

proof fn lemma_filter_all(a: Seq<char>, q: spec_fn(char) -> bool)
    requires
        forall|i: int| 0 <= i < a.len() ==> q(#[trigger] a[i]),
    ensures
        a.filter(q) == a,
    decreases a.len(),
{
    reveal(Seq::filter);
    if a.len() > 0 {
        lemma_filter_all(a.drop_last(), q);
        assert(a =~= a.drop_last().push(a.last()));
    }
}

proof fn lemma_filter_none(a: Seq<char>, q: spec_fn(char) -> bool)
    requires
        forall|i: int| 0 <= i < a.len() ==> !q(#[trigger] a[i]),
    ensures
        a.filter(q) == Seq::<char>::empty(),
    decreases a.len(),
{
    reveal(Seq::filter);
    if a.len() > 0 {
        lemma_filter_none(a.drop_last(), q);
    }
}

/// A number is written in decimal digits without leading zeros and read back as it
/// was; one more digit multiplies it by ten and adds the value of the digit.
pub proof fn law_numbers(n: int, s: Seq<char>, c: char)
    requires
        n >= 0,
    ensures
        decimal(digits(n)) == Some(n),
        unsigned_value(digits(n), n) == Some(n),
        n >= 10 ==> digits(n)[0] != '0',
        decimal(s) is Some && 48 <= c as u32 <= 57 ==> decimal(s.push(c)) == Some(
            10 * decimal(s)->0 + (c as u32 - 48),
        ),
        !(48 <= c as u32 <= 57) ==> decimal(s.push(c)) is None,
{
    lemma_digits_decimal(n);
    lemma_leading(n);
    assert(s.push(c).drop_last() =~= s);
}

proof fn lemma_leading(n: int)
    requires
        n >= 0,
    ensures
        digits(n).len() > 0,
        digits(n)[0] != '+',
        n >= 1 ==> digits(n)[0] != '0',
    decreases n,
{
    if n >= 10 {
        lemma_leading(n / 10);
    }
}

} // verus!
