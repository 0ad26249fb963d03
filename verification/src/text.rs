//! Character-level text utilities: trimming, splitting, joining and the
//! conversions between `&str`/`String` and character vectors.
use vstd::prelude::*;

verus! {

/// The characters of `s`, in order.
pub fn chars_of(s: &str) -> (res: Vec<char>)
    ensures
        res@ == s@,
{
    let mut res: Vec<char> = Vec::new();
    for c in it: s.chars()
        invariant
            res@ == it.seq().take(it.index() as int),
            it.seq() == s@,
    {
        res.push(c);
    }
    res
}

/// Builds a `String` from characters, with `String::from_iter`.
///
/// Trusted: std documents that collecting characters into a `String`
/// yields the string made of exactly those characters, in order.
#[verifier::external_body]
pub(crate) fn string_from_chars(cs: &[char]) -> (res: String)
    ensures
        res@ == cs@,
{
    String::from_iter(cs.iter())
}

/// Unicode `White_Space`: the characters for which `char::is_whitespace` holds.
pub open spec fn is_white_space(c: char) -> bool {
    let u = c as u32;
    ||| 0x09 <= u <= 0x0d
    ||| u == 0x20
    ||| u == 0x85
    ||| u == 0xa0
    ||| u == 0x1680
    ||| 0x2000 <= u <= 0x200a
    ||| u == 0x2028
    ||| u == 0x2029
    ||| u == 0x202f
    ||| u == 0x205f
    ||| u == 0x3000
}

/// Whether `c` is white space, as `char::is_whitespace` says.
pub fn white_space(c: char) -> (r: bool)
    ensures
        r == is_white_space(c),
{
    let u = c as u32;
    (0x09 <= u && u <= 0x0d) || u == 0x20 || u == 0x85 || u == 0xa0 || u == 0x1680 || (0x2000
        <= u && u <= 0x200a) || u == 0x2028 || u == 0x2029 || u == 0x202f || u == 0x205f || u
        == 0x3000
}

/// `s` without its leading white space.
pub open spec fn trim_start(s: Seq<char>) -> Seq<char>
    decreases s.len(),
{
    if s.len() > 0 && is_white_space(s[0]) {
        trim_start(s.drop_first())
    } else {
        s
    }
}

/// `s` without its trailing white space.
pub open spec fn trim_end(s: Seq<char>) -> Seq<char>
    decreases s.len(),
{
    if s.len() > 0 && is_white_space(s.last()) {
        trim_end(s.drop_last())
    } else {
        s
    }
}

/// `s` without leading and trailing white space, as `str::trim` gives it.
pub open spec fn trim(s: Seq<char>) -> Seq<char> {
    trim_end(trim_start(s))
}

proof fn lemma_trim_start_skip(s: Seq<char>, i: int)
    requires
        0 <= i < s.len(),
        is_white_space(s[i]),
    ensures
        trim_start(s.subrange(i, s.len() as int)) == trim_start(s.subrange(i + 1, s.len() as int)),
{
    assert(s.subrange(i, s.len() as int).drop_first() =~= s.subrange(i + 1, s.len() as int));
}

proof fn lemma_trim_end_skip(s: Seq<char>, j: int)
    requires
        0 < j <= s.len(),
        is_white_space(s[j - 1]),
    ensures
        trim_end(s.subrange(0, j)) == trim_end(s.subrange(0, j - 1)),
{
    assert(s.subrange(0, j).drop_last() =~= s.subrange(0, j - 1));
}

/// The characters of `s` between `lo` and `hi`.
pub fn slice_chars(s: &Vec<char>, lo: usize, hi: usize) -> (res: Vec<char>)
    requires
        lo <= hi <= s.len(),
    ensures
        res@ == s@.subrange(lo as int, hi as int),
{
    let mut res: Vec<char> = Vec::new();
    let mut i = lo;
    while i < hi
        invariant
            lo <= i <= hi <= s.len(),
            res@ == s@.subrange(lo as int, i as int),
        decreases hi - i,
    {
        res.push(s[i]);
        i = i + 1;
        assert(res@ =~= s@.subrange(lo as int, i as int));
    }
    res
}

/// `s` with leading and trailing white space removed.
pub fn trim_chars(s: &Vec<char>) -> (res: Vec<char>)
    ensures
        res@ == trim(s@),
{
    let n = s.len();
    let mut i: usize = 0;
    assert(s@.subrange(0, n as int) =~= s@);
    while i < n && white_space(s[i])
        invariant
            i <= n == s.len(),
            trim_start(s@) == trim_start(s@.subrange(i as int, n as int)),
        decreases n - i,
    {
        proof {
            lemma_trim_start_skip(s@, i as int);
        }
        i = i + 1;
    }
    let rest = slice_chars(s, i, n);
    assert(trim_start(s@) == rest@) by {
        if i < n {
            assert(!is_white_space(rest@[0]));
        }
    }
    let m = rest.len();
    let mut j: usize = m;
    assert(rest@.subrange(0, m as int) =~= rest@);
    while j > 0 && white_space(rest[j - 1])
        invariant
            j <= m == rest.len(),
            trim_end(rest@) == trim_end(rest@.subrange(0, j as int)),
        decreases j,
    {
        proof {
            lemma_trim_end_skip(rest@, j as int);
        }
        j = j - 1;
    }
    let res = slice_chars(&rest, 0, j);
    assert(trim_end(rest@) == res@) by {
        if j > 0 {
            assert(res@.last() == rest@[j - 1]);
        }
    }
    res
}

/// The pieces of `s` between occurrences of `sep`, as `str::split` with a
/// character pattern gives them (empty pieces included; never an empty list).
pub open spec fn split_char(s: Seq<char>, sep: char) -> Seq<Seq<char>>
    decreases s.len(),
{
    if s.len() == 0 {
        seq![Seq::<char>::empty()]
    } else {
        let r = split_char(s.drop_last(), sep);
        if s.last() == sep {
            r.push(Seq::<char>::empty())
        } else {
            r.update(r.len() - 1, r.last().push(s.last()))
        }
    }
}

/// Splitting gives at least one piece.
pub proof fn lemma_split_char_nonempty(s: Seq<char>, sep: char)
    ensures
        split_char(s, sep).len() >= 1,
    decreases s.len(),
{
    if s.len() > 0 {
        lemma_split_char_nonempty(s.drop_last(), sep);
    }
}

/// The pieces of `parts` joined with `sep` between them.
pub open spec fn join_char(parts: Seq<Seq<char>>, sep: char) -> Seq<char>
    decreases parts.len(),
{
    if parts.len() == 0 {
        Seq::<char>::empty()
    } else if parts.len() == 1 {
        parts[0]
    } else {
        join_char(parts.drop_last(), sep).push(sep) + parts.last()
    }
}

/// Splits `s` at every occurrence of `sep`.
pub fn split_chars(s: &Vec<char>, sep: char) -> (res: Vec<Vec<char>>)
    ensures
        res@.len() == split_char(s@, sep).len(),
        forall|k: int| 0 <= k < res@.len() ==> #[trigger] res@[k]@ == split_char(s@, sep)[k],
{
    let mut done: Vec<Vec<char>> = Vec::new();
    let mut cur: Vec<char> = Vec::new();
    let n = s.len();
    let mut i: usize = 0;
    assert(s@.take(0) =~= Seq::<char>::empty());
    while i < n
        invariant
            i <= n == s.len(),
            done@.len() + 1 == split_char(s@.take(i as int), sep).len(),
            forall|k: int|
                0 <= k < done@.len() ==> #[trigger] done@[k]@ == split_char(
                    s@.take(i as int),
                    sep,
                )[k],
            cur@ == split_char(s@.take(i as int), sep).last(),
        decreases n - i,
    {
        let c = s[i];
        let ghost prev = split_char(s@.take(i as int), sep);
        assert(s@.take(i + 1).drop_last() =~= s@.take(i as int));
        if c == sep {
            done.push(cur);
            cur = Vec::new();
            assert(cur@ =~= Seq::<char>::empty());
        } else {
            cur.push(c);
        }
        i = i + 1;
    }
    assert(s@.take(n as int) =~= s@);
    done.push(cur);
    done
}

/// The value of the ASCII decimal digit `c`.
pub open spec fn is_ascii_digit(c: char) -> bool {
    '0' <= c <= '9'
}

/// The value of an ASCII digit.
pub open spec fn digit_value(c: char) -> nat {
    (c as u32 - '0' as u32) as nat
}

/// The value of a string of ASCII decimal digits.
pub open spec fn decimal_value(s: Seq<char>) -> nat
    decreases s.len(),
{
    if s.len() == 0 {
        0
    } else {
        decimal_value(s.drop_last()) * 10 + digit_value(s.last())
    }
}

/// Every character is an ASCII digit.
pub open spec fn all_ascii_digits(s: Seq<char>) -> bool {
    forall|i: int| 0 <= i < s.len() ==> is_ascii_digit(#[trigger] s[i])
}

/// Whether `c` is an ASCII digit.
pub fn ascii_digit(c: char) -> (r: bool)
    ensures
        r == is_ascii_digit(c),
{
    '0' <= c && c <= '9'
}

/// Whether `a` and `b` hold the same characters.
pub fn chars_equal(a: &[char], b: &[char]) -> (r: bool)
    ensures
        r == (a@ == b@),
{
    if a.len() != b.len() {
        return false;
    }
    let mut i: usize = 0;
    while i < a.len()
        invariant
            i <= a.len() == b.len(),
            forall|k: int| 0 <= k < i ==> a@[k] == b@[k],
        decreases a.len() - i,
    {
        if a[i] != b[i] {
            return false;
        }
        i = i + 1;
    }
    assert(a@ =~= b@);
    true
}

/// Whether `s` begins with `prefix`.
pub fn starts_with(s: &[char], prefix: &[char]) -> (r: bool)
    ensures
        r == (prefix@.len() <= s@.len() && s@.subrange(0, prefix@.len() as int) == prefix@),
{
    if prefix.len() > s.len() {
        return false;
    }
    let mut i: usize = 0;
    while i < prefix.len()
        invariant
            i <= prefix.len() <= s.len(),
            forall|k: int| 0 <= k < i ==> s@[k] == prefix@[k],
        decreases prefix.len() - i,
    {
        if s[i] != prefix[i] {
            assert(s@.subrange(0, prefix@.len() as int)[i as int] != prefix@[i as int]);
            return false;
        }
        i = i + 1;
    }
    assert(s@.subrange(0, prefix@.len() as int) =~= prefix@);
    true
}

/// Whether `c` occurs in `s`.
pub fn contains_char(s: &[char], c: char) -> (r: bool)
    ensures
        r == s@.contains(c),
{
    let mut i: usize = 0;
    while i < s.len()
        invariant
            i <= s.len(),
            forall|k: int| 0 <= k < i ==> s@[k] != c,
        decreases s.len() - i,
    {
        if s[i] == c {
            assert(s@[i as int] == c);
            return true;
        }
        i = i + 1;
    }
    false
}

/// The characters of `a` followed by those of `b`.
pub fn concat_chars(a: &[char], b: &[char]) -> (res: Vec<char>)
    ensures
        res@ == a@ + b@,
{
    let mut res: Vec<char> = Vec::new();
    let mut i: usize = 0;
    while i < a.len()
        invariant
            i <= a.len(),
            res@ == a@.take(i as int),
        decreases a.len() - i,
    {
        res.push(a[i]);
        i = i + 1;
        assert(res@ =~= a@.take(i as int));
    }
    let mut j: usize = 0;
    while j < b.len()
        invariant
            j <= b.len(),
            res@ == a@ + b@.take(j as int),
        decreases b.len() - j,
    {
        res.push(b[j]);
        j = j + 1;
        assert(res@ =~= a@ + b@.take(j as int));
    }
    assert(a@.take(a@.len() as int) =~= a@);
    assert(b@.take(b@.len() as int) =~= b@);
    res
}


/// `k` is the first position of `c` in `s`.
pub open spec fn is_first_index(s: Seq<char>, c: char, k: int) -> bool {
    &&& 0 <= k < s.len()
    &&& s[k] == c
    &&& forall|j: int| 0 <= j < k ==> s[j] != c
}

/// The first position of `c` in `s` (meaningful when `s` contains `c`).
pub open spec fn first_index(s: Seq<char>, c: char) -> int {
    choose|k: int| is_first_index(s, c, k)
}

/// A character that occurs has a first position.
pub proof fn lemma_first_index_exists(s: Seq<char>, c: char)
    requires
        s.contains(c),
    ensures
        is_first_index(s, c, first_index(s, c)),
    decreases s.len(),
{
    let t = s.drop_last();
    if t.contains(c) {
        lemma_first_index_exists(t, c);
        let k = first_index(t, c);
        assert forall|j: int| 0 <= j < k implies s[j] != c by {
            assert(s[j] == t[j]);
        }
        assert(is_first_index(s, c, k));
    } else {
        let j = choose|j: int| 0 <= j < s.len() && s[j] == c;
        assert(j == s.len() - 1) by {
            if j < s.len() - 1 {
                assert(t[j] == c);
            }
        }
        assert forall|i: int| 0 <= i < s.len() - 1 implies s[i] != c by {
            assert(s[i] == t[i]);
            if s[i] == c {
                assert(t.contains(c));
            }
        }
        assert(is_first_index(s, c, s.len() - 1));
    }
}

/// The first position is the one that `first_index` names.
pub proof fn lemma_first_index(s: Seq<char>, c: char, k: int)
    requires
        is_first_index(s, c, k),
    ensures
        first_index(s, c) == k,
{
    let kk = first_index(s, c);
    assert(is_first_index(s, c, kk));
    if kk < k {
        assert(s[kk] != c);
    }
    if kk > k {
        assert(s[k] != c);
    }
}

/// The first position of `c` in `s`.
pub fn find_char(s: &[char], c: char) -> (res: Option<usize>)
    ensures
        match res {
            Some(k) => is_first_index(s@, c, k as int) && first_index(s@, c) == k,
            None => !s@.contains(c),
        },
{
    let mut i: usize = 0;
    while i < s.len()
        invariant
            i <= s.len(),
            forall|j: int| 0 <= j < i ==> s@[j] != c,
        decreases s.len() - i,
    {
        if s[i] == c {
            proof {
                lemma_first_index(s@, c, i as int);
            }
            return Some(i);
        }
        i = i + 1;
    }
    None
}

/// What comes before the first `c` in `s`; all of `s` when there is none
/// (the first piece of `str::split`).
pub open spec fn before_first(s: Seq<char>, c: char) -> Seq<char> {
    if s.contains(c) {
        s.subrange(0, first_index(s, c))
    } else {
        s
    }
}

/// A text that holds the separator splits into two pieces or more.
pub proof fn lemma_split_char_many(s: Seq<char>, c: char)
    requires
        s.contains(c),
    ensures
        split_char(s, c).len() >= 2,
    decreases s.len(),
{
    let t = s.drop_last();
    lemma_split_char_nonempty(t, c);
    if s.last() != c {
        let j = choose|j: int| 0 <= j < s.len() && s[j] == c;
        assert(t[j] == c);
        lemma_split_char_many(t, c);
    }
}

/// The first piece is what comes before the first separator.
pub proof fn lemma_split_first_piece(s: Seq<char>, c: char)
    ensures
        split_char(s, c)[0] == before_first(s, c),
    decreases s.len(),
{
    if s.len() > 0 {
        let t = s.drop_last();
        lemma_split_first_piece(t, c);
        lemma_split_char_nonempty(t, c);
        if t.contains(c) {
            lemma_split_char_many(t, c);
            lemma_first_index_exists(t, c);
            let k = first_index(t, c);
            assert forall|j: int| 0 <= j < k implies s[j] != c by {
                assert(s[j] == t[j]);
            }
            assert(is_first_index(s, c, k));
            lemma_first_index(s, c, k);
            assert(s.contains(c));
            assert(s.subrange(0, k) =~= t.subrange(0, k));
            assert(split_char(s, c)[0] == split_char(t, c)[0]);
        } else if s.last() == c {
            assert forall|i: int| 0 <= i < s.len() - 1 implies s[i] != c by {
                assert(s[i] == t[i]);
                if s[i] == c {
                    assert(t.contains(c));
                }
            }
            assert(is_first_index(s, c, s.len() - 1));
            lemma_first_index(s, c, s.len() - 1);
            assert(s.subrange(0, s.len() - 1) =~= t);
            assert(split_char(s, c)[0] == split_char(t, c)[0]);
        } else {
            assert(!s.contains(c)) by {
                if s.contains(c) {
                    let j = choose|j: int| 0 <= j < s.len() && s[j] == c;
                    if j < s.len() - 1 {
                        assert(t[j] == c);
                    }
                }
            }
            assert(t.push(s.last()) =~= s);
            let r = split_char(t, c);
            if r.len() > 1 {
                lemma_split_len_count(t, c);
            }
            assert(r.len() == 1);
            assert(split_char(s, c)[0] == r[0].push(s.last()));
        }
    } else {
        assert(!s.contains(c));
    }
}

/// A text that splits into two pieces or more holds the separator.
pub proof fn lemma_split_len_count(s: Seq<char>, c: char)
    requires
        split_char(s, c).len() > 1,
    ensures
        s.contains(c),
    decreases s.len(),
{
    if s.len() > 0 {
        let t = s.drop_last();
        if s.last() != c {
            lemma_split_char_nonempty(t, c);
            assert(split_char(s, c).len() == split_char(t, c).len());
            lemma_split_len_count(t, c);
            let j = choose|j: int| 0 <= j < t.len() && t[j] == c;
            assert(s[j] == c);
        } else {
            assert(s[s.len() - 1] == c);
        }
    }
}

/// The characters of `s` before the first `c` (all of them when none).
pub fn chars_before(s: &Vec<char>, c: char) -> (res: Vec<char>)
    ensures
        res@ == before_first(s@, c),
{
    match find_char(s, c) {
        Some(k) => slice_chars(s, 0, k),
        None => {
            let res = slice_chars(s, 0, s.len());
            assert(res@ =~= s@);
            res
        },
    }
}

// ---------------------------------------------------------------- numbers

/// The decimal digits of `n`, without leading zeros (`0` for zero).
pub open spec fn decimal_digits(n: nat) -> Seq<char>
    decreases n,
{
    if n < 10 {
        seq![digit_char(n)]
    } else {
        decimal_digits(n / 10).push(digit_char(n % 10))
    }
}

/// The ASCII digit of `d`.
pub open spec fn digit_char(d: nat) -> char {
    (('0' as u32) + d) as char
}

/// `n` written in decimal, `-` first when negative, as `Display` writes it.
pub open spec fn int_text(n: int) -> Seq<char> {
    if n < 0 {
        seq!['-'] + decimal_digits((-n) as nat)
    } else {
        decimal_digits(n as nat)
    }
}

/// `n` as `{:03}` writes it: zero-padded after the sign to at least three
/// characters.
pub open spec fn int_text_width3(n: int) -> Seq<char> {
    let sign = if n < 0 {
        seq!['-']
    } else {
        Seq::<char>::empty()
    };
    let digits = decimal_digits(if n < 0 {
        (-n) as nat
    } else {
        n as nat
    });
    let pad = if sign.len() + digits.len() < 3 {
        (3 - sign.len() - digits.len()) as nat
    } else {
        0
    };
    sign + Seq::new(pad, |i: int| '0') + digits
}

/// How many digits a number has.
pub proof fn lemma_decimal_digits_len(n: nat)
    ensures
        1 <= decimal_digits(n).len(),
        n < 10 ==> decimal_digits(n).len() == 1,
        10 <= n < 100 ==> decimal_digits(n).len() == 2,
        n >= 100 ==> decimal_digits(n).len() >= 3,
        100 <= n < 1000 ==> decimal_digits(n).len() == 3,
    decreases n,
{
    if n >= 10 {
        lemma_decimal_digits_len(n / 10);
    }
}

proof fn lemma_digit_char(d: nat)
    requires
        d < 10,
    ensures
        is_ascii_digit(digit_char(d)),
        digit_value(digit_char(d)) == d,
{
}

/// The decimal digits of a number are ASCII digits and read back as it.
pub proof fn lemma_decimal_digits_value(n: nat)
    ensures
        all_ascii_digits(decimal_digits(n)),
        decimal_value(decimal_digits(n)) == n,
        decimal_digits(n).len() >= 1,
    decreases n,
{
    if n < 10 {
        lemma_digit_char(n);
        assert(decimal_digits(n).drop_last() =~= Seq::<char>::empty());
        assert(decimal_value(Seq::<char>::empty()) == 0);
    } else {
        lemma_decimal_digits_value(n / 10);
        lemma_digit_char(n % 10);
        let d = decimal_digits(n);
        assert(d.drop_last() =~= decimal_digits(n / 10));
        assert(d.last() == digit_char(n % 10));
        assert((n / 10) * 10 + n % 10 == n) by (nonlinear_arith);
        assert(all_ascii_digits(d)) by {
            assert forall|i: int| 0 <= i < d.len() implies is_ascii_digit(#[trigger] d[i]) by {
                if i < d.len() - 1 {
                    assert(d[i] == decimal_digits(n / 10)[i]);
                }
            }
        }
    }
}

/// Leading zeros do not change what digits read as.
pub proof fn lemma_zeros_value(k: nat, s: Seq<char>)
    ensures
        decimal_value(Seq::new(k, |i: int| '0') + s) == decimal_value(s),
        all_ascii_digits(s) ==> all_ascii_digits(Seq::new(k, |i: int| '0') + s),
    decreases s.len() + k,
{
    let z = Seq::new(k, |i: int| '0');
    if s.len() == 0 {
        assert(z + s =~= z);
        if k > 0 {
            lemma_zeros_value((k - 1) as nat, s);
            assert(z.drop_last() =~= Seq::new((k - 1) as nat, |i: int| '0') + s);
            lemma_digit_char(0);
        }
    } else {
        lemma_zeros_value(k, s.drop_last());
        assert((z + s).drop_last() =~= z + s.drop_last());
    }
    if all_ascii_digits(s) {
        assert forall|i: int| 0 <= i < (z + s).len() implies is_ascii_digit(#[trigger] (z + s)[i]) by {
            if i >= k {
                assert((z + s)[i] == s[i - k]);
            }
        }
    }
}

/// Every character of a number's text is an ASCII digit or the sign.
pub proof fn lemma_int_text_chars(n: int)
    ensures
        forall|i: int|
            0 <= i < int_text(n).len() ==> is_ascii_digit(#[trigger] int_text(n)[i])
                || int_text(n)[i] == '-',
{
    let m: nat = if n < 0 {
        (-n) as nat
    } else {
        n as nat
    };
    lemma_decimal_digits_value(m);
    let t = int_text(n);
    assert forall|i: int| 0 <= i < t.len() implies is_ascii_digit(#[trigger] t[i]) || t[i] == '-' by {
        if n < 0 && i > 0 {
            assert(t[i] == decimal_digits(m)[i - 1]);
        }
    }
}

/// A number's text reads back as the number.
pub proof fn lemma_int_text_value(n: i32)
    ensures
        i32_text_value(int_text(n as int)) == Some(n),
{
    if n < 0 {
        let m = (-n) as nat;
        lemma_decimal_digits_value(m);
        let t = int_text(n as int);
        assert(t.drop_first() =~= decimal_digits(m));
    } else {
        lemma_decimal_digits_value(n as nat);
        lemma_digit_char(0);
    }
}

/// A number from 0 to 999 written as `{:03}` is three ASCII digits.
pub proof fn lemma_int_text_width3_digits(n: int)
    requires
        0 <= n <= 999,
    ensures
        int_text_width3(n).len() == 3,
        all_ascii_digits(int_text_width3(n)),
{
    lemma_decimal_digits_len(n as nat);
    lemma_decimal_digits_value(n as nat);
    let digits = decimal_digits(n as nat);
    let pad: nat = (3 - digits.len()) as nat;
    lemma_zeros_value(pad, digits);
    assert(int_text_width3(n) =~= Seq::new(pad, |i: int| '0') + digits);
}

/// A number written as `{:03}` reads back as the number.
pub proof fn lemma_int_text_width3_value(n: i32)
    ensures
        i32_text_value(int_text_width3(n as int)) == Some(n),
{
    let m: nat = if n < 0 {
        (-n) as nat
    } else {
        n as nat
    };
    lemma_decimal_digits_value(m);
    let digits = decimal_digits(m);
    let sign_len: int = if n < 0 {
        1
    } else {
        0
    };
    let pad: nat = if sign_len + digits.len() < 3 {
        (3 - sign_len - digits.len()) as nat
    } else {
        0
    };
    let z = Seq::new(pad, |i: int| '0');
    lemma_zeros_value(pad, digits);
    let t = int_text_width3(n as int);
    if n < 0 {
        assert(t =~= seq!['-'] + (z + digits));
        assert(t.drop_first() =~= z + digits);
    } else {
        assert(t =~= z + digits);
        assert(is_ascii_digit(t[0]));
    }
}

/// The decimal digits of `n`.
pub fn digits_of(n: u64) -> (res: Vec<char>)
    ensures
        res@ == decimal_digits(n as nat),
{
    // digits from the least significant one
    let mut rev: Vec<char> = Vec::new();
    let mut m: u64 = n;
    while m >= 10
        invariant
            decimal_digits(n as nat) == decimal_digits(m as nat) + rev@.reverse(),
        decreases m,
    {
        let d = m % 10;
        let ghost old_rev = rev@;
        rev.push(char_of_digit(d));
        assert(rev@.reverse() =~= seq![digit_char(d as nat)] + old_rev.reverse());
        m = m / 10;
        assert(decimal_digits(n as nat) =~= decimal_digits(m as nat) + rev@.reverse());
    }
    let ghost old_rev = rev@;
    rev.push(char_of_digit(m));
    assert(rev@.reverse() =~= seq![digit_char(m as nat)] + old_rev.reverse());
    assert(decimal_digits(n as nat) =~= rev@.reverse());
    let mut res: Vec<char> = Vec::new();
    let mut i: usize = rev.len();
    while i > 0
        invariant
            i <= rev.len(),
            res@ == rev@.subrange(i as int, rev@.len() as int).reverse(),
        decreases i,
    {
        i = i - 1;
        res.push(rev[i]);
        assert(res@ =~= rev@.subrange(i as int, rev@.len() as int).reverse());
    }
    assert(rev@.subrange(0, rev@.len() as int) =~= rev@);
    res
}

fn char_of_digit(d: u64) -> (c: char)
    requires
        d < 10,
    ensures
        c == digit_char(d as nat),
{
    let v = ('0' as u32 + d as u32) as u8;
    v as char
}

/// `n` written in decimal.
pub fn int_to_text(n: i64) -> (res: Vec<char>)
    ensures
        res@ == int_text(n as int),
{
    if n < 0 {
        let mag: u64 = if n == i64::MIN {
            9223372036854775808u64
        } else {
            (-n) as u64
        };
        let d = digits_of(mag);
        let mut res: Vec<char> = Vec::new();
        res.push('-');
        let out = concat_chars(&res, &d);
        assert(res@ =~= seq!['-']);
        out
    } else {
        digits_of(n as u64)
    }
}

/// `n` as `{:03}` writes it.
pub fn int_to_text_width3(n: i64) -> (res: Vec<char>)
    ensures
        res@ == int_text_width3(n as int),
{
    let neg = n < 0;
    let mag: u64 = if n == i64::MIN {
        9223372036854775808u64
    } else if neg {
        (-n) as u64
    } else {
        n as u64
    };
    let d = digits_of(mag);
    let mut res: Vec<char> = Vec::new();
    if neg {
        res.push('-');
    }
    let sign_len: usize = if neg { 1 } else { 0 };
    let ghost sign = res@;
    let mut pad: usize = 0;
    if d.len() < 3 - sign_len {
        pad = 3 - sign_len - d.len();
    }
    let mut k: usize = 0;
    while k < pad
        invariant
            k <= pad <= 3,
            res@ == sign + Seq::new(k as nat, |i: int| '0'),
        decreases pad - k,
    {
        res.push('0');
        k = k + 1;
        assert(res@ =~= sign + Seq::new(k as nat, |i: int| '0'));
    }
    let out = concat_chars(&res, &d);
    proof {
        if neg {
            assert(sign =~= seq!['-']);
        } else {
            assert(sign =~= Seq::<char>::empty());
        }
    }
    out
}

/// The `i32` that `s` reads as, as `i32::from_str` reads it: an optional `+`
/// or `-`, then one or more ASCII digits, within range.
pub open spec fn i32_text_value(s: Seq<char>) -> Option<i32> {
    let neg = s.len() > 0 && s[0] == '-';
    let digits = if s.len() > 0 && (s[0] == '-' || s[0] == '+') {
        s.drop_first()
    } else {
        s
    };
    if digits.len() > 0 && all_ascii_digits(digits) {
        let v: int = if neg {
            -decimal_value(digits)
        } else {
            decimal_value(digits) as int
        };
        if i32::MIN <= v <= i32::MAX {
            Some(v as i32)
        } else {
            None
        }
    } else {
        None
    }
}

proof fn lemma_decimal_value_prefix(s: Seq<char>, i: int)
    requires
        0 <= i <= s.len(),
    ensures
        decimal_value(s.take(i)) <= decimal_value(s),
    decreases s.len() - i,
{
    if i < s.len() {
        lemma_decimal_value_prefix(s, i + 1);
        assert(s.take(i + 1).drop_last() =~= s.take(i));
    } else {
        assert(s.take(i) =~= s);
    }
}

/// Reads an `i32` as `i32::from_str` does.
pub fn parse_i32(s: &[char]) -> (res: Option<i32>)
    ensures
        res == i32_text_value(s@),
{
    let n = s.len();
    let mut start: usize = 0;
    let mut neg = false;
    if n > 0 && (s[0] == '-' || s[0] == '+') {
        neg = s[0] == '-';
        start = 1;
    }
    let ghost digits = if n > 0 && (s@[0] == '-' || s@[0] == '+') {
        s@.drop_first()
    } else {
        s@
    };
    assert(digits =~= s@.subrange(start as int, n as int));
    if start >= n {
        return None;
    }
    let mut v: u64 = 0;
    let mut i: usize = start;
    while i < n
        invariant
            start <= i <= n == s.len(),
            start <= 1,
            digits == s@.subrange(start as int, n as int),
            digits == (if n > 0 && (s@[0] == '-' || s@[0] == '+') {
                s@.drop_first()
            } else {
                s@
            }),
            v == decimal_value(digits.take(i - start)),
            v <= 2147483648,
            all_ascii_digits(digits.take(i - start)),
        decreases n - i,
    {
        let c = s[i];
        if !ascii_digit(c) {
            assert(!all_ascii_digits(digits)) by {
                assert(digits[i - start] == c);
            }
            return None;
        }
        assert(digits.take(i - start + 1).drop_last() =~= digits.take(i - start));
        let w = v * 10 + (c as u32 - '0' as u32) as u64;
        i = i + 1;
        assert(all_ascii_digits(digits.take(i - start)));
        if w > 2147483648 {
            // the digits read so far already exceed every i32 magnitude
            proof {
                lemma_decimal_value_prefix(digits, i - start);
                assert(decimal_value(digits) > 2147483648);
            }
            return None;
        }
        v = w;
    }
    assert(digits.take(n - start) =~= digits);
    if neg {
        Some((0 - (v as i64)) as i32)
    } else if v > 2147483647 {
        None
    } else {
        Some(v as i32)
    }
}

/// The pieces `parts[lo..hi]` joined with `sep`.
pub fn join_range(parts: &Vec<Vec<char>>, lo: usize, hi: usize, sep: char) -> (res: Vec<char>)
    requires
        lo <= hi <= parts.len(),
    ensures
        res@ == join_char(
            parts@.subrange(lo as int, hi as int).map_values(|p: Vec<char>| p@),
            sep,
        ),
{
    let mut res: Vec<char> = Vec::new();
    let mut i = lo;
    let ghost all = parts@.map_values(|p: Vec<char>| p@);
    assert(parts@.subrange(lo as int, lo as int).map_values(|p: Vec<char>| p@) =~= Seq::<
        Seq<char>,
    >::empty());
    while i < hi
        invariant
            lo <= i <= hi <= parts.len(),
            all == parts@.map_values(|p: Vec<char>| p@),
            res@ == join_char(all.subrange(lo as int, i as int), sep),
        decreases hi - i,
    {
        let ghost prev = all.subrange(lo as int, i as int);
        let ghost next = all.subrange(lo as int, i + 1);
        assert(next.drop_last() =~= prev);
        if i > lo {
            res.push(sep);
        }
        let piece = &parts[i];
        let mut k: usize = 0;
        let ghost base = res@;
        while k < piece.len()
            invariant
                k <= piece.len(),
                res@ == base + piece@.take(k as int),
            decreases piece.len() - k,
        {
            res.push(piece[k]);
            k = k + 1;
            assert(res@ =~= base + piece@.take(k as int));
        }
        assert(piece@.take(piece@.len() as int) =~= piece@);
        assert(next.last() == piece@);
        if i == lo {
            assert(res@ =~= join_char(next, sep));
        }
        i = i + 1;
    }
    assert(all.subrange(lo as int, hi as int) =~= parts@.subrange(lo as int, hi as int).map_values(
        |p: Vec<char>| p@,
    ));
    res
}

} // verus!
