//! Character-level text helpers shared by the asset-name, font and binding logic.
//!
//! Strings are handled as sequences of `char`; every helper states its result
//! over `Seq<char>` so that callers can reason about names exactly.
use vstd::prelude::*;

verus! {

/// The characters of `s`, in order.
pub fn chars_of(s: &str) -> (out: Vec<char>)
    ensures
        out@ == s@,
{
    let mut out: Vec<char> = Vec::new();
    for c in it: s.chars()
        invariant
            out@ == it.seq().take(it.index() as int),
            it.seq() == s@,
    {
        out.push(c);
    }
    out
}

/// Collects characters into a `String` (std's `FromIterator<char> for String`).
/// Claimed: the string holds exactly the given characters, in order.
#[verifier::external_body]
pub(crate) fn string_from_chars(chars: &Vec<char>) -> (s: String)
    ensures
        s@ == chars@,
{
    chars.iter().collect()
}

/// What std's `str::to_lowercase` gives (full Unicode case mapping).
pub uninterp spec fn unicode_lowercase(s: Seq<char>) -> Seq<char>;

/// std's `str::to_lowercase`. Claimed: the result depends on the input alone.
#[verifier::external_body]
pub(crate) fn to_lowercase(s: &str) -> (r: String)
    ensures
        r@ == unicode_lowercase(s@),
{
    s.to_lowercase()
}

/// Characters with the Unicode `White_Space` property, which is what
/// `char::is_whitespace` and `str::trim` test.
pub open spec fn is_white_space(c: char) -> bool {
    let u = c as u32;
    ||| 0x09 <= u <= 0x0D
    ||| u == 0x20
    ||| u == 0x85
    ||| u == 0xA0
    ||| u == 0x1680
    ||| 0x2000 <= u <= 0x200A
    ||| u == 0x2028
    ||| u == 0x2029
    ||| u == 0x202F
    ||| u == 0x205F
    ||| u == 0x3000
}

pub fn white_space(c: char) -> (b: bool)
    ensures
        b == is_white_space(c),
{
    let u = c as u32;
    (0x09 <= u && u <= 0x0D) || u == 0x20 || u == 0x85 || u == 0xA0 || u == 0x1680 || (0x2000
        <= u && u <= 0x200A) || u == 0x2028 || u == 0x2029 || u == 0x202F || u == 0x205F || u
        == 0x3000
}

/// Which characters a trim removes.
#[derive(Clone, Copy)]
pub enum CharClass {
    WhiteSpace,
    Exactly(char),
}

pub open spec fn class_has(class: CharClass, c: char) -> bool {
    match class {
        CharClass::WhiteSpace => is_white_space(c),
        CharClass::Exactly(x) => c == x,
    }
}

fn class_contains(class: CharClass, c: char) -> (b: bool)
    ensures
        b == class_has(class, c),
{
    match class {
        CharClass::WhiteSpace => white_space(c),
        CharClass::Exactly(x) => c == x,
    }
}

pub open spec fn trim_start_of(s: Seq<char>, class: CharClass) -> Seq<char>
    decreases s.len(),
{
    if s.len() > 0 && class_has(class, s[0]) {
        trim_start_of(s.drop_first(), class)
    } else {
        s
    }
}

pub open spec fn trim_end_of(s: Seq<char>, class: CharClass) -> Seq<char>
    decreases s.len(),
{
    if s.len() > 0 && class_has(class, s.last()) {
        trim_end_of(s.drop_last(), class)
    } else {
        s
    }
}

/// `s` without the leading and trailing characters of `class`.
pub open spec fn trim_of(s: Seq<char>, class: CharClass) -> Seq<char> {
    trim_end_of(trim_start_of(s, class), class)
}

/// What `str::trim` leaves of `s`.
pub open spec fn trimmed(s: Seq<char>) -> Seq<char> {
    trim_of(s, CharClass::WhiteSpace)
}

pub fn copy_range(s: &Vec<char>, from: usize, to: usize) -> (out: Vec<char>)
    requires
        from <= to <= s.len(),
    ensures
        out@ == s@.subrange(from as int, to as int),
{
    let mut out: Vec<char> = Vec::new();
    let mut k = from;
    while k < to
        invariant
            from <= k <= to <= s.len(),
            out@ == s@.subrange(from as int, k as int),
        decreases to - k,
    {
        out.push(s[k]);
        k = k + 1;
    }
    out
}

/// Removes the leading and trailing characters of `class`.
pub fn trim_chars(s: &Vec<char>, class: CharClass) -> (out: Vec<char>)
    ensures
        out@ == trim_of(s@, class),
{
    let n = s.len();
    let mut i: usize = 0;
    assert(s@.skip(0) =~= s@);
    while i < n && class_contains(class, s[i])
        invariant
            i <= n == s.len(),
            trim_start_of(s@, class) == trim_start_of(s@.skip(i as int), class),
        decreases n - i,
    {
        assert(s@.skip(i as int).drop_first() =~= s@.skip(i + 1));
        i = i + 1;
    }
    assert(trim_start_of(s@, class) =~= s@.subrange(i as int, n as int));
    let mut j: usize = n;
    while j > i && class_contains(class, s[j - 1])
        invariant
            i <= j <= n == s.len(),
            trim_end_of(s@.subrange(i as int, n as int), class) == trim_end_of(
                s@.subrange(i as int, j as int),
                class,
            ),
        decreases j - i,
    {
        assert(s@.subrange(i as int, j as int).drop_last() =~= s@.subrange(
            i as int,
            j - 1 as int,
        ));
        j = j - 1;
    }
    copy_range(s, i, j)
}

/// `str::trim` on a character vector.
pub fn trim_white_space(s: &Vec<char>) -> (out: Vec<char>)
    ensures
        out@ == trimmed(s@),
{
    trim_chars(s, CharClass::WhiteSpace)
}

pub open spec fn is_ascii_upper(c: char) -> bool {
    'A' <= c <= 'Z'
}

pub open spec fn is_ascii_lower(c: char) -> bool {
    'a' <= c <= 'z'
}

pub open spec fn is_ascii_digit(c: char) -> bool {
    '0' <= c <= '9'
}

/// `char::to_ascii_lowercase`.
pub open spec fn ascii_lower(c: char) -> char {
    if is_ascii_upper(c) {
        ((c as u8) + 32u8) as char
    } else {
        c
    }
}

/// `char::to_ascii_uppercase`.
pub open spec fn ascii_upper(c: char) -> char {
    if is_ascii_lower(c) {
        ((c as u8) - 32u8) as char
    } else {
        c
    }
}

pub open spec fn ascii_lower_seq(s: Seq<char>) -> Seq<char> {
    s.map_values(|c: char| ascii_lower(c))
}

pub open spec fn ascii_upper_seq(s: Seq<char>) -> Seq<char> {
    s.map_values(|c: char| ascii_upper(c))
}

pub fn to_ascii_lower_char(c: char) -> (r: char)
    ensures
        r == ascii_lower(c),
{
    if 'A' <= c && c <= 'Z' {
        ((c as u8) + 32) as char
    } else {
        c
    }
}

pub fn to_ascii_upper_char(c: char) -> (r: char)
    ensures
        r == ascii_upper(c),
{
    if 'a' <= c && c <= 'z' {
        ((c as u8) - 32) as char
    } else {
        c
    }
}

/// `str::to_ascii_lowercase` on a character vector.
pub fn to_ascii_lower(s: &Vec<char>) -> (out: Vec<char>)
    ensures
        out@ == ascii_lower_seq(s@),
{
    let mut out: Vec<char> = Vec::new();
    for k in 0..s.len()
        invariant
            out@ == ascii_lower_seq(s@.take(k as int)),
    {
        assert(s@.take(k + 1) =~= s@.take(k as int).push(s@[k as int]));
        out.push(to_ascii_lower_char(s[k]));
        assert(out@ =~= ascii_lower_seq(s@.take(k + 1)));
    }
    assert(s@.take(s.len() as int) =~= s@);
    out
}

/// `str::to_ascii_uppercase` on a character vector.
pub fn to_ascii_upper(s: &Vec<char>) -> (out: Vec<char>)
    ensures
        out@ == ascii_upper_seq(s@),
{
    let mut out: Vec<char> = Vec::new();
    for k in 0..s.len()
        invariant
            out@ == ascii_upper_seq(s@.take(k as int)),
    {
        assert(s@.take(k + 1) =~= s@.take(k as int).push(s@[k as int]));
        out.push(to_ascii_upper_char(s[k]));
        assert(out@ =~= ascii_upper_seq(s@.take(k + 1)));
    }
    assert(s@.take(s.len() as int) =~= s@);
    out
}

/// Whether two character vectors hold the same characters.
pub fn chars_equal(a: &Vec<char>, b: &Vec<char>) -> (r: bool)
    ensures
        r == (a@ == b@),
{
    if a.len() != b.len() {
        return false;
    }
    for k in 0..a.len()
        invariant
            a.len() == b.len(),
            forall|j: int| 0 <= j < k ==> a@[j] == b@[j],
    {
        if a[k] != b[k] {
            return false;
        }
    }
    assert(a@ =~= b@);
    true
}

/// Whether `text` holds exactly the characters of the literal `lit`.
pub fn chars_equal_str(text: &Vec<char>, lit: &str) -> (r: bool)
    ensures
        r == (text@ == lit@),
{
    let l = chars_of(lit);
    chars_equal(text, &l)
}

/// The decimal digit character for `d < 10`.
pub open spec fn digit_char(d: nat) -> char {
    ((48 + d) as u8) as char
}

/// The decimal representation of `n`, as `Display` writes it.
pub open spec fn decimal(n: nat) -> Seq<char>
    decreases n,
{
    if n < 10 {
        seq![digit_char(n)]
    } else {
        decimal(n / 10).push(digit_char(n % 10))
    }
}

/// Appends the decimal digits of `n`.
pub fn push_decimal(out: &mut Vec<char>, n: u64)
    ensures
        final(out)@ == old(out)@ + decimal(n as nat),
    decreases n,
{
    if n < 10 {
        out.push(((48 + n) as u8) as char);
    } else {
        push_decimal(out, n / 10);
        out.push(((48 + n % 10) as u8) as char);
    }
}

/// `format!("{:02}", n)`: the decimal digits of `n`, zero-padded to two characters.
pub open spec fn decimal_pad2(n: nat) -> Seq<char> {
    if n < 10 {
        seq!['0'].add(decimal(n))
    } else {
        decimal(n)
    }
}

pub fn push_decimal_pad2(out: &mut Vec<char>, n: u64)
    ensures
        final(out)@ == old(out)@ + decimal_pad2(n as nat),
{
    if n < 10 {
        out.push('0');
    }
    push_decimal(out, n);
}

/// The characters of a `str` literal appended to `out`.
pub fn push_str(out: &mut Vec<char>, s: &str)
    ensures
        final(out)@ == old(out)@ + s@,
{
    for c in it: s.chars()
        invariant
            out@ == old(out)@ + it.seq().take(it.index() as int),
            it.seq() == s@,
    {
        out.push(c);
    }
}

pub fn push_chars(out: &mut Vec<char>, s: &Vec<char>)
    ensures
        final(out)@ == old(out)@ + s@,
{
    for k in 0..s.len()
        invariant
            out@ == old(out)@ + s@.take(k as int),
    {
        assert(s@.take(k + 1) =~= s@.take(k as int).push(s@[k as int]));
        out.push(s[k]);
    }
    assert(s@.take(s.len() as int) =~= s@);
}

pub open spec fn digit_value(c: char) -> nat {
    ((c as u32) - 48) as nat
}

pub open spec fn all_digits(s: Seq<char>) -> bool {
    forall|i: int| 0 <= i < s.len() ==> is_ascii_digit(#[trigger] s[i])
}

/// The number written by a sequence of decimal digits.
pub open spec fn digits_value(s: Seq<char>) -> nat
    decreases s.len(),
{
    if s.len() == 0 {
        0
    } else {
        digits_value(s.drop_last()) * 10 + digit_value(s.last())
    }
}

/// The digits that integer `FromStr` reads: one leading `+` is allowed.
pub open spec fn unsigned_digits(s: Seq<char>) -> Seq<char> {
    if s.len() > 0 && s[0] == '+' {
        s.drop_first()
    } else {
        s
    }
}

/// What `str::parse` gives for an unsigned integer type whose largest value is `max`.
pub open spec fn parse_unsigned(s: Seq<char>, max: nat) -> Option<nat> {
    let d = unsigned_digits(s);
    if d.len() > 0 && all_digits(d) && digits_value(d) <= max {
        Some(digits_value(d))
    } else {
        None
    }
}

proof fn lemma_digits_value_prefix(s: Seq<char>, k: int)
    requires
        0 <= k <= s.len(),
        all_digits(s),
    ensures
        digits_value(s.take(k)) <= digits_value(s),
    decreases s.len() - k,
{
    if k < s.len() {
        lemma_digits_value_prefix(s, k + 1);
        assert(s.take(k + 1).drop_last() =~= s.take(k));
    } else {
        assert(s.take(k) =~= s);
    }
}

/// Parses an unsigned decimal integer no larger than `max`, as integer `FromStr` does.
pub fn parse_unsigned_chars(s: &Vec<char>, max: u64) -> (r: Option<u64>)
    requires
        max <= u32::MAX,
    ensures
        match r {
            Some(v) => parse_unsigned(s@, max as nat) == Some(v as nat),
            None => parse_unsigned(s@, max as nat) is None,
        },
{
    let n = s.len();
    let start: usize = if n > 0 && s[0] == '+' {
        1
    } else {
        0
    };
    let ghost d = unsigned_digits(s@);
    assert(d =~= s@.skip(start as int));
    if start >= n {
        return None;
    }
    let mut value: u64 = 0;
    let mut i = start;
    assert(d.take(0) =~= Seq::<char>::empty());
    while i < n
        invariant
            start <= i <= n == s.len(),
            d == s@.skip(start as int),
            d == unsigned_digits(s@),
            value as nat == digits_value(d.take(i - start)),
            value <= max <= u32::MAX,
            all_digits(d.take(i - start)),
        decreases n - i,
    {
        let c = s[i];
        if !('0' <= c && c <= '9') {
            assert(d[i - start] == c);
            assert(!all_digits(d));
            return None;
        }
        let ghost k = (i - start) as int;
        assert(d.take(k + 1).drop_last() =~= d.take(k));
        assert(d.take(k + 1).last() == c);
        value = value * 10 + (c as u64 - 48);
        i = i + 1;
        assert(value as nat == digits_value(d.take(k + 1)));
        assert(all_digits(d.take(k + 1)));
        if value > max {
            proof {
                if all_digits(d) {
                    lemma_digits_value_prefix(d, k + 1);
                }
            }
            assert(parse_unsigned(s@, max as nat) is None);
            return None;
        }
    }
    assert(d.take(d.len() as int) =~= d);
    Some(value)
}

/// The pieces of `s` between occurrences of `sep`, as `str::split` yields them,
/// together with the piece still being read.
pub open spec fn split_state(s: Seq<char>, sep: char) -> (Seq<Seq<char>>, Seq<char>)
    decreases s.len(),
{
    if s.len() == 0 {
        (seq![], seq![])
    } else {
        let (done, cur) = split_state(s.drop_last(), sep);
        if s.last() == sep {
            (done.push(cur), seq![])
        } else {
            (done, cur.push(s.last()))
        }
    }
}

/// `str::split(sep)`: always at least one piece; empty pieces are kept.
pub open spec fn split_on(s: Seq<char>, sep: char) -> Seq<Seq<char>> {
    let (done, cur) = split_state(s, sep);
    done.push(cur)
}

pub open spec fn views_of(v: Seq<Vec<char>>) -> Seq<Seq<char>> {
    v.map_values(|x: Vec<char>| x@)
}

/// Splits `s` at every `sep`.
pub fn split_chars(s: &Vec<char>, sep: char) -> (out: Vec<Vec<char>>)
    ensures
        views_of(out@) == split_on(s@, sep),
{
    let mut done: Vec<Vec<char>> = Vec::new();
    let mut cur: Vec<char> = Vec::new();
    for k in 0..s.len()
        invariant
            (views_of(done@), cur@) == split_state(s@.take(k as int), sep),
    {
        assert(s@.take(k + 1).drop_last() =~= s@.take(k as int));
        let c = s[k];
        if c == sep {
            let piece = cur;
            cur = Vec::new();
            done.push(piece);
            assert(views_of(done@) =~= split_state(s@.take(k + 1), sep).0);
        } else {
            cur.push(c);
        }
    }
    assert(s@.take(s.len() as int) =~= s@);
    done.push(cur);
    assert(views_of(done@) =~= split_on(s@, sep));
    done
}

/// `haystack` holds `needle` as a contiguous run (`str::contains` with a string pattern).
pub open spec fn contains_seq(haystack: Seq<char>, needle: Seq<char>) -> bool {
    exists|i: int|
        0 <= i && i + needle.len() <= haystack.len() && #[trigger] haystack.subrange(
            i,
            i + needle.len(),
        ) == needle
}

pub fn contains_chars(haystack: &Vec<char>, needle: &Vec<char>) -> (r: bool)
    ensures
        r == contains_seq(haystack@, needle@),
{
    let n = haystack.len();
    let m = needle.len();
    if m > n {
        return false;
    }
    let mut i: usize = 0;
    while i <= n - m
        invariant
            n == haystack.len(),
            m == needle.len(),
            m <= n,
            i <= n - m + 1,
            forall|j: int|
                0 <= j < i ==> #[trigger] haystack@.subrange(j, j + m) != needle@,
        decreases n - i,
    {
        let mut k: usize = 0;
        let mut same = true;
        while k < m
            invariant
                n == haystack.len(),
                m == needle.len(),
                i + m <= n,
                k <= m,
                same == (forall|j: int| 0 <= j < k ==> haystack@[i + j] == needle@[j]),
            decreases m - k,
        {
            if haystack[i + k] != needle[k] {
                same = false;
            }
            k = k + 1;
        }
        if same {
            assert(haystack@.subrange(i as int, i + m) =~= needle@);
            return true;
        } else {
            assert(haystack@.subrange(i as int, i + m) != needle@) by {
                let j = choose|j: int| 0 <= j < m && haystack@[i + j] != needle@[j];
                assert(haystack@.subrange(i as int, i + m)[j] == haystack@[i + j]);
            }
        }
        i = i + 1;
    }
    assert forall|j: int|
        0 <= j && j + needle@.len() <= haystack@.len() implies #[trigger] haystack@.subrange(
        j,
        j + needle@.len(),
    ) != needle@ by {
        assert(j < i);
    }
    false
}

/// Every `from` in `s` replaced by `to` (`str::replace` with a `char` pattern).
pub open spec fn replace_char(s: Seq<char>, from: char, to: Seq<char>) -> Seq<char>
    decreases s.len(),
{
    if s.len() == 0 {
        seq![]
    } else {
        replace_char(s.drop_last(), from, to) + (if s.last() == from {
            to
        } else {
            seq![s.last()]
        })
    }
}

pub fn replace_char_chars(s: &Vec<char>, from: char, to: &Vec<char>) -> (out: Vec<char>)
    ensures
        out@ == replace_char(s@, from, to@),
{
    let mut out: Vec<char> = Vec::new();
    for k in 0..s.len()
        invariant
            out@ == replace_char(s@.take(k as int), from, to@),
    {
        assert(s@.take(k + 1).drop_last() =~= s@.take(k as int));
        if s[k] == from {
            push_chars(&mut out, to);
        } else {
            out.push(s[k]);
        }
        assert(out@ =~= replace_char(s@.take(k + 1), from, to@));
    }
    assert(s@.take(s.len() as int) =~= s@);
    out
}

/// `s` starts with `prefix`.
pub open spec fn has_prefix(s: Seq<char>, prefix: Seq<char>) -> bool {
    prefix.len() <= s.len() && s.take(prefix.len() as int) == prefix
}

/// `s` ends with `suffix`.
pub open spec fn has_suffix(s: Seq<char>, suffix: Seq<char>) -> bool {
    suffix.len() <= s.len() && s.skip(s.len() - suffix.len()) == suffix
}

pub fn starts_with_chars(s: &Vec<char>, prefix: &Vec<char>) -> (r: bool)
    ensures
        r == has_prefix(s@, prefix@),
{
    if prefix.len() > s.len() {
        return false;
    }
    let head = copy_range(s, 0, prefix.len());
    chars_equal(&head, prefix)
}

pub fn ends_with_chars(s: &Vec<char>, suffix: &Vec<char>) -> (r: bool)
    ensures
        r == has_suffix(s@, suffix@),
{
    if suffix.len() > s.len() {
        return false;
    }
    let tail = copy_range(s, s.len() - suffix.len(), s.len());
    assert(tail@ =~= s@.skip(s@.len() - suffix@.len()));
    chars_equal(&tail, suffix)
}

/// Index of the last `c` in `s`, if any.
pub open spec fn last_index_of(s: Seq<char>, c: char) -> Option<int>
    decreases s.len(),
{
    if s.len() == 0 {
        None
    } else if s.last() == c {
        Some(s.len() - 1)
    } else {
        last_index_of(s.drop_last(), c)
    }
}

pub fn find_last(s: &Vec<char>, c: char) -> (r: Option<usize>)
    ensures
        match r {
            Some(i) => last_index_of(s@, c) == Some(i as int),
            None => last_index_of(s@, c) is None,
        },
{
    let mut j = s.len();
    assert(s@.take(j as int) =~= s@);
    while j > 0
        invariant
            j <= s.len(),
            last_index_of(s@, c) == last_index_of(s@.take(j as int), c),
        decreases j,
    {
        if s[j - 1] == c {
            return Some(j - 1);
        }
        assert(s@.take(j as int).drop_last() =~= s@.take(j - 1));
        j = j - 1;
    }
    None
}


/// `decimal` writes only digits, and reading them back gives the number.
pub proof fn lemma_decimal_parses(n: nat)
    ensures
        decimal(n).len() > 0,
        all_digits(decimal(n)),
        digits_value(decimal(n)) == n,
    decreases n,
{
    if n < 10 {
        assert(digit_value(digit_char(n)) == n);
        assert(digits_value(decimal(n).drop_last()) == 0);
    } else {
        lemma_decimal_parses(n / 10);
        let d = decimal(n);
        assert(d.drop_last() =~= decimal(n / 10));
        assert(digit_value(digit_char(n % 10)) == n % 10);
    }
}


/// Different numbers are written differently.
pub proof fn lemma_decimal_injective(n: nat, m: nat)
    ensures
        decimal(n) == decimal(m) ==> n == m,
{
    lemma_decimal_parses(n);
    lemma_decimal_parses(m);
}

/// A number written between a fixed prefix and suffix can be read back from
/// the whole: different numbers give different names.
pub proof fn lemma_numbered_names_distinct(prefix: Seq<char>, suffix: Seq<char>, n: nat, m: nat)
    ensures
        prefix + decimal(n) + suffix == prefix + decimal(m) + suffix ==> n == m,
{
    let a = prefix + decimal(n) + suffix;
    let b = prefix + decimal(m) + suffix;
    if a == b {
        let lo = prefix.len() as int;
        assert(a.len() == prefix.len() + decimal(n).len() + suffix.len());
        assert(b.len() == prefix.len() + decimal(m).len() + suffix.len());
        assert(a.len() == b.len());
        assert(decimal(n).len() == decimal(m).len());
        assert(a.subrange(lo, lo + decimal(n).len()) =~= decimal(n));
        assert(b.subrange(lo, lo + decimal(m).len()) =~= decimal(m));
        lemma_decimal_injective(n, m);
    }
}


proof fn lemma_leading_zero(d: Seq<char>)
    ensures
        digits_value(seq!['0'] + d) == digits_value(d),
    decreases d.len(),
{
    if d.len() > 0 {
        lemma_leading_zero(d.drop_last());
        assert((seq!['0'] + d).drop_last() =~= seq!['0'] + d.drop_last());
        assert((seq!['0'] + d).last() == d.last());
    } else {
        assert((seq!['0'] + d).drop_last() =~= Seq::<char>::empty());
        assert((seq!['0'] + d).last() == '0');
        assert(('0' as u32) == 48);
        assert(digit_value('0') == 0);
        assert(digits_value(Seq::<char>::empty()) == 0);
    }
}

/// A two-digit-padded number is all digits, at least two of them, and reads
/// back as the number; below 100 it is exactly two digits.
pub proof fn lemma_pad2_parses(n: nat)
    ensures
        all_digits(decimal_pad2(n)),
        digits_value(decimal_pad2(n)) == n,
        decimal_pad2(n).len() >= 2,
        n < 100 ==> decimal_pad2(n).len() == 2,
{
    lemma_decimal_parses(n);
    if n < 10 {
        lemma_leading_zero(decimal(n));
        assert(is_ascii_digit('0'));
        assert forall|i: int| 0 <= i < decimal_pad2(n).len() implies is_ascii_digit(#[trigger] decimal_pad2(n)[i]) by {
            if i > 0 {
                assert(decimal_pad2(n)[i] == decimal(n)[i - 1]);
            }
        }
    } else {
        assert(decimal(n / 10).len() >= 1) by {
            lemma_decimal_parses(n / 10);
        }
        if n < 100 {
            assert(decimal(n / 10).len() == 1);
        }
    }
}

} // verus!
