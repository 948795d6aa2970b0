//! Character-level helpers: whitespace trimming, newline folding, the
//! file-extension rule and the reading of decimal identifiers.

use vstd::prelude::*;
use vstd::std_specs::iter::IteratorSpec;

verus! {

/// `String::push` appends exactly one character at the end.
pub assume_specification[ String::push ](s: &mut String, c: char)
    ensures
        final(s)@ == old(s)@.push(c),
;

/// The characters of `s`, in order.
pub fn to_chars(s: &str) -> (out: Vec<char>)
    ensures
        out@ == s@,
{
    let mut it = s.chars();
    let mut out: Vec<char> = Vec::new();
    loop
        invariant
            out@ + it.remaining() == s@,
            it.decrease() is Some,
        ensures
            out@ == s@,
        decreases it.decrease()->0,
    {
        match it.next() {
            Some(c) => {
                out.push(c);
            },
            None => {
                assert(out@ =~= out@ + it.remaining());
                break ;
            },
        }
    }
    out
}

/// Whether `a` and `b` are the same text, character by character.
pub fn same_text(a: &str, b: &str) -> (same: bool)
    ensures
        same == (a@ == b@),
{
    let x = to_chars(a);
    let y = to_chars(b);
    if x.len() != y.len() {
        return false;
    }
    let mut i: usize = 0;
    while i < x.len()
        invariant
            x@ == a@,
            y@ == b@,
            x@.len() == y@.len(),
            i <= x@.len(),
            forall|j: int| 0 <= j < i ==> x@[j] == y@[j],
        decreases x@.len() - i,
    {
        if x[i] != y[i] {
            return false;
        }
        i += 1;
    }
    assert(x@ =~= y@);
    true
}

/// A copy of `texts`.
pub fn clone_texts(texts: &Vec<String>) -> (copy: Vec<String>)
    ensures
        copy@ == texts@,
{
    let mut copy: Vec<String> = Vec::new();
    let mut i: usize = 0;
    while i < texts.len()
        invariant
            i <= texts@.len(),
            copy@ == texts@.take(i as int),
        decreases texts@.len() - i,
    {
        copy.push(texts[i].clone());
        assert(copy@ =~= texts@.take(i + 1));
        i += 1;
    }
    assert(texts@.take(texts@.len() as int) =~= texts@);
    copy
}

/// Membership in the Unicode `White_Space` property.
pub open spec fn is_whitespace(c: char) -> bool {
    let u = c as u32;
    ||| 0x0009 <= u <= 0x000D
    ||| u == 0x0020
    ||| u == 0x0085
    ||| u == 0x00A0
    ||| u == 0x1680
    ||| 0x2000 <= u <= 0x200A
    ||| u == 0x2028
    ||| u == 0x2029
    ||| u == 0x202F
    ||| u == 0x205F
    ||| u == 0x3000
}

/// `s` without its leading whitespace.
pub open spec fn trim_start(s: Seq<char>) -> Seq<char>
    decreases s.len(),
{
    if s.len() > 0 && is_whitespace(s.first()) {
        trim_start(s.drop_first())
    } else {
        s
    }
}

/// `s` without its trailing whitespace.
pub open spec fn trim_end(s: Seq<char>) -> Seq<char>
    decreases s.len(),
{
    if s.len() > 0 && is_whitespace(s.last()) {
        trim_end(s.drop_last())
    } else {
        s
    }
}

/// `s` without leading and trailing whitespace.
pub open spec fn trimmed(s: Seq<char>) -> Seq<char> {
    trim_end(trim_start(s))
}

/// `s` with every line feed replaced by one space.
pub open spec fn newlines_to_spaces(s: Seq<char>) -> Seq<char> {
    Seq::new(
        s.len(),
        |i: int|
            if s[i] == '\n' {
                ' '
            } else {
                s[i]
            },
    )
}

/// The normal form in which document text is embedded and stored: trimmed,
/// then on one line.
pub open spec fn preprocessed(s: Seq<char>) -> Seq<char> {
    newlines_to_spaces(trimmed(s))
}

/// Whether `c` is whitespace.
pub fn whitespace(c: char) -> (b: bool)
    ensures
        b == is_whitespace(c),
{
    let u: u32 = c as u32;
    (0x0009 <= u && u <= 0x000D) || u == 0x0020 || u == 0x0085 || u == 0x00A0 || u == 0x1680 || (
    0x2000 <= u && u <= 0x200A) || u == 0x2028 || u == 0x2029 || u == 0x202F || u == 0x205F || u
        == 0x3000
}

/// Trims `text` and folds its line feeds into spaces.
pub fn preprocess_text(text: &str) -> (out: String)
    ensures
        out@ == preprocessed(text@),
{
    let chars = to_chars(text);
    let n = chars.len();
    let mut start: usize = 0;
    assert(chars@.subrange(0, n as int) =~= chars@);
    while start < n && whitespace(chars[start])
        invariant
            n == chars@.len(),
            start <= n,
            trim_start(chars@) == trim_start(chars@.subrange(start as int, n as int)),
        decreases n - start,
    {
        assert(chars@.subrange(start as int, n as int).drop_first() =~= chars@.subrange(
            start + 1,
            n as int,
        ));
        start += 1;
    }
    assert(trim_start(chars@) == chars@.subrange(start as int, n as int));
    let mut end: usize = n;
    while end > start && whitespace(chars[end - 1])
        invariant
            n == chars@.len(),
            start <= end <= n,
            trimmed(chars@) == trim_end(chars@.subrange(start as int, end as int)),
        decreases end,
    {
        assert(chars@.subrange(start as int, end as int).drop_last() =~= chars@.subrange(
            start as int,
            end - 1,
        ));
        end -= 1;
    }
    assert(trimmed(chars@) == chars@.subrange(start as int, end as int));
    let mut out = String::new();
    let mut k: usize = start;
    while k < end
        invariant
            n == chars@.len(),
            start <= k <= end <= n,
            out@ == newlines_to_spaces(chars@.subrange(start as int, k as int)),
        decreases end - k,
    {
        let c = chars[k];
        if c == '\n' {
            out.push(' ');
        } else {
            out.push(c);
        }
        assert(out@ =~= newlines_to_spaces(chars@.subrange(start as int, k + 1)));
        k += 1;
    }
    out
}

/// The position of the last `.` in `s`, or `-1` where it has none.
pub open spec fn last_dot(s: Seq<char>) -> int
    decreases s.len(),
{
    if s.len() == 0 {
        -1
    } else if s.last() == '.' {
        s.len() - 1
    } else {
        last_dot(s.drop_last())
    }
}

/// What follows the last `.` of a file name; nothing where the name has no
/// `.` at all.
pub open spec fn file_extension(s: Seq<char>) -> Option<Seq<char>> {
    if last_dot(s) < 0 {
        None
    } else {
        Some(s.subrange(last_dot(s) + 1, s.len() as int))
    }
}

/// `last_dot` is the greatest index that holds a `.`.
pub proof fn lemma_last_dot(s: Seq<char>)
    ensures
        -1 <= last_dot(s) < s.len(),
        last_dot(s) >= 0 ==> s[last_dot(s)] == '.',
        forall|i: int| last_dot(s) < i < s.len() ==> s[i] != '.',
        last_dot(s) < 0 <==> !s.contains('.'),
    decreases s.len(),
{
    if s.len() > 0 && s.last() != '.' {
        let t = s.drop_last();
        lemma_last_dot(t);
        assert forall|i: int| last_dot(s) < i < s.len() implies s[i] != '.' by {
            if i < t.len() {
                assert(t[i] == s[i]);
            }
        }
        if last_dot(s) < 0 {
            assert forall|i: int| 0 <= i < s.len() implies s[i] != '.' by {}
        } else {
            assert(t[last_dot(s)] == s[last_dot(s)]);
        }
    }
}

/// The extension of `filename`: the text after its last `.`.
pub fn get_file_extension(filename: &str) -> (ext: Option<&str>)
    ensures
        ext is Some == file_extension(filename@) is Some,
        ext matches Some(e) ==> Some(e@) == file_extension(filename@),
{
    let chars = to_chars(filename);
    let n = chars.len();
    let mut end: usize = n;
    assert(chars@.subrange(0, n as int) =~= chars@);
    while end > 0 && chars[end - 1] != '.'
        invariant
            n == chars@.len(),
            end <= n,
            last_dot(chars@) == last_dot(chars@.subrange(0, end as int)),
        decreases end,
    {
        assert(chars@.subrange(0, end as int).drop_last() =~= chars@.subrange(0, end - 1));
        end -= 1;
    }
    if end == 0 {
        None
    } else {
        Some(filename.substring_char(end, n))
    }
}

/// Whether `c` is an ASCII decimal digit.
pub open spec fn is_digit(c: char) -> bool {
    '0' <= c <= '9'
}

/// The number that a string of decimal digits writes.
pub open spec fn digits_value(s: Seq<char>) -> nat
    decreases s.len(),
{
    if s.len() == 0 {
        0
    } else {
        digits_value(s.drop_last()) * 10 + (s.last() as u32 - '0' as u32) as nat
    }
}

/// Whether every character of `s` is a decimal digit.
pub open spec fn all_digits(s: Seq<char>) -> bool {
    forall|i: int| 0 <= i < s.len() ==> is_digit(#[trigger] s[i])
}

/// `s` without one leading `+`.
pub open spec fn unsigned_digits(s: Seq<char>) -> Seq<char> {
    if s.len() > 0 && s[0] == '+' {
        s.drop_first()
    } else {
        s
    }
}

/// The identifier that `s` writes: an optional `+`, then at least one decimal
/// digit, the whole no greater than `usize::MAX`.
pub open spec fn parsed_id(s: Seq<char>) -> Option<usize> {
    let d = unsigned_digits(s);
    if d.len() > 0 && all_digits(d) && digits_value(d) <= usize::MAX {
        Some(digits_value(d) as usize)
    } else {
        None
    }
}

/// A longer string of digits never writes a smaller number than its prefix.
pub proof fn lemma_digits_value_monotonic(s: Seq<char>, k: int)
    requires
        0 <= k <= s.len(),
        all_digits(s),
    ensures
        digits_value(s.take(k)) <= digits_value(s),
    decreases s.len() - k,
{
    if k < s.len() {
        assert(s.take(k + 1).drop_last() =~= s.take(k));
        assert(is_digit(s[k]));
        lemma_digits_value_monotonic(s, k + 1);
    } else {
        assert(s.take(k) =~= s);
    }
}

/// Reads a document identifier written in decimal.
pub fn parse_id(s: &str) -> (id: Option<usize>)
    ensures
        id == parsed_id(s@),
{
    let chars = to_chars(s);
    let n = chars.len();
    let first: usize = if n > 0 && chars[0] == '+' {
        1
    } else {
        0
    };
    let ghost d = unsigned_digits(chars@);
    assert(d =~= chars@.subrange(first as int, n as int));
    if first == n {
        return None;
    }
    let mut acc: usize = 0;
    let mut k: usize = first;
    while k < n
        invariant
            n == chars@.len(),
            first <= k <= n,
            d == chars@.subrange(first as int, n as int),
            d == unsigned_digits(s@),
            all_digits(d.take(k - first)),
            acc == digits_value(d.take(k - first)),
        decreases n - k,
    {
        let c = chars[k];
        assert(d[k - first] == c);
        if !('0' <= c && c <= '9') {
            assert(!is_digit(d[k - first]));
            return None;
        }
        let digit: usize = (c as u32 - '0' as u32) as usize;
        assert(d.take(k - first + 1).drop_last() =~= d.take(k - first));
        assert(d.take(k - first + 1).last() == c);
        if acc > (usize::MAX - digit) / 10 {
            proof {
                assert(digits_value(d.take(k - first + 1)) == acc * 10 + digit);
                assert(acc * 10 + digit > usize::MAX);
                if all_digits(d) {
                    lemma_digits_value_monotonic(d, k - first + 1);
                }
            }
            return None;
        }
        acc = acc * 10 + digit;
        k += 1;
    }
    assert(d.take(n - first) =~= d);
    Some(acc)
}

/// The character that writes the digit `d`.
pub open spec fn digit_char(d: nat) -> char {
    if d == 0 {
        '0'
    } else if d == 1 {
        '1'
    } else if d == 2 {
        '2'
    } else if d == 3 {
        '3'
    } else if d == 4 {
        '4'
    } else if d == 5 {
        '5'
    } else if d == 6 {
        '6'
    } else if d == 7 {
        '7'
    } else if d == 8 {
        '8'
    } else {
        '9'
    }
}

/// `n` written in decimal, without leading zeros.
pub open spec fn decimal(n: nat) -> Seq<char>
    decreases n,
{
    if n < 10 {
        seq![digit_char(n)]
    } else {
        decimal(n / 10).push(digit_char(n % 10))
    }
}

/// `i` written in decimal, with a `-` before a negative number.
pub open spec fn signed_decimal(i: int) -> Seq<char> {
    if i < 0 {
        seq!['-'] + decimal((-i) as nat)
    } else {
        decimal(i as nat)
    }
}

/// The digits before the last one of a number, or nothing for zero.
spec fn leading(n: nat) -> Seq<char> {
    if n == 0 {
        Seq::empty()
    } else {
        decimal(n)
    }
}

proof fn lemma_decimal_step(n: nat)
    requires
        n > 0,
    ensures
        decimal(n) == leading(n / 10).push(digit_char(n % 10)),
{
    if n < 10 {
        assert(n / 10 == 0);
        assert(n % 10 == n);
        assert(decimal(n) =~= Seq::<char>::empty().push(digit_char(n)));
    }
}

/// A decimal number reads back as itself: it is made of digits only, has
/// at least one, and writes its own value.
pub proof fn lemma_decimal_reads_back(n: nat)
    ensures
        decimal(n).len() > 0,
        all_digits(decimal(n)),
        digits_value(decimal(n)) == n,
        n <= usize::MAX ==> parsed_id(decimal(n)) == Some(n as usize),
    decreases n,
{
    let d = decimal(n);
    if n < 10 {
        assert(d.drop_last() =~= Seq::<char>::empty());
        assert(d.last() == digit_char(n));
        assert(digits_value(d.drop_last()) == 0);
    } else {
        lemma_decimal_reads_back(n / 10);
        assert(d.drop_last() =~= decimal(n / 10));
        assert(d.last() == digit_char(n % 10));
        assert forall|i: int| 0 <= i < d.len() implies is_digit(#[trigger] d[i]) by {
            if i < d.len() - 1 {
                assert(d[i] == decimal(n / 10)[i]);
            }
        }
    }
    assert(is_digit(d[0]));
    assert(unsigned_digits(d) == d);
}

/// The digit `d` as a character.
fn digit_of(d: u64) -> (c: char)
    requires
        d < 10,
    ensures
        c == digit_char(d as nat),
{
    if d == 0 {
        '0'
    } else if d == 1 {
        '1'
    } else if d == 2 {
        '2'
    } else if d == 3 {
        '3'
    } else if d == 4 {
        '4'
    } else if d == 5 {
        '5'
    } else if d == 6 {
        '6'
    } else if d == 7 {
        '7'
    } else if d == 8 {
        '8'
    } else {
        '9'
    }
}

/// Appends `n` in decimal to `out`.
fn push_decimal(out: &mut String, n: u64)
    ensures
        final(out)@ == old(out)@ + decimal(n as nat),
{
    if n == 0 {
        out.push('0');
        assert(out@ =~= old(out)@ + decimal(0));
        return ;
    }
    let mut reversed: Vec<char> = Vec::new();
    let mut rest: u64 = n;
    while rest > 0
        invariant
            decimal(n as nat) == leading(rest as nat) + reversed@.reverse(),
        decreases rest,
    {
        proof {
            lemma_decimal_step(rest as nat);
        }
        let ghost before = reversed@;
        reversed.push(digit_of(rest % 10));
        assert(leading((rest / 10) as nat).push(digit_char((rest % 10) as nat)) + before.reverse()
            =~= leading((rest / 10) as nat) + reversed@.reverse());
        rest = rest / 10;
    }
    let ghost start = out@;
    let mut i: usize = reversed.len();
    assert(leading(0) + reversed@.reverse() =~= reversed@.reverse());
    while i > 0
        invariant
            i <= reversed@.len(),
            out@ == start + reversed@.reverse().take(reversed@.len() - i),
        decreases i,
    {
        i -= 1;
        out.push(reversed[i]);
        assert(out@ =~= start + reversed@.reverse().take(reversed@.len() - i));
    }
    assert(reversed@.reverse().take(reversed@.len() as int) =~= reversed@.reverse());
}

/// `n` written in decimal.
pub fn decimal_text(n: u64) -> (text: String)
    ensures
        text@ == decimal(n as nat),
{
    let mut text = String::new();
    push_decimal(&mut text, n);
    assert(text@ =~= decimal(n as nat));
    text
}

/// `i` written in decimal, as a row identifier is written.
pub fn signed_decimal_text(i: i64) -> (text: String)
    ensures
        text@ == signed_decimal(i as int),
{
    let mut text = String::new();
    if i < 0 {
        text.push('-');
        let magnitude: u64 = ((-(i + 1)) as u64) + 1;
        push_decimal(&mut text, magnitude);
        assert(text@ =~= signed_decimal(i as int));
    } else {
        push_decimal(&mut text, i as u64);
        assert(text@ =~= signed_decimal(i as int));
    }
    text
}

} // verus!
