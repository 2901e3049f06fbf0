//! Text helpers shared by the other modules: what the library needs of
//! `str` and `char`, each with its meaning stated over sequences of `char`.

use vstd::prelude::*;
use vstd::string::StrSliceExecFns;
use vstd::utf8::encode_utf8;

verus! {

/// Whether `c` is white space in the sense of Unicode's `White_Space`
/// property.
pub open spec fn is_whitespace(c: char) -> bool {
    let n = c as u32;
    ||| 0x09 <= n <= 0x0D
    ||| n == 0x20
    ||| n == 0x85
    ||| n == 0xA0
    ||| n == 0x1680
    ||| 0x2000 <= n <= 0x200A
    ||| n == 0x2028
    ||| n == 0x2029
    ||| n == 0x202F
    ||| n == 0x205F
    ||| n == 0x3000
}

/// `s` without its leading white space.
pub open spec fn trim_start(s: Seq<char>) -> Seq<char>
    decreases s.len(),
{
    if s.len() > 0 && is_whitespace(s.first()) {
        trim_start(s.drop_first())
    } else {
        s
    }
}

/// `s` without its trailing white space.
pub open spec fn trim_end(s: Seq<char>) -> Seq<char>
    decreases s.len(),
{
    if s.len() > 0 && is_whitespace(s.last()) {
        trim_end(s.drop_last())
    } else {
        s
    }
}

/// `s` without its leading and trailing white space.
pub open spec fn trimmed(s: Seq<char>) -> Seq<char> {
    trim_end(trim_start(s))
}

/// The pieces of `s` between occurrences of `sep`: one more than `sep`
/// occurs, empty pieces included.
pub open spec fn split(s: Seq<char>, sep: char) -> Seq<Seq<char>>
    decreases s.len(),
{
    if s.len() == 0 {
        seq![Seq::empty()]
    } else if s.last() == sep {
        split(s.drop_last(), sep).push(Seq::empty())
    } else {
        let before = split(s.drop_last(), sep);
        before.drop_last().push(before.last().push(s.last()))
    }
}

/// Splitting yields at least one piece.
pub proof fn lemma_split_nonempty(s: Seq<char>, sep: char)
    ensures
        split(s, sep).len() >= 1,
    decreases s.len(),
{
    if s.len() > 0 {
        lemma_split_nonempty(s.drop_last(), sep);
    }
}

/// The views of a vector of string slices.
pub open spec fn views(pieces: Seq<&str>) -> Seq<Seq<char>> {
    pieces.map_values(|p: &str| p@)
}

/// Whether `s` begins with `prefix`.
pub open spec fn has_prefix(s: Seq<char>, prefix: Seq<char>) -> bool {
    prefix.len() <= s.len() && s.take(prefix.len() as int) == prefix
}

/// The length in bytes of the UTF-8 encoding of `s`, which is what
/// `str::len` returns.
pub open spec fn utf8_len(s: Seq<char>) -> usize {
    encode_utf8(s).len() as usize
}

/// Whether `c` is one of the ten decimal digits.
pub open spec fn is_digit(c: char) -> bool {
    '0' <= c <= '9'
}

/// The decimal digit for `d`, which is below 10.
pub open spec fn digit_char(d: nat) -> char {
    (d + 48) as char
}

/// Whether `s` holds decimal digits only.
pub open spec fn all_digits(s: Seq<char>) -> bool {
    forall|i: int| 0 <= i < s.len() ==> is_digit(#[trigger] s[i])
}

/// The number that a sequence of decimal digits denotes.
pub open spec fn digits_value(s: Seq<char>) -> nat
    decreases s.len(),
{
    if s.len() == 0 {
        0
    } else {
        digits_value(s.drop_last()) * 10 + (s.last() as nat - 48) as nat
    }
}

/// What `str::parse::<u64>` makes of a text: an optional `+`, then at least
/// one decimal digit and nothing else, denoting a number that fits.
pub open spec fn parsed_u64(s: Seq<char>) -> Option<u64> {
    let digits = if s.len() > 0 && s[0] == '+' {
        s.drop_first()
    } else {
        s
    };
    if digits.len() > 0 && all_digits(digits) && digits_value(digits) <= u64::MAX {
        Some(digits_value(digits) as u64)
    } else {
        None
    }
}

/// The decimal numeral of `n`, without leading zeros.
pub open spec fn decimal(n: nat) -> Seq<char>
    decreases n,
{
    if n < 10 {
        seq![digit_char(n)]
    } else {
        decimal(n / 10).push(digit_char(n % 10))
    }
}

/// `count` zeros.
pub open spec fn zeros(count: nat) -> Seq<char> {
    Seq::new(count, |i: int| '0')
}

/// The decimal numeral of `n`, with zeros in front up to `width` characters.
pub open spec fn padded_decimal(n: nat, width: nat) -> Seq<char> {
    if decimal(n).len() < width {
        zeros((width - decimal(n).len()) as nat) + decimal(n)
    } else {
        decimal(n)
    }
}

/// Whether `c` stands twice in a row somewhere in `s`.
pub open spec fn has_adjacent(s: Seq<char>, c: char) -> bool {
    exists|i: int| 0 <= i && i + 1 < s.len() && #[trigger] s[i] == c && s[i + 1] == c
}

/// Whether `delimiter` stands in `s` at position `i`.
pub open spec fn occurs_at(s: Seq<char>, delimiter: Seq<char>, i: int) -> bool {
    0 <= i && i + delimiter.len() <= s.len() && s.subrange(i, i + delimiter.len()) == delimiter
}

/// The pieces of `s` from `start` on, between the occurrences of a
/// non-empty `delimiter` that are found from `i` on, the leftmost first and
/// none overlapping another.
pub open spec fn pieces_from(s: Seq<char>, delimiter: Seq<char>, start: int, i: int) -> Seq<
    Seq<char>,
>
    decreases s.len() - i,
{
    if delimiter.len() == 0 || i < 0 || i + delimiter.len() > s.len() {
        seq![s.subrange(start, s.len() as int)]
    } else if occurs_at(s, delimiter, i) {
        seq![s.subrange(start, i)] + pieces_from(
            s,
            delimiter,
            i + delimiter.len(),
            i + delimiter.len(),
        )
    } else {
        pieces_from(s, delimiter, start, i + 1)
    }
}

/// The pieces of `s` between occurrences of `delimiter`. An empty delimiter
/// occurs before, between and after the characters: it cuts `s` into an
/// empty piece, its characters one by one, and an empty piece.
pub open spec fn split_by(s: Seq<char>, delimiter: Seq<char>) -> Seq<Seq<char>> {
    if delimiter.len() == 0 {
        seq![Seq::empty()] + s.map_values(|c: char| seq![c]) + seq![Seq::empty()]
    } else {
        pieces_from(s, delimiter, 0, 0)
    }
}

/// Whether `s` ends with `suffix`.
pub open spec fn has_suffix(s: Seq<char>, suffix: Seq<char>) -> bool {
    suffix.len() <= s.len() && s.skip(s.len() - suffix.len()) == suffix
}

/// Whether `c` is white space.
pub(crate) fn char_is_whitespace(c: char) -> (b: bool)
    ensures
        b == is_whitespace(c),
{
    let n = c as u32;
    (0x09 <= n && n <= 0x0D) || n == 0x20 || n == 0x85 || n == 0xA0 || n == 0x1680 || (0x2000 <= n
        && n <= 0x200A) || n == 0x2028 || n == 0x2029 || n == 0x202F || n == 0x205F || n == 0x3000
}

/// The slice without its leading and trailing white space.
pub(crate) fn trim(s: &str) -> (t: &str)
    ensures
        t@ == trimmed(s@),
{
    let chars = chars_of(s);
    let n = chars.len();
    let mut start: usize = 0;
    assert(s@.skip(0) =~= s@);
    while start < n && char_is_whitespace(chars[start])
        invariant
            start <= n == chars@.len(),
            chars@ == s@,
            trim_start(s@) == trim_start(s@.skip(start as int)),
        decreases n - start,
    {
        assert(s@.skip(start as int).drop_first() =~= s@.skip(start + 1));
        start += 1;
    }
    let ghost rest = s@.skip(start as int);
    assert(trim_start(s@) == rest);
    let mut end: usize = n;
    assert(rest =~= s@.subrange(start as int, end as int));
    while end > start && char_is_whitespace(chars[end - 1])
        invariant
            start <= end <= n == chars@.len(),
            chars@ == s@,
            trim_end(rest) == trim_end(s@.subrange(start as int, end as int)),
        decreases end,
    {
        assert(s@.subrange(start as int, end as int).drop_last() =~= s@.subrange(
            start as int,
            end - 1,
        ));
        end -= 1;
    }
    s.substring_char(start, end)
}

/// The pieces of `s` between occurrences of `sep`, in order.
pub(crate) fn split_on<'a>(s: &'a str, sep: char) -> (pieces: Vec<&'a str>)
    ensures
        views(pieces@) == split(s@, sep),
{
    let chars = chars_of(s);
    let n = chars.len();
    let mut pieces: Vec<&'a str> = Vec::new();
    let mut start: usize = 0;
    let mut i: usize = 0;
    assert(s@.take(0) =~= Seq::<char>::empty());
    assert(s@.subrange(0, 0) =~= Seq::<char>::empty());
    assert(views(pieces@).push(Seq::<char>::empty()) =~= seq![Seq::<char>::empty()]);
    while i < n
        invariant
            start <= i <= n == chars@.len(),
            chars@ == s@,
            split(s@.take(i as int), sep) == views(pieces@).push(
                s@.subrange(start as int, i as int),
            ),
        decreases n - i,
    {
        let ghost done = views(pieces@);
        let ghost partial = s@.subrange(start as int, i as int);
        proof {
            assert(s@.take(i + 1).drop_last() =~= s@.take(i as int));
            assert(s@.take(i + 1).last() == s@[i as int]);
            assert(done.push(partial).drop_last() =~= done);
        }
        if chars[i] == sep {
            let piece = s.substring_char(start, i);
            pieces.push(piece);
            start = i + 1;
            proof {
                assert(views(pieces@) =~= done.push(partial));
                assert(s@.subrange(start as int, i + 1) =~= Seq::<char>::empty());
            }
        } else {
            assert(s@.subrange(start as int, i + 1) =~= partial.push(s@[i as int]));
        }
        i += 1;
    }
    let ghost done = views(pieces@);
    let last = s.substring_char(start, n);
    pieces.push(last);
    proof {
        assert(s@.take(n as int) =~= s@);
        assert(views(pieces@) =~= done.push(last@));
    }
    pieces
}

/// What follows the prefix, if the slice begins with it.
pub(crate) fn strip_prefix<'a>(s: &'a str, prefix: &str) -> (rest: Option<&'a str>)
    ensures
        match rest {
            Some(r) => has_prefix(s@, prefix@) && r@ == s@.skip(prefix@.len() as int),
            None => !has_prefix(s@, prefix@),
        },
{
    let chars = chars_of(s);
    let wanted = chars_of(prefix);
    if wanted.len() > chars.len() {
        return None;
    }
    let mut i: usize = 0;
    while i < wanted.len()
        invariant
            i <= wanted@.len() <= chars@.len(),
            chars@ == s@,
            wanted@ == prefix@,
            forall|j: int| 0 <= j < i ==> s@[j] == prefix@[j],
        decreases wanted@.len() - i,
    {
        if chars[i] != wanted[i] {
            assert(s@.take(prefix@.len() as int)[i as int] != prefix@[i as int]);
            return None;
        }
        i += 1;
    }
    assert(s@.take(prefix@.len() as int) =~= prefix@);
    let rest = s.substring_char(wanted.len(), chars.len());
    assert(rest@ =~= s@.skip(prefix@.len() as int));
    Some(rest)
}

/// What precedes the suffix, if the slice ends with it.
pub(crate) fn strip_suffix<'a>(s: &'a str, suffix: &str) -> (rest: Option<&'a str>)
    ensures
        match rest {
            Some(r) => has_suffix(s@, suffix@) && r@ == s@.take(s@.len() - suffix@.len()),
            None => !has_suffix(s@, suffix@),
        },
{
    let chars = chars_of(s);
    let wanted = chars_of(suffix);
    if wanted.len() > chars.len() {
        return None;
    }
    let offset = chars.len() - wanted.len();
    let mut i: usize = 0;
    while i < wanted.len()
        invariant
            i <= wanted@.len() <= chars@.len() <= usize::MAX,
            offset == chars@.len() - wanted@.len(),
            chars@ == s@,
            wanted@ == suffix@,
            forall|j: int| 0 <= j < i ==> s@[offset + j] == suffix@[j],
        decreases wanted@.len() - i,
    {
        if chars[offset + i] != wanted[i] {
            assert(s@.skip(s@.len() - suffix@.len())[i as int] != suffix@[i as int]);
            return None;
        }
        i += 1;
    }
    assert(s@.skip(s@.len() - suffix@.len()) =~= suffix@);
    let rest = s.substring_char(0, offset);
    assert(rest@ =~= s@.take(s@.len() - suffix@.len()));
    Some(rest)
}

/// A number does not shrink when digits are written behind it.
proof fn lemma_digits_value_grows(s: Seq<char>, k: int)
    requires
        all_digits(s),
        0 <= k <= s.len(),
    ensures
        digits_value(s.take(k)) <= digits_value(s),
    decreases s.len() - k,
{
    if k < s.len() {
        lemma_digits_value_grows(s, k + 1);
        assert(s.take(k + 1).drop_last() =~= s.take(k));
        assert(is_digit(s[k]));
        assert(s.take(k + 1).last() == s[k]);
    } else {
        assert(s.take(k) =~= s);
    }
}

/// The number that the text denotes in decimal, if it is an optional `+`,
/// then one digit or more, and fits in 64 bits.
pub(crate) fn parse_u64(s: &str) -> (n: Option<u64>)
    ensures
        n == parsed_u64(s@),
{
    let chars = chars_of(s);
    let len = chars.len();
    let first: usize = if len > 0 && chars[0] == '+' {
        1
    } else {
        0
    };
    let ghost digits = if s@.len() > 0 && s@[0] == '+' {
        s@.drop_first()
    } else {
        s@
    };
    assert(digits =~= s@.skip(first as int));
    if first == len {
        return None;
    }
    let mut value: u64 = 0;
    let mut i: usize = first;
    assert(digits.take(0) =~= Seq::<char>::empty());
    while i < len
        invariant
            first <= i <= len == chars@.len(),
            chars@ == s@,
            digits == s@.skip(first as int),
            digits == if s@.len() > 0 && s@[0] == '+' {
                s@.drop_first()
            } else {
                s@
            },
            all_digits(digits.take(i - first)),
            value == digits_value(digits.take(i - first)),
        decreases len - i,
    {
        let c = chars[i];
        let ghost seen = digits.take(i - first);
        let ghost next = digits.take(i - first + 1);
        proof {
            assert(next.drop_last() =~= seen);
            assert(next.last() == c);
        }
        if !(c >= '0' && c <= '9') {
            assert(!is_digit(digits[i - first]));
            return None;
        }
        let d: u64 = (c as u32 - 48) as u64;
        assert(all_digits(next)) by {
            assert forall|j: int| 0 <= j < next.len() implies is_digit(#[trigger] next[j]) by {
                if j < seen.len() {
                    assert(seen[j] == next[j]);
                }
            }
        }
        if value > (u64::MAX - d) / 10 {
            proof {
                assert(digits_value(next) > u64::MAX);
                if all_digits(digits) {
                    lemma_digits_value_grows(digits, i - first + 1);
                }
            }
            return None;
        }
        value = value * 10 + d;
        i += 1;
    }
    assert(digits.take(len - first) =~= digits);
    Some(value)
}

/// Whether `wanted` stands in `chars` at position `i`.
fn matches_at(chars: &Vec<char>, wanted: &Vec<char>, i: usize) -> (found: bool)
    requires
        i + wanted@.len() <= chars@.len(),
    ensures
        found == occurs_at(chars@, wanted@, i as int),
{
    let total = chars.len();
    let mut j: usize = 0;
    while j < wanted.len()
        invariant
            j <= wanted@.len(),
            i + wanted@.len() <= chars@.len() == total,
            forall|k: int| 0 <= k < j ==> chars@[i + k] == wanted@[k],
        decreases wanted@.len() - j,
    {
        if chars[i + j] != wanted[j] {
            assert(chars@.subrange(i as int, i + wanted@.len())[j as int] != wanted@[j as int]);
            return false;
        }
        j += 1;
    }
    assert(chars@.subrange(i as int, i + wanted@.len()) =~= wanted@);
    true
}

/// The pieces of `s` between occurrences of `delimiter`, in order.
pub(crate) fn split_on_text<'a>(s: &'a str, delimiter: &str) -> (pieces: Vec<&'a str>)
    ensures
        views(pieces@) == split_by(s@, delimiter@),
{
    let chars = chars_of(s);
    let wanted = chars_of(delimiter);
    let n = chars.len();
    let m = wanted.len();
    let mut pieces: Vec<&'a str> = Vec::new();
    if m == 0 {
        let first = s.substring_char(0, 0);
        pieces.push(first);
        let mut i: usize = 0;
        let ghost singles = s@.map_values(|c: char| seq![c]);
        assert(first@ =~= Seq::<char>::empty());
        assert(views(pieces@) =~= seq![first@]);
        assert(views(pieces@) =~= seq![Seq::<char>::empty()] + singles.take(0));
        while i < n
            invariant
                i <= n == chars@.len(),
                chars@ == s@,
                singles == s@.map_values(|c: char| seq![c]),
                views(pieces@) == seq![Seq::<char>::empty()] + singles.take(i as int),
            decreases n - i,
        {
            let ghost before = views(pieces@);
            let piece = s.substring_char(i, i + 1);
            pieces.push(piece);
            proof {
                assert(piece@ =~= seq![s@[i as int]]);
                assert(views(pieces@) =~= before.push(piece@));
                assert(singles.take(i + 1) =~= singles.take(i as int).push(singles[i as int]));
                assert(views(pieces@) =~= seq![Seq::<char>::empty()] + singles.take(i + 1));
            }
            i += 1;
        }
        let ghost before = views(pieces@);
        pieces.push(s.substring_char(n, n));
        proof {
            assert(singles.take(n as int) =~= singles);
            assert(s@.subrange(n as int, n as int) =~= Seq::<char>::empty());
            assert(views(pieces@) =~= before.push(Seq::<char>::empty()));
            assert(views(pieces@) =~= split_by(s@, delimiter@));
        }
        return pieces;
    }
    let mut start: usize = 0;
    let mut i: usize = 0;
    assert(views(pieces@) + pieces_from(s@, delimiter@, 0, 0) =~= pieces_from(s@, delimiter@, 0, 0));
    while m <= n && i <= n - m
        invariant
            start <= i <= n == chars@.len(),
            0 < m == wanted@.len(),
            chars@ == s@,
            wanted@ == delimiter@,
            split_by(s@, delimiter@) == views(pieces@) + pieces_from(
                s@,
                delimiter@,
                start as int,
                i as int,
            ),
        decreases n - i,
    {
        let ghost done = views(pieces@);
        if matches_at(&chars, &wanted, i) {
            let piece = s.substring_char(start, i);
            pieces.push(piece);
            proof {
                assert(views(pieces@) =~= done.push(piece@));
                assert(done + (seq![piece@] + pieces_from(s@, delimiter@, i + m, i + m))
                    =~= views(pieces@) + pieces_from(s@, delimiter@, i + m, i + m));
            }
            i += m;
            start = i;
        } else {
            i += 1;
        }
    }
    let ghost done = views(pieces@);
    let last = s.substring_char(start, n);
    pieces.push(last);
    proof {
        assert(views(pieces@) =~= done.push(last@));
        assert(done + seq![last@] =~= done.push(last@));
    }
    pieces
}

/// Whether `c` is alphabetic or numeric in the sense of Unicode, as
/// `char::is_alphanumeric` decides it.
pub uninterp spec fn unicode_alphanumeric(c: char) -> bool;

/// Calls `char::is_alphanumeric`. Taken on trust: the answer is a function
/// of the character alone, the one that `unicode_alphanumeric` names.
#[verifier::external_body]
pub(crate) fn char_is_alphanumeric(c: char) -> (b: bool)
    ensures
        b == unicode_alphanumeric(c),
{
    c.is_alphanumeric()
}

/// The lower-case form of a text, as `str::to_lowercase` maps it.
pub uninterp spec fn lowercase(s: Seq<char>) -> Seq<char>;

/// Calls `str::to_lowercase`. Taken on trust: the result is a function of
/// the text alone, the one that `lowercase` names.
#[verifier::external_body]
pub(crate) fn to_lowercase(s: &str) -> (lower: String)
    ensures
        lower@ == lowercase(s@),
{
    s.to_lowercase()
}

/// How `{:?}` prints a list of strings: quoted, escaped, in brackets.
pub uninterp spec fn debug_list(items: Seq<Seq<char>>) -> Seq<char>;

/// Calls `format!` with `{:?}` on a vector of strings. Taken on trust: the
/// result is a function of the strings' texts alone, the one that
/// `debug_list` names.
#[verifier::external_body]
pub(crate) fn format_debug_list(items: &Vec<String>) -> (text: String)
    ensures
        text@ == debug_list(items@.map_values(|item: String| item@)),
{
    format!("{:?}", items)
}

/// Calls `String::push`. Taken on trust: the string is as before with the
/// character at its end.
#[verifier::external_body]
pub(crate) fn push_char(s: &mut String, c: char)
    ensures
        final(s)@ == old(s)@.push(c),
{
    s.push(c)
}

/// The characters of `s`, in order.
pub(crate) fn chars_of(s: &str) -> (v: Vec<char>)
    ensures
        v@ == s@,
{
    let mut v: Vec<char> = Vec::new();
    for c in it: s.chars()
        invariant
            v@ == it.seq().take(it.index() as int),
    {
        v.push(c);
    }
    v
}

/// Whether `c` occurs in `s`.
pub(crate) fn contains_char(s: &str, c: char) -> (found: bool)
    ensures
        found == s@.contains(c),
{
    let chars = chars_of(s);
    let mut i: usize = 0;
    while i < chars.len()
        invariant
            i <= chars@.len(),
            chars@ == s@,
            forall|j: int| 0 <= j < i ==> chars@[j] != c,
        decreases chars@.len() - i,
    {
        if chars[i] == c {
            return true;
        }
        i += 1;
    }
    false
}

/// Whether `c` stands twice in a row somewhere in `s`.
pub(crate) fn contains_adjacent(s: &str, c: char) -> (found: bool)
    ensures
        found == has_adjacent(s@, c),
{
    let chars = chars_of(s);
    let mut i: usize = 1;
    while i < chars.len()
        invariant
            1 <= i,
            chars@ == s@,
            forall|j: int| 0 <= j && j + 1 < i ==> !(#[trigger] chars@[j] == c && chars@[j + 1] == c),
        decreases chars@.len() - i,
    {
        if chars[i - 1] == c && chars[i] == c {
            assert(chars@[i - 1] == c && chars@[i - 1 + 1] == c);
            return true;
        }
        i += 1;
    }
    false
}

/// Appends the decimal numeral of `n`.
pub(crate) fn push_decimal(out: &mut String, n: u64)
    ensures
        final(out)@ == old(out)@ + decimal(n as nat),
    decreases n,
{
    if n >= 10 {
        push_decimal(out, n / 10);
    }
    let digit: u8 = (n % 10) as u8;
    push_char(out, (digit + 48) as char);
    assert(final(out)@ =~= old(out)@ + decimal(n as nat));
}

/// The number of characters in the decimal numeral of `n`.
pub(crate) fn decimal_len(n: u64) -> (len: usize)
    ensures
        len == decimal(n as nat).len(),
        1 <= len <= 20,
    decreases n,
{
    if n >= 10 {
        let shorter = decimal_len(n / 10);
        assert(shorter <= 19) by {
            lemma_decimal_len_bound((n / 10) as nat);
        }
        shorter + 1
    } else {
        1
    }
}

/// A number below 10^19 has at most 19 digits.
proof fn lemma_decimal_len_bound(n: nat)
    requires
        n < 10_000_000_000_000_000_000,
    ensures
        decimal(n).len() <= 19,
{
    reveal_with_fuel(decimal, 20);
}

/// Appends the decimal numeral of `n`, with zeros in front up to `width`
/// characters.
pub(crate) fn push_padded_decimal(out: &mut String, n: u64, width: usize)
    ensures
        final(out)@ == old(out)@ + padded_decimal(n as nat, width as nat),
{
    let len = decimal_len(n);
    let mut written: usize = len;
    while written < width
        invariant
            len <= written,
            written <= width || written == len,
            out@ == old(out)@ + zeros((written - len) as nat),
        decreases width - written,
    {
        push_char(out, '0');
        written += 1;
        assert(out@ =~= old(out)@ + zeros((written - len) as nat));
    }
    push_decimal(out, n);
    assert(out@ =~= old(out)@ + padded_decimal(n as nat, width as nat));
}

/// Whether two texts are the same.
pub(crate) fn text_eq(a: &str, b: &str) -> (same: bool)
    ensures
        same == (a@ == b@),
{
    let left = chars_of(a);
    let right = chars_of(b);
    if left.len() != right.len() {
        return false;
    }
    let mut i: usize = 0;
    while i < left.len()
        invariant
            i <= left@.len(),
            left@.len() == right@.len(),
            left@ == a@,
            right@ == b@,
            forall|j: int| 0 <= j < i ==> left@[j] == right@[j],
        decreases left@.len() - i,
    {
        if left[i] != right[i] {
            return false;
        }
        i += 1;
    }
    assert(left@ =~= right@);
    true
}

} // verus!
