//! Text as sequences of characters.
//!
//! The parsers of this library work on `Vec<char>` and state their results
//! over `Seq<char>`, the view that a string has. This module holds the
//! conversions and the small operations that they share: slicing, stripping,
//! searching, and decimal numbers.

use vstd::prelude::*;
use vstd::string::StringExecFns;

verus! {

/// The characters of a string, in order.
pub fn chars_of(s: &str) -> (v: Vec<char>)
    ensures
        v@ == s@,
{
    let mut v: Vec<char> = Vec::new();
    for c in it: s.chars()
        invariant
            it.seq() == s@,
            v@ == s@.take(it.index()),
    {
        v.push(c);
    }
    v
}

/// `String::push`: the string with `c` appended, and nothing else changed.
#[verifier::external_body]
pub(crate) fn push_char(s: &mut String, c: char)
    ensures
        final(s)@ == old(s)@.push(c),
{
    s.push(c);
}

/// The string made of the given characters.
pub fn string_of(chars: &Vec<char>) -> (s: String)
    ensures
        s@ == chars@,
{
    let mut s = String::new();
    let mut i: usize = 0;
    while i < chars.len()
        invariant
            i <= chars.len(),
            s@ == chars@.take(i as int),
        decreases chars.len() - i,
    {
        push_char(&mut s, chars[i]);
        i = i + 1;
        assert(chars@.take(i as int) =~= chars@.take(i - 1).push(chars@[i - 1]));
    }
    assert(chars@.take(chars.len() as int) =~= chars@);
    s
}

/// The characters from position `from` up to, not including, position `to`.
pub fn slice_of(chars: &Vec<char>, from: usize, to: usize) -> (part: Vec<char>)
    requires
        from <= to <= chars.len(),
    ensures
        part@ == chars@.subrange(from as int, to as int),
{
    let mut part: Vec<char> = Vec::new();
    let mut i: usize = from;
    while i < to
        invariant
            from <= i <= to <= chars.len(),
            part@ == chars@.subrange(from as int, i as int),
        decreases to - i,
    {
        part.push(chars[i]);
        i = i + 1;
        assert(chars@.subrange(from as int, i as int) =~= chars@.subrange(
            from as int,
            i - 1,
        ).push(chars@[i - 1]));
    }
    part
}

/// Appends `more` to `chars`.
pub fn append(chars: &mut Vec<char>, more: &Vec<char>)
    ensures
        final(chars)@ == old(chars)@ + more@,
{
    let mut i: usize = 0;
    while i < more.len()
        invariant
            i <= more.len(),
            chars@ == old(chars)@ + more@.take(i as int),
        decreases more.len() - i,
    {
        chars.push(more[i]);
        i = i + 1;
        assert(more@.take(i as int) =~= more@.take(i - 1).push(more@[i - 1]));
        assert(old(chars)@ + more@.take(i - 1).push(more@[i - 1]) =~= (old(chars)@ + more@.take(
            i - 1,
        )).push(more@[i - 1]));
    }
    assert(more@.take(more.len() as int) =~= more@);
}

/// Whether a character is white space: the characters with the Unicode
/// property `White_Space`.
pub open spec fn is_whitespace(c: char) -> bool {
    let u = c as u32;
    ||| 0x09 <= u <= 0x0D
    ||| u == 0x20
    ||| u == 0x85
    ||| u == 0xA0
    ||| u == 0x1680
    ||| 0x2000 <= u <= 0x200A
    ||| u == 0x2028
    ||| u == 0x2029
    ||| u == 0x202F
    ||| u == 0x205F
    ||| u == 0x3000
}

/// A set of characters that can be stripped from the ends of a text.
#[derive(Debug, Clone, Copy, PartialEq, Eq, Structural)]
pub enum Strip {
    /// White space.
    Whitespace,
    /// The double quote.
    Quotes,
    /// The underscore and the full stop.
    UnderscoresAndDots,
}

impl Strip {
    /// Whether `c` belongs to the set.
    pub open spec fn holds(self, c: char) -> bool {
        match self {
            Strip::Whitespace => is_whitespace(c),
            Strip::Quotes => c == '"',
            Strip::UnderscoresAndDots => c == '_' || c == '.',
        }
    }

    /// Whether `c` belongs to the set.
    pub fn has(self, c: char) -> (yes: bool)
        ensures
            yes == self.holds(c),
    {
        match self {
            Strip::Whitespace => {
                let u: u32 = c as u32;
                (0x09 <= u && u <= 0x0D) || u == 0x20 || u == 0x85 || u == 0xA0 || u == 0x1680 || (
                0x2000 <= u && u <= 0x200A) || u == 0x2028 || u == 0x2029 || u == 0x202F || u
                    == 0x205F || u == 0x3000
            },
            Strip::Quotes => c == '"',
            Strip::UnderscoresAndDots => c == '_' || c == '.',
        }
    }
}

/// `s` without the characters of `set` at its start.
pub open spec fn strip_start(s: Seq<char>, set: Strip) -> Seq<char>
    decreases s.len(),
{
    if s.len() > 0 && set.holds(s[0]) {
        strip_start(s.drop_first(), set)
    } else {
        s
    }
}

/// `s` without the characters of `set` at its end.
pub open spec fn strip_end(s: Seq<char>, set: Strip) -> Seq<char>
    decreases s.len(),
{
    if s.len() > 0 && set.holds(s.last()) {
        strip_end(s.drop_last(), set)
    } else {
        s
    }
}

/// `s` without the characters of `set` at either end.
pub open spec fn stripped(s: Seq<char>, set: Strip) -> Seq<char> {
    strip_end(strip_start(s, set), set)
}

/// Strips the characters of `set` from both ends of `chars`.
pub fn strip(chars: &Vec<char>, set: Strip) -> (rest: Vec<char>)
    ensures
        rest@ == stripped(chars@, set),
{
    let n = chars.len();
    let mut a: usize = 0;
    assert(chars@.subrange(0, n as int) =~= chars@);
    while a < n && set.has(chars[a])
        invariant
            a <= n == chars.len(),
            strip_start(chars@, set) == strip_start(chars@.subrange(a as int, n as int), set),
        decreases n - a,
    {
        assert(chars@.subrange(a as int, n as int).drop_first() =~= chars@.subrange(
            a + 1,
            n as int,
        ));
        a = a + 1;
    }
    assert(strip_start(chars@, set) == chars@.subrange(a as int, n as int));
    let mut b: usize = n;
    while b > a && set.has(chars[b - 1])
        invariant
            a <= b <= n == chars.len(),
            strip_end(chars@.subrange(a as int, n as int), set) == strip_end(
                chars@.subrange(a as int, b as int),
                set,
            ),
        decreases b,
    {
        assert(chars@.subrange(a as int, b as int).drop_last() =~= chars@.subrange(
            a as int,
            b - 1,
        ));
        b = b - 1;
    }
    assert(strip_end(chars@.subrange(a as int, b as int), set) == chars@.subrange(
        a as int,
        b as int,
    ));
    slice_of(chars, a, b)
}

/// The lower-case form of an ASCII capital letter; any other character as it
/// is.
pub open spec fn ascii_lower(c: char) -> char {
    if 'A' <= c && c <= 'Z' {
        ((c as u8) + 32) as char
    } else {
        c
    }
}

/// `s` with its ASCII capital letters in lower case.
pub open spec fn folded(s: Seq<char>) -> Seq<char> {
    s.map_values(|c: char| ascii_lower(c))
}

/// Puts the ASCII capital letters of `chars` in lower case.
pub fn fold(chars: &Vec<char>) -> (low: Vec<char>)
    ensures
        low@ == folded(chars@),
{
    let mut low: Vec<char> = Vec::new();
    let mut i: usize = 0;
    while i < chars.len()
        invariant
            i <= chars.len(),
            low@ == folded(chars@.take(i as int)),
        decreases chars.len() - i,
    {
        let c = chars[i];
        let l = if c >= 'A' && c <= 'Z' {
            ((c as u8) + 32) as char
        } else {
            c
        };
        low.push(l);
        i = i + 1;
        assert(folded(chars@.take(i as int)) =~= folded(chars@.take(i - 1)).push(l));
    }
    assert(chars@.take(chars.len() as int) =~= chars@);
    low
}

/// Whether `needle` stands in `hay` at position `i`.
pub open spec fn occurs_at(hay: Seq<char>, needle: Seq<char>, i: int) -> bool {
    0 <= i && i + needle.len() <= hay.len() && hay.subrange(i, i + needle.len()) == needle
}

/// The first position at or after `from` at which `needle` stands in `hay`.
pub open spec fn first_at(hay: Seq<char>, needle: Seq<char>, from: int) -> Option<int>
    decreases hay.len() + 1 - from,
{
    if from < 0 || from + needle.len() > hay.len() {
        None
    } else if occurs_at(hay, needle, from) {
        Some(from)
    } else {
        first_at(hay, needle, from + 1)
    }
}

/// The first position at which `needle` stands in `hay`.
pub open spec fn position(hay: Seq<char>, needle: Seq<char>) -> Option<int> {
    first_at(hay, needle, 0)
}

/// Searching finds the first occurrence. What `first_at` gives is a
/// position at which the needle stands, with none between the start of the
/// search and it; and where it gives none, the needle stands nowhere from
/// the start of the search on.
pub proof fn law_search_finds_the_first(hay: Seq<char>, needle: Seq<char>, from: int)
    requires
        0 <= from,
    ensures
        match first_at(hay, needle, from) {
            Some(i) => from <= i && occurs_at(hay, needle, i) && forall|j: int|
                from <= j < i ==> !occurs_at(hay, needle, j),
            None => forall|j: int| from <= j ==> !occurs_at(hay, needle, j),
        },
    decreases hay.len() + 1 - from,
{
    if from + needle.len() <= hay.len() && !occurs_at(hay, needle, from) {
        law_search_finds_the_first(hay, needle, from + 1);
    }
}

fn stands_at(hay: &Vec<char>, needle: &Vec<char>, i: usize) -> (yes: bool)
    requires
        i + needle.len() <= hay.len(),
    ensures
        yes == occurs_at(hay@, needle@, i as int),
{
    let mut k: usize = 0;
    while k < needle.len()
        invariant
            k <= needle.len(),
            i + needle.len() <= hay.len(),
            hay@.subrange(i as int, i + k) == needle@.take(k as int),
        decreases needle.len() - k,
    {
        if hay[i + k] != needle[k] {
            assert(hay@.subrange(i as int, i + needle.len())[k as int] != needle@[k as int]);
            return false;
        }
        k = k + 1;
        assert(hay@.subrange(i as int, i + k) =~= hay@.subrange(i as int, i + k - 1).push(
            hay@[i + k - 1],
        ));
        assert(needle@.take(k as int) =~= needle@.take(k - 1).push(needle@[k - 1]));
    }
    assert(needle@.take(needle.len() as int) =~= needle@);
    true
}

/// Finds the first position at which `needle` stands in `hay`.
pub fn find(hay: &Vec<char>, needle: &Vec<char>) -> (at: Option<usize>)
    ensures
        match at {
            Some(i) => position(hay@, needle@) == Some(i as int) && i + needle.len() <= hay.len(),
            None => position(hay@, needle@) is None,
        },
{
    let n = hay.len();
    let m = needle.len();
    if m > n {
        return None;
    }
    let mut i: usize = 0;
    loop
        invariant
            m <= n,
            n == hay.len(),
            m == needle.len(),
            i <= n - m,
            position(hay@, needle@) == first_at(hay@, needle@, i as int),
        decreases n - m - i,
    {
        if stands_at(hay, needle, i) {
            return Some(i);
        }
        if i == n - m {
            assert(first_at(hay@, needle@, i + 1) is None);
            return None;
        }
        i = i + 1;
    }
}

/// The first position of the character `c` in `s`.
pub open spec fn position_of(s: Seq<char>, c: char) -> Option<int> {
    position(s, seq![c])
}

/// The part of `s` before the first `c`, or all of `s` if it holds none.
pub open spec fn before_first(s: Seq<char>, c: char) -> Seq<char> {
    match position_of(s, c) {
        Some(i) => s.take(i),
        None => s,
    }
}

/// The last position of the character `c` in `s`.
pub open spec fn last_position_of(s: Seq<char>, c: char) -> Option<int>
    decreases s.len(),
{
    if s.len() == 0 {
        None
    } else if s.last() == c {
        Some(s.len() - 1)
    } else {
        last_position_of(s.drop_last(), c)
    }
}

/// The part of `s` after the last `c`, or all of `s` if it holds none.
pub open spec fn after_last(s: Seq<char>, c: char) -> Seq<char> {
    match last_position_of(s, c) {
        Some(i) => s.skip(i + 1),
        None => s,
    }
}

/// Finds the first position of the character `c`.
pub fn find_char(chars: &Vec<char>, c: char) -> (at: Option<usize>)
    ensures
        match at {
            Some(i) => position_of(chars@, c) == Some(i as int) && i < chars.len(),
            None => position_of(chars@, c) is None,
        },
{
    let mut needle: Vec<char> = Vec::new();
    needle.push(c);
    assert(needle@ =~= seq![c]);
    find(chars, &needle)
}

/// Finds the last position of the character `c`.
pub fn find_last_char(chars: &Vec<char>, c: char) -> (at: Option<usize>)
    ensures
        match at {
            Some(i) => last_position_of(chars@, c) == Some(i as int) && i < chars.len(),
            None => last_position_of(chars@, c) is None,
        },
{
    let mut b: usize = chars.len();
    assert(chars@.take(b as int) =~= chars@);
    while b > 0
        invariant
            b <= chars.len(),
            last_position_of(chars@, c) == last_position_of(chars@.take(b as int), c),
        decreases b,
    {
        if chars[b - 1] == c {
            return Some(b - 1);
        }
        assert(chars@.take(b as int).drop_last() =~= chars@.take(b - 1));
        b = b - 1;
    }
    None
}

/// The part of `chars` before the first `c`, or all of it.
pub fn take_before_first(chars: &Vec<char>, c: char) -> (part: Vec<char>)
    ensures
        part@ == before_first(chars@, c),
{
    match find_char(chars, c) {
        Some(i) => slice_of(chars, 0, i),
        None => {
            assert(chars@.subrange(0, chars.len() as int) =~= chars@);
            slice_of(chars, 0, chars.len())
        },
    }
}

/// The part of `chars` after the last `c`, or all of it.
pub fn take_after_last(chars: &Vec<char>, c: char) -> (part: Vec<char>)
    ensures
        part@ == after_last(chars@, c),
{
    match find_last_char(chars, c) {
        Some(i) => slice_of(chars, i + 1, chars.len()),
        None => {
            assert(chars@.subrange(0, chars.len() as int) =~= chars@);
            slice_of(chars, 0, chars.len())
        },
    }
}

/// The character for a decimal digit.
pub open spec fn digit_char(d: int) -> char {
    (48 + d) as char
}

/// The decimal numeral of `n`, without leading zeros.
pub open spec fn decimal(n: nat) -> Seq<char>
    decreases n,
{
    if n < 10 {
        seq![digit_char(n as int)]
    } else {
        decimal(n / 10).push(digit_char((n % 10) as int))
    }
}

/// Writes `n` as a decimal numeral.
pub fn render_u64(n: u64) -> (digits: Vec<char>)
    ensures
        digits@ == decimal(n as nat),
{
    let mut digits: Vec<char> = Vec::new();
    let mut rest: u64 = n;
    assert(decimal(rest as nat) + digits@ =~= decimal(n as nat));
    while rest >= 10
        invariant
            decimal(n as nat) == decimal(rest as nat) + digits@,
        decreases rest,
    {
        let d: u8 = (rest % 10) as u8;
        let c: char = (48u8 + d) as char;
        let ghost before = digits@;
        digits.insert(0, c);
        assert(decimal(rest as nat) == decimal((rest / 10) as nat).push(c));
        assert(decimal((rest / 10) as nat).push(c) + before =~= decimal((rest / 10) as nat)
            + digits@);
        rest = rest / 10;
    }
    let c: char = (48u8 + rest as u8) as char;
    let ghost before = digits@;
    digits.insert(0, c);
    assert(seq![c] + before =~= digits@);
    digits
}

/// The decimal numeral of an integer: that of its amount, after a minus
/// sign if it is negative.
pub open spec fn signed_decimal(n: int) -> Seq<char> {
    if n < 0 {
        seq!['-'] + decimal((-n) as nat)
    } else {
        decimal(n as nat)
    }
}

/// Writes `n` as a decimal numeral.
pub fn render_i64(n: i64) -> (digits: Vec<char>)
    ensures
        digits@ == signed_decimal(n as int),
{
    if n < 0 {
        let amount: u64 = (-(n + 1)) as u64 + 1;
        let mut digits: Vec<char> = Vec::new();
        digits.push('-');
        append(&mut digits, &render_u64(amount));
        digits
    } else {
        render_u64(n as u64)
    }
}

/// Whether `c` is one of the ten decimal digits.
pub open spec fn is_digit(c: char) -> bool {
    '0' <= c && c <= '9'
}

/// The number that the decimal digits `s` stand for.
pub open spec fn digits_value(s: Seq<char>) -> int
    decreases s.len(),
{
    if s.len() == 0 {
        0
    } else {
        digits_value(s.drop_last()) * 10 + (s.last() as int - 48)
    }
}

/// Whether `s` holds decimal digits only.
pub open spec fn all_digits(s: Seq<char>) -> bool {
    forall|i: int| 0 <= i < s.len() ==> is_digit(#[trigger] s[i])
}

/// The number that `s` denotes: an optional `+`, then one decimal digit or
/// more, with a value that fits in 64 bits. Anything else denotes none.
pub open spec fn parsed_u64(s: Seq<char>) -> Option<u64> {
    let body = if s.len() > 0 && s[0] == '+' {
        s.drop_first()
    } else {
        s
    };
    if body.len() > 0 && all_digits(body) && digits_value(body) <= u64::MAX {
        Some(digits_value(body) as u64)
    } else {
        None
    }
}

proof fn lemma_digits_grow(s: Seq<char>, k: int)
    requires
        all_digits(s),
        0 <= k <= s.len(),
    ensures
        0 <= digits_value(s.take(k)) <= digits_value(s),
    decreases s.len() - k,
{
    if k == s.len() {
        assert(s.take(k) =~= s);
        lemma_digits_nonnegative(s);
    } else {
        lemma_digits_grow(s, k + 1);
        assert(s.take(k + 1).drop_last() =~= s.take(k));
        assert(is_digit(s[k]));
        assert(s.take(k + 1).last() == s[k]);
        lemma_digits_nonnegative(s.take(k));
    }
}

proof fn lemma_digits_nonnegative(s: Seq<char>)
    requires
        all_digits(s),
    ensures
        0 <= digits_value(s),
    decreases s.len(),
{
    if s.len() > 0 {
        assert(is_digit(s[s.len() - 1]));
        lemma_digits_nonnegative(s.drop_last());
    }
}

/// Reads a decimal number.
pub fn parse_u64(chars: &Vec<char>) -> (number: Option<u64>)
    ensures
        number == parsed_u64(chars@),
{
    let n = chars.len();
    let start: usize = if n > 0 && chars[0] == '+' {
        1
    } else {
        0
    };
    let ghost body = chars@.subrange(start as int, n as int);
    assert(body =~= if chars@.len() > 0 && chars@[0] == '+' {
        chars@.drop_first()
    } else {
        chars@
    });
    if start == n {
        return None;
    }
    let mut value: u64 = 0;
    let mut i: usize = start;
    while i < n
        invariant
            start <= i <= n == chars.len(),
            body == chars@.subrange(start as int, n as int),
            body == if chars@.len() > 0 && chars@[0] == '+' {
                chars@.drop_first()
            } else {
                chars@
            },
            all_digits(body.take(i - start)),
            value == digits_value(body.take(i - start)),
        decreases n - i,
    {
        let c = chars[i];
        if !(c >= '0' && c <= '9') {
            assert(!is_digit(body[i - start]));
            return None;
        }
        let d: u64 = (c as u8 - 48u8) as u64;
        assert(body.take(i - start + 1).drop_last() =~= body.take(i - start));
        assert(body.take(i - start + 1).last() == c);
        assert(all_digits(body.take(i - start + 1))) by {
            assert forall|k: int| 0 <= k < i - start + 1 implies is_digit(
                #[trigger] body.take(i - start + 1)[k],
            ) by {
                if k < i - start {
                    assert(body.take(i - start)[k] == body[k]);
                }
            }
        }
        assert(digits_value(body.take(i - start + 1)) == value * 10 + d);
        if value > (u64::MAX - d) / 10 {
            proof {
                if all_digits(body) {
                    lemma_digits_grow(body, i - start + 1);
                }
            }
            return None;
        }
        value = value * 10 + d;
        i = i + 1;
    }
    assert(body.take(n - start) =~= body);
    Some(value)
}

/// The lower-case form of a text as Unicode defines it.
pub uninterp spec fn unicode_lowercase(text: Seq<char>) -> Seq<char>;

/// `str::to_lowercase`: the lower-case equivalent of `text` as a new
/// string. The result depends on the characters of `text` alone.
#[verifier::external_body]
pub(crate) fn to_lowercase(text: &str) -> (low: String)
    ensures
        low@ == unicode_lowercase(text@),
{
    text.to_lowercase()
}

/// Whether Unicode counts a character as a letter or a number.
pub uninterp spec fn unicode_alphanumeric(c: char) -> bool;

/// `char::is_alphanumeric`: whether `c` is alphabetic or numeric. The
/// result depends on `c` alone.
#[verifier::external_body]
pub(crate) fn is_alphanumeric(c: char) -> (yes: bool)
    ensures
        yes == unicode_alphanumeric(c),
{
    c.is_alphanumeric()
}

/// Whether two texts are the same.
pub fn same_text(a: &str, b: &str) -> (same: bool)
    ensures
        same == (a@ == b@),
{
    let left = String::from_str(a);
    let right = String::from_str(b);
    left == right
}

/// The text of an optional string.
pub open spec fn text_of(value: Option<String>) -> Option<Seq<char>> {
    match value {
        Some(s) => Some(s@),
        None => None,
    }
}

/// The texts of some strings, in their order.
pub open spec fn texts_of(strings: Seq<String>) -> Seq<Seq<char>> {
    strings.map_values(|s: String| s@)
}

} // verus!
