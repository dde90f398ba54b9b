//! Text as sequences of characters: building, comparing, and decimal numbers.
use vstd::prelude::*;

verus! {

/// `String::push` of the standard library: the character goes to the end.
pub assume_specification[ std::string::String::push ](s: &mut std::string::String, c: char)
    ensures
        final(s)@ == old(s)@.push(c),
;

/// The characters of `s`, in order.
pub fn chars_of(s: &str) -> (chars: Vec<char>)
    ensures
        chars@ == s@,
{
    let mut chars: Vec<char> = Vec::new();
    for c in it: s.chars()
        invariant
            chars@ == it.seq().take(it.index() as int),
            it.seq() == s@,
    {
        chars.push(c);
    }
    chars
}

/// The string whose characters are `chars[from..to]`.
pub fn string_of(chars: &[char], from: usize, to: usize) -> (s: String)
    requires
        from <= to <= chars@.len(),
    ensures
        s@ == chars@.subrange(from as int, to as int),
{
    let mut s: String = String::new();
    let mut i: usize = from;
    while i < to
        invariant
            from <= i <= to <= chars@.len(),
            s@ == chars@.subrange(from as int, i as int),
        decreases to - i,
    {
        s.push(chars[i]);
        i += 1;
    }
    s
}

/// Whether two texts hold the same characters.
pub fn same_text(a: &str, b: &str) -> (same: bool)
    ensures
        same == (a@ == b@),
{
    let x: String = a.to_owned();
    let y: String = b.to_owned();
    x == y
}

/// Whether a character is white space: one of those with the Unicode property `White_Space`.
pub open spec fn white_space(c: char) -> bool {
    let n = c as u32;
    (0x9 <= n && n <= 0xd) || n == 0x20 || n == 0x85 || n == 0xa0 || n == 0x1680 || (0x2000 <= n
        && n <= 0x200a) || n == 0x2028 || n == 0x2029 || n == 0x202f || n == 0x205f || n == 0x3000
}

/// Whether a character is white space.
pub fn is_white_space(c: char) -> (r: bool)
    ensures
        r == white_space(c),
{
    let n: u32 = c as u32;
    (0x9 <= n && n <= 0xd) || n == 0x20 || n == 0x85 || n == 0xa0 || n == 0x1680 || (0x2000 <= n
        && n <= 0x200a) || n == 0x2028 || n == 0x2029 || n == 0x202f || n == 0x205f || n == 0x3000
}

/// `s` without white space in front.
pub open spec fn trimmed_front(s: Seq<char>) -> Seq<char>
    decreases s.len(),
{
    if s.len() > 0 && white_space(s[0]) {
        trimmed_front(s.skip(1))
    } else {
        s
    }
}

/// `s` without white space at its end.
pub open spec fn trimmed_back(s: Seq<char>) -> Seq<char>
    decreases s.len(),
{
    if s.len() > 0 && white_space(s.last()) {
        trimmed_back(s.drop_last())
    } else {
        s
    }
}

/// `s` without white space in front and at its end.
pub open spec fn trimmed(s: Seq<char>) -> Seq<char> {
    trimmed_back(trimmed_front(s))
}

/// The part of `chars[from..to]` without white space in front and at its end.
pub fn trim_range(chars: &[char], from: usize, to: usize) -> (r: (usize, usize))
    requires
        from <= to <= chars@.len(),
    ensures
        from <= r.0 <= r.1 <= to,
        chars@.subrange(r.0 as int, r.1 as int) == trimmed(
            chars@.subrange(from as int, to as int),
        ),
{
    let ghost whole = chars@.subrange(from as int, to as int);
    let mut a: usize = from;
    while a < to && is_white_space(chars[a])
        invariant
            from <= a <= to <= chars@.len(),
            trimmed_front(chars@.subrange(a as int, to as int)) == trimmed_front(whole),
        decreases to - a,
    {
        assert(chars@.subrange(a as int, to as int).skip(1) =~= chars@.subrange(
            a + 1,
            to as int,
        ));
        a += 1;
    }
    let ghost front = chars@.subrange(a as int, to as int);
    assert(front == trimmed_front(whole));
    let mut b: usize = to;
    while b > a && is_white_space(chars[b - 1])
        invariant
            from <= a <= b <= to <= chars@.len(),
            trimmed_back(chars@.subrange(a as int, b as int)) == trimmed_back(front),
        decreases b - a,
    {
        assert(chars@.subrange(a as int, b as int).drop_last() =~= chars@.subrange(
            a as int,
            b - 1,
        ));
        b -= 1;
    }
    (a, b)
}

/// Whether `pattern` stands in `s` at `i`.
pub open spec fn stands_at(s: Seq<char>, pattern: Seq<char>, i: int) -> bool {
    0 <= i && i + pattern.len() <= s.len() && s.subrange(i, i + pattern.len()) == pattern
}

/// The first place from `from` on where `pattern` stands in `s`.
pub open spec fn first_place(s: Seq<char>, pattern: Seq<char>, from: int) -> Option<int>
    decreases s.len() - from + 1,
{
    if from < 0 || from > s.len() {
        None
    } else if stands_at(s, pattern, from) {
        Some(from)
    } else {
        first_place(s, pattern, from + 1)
    }
}

/// Whether `pattern` stands somewhere in `s`.
pub open spec fn holds_text(s: Seq<char>, pattern: Seq<char>) -> bool {
    first_place(s, pattern, 0) is Some
}

/// Where a first place is found, the text stands there.
pub proof fn lemma_first_place(s: Seq<char>, pattern: Seq<char>, from: int)
    ensures
        first_place(s, pattern, from) matches Some(i) ==> from <= i && stands_at(s, pattern, i),
    decreases s.len() - from + 1,
{
    if 0 <= from <= s.len() && !stands_at(s, pattern, from) {
        lemma_first_place(s, pattern, from + 1);
    }
}

/// The first place from `from` on where `pattern` stands in `chars`.
pub fn find_text(chars: &[char], pattern: &[char], from: usize) -> (r: Option<usize>)
    requires
        from <= chars@.len(),
    ensures
        r is Some == first_place(chars@, pattern@, from as int) is Some,
        r matches Some(i) ==> first_place(chars@, pattern@, from as int) == Some(i as int)
            && from <= i && i + pattern@.len() <= chars@.len(),
{
    let len: usize = chars.len();
    let n: usize = pattern.len();
    let mut i: usize = from;
    loop
        invariant
            from <= i <= len,
            len == chars@.len(),
            n == pattern@.len(),
            first_place(chars@, pattern@, from as int) == first_place(chars@, pattern@, i as int),
        decreases len - i,
    {
        let mut same: bool = n <= len - i;
        let mut j: usize = 0;
        while same && j < n
            invariant
                i <= len,
                len == chars@.len(),
                n == pattern@.len(),
                j <= n,
                same ==> i + n <= len && forall|k: int|
                    0 <= k < j ==> chars@[i + k] == pattern@[k],
                !same ==> !stands_at(chars@, pattern@, i as int),
            decreases n - j + if same {
                1int
            } else {
                0int
            },
        {
            if chars[i + j] != pattern[j] {
                assert(chars@.subrange(i as int, i + n)[j as int] == chars@[i + j]);
                same = false;
            } else {
                j += 1;
            }
        }
        if same {
            assert(chars@.subrange(i as int, i + n) =~= pattern@);
            return Some(i);
        }
        assert(!stands_at(chars@, pattern@, i as int));
        if i == len {
            assert(first_place(chars@, pattern@, i + 1) is None);
            return None;
        }
        i += 1;
    }
}

/// Whether `pattern` stands somewhere in `chars`.
pub fn has_text(chars: &[char], pattern: &str) -> (r: bool)
    ensures
        r == holds_text(chars@, pattern@),
{
    let p: Vec<char> = chars_of(pattern);
    find_text(chars, &p, 0).is_some()
}

/// The parts of `s` between the separators `c`.
pub open spec fn parted(s: Seq<char>, c: char) -> Seq<Seq<char>>
    decreases s.len(),
{
    if s.len() == 0 {
        seq![Seq::empty()]
    } else if s.last() == c {
        parted(s.drop_last(), c).push(Seq::empty())
    } else {
        let earlier = parted(s.drop_last(), c);
        earlier.drop_last().push(earlier.last().push(s.last()))
    }
}

/// There is always a part.
pub proof fn lemma_parted_nonempty(s: Seq<char>, c: char)
    ensures
        parted(s, c).len() > 0,
    decreases s.len(),
{
    if s.len() > 0 {
        lemma_parted_nonempty(s.drop_last(), c);
    }
}

/// The views of a list of texts.
pub open spec fn texts_view(texts: Seq<String>) -> Seq<Seq<char>> {
    Seq::new(texts.len(), |i: int| texts[i]@)
}

/// The parts of `s` between the separators `c`.
pub fn split_text(s: &str, c: char) -> (r: Vec<String>)
    ensures
        texts_view(r@) == parted(s@, c),
{
    let chars: Vec<char> = chars_of(s);
    let mut parts: Vec<String> = Vec::new();
    let mut part: String = String::new();
    let mut i: usize = 0;
    assert(texts_view(parts@).push(part@) =~= parted(s@.take(0), c));
    while i < chars.len()
        invariant
            i <= chars@.len(),
            chars@ == s@,
            texts_view(parts@).push(part@) == parted(s@.take(i as int), c),
        decreases chars@.len() - i,
    {
        let ghost earlier = parted(s@.take(i as int), c);
        let ghost done = texts_view(parts@);
        proof {
            assert(s@.take(i + 1).drop_last() =~= s@.take(i as int));
            assert(s@.take(i + 1).last() == chars@[i as int]);
            assert(earlier.drop_last() =~= done);
            assert(earlier.last() == part@);
        }
        if chars[i] == c {
            let mut next: String = String::new();
            let ghost old_part = part@;
            std::mem::swap(&mut next, &mut part);
            parts.push(next);
            assert(texts_view(parts@) =~= done.push(old_part));
            assert(texts_view(parts@).push(part@) =~= earlier.push(Seq::empty()));
        } else {
            part.push(chars[i]);
        }
        i += 1;
    }
    assert(s@.take(i as int) =~= s@);
    let ghost done = texts_view(parts@);
    let ghost last = part@;
    parts.push(part);
    assert(texts_view(parts@) =~= done.push(last));
    parts
}

/// Texts with a separator between them.
pub open spec fn joined(parts: Seq<Seq<char>>, separator: Seq<char>) -> Seq<char>
    decreases parts.len(),
{
    if parts.len() == 0 {
        Seq::empty()
    } else if parts.len() == 1 {
        parts[0]
    } else {
        joined(parts.drop_last(), separator) + separator + parts.last()
    }
}

/// Texts with a separator between them.
pub fn join_texts(parts: &[String], separator: &str) -> (r: String)
    ensures
        r@ == joined(texts_view(parts@), separator@),
{
    let mut r: String = String::new();
    let mut i: usize = 0;
    let ghost views = texts_view(parts@);
    while i < parts.len()
        invariant
            i <= parts@.len(),
            views == texts_view(parts@),
            r@ == joined(views.take(i as int), separator@),
        decreases parts@.len() - i,
    {
        assert(views.take(i + 1).drop_last() =~= views.take(i as int));
        if i > 0 {
            r.append(separator);
        }
        let ghost before = r@;
        r.append(parts[i].as_str());
        proof {
            if i == 0 {
                assert(before + parts@[0]@ =~= parts@[0]@);
            }
        }
        i += 1;
    }
    assert(views.take(i as int) =~= views);
    r
}

/// A text as the standard library shows it for debugging: in quotes, with escapes.
pub uninterp spec fn debug_shown(s: Seq<char>) -> Seq<char>;

/// `format!` with `{:?}` on a text of the standard library: a function of the text alone.
#[verifier::external_body]
pub(crate) fn debug_text(s: &str) -> (r: String)
    ensures
        r@ == debug_shown(s@),
{
    format!("{:?}", s)
}

/// Whether `a` stands before `b` in the order of the characters' code points.
pub open spec fn text_less(a: Seq<char>, b: Seq<char>) -> bool
    decreases a.len(),
{
    if b.len() == 0 {
        false
    } else if a.len() == 0 {
        true
    } else if a[0] != b[0] {
        a[0] < b[0]
    } else {
        text_less(a.skip(1), b.skip(1))
    }
}

/// Two texts with a common beginning stand in the order of what follows it.
proof fn lemma_text_less_prefix(a: Seq<char>, b: Seq<char>, n: int)
    requires
        0 <= n <= a.len(),
        n <= b.len(),
        forall|i: int| 0 <= i < n ==> a[i] == b[i],
    ensures
        text_less(a, b) == text_less(a.skip(n), b.skip(n)),
    decreases n,
{
    if n > 0 {
        lemma_text_less_prefix(a.skip(1), b.skip(1), n - 1);
        assert(a.skip(1).skip(n - 1) =~= a.skip(n));
        assert(b.skip(1).skip(n - 1) =~= b.skip(n));
    } else {
        assert(a.skip(0) =~= a);
        assert(b.skip(0) =~= b);
    }
}

/// Whether `a` stands before `b` in the order of the characters' code points.
pub fn stands_before(a: &str, b: &str) -> (before: bool)
    ensures
        before == text_less(a@, b@),
{
    let x: Vec<char> = chars_of(a);
    let y: Vec<char> = chars_of(b);
    let mut i: usize = 0;
    while i < x.len() && i < y.len()
        invariant
            i <= x@.len(),
            i <= y@.len(),
            x@ == a@,
            y@ == b@,
            forall|j: int| 0 <= j < i ==> x@[j] == y@[j],
        decreases x@.len() - i,
    {
        if x[i] != y[i] {
            proof {
                lemma_text_less_prefix(a@, b@, i as int);
            }
            return x[i] < y[i];
        }
        i += 1;
    }
    proof {
        lemma_text_less_prefix(a@, b@, i as int);
    }
    i < y.len()
}

/// The decimal digit of `d`, for `d` below ten.
pub open spec fn digit_char(d: int) -> char {
    (('0' as int) + d) as char
}

/// The decimal notation of `n`, without leading zeros.
pub open spec fn decimal(n: nat) -> Seq<char>
    decreases n,
{
    if n < 10 {
        seq![digit_char(n as int)]
    } else {
        decimal(n / 10).push(digit_char((n % 10) as int))
    }
}

/// The decimal notation of `n`, with a minus sign where it is negative.
pub open spec fn signed_decimal(n: int) -> Seq<char> {
    if n < 0 {
        seq!['-'] + decimal((-n) as nat)
    } else {
        decimal(n as nat)
    }
}

/// Whether `c` is a decimal digit.
pub open spec fn is_digit(c: char) -> bool {
    '0' <= c && c <= '9'
}

/// The value of the digit `c`.
pub open spec fn digit_value(c: char) -> int {
    (c as int) - ('0' as int)
}

/// Whether `s` is one or more decimal digits.
pub open spec fn all_digits(s: Seq<char>) -> bool {
    s.len() > 0 && forall|i: int| 0 <= i < s.len() ==> is_digit(#[trigger] s[i])
}

/// The number that the digits of `s` write.
pub open spec fn digits_value(s: Seq<char>) -> int
    decreases s.len(),
{
    if s.len() == 0 {
        0
    } else {
        digits_value(s.drop_last()) * 10 + digit_value(s.last())
    }
}

/// The number that `s` writes as an unsigned decimal number: digits, behind an optional plus sign.
pub open spec fn parsed_unsigned(s: Seq<char>) -> Option<int> {
    if all_digits(s) {
        Some(digits_value(s))
    } else if s.len() > 0 && s[0] == '+' && all_digits(s.skip(1)) {
        Some(digits_value(s.skip(1)))
    } else {
        None
    }
}

/// The number that `s` writes as a decimal number with an optional sign.
pub open spec fn parsed_signed(s: Seq<char>) -> Option<int> {
    if s.len() > 0 && s[0] == '-' {
        if all_digits(s.skip(1)) {
            Some(-digits_value(s.skip(1)))
        } else {
            None
        }
    } else {
        parsed_unsigned(s)
    }
}

/// The digit `d` as a character.
fn digit_of(d: u64) -> (c: char)
    requires
        d < 10,
    ensures
        c == digit_char(d as int),
        is_digit(c),
        digit_value(c) == d,
{
    let b: u8 = 48u8 + (d as u8);
    b as char
}

/// Writes `n` in decimal behind the text that is there.
pub fn push_decimal(out: &mut String, n: u64)
    ensures
        final(out)@ == old(out)@ + decimal(n as nat),
    decreases n,
{
    if n < 10 {
        out.push(digit_of(n));
    } else {
        push_decimal(out, n / 10);
        out.push(digit_of(n % 10));
    }
}

/// `n` in decimal.
pub fn decimal_text(n: u64) -> (s: String)
    ensures
        s@ == decimal(n as nat),
{
    let mut s: String = String::new();
    push_decimal(&mut s, n);
    s
}

/// `n` in decimal, with a minus sign where it is negative.
pub fn signed_decimal_text(n: i64) -> (s: String)
    ensures
        s@ == signed_decimal(n as int),
{
    let mut s: String = String::new();
    if n < 0 {
        s.push('-');
        let magnitude: u64 = if n == i64::MIN {
            0x8000_0000_0000_0000u64
        } else {
            (-n) as u64
        };
        push_decimal(&mut s, magnitude);
    } else {
        push_decimal(&mut s, n as u64);
    }
    s
}

/// The digits of `s` write a number that is not negative.
pub proof fn lemma_digits_value_nonnegative(s: Seq<char>)
    requires
        forall|i: int| 0 <= i < s.len() ==> is_digit(#[trigger] s[i]),
    ensures
        digits_value(s) >= 0,
    decreases s.len(),
{
    if s.len() > 0 {
        lemma_digits_value_nonnegative(s.drop_last());
    }
}

/// A prefix of a digit sequence writes a number no larger than the whole.
proof fn lemma_digits_value_prefix(s: Seq<char>, n: int)
    requires
        forall|i: int| 0 <= i < s.len() ==> is_digit(#[trigger] s[i]),
        0 <= n <= s.len(),
    ensures
        digits_value(s.take(n)) <= digits_value(s),
    decreases s.len() - n,
{
    if n < s.len() {
        lemma_digits_value_prefix(s, n + 1);
        assert(s.take(n + 1).drop_last() =~= s.take(n));
        lemma_digits_value_nonnegative(s.take(n));
    } else {
        assert(s.take(n) =~= s);
    }
}

/// The number that the digits `chars[from..]` write, where it is at most `max`.
fn parse_digits(chars: &[char], from: usize, max: u64) -> (r: Option<u64>)
    requires
        from <= chars@.len(),
    ensures
        r is Some <==> all_digits(chars@.skip(from as int)) && digits_value(
            chars@.skip(from as int),
        ) <= max,
        r is Some ==> r->0 == digits_value(chars@.skip(from as int)),
{
    let ghost s = chars@.skip(from as int);
    if from == chars.len() {
        return None;
    }
    let mut value: u64 = 0;
    let mut i: usize = from;
    while i < chars.len()
        invariant
            from <= i <= chars@.len(),
            s == chars@.skip(from as int),
            forall|j: int| 0 <= j < i - from ==> is_digit(#[trigger] s[j]),
            value == digits_value(s.take(i - from)),
            value <= max,
        decreases chars@.len() - i,
    {
        let c: char = chars[i];
        assert(s[i - from] == c);
        if c < '0' || c > '9' {
            assert(!is_digit(s[i - from]));
            return None;
        }
        let d: u64 = (c as u64) - 48u64;
        proof {
            assert(s.take(i - from + 1).drop_last() =~= s.take(i - from));
            assert(s.take(i - from + 1).last() == c);
            if all_digits(s) {
                lemma_digits_value_prefix(s, i - from + 1);
            }
        }
        if value > (u64::MAX - d) / 10 || value * 10 + d > max {
            return None;
        }
        value = value * 10 + d;
        i += 1;
    }
    assert(s.take(i - from) =~= s);
    Some(value)
}

/// Reads `s` as an unsigned decimal number of at most `max`: what `str::parse` does for the
/// unsigned integer type whose largest value is `max`.
pub fn parse_unsigned(s: &str, max: u64) -> (r: Option<u64>)
    ensures
        r is Some <==> parsed_unsigned(s@) is Some && parsed_unsigned(s@)->0 <= max,
        r is Some ==> r->0 as int == parsed_unsigned(s@)->0,
{
    let chars: Vec<char> = chars_of(s);
    assert(chars@.skip(0) =~= chars@);
    if chars.len() > 0 && chars[0] == '+' {
        assert(!is_digit(chars@[0]));
        return parse_digits(&chars, 1, max);
    }
    parse_digits(&chars, 0, max)
}

/// Reads `s` as a decimal number with an optional sign: what `str::parse` does for `i64`.
pub fn parse_i64(s: &str) -> (r: Option<i64>)
    ensures
        r is Some <==> parsed_signed(s@) is Some && i64::MIN <= parsed_signed(s@)->0 <= i64::MAX,
        r is Some ==> r->0 as int == parsed_signed(s@)->0,
{
    let chars: Vec<char> = chars_of(s);
    assert(chars@.skip(0) =~= chars@);
    if chars.len() > 0 && chars[0] == '-' {
        proof {
            if all_digits(chars@.skip(1)) {
                lemma_digits_value_nonnegative(chars@.skip(1));
            }
        }
        return match parse_digits(&chars, 1, 0x8000_0000_0000_0000u64) {
            Some(m) => if m == 0x8000_0000_0000_0000u64 {
                Some(i64::MIN)
            } else {
                Some(-(m as i64))
            },
            None => None,
        };
    }
    proof {
        if all_digits(chars@) {
            lemma_digits_value_nonnegative(chars@);
        }
        if all_digits(chars@.skip(1)) {
            lemma_digits_value_nonnegative(chars@.skip(1));
        }
    }
    match parse_unsigned(s, 0x7fff_ffff_ffff_ffffu64) {
        Some(m) => Some(m as i64),
        None => None,
    }
}

/// Reading back the decimal notation of a number gives the number.
pub proof fn decimal_reads_back(n: nat)
    ensures
        all_digits(decimal(n)),
        digits_value(decimal(n)) == n,
        parsed_unsigned(decimal(n)) == Some(n as int),
    decreases n,
{
    if n >= 10 {
        decimal_reads_back(n / 10);
        let s = decimal(n);
        assert(s.drop_last() =~= decimal(n / 10));
        assert forall|i: int| 0 <= i < s.len() implies is_digit(#[trigger] s[i]) by {
            if i < s.len() - 1 {
                assert(s[i] == decimal(n / 10)[i]);
            }
        }
    } else {
        let s = decimal(n);
        assert(s.drop_last() =~= Seq::empty());
        assert(digits_value(s.drop_last()) == 0);
    }
}

/// The same with a sign.
pub proof fn signed_decimal_reads_back(n: int)
    ensures
        parsed_signed(signed_decimal(n)) == Some(n),
{
    if n < 0 {
        decimal_reads_back((-n) as nat);
        let s = signed_decimal(n);
        assert(s.skip(1) =~= decimal((-n) as nat));
    } else {
        decimal_reads_back(n as nat);
        let s = decimal(n as nat);
        assert(s.len() > 0);
        assert(is_digit(s[0]));
    }
}

/// The parts of a text with the separator between them are the text, and no part has the separator in it.
pub proof fn parts_join_to_the_text(s: Seq<char>, c: char)
    ensures
        joined(parted(s, c), seq![c]) == s,
        forall|k: int|
            0 <= k < parted(s, c).len() ==> !(#[trigger] parted(s, c)[k]).contains(c),
    decreases s.len(),
{
    lemma_parted_nonempty(s, c);
    if s.len() > 0 {
        let front = s.drop_last();
        let earlier = parted(front, c);
        lemma_parted_nonempty(front, c);
        parts_join_to_the_text(front, c);
        if s.last() == c {
            let parts = earlier.push(Seq::empty());
            assert(parts.drop_last() =~= earlier);
            assert(joined(parts, seq![c]) =~= front + seq![c]);
            assert(front + seq![c] =~= s);
        } else {
            let parts = earlier.drop_last().push(earlier.last().push(s.last()));
            assert(parts.drop_last() =~= earlier.drop_last());
            if parts.len() == 1 {
                assert(joined(earlier, seq![c]) == earlier[0]);
                assert(parts[0] =~= s);
            } else {
                assert(joined(parts, seq![c]) =~= joined(earlier, seq![c]).push(s.last()));
            }
            assert forall|k: int| 0 <= k < parts.len() implies !(#[trigger] parts[k]).contains(c) by {
                if k < parts.len() - 1 {
                    assert(parts[k] == earlier[k]);
                } else {
                    let part = earlier.last();
                    assert(!earlier[earlier.len() - 1].contains(c));
                    if part.push(s.last()).contains(c) {
                        let at = choose|at: int|
                            0 <= at < part.push(s.last()).len() && part.push(s.last())[at] == c;
                        assert(part[at] == c);
                    }
                }
            }
        }
    }
}

/// A text without the separator is one part.
proof fn lemma_one_part(s: Seq<char>, c: char)
    requires
        !s.contains(c),
    ensures
        parted(s, c) == seq![s],
    decreases s.len(),
{
    if s.len() > 0 {
        let front = s.drop_last();
        if front.contains(c) {
            let at = choose|at: int| 0 <= at < front.len() && front[at] == c;
            assert(s[at] == c);
        }
        assert(s[s.len() - 1] == s.last());
        lemma_one_part(front, c);
        assert(front.push(s.last()) =~= s);
        assert(parted(s, c) =~= seq![s]);
    } else {
        assert(s =~= Seq::empty());
    }
}

/// Two texts without the separator in them, with the separator between them, are parted into the two.
pub proof fn two_parts_are_told_apart(a: Seq<char>, b: Seq<char>, c: char)
    requires
        !a.contains(c),
        !b.contains(c),
    ensures
        parted(a + seq![c] + b, c) == seq![a, b],
    decreases b.len(),
{
    let s = a + seq![c] + b;
    if b.len() == 0 {
        assert(s.drop_last() =~= a);
        assert(s.last() == c);
        lemma_one_part(a, c);
        assert(b =~= Seq::empty());
        assert(parted(s, c) =~= seq![a, b]);
    } else {
        let front = b.drop_last();
        if front.contains(c) {
            let at = choose|at: int| 0 <= at < front.len() && front[at] == c;
            assert(b[at] == c);
        }
        assert(b[b.len() - 1] != c);
        two_parts_are_told_apart(a, front, c);
        assert(s.drop_last() =~= a + seq![c] + front);
        assert(front.push(b.last()) =~= b);
        assert(parted(s, c) =~= seq![a, b]);
    }
}

/// A text without white space in front is an end of it, and what is left out is white space.
proof fn lemma_trimmed_front(s: Seq<char>) -> (n: int)
    ensures
        0 <= n <= s.len(),
        trimmed_front(s) == s.skip(n),
        forall|i: int| 0 <= i < n ==> white_space(#[trigger] s[i]),
        n < s.len() ==> !white_space(s[n]),
    decreases s.len(),
{
    if s.len() > 0 && white_space(s[0]) {
        let rest = s.skip(1);
        let m = lemma_trimmed_front(rest);
        assert(rest.skip(m) =~= s.skip(m + 1));
        assert forall|i: int| 0 <= i < m + 1 implies white_space(#[trigger] s[i]) by {
            if i > 0 {
                assert(s[i] == rest[i - 1]);
            }
        }
        m + 1
    } else {
        assert(s.skip(0) =~= s);
        0
    }
}

/// A text without white space at its end is a front of it, and what is left out is white space.
proof fn lemma_trimmed_back(s: Seq<char>) -> (n: int)
    ensures
        0 <= n <= s.len(),
        trimmed_back(s) == s.take(n),
        forall|i: int| n <= i < s.len() ==> white_space(#[trigger] s[i]),
        n > 0 ==> !white_space(s[n - 1]),
    decreases s.len(),
{
    if s.len() > 0 && white_space(s.last()) {
        let rest = s.drop_last();
        let m = lemma_trimmed_back(rest);
        assert(rest.take(m) =~= s.take(m));
        assert forall|i: int| m <= i < s.len() implies white_space(#[trigger] s[i]) by {
            if i < rest.len() {
                assert(s[i] == rest[i]);
            }
        }
        m
    } else {
        assert(s.take(s.len() as int) =~= s);
        s.len() as int
    }
}

/// A trimmed text is a stretch of the text: only white space stands before and behind it, and it does not
/// begin or end with any.
pub proof fn only_white_space_is_trimmed(s: Seq<char>) -> (r: (int, int))
    ensures
        0 <= r.0 <= r.1 <= s.len(),
        trimmed(s) == s.subrange(r.0, r.1),
        forall|i: int|
            0 <= i < r.0 || r.1 <= i < s.len() ==> white_space(#[trigger] s[i]),
        r.0 < r.1 ==> !white_space(s[r.0]) && !white_space(s[r.1 - 1]),
{
    let from = lemma_trimmed_front(s);
    let rest = s.skip(from);
    let n = lemma_trimmed_back(rest);
    assert(rest.take(n) =~= s.subrange(from, from + n));
    assert forall|i: int| from + n <= i < s.len() implies white_space(#[trigger] s[i]) by {
        assert(s[i] == rest[i - from]);
    }
    if n > 0 {
        assert(rest[n - 1] == s[from + n - 1]);
    }
    (from, from + n)
}

/// A text that stands at `i` is found there or before.
proof fn lemma_found_by(s: Seq<char>, pattern: Seq<char>, from: int, i: int)
    requires
        0 <= from <= i,
        stands_at(s, pattern, i),
    ensures
        first_place(s, pattern, from) matches Some(at) && at <= i,
    decreases i - from,
{
    if !stands_at(s, pattern, from) {
        lemma_found_by(s, pattern, from + 1, i);
    }
}

/// A text is found where it stands first: it stands at no place between, and where none is found it stands
/// nowhere.
pub proof fn a_text_is_found_where_it_stands_first(
    s: Seq<char>,
    pattern: Seq<char>,
    from: int,
    i: int,
)
    requires
        0 <= from <= i,
        i + pattern.len() <= s.len(),
        s.subrange(i, i + pattern.len()) == pattern,
    ensures
        first_place(s, pattern, from) matches Some(at) && from <= at <= i && s.subrange(
            at,
            at + pattern.len(),
        ) == pattern,
        holds_text(s, pattern),
{
    lemma_found_by(s, pattern, from, i);
    lemma_found_by(s, pattern, 0, i);
    lemma_first_place(s, pattern, from);
}

/// A text holds whatever it is put together from.
pub proof fn a_text_holds_its_parts(before: Seq<char>, part: Seq<char>, behind: Seq<char>)
    ensures
        holds_text(before + part + behind, part),
{
    let s = before + part + behind;
    let at = before.len() as int;
    assert(s.subrange(at, at + part.len()) =~= part);
    a_text_is_found_where_it_stands_first(s, part, 0, at);
}

} // verus!
