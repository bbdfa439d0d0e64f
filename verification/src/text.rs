//! Texts as sequences of characters: what the parsers of this library need to find,
//! cut, trim, order and read them.
use vstd::prelude::*;

verus! {

/// The characters of `s`, in order, as a vector that can be indexed in constant time.
pub fn chars_of(s: &str) -> (r: Vec<char>)
    ensures
        r@ == s@,
{
    let mut out: Vec<char> = Vec::new();
    for c in it: s.chars()
        invariant
            it.seq() == s@,
            out@ == s@.take(it.index()),
    {
        out.push(c);
    }
    out
}

/// Whether two character vectors hold the same text.
pub fn same_chars(a: &Vec<char>, b: &Vec<char>) -> (r: bool)
    ensures
        r == (a@ == b@),
{
    if a.len() != b.len() {
        return false;
    }
    let mut i: usize = 0;
    while i < a.len()
        invariant
            i <= a.len(),
            a.len() == b.len(),
            a@.take(i as int) == b@.take(i as int),
        decreases a.len() - i,
    {
        if a[i] != b[i] {
            assert(a@[i as int] != b@[i as int]);
            return false;
        }
        assert(a@.take(i + 1) == a@.take(i as int).push(a@[i as int]));
        assert(b@.take(i + 1) == b@.take(i as int).push(b@[i as int]));
        i += 1;
    }
    assert(a@.take(a.len() as int) == a@);
    assert(b@.take(b.len() as int) == b@);
    true
}

/// Whether two string slices hold the same text.
pub fn same_text(a: &str, b: &str) -> (r: bool)
    ensures
        r == (a@ == b@),
{
    let x = chars_of(a);
    let y = chars_of(b);
    same_chars(&x, &y)
}

/// The decimal digit that stands for `d`, for `d` below ten.
pub open spec fn digit_char(d: nat) -> char {
    if d == 0 {
        '0'
    } else if d == 1 {
        '1'
    } else if d == 2 {
        '2'
    } else if d == 3 {
        '3'
    } else if d == 4 {
        '4'
    } else if d == 5 {
        '5'
    } else if d == 6 {
        '6'
    } else if d == 7 {
        '7'
    } else if d == 8 {
        '8'
    } else {
        '9'
    }
}

/// The decimal numeral of `n`, without sign or leading zeros.
pub open spec fn decimal(n: nat) -> Seq<char>
    decreases n,
{
    if n < 10 {
        seq![digit_char(n)]
    } else {
        decimal(n / 10).push(digit_char(n % 10))
    }
}

/// The decimal digit that stands for `d`, as a text.
fn digit_text(d: u32) -> (r: &'static str)
    requires
        d < 10,
    ensures
        r@ == seq![digit_char(d as nat)],
{
    proof {
        reveal_strlit("0");
        reveal_strlit("1");
        reveal_strlit("2");
        reveal_strlit("3");
        reveal_strlit("4");
        reveal_strlit("5");
        reveal_strlit("6");
        reveal_strlit("7");
        reveal_strlit("8");
        reveal_strlit("9");
    }
    let r = if d == 0 {
        "0"
    } else if d == 1 {
        "1"
    } else if d == 2 {
        "2"
    } else if d == 3 {
        "3"
    } else if d == 4 {
        "4"
    } else if d == 5 {
        "5"
    } else if d == 6 {
        "6"
    } else if d == 7 {
        "7"
    } else if d == 8 {
        "8"
    } else {
        "9"
    };
    assert(r@ =~= seq![digit_char(d as nat)]);
    r
}

/// Appends the decimal numeral of `n` to `out`.
pub fn push_decimal(out: &mut String, n: u32)
    ensures
        final(out)@ == old(out)@ + decimal(n as nat),
    decreases n,
{
    if n >= 10 {
        push_decimal(out, n / 10);
    }
    out.append(digit_text(n % 10));
    assert(out@ =~= old(out)@ + decimal(n as nat));
}

/// Whether `c` is one of the ten ASCII digits.
pub open spec fn is_digit(c: char) -> bool {
    48 <= c as u32 <= 57
}

/// The number that a digit stands for; 0 for any other character.
pub open spec fn digit_value(c: char) -> nat {
    if is_digit(c) {
        (c as u32 - 48) as nat
    } else {
        0
    }
}

/// Whether every character of `s` is a digit.
pub open spec fn all_digits(s: Seq<char>) -> bool {
    forall|i: int| 0 <= i < s.len() ==> is_digit(#[trigger] s[i])
}

/// The number that a run of digits denotes in base ten; 0 for the empty run.
pub open spec fn digits_value(s: Seq<char>) -> nat
    decreases s.len(),
{
    if s.len() == 0 {
        0
    } else {
        digits_value(s.drop_last()) * 10 + digit_value(s.last())
    }
}

/// `s` without the occurrences of `c`.
pub open spec fn without(s: Seq<char>, c: char) -> Seq<char>
    decreases s.len(),
{
    if s.len() == 0 {
        s
    } else if s.last() == c {
        without(s.drop_last(), c)
    } else {
        without(s.drop_last(), c).push(s.last())
    }
}

/// The number that a decimal numeral denotes: an optional `+`, then at least one digit,
/// and a value that fits in 32 bits. Anything else denotes no number.
pub open spec fn unsigned_of(s: Seq<char>) -> Option<u32> {
    let digits = if s.len() > 0 && s[0] == '+' {
        s.drop_first()
    } else {
        s
    };
    if digits.len() > 0 && all_digits(digits) && digits_value(digits) <= u32::MAX {
        Some(digits_value(digits) as u32)
    } else {
        None
    }
}

/// The count that a statistic's text denotes, once its thousands separators are gone.
pub open spec fn count_of(text: Seq<char>) -> Option<u32> {
    unsigned_of(without(text, ','))
}

/// Whether `s` begins with `prefix`.
pub open spec fn has_prefix(s: Seq<char>, prefix: Seq<char>) -> bool {
    prefix.len() <= s.len() && s.take(prefix.len() as int) == prefix
}

/// A run of digits denotes at least what any of its prefixes denotes.
pub proof fn lemma_digits_value_prefix(s: Seq<char>, k: int)
    requires
        0 <= k <= s.len(),
    ensures
        digits_value(s.take(k)) <= digits_value(s),
    decreases s.len(),
{
    if k == s.len() {
        assert(s.take(k) == s);
    } else {
        lemma_digits_value_prefix(s.drop_last(), k);
        assert(s.drop_last().take(k) == s.take(k));
    }
}

/// The characters of `chars` that are not `c`, in their order.
pub fn strip_char(chars: &Vec<char>, c: char) -> (r: Vec<char>)
    ensures
        r@ == without(chars@, c),
{
    let mut out: Vec<char> = Vec::new();
    let mut i: usize = 0;
    while i < chars.len()
        invariant
            i <= chars.len(),
            out@ == without(chars@.take(i as int), c),
        decreases chars.len() - i,
    {
        proof {
            let next = chars@.take(i + 1);
            assert(next.drop_last() == chars@.take(i as int));
            assert(next.last() == chars@[i as int]);
        }
        if chars[i] != c {
            out.push(chars[i]);
        }
        i += 1;
    }
    assert(chars@.take(chars.len() as int) == chars@);
    out
}

/// Reads a decimal numeral as `u32::from_str` does.
#[verifier::loop_isolation(false)]
pub fn parse_unsigned(chars: &Vec<char>) -> (r: Option<u32>)
    ensures
        r == unsigned_of(chars@),
{
    let start: usize = if chars.len() > 0 && chars[0] == '+' {
        1
    } else {
        0
    };
    let ghost digits = chars@.skip(start as int);
    proof {
        assert(chars@.skip(0) == chars@);
        assert(chars@.len() > 0 ==> chars@.skip(1) == chars@.drop_first());
    }
    if start == chars.len() {
        return None;
    }
    let mut value: u32 = 0;
    let mut i: usize = start;
    while i < chars.len()
        invariant
            start <= i <= chars.len(),
            digits == chars@.skip(start as int),
            all_digits(digits.take(i - start)),
            digits_value(digits.take(i - start)) == value,
        decreases chars.len() - i,
    {
        let c = chars[i];
        let code: u32 = c as u32;
        proof {
            let next = digits.take(i + 1 - start);
            assert(next.drop_last() == digits.take(i - start));
            assert(next.last() == c);
            assert(digits[i - start] == c);
        }
        if code < 48 || code > 57 {
            return None;
        }
        let d: u32 = code - 48;
        if value > (u32::MAX - d) / 10 {
            proof {
                lemma_digits_value_prefix(digits, i + 1 - start);
            }
            return None;
        }
        value = value * 10 + d;
        i += 1;
    }
    assert(digits.take(chars.len() - start) == digits);
    Some(value)
}

/// Reads a statistic such as `1,234`: the separators are dropped, the rest is read as a
/// decimal numeral.
pub fn parse_count(text: &str) -> (r: Option<u32>)
    ensures
        r == count_of(text@),
{
    let chars = chars_of(text);
    let kept = strip_char(&chars, ',');
    parse_unsigned(&kept)
}

/// What follows `prefix` in `text`, if `text` begins with it.
#[verifier::loop_isolation(false)]
pub fn strip_prefix(text: &str, prefix: &str) -> (r: Option<String>)
    ensures
        match r {
            Some(rest) => has_prefix(text@, prefix@) && rest@ == text@.skip(prefix@.len() as int),
            None => !has_prefix(text@, prefix@),
        },
{
    let chars = chars_of(text);
    let head = chars_of(prefix);
    if head.len() > chars.len() {
        return None;
    }
    let mut i: usize = 0;
    while i < head.len()
        invariant
            i <= head.len() <= chars.len(),
            chars@.take(i as int) == head@.take(i as int),
        decreases head.len() - i,
    {
        if chars[i] != head[i] {
            assert(text@.take(prefix@.len() as int)[i as int] != prefix@[i as int]);
            assert(!has_prefix(text@, prefix@));
            return None;
        }
        assert(chars@.take(i + 1) == chars@.take(i as int).push(chars@[i as int]));
        assert(head@.take(i + 1) == head@.take(i as int).push(head@[i as int]));
        i += 1;
    }
    assert(head@.take(head.len() as int) == head@);
    let rest = text.substring_char(head.len(), chars.len());
    assert(text@.subrange(head.len() as int, chars.len() as int) == text@.skip(prefix@.len() as int));
    Some(rest.to_owned())
}

/// Whether `c` is white space: a character with the Unicode property `White_Space`.
pub open spec fn is_space(c: char) -> bool {
    let u = c as u32;
    ||| 0x09 <= u <= 0x0D
    ||| u == 0x20
    ||| u == 0x85
    ||| u == 0xA0
    ||| u == 0x1680
    ||| 0x2000 <= u <= 0x200A
    ||| u == 0x2028
    ||| u == 0x2029
    ||| u == 0x202F
    ||| u == 0x205F
    ||| u == 0x3000
}

/// Whether every character of `s` is white space.
pub open spec fn all_space(s: Seq<char>) -> bool {
    forall|i: int| 0 <= i < s.len() ==> is_space(#[trigger] s[i])
}

/// `s` without the white space at its start.
pub open spec fn trim_start(s: Seq<char>) -> Seq<char>
    decreases s.len(),
{
    if s.len() > 0 && is_space(s[0]) {
        trim_start(s.drop_first())
    } else {
        s
    }
}

/// `s` without the white space at its end.
pub open spec fn trim_end(s: Seq<char>) -> Seq<char>
    decreases s.len(),
{
    if s.len() > 0 && is_space(s.last()) {
        trim_end(s.drop_last())
    } else {
        s
    }
}

/// `s` without the white space at its start and at its end.
pub open spec fn trim(s: Seq<char>) -> Seq<char> {
    trim_end(trim_start(s))
}

/// The first position in `s` that holds `mark`; the length of `s` where none does.
pub open spec fn first_of(s: Seq<char>, mark: char) -> int
    decreases s.len(),
{
    if s.len() == 0 {
        0
    } else if s[0] == mark {
        0
    } else {
        1 + first_of(s.drop_first(), mark)
    }
}

/// The pieces of `s` between the occurrences of `mark`, in order. There is one piece more
/// than there are occurrences, so a piece may be empty.
pub open spec fn split(s: Seq<char>, mark: char) -> Seq<Seq<char>>
    decreases s.len(),
{
    let i = first_of(s, mark);
    if 0 <= i < s.len() {
        seq![s.take(i)] + split(s.skip(i + 1), mark)
    } else {
        seq![s]
    }
}

/// `s` up to its first `c`; all of `s` where it holds none.
pub open spec fn before(s: Seq<char>, c: char) -> Seq<char> {
    s.take(first_of(s, c))
}

/// Whether `a` comes before `b`, or is `b`, in the order of a dictionary whose alphabet
/// is the code points in their numeric order.
pub open spec fn lex_le(a: Seq<char>, b: Seq<char>) -> bool
    decreases a.len(),
{
    if a.len() == 0 {
        true
    } else if b.len() == 0 {
        false
    } else if a[0] != b[0] {
        (a[0] as u32) < (b[0] as u32)
    } else {
        lex_le(a.drop_first(), b.drop_first())
    }
}

/// Whether `a` comes before `b` and is not `b`.
pub open spec fn lex_lt(a: Seq<char>, b: Seq<char>) -> bool {
    a != b && lex_le(a, b)
}

/// What `first_of` returns is the position it is named after.
pub proof fn lemma_first_of(s: Seq<char>, mark: char)
    ensures
        0 <= first_of(s, mark) <= s.len(),
        forall|j: int| 0 <= j < first_of(s, mark) ==> s[j] != mark,
        first_of(s, mark) < s.len() ==> s[first_of(s, mark)] == mark,
    decreases s.len(),
{
    if s.len() > 0 && s[0] != mark {
        let rest = s.drop_first();
        lemma_first_of(rest, mark);
        assert forall|j: int| 0 <= j < first_of(s, mark) implies s[j] != mark by {
            if j > 0 {
                assert(s[j] == rest[j - 1]);
            }
        }
    }
}

/// A position before which `s` holds no `mark`, and which holds `mark` or is the end of
/// `s`, is what `first_of` returns.
pub proof fn lemma_first_of_is(s: Seq<char>, mark: char, k: int)
    requires
        0 <= k <= s.len(),
        forall|j: int| 0 <= j < k ==> s[j] != mark,
        k < s.len() ==> s[k] == mark,
    ensures
        first_of(s, mark) == k,
{
    lemma_first_of(s, mark);
}

/// A text has at least one piece.
pub proof fn lemma_split_len(s: Seq<char>, mark: char)
    ensures
        split(s, mark).len() >= 1,
        split(s, mark).len() == 1 <==> first_of(s, mark) == s.len(),
    decreases s.len(),
{
    lemma_first_of(s, mark);
    let i = first_of(s, mark);
    if i < s.len() {
        lemma_split_len(s.skip(i + 1), mark);
    }
}

/// White space before a text does not change what is left of it without such space.
pub proof fn lemma_trim_start_padding(w: Seq<char>, s: Seq<char>)
    requires
        all_space(w),
    ensures
        trim_start(w + s) == trim_start(s),
    decreases w.len(),
{
    if w.len() == 0 {
        assert(w + s == s);
    } else {
        assert((w + s)[0] == w[0]);
        assert((w + s).drop_first() == w.drop_first() + s);
        lemma_trim_start_padding(w.drop_first(), s);
    }
}

/// White space behind a text does not change what is left of it without such space.
pub proof fn lemma_trim_end_padding(s: Seq<char>, w: Seq<char>)
    requires
        all_space(w),
    ensures
        trim_end(s + w) == trim_end(s),
    decreases w.len(),
{
    if w.len() == 0 {
        assert(s + w == s);
    } else {
        assert((s + w).last() == w.last());
        assert((s + w).drop_last() == s + w.drop_last());
        lemma_trim_end_padding(s, w.drop_last());
    }
}

/// What `trim_start` leaves is the end of the text, and what it takes away is white space.
pub proof fn lemma_trim_start_is_suffix(s: Seq<char>)
    ensures
        trim_start(s).len() <= s.len(),
        trim_start(s) == s.skip(s.len() - trim_start(s).len()),
        all_space(s.take(s.len() - trim_start(s).len())),
        trim_start(s).len() > 0 ==> !is_space(trim_start(s)[0]),
    decreases s.len(),
{
    if s.len() > 0 && is_space(s[0]) {
        let rest = s.drop_first();
        lemma_trim_start_is_suffix(rest);
        let k = s.len() - trim_start(s).len();
        assert(rest.skip(k - 1) == s.skip(k));
        assert forall|i: int| 0 <= i < k implies is_space(#[trigger] s.take(k)[i]) by {
            if i > 0 {
                assert(s.take(k)[i] == rest.take(k - 1)[i - 1]);
            }
        }
    } else {
        assert(s.skip(0) == s);
    }
}

/// What `trim_end` leaves is the start of the text, and what it takes away is white space.
pub proof fn lemma_trim_end_is_prefix(s: Seq<char>)
    ensures
        trim_end(s).len() <= s.len(),
        trim_end(s) == s.take(trim_end(s).len() as int),
        all_space(s.skip(trim_end(s).len() as int)),
        trim_end(s).len() > 0 ==> !is_space(trim_end(s).last()),
    decreases s.len(),
{
    if s.len() > 0 && is_space(s.last()) {
        let rest = s.drop_last();
        lemma_trim_end_is_prefix(rest);
        let k = trim_end(s).len() as int;
        assert(rest.take(k) == s.take(k));
        assert forall|i: int| 0 <= i < s.len() - k implies is_space(#[trigger] s.skip(k)[i]) by {
            if i < s.len() - k - 1 {
                assert(s.skip(k)[i] == rest.skip(k)[i]);
            }
        }
    } else {
        assert(s.take(s.len() as int) == s);
    }
}

/// What `trim` leaves is a part of the text that neither begins nor ends with white
/// space.
pub proof fn lemma_trim_is_part(s: Seq<char>)
    ensures
        trim(s) == s.subrange(
            s.len() - trim_start(s).len(),
            s.len() - trim_start(s).len() + trim(s).len(),
        ),
        trim(s).len() <= trim_start(s).len() <= s.len(),
        trim(s).len() > 0 ==> !is_space(trim(s)[0]) && !is_space(trim(s).last()),
{
    lemma_trim_start_is_suffix(s);
    lemma_trim_end_is_prefix(trim_start(s));
    let lead = s.len() - trim_start(s).len();
    let kept = trim(s).len() as int;
    assert(s.skip(lead).take(kept) == s.subrange(lead, lead + kept));
    if kept > 0 {
        assert(trim(s)[0] == trim_start(s)[0]);
    }
}

/// A text that neither begins nor ends with white space is what `trim` leaves of it.
pub proof fn lemma_trim_nothing(s: Seq<char>)
    requires
        s.len() > 0 ==> !is_space(s[0]) && !is_space(s.last()),
    ensures
        trim(s) == s,
{
}

/// White space around a text does not change what `trim` makes of it.
pub proof fn lemma_trim_padding(w1: Seq<char>, s: Seq<char>, w2: Seq<char>)
    requires
        all_space(w1),
        all_space(w2),
    ensures
        trim(w1 + s + w2) == trim(s),
{
    assert(w1 + s + w2 == w1 + (s + w2));
    lemma_trim_start_padding(w1, s + w2);
    lemma_trim_start_is_suffix(s);
    let core = trim_start(s);
    let lead = s.take(s.len() - core.len());
    assert(s == lead + core);
    assert(s + w2 == lead + (core + w2));
    lemma_trim_start_padding(lead, core + w2);
    if core.len() > 0 {
        assert((core + w2)[0] == core[0]);
        assert(trim_start(core + w2) == core + w2);
        lemma_trim_end_padding(core, w2);
    } else {
        assert(core + w2 == w2);
        assert(w2 + Seq::<char>::empty() == w2);
        lemma_trim_start_padding(w2, Seq::<char>::empty());
    }
}

/// Of two texts, one is at or before the other.
pub proof fn lemma_lex_le_total(a: Seq<char>, b: Seq<char>)
    ensures
        lex_le(a, b) || lex_le(b, a),
    decreases a.len(),
{
    if a.len() > 0 && b.len() > 0 {
        if a[0] == b[0] {
            lemma_lex_le_total(a.drop_first(), b.drop_first());
        } else {
            vstd::utf8::char_u32_cast(a[0], a[0] as u32);
            vstd::utf8::char_u32_cast(b[0], b[0] as u32);
        }
    }
}

/// Two texts that are each at or before the other are the same text.
pub proof fn lemma_lex_le_antisymmetric(a: Seq<char>, b: Seq<char>)
    requires
        lex_le(a, b),
        lex_le(b, a),
    ensures
        a == b,
    decreases a.len(),
{
    if a.len() > 0 {
        lemma_lex_le_antisymmetric(a.drop_first(), b.drop_first());
        assert(a == seq![a[0]] + a.drop_first());
        assert(b == seq![b[0]] + b.drop_first());
    } else {
        assert(a == b);
    }
}

/// The order is transitive.
pub proof fn lemma_lex_le_transitive(a: Seq<char>, b: Seq<char>, c: Seq<char>)
    requires
        lex_le(a, b),
        lex_le(b, c),
    ensures
        lex_le(a, c),
    decreases a.len(),
{
    if a.len() > 0 && a[0] == b[0] && b[0] == c[0] {
        lemma_lex_le_transitive(a.drop_first(), b.drop_first(), c.drop_first());
    }
}

/// Whether `c` is white space.
pub fn is_whitespace(c: char) -> (r: bool)
    ensures
        r == is_space(c),
{
    let u: u32 = c as u32;
    (0x09 <= u && u <= 0x0D) || u == 0x20 || u == 0x85 || u == 0xA0 || u == 0x1680 || (0x2000 <= u
        && u <= 0x200A) || u == 0x2028 || u == 0x2029 || u == 0x202F || u == 0x205F || u == 0x3000
}

/// The first position from `from` and before `to` that holds `mark`; `to` where none
/// does.
pub(crate) fn find_first(chars: &Vec<char>, from: usize, to: usize, mark: char) -> (r: usize)
    requires
        from <= to <= chars.len(),
    ensures
        from <= r <= to,
        r - from == first_of(chars@.subrange(from as int, to as int), mark),
{
    let mut i: usize = from;
    while i < to && chars[i] != mark
        invariant
            from <= i <= to <= chars.len(),
            forall|j: int| from <= j < i ==> chars[j] != mark,
        decreases to - i,
    {
        i += 1;
    }
    proof {
        lemma_first_of_is(chars@.subrange(from as int, to as int), mark, i - from);
    }
    i
}

/// The bounds of what `trim` leaves of the characters from `from` and before `to`.
pub(crate) fn trim_range(chars: &Vec<char>, from: usize, to: usize) -> (r: (usize, usize))
    requires
        from <= to <= chars.len(),
    ensures
        from <= r.0 <= r.1 <= to,
        chars@.subrange(r.0 as int, r.1 as int) == trim(chars@.subrange(from as int, to as int)),
{
    let mut lo: usize = from;
    while lo < to && is_whitespace(chars[lo])
        invariant
            from <= lo <= to <= chars.len(),
            trim_start(chars@.subrange(from as int, to as int)) == trim_start(
                chars@.subrange(lo as int, to as int),
            ),
        decreases to - lo,
    {
        assert(chars@.subrange(lo as int, to as int).drop_first() == chars@.subrange(
            lo + 1,
            to as int,
        ));
        lo += 1;
    }
    let mut hi: usize = to;
    while hi > lo && is_whitespace(chars[hi - 1])
        invariant
            lo <= hi <= to <= chars.len(),
            trim_end(chars@.subrange(lo as int, to as int)) == trim_end(
                chars@.subrange(lo as int, hi as int),
            ),
        decreases hi - lo,
    {
        assert(chars@.subrange(lo as int, hi as int).drop_last() == chars@.subrange(
            lo as int,
            hi - 1,
        ));
        hi -= 1;
    }
    (lo, hi)
}

/// Whether the first text is at or before the second in the order of the code points.
pub fn chars_le(a: &Vec<char>, b: &Vec<char>) -> (r: bool)
    ensures
        r == lex_le(a@, b@),
{
    let mut i: usize = 0;
    assert(a@.skip(0) == a@ && b@.skip(0) == b@);
    while i < a.len() && i < b.len() && a[i] == b[i]
        invariant
            i <= a.len(),
            i <= b.len(),
            lex_le(a@, b@) == lex_le(a@.skip(i as int), b@.skip(i as int)),
        decreases a.len() - i,
    {
        assert(a@.skip(i as int).drop_first() == a@.skip(i + 1));
        assert(b@.skip(i as int).drop_first() == b@.skip(i + 1));
        i += 1;
    }
    if i == a.len() {
        true
    } else if i == b.len() {
        false
    } else {
        (a[i] as u32) < (b[i] as u32)
    }
}

/// Whether the first text is at or before the second in the order of the code points.
pub fn text_le(a: &str, b: &str) -> (r: bool)
    ensures
        r == lex_le(a@, b@),
{
    let x = chars_of(a);
    let y = chars_of(b);
    chars_le(&x, &y)
}

} // verus!
