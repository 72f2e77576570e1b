//! Plain text as the command line needs it: splitting a line into words, reading unsigned
//! decimal numbers and writing them.
use vstd::prelude::*;

verus! {

/// The Unicode `White_Space` characters.
pub open spec fn is_space(c: char) -> bool {
    let v = c as u32;
    ||| 0x09 <= v <= 0x0d
    ||| v == 0x20
    ||| v == 0x85
    ||| v == 0xa0
    ||| v == 0x1680
    ||| 0x2000 <= v <= 0x200a
    ||| v == 0x2028
    ||| v == 0x2029
    ||| v == 0x202f
    ||| v == 0x205f
    ||| v == 0x3000
}

/// Whether `s` holds no whitespace.
pub open spec fn is_solid(s: Seq<char>) -> bool {
    forall|i: int| 0 <= i < s.len() ==> !is_space(#[trigger] s[i])
}

/// The words of `s`: its maximal runs of non-whitespace characters, in order. A further character
/// adds nothing where it is whitespace, opens a word where none is open, and continues the last
/// word otherwise.
pub open spec fn words(s: Seq<char>) -> Seq<Seq<char>>
    decreases s.len(),
{
    if s.len() == 0 {
        seq![]
    } else {
        let before = words(s.drop_last());
        if is_space(s.last()) {
            before
        } else if s.len() == 1 || is_space(s[s.len() - 2]) {
            before.push(seq![s.last()])
        } else {
            before.drop_last().push(before.last().push(s.last()))
        }
    }
}

/// The characters that a list of string slices stands for.
pub open spec fn contents(list: Seq<&str>) -> Seq<Seq<char>> {
    list.map_values(|w: &str| w@)
}

/// Whether `c` is whitespace.
pub fn is_whitespace(c: char) -> (space: bool)
    ensures
        space == is_space(c),
{
    let v: u32 = c as u32;
    (0x09 <= v && v <= 0x0d) || v == 0x20 || v == 0x85 || v == 0xa0 || v == 0x1680 || (0x2000 <= v
        && v <= 0x200a) || v == 0x2028 || v == 0x2029 || v == 0x202f || v == 0x205f || v == 0x3000
}

/// Splits a line into its words.
pub fn split_words<'a>(line: &'a str) -> (list: Vec<&'a str>)
    ensures
        contents(list@) == words(line@),
{
    let mut list: Vec<&'a str> = Vec::new();
    let mut start: usize = 0;
    let mut at: usize = 0;
    let mut inside: bool = false;
    let total: usize = line.unicode_len();
    for c in it: line.chars()
        invariant
            it.seq() == line@,
            at == it.index(),
            total == line@.len(),
            at <= total,
            inside ==> start < at,
            inside <==> at > 0 && !is_space(line@[at - 1]),
            inside ==> words(line@.take(at as int)) == contents(list@).push(
                line@.subrange(start as int, at as int),
            ),
            !inside ==> words(line@.take(at as int)) == contents(list@),
    {
        let ghost upto = line@.take(at + 1);
        assert(upto.drop_last() == line@.take(at as int));
        assert(upto.last() == c);
        if is_whitespace(c) {
            if inside {
                let ghost before = contents(list@);
                let word = line.substring_char(start, at);
                list.push(word);
                assert(contents(list@) == before.push(word@));
                inside = false;
            }
        } else if !inside {
            start = at;
            inside = true;
            assert(line@.subrange(start as int, at + 1) == seq![c]);
        } else {
            assert(line@.subrange(start as int, at + 1) == line@.subrange(
                start as int,
                at as int,
            ).push(c));
            assert(words(upto) == contents(list@).push(line@.subrange(start as int, at + 1)));
        }
        at = at + 1;
    }
    assert(line@.take(at as int) == line@);
    if inside {
        let ghost before = contents(list@);
        let word = line.substring_char(start, at);
        list.push(word);
        assert(contents(list@) == before.push(word@));
    }
    list
}

/// The decimal digit that stands for `d`, from 0 to 9.
pub open spec fn digit(d: nat) -> char {
    (('0' as u32) + d) as char
}

/// Whether `c` is one of the ten ASCII digits.
pub open spec fn is_digit(c: char) -> bool {
    '0' <= c <= '9'
}

/// What the digits of `s` add up to in base ten, the most significant first.
pub open spec fn value(s: Seq<char>) -> nat
    decreases s.len(),
{
    if s.len() == 0 {
        0
    } else {
        value(s.drop_last()) * 10 + (s.last() as u32 - '0' as u32) as nat
    }
}

/// `n` in decimal, without leading zeros.
pub open spec fn decimal(n: nat) -> Seq<char>
    decreases n,
{
    if n < 10 {
        seq![digit(n)]
    } else {
        decimal(n / 10).push(digit(n % 10))
    }
}

/// `s` without the one plus sign that may stand before a number.
pub open spec fn unsigned_part(s: Seq<char>) -> Seq<char> {
    if s.len() > 0 && s[0] == '+' {
        s.drop_first()
    } else {
        s
    }
}

/// Whether `s` is a number: one digit or more, with or without a plus sign before them.
pub open spec fn is_number(s: Seq<char>) -> bool {
    let digits = unsigned_part(s);
    digits.len() > 0 && forall|i: int| 0 <= i < digits.len() ==> is_digit(#[trigger] digits[i])
}

/// The number that `s` writes out, where it is one and is at most `max`.
pub open spec fn number(s: Seq<char>, max: nat) -> Option<nat> {
    if is_number(s) && value(unsigned_part(s)) <= max {
        Some(value(unsigned_part(s)))
    } else {
        None
    }
}

/// A number is at least what its leading digits come to.
proof fn lemma_value_prefix(s: Seq<char>, k: int)
    requires
        0 <= k <= s.len(),
    ensures
        value(s.take(k)) <= value(s),
    decreases s.len(),
{
    if k < s.len() {
        lemma_value_prefix(s.drop_last(), k);
        assert(s.drop_last().take(k) == s.take(k));
    } else {
        assert(s.take(k) == s);
    }
}

/// Reads the number that `s` writes out, up to `max`.
pub fn parse_unsigned(s: &str, max: u64) -> (n: Option<u64>)
    ensures
        n is Some <==> number(s@, max as nat) is Some,
        n is Some ==> n->0 as nat == number(s@, max as nat)->0,
{
    let ghost digits = unsigned_part(s@);
    let mut first: bool = true;
    let mut seen: bool = false;
    let mut total: u64 = 0;
    let ghost mut done: int = 0;
    for c in it: s.chars()
        invariant
            it.seq() == s@,
            digits == unsigned_part(s@),
            first <==> it.index() == 0,
            it.index() == 0 ==> done == 0,
            it.index() > 0 ==> done == it.index() - (s@.len() - digits.len()),
            0 <= done <= digits.len(),
            seen <==> done > 0,
            total == value(digits.take(done)),
            total <= max,
            forall|i: int| 0 <= i < done ==> is_digit(#[trigger] digits[i]),
    {
        if first && c == '+' {
            first = false;
        } else {
            first = false;
            assert(digits[done] == c);
            if c < '0' || c > '9' {
                assert(!is_digit(digits[done]));
                return None;
            }
            let d: u64 = (c as u32 - '0' as u32) as u64;
            assert(digits.take(done + 1).drop_last() == digits.take(done));
            if total > (u64::MAX - d) / 10 || total * 10 + d > max {
                proof {
                    lemma_value_prefix(digits, done + 1);
                }
                return None;
            }
            total = total * 10 + d;
            seen = true;
            proof {
                done = done + 1;
            }
        }
    }
    assert(digits.take(done) == digits);
    if seen {
        Some(total)
    } else {
        None
    }
}

/// Reads a number that fits 32 bits.
pub fn parse_u32(s: &str) -> (n: Option<u32>)
    ensures
        n is Some <==> number(s@, u32::MAX as nat) is Some,
        n is Some ==> n->0 as nat == number(s@, u32::MAX as nat)->0,
{
    match parse_unsigned(s, u32::MAX as u64) {
        Some(n) => Some(n as u32),
        None => None,
    }
}

/// Reads a number that fits 64 bits.
pub fn parse_u64(s: &str) -> (n: Option<u64>)
    ensures
        n is Some <==> number(s@, u64::MAX as nat) is Some,
        n is Some ==> n->0 as nat == number(s@, u64::MAX as nat)->0,
{
    parse_unsigned(s, u64::MAX)
}

/// The text of one digit.
fn digit_text(d: u64) -> (text: &'static str)
    requires
        d < 10,
    ensures
        text@ == seq![digit(d as nat)],
{
    proof {
        reveal_strlit("0");
        reveal_strlit("1");
        reveal_strlit("2");
        reveal_strlit("3");
        reveal_strlit("4");
        reveal_strlit("5");
        reveal_strlit("6");
        reveal_strlit("7");
        reveal_strlit("8");
        reveal_strlit("9");
    }
    match d {
        0 => "0",
        1 => "1",
        2 => "2",
        3 => "3",
        4 => "4",
        5 => "5",
        6 => "6",
        7 => "7",
        8 => "8",
        _ => "9",
    }
}

/// Writes `n` in decimal behind what `out` holds.
pub fn push_decimal(out: &mut String, n: u64)
    ensures
        final(out)@ == old(out)@ + decimal(n as nat),
    decreases n,
{
    if n >= 10 {
        push_decimal(out, n / 10);
    }
    out.append(digit_text(n % 10));
}

/// Whether two texts hold the same characters.
pub fn same_text(a: &str, b: &str) -> (same: bool)
    ensures
        same == (a@ == b@),
{
    let x = a.as_bytes();
    let y = b.as_bytes();
    proof {
        vstd::utf8::encode_utf8_decode_utf8(a@);
        vstd::utf8::encode_utf8_decode_utf8(b@);
    }
    if x.len() != y.len() {
        return false;
    }
    let mut i: usize = 0;
    while i < x.len()
        invariant
            i <= x@.len(),
            x@.len() == y@.len(),
            x@ == vstd::utf8::encode_utf8(a@),
            y@ == vstd::utf8::encode_utf8(b@),
            forall|j: int| 0 <= j < i ==> x@[j] == y@[j],
        decreases x@.len() - i,
    {
        if x[i] != y[i] {
            return false;
        }
        i = i + 1;
    }
    assert(x@ == y@);
    true
}

/// A text without whitespace is one word, the text itself.
pub proof fn solid_text_is_one_word(s: Seq<char>)
    requires
        s.len() > 0,
        is_solid(s),
    ensures
        words(s) == seq![s],
    decreases s.len(),
{
    if s.len() == 1 {
        assert(words(s.drop_last()) == Seq::<Seq<char>>::empty());
        assert(s == seq![s.last()]);
    } else {
        solid_text_is_one_word(s.drop_last());
        assert(words(s) == seq![s.drop_last()].drop_last().push(s.drop_last().push(s.last())));
        assert(s.drop_last().push(s.last()) == s);
    }
}

/// Whitespace ends a word: the words of two texts with whitespace between them are the words of
/// the first and then the words of the second.
pub proof fn space_separates_words(a: Seq<char>, space: char, b: Seq<char>)
    requires
        is_space(space),
    ensures
        words(a + seq![space] + b) == words(a) + words(b),
    decreases b.len(),
{
    let s = a + seq![space] + b;
    if b.len() == 0 {
        assert(s.drop_last() == a);
    } else {
        space_separates_words(a, space, b.drop_last());
        assert(s.drop_last() == a + seq![space] + b.drop_last());
        if b.len() > 1 {
            assert(s[s.len() - 2] == b[b.len() - 2]);
            if !is_space(b.last()) && !is_space(b[b.len() - 2]) {
                lemma_open_word(b.drop_last());
            }
        } else {
            assert(s[s.len() - 2] == space);
        }
        assert(words(s) == words(a) + words(b));
    }
}

/// A text that ends in something other than whitespace has a word.
proof fn lemma_open_word(s: Seq<char>)
    requires
        s.len() > 0,
        !is_space(s.last()),
    ensures
        words(s).len() > 0,
{
}

/// No word is empty, and none holds whitespace.
pub proof fn words_are_solid(s: Seq<char>)
    ensures
        forall|i: int|
            0 <= i < words(s).len() ==> (#[trigger] words(s)[i]).len() > 0 && is_solid(words(s)[i]),
    decreases s.len(),
{
    if s.len() > 0 {
        words_are_solid(s.drop_last());
        if s.len() > 1 && !is_space(s[s.len() - 2]) {
            lemma_open_word(s.drop_last());
        }
    }
}

/// A text of whitespace alone has no words.
pub proof fn space_has_no_words(s: Seq<char>)
    requires
        forall|i: int| 0 <= i < s.len() ==> is_space(#[trigger] s[i]),
    ensures
        words(s) == Seq::<Seq<char>>::empty(),
    decreases s.len(),
{
    if s.len() > 0 {
        space_has_no_words(s.drop_last());
    }
}

/// Whitespace around a text changes none of its words.
pub proof fn surrounding_space_is_ignored(before: Seq<char>, s: Seq<char>, after: Seq<char>)
    requires
        forall|i: int| 0 <= i < before.len() ==> is_space(#[trigger] before[i]),
        forall|i: int| 0 <= i < after.len() ==> is_space(#[trigger] after[i]),
    ensures
        words(before + s + after) == words(s),
    decreases before.len() + after.len(),
{
    if after.len() > 0 {
        surrounding_space_is_ignored(before, s, after.drop_last());
        assert((before + s + after).drop_last() == before + s + after.drop_last());
    } else if before.len() > 0 {
        let space = before.last();
        space_has_no_words(before.drop_last());
        space_separates_words(before.drop_last(), space, s);
        assert(before + s + after == before.drop_last() + seq![space] + s);
        assert(words(before.drop_last()) + words(s) == words(s));
    } else {
        assert(before + s + after == s);
    }
}

/// A number in decimal is digits alone, at least one of them, that come to the number.
proof fn lemma_decimal(n: nat)
    ensures
        decimal(n).len() > 0,
        forall|i: int| 0 <= i < decimal(n).len() ==> is_digit(#[trigger] decimal(n)[i]),
        value(decimal(n)) == n,
    decreases n,
{
    if n < 10 {
        assert(decimal(n).drop_last() == Seq::<char>::empty());
        assert(value(decimal(n)) == value(decimal(n).drop_last()) * 10 + n);
    } else {
        lemma_decimal(n / 10);
        assert(decimal(n).drop_last() == decimal(n / 10));
    }
}

/// What is written in decimal reads back as the number it was written from.
pub proof fn decimal_reads_back(n: nat, max: nat)
    requires
        n <= max,
    ensures
        number(decimal(n), max) == Some(n),
{
    lemma_decimal(n);
    assert(is_digit(decimal(n)[0]));
}

/// A number in decimal is one word.
pub proof fn decimal_is_solid(n: nat)
    ensures
        decimal(n).len() > 0,
        is_solid(decimal(n)),
{
    lemma_decimal(n);
    assert forall|i: int| 0 <= i < decimal(n).len() implies !is_space(#[trigger] decimal(n)[i]) by {
        assert(is_digit(decimal(n)[i]));
    }
}

/// Numbers are read by place, most significant digit first: one digit more makes ten times the
/// number and that digit, as far as the limit allows, and anything but a digit makes it no number.
pub proof fn numbers_are_read_by_place(s: Seq<char>, c: char, max: nat)
    requires
        s.len() > 0,
        forall|i: int| 0 <= i < s.len() ==> '0' <= #[trigger] s[i] <= '9',
    ensures
        '0' <= c <= '9' ==> number(s.push(c), max) == ({
            let d = (c as u32 - 48) as nat;
            if number(s, max) is Some && number(s, max)->0 * 10 + d <= max {
                Some(number(s, max)->0 * 10 + d)
            } else {
                None
            }
        }),
        !('0' <= c <= '9') ==> number(s.push(c), max) is None,
{
    let t = s.push(c);
    assert(s[0] != '+');
    assert(t[0] == s[0]);
    assert(t.drop_last() == s);
    assert(is_number(s)) by {
        assert forall|i: int| 0 <= i < s.len() implies is_digit(#[trigger] s[i]) by {}
    }
    if '0' <= c <= '9' {
        assert(is_number(t)) by {
            assert forall|i: int| 0 <= i < t.len() implies is_digit(#[trigger] t[i]) by {
                if i < s.len() {
                    assert(t[i] == s[i]);
                }
            }
        }
    } else {
        assert(!is_digit(t[t.len() - 1]));
    }
}

/// A single character is a number if and only if it is a digit within the limit, and no character
/// at all is none.
pub proof fn one_digit_is_a_number(c: char, max: nat)
    ensures
        number(seq![c], max) == (if '0' <= c <= '9' && c as u32 - 48 <= max {
            Some((c as u32 - 48) as nat)
        } else {
            None
        }),
        number(seq![], max) is None,
{
    let s = seq![c];
    assert(s.drop_last() == Seq::<char>::empty());
    assert(s.drop_first() == Seq::<char>::empty());
    assert(value(Seq::<char>::empty()) == 0);
    if '0' <= c <= '9' {
        assert(is_number(s));
    } else if c != '+' {
        assert(!is_digit(s[0]));
    }
}

/// One plus sign before a number changes nothing of it, and a second one makes it none.
pub proof fn plus_sign_changes_nothing(s: Seq<char>, max: nat)
    ensures
        s.len() > 0 && s[0] != '+' ==> number(seq!['+'] + s, max) == number(s, max),
        s.len() == 0 || s[0] == '+' ==> number(seq!['+'] + s, max) is None,
{
    let t = seq!['+'] + s;
    assert(t.drop_first() == s);
    if s.len() > 0 && s[0] == '+' {
        assert(!is_digit(s[0]));
    }
}

/// A number holds digits alone, but for one plus sign at the front, and is within the limit.
pub proof fn numbers_hold_digits_alone(s: Seq<char>, max: nat)
    requires
        number(s, max) is Some,
    ensures
        s.len() > 0,
        s[0] == '+' || '0' <= s[0] <= '9',
        forall|i: int| 1 <= i < s.len() ==> '0' <= #[trigger] s[i] <= '9',
        number(s, max)->0 <= max,
{
    let digits = unsigned_part(s);
    assert forall|i: int| 1 <= i < s.len() implies '0' <= #[trigger] s[i] <= '9' by {
        if s[0] == '+' {
            assert(digits[i - 1] == s[i]);
            assert(is_digit(digits[i - 1]));
        } else {
            assert(is_digit(digits[i]));
        }
    }
    assert(is_digit(digits[0]));
}

/// The limit only turns numbers down: below it, it makes no difference.
pub proof fn limit_only_turns_down(s: Seq<char>, max: nat, higher: nat)
    requires
        max <= higher,
    ensures
        number(s, max) == (if number(s, higher) is Some && number(s, higher)->0 <= max {
            number(s, higher)
        } else {
            None
        }),
{
}

/// A number in decimal is ASCII digits alone, without leading zeros.
pub proof fn decimal_is_plain(n: nat)
    ensures
        decimal(n).len() > 0,
        forall|i: int| 0 <= i < decimal(n).len() ==> '0' <= #[trigger] decimal(n)[i] <= '9',
        decimal(n).len() > 1 ==> decimal(n)[0] != '0',
    decreases n,
{
    lemma_decimal(n);
    assert forall|i: int| 0 <= i < decimal(n).len() implies '0' <= #[trigger] decimal(n)[i] <= '9' by {
        assert(is_digit(decimal(n)[i]));
    }
    if n >= 10 {
        decimal_is_plain(n / 10);
        assert(decimal(n)[0] == decimal(n / 10)[0]);
        if n / 10 < 10 {
            assert(decimal(n / 10) == seq![digit(n / 10)]);
        } else {
            assert(decimal(n / 10).len() > 1) by {
                lemma_decimal(n / 10 / 10);
            }
        }
    }
}

} // verus!
