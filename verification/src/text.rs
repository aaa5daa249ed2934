//! Character-level text functions, each stated over sequences of characters.

use crate::views::views;
use vstd::prelude::*;
use vstd::string::*;
use vstd::utf8::*;

verus! {

/// `String::push` appends the character to the end of the string.
pub assume_specification[ std::string::String::push ](s: &mut std::string::String, c: char)
    ensures
        final(s)@ == old(s)@.push(c),
;

/// The characters of `text`, in order.
pub fn chars_of(text: &str) -> (chars: Vec<char>)
    ensures
        chars@ == text@,
{
    let mut chars: Vec<char> = Vec::new();
    for c in it: text.chars()
        invariant
            chars@ == it.seq().take(it.index() as int),
            it.seq() == text@,
    {
        chars.push(c);
    }
    chars
}

/// The string of the characters `chars[from..to]`.
pub fn text_of(chars: &Vec<char>, from: usize, to: usize) -> (text: String)
    requires
        from <= to <= chars@.len(),
    ensures
        text@ == chars@.subrange(from as int, to as int),
{
    let mut text = String::new();
    let mut i: usize = from;
    while i < to
        invariant
            from <= i <= to <= chars@.len(),
            text@ == chars@.subrange(from as int, i as int),
        decreases to - i,
    {
        text.push(chars[i]);
        i += 1;
    }
    text
}

/// ASCII lower case of a character; other characters are themselves.
pub open spec fn fold_char(c: char) -> char {
    if 'A' <= c <= 'Z' {
        (c as u32 + 32) as char
    } else {
        c
    }
}

/// ASCII lower case of a text.
pub open spec fn fold(text: Seq<char>) -> Seq<char> {
    text.map_values(|c: char| fold_char(c))
}

pub fn to_fold_char(c: char) -> (r: char)
    ensures
        r == fold_char(c),
{
    if c >= 'A' && c <= 'Z' {
        ((c as u8) + 32) as char
    } else {
        c
    }
}

/// Whether two texts are the same but for the case of ASCII letters.
pub fn same_fold(left: &str, right: &str) -> (r: bool)
    ensures
        r == (fold(left@) == fold(right@)),
{
    let a = chars_of(left);
    let b = chars_of(right);
    if a.len() != b.len() {
        assert(fold(left@).len() != fold(right@).len());
        return false;
    }
    let mut i: usize = 0;
    while i < a.len()
        invariant
            a@ == left@,
            b@ == right@,
            a@.len() == b@.len(),
            i <= a@.len(),
            forall|j: int| 0 <= j < i ==> fold_char(#[trigger] a@[j]) == fold_char(b@[j]),
        decreases a@.len() - i,
    {
        if to_fold_char(a[i]) != to_fold_char(b[i]) {
            assert(fold(left@)[i as int] != fold(right@)[i as int]);
            return false;
        }
        i += 1;
    }
    assert(fold(left@) =~= fold(right@));
    true
}

/// Whether two texts are equal.
pub fn same(left: &str, right: &str) -> (r: bool)
    ensures
        r == (left@ == right@),
{
    let a = left.as_bytes();
    let b = right.as_bytes();
    if a.len() != b.len() {
        return false;
    }
    let mut i: usize = 0;
    while i < a.len()
        invariant
            a@ == encode_utf8(left@),
            b@ == encode_utf8(right@),
            a@.len() == b@.len(),
            i <= a@.len(),
            forall|j: int| 0 <= j < i ==> a@[j] == b@[j],
        decreases a@.len() - i,
    {
        if a[i] != b[i] {
            return false;
        }
        i += 1;
    }
    proof {
        assert(a@ =~= b@);
        encode_utf8_decode_utf8(left@);
        encode_utf8_decode_utf8(right@);
    }
    true
}

/// The digit `d` of a number in a radix up to 16.
pub open spec fn digit(d: nat, upper: bool) -> char {
    if d < 10 {
        (48 + d) as char
    } else if upper {
        (55 + d) as char
    } else {
        (87 + d) as char
    }
}

pub fn to_digit(d: u8, upper: bool) -> (r: char)
    requires
        d < 16,
    ensures
        r == digit(d as nat, upper),
{
    if d < 10 {
        (48 + d) as char
    } else if upper {
        (55 + d) as char
    } else {
        (87 + d) as char
    }
}

/// `n` in the radix `radix`, without leading zeros.
pub open spec fn radix_text(n: nat, radix: nat, upper: bool) -> Seq<char>
    decreases n,
{
    if n < radix || radix < 2 {
        seq![digit(n, upper)]
    } else {
        proof {
            assert(n / radix < n) by (nonlinear_arith)
                requires
                    radix >= 2,
                    n >= radix,
            ;
        }
        radix_text(n / radix, radix, upper).push(digit(n % radix, upper))
    }
}

/// `n` in decimal.
pub open spec fn decimal(n: nat) -> Seq<char> {
    radix_text(n, 10, true)
}

/// `n` in decimal, with a minus sign where it is negative.
pub open spec fn signed_decimal(n: int) -> Seq<char> {
    if n < 0 {
        seq!['-'] + decimal((-n) as nat)
    } else {
        decimal(n as nat)
    }
}

/// The last `width` hexadecimal digits of `n`.
pub open spec fn hex(n: nat, width: nat, upper: bool) -> Seq<char>
    decreases width,
{
    if width == 0 {
        seq![]
    } else {
        hex(n / 16, (width - 1) as nat, upper).push(digit(n % 16, upper))
    }
}

/// Appends `n` in the radix `radix`.
pub fn push_radix(text: &mut String, n: u64, radix: u64, upper: bool)
    requires
        2 <= radix <= 16,
    ensures
        final(text)@ == old(text)@ + radix_text(n as nat, radix as nat, upper),
    decreases n,
{
    if n >= radix {
        assert(n / radix < n && n % radix < radix) by (nonlinear_arith)
            requires
                radix >= 2,
                n >= radix,
        ;
        push_radix(text, n / radix, radix, upper);
        text.push(to_digit((n % radix) as u8, upper));
    } else {
        text.push(to_digit(n as u8, upper));
    }
    assert(text@ =~= old(text)@ + radix_text(n as nat, radix as nat, upper));
}

/// `n` in decimal.
pub fn decimal_text(n: u64) -> (text: String)
    ensures
        text@ == decimal(n as nat),
{
    let mut text = String::new();
    push_radix(&mut text, n, 10, true);
    assert(text@ =~= decimal(n as nat));
    text
}

/// `n` in decimal, with a minus sign where it is negative.
pub fn signed_decimal_text(n: i32) -> (text: String)
    ensures
        text@ == signed_decimal(n as int),
{
    if n < 0 {
        let mut text = String::new();
        text.push('-');
        push_radix(&mut text, (-(n as i64)) as u64, 10, true);
        assert(text@ =~= signed_decimal(n as int));
        text
    } else {
        decimal_text(n as u64)
    }
}

/// Appends the last `width` hexadecimal digits of `n`.
pub fn push_hex(text: &mut String, n: u64, width: u64, upper: bool)
    ensures
        final(text)@ == old(text)@ + hex(n as nat, width as nat, upper),
    decreases width,
{
    if width > 0 {
        push_hex(text, n / 16, width - 1, upper);
        text.push(to_digit((n % 16) as u8, upper));
    }
    assert(text@ =~= old(text)@ + hex(n as nat, width as nat, upper));
}

/// A text, a number, and another text.
pub fn with_number(before: &str, n: u64, after: &str) -> (r: String)
    ensures
        r@ == before@ + decimal(n as nat) + after@,
{
    let mut text = before.to_owned();
    text.append(&decimal_text(n));
    text.append(after);
    text
}

/// Two texts, one behind the other.
pub fn concat(left: &str, right: &str) -> (r: String)
    ensures
        r@ == left@ + right@,
{
    let mut text = left.to_owned();
    text.append(right);
    text
}

/// The texts of `parts` with `separator` between neighbours.
pub open spec fn joined(parts: Seq<Seq<char>>, separator: Seq<char>) -> Seq<char>
    decreases parts.len(),
{
    if parts.len() == 0 {
        seq![]
    } else if parts.len() == 1 {
        parts[0]
    } else {
        joined(parts.drop_last(), separator) + separator + parts.last()
    }
}

/// The strings of `parts` with `separator` between neighbours.
pub fn join(parts: &Vec<String>, separator: &str) -> (text: String)
    ensures
        text@ == joined(views(parts@), separator@),
{
    let mut text = String::new();
    let mut i: usize = 0;
    while i < parts.len()
        invariant
            i <= parts@.len(),
            text@ == joined(views(parts@).take(i as int), separator@),
        decreases parts@.len() - i,
    {
        if i > 0 {
            text.append(separator);
        }
        text.append(parts[i].as_str());
        proof {
            let all = views(parts@);
            assert(all.take(i + 1).drop_last() =~= all.take(i as int));
            assert(all.take(i + 1).last() == parts@[i as int]@);
            assert(text@ =~= joined(all.take(i + 1), separator@));
        }
        i += 1;
    }
    assert(views(parts@).take(i as int) =~= views(parts@));
    text
}

/// Appends a line.
pub fn push_line(lines: &mut Vec<String>, line: String)
    ensures
        views(final(lines)@) == views(old(lines)@).push(line@),
{
    lines.push(line);
    assert(views(lines@) =~= views(old(lines)@).push(line@));
}

/// Whether `text` is one of `strings`.
pub fn contains_text(strings: &Vec<String>, text: &str) -> (r: bool)
    ensures
        r == views(strings@).contains(text@),
{
    let mut i: usize = 0;
    while i < strings.len()
        invariant
            i <= strings@.len(),
            forall|k: int| 0 <= k < i ==> #[trigger] views(strings@)[k] != text@,
        decreases strings@.len() - i,
    {
        if same(&strings[i], text) {
            assert(views(strings@)[i as int] == text@);
            return true;
        }
        i += 1;
    }
    false
}

/// `count` copies of `c`.
pub open spec fn repeated(c: char, count: nat) -> Seq<char> {
    Seq::new(count, |i: int| c)
}

/// Appends `count` copies of `c`.
pub fn push_repeated(text: &mut String, c: char, count: usize)
    ensures
        final(text)@ == old(text)@ + repeated(c, count as nat),
{
    let mut i: usize = 0;
    while i < count
        invariant
            i <= count,
            text@ == old(text)@ + repeated(c, i as nat),
        decreases count - i,
    {
        text.push(c);
        i += 1;
        assert(text@ =~= old(text)@ + repeated(c, i as nat));
    }
    assert(text@ =~= old(text)@ + repeated(c, count as nat));
}

/// The Unicode property `White_Space`.
pub open spec fn white_space(c: char) -> bool {
    let n = c as u32;
    ||| 0x09 <= n <= 0x0D
    ||| n == 0x20
    ||| n == 0x85
    ||| n == 0xA0
    ||| n == 0x1680
    ||| 0x2000 <= n <= 0x200A
    ||| n == 0x2028
    ||| n == 0x2029
    ||| n == 0x202F
    ||| n == 0x205F
    ||| n == 0x3000
}

fn is_white_space(c: char) -> (r: bool)
    ensures
        r == white_space(c),
{
    let n: u32 = c as u32;
    (0x09 <= n && n <= 0x0D) || n == 0x20 || n == 0x85 || n == 0xA0 || n == 0x1680 || (0x2000 <= n
        && n <= 0x200A) || n == 0x2028 || n == 0x2029 || n == 0x202F || n == 0x205F || n == 0x3000
}

/// `text` without the white space at its start.
pub open spec fn trimmed_start(text: Seq<char>) -> Seq<char>
    decreases text.len(),
{
    if text.len() > 0 && white_space(text[0]) {
        trimmed_start(text.drop_first())
    } else {
        text
    }
}

/// `text` without the white space at its end.
pub open spec fn trimmed_end(text: Seq<char>) -> Seq<char>
    decreases text.len(),
{
    if text.len() > 0 && white_space(text.last()) {
        trimmed_end(text.drop_last())
    } else {
        text
    }
}

/// `text` without the white space at its two ends.
pub open spec fn trimmed(text: Seq<char>) -> Seq<char> {
    trimmed_end(trimmed_start(text))
}

/// `text` without the white space at its two ends.
pub fn trim(text: &str) -> (r: String)
    ensures
        r@ == trimmed(text@),
{
    let chars = chars_of(text);
    let mut from: usize = 0;
    assert(chars@.skip(0) =~= chars@);
    while from < chars.len() && is_white_space(chars[from])
        invariant
            from <= chars@.len(),
            trimmed_start(chars@) == trimmed_start(chars@.skip(from as int)),
        decreases chars@.len() - from,
    {
        assert(chars@.skip(from as int).drop_first() =~= chars@.skip(from + 1));
        from += 1;
    }
    let ghost kept = chars@.skip(from as int);
    assert(trimmed_start(chars@) == kept) by {
        if from < chars@.len() {
            assert(kept[0] == chars@[from as int]);
        }
    }
    let mut to: usize = chars.len();
    assert(chars@.subrange(from as int, to as int) =~= kept);
    while to > from && is_white_space(chars[to - 1])
        invariant
            from <= to <= chars@.len(),
            trimmed_end(kept) == trimmed_end(chars@.subrange(from as int, to as int)),
        decreases to,
    {
        assert(chars@.subrange(from as int, to as int).drop_last() =~= chars@.subrange(
            from as int,
            to - 1,
        ));
        to -= 1;
    }
    assert(trimmed_end(kept) == chars@.subrange(from as int, to as int)) by {
        let rest = chars@.subrange(from as int, to as int);
        if to > from {
            assert(rest.last() == chars@[to - 1]);
        }
    }
    text_of(&chars, from, to)
}

/// Whether `text` starts with `prefix`.
pub open spec fn starts_with(text: Seq<char>, prefix: Seq<char>) -> bool {
    prefix.len() <= text.len() && text.take(prefix.len() as int) == prefix
}

/// What follows `prefix` in `text`, where `text` starts with it.
pub open spec fn after_prefix(text: Seq<char>, prefix: Seq<char>) -> Option<Seq<char>> {
    if starts_with(text, prefix) {
        Some(text.skip(prefix.len() as int))
    } else {
        None
    }
}

/// What follows `prefix` in `text`, where `text` starts with it.
pub fn strip_prefix(text: &str, prefix: &str) -> (r: Option<String>)
    ensures
        match r {
            Some(rest) => after_prefix(text@, prefix@) == Some(rest@),
            None => after_prefix(text@, prefix@) is None,
        },
{
    let a = chars_of(text);
    let b = chars_of(prefix);
    if b.len() > a.len() {
        return None;
    }
    let mut i: usize = 0;
    while i < b.len()
        invariant
            a@ == text@,
            b@ == prefix@,
            b@.len() <= a@.len(),
            i <= b@.len(),
            forall|j: int| 0 <= j < i ==> a@[j] == b@[j],
        decreases b@.len() - i,
    {
        if a[i] != b[i] {
            assert(text@.take(prefix@.len() as int)[i as int] != prefix@[i as int]);
            return None;
        }
        i += 1;
    }
    assert(text@.take(prefix@.len() as int) =~= prefix@);
    let rest = text_of(&a, b.len(), a.len());
    assert(rest@ =~= text@.skip(prefix@.len() as int));
    Some(rest)
}

/// The value of a digit of a number in the radix `radix`.
pub open spec fn digit_value(c: char, radix: nat) -> Option<nat> {
    let v = if '0' <= c <= '9' {
        (c as u32 - 48) as nat
    } else if 'a' <= c <= 'z' {
        (c as u32 - 87) as nat
    } else if 'A' <= c <= 'Z' {
        (c as u32 - 55) as nat
    } else {
        radix
    };
    if v < radix {
        Some(v)
    } else {
        None
    }
}

pub fn to_digit_value(c: char, radix: u64) -> (r: Option<u64>)
    requires
        radix <= 16,
    ensures
        match digit_value(c, radix as nat) {
            Some(v) => r == Some(v as u64) && v < radix,
            None => r is None,
        },
{
    let n: u64 = c as u64;
    let v: u64 = if c >= '0' && c <= '9' {
        n - 48
    } else if c >= 'a' && c <= 'z' {
        n - 87
    } else if c >= 'A' && c <= 'Z' {
        n - 55
    } else {
        radix
    };
    if v < radix {
        Some(v)
    } else {
        None
    }
}

/// The number that a row of digits writes.
pub open spec fn digits_value(text: Seq<char>, radix: nat) -> Option<nat>
    decreases text.len(),
{
    if text.len() == 0 {
        Some(0)
    } else {
        match (digits_value(text.drop_last(), radix), digit_value(text.last(), radix)) {
            (Some(v), Some(d)) => Some(v * radix + d),
            _ => None,
        }
    }
}

/// The number that `text` writes: digits, after an optional plus sign.
pub open spec fn unsigned_value(text: Seq<char>, radix: nat) -> Option<nat> {
    let body = if text.len() > 0 && text[0] == '+' {
        text.drop_first()
    } else {
        text
    };
    if body.len() == 0 {
        None
    } else {
        digits_value(body, radix)
    }
}

/// The number that `text` writes in decimal, after an optional sign.
pub open spec fn signed_value(text: Seq<char>) -> Option<int> {
    if text.len() > 0 && text[0] == '-' {
        if text.len() == 1 {
            None
        } else {
            match digits_value(text.drop_first(), 10) {
                Some(v) => Some(-(v as int)),
                None => None,
            }
        }
    } else {
        match unsigned_value(text, 10) {
            Some(v) => Some(v as int),
            None => None,
        }
    }
}

/// A number is read as it is written.
pub proof fn lemma_decimal(n: nat)
    ensures
        decimal(n).len() > 0,
        digits_value(decimal(n), 10) == Some(n),
        forall|i: int| 0 <= i < decimal(n).len() ==> '0' <= #[trigger] decimal(n)[i] <= '9',
    decreases n,
{
    let text = decimal(n);
    if n < 10 {
        assert(text =~= seq![digit(n, true)]);
        assert(text.drop_last() =~= seq![]);
        assert(digits_value(text.drop_last(), 10) == Some(0nat));
    } else {
        let front = radix_text(n / 10, 10, true);
        assert(front == decimal(n / 10));
        lemma_decimal(n / 10);
        assert(text == front.push(digit(n % 10, true)));
        assert(text.drop_last() =~= front);
        assert forall|i: int| 0 <= i < text.len() implies '0' <= #[trigger] text[i] <= '9' by {
            if i < front.len() {
                assert(text[i] == front[i]);
            }
        }
    }
}

/// A longer row of digits writes no smaller number, and no number where a prefix writes none.
pub proof fn lemma_digits_prefix(text: Seq<char>, n: int, radix: nat)
    requires
        0 <= n <= text.len(),
        radix >= 1,
    ensures
        digits_value(text.take(n), radix) is None ==> digits_value(text, radix) is None,
        match (digits_value(text.take(n), radix), digits_value(text, radix)) {
            (Some(a), Some(b)) => a <= b,
            _ => true,
        },
    decreases text.len() - n,
{
    if n == text.len() {
        assert(text.take(n) =~= text);
    } else {
        lemma_digits_prefix(text, n + 1, radix);
        let longer = text.take(n + 1);
        assert(longer.drop_last() =~= text.take(n));
        match (digits_value(text.take(n), radix), digit_value(longer.last(), radix)) {
            (Some(v), Some(d)) => {
                assert(v * radix + d >= v) by (nonlinear_arith)
                    requires
                        radix >= 1,
                ;
            },
            _ => {},
        }
    }
}

/// The number that `chars[from..]` writes, where it is at most `limit`.
fn parse_digits(chars: &Vec<char>, from: usize, radix: u64, limit: u64) -> (r: Option<u64>)
    requires
        from <= chars@.len(),
        2 <= radix <= 16,
        limit <= 0xFFFF_FFFF,
    ensures
        r == match digits_value(chars@.skip(from as int), radix as nat) {
            Some(v) => if v <= limit {
                Some(v as u64)
            } else {
                None
            },
            None => None,
        },
{
    let ghost body = chars@.skip(from as int);
    let mut value: u64 = 0;
    let mut i: usize = from;
    assert(body.take(0) =~= Seq::<char>::empty());
    while i < chars.len()
        invariant
            from <= i <= chars@.len(),
            2 <= radix <= 16,
            limit <= 0xFFFF_FFFF,
            body == chars@.skip(from as int),
            value <= limit,
            digits_value(body.take(i - from), radix as nat) == Some(value as nat),
        decreases chars@.len() - i,
    {
        let ghost longer = body.take(i + 1 - from);
        assert(longer.drop_last() =~= body.take(i - from));
        assert(longer.last() == chars@[i as int]);
        proof {
            lemma_digits_prefix(body, i + 1 - from, radix as nat);
        }
        match to_digit_value(chars[i], radix) {
            None => {
                return None;
            },
            Some(d) => {
                assert(value * radix <= 0xFFFF_FFFF * 16) by (nonlinear_arith)
                    requires
                        value <= 0xFFFF_FFFF,
                        radix <= 16,
                ;
                let next: u64 = value * radix + d;
                if next > limit {
                    return None;
                }
                value = next;
            },
        }
        i += 1;
    }
    assert(body.take(i - from) =~= body);
    Some(value)
}

/// The number up to `limit` that `text` writes: digits, after an optional plus sign.
pub fn parse_unsigned(text: &str, radix: u64, limit: u64) -> (r: Option<u64>)
    requires
        2 <= radix <= 16,
        limit <= 0xFFFF_FFFF,
    ensures
        r == match unsigned_value(text@, radix as nat) {
            Some(v) => if v <= limit {
                Some(v as u64)
            } else {
                None
            },
            None => None,
        },
{
    let chars = chars_of(text);
    let from: usize = if chars.len() > 0 && chars[0] == '+' {
        1
    } else {
        0
    };
    if from == chars.len() {
        return None;
    }
    assert(from == 0 ==> chars@.skip(0) =~= chars@);
    assert(from == 1 ==> chars@.skip(1) =~= chars@.drop_first());
    parse_digits(&chars, from, radix, limit)
}

/// The number from `-limit - 1` to `limit` that `text` writes in decimal, after an optional sign.
pub fn parse_signed(text: &str, limit: u64) -> (r: Option<i64>)
    requires
        limit < 0xFFFF_FFFF,
    ensures
        r == match signed_value(text@) {
            Some(v) => if -limit - 1 <= v <= limit {
                Some(v as i64)
            } else {
                None
            },
            None => None,
        },
{
    let chars = chars_of(text);
    if chars.len() > 0 && chars[0] == '-' {
        if chars.len() == 1 {
            return None;
        }
        assert(chars@.skip(1) =~= chars@.drop_first());
        match parse_digits(&chars, 1, 10, limit + 1) {
            Some(v) => Some(-(v as i64)),
            None => None,
        }
    } else {
        match parse_unsigned(text, 10, limit) {
            Some(v) => Some(v as i64),
            None => None,
        }
    }
}

/// How `Debug` writes a text: in double quotes, with escapes.
pub uninterp spec fn debug_text(text: Seq<char>) -> Seq<char>;

/// The `Debug` form of a `str`, which `format!("{:?}")` writes: a function of its characters.
#[verifier::external_body]
pub(crate) fn quoted(text: &str) -> (r: String)
    ensures
        r@ == debug_text(text@),
{
    format!("{:?}", text)
}

} // verus!
