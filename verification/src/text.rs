//! Text as sequences of characters: the string operations that the rest of
//! the library builds on, each with an exact contract over `Seq<char>`.

use vstd::prelude::*;
use vstd::utf8::{encode_scalar, encode_utf8};

verus! {

/// `String::push`: appends one character at the end of the string.
pub assume_specification[ String::push ](s: &mut String, c: char)
    ensures
        final(s)@ == old(s)@.push(c),
;

/// The result of `str::to_lowercase`, the Unicode lower-case mapping.
pub uninterp spec fn unicode_lowercase(s: Seq<char>) -> Seq<char>;

/// The result of `char::is_alphanumeric`, a Unicode property.
pub uninterp spec fn unicode_alphanumeric(c: char) -> bool;

/// `str::to_lowercase`: the result is a function of the text alone.
#[verifier::external_body]
pub(crate) fn lowercase(s: &str) -> (r: String)
    ensures
        r@ == unicode_lowercase(s@),
{
    s.to_lowercase()
}

/// `char::is_alphanumeric`: the result is a function of the character alone.
#[verifier::external_body]
pub(crate) fn is_alphanumeric(c: char) -> (r: bool)
    ensures
        r == unicode_alphanumeric(c),
{
    c.is_alphanumeric()
}

/// The characters with the Unicode property White_Space.
pub open spec fn white(c: char) -> bool {
    ||| '\u{9}' <= c <= '\u{d}'
    ||| c == ' '
    ||| c == '\u{85}'
    ||| c == '\u{a0}'
    ||| c == '\u{1680}'
    ||| '\u{2000}' <= c <= '\u{200a}'
    ||| c == '\u{2028}'
    ||| c == '\u{2029}'
    ||| c == '\u{202f}'
    ||| c == '\u{205f}'
    ||| c == '\u{3000}'
}

/// The characters of the Unicode category Cc.
pub open spec fn control(c: char) -> bool {
    ||| c <= '\u{1f}'
    ||| '\u{7f}' <= c <= '\u{9f}'
}

/// The ASCII lower-case form of a character; every other character is itself.
pub open spec fn ascii_lower(c: char) -> char {
    if 'A' <= c <= 'Z' {
        ((c as u32 + 32) as u32) as char
    } else {
        c
    }
}

/// The text with each character in its ASCII lower-case form.
pub open spec fn ascii_lowercase(s: Seq<char>) -> Seq<char> {
    s.map_values(|c: char| ascii_lower(c))
}

/// The first position from `i` on that holds no white space.
pub open spec fn skip_white(s: Seq<char>, i: int) -> int
    decreases s.len() - i,
{
    if 0 <= i < s.len() && white(s[i]) {
        skip_white(s, i + 1)
    } else {
        i
    }
}

/// The last position down to `from` with no white space just before it.
pub open spec fn drop_white(s: Seq<char>, from: int, j: int) -> int
    decreases j - from,
{
    if from < j && white(s[j - 1]) {
        drop_white(s, from, j - 1)
    } else {
        j
    }
}

/// The text without white space at either end.
pub open spec fn trimmed(s: Seq<char>) -> Seq<char> {
    let from = skip_white(s, 0);
    s.subrange(from, drop_white(s, from, s.len() as int))
}

/// `needle` occurs in `s` at position `i`.
pub open spec fn occurs_at(s: Seq<char>, needle: Seq<char>, i: int) -> bool {
    0 <= i <= s.len() - needle.len() && s.subrange(i, i + needle.len()) == needle
}

/// `needle` occurs somewhere in `s`.
pub open spec fn occurs(s: Seq<char>, needle: Seq<char>) -> bool {
    exists|i: int| #[trigger] occurs_at(s, needle, i)
}

/// `prefix` begins `s`.
pub open spec fn begins(s: Seq<char>, prefix: Seq<char>) -> bool {
    prefix.len() <= s.len() && s.subrange(0, prefix.len() as int) == prefix
}

/// `suffix` ends `s`.
pub open spec fn ends(s: Seq<char>, suffix: Seq<char>) -> bool {
    suffix.len() <= s.len() && s.subrange(s.len() - suffix.len(), s.len() as int) == suffix
}

/// The texts of a list of strings.
pub open spec fn texts(list: Seq<String>) -> Seq<Seq<char>> {
    list.map_values(|s: String| s@)
}

/// The character of a decimal digit.
pub open spec fn digit_char(d: nat) -> char {
    ((48 + d) as u32) as char
}

/// The decimal notation of a number, without leading zeros.
pub open spec fn decimal(n: nat) -> Seq<char>
    decreases n,
{
    if n < 10 {
        seq![digit_char(n)]
    } else {
        decimal(n / 10).push(digit_char(n % 10))
    }
}

/// What is left of a text at its ends has no white space there; it is a part
/// of the text.
pub proof fn trimmed_has_clean_ends(s: Seq<char>)
    ensures
        0 <= skip_white(s, 0) <= drop_white(s, skip_white(s, 0), s.len() as int) <= s.len(),
        trimmed(s).len() > 0 ==> !white(trimmed(s)[0]) && !white(trimmed(s).last()),
        s.len() > 0 && !white(s[0]) ==> skip_white(s, 0) == 0,
{
    skip_white_stops(s, 0);
    drop_white_stops(s, skip_white(s, 0), s.len() as int);
}

proof fn skip_white_stops(s: Seq<char>, i: int)
    requires
        0 <= i <= s.len(),
    ensures
        i <= skip_white(s, i) <= s.len(),
        skip_white(s, i) < s.len() ==> !white(s[skip_white(s, i)]),
    decreases s.len() - i,
{
    if i < s.len() && white(s[i]) {
        skip_white_stops(s, i + 1);
    }
}

proof fn drop_white_stops(s: Seq<char>, from: int, j: int)
    requires
        0 <= from <= j <= s.len(),
    ensures
        from <= drop_white(s, from, j) <= j,
        from < drop_white(s, from, j) ==> !white(s[drop_white(s, from, j) - 1]),
    decreases j - from,
{
    if from < j && white(s[j - 1]) {
        drop_white_stops(s, from, j - 1);
    }
}

/// A text with no white space at its ends, between single spaces or not, is
/// what trimming leaves of it.
pub proof fn trimmed_leaves_clean_text(s: Seq<char>)
    requires
        s.len() > 0,
        !white(s[0]),
        !white(s.last()),
    ensures
        trimmed(s) == s,
        trimmed(s.push(' ')) == s,
        trimmed(seq![' '] + s) == s,
{
    assert(trimmed(s) =~= s);
    let after = s.push(' ');
    assert(skip_white(after, 0) == 0);
    assert(drop_white(after, 0, after.len() as int) == s.len()) by {
        reveal_with_fuel(drop_white, 3);
    }
    assert(trimmed(after) =~= s);
    let before = seq![' '] + s;
    assert(skip_white(before, 0) == 1) by {
        reveal_with_fuel(skip_white, 3);
        assert(before[1] == s[0]);
    }
    assert(before.last() == s.last());
    assert(drop_white(before, 1, before.len() as int) == before.len());
    assert(trimmed(before) =~= s);
}

/// White space after a text changes nothing of what trimming leaves.
pub proof fn trimmed_drops_what_follows(s: Seq<char>, w: char)
    requires
        white(w),
    ensures
        trimmed(s.push(w)) == trimmed(s),
{
    let t = s.push(w);
    skip_white_extends(s, w, 0);
    trimmed_has_clean_ends(s);
    let a = skip_white(s, 0);
    if a < s.len() {
        drop_white_extends(s, w, a, s.len() as int);
        assert(drop_white(t, a, t.len() as int) == drop_white(t, a, s.len() as int));
        assert(trimmed(t) =~= trimmed(s));
    } else {
        assert(trimmed(s) =~= Seq::<char>::empty());
        trimmed_has_clean_ends(t);
        assert(trimmed(t) =~= Seq::<char>::empty());
    }
}

proof fn skip_white_extends(s: Seq<char>, w: char, i: int)
    requires
        white(w),
        0 <= i <= s.len(),
    ensures
        skip_white(s, i) < s.len() ==> skip_white(s.push(w), i) == skip_white(s, i),
        skip_white(s, i) == s.len() ==> skip_white(s.push(w), i) == s.len() + 1,
    decreases s.len() - i,
{
    let t = s.push(w);
    if i < s.len() {
        assert(t[i] == s[i]);
        if white(s[i]) {
            skip_white_extends(s, w, i + 1);
        }
    } else {
        assert(t[i] == w);
        assert(skip_white(t, i + 1) == i + 1);
    }
}

proof fn drop_white_extends(s: Seq<char>, w: char, from: int, j: int)
    requires
        0 <= from <= j <= s.len(),
    ensures
        drop_white(s.push(w), from, j) == drop_white(s, from, j),
    decreases j - from,
{
    if from < j {
        assert(s.push(w)[j - 1] == s[j - 1]);
        if white(s[j - 1]) {
            drop_white_extends(s, w, from, j - 1);
        }
    }
}

/// Is `c` white space?
pub fn is_whitespace(c: char) -> (r: bool)
    ensures
        r == white(c),
{
    ('\u{9}' <= c && c <= '\u{d}') || c == ' ' || c == '\u{85}' || c == '\u{a0}' || c == '\u{1680}'
        || ('\u{2000}' <= c && c <= '\u{200a}') || c == '\u{2028}' || c == '\u{2029}'
        || c == '\u{202f}' || c == '\u{205f}' || c == '\u{3000}'
}

/// Is `c` a control character?
pub fn is_control(c: char) -> (r: bool)
    ensures
        r == control(c),
{
    c <= '\u{1f}' || ('\u{7f}' <= c && c <= '\u{9f}')
}

/// The characters of a text.
pub fn chars_of(s: &str) -> (r: Vec<char>)
    ensures
        r@ == s@,
{
    let mut r: Vec<char> = Vec::new();
    let n: usize = s.unicode_len();
    let mut it = s.chars();
    let mut i: usize = 0;
    while i < n
        invariant
            i <= n,
            n == s@.len(),
            r@ == s@.subrange(0, i as int),
            vstd::std_specs::iter::IteratorSpec::remaining(&it) == s@.subrange(i as int, n as int),
            vstd::std_specs::iter::IteratorSpec::obeys_prophetic_iter_laws(&it),
        decreases n - i,
    {
        match it.next() {
            Some(c) => r.push(c),
            None => {},
        }
        i += 1;
    }
    r
}

/// The text made of the characters of a slice.
pub fn text_of(chars: &[char]) -> (r: String)
    ensures
        r@ == chars@,
{
    let mut r = String::new();
    let mut i: usize = 0;
    while i < chars.len()
        invariant
            i <= chars@.len(),
            r@ == chars@.subrange(0, i as int),
        decreases chars@.len() - i,
    {
        r.push(chars[i]);
        i += 1;
    }
    r
}

/// The bytes that a text takes in UTF-8.
pub fn byte_len(s: &str) -> (r: usize)
    ensures
        r == encode_utf8(s@).len(),
{
    s.as_bytes().len()
}

/// Are the two texts the same?
pub fn same(a: &str, b: &str) -> (r: bool)
    ensures
        r == (a@ == b@),
{
    a.to_owned() == b.to_owned()
}

/// Do two slices hold the same characters?
pub fn same_chars(a: &[char], b: &[char]) -> (r: bool)
    ensures
        r == (a@ == b@),
{
    if a.len() != b.len() {
        return false;
    }
    let mut i: usize = 0;
    while i < a.len()
        invariant
            i <= a@.len(),
            a@.len() == b@.len(),
            forall|k: int| 0 <= k < i ==> a@[k] == b@[k],
        decreases a@.len() - i,
    {
        if a[i] != b[i] {
            assert(a@[i as int] != b@[i as int]);
            return false;
        }
        i += 1;
    }
    assert(a@ =~= b@);
    true
}

/// The text without white space at either end.
pub fn trim(s: &str) -> (r: &str)
    ensures
        r@ == trimmed(s@),
{
    let chars = chars_of(s);
    let mut from: usize = 0;
    while from < chars.len() && is_whitespace(chars[from])
        invariant
            from <= chars@.len(),
            skip_white(chars@, 0) == skip_white(chars@, from as int),
        decreases chars@.len() - from,
    {
        from += 1;
    }
    let mut to: usize = chars.len();
    while from < to && is_whitespace(chars[to - 1])
        invariant
            from <= to <= chars@.len(),
            drop_white(chars@, from as int, chars@.len() as int) == drop_white(
                chars@,
                from as int,
                to as int,
            ),
        decreases to,
    {
        to -= 1;
    }
    s.substring_char(from, to)
}

/// Does `needle` occur in `s` at position `i`?
fn occurs_here(s: &[char], needle: &[char], i: usize) -> (r: bool)
    requires
        i + needle@.len() <= s@.len(),
    ensures
        r == occurs_at(s@, needle@, i as int),
{
    let n: usize = s.len();
    let mut k: usize = 0;
    while k < needle.len()
        invariant
            k <= needle@.len(),
            n == s@.len(),
            i + needle@.len() <= s@.len(),
            forall|j: int| 0 <= j < k ==> s@[i + j] == needle@[j],
        decreases needle@.len() - k,
    {
        if s[i + k] != needle[k] {
            assert(s@.subrange(i as int, i + needle@.len())[k as int] != needle@[k as int]);
            return false;
        }
        k += 1;
    }
    assert(s@.subrange(i as int, i + needle@.len()) =~= needle@);
    true
}

/// Does `needle` occur in `s`?
pub fn contains(s: &str, needle: &str) -> (r: bool)
    ensures
        r == occurs(s@, needle@),
{
    let text = chars_of(s);
    let sought = chars_of(needle);
    if sought.len() > text.len() {
        assert(!occurs(s@, needle@)) by {
            assert(forall|i: int| !#[trigger] occurs_at(s@, needle@, i));
        }
        return false;
    }
    let last: usize = text.len() - sought.len();
    let mut i: usize = 0;
    while i < last
        invariant
            text@ == s@,
            sought@ == needle@,
            last == text@.len() - sought@.len(),
            i <= last,
            forall|k: int| 0 <= k < i ==> !#[trigger] occurs_at(s@, needle@, k),
        decreases last - i,
    {
        if occurs_here(&text, &sought, i) {
            return true;
        }
        i += 1;
    }
    occurs_here(&text, &sought, last)
}

/// Does `s` begin with `prefix`?
pub fn starts_with(s: &str, prefix: &str) -> (r: bool)
    ensures
        r == begins(s@, prefix@),
{
    let text = chars_of(s);
    let sought = chars_of(prefix);
    sought.len() <= text.len() && occurs_here(&text, &sought, 0)
}

/// Does `s` end with `suffix`?
pub fn ends_with(s: &str, suffix: &str) -> (r: bool)
    ensures
        r == ends(s@, suffix@),
{
    let text = chars_of(s);
    let sought = chars_of(suffix);
    sought.len() <= text.len() && occurs_here(&text, &sought, text.len() - sought.len())
}

/// The text in ASCII lower case.
pub fn to_ascii_lowercase(s: &str) -> (r: String)
    ensures
        r@ == ascii_lowercase(s@),
{
    let chars = chars_of(s);
    let mut r = String::new();
    let mut i: usize = 0;
    while i < chars.len()
        invariant
            i <= chars@.len(),
            r@ == ascii_lowercase(chars@.subrange(0, i as int)),
        decreases chars@.len() - i,
    {
        let c = chars[i];
        if 'A' <= c && c <= 'Z' {
            r.push((c as u8 + 32) as char);
        } else {
            r.push(c);
        }
        proof {
            assert(chars@.subrange(0, i + 1) =~= chars@.subrange(0, i as int).push(chars@[i as int]));
            assert(r@ =~= ascii_lowercase(chars@.subrange(0, i + 1)));
        }
        i += 1;
    }
    assert(chars@.subrange(0, chars@.len() as int) =~= chars@);
    r
}

/// Is `s` one of the texts of `list`?
pub fn listed(list: &[String], s: &str) -> (r: bool)
    ensures
        r == texts(list@).contains(s@),
{
    let mut i: usize = 0;
    while i < list.len()
        invariant
            i <= list@.len(),
            forall|k: int| 0 <= k < i ==> list@[k]@ != s@,
        decreases list@.len() - i,
    {
        if same(&list[i], s) {
            assert(texts(list@)[i as int] == s@);
            return true;
        }
        i += 1;
    }
    assert(!texts(list@).contains(s@));
    false
}

/// The decimal notation of `n`.
pub fn decimal_text(n: u128) -> (r: String)
    ensures
        r@ == decimal(n as nat),
    decreases n,
{
    let mut r = String::new();
    if n >= 10 {
        r = decimal_text(n / 10);
    }
    r.push((48 + (n % 10) as u8) as char);
    r
}


/// The value of a decimal digit.
pub open spec fn digit_value(c: char) -> nat {
    (c as u32 - 48) as nat
}

/// Every character is a decimal digit.
pub open spec fn all_digits(s: Seq<char>) -> bool {
    forall|i: int| 0 <= i < s.len() ==> '0' <= #[trigger] s[i] <= '9'
}

/// The number that a row of decimal digits denotes.
pub open spec fn digits_value(s: Seq<char>) -> nat
    decreases s.len(),
{
    if s.len() == 0 {
        0
    } else {
        digits_value(s.drop_last()) * 10 + digit_value(s.last())
    }
}

/// The digits of a number that may have a plus sign.
pub open spec fn unsigned_digits(s: Seq<char>) -> Seq<char> {
    if s.len() > 0 && s[0] == '+' {
        s.skip(1)
    } else {
        s
    }
}

/// The number that a text denotes: decimal digits, after a plus sign or not.
pub open spec fn number(s: Seq<char>) -> Option<nat> {
    let digits = unsigned_digits(s);
    if digits.len() > 0 && all_digits(digits) {
        Some(digits_value(digits))
    } else {
        None
    }
}

/// The number that a text denotes, up to `max`.
pub fn parse_number(s: &str, max: u64) -> (r: Option<u64>)
    ensures
        match r {
            Some(n) => number(s@) == Some(n as nat) && n <= max,
            None => number(s@) is None || number(s@)->0 > max,
        },
{
    let mut chars = chars_of(s);
    if chars.len() > 0 && chars[0] == '+' {
        chars.remove(0);
        assert(chars@ =~= s@.skip(1));
    }
    let ghost digits = unsigned_digits(s@);
    if chars.len() == 0 {
        return None;
    }
    let mut n: u64 = 0;
    let mut big = false;
    let mut i: usize = 0;
    while i < chars.len()
        invariant
            i <= chars@.len(),
            chars@ == digits,
            digits == unsigned_digits(s@),
            forall|k: int| 0 <= k < i ==> '0' <= #[trigger] digits[k] <= '9',
            !big ==> n <= max && digits_value(digits.take(i as int)) == n,
            big ==> digits_value(digits.take(i as int)) > max,
        decreases chars@.len() - i,
    {
        let c = chars[i];
        if c < '0' || c > '9' {
            assert(!all_digits(digits)) by {
                assert(!('0' <= digits[i as int] <= '9'));
            }
            return None;
        }
        let d: u64 = c as u64 - 48;
        proof {
            assert(digits.take(i + 1).drop_last() =~= digits.take(i as int));
        }
        if !big {
            let grown: u128 = n as u128 * 10 + d as u128;
            if grown > max as u128 {
                big = true;
            } else {
                n = grown as u64;
            }
        }
        i += 1;
    }
    assert(digits.take(digits.len() as int) =~= digits);
    if big {
        None
    } else {
        Some(n)
    }
}

/// `r` is the longest beginning of `s` that takes at most `max` bytes.
pub open spec fn longest_prefix(r: Seq<char>, s: Seq<char>, max: int) -> bool {
    &&& r.len() <= s.len()
    &&& r == s.take(r.len() as int)
    &&& encode_utf8(r).len() <= max
    &&& forall|k: int| r.len() < k <= s.len() ==> encode_utf8(#[trigger] s.take(k)).len() > max
}

/// How many of the first `n` characters take at most `max` bytes.
pub open spec fn fitting(s: Seq<char>, max: int, n: int) -> int
    decreases n,
{
    if n <= 0 || encode_utf8(s.take(n)).len() <= max {
        n
    } else {
        fitting(s, max, n - 1)
    }
}

/// The text, cut so that it takes at most `max` bytes.
pub open spec fn truncated(s: Seq<char>, max: int) -> Seq<char> {
    s.take(fitting(s, max, s.len() as int))
}

/// The longest beginning that fits is the cut text.
proof fn longest_prefix_is_truncated(r: Seq<char>, s: Seq<char>, max: int, n: int)
    requires
        longest_prefix(r, s, max),
        r.len() <= n <= s.len(),
    ensures
        fitting(s, max, n) == r.len(),
    decreases n,
{
    if n > r.len() {
        assert(encode_utf8(s.take(n)).len() > max);
        longest_prefix_is_truncated(r, s, max, n - 1);
    }
}

/// A text takes the bytes of its beginning and those of its last character.
proof fn last_char_takes_its_bytes(s: Seq<char>)
    requires
        s.len() > 0,
    ensures
        encode_utf8(s) == encode_utf8(s.drop_last()) + encode_scalar(s.last() as u32),
    decreases s.len(),
{
    if s.len() == 1 {
        assert(s.drop_first() =~= Seq::<char>::empty());
        assert(s.drop_last() =~= Seq::<char>::empty());
        assert(encode_utf8(s.drop_first()) =~= Seq::<u8>::empty());
        assert(encode_utf8(s.drop_last()) =~= Seq::<u8>::empty());
        assert(encode_utf8(s) =~= encode_scalar(s[0] as u32));
    } else {
        last_char_takes_its_bytes(s.drop_first());
        assert(s.drop_first().drop_last() =~= s.drop_last().drop_first());
        assert(encode_utf8(s) =~= encode_utf8(s.drop_last()) + encode_scalar(s.last() as u32));
    }
}

/// A longer beginning takes more bytes.
proof fn prefixes_grow(s: Seq<char>, i: int, k: int)
    requires
        0 <= i <= k <= s.len(),
    ensures
        encode_utf8(s.take(i)).len() <= encode_utf8(s.take(k)).len(),
    decreases k - i,
{
    if i < k {
        prefixes_grow(s, i, k - 1);
        last_char_takes_its_bytes(s.take(k));
        assert(s.take(k).drop_last() =~= s.take(k - 1));
    }
}

/// The longest beginning of the text that takes at most so many bytes. It never
/// splits a character.
pub fn truncate_utf8(value: &str, maximum_bytes: usize) -> (r: &str)
    ensures
        longest_prefix(r@, value@, maximum_bytes as int),
        r@ == truncated(value@, maximum_bytes as int),
{
    if byte_len(value) <= maximum_bytes {
        assert(value@.take(value@.len() as int) =~= value@);
        return value;
    }
    let chars = chars_of(value);
    let n: usize = chars.len();
    let mut used: usize = 0;
    let mut i: usize = 0;
    assert(value@.take(0) =~= Seq::<char>::empty());
    assert(encode_utf8(value@.take(0)) =~= Seq::<u8>::empty());
    while i < n
        invariant
            i <= n,
            n == value@.len(),
            chars@ == value@,
            used == encode_utf8(value@.take(i as int)).len(),
            used <= maximum_bytes,
        decreases n - i,
    {
        let code: u32 = chars[i] as u32;
        let width: usize = if code < 0x80 {
            1
        } else if code < 0x800 {
            2
        } else if code < 0x1_0000 {
            3
        } else {
            4
        };
        proof {
            vstd::utf8::char_is_scalar(value@[i as int]);
            last_char_takes_its_bytes(value@.take(i + 1));
            assert(value@.take(i + 1).drop_last() =~= value@.take(i as int));
            assert(width == encode_scalar(code).len());
        }
        if width > maximum_bytes - used {
            let r = value.substring_char(0, i);
            proof {
                assert(r@ =~= value@.take(i as int));
                assert forall|k: int| r@.len() < k <= value@.len() implies encode_utf8(
                    #[trigger] value@.take(k),
                ).len() > maximum_bytes by {
                    prefixes_grow(value@, i + 1, k);
                }
                longest_prefix_is_truncated(
                    r@,
                    value@,
                    maximum_bytes as int,
                    value@.len() as int,
                );
            }
            return r;
        }
        used += width;
        i += 1;
    }
    assert(value@.take(n as int) =~= value@);
    value
}

/// A text is encoded part by part.
pub proof fn encoding_of_parts(a: Seq<char>, b: Seq<char>)
    ensures
        encode_utf8(a + b) == encode_utf8(a) + encode_utf8(b),
    decreases b.len(),
{
    if b.len() == 0 {
        assert(a + b =~= a);
        assert(encode_utf8(b) =~= Seq::<u8>::empty());
        assert(encode_utf8(a) + encode_utf8(b) =~= encode_utf8(a));
    } else {
        encoding_of_parts(a, b.drop_last());
        last_char_takes_its_bytes(b);
        last_char_takes_its_bytes(a + b);
        assert((a + b).drop_last() =~= a + b.drop_last());
        assert(encode_utf8(a + b) =~= encode_utf8(a) + encode_utf8(b));
    }
}

proof fn skip_white_to(s: Seq<char>, i: int, k: int)
    requires
        0 <= i <= k <= s.len(),
        forall|j: int| i <= j < k ==> white(#[trigger] s[j]),
        k < s.len() ==> !white(s[k]),
    ensures
        skip_white(s, i) == k,
    decreases k - i,
{
    if i < k {
        assert(white(s[i]));
        skip_white_to(s, i + 1, k);
    }
}

proof fn drop_white_to(s: Seq<char>, from: int, j: int, k: int)
    requires
        0 <= from <= k <= j <= s.len(),
        forall|x: int| k <= x < j ==> white(#[trigger] s[x]),
        k > from ==> !white(s[k - 1]),
    ensures
        drop_white(s, from, j) == k,
    decreases j - k,
{
    if k < j {
        assert(white(s[j - 1]));
        drop_white_to(s, from, j - 1, k);
    }
}

/// All characters are white space.
pub open spec fn blank(s: Seq<char>) -> bool {
    forall|i: int| 0 <= i < s.len() ==> white(#[trigger] s[i])
}

/// Trimming takes away the white space at both ends, all of it and nothing else.
pub proof fn trimming_leaves_the_middle(before: Seq<char>, s: Seq<char>, after: Seq<char>)
    requires
        blank(before),
        blank(after),
        s.len() > 0 ==> !white(s[0]) && !white(s.last()),
    ensures
        trimmed(before + s + after) == s,
{
    let all = before + s + after;
    let a = before.len() as int;
    let n = all.len() as int;
    if s.len() > 0 {
        assert(all[a] == s[0]);
        assert(all[a + s.len() - 1] == s.last());
        assert forall|j: int| 0 <= j < a implies white(#[trigger] all[j]) by {
            assert(all[j] == before[j]);
        }
        skip_white_to(all, 0, a);
        assert forall|j: int| a + s.len() <= j < n implies white(#[trigger] all[j]) by {
            assert(all[j] == after[j - a - s.len()]);
        }
        drop_white_to(all, a, n, a + s.len());
    } else {
        assert forall|j: int| 0 <= j < n implies white(#[trigger] all[j]) by {
            if j < a {
                assert(all[j] == before[j]);
            } else {
                assert(all[j] == after[j - a]);
            }
        }
        skip_white_to(all, 0, n);
    }
    assert(trimmed(all) =~= s);
}

/// A number reads back as it was written, with or without a plus sign, and it is
/// written without leading zeros.
pub proof fn numbers_read_back(n: nat)
    ensures
        decimal(n).len() > 0,
        all_digits(decimal(n)),
        digits_value(decimal(n)) == n,
        number(decimal(n)) == Some(n),
        number(seq!['+'] + decimal(n)) == Some(n),
        n > 0 ==> decimal(n)[0] != '0',
    decreases n,
{
    let s = decimal(n);
    if n < 10 {
        assert(s.drop_last() =~= Seq::<char>::empty());
        assert(s.last() == digit_char(n));
        assert(digits_value(s.drop_last()) == 0);
    } else {
        numbers_read_back(n / 10);
        assert(s.drop_last() =~= decimal(n / 10));
        assert(s.last() == digit_char(n % 10));
        assert(s[0] == decimal(n / 10)[0]);
        assert(n == n / 10 * 10 + n % 10);
        assert forall|i: int| 0 <= i < s.len() implies '0' <= #[trigger] s[i] <= '9' by {
            if i < s.len() - 1 {
                assert(s[i] == decimal(n / 10)[i]);
            }
        }
    }
    assert('0' <= s[0] <= '9');
    assert((seq!['+'] + s).skip(1) =~= s);
}

spec fn ten_to(k: nat) -> nat
    decreases k,
{
    if k == 0 {
        1
    } else {
        10 * ten_to((k - 1) as nat)
    }
}

proof fn decimal_is_short(n: nat, k: nat)
    requires
        k > 0,
        n < ten_to(k),
    ensures
        decimal(n).len() <= k,
    decreases k,
{
    if n >= 10 {
        if k == 1 {
            reveal_with_fuel(ten_to, 2);
        }
        decimal_is_short(n / 10, (k - 1) as nat);
    }
}

/// A machine word is written in at most twenty digits.
pub proof fn words_have_at_most_twenty_digits(n: u64)
    ensures
        decimal(n as nat).len() <= 20,
{
    reveal_with_fuel(ten_to, 21);
    decimal_is_short(n as nat, 20);
}

/// What trimming cuts off at either end is white space.
pub proof fn trimming_cuts_off_white_space(s: Seq<char>)
    ensures
        forall|i: int| 0 <= i < skip_white(s, 0) ==> white(#[trigger] s[i]),
        forall|i: int|
            drop_white(s, skip_white(s, 0), s.len() as int) <= i < s.len() ==> white(
                #[trigger] s[i],
            ),
{
    skip_white_passes(s, 0);
    drop_white_passes(s, skip_white(s, 0), s.len() as int);
}

proof fn skip_white_passes(s: Seq<char>, i: int)
    requires
        0 <= i,
    ensures
        forall|k: int| i <= k < skip_white(s, i) ==> white(#[trigger] s[k]),
    decreases s.len() - i,
{
    if i < s.len() && white(s[i]) {
        skip_white_passes(s, i + 1);
    }
}

proof fn drop_white_passes(s: Seq<char>, from: int, j: int)
    ensures
        forall|k: int| drop_white(s, from, j) <= k < j ==> white(#[trigger] s[k]),
    decreases j - from,
{
    if from < j && white(s[j - 1]) {
        drop_white_passes(s, from, j - 1);
    }
}

} // verus!
