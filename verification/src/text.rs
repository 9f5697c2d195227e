//! Text helpers shared by the other modules: numbers as text, ASCII case, prefixes, searching.
use vstd::prelude::*;

verus! {

/// `String::push` appends one character.
pub assume_specification[ String::push ](s: &mut String, c: char)
    ensures
        final(s)@ == old(s)@.push(c),
;

/// `==` on `str` compares the characters.
pub assume_specification[ <str as PartialEq>::eq ](a: &str, b: &str) -> (r: bool)
    ensures
        r == (a@ == b@),
;

// ------------------------------------------------------------------------------ numbers

/// The decimal digits of a number.
pub open spec fn decimal(n: nat) -> Seq<char>
    decreases n,
{
    if n < 10 {
        seq![(48 + n) as char]
    } else {
        decimal(n / 10).push((48 + n % 10) as char)
    }
}

/// A number as `{}` prints it: a minus sign before the digits of a negative one.
pub open spec fn signed_decimal(n: int) -> Seq<char> {
    if n < 0 {
        seq!['-'] + decimal((-n) as nat)
    } else {
        decimal(n as nat)
    }
}

/// One lower-case hexadecimal digit.
pub open spec fn hex_digit(n: nat) -> char {
    if n < 10 {
        (48 + n) as char
    } else {
        (87 + n) as char
    }
}

/// The lowest `width` hexadecimal digits of a number, highest first.
pub open spec fn hex(n: nat, width: nat) -> Seq<char>
    decreases width,
{
    if width == 0 {
        Seq::empty()
    } else {
        hex(n / 16, (width - 1) as nat).push(hex_digit(n % 16))
    }
}

/// The hexadecimal digits of a number without leading zeros (`0` itself is one digit).
pub open spec fn hex_short(n: nat) -> Seq<char>
    decreases n,
{
    if n < 16 {
        seq![hex_digit(n)]
    } else {
        hex_short(n / 16).push(hex_digit(n % 16))
    }
}

fn digit(n: u64) -> (r: char)
    requires
        n < 10,
    ensures
        r == (48 + n) as char,
{
    (48u8 + n as u8) as char
}

/// `n` in decimal.
pub fn decimal_text(n: u64) -> (r: String)
    ensures
        r@ == decimal(n as nat),
    decreases n,
{
    if n < 10 {
        let mut s = String::new();
        s.push(digit(n));
        s
    } else {
        let mut s = decimal_text(n / 10);
        s.push(digit(n % 10));
        s
    }
}

/// `n` in decimal, with its sign.
pub fn signed_text(n: i64) -> (r: String)
    ensures
        r@ == signed_decimal(n as int),
{
    if n >= 0 {
        decimal_text(n as u64)
    } else {
        let magnitude: u64 = if n == i64::MIN { 0x8000_0000_0000_0000 } else { (-n) as u64 };
        let mut s = String::new();
        s.push('-');
        s.append(decimal_text(magnitude).as_str());
        proof {
            assert(s@ =~= seq!['-'] + decimal((-n) as nat));
        }
        s
    }
}

fn hex_char(n: u64) -> (r: char)
    requires
        n < 16,
    ensures
        r == hex_digit(n as nat),
{
    if n < 10 {
        (48u8 + n as u8) as char
    } else {
        (87u8 + n as u8) as char
    }
}

/// The lowest `width` hexadecimal digits of `n` (zero-padded).
pub fn hex_text(n: u64, width: usize) -> (r: String)
    ensures
        r@ == hex(n as nat, width as nat),
    decreases width,
{
    if width == 0 {
        String::new()
    } else {
        let mut s = hex_text(n / 16, width - 1);
        s.push(hex_char(n % 16));
        s
    }
}

/// `n` in hexadecimal without padding.
pub fn hex_short_text(n: u64) -> (r: String)
    ensures
        r@ == hex_short(n as nat),
    decreases n,
{
    if n < 16 {
        let mut s = String::new();
        s.push(hex_char(n));
        s
    } else {
        let mut s = hex_short_text(n / 16);
        s.push(hex_char(n % 16));
        s
    }
}

// ------------------------------------------------------------------------------ characters

/// The characters of a text.
pub fn chars_of(s: &str) -> (r: Vec<char>)
    ensures
        r@ == s@,
{
    let mut out: Vec<char> = Vec::new();
    for c in it: s.chars()
        invariant
            out@ == s@.take(it.index() as int),
            it.seq() == s@,
    {
        out.push(c);
    }
    out
}

/// The text made of `chars[from..to]`.
pub fn text_of(chars: &[char], from: usize, to: usize) -> (r: String)
    requires
        from <= to <= chars@.len(),
    ensures
        r@ == chars@.subrange(from as int, to as int),
{
    let mut out = String::new();
    let mut i: usize = from;
    while i < to
        invariant
            from <= i <= to <= chars@.len(),
            out@ == chars@.subrange(from as int, i as int),
        decreases to - i,
    {
        out.push(chars[i]);
        proof {
            assert(chars@.subrange(from as int, i + 1) =~= chars@.subrange(from as int, i as int).push(chars@[i as int]));
        }
        i = i + 1;
    }
    out
}

/// An ASCII capital becomes its small letter; everything else stays.
pub open spec fn lower_char(c: char) -> char {
    if 'A' <= c && c <= 'Z' {
        (c as u32 + 32) as char
    } else {
        c
    }
}

/// ASCII lower case of a whole text.
pub open spec fn lower(s: Seq<char>) -> Seq<char> {
    s.map_values(|c: char| lower_char(c))
}

/// The ASCII lower case of one character.
pub fn ascii_lower_char(c: char) -> (r: char)
    ensures
        r == lower_char(c),
{
    if 'A' <= c && c <= 'Z' {
        (c as u8 + 32u8) as char
    } else {
        c
    }
}

/// The ASCII lower case of a text.
pub fn ascii_lower(s: &str) -> (r: String)
    ensures
        r@ == lower(s@),
{
    let mut out = String::new();
    for c in it: s.chars()
        invariant
            out@ == lower(s@.take(it.index() as int)),
            it.seq() == s@,
    {
        out.push(ascii_lower_char(c));
        proof {
            assert(lower(s@.take(it.index() + 1)) =~= lower(s@.take(it.index() as int)).push(lower_char(c)));
        }
    }
    proof {
        assert(s@.take(s@.len() as int) =~= s@);
    }
    out
}

/// The two texts have the same characters.
pub fn same_text(a: &str, b: &str) -> (r: bool)
    ensures
        r == (a@ == b@),
{
    *a == *b
}

/// `chars[at..]` starts with `needle`.
pub fn matches_at(chars: &[char], at: usize, needle: &[char]) -> (r: bool)
    ensures
        r == (at + needle@.len() <= chars@.len() && chars@.subrange(at as int, at + needle@.len()) == needle@),
{
    if at > chars.len() || chars.len() - at < needle.len() {
        return false;
    }
    let mut i: usize = 0;
    while i < needle.len()
        invariant
            i <= needle@.len(),
            at + needle@.len() <= chars@.len(),
            chars@.len() <= usize::MAX,
            forall|k: int| 0 <= k < i ==> chars@[at + k] == needle@[k],
        decreases needle@.len() - i,
    {
        if chars[at + i] != needle[i] {
            proof {
                assert(chars@.subrange(at as int, at + needle@.len())[i as int] != needle@[i as int]);
            }
            return false;
        }
        i = i + 1;
    }
    proof {
        assert(chars@.subrange(at as int, at + needle@.len()) =~= needle@);
    }
    true
}

/// `needle` occurs in `s`.
pub open spec fn occurs(s: Seq<char>, needle: Seq<char>) -> bool {
    exists|i: int| #![trigger s.subrange(i, i + needle.len())]
        0 <= i && i + needle.len() <= s.len() && s.subrange(i, i + needle.len()) == needle
}

/// `needle` occurs in `s`.
pub fn contains_text(s: &str, needle: &str) -> (r: bool)
    ensures
        r == occurs(s@, needle@),
{
    let hay = chars_of(s);
    let pin = chars_of(needle);
    if hay.len() < pin.len() {
        return false;
    }
    let mut i: usize = 0;
    while i <= hay.len() - pin.len()
        invariant
            hay@ == s@,
            pin@ == needle@,
            i <= hay@.len() - pin@.len() + 1,
            hay@.len() >= pin@.len(),
            forall|k: int| #![trigger hay@.subrange(k, k + pin@.len())] 0 <= k < i ==> hay@.subrange(k, k + pin@.len()) != pin@,
        decreases hay@.len() - pin@.len() + 1 - i,
    {
        if matches_at(hay.as_slice(), i, pin.as_slice()) {
            return true;
        }
        if i == hay.len() - pin.len() {
            return false;
        }
        i = i + 1;
    }
    false
}

/// `s` starts with `prefix`.
pub fn has_prefix(s: &str, prefix: &str) -> (r: bool)
    ensures
        r == prefix@.is_prefix_of(s@),
{
    let hay = chars_of(s);
    let pin = chars_of(prefix);
    matches_at(hay.as_slice(), 0, pin.as_slice())
}

/// `s` ends with `suffix`.
pub fn has_suffix(s: &str, suffix: &str) -> (r: bool)
    ensures
        r == suffix@.is_suffix_of(s@),
{
    let hay = chars_of(s);
    let pin = chars_of(suffix);
    if hay.len() < pin.len() {
        return false;
    }
    matches_at(hay.as_slice(), hay.len() - pin.len(), pin.as_slice())
}

/// What follows `prefix` in `s`, if `s` starts with it.
pub open spec fn after_prefix(s: Seq<char>, prefix: Seq<char>) -> Option<Seq<char>> {
    if prefix.is_prefix_of(s) {
        Some(s.skip(prefix.len() as int))
    } else {
        None
    }
}

/// What follows `prefix` in `s`, if `s` starts with it.
pub fn strip_text(s: &str, prefix: &str) -> (r: Option<String>)
    ensures
        match r {
            Some(t) => after_prefix(s@, prefix@) == Some(t@),
            None => after_prefix(s@, prefix@) is None,
        },
{
    let hay = chars_of(s);
    let pin = chars_of(prefix);
    if matches_at(hay.as_slice(), 0, pin.as_slice()) {
        let rest = text_of(hay.as_slice(), pin.len(), hay.len());
        proof {
            assert(rest@ =~= s@.skip(prefix@.len() as int));
        }
        Some(rest)
    } else {
        None
    }
}

/// The characters of a text that may be missing.
pub open spec fn opt_view(s: Option<&str>) -> Option<Seq<char>> {
    match s {
        Some(t) => Some(t@),
        None => None,
    }
}

/// A copy of a text.
pub fn copy_text(s: &str) -> (r: String)
    ensures
        r@ == s@,
{
    s.to_owned()
}

/// `a` followed by `b`.
pub fn join2(a: &str, b: &str) -> (r: String)
    ensures
        r@ == a@ + b@,
{
    let mut s = a.to_owned();
    s.append(b);
    s
}

/// `a`, `b` and `c` in a row.
pub fn join3(a: &str, b: &str, c: &str) -> (r: String)
    ensures
        r@ == a@ + b@ + c@,
{
    let mut s = a.to_owned();
    s.append(b);
    s.append(c);
    s
}

/// The characters Unicode calls white space.
pub open spec fn is_white(c: char) -> bool {
    ||| 0x9 <= c as u32 <= 0xD
    ||| c as u32 == 0x20
    ||| c as u32 == 0x85
    ||| c as u32 == 0xA0
    ||| c as u32 == 0x1680
    ||| 0x2000 <= c as u32 <= 0x200A
    ||| c as u32 == 0x2028
    ||| c as u32 == 0x2029
    ||| c as u32 == 0x202F
    ||| c as u32 == 0x205F
    ||| c as u32 == 0x3000
}

/// `c` is white space.
pub fn white(c: char) -> (r: bool)
    ensures
        r == is_white(c),
{
    let n: u32 = c as u32;
    (0x9 <= n && n <= 0xD) || n == 0x20 || n == 0x85 || n == 0xA0 || n == 0x1680 || (0x2000 <= n && n <= 0x200A) || n == 0x2028 || n == 0x2029
        || n == 0x202F || n == 0x205F || n == 0x3000
}

/// A text without the white space at its start.
pub open spec fn trim_start(s: Seq<char>) -> Seq<char>
    decreases s.len(),
{
    if s.len() > 0 && is_white(s[0]) {
        trim_start(s.skip(1))
    } else {
        s
    }
}

/// A text without the white space at its end.
pub open spec fn trim_end(s: Seq<char>) -> Seq<char>
    decreases s.len(),
{
    if s.len() > 0 && is_white(s.last()) {
        trim_end(s.drop_last())
    } else {
        s
    }
}

/// A text without the white space around it.
pub open spec fn trimmed(s: Seq<char>) -> Seq<char> {
    trim_end(trim_start(s))
}

/// A text without the white space around it.
pub fn trim_text(s: &str) -> (r: String)
    ensures
        r@ == trimmed(s@),
{
    let cs = chars_of(s);
    let mut from: usize = 0;
    proof {
        assert(cs@.skip(0) =~= cs@);
    }
    while from < cs.len() && white(cs[from])
        invariant
            from <= cs@.len(),
            cs@ == s@,
            trim_start(cs@.skip(from as int)) == trim_start(cs@),
        decreases cs@.len() - from,
    {
        proof {
            assert(cs@.skip(from as int).skip(1) =~= cs@.skip(from + 1));
            assert(cs@.skip(from as int)[0] == cs@[from as int]);
        }
        from = from + 1;
    }
    proof {
        assert(trim_start(cs@) == cs@.skip(from as int));
    }
    let mut to: usize = cs.len();
    while to > from && white(cs[to - 1])
        invariant
            from <= to <= cs@.len(),
            trim_end(cs@.subrange(from as int, to as int)) == trim_end(cs@.skip(from as int)),
        decreases to,
    {
        proof {
            let sub = cs@.subrange(from as int, to as int);
            assert(sub.drop_last() =~= cs@.subrange(from as int, to - 1));
            assert(sub.last() == cs@[to - 1]);
        }
        to = to - 1;
    }
    proof {
        let sub = cs@.subrange(from as int, to as int);
        if sub.len() > 0 {
            assert(sub.last() == cs@[to - 1]);
        }
        assert(trim_end(sub) == sub);
    }
    text_of(cs.as_slice(), from, to)
}

/// A text without the white space at its start.
pub fn trim_start_text(s: &str) -> (r: String)
    ensures
        r@ == trim_start(s@),
{
    let cs = chars_of(s);
    let mut from: usize = 0;
    proof {
        assert(cs@.skip(0) =~= cs@);
    }
    while from < cs.len() && white(cs[from])
        invariant
            from <= cs@.len(),
            cs@ == s@,
            trim_start(cs@.skip(from as int)) == trim_start(cs@),
        decreases cs@.len() - from,
    {
        proof {
            assert(cs@.skip(from as int).skip(1) =~= cs@.skip(from + 1));
            assert(cs@.skip(from as int)[0] == cs@[from as int]);
        }
        from = from + 1;
    }
    let rest = text_of(cs.as_slice(), from, cs.len());
    proof {
        assert(rest@ =~= cs@.skip(from as int));
    }
    rest
}

// ------------------------------------------------------------------------------ splitting

/// The parts of `s` between the characters `sep`, given that the part in progress began at `start` and
/// everything before `i` was looked at.
pub open spec fn split_from(s: Seq<char>, sep: char, start: int, i: int) -> Seq<Seq<char>>
    decreases s.len() - i,
{
    if i >= s.len() || i < 0 {
        seq![s.subrange(start, s.len() as int)]
    } else if s[i] == sep {
        seq![s.subrange(start, i)] + split_from(s, sep, i + 1, i + 1)
    } else {
        split_from(s, sep, start, i + 1)
    }
}

/// The parts of `s` between the characters `sep`.
pub open spec fn split(s: Seq<char>, sep: char) -> Seq<Seq<char>> {
    split_from(s, sep, 0, 0)
}

/// A vector of texts, each by its view.
pub open spec fn text_views(v: Seq<String>) -> Seq<Seq<char>> {
    v.map_values(|s: String| s@)
}

/// The parts of `cs` between the characters `sep`.
pub fn split_chars(cs: &Vec<char>, sep: char) -> (r: Vec<String>)
    ensures
        text_views(r@) == split(cs@, sep),
{
    let total: usize = cs.len();
    let mut out: Vec<String> = Vec::new();
    let mut start: usize = 0;
    let mut i: usize = 0;
    proof {
        assert(text_views(out@) + split(cs@, sep) =~= split(cs@, sep));
    }
    while i < total
        invariant
            total == cs@.len(),
            start <= i <= total,
            split(cs@, sep) == text_views(out@) + split_from(cs@, sep, start as int, i as int),
        decreases total - i,
    {
        if cs[i] == sep {
            let part = text_of(cs.as_slice(), start, i);
            proof {
                assert(text_views(out@) + (seq![part@] + split_from(cs@, sep, i + 1, i + 1)) =~= text_views(out@.push(part)) + split_from(
                    cs@,
                    sep,
                    i + 1,
                    i + 1,
                ));
            }
            out.push(part);
            start = i + 1;
        }
        i = i + 1;
    }
    let part = text_of(cs.as_slice(), start, total);
    proof {
        assert(text_views(out@) + seq![part@] =~= text_views(out@.push(part)));
    }
    out.push(part);
    out
}

/// `c` occurs in `s`.
pub fn has_char(s: &str, c: char) -> (r: bool)
    ensures
        r == s@.contains(c),
{
    let cs = chars_of(s);
    let mut i: usize = 0;
    while i < cs.len()
        invariant
            i <= cs@.len(),
            cs@ == s@,
            forall|k: int| 0 <= k < i ==> cs@[k] != c,
        decreases cs@.len() - i,
    {
        if cs[i] == c {
            proof {
                assert(s@[i as int] == c);
            }
            return true;
        }
        i = i + 1;
    }
    false
}

/// Where the last `c` in `s` stands, if there is one.
pub open spec fn last_index(s: Seq<char>, c: char) -> Option<int>
    decreases s.len(),
{
    if s.len() == 0 {
        None
    } else if s.last() == c {
        Some(s.len() - 1)
    } else {
        last_index(s.drop_last(), c)
    }
}

/// Where the last `c` stands.
pub fn find_last(cs: &Vec<char>, c: char) -> (r: Option<usize>)
    ensures
        match r {
            Some(i) => last_index(cs@, c) == Some(i as int) && i < cs@.len() && cs@[i as int] == c,
            None => last_index(cs@, c) is None,
        },
        r is Some ==> forall|k: int| r->0 < k < cs@.len() ==> cs@[k] != c,
        r is None ==> !cs@.contains(c),
{
    let mut i: usize = cs.len();
    proof {
        assert(cs@.take(cs@.len() as int) =~= cs@);
    }
    while i > 0
        invariant
            i <= cs@.len(),
            last_index(cs@.take(i as int), c) == last_index(cs@, c),
            forall|k: int| i <= k < cs@.len() ==> cs@[k] != c,
        decreases i,
    {
        let k: usize = i - 1;
        proof {
            assert(cs@.take(i as int).last() == cs@[k as int]);
            assert(cs@.take(i as int).drop_last() =~= cs@.take(k as int));
        }
        if cs[k] == c {
            return Some(k);
        }
        i = k;
    }
    None
}

/// Where the first `c` at or after `from` stands.
pub open spec fn first_index(s: Seq<char>, c: char, from: int) -> Option<int>
    decreases s.len() - from,
{
    if from < 0 || from >= s.len() {
        None
    } else if s[from] == c {
        Some(from)
    } else {
        first_index(s, c, from + 1)
    }
}

/// Where the first `c` stands.
pub fn find_first(cs: &Vec<char>, c: char) -> (r: Option<usize>)
    ensures
        match r {
            Some(i) => first_index(cs@, c, 0) == Some(i as int) && i < cs@.len() && cs@[i as int] == c,
            None => first_index(cs@, c, 0) is None,
        },
{
    let mut i: usize = 0;
    while i < cs.len()
        invariant
            i <= cs@.len(),
            first_index(cs@, c, 0) == first_index(cs@, c, i as int),
        decreases cs@.len() - i,
    {
        if cs[i] == c {
            return Some(i);
        }
        i = i + 1;
    }
    None
}

/// The text from position `i` on, with `with` in place of every `part`, read from the left.
pub open spec fn replaced_from(s: Seq<char>, part: Seq<char>, with: Seq<char>, i: int) -> Seq<char>
    decreases s.len() - i,
{
    if i < 0 || part.len() == 0 || i + part.len() > s.len() {
        s.skip(i)
    } else if s.subrange(i, i + part.len()) == part {
        with + replaced_from(s, part, with, i + part.len())
    } else {
        seq![s[i]] + replaced_from(s, part, with, i + 1)
    }
}

/// The text with `with` in place of every `part`.
pub fn replace_text(s: &str, part: &str, with: &str) -> (r: String)
    requires
        part@.len() > 0,
    ensures
        r@ == replaced_from(s@, part@, with@, 0),
{
    let cs = chars_of(s);
    let needle = chars_of(part);
    let total: usize = cs.len();
    let mut out = String::new();
    let mut i: usize = 0;
    let ghost whole = replaced_from(s@, part@, with@, 0);
    proof {
        assert(out@ + whole =~= whole);
    }
    while needle.len() <= total - i
        invariant
            i <= total,
            total == cs@.len(),
            cs@ == s@,
            needle@ == part@,
            part@.len() > 0,
            whole == out@ + replaced_from(s@, part@, with@, i as int),
        decreases total - i,
    {
        let ghost before = out@;
        if matches_at(cs.as_slice(), i, needle.as_slice()) {
            out.append(with);
            proof {
                assert(before + (with@ + replaced_from(s@, part@, with@, i + part@.len())) =~= out@ + replaced_from(
                    s@,
                    part@,
                    with@,
                    i + part@.len(),
                ));
            }
            i = i + needle.len();
        } else {
            out.push(cs[i]);
            proof {
                assert(before + (seq![s@[i as int]] + replaced_from(s@, part@, with@, i + 1)) =~= out@ + replaced_from(s@, part@, with@, i + 1));
            }
            i = i + 1;
        }
    }
    let rest = text_of(cs.as_slice(), i, total);
    proof {
        assert(rest@ =~= s@.skip(i as int));
    }
    out.append(rest.as_str());
    out
}

/// Text as `{:?}` quotes it.
pub uninterp spec fn quoted(s: Seq<char>) -> Seq<char>;

/// Calls the `Debug` formatting of `str` (`{:?}`). The result is the name [`quoted`].
#[verifier::external_body]
pub(crate) fn quote(s: &str) -> (r: String)
    ensures
        r@ == quoted(s@),
{
    format!("{s:?}")
}

/// Calls `std::str::from_utf8`: the text that the bytes encode, or `None` where they are not UTF-8.
#[verifier::external_body]
pub(crate) fn utf8_text(bytes: &[u8]) -> (r: Option<String>)
    ensures
        r is Some <==> vstd::utf8::valid_utf8(bytes@),
        r is Some ==> r->0@ == vstd::utf8::decode_utf8(bytes@),
{
    std::str::from_utf8(bytes).ok().map(|s| s.to_string())
}

// ------------------------------------------------------------------------------ what holds

/// The number that a text of decimal digits stands for.
pub open spec fn decimal_value(s: Seq<char>) -> int
    decreases s.len(),
{
    if s.len() == 0 {
        0
    } else {
        decimal_value(s.drop_last()) * 10 + (s.last() as int - '0' as int)
    }
}

/// A number in decimal is made of digits, without leading zeros, and reads back as the number.
pub proof fn decimal_reads_back(n: nat)
    ensures
        decimal_value(decimal(n)) == n,
        decimal(n).len() > 0,
        n > 0 ==> decimal(n)[0] != '0',
        forall|i: int| 0 <= i < decimal(n).len() ==> '0' <= #[trigger] decimal(n)[i] <= '9',
    decreases n,
{
    let d = decimal(n);
    if n < 10 {
        assert(d.drop_last() =~= Seq::<char>::empty());
        assert(decimal_value(d.drop_last()) == 0);
        assert(d.last() as int == 48 + n);
    } else {
        decimal_reads_back(n / 10);
        assert(d.drop_last() =~= decimal(n / 10));
        assert(d.last() as int == 48 + n % 10);
        assert(d[0] == decimal(n / 10)[0]);
    }
}

/// A number with its sign: a minus before the digits of a negative one, and nothing else before them.
pub proof fn a_sign_stands_before_the_digits(n: int)
    ensures
        n < 0 ==> signed_decimal(n)[0] == '-' && decimal_value(signed_decimal(n).skip(1)) == -n,
        n >= 0 ==> decimal_value(signed_decimal(n)) == n && '0' <= signed_decimal(n)[0] <= '9',
{
    if n < 0 {
        decimal_reads_back((-n) as nat);
        assert(signed_decimal(n).skip(1) =~= decimal((-n) as nat));
    } else {
        decimal_reads_back(n as nat);
    }
}

/// The value of a hexadecimal digit.
pub open spec fn hex_value(c: char) -> int {
    if '0' <= c <= '9' {
        c as int - '0' as int
    } else {
        c as int - 'a' as int + 10
    }
}

/// The number that a text of hexadecimal digits stands for.
pub open spec fn hex_number(s: Seq<char>) -> int
    decreases s.len(),
{
    if s.len() == 0 {
        0
    } else {
        hex_number(s.drop_last()) * 16 + hex_value(s.last())
    }
}

/// A character is a digit or one of the letters `a` to `f`.
pub open spec fn is_hex(c: char) -> bool {
    '0' <= c <= '9' || 'a' <= c <= 'f'
}

/// A number in hexadecimal has as many digits as were asked for and reads back as the number, as far as it
/// fits them; without padding it has no leading zeros.
pub proof fn hex_reads_back(n: nat, width: nat)
    ensures
        hex(n, width).len() == width,
        forall|i: int| 0 <= i < width ==> is_hex(#[trigger] hex(n, width)[i]),
        n < vstd::arithmetic::power::pow(16, width) ==> hex_number(hex(n, width)) == n,
    decreases width,
{
    vstd::arithmetic::power::lemma_pow0(16);
    if width > 0 {
        let h = hex(n, width);
        let shorter = (width - 1) as nat;
        hex_reads_back(n / 16, shorter);
        assert(h.drop_last() =~= hex(n / 16, shorter));
        assert(hex_value(h.last()) == n % 16 && is_hex(h.last()));
        reveal(vstd::arithmetic::power::pow);
        let p = vstd::arithmetic::power::pow(16, shorter);
        assert(vstd::arithmetic::power::pow(16, width) == 16 * p);
        if n < 16 * p {
            assert(n / 16 < p);
        }
    }
}

/// A number in hexadecimal without padding reads back as the number, and has no leading zero.
pub proof fn hex_short_reads_back(n: nat)
    ensures
        hex_number(hex_short(n)) == n,
        hex_short(n).len() > 0,
        n > 0 ==> hex_short(n)[0] != '0',
        forall|i: int| 0 <= i < hex_short(n).len() ==> is_hex(#[trigger] hex_short(n)[i]),
    decreases n,
{
    let d = hex_short(n);
    if n < 16 {
        assert(d.drop_last() =~= Seq::<char>::empty());
        assert(hex_number(d.drop_last()) == 0);
        assert(hex_value(d.last()) == n && is_hex(d.last()));
    } else {
        hex_short_reads_back(n / 16);
        assert(d.drop_last() =~= hex_short(n / 16));
        assert(hex_value(d.last()) == n % 16 && is_hex(d.last()));
        assert(d[0] == hex_short(n / 16)[0]);
    }
}

/// Lower case changes the 26 capitals of ASCII into their small letters, in place, and nothing else.
pub proof fn lower_case_changes_capitals(s: Seq<char>, k: int)
    requires
        0 <= k < s.len(),
    ensures
        lower(s).len() == s.len(),
        'A' <= s[k] <= 'Z' ==> lower(s)[k] as int - 'a' as int == s[k] as int - 'A' as int,
        !('A' <= s[k] <= 'Z') ==> lower(s)[k] == s[k],
        lower(lower(s)) == lower(s),
{
    assert(lower(lower(s)) =~= lower(s));
}

/// The last position of a character is one where it stands, and it stands nowhere after it.
pub proof fn the_last_position_is_the_last(s: Seq<char>, c: char)
    ensures
        match last_index(s, c) {
            Some(i) => 0 <= i < s.len() && s[i] == c && forall|k: int| i < k < s.len() ==> #[trigger] s[k] != c,
            None => !s.contains(c),
        },
    decreases s.len(),
{
    if s.len() > 0 && s.last() != c {
        let front = s.drop_last();
        the_last_position_is_the_last(front, c);
        match last_index(s, c) {
            Some(i) => {
                assert(s[i] == front[i]);
                assert forall|k: int| i < k < s.len() implies #[trigger] s[k] != c by {
                    if k < front.len() {
                        assert(s[k] == front[k]);
                    }
                }
            },
            None => {
                assert forall|k: int| 0 <= k < s.len() implies #[trigger] s[k] != c by {
                    if k < front.len() {
                        assert(front[k] != c);
                    }
                }
            },
        }
    }
}

/// The first position of a character at or after another one is one where it stands, and it stands nowhere
/// in between.
pub proof fn the_first_position_is_the_first(s: Seq<char>, c: char, from: int)
    requires
        0 <= from,
    ensures
        match first_index(s, c, from) {
            Some(i) => from <= i < s.len() && s[i] == c && forall|k: int| from <= k < i ==> #[trigger] s[k] != c,
            None => forall|k: int| from <= k < s.len() ==> #[trigger] s[k] != c,
        },
    decreases s.len() - from,
{
    if from < s.len() && s[from] != c {
        the_first_position_is_the_first(s, c, from + 1);
    }
}

/// Texts put together again, with `sep` between them.
pub open spec fn joined_by(parts: Seq<Seq<char>>, sep: char) -> Seq<char>
    decreases parts.len(),
{
    if parts.len() == 0 {
        Seq::empty()
    } else if parts.len() == 1 {
        parts[0]
    } else {
        parts[0] + seq![sep] + joined_by(parts.skip(1), sep)
    }
}

proof fn split_part(s: Seq<char>, sep: char, start: int, i: int)
    requires
        0 <= start <= i <= s.len(),
        forall|k: int| start <= k < i ==> #[trigger] s[k] != sep,
    ensures
        split_from(s, sep, start, i).len() > 0,
        forall|n: int| 0 <= n < split_from(s, sep, start, i).len() ==> !(#[trigger] split_from(s, sep, start, i)[n]).contains(sep),
        joined_by(split_from(s, sep, start, i), sep) == s.skip(start),
    decreases s.len() - i,
{
    let all = split_from(s, sep, start, i);
    if i >= s.len() {
        assert(s.subrange(start, s.len() as int) =~= s.skip(start));
    } else if s[i] == sep {
        let rest = split_from(s, sep, i + 1, i + 1);
        split_part(s, sep, i + 1, i + 1);
        assert(all.skip(1) =~= rest);
        assert(s.subrange(start, i) + seq![sep] + s.skip(i + 1) =~= s.skip(start));
        assert forall|n: int| 0 <= n < all.len() implies !(#[trigger] all[n]).contains(sep) by {
            if n > 0 {
                assert(all[n] == rest[n - 1]);
            }
        }
    } else {
        split_part(s, sep, start, i + 1);
    }
}

/// The parts of a text hold no separator, and joined by it they are the text again.
pub proof fn parts_join_back(s: Seq<char>, sep: char)
    ensures
        split(s, sep).len() > 0,
        forall|n: int| 0 <= n < split(s, sep).len() ==> !(#[trigger] split(s, sep)[n]).contains(sep),
        joined_by(split(s, sep), sep) == s,
{
    split_part(s, sep, 0, 0);
    assert(s.skip(0) =~= s);
}

proof fn split_skips(s: Seq<char>, sep: char, start: int, i: int, j: int)
    requires
        0 <= start <= i <= j <= s.len(),
        forall|k: int| i <= k < j ==> #[trigger] s[k] != sep,
    ensures
        split_from(s, sep, start, i) == split_from(s, sep, start, j),
    decreases j - i,
{
    if i < j {
        split_skips(s, sep, start, i + 1, j);
    }
}

proof fn split_shifts(s: Seq<char>, sep: char, by: int, start: int, i: int)
    requires
        0 <= by,
        0 <= start <= i,
        by + i <= s.len(),
    ensures
        split_from(s, sep, by + start, by + i) == split_from(s.skip(by), sep, start, i),
    decreases s.len() - i,
{
    let t = s.skip(by);
    if by + i >= s.len() {
        assert(s.subrange(by + start, s.len() as int) =~= t.subrange(start, t.len() as int));
    } else if s[by + i] == sep {
        split_shifts(s, sep, by, i + 1, i + 1);
        assert(s.subrange(by + start, by + i) =~= t.subrange(start, i));
    } else {
        split_shifts(s, sep, by, start, i + 1);
    }
}

/// A text without separators is its only part; one before a separator is the first part, and the others are
/// those of what follows.
pub proof fn the_first_part_ends_at_the_separator(first: Seq<char>, sep: char, rest: Seq<char>)
    requires
        !first.contains(sep),
    ensures
        split(first, sep) == seq![first],
        split(first + seq![sep] + rest, sep) == seq![first] + split(rest, sep),
{
    let n = first.len() as int;
    assert(forall|k: int| 0 <= k < n ==> #[trigger] first[k] != sep);
    split_skips(first, sep, 0, 0, n);
    assert(first.subrange(0, n) =~= first);
    let s = first + seq![sep] + rest;
    assert forall|k: int| 0 <= k < n implies #[trigger] s[k] != sep by {
        assert(s[k] == first[k]);
    }
    split_skips(s, sep, 0, 0, n);
    assert(s[n] == sep);
    assert(s.subrange(0, n) =~= first);
    split_shifts(s, sep, n + 1, 0, 0);
    assert(s.skip(n + 1) =~= rest);
}

proof fn trim_start_is_a_tail(s: Seq<char>)
    ensures
        trim_start(s).len() <= s.len(),
        trim_start(s) == s.skip(s.len() - trim_start(s).len()),
        trim_start(s).len() > 0 ==> !is_white(trim_start(s)[0]),
        forall|k: int| 0 <= k < s.len() - trim_start(s).len() ==> is_white(#[trigger] s[k]),
    decreases s.len(),
{
    if s.len() > 0 && is_white(s[0]) {
        let t = s.skip(1);
        trim_start_is_a_tail(t);
        let n = s.len() - trim_start(s).len();
        assert(t.skip(n - 1) =~= s.skip(n));
        assert forall|k: int| 0 <= k < n implies is_white(#[trigger] s[k]) by {
            if k > 0 {
                assert(s[k] == t[k - 1]);
            }
        }
    } else {
        assert(s.skip(0) =~= s);
    }
}

proof fn trim_end_is_a_head(s: Seq<char>)
    ensures
        trim_end(s).len() <= s.len(),
        trim_end(s) == s.take(trim_end(s).len() as int),
        trim_end(s).len() > 0 ==> !is_white(trim_end(s).last()),
        forall|k: int| trim_end(s).len() <= k < s.len() ==> is_white(#[trigger] s[k]),
    decreases s.len(),
{
    if s.len() > 0 && is_white(s.last()) {
        let t = s.drop_last();
        trim_end_is_a_head(t);
        let n = trim_end(s).len() as int;
        assert(t.take(n) =~= s.take(n));
        assert forall|k: int| n <= k < s.len() implies is_white(#[trigger] s[k]) by {
            if k < t.len() {
                assert(s[k] == t[k]);
            }
        }
    } else {
        assert(s.take(s.len() as int) =~= s);
    }
}

/// A trimmed text is a stretch of the text with nothing but white space before and after it, and neither
/// begins nor ends with a space, a tab or a line break.
pub proof fn trimming_takes_the_white_space_off(s: Seq<char>)
    ensures
        exists|from: int|
            {
                &&& 0 <= from <= from + trimmed(s).len() <= s.len()
                &&& #[trigger] s.subrange(from, from + trimmed(s).len()) == trimmed(s)
                &&& forall|k: int| 0 <= k < from || from + trimmed(s).len() <= k < s.len() ==> is_white(#[trigger] s[k])
            },
        trimmed(s).len() > 0 ==> !(seq![' ', '\t', '\n', '\r'].contains(trimmed(s)[0])) && !(seq![' ', '\t', '\n', '\r'].contains(
            trimmed(s).last(),
        )),
{
    let t = trim_start(s);
    let u = trim_end(t);
    trim_start_is_a_tail(s);
    trim_end_is_a_head(t);
    let from = s.len() - t.len();
    assert(s.subrange(from, from + trimmed(s).len()) =~= trimmed(s));
    assert forall|k: int| 0 <= k < from || from + trimmed(s).len() <= k < s.len() implies is_white(#[trigger] s[k]) by {
        if k >= from {
            assert(s[k] == t[k - from]);
        }
    }
    assert(0 <= from <= from + trimmed(s).len() <= s.len());
    if u.len() > 0 {
        assert(u[0] == t[0]);
    }
}

/// Texts without the separator that are joined by it are the parts of the result.
pub proof fn joined_texts_split_back(parts: Seq<Seq<char>>, sep: char)
    requires
        parts.len() > 0,
        forall|n: int| 0 <= n < parts.len() ==> !(#[trigger] parts[n]).contains(sep),
    ensures
        split(joined_by(parts, sep), sep) == parts,
    decreases parts.len(),
{
    let first = parts[0];
    assert(!first.contains(sep));
    if parts.len() == 1 {
        the_first_part_ends_at_the_separator(first, sep, Seq::empty());
        assert(seq![first] =~= parts);
    } else {
        let rest = parts.skip(1);
        assert forall|n: int| 0 <= n < rest.len() implies !(#[trigger] rest[n]).contains(sep) by {
            assert(rest[n] == parts[n + 1]);
        }
        joined_texts_split_back(rest, sep);
        the_first_part_ends_at_the_separator(first, sep, joined_by(rest, sep));
        assert(seq![first] + rest =~= parts);
    }
}

/// One more text is joined behind the others.
pub proof fn one_more_is_joined_behind(parts: Seq<Seq<char>>, sep: char, part: Seq<char>)
    requires
        parts.len() > 0,
    ensures
        joined_by(parts.push(part), sep) == joined_by(parts, sep) + seq![sep] + part,
    decreases parts.len(),
{
    let all = parts.push(part);
    if parts.len() == 1 {
        assert(all.skip(1) =~= seq![part]);
        assert(joined_by(all.skip(1), sep) == part);
    } else {
        let rest = parts.skip(1);
        one_more_is_joined_behind(rest, sep, part);
        assert(all.skip(1) =~= rest.push(part));
        assert(joined_by(all, sep) =~= joined_by(parts, sep) + seq![sep] + part);
    }
}

/// The text begins with `head`, whatever the case of its letters (`head` is written in small ones).
pub open spec fn begins_in(text: Seq<char>, head: Seq<char>) -> bool {
    &&& text.len() >= head.len()
    &&& forall|k: int|
        0 <= k < head.len() ==> #[trigger] text[k] == head[k] || ('a' <= head[k] <= 'z' && text[k] as int == head[k] as int - 32)
}

/// A text in small letters begins with `head` exactly if the text does, whatever its case.
pub proof fn lower_case_shows_the_beginning(text: Seq<char>, head: Seq<char>)
    requires
        forall|k: int| 0 <= k < head.len() ==> !('A' <= #[trigger] head[k] <= 'Z'),
    ensures
        head.is_prefix_of(lower(text)) == begins_in(text, head),
{
    if head.is_prefix_of(lower(text)) {
        assert forall|k: int| 0 <= k < head.len() implies #[trigger] text[k] == head[k] || ('a' <= head[k] <= 'z' && text[k] as int == head[k] as int - 32) by {
            assert(lower(text).subrange(0, head.len() as int)[k] == lower_char(text[k]));
            assert(head[k] == lower(text)[k]);
        }
    }
    if begins_in(text, head) {
        assert forall|k: int| 0 <= k < head.len() implies #[trigger] head[k] == lower(text)[k] by {
            assert(text[k] == head[k] || ('a' <= head[k] <= 'z' && text[k] as int == head[k] as int - 32));
        }
        assert(head =~= lower(text).subrange(0, head.len() as int));
    }
}

/// Where a part stands once in a text, what replaces it stands there instead; a text without it stays.
pub proof fn a_part_is_replaced_in_place(before: Seq<char>, part: Seq<char>, after: Seq<char>, with: Seq<char>)
    requires
        part.len() > 0,
        !before.contains(part[0]),
        !after.contains(part[0]),
    ensures
        replaced_from(before, part, with, 0) == before,
        replaced_from(before + part + after, part, with, 0) == before + with + after,
{
    nothing_to_replace(before, part, with, 0);
    assert(before.skip(0) =~= before);
    replaced_at(before, part, after, with, 0);
    let s = before + part + after;
    assert(before.skip(0) + with + after =~= before + with + after);
}

proof fn nothing_to_replace(s: Seq<char>, part: Seq<char>, with: Seq<char>, i: int)
    requires
        0 <= i <= s.len(),
        part.len() > 0,
        forall|k: int| i <= k < s.len() ==> #[trigger] s[k] != part[0],
    ensures
        replaced_from(s, part, with, i) == s.skip(i),
    decreases s.len() - i,
{
    if i + part.len() <= s.len() {
        if s.subrange(i, i + part.len()) == part {
            assert(s.subrange(i, i + part.len())[0] == s[i]);
        }
        nothing_to_replace(s, part, with, i + 1);
        assert(seq![s[i]] + s.skip(i + 1) =~= s.skip(i));
    }
}

proof fn replaced_at(before: Seq<char>, part: Seq<char>, after: Seq<char>, with: Seq<char>, i: int)
    requires
        0 <= i <= before.len(),
        part.len() > 0,
        !before.contains(part[0]),
        !after.contains(part[0]),
    ensures
        replaced_from(before + part + after, part, with, i) == before.skip(i) + with + after,
    decreases before.len() - i,
{
    let s = before + part + after;
    let n = before.len() as int;
    if i == n {
        assert(s.subrange(n, n + part.len()) =~= part);
        let end = n + part.len();
        assert forall|k: int| end <= k < s.len() implies #[trigger] s[k] != part[0] by {
            assert(s[k] == after[k - end]);
        }
        nothing_to_replace(s, part, with, end);
        assert(s.skip(end) =~= after);
        assert(before.skip(n) + with + after =~= with + after);
    } else {
        assert(s[i] == before[i]);
        if s.subrange(i, i + part.len()) == part {
            assert(s.subrange(i, i + part.len())[0] == s[i]);
        }
        replaced_at(before, part, after, with, i + 1);
        assert(seq![s[i]] + (before.skip(i + 1) + with + after) =~= before.skip(i) + with + after);
    }
}

/// A member that is written behind others, with a comma before its name, is one more part of the object.
pub proof fn one_more_member_follows(head: Seq<char>, parts: Seq<Seq<char>>, named: Seq<char>, name: Seq<char>, value: Seq<char>)
    requires
        parts.len() > 0,
        head == "{"@ + joined_by(parts, ','),
        named == seq![','] + name,
    ensures
        head + named + value == "{"@ + joined_by(parts.push(name + value), ','),
{
    one_more_is_joined_behind(parts, ',', name + value);
    assert(head + named + value =~= "{"@ + joined_by(parts.push(name + value), ','));
}

/// What follows a beginning is the rest of the text, and only where it has that beginning.
pub proof fn what_follows_is_the_rest(prefix: Seq<char>, rest: Seq<char>, s: Seq<char>)
    ensures
        after_prefix(prefix + rest, prefix) == Some(rest),
        after_prefix(s, prefix) is Some ==> s == prefix + after_prefix(s, prefix)->0,
{
    let all = prefix + rest;
    assert(all.take(prefix.len() as int) =~= prefix);
    assert(all.skip(prefix.len() as int) =~= rest);
    if prefix.is_prefix_of(s) {
        assert(s =~= prefix + s.skip(prefix.len() as int));
    }
}

} // verus!
