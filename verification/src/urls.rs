//! Pieces of URLs that several parts of the shell need.
use crate::text::{ascii_lower, chars_of, lower, text_of};
use vstd::prelude::*;
use vstd::utf8::encode_utf8;

verus! {

// ------------------------------------------------------------------------------ schemes

pub open spec fn is_letter(c: char) -> bool {
    ('a' <= c && c <= 'z') || ('A' <= c && c <= 'Z')
}

/// A character of a scheme after the first.
pub open spec fn in_scheme(c: char) -> bool {
    is_letter(c) || ('0' <= c && c <= '9') || c == '+' || c == '-' || c == '.'
}

/// Where the scheme of a URL ends: at the first character from `i` on that cannot be part of one.
pub open spec fn scheme_end(s: Seq<char>, i: int) -> int
    decreases s.len() - i,
{
    if i < 0 || i >= s.len() || !in_scheme(s[i]) {
        i
    } else {
        scheme_end(s, i + 1)
    }
}

/// The scheme that a text begins with, in lower case: a letter, then letters, digits, `+`, `-` and `.`,
/// then a colon.
pub open spec fn scheme_of(s: Seq<char>) -> Option<Seq<char>> {
    let end = scheme_end(s, 0);
    if s.len() > 0 && is_letter(s[0]) && end < s.len() && s[end] == ':' {
        Some(lower(s.take(end)))
    } else {
        None
    }
}

/// The end of a scheme lies within the text.
pub proof fn scheme_fits(s: Seq<char>, i: int)
    requires
        0 <= i <= s.len(),
    ensures
        i <= scheme_end(s, i) <= s.len(),
    decreases s.len() - i,
{
    if i < s.len() && in_scheme(s[i]) {
        scheme_fits(s, i + 1);
    }
}

pub fn letter(c: char) -> (r: bool)
    ensures
        r == is_letter(c),
{
    ('a' <= c && c <= 'z') || ('A' <= c && c <= 'Z')
}

/// The scheme that a text begins with, in lower case.
pub fn scheme(s: &str) -> (r: Option<String>)
    ensures
        match r {
            Some(t) => scheme_of(s@) == Some(t@),
            None => scheme_of(s@) is None,
        },
{
    let cs = chars_of(s);
    if cs.len() == 0 || !letter(cs[0]) {
        return None;
    }
    let mut end: usize = 0;
    while end < cs.len() && (letter(cs[end]) || ('0' <= cs[end] && cs[end] <= '9') || cs[end] == '+' || cs[end] == '-' || cs[end] == '.')
        invariant
            end <= cs@.len(),
            scheme_end(cs@, 0) == scheme_end(cs@, end as int),
        decreases cs@.len() - end,
    {
        end = end + 1;
    }
    if end < cs.len() && cs[end] == ':' {
        let head = text_of(cs.as_slice(), 0, end);
        proof {
            assert(head@ =~= s@.take(end as int));
        }
        Some(ascii_lower(head.as_str()))
    } else {
        None
    }
}

// ------------------------------------------------------------------------------ percent encoding

/// A byte that a URL component keeps: a letter, a digit or one of `-_.!~*'()`.
pub open spec fn is_kept(b: u8) -> bool {
    ||| 0x41 <= b <= 0x5A
    ||| 0x61 <= b <= 0x7A
    ||| 0x30 <= b <= 0x39
    ||| b == 0x2D
    ||| b == 0x5F
    ||| b == 0x2E
    ||| b == 0x21
    ||| b == 0x7E
    ||| b == 0x2A
    ||| b == 0x27
    ||| b == 0x28
    ||| b == 0x29
}

/// An upper-case hexadecimal digit.
pub open spec fn upper_hex(n: int) -> char {
    if n < 10 { (0x30 + n) as char } else { (0x37 + n) as char }
}

/// The bytes as a URL component: those that are not kept as a percent sign and two digits.
pub open spec fn component(bytes: Seq<u8>) -> Seq<char>
    decreases bytes.len(),
{
    if bytes.len() == 0 {
        Seq::empty()
    } else {
        let b = bytes.last();
        component(bytes.drop_last()) + (if is_kept(b) {
            seq![b as char]
        } else {
            seq!['%', upper_hex(b as int / 16), upper_hex(b as int % 16)]
        })
    }
}

/// A text as a URL component.
pub open spec fn uri_component(s: Seq<char>) -> Seq<char> {
    component(encode_utf8(s))
}

fn upper_digit(n: u8) -> (r: char)
    requires
        n < 16,
    ensures
        r == upper_hex(n as int),
{
    if n < 10 { (0x30 + n) as char } else { (0x37 + n) as char }
}

fn kept(b: u8) -> (r: bool)
    ensures
        r == is_kept(b),
{
    (0x41 <= b && b <= 0x5A) || (0x61 <= b && b <= 0x7A) || (0x30 <= b && b <= 0x39) || b == 0x2D || b == 0x5F || b == 0x2E || b == 0x21
        || b == 0x7E || b == 0x2A || b == 0x27 || b == 0x28 || b == 0x29
}

/// A text as a URL component (what `encodeURIComponent` gives): every byte of its UTF-8 form that is
/// neither a letter, a digit nor one of `-_.!~*'()` becomes a percent sign and two upper-case digits.
pub fn encode_uri_component(s: &str) -> (r: String)
    ensures
        r@ == uri_component(s@),
{
    let bytes = s.as_bytes();
    let mut out = String::new();
    let mut i: usize = 0;
    proof {
        assert(bytes@.take(0) =~= Seq::<u8>::empty());
    }
    while i < bytes.len()
        invariant
            i <= bytes@.len(),
            bytes@ == encode_utf8(s@),
            out@ == component(bytes@.take(i as int)),
        decreases bytes@.len() - i,
    {
        let b: u8 = bytes[i];
        proof {
            assert(bytes@.take(i + 1).drop_last() =~= bytes@.take(i as int));
            assert(bytes@.take(i + 1).last() == b);
        }
        let ghost before = out@;
        if kept(b) {
            out.push(b as char);
            proof {
                assert(out@ =~= before + seq![b as char]);
            }
        } else {
            out.push('%');
            out.push(upper_digit(b / 16));
            out.push(upper_digit(b % 16));
            proof {
                assert(out@ =~= before + seq!['%', upper_hex(b as int / 16), upper_hex(b as int % 16)]);
            }
        }
        i = i + 1;
    }
    proof {
        assert(bytes@.take(i as int) =~= bytes@);
    }
    out
}

// ------------------------------------------------------------------------------ what holds

/// What stands for a byte in a URL component.
pub open spec fn is_piece(b: u8, piece: Seq<char>) -> bool {
    if ('a' as u8 <= b <= 'z' as u8) || ('A' as u8 <= b <= 'Z' as u8) || ('0' as u8 <= b <= '9' as u8) || seq!['-', '_', '.', '!', '~', '*', '\'', '(', ')'].contains(
        b as char,
    ) {
        piece == seq![b as char]
    } else {
        &&& piece.len() == 3
        &&& piece[0] == '%'
        &&& digit_value(piece[1]) is Some && digit_value(piece[2]) is Some
        &&& digit_value(piece[1])->0 * 16 + digit_value(piece[2])->0 == b
    }
}

/// The value of a hexadecimal digit with capital letters.
pub open spec fn digit_value(c: char) -> Option<int> {
    if '0' <= c <= '9' {
        Some(c as int - '0' as int)
    } else if 'A' <= c <= 'F' {
        Some(c as int - 'A' as int + 10)
    } else {
        None
    }
}

/// A URL component is made of its bytes one after the other: each letter, digit and one of `-_.!~*'()` as it
/// is, each other byte as a percent sign and the two digits of its value.
pub proof fn a_component_stands_for_its_bytes(bytes: Seq<u8>, b: u8)
    ensures
        component(Seq::empty()) == Seq::<char>::empty(),
        exists|piece: Seq<char>| #[trigger] is_piece(b, piece) && component(bytes.push(b)) == component(bytes) + piece,
{
    assert(bytes.push(b).drop_last() =~= bytes);
    let piece = if is_kept(b) { seq![b as char] } else { seq!['%', upper_hex(b as int / 16), upper_hex(b as int % 16)] };
    let kept = seq!['-', '_', '.', '!', '~', '*', '\'', '(', ')'];
    assert(kept[0] == '-' && kept[1] == '_' && kept[2] == '.' && kept[3] == '!' && kept[4] == '~' && kept[5] == '*' && kept[6] == '\'' && kept[7] == '('
        && kept[8] == ')');
    assert(kept.contains(b as char) ==> is_kept(b));
    if b == 0x2D || b == 0x5F || b == 0x2E || b == 0x21 || b == 0x7E || b == 0x2A || b == 0x27 || b == 0x28 || b == 0x29 {
        assert(b as char == kept[0] || b as char == kept[1] || b as char == kept[2] || b as char == kept[3] || b as char == kept[4] || b as char == kept[5]
            || b as char == kept[6] || b as char == kept[7] || b as char == kept[8]);
    }
    assert(is_piece(b, piece));
}

/// A URL component holds nothing that has a meaning in a URL.
pub proof fn a_component_is_inert(bytes: Seq<u8>)
    ensures
        forall|k: int|
            0 <= k < component(bytes).len() ==> {
                let c = #[trigger] component(bytes)[k];
                &&& 0x21 <= c as int <= 0x7E
                &&& c != '&' && c != '=' && c != '?' && c != '#' && c != '/' && c != ':' && c != '+' && c != '"' && c != ' '
            },
    decreases bytes.len(),
{
    if bytes.len() > 0 {
        let front = bytes.drop_last();
        a_component_is_inert(front);
        let b = bytes.last();
        let n = component(front).len() as int;
        assert forall|k: int| 0 <= k < component(bytes).len() implies {
            let c = #[trigger] component(bytes)[k];
            &&& 0x21 <= c as int <= 0x7E
            &&& c != '&' && c != '=' && c != '?' && c != '#' && c != '/' && c != ':' && c != '+' && c != '"' && c != ' '
        } by {
            if k < n {
                assert(component(bytes)[k] == component(front)[k]);
            } else if !is_kept(b) {
                assert(component(bytes)[n] == '%');
                assert(component(bytes)[n + 1] == upper_hex(b as int / 16));
                assert(component(bytes)[n + 2] == upper_hex(b as int % 16));
            } else {
                assert(component(bytes)[n] == b as char);
            }
        }
    }
}

/// A scheme is what stands before the first colon, in small letters, if that is a letter followed by
/// letters, digits, `+`, `-` and `.`.
pub proof fn a_scheme_stands_before_the_colon(name: Seq<char>, rest: Seq<char>)
    requires
        name.len() > 0,
        'a' <= name[0] <= 'z' || 'A' <= name[0] <= 'Z',
        forall|k: int|
            0 <= k < name.len() ==> 'a' <= #[trigger] name[k] <= 'z' || 'A' <= name[k] <= 'Z' || '0' <= name[k] <= '9' || name[k] == '+' || name[k] == '-'
                || name[k] == '.',
    ensures
        scheme_of(name + seq![':'] + rest) == Some(lower(name)),
        scheme_of(name) is None,
        scheme_of(name + seq!['/'] + rest) is None,
        scheme_of(seq![':'] + rest) is None,
{
    let n = name.len() as int;
    let s = name + seq![':'] + rest;
    scheme_runs(s, 0, n);
    assert(s[n] == ':');
    assert(s.take(n) =~= name);
    scheme_runs(name, 0, n);
    let t = name + seq!['/'] + rest;
    scheme_runs(t, 0, n);
    assert(t[n] == '/');
    assert((seq![':'] + rest)[0] == ':');
}

proof fn scheme_runs(s: Seq<char>, i: int, n: int)
    requires
        0 <= i <= n <= s.len(),
        forall|k: int| i <= k < n ==> in_scheme(#[trigger] s[k]),
        n < s.len() ==> !in_scheme(s[n]),
    ensures
        scheme_end(s, i) == n,
    decreases n - i,
{
    if i < n {
        scheme_runs(s, i + 1, n);
    }
}

} // verus!
