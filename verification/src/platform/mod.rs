//! The operating system, as far as it takes deciding: the calls themselves are made outside.
//!
//! Window handles are plain numbers, so that nothing here needs a type of the system.
use crate::text::{
    ascii_lower, chars_of, copy_text, decimal, decimal_text, find_last, has_suffix, join2, last_index, lower, same_text, text_of,
    the_last_position_is_the_last,
};
use vstd::prelude::*;

pub mod fallback;
pub mod hidden_windows;
pub mod mac;
pub mod mac_bundle;
pub mod win;

verus! {

/// The mouse cursor as the sidebar hover reveal polls it. Positions in physical screen pixels.
#[derive(Debug, Clone, Copy, PartialEq, Eq, Structural)]
pub struct CursorSample {
    pub x: i32,
    pub y: i32,
    /// Top-left of the window's client area.
    pub client_left: i32,
    pub client_top: i32,
    /// The top-level window under the cursor is ours.
    pub over_window: bool,
    /// The cursor is over a top-level window owned by ours (select list, menu).
    pub owned_popup: bool,
    /// Left, right or middle button held.
    pub buttons: bool,
    /// A button was pressed since the previous sample.
    pub clicked: bool,
}

/// The most preferred language of the system (`en-US`), or empty where it names none.
pub fn os_ui_locale(languages: &Vec<String>) -> (r: String)
    ensures
        r@ == (if languages@.len() > 0 { languages@[0]@ } else { Seq::empty() }),
{
    if languages.len() > 0 {
        copy_text(languages[0].as_str())
    } else {
        String::new()
    }
}

// ------------------------------------------------------------------------------ unique names

/// `s` ends with `extension`, and is more than that.
pub open spec fn ends_with_more(s: Seq<char>, extension: Seq<char>) -> bool {
    extension.is_suffix_of(s) && s.len() > extension.len()
}

/// How long the extension of two parts at the end of a lower-case name is (0: there is none).
pub open spec fn double_extension(s: Seq<char>) -> int {
    if ends_with_more(s, ".tar.gz"@) {
        7
    } else if ends_with_more(s, ".tar.bz2"@) {
        8
    } else if ends_with_more(s, ".tar.xz"@) {
        7
    } else if ends_with_more(s, ".tar.zst"@) {
        8
    } else if ends_with_more(s, ".user.js"@) {
        8
    } else {
        0
    }
}

/// Where the extension of a name begins: an extension of two parts stays together, and a dot at the
/// start begins none.
pub open spec fn stem_length(name: Seq<char>) -> int {
    let double = double_extension(lower(name));
    if double > 0 {
        name.len() - double
    } else {
        match last_index(name, '.') {
            Some(i) if i > 0 => i,
            _ => name.len() as int,
        }
    }
}

/// The name with a number before its extension; the number 0 is the name itself.
pub open spec fn numbered(name: Seq<char>, n: nat) -> Seq<char> {
    if n == 0 {
        name
    } else {
        name.take(stem_length(name)) + " ("@ + decimal(n) + ")"@ + name.skip(stem_length(name))
    }
}

/// A list of texts has this one.
pub open spec fn listed(texts: Seq<String>, text: Seq<char>) -> bool {
    exists|i: int| 0 <= i < texts.len() && (#[trigger] texts[i])@ == text
}

/// The number is free, and none before it is.
pub open spec fn is_first_free(existing: Seq<String>, name: Seq<char>, n: nat) -> bool {
    &&& !listed(existing, numbered(name, n))
    &&& forall|m: nat| m < n ==> listed(existing, #[trigger] numbered(name, m))
}

fn ends_with_extension(s: &str, extension: &str) -> (r: bool)
    ensures
        r == ends_with_more(s@, extension@),
{
    let whole: usize = chars_of(s).len();
    let part: usize = chars_of(extension).len();
    has_suffix(s, extension) && whole > part
}

fn extension_length(s: &str) -> (r: usize)
    ensures
        r == double_extension(s@),
        r <= s@.len(),
{
    proof {
        reveal_strlit(".tar.gz");
        reveal_strlit(".tar.bz2");
        reveal_strlit(".tar.xz");
        reveal_strlit(".tar.zst");
        reveal_strlit(".user.js");
    }
    if ends_with_extension(s, ".tar.gz") {
        7
    } else if ends_with_extension(s, ".tar.bz2") {
        8
    } else if ends_with_extension(s, ".tar.xz") {
        7
    } else if ends_with_extension(s, ".tar.zst") {
        8
    } else if ends_with_extension(s, ".user.js") {
        8
    } else {
        0
    }
}

fn is_listed(texts: &Vec<String>, text: &str) -> (r: bool)
    ensures
        r == listed(texts@, text@),
{
    let mut i: usize = 0;
    while i < texts.len()
        invariant
            i <= texts@.len(),
            forall|k: int| 0 <= k < i ==> (#[trigger] texts@[k])@ != text@,
        decreases texts@.len() - i,
    {
        if same_text(texts[i].as_str(), text) {
            return true;
        }
        i = i + 1;
    }
    false
}

/// A digit tells its value.
proof fn digit_value(d: nat)
    requires
        d < 10,
    ensures
        ((48 + d) as char) as int == 48 + d,
{
}

/// Numbers differ in their digits.
proof fn digits_differ(a: nat, b: nat)
    requires
        decimal(a) == decimal(b),
    ensures
        a == b,
    decreases a,
{
    digit_value(a % 10);
    digit_value(b % 10);
    if a >= 10 && b >= 10 {
        assert(decimal(a).drop_last() =~= decimal(a / 10));
        assert(decimal(b).drop_last() =~= decimal(b / 10));
        assert(decimal(a).last() == (48 + a % 10) as char);
        assert(decimal(b).last() == (48 + b % 10) as char);
        digits_differ(a / 10, b / 10);
        assert(a % 10 == b % 10);
    } else if a >= 10 {
        assert(decimal(a / 10).len() > 0);
        assert(decimal(a).len() > 1);
        assert(decimal(b).len() == 1);
    } else if b >= 10 {
        assert(decimal(b / 10).len() > 0);
        assert(decimal(b).len() > 1);
        assert(decimal(a).len() == 1);
    } else {
        assert(decimal(a)[0] == (48 + a) as char);
        assert(decimal(b)[0] == (48 + b) as char);
        digit_value(a);
        digit_value(b);
    }
}

/// Names with different numbers differ.
proof fn numbers_tell_apart(name: Seq<char>, a: nat, b: nat)
    requires
        numbered(name, a) == numbered(name, b),
    ensures
        a == b,
{
    reveal_strlit(" (");
    reveal_strlit(")");
    stem_is_inside(name);
    let stem = stem_length(name);
    let x = numbered(name, a);
    if a > 0 && b > 0 {
        assert(x.len() == name.len() + 3 + decimal(a).len());
        assert(x.len() == name.len() + 3 + decimal(b).len());
        assert(x.subrange(stem + 2, stem + 2 + decimal(a).len()) =~= decimal(a));
        assert(x.subrange(stem + 2, stem + 2 + decimal(b).len()) =~= decimal(b));
        digits_differ(a, b);
    }
}

/// An extension of two parts is no longer than its name.
proof fn double_is_short(s: Seq<char>)
    ensures
        0 <= double_extension(s) <= s.len(),
{
    reveal_strlit(".tar.gz");
    reveal_strlit(".tar.bz2");
    reveal_strlit(".tar.xz");
    reveal_strlit(".tar.zst");
    reveal_strlit(".user.js");
}

/// The last place of a character is one of the text's.
proof fn last_index_is_inside(s: Seq<char>, c: char)
    ensures
        last_index(s, c) is Some ==> 0 <= last_index(s, c)->0 < s.len(),
    decreases s.len(),
{
    if s.len() > 0 && s.last() != c {
        last_index_is_inside(s.drop_last(), c);
    }
}

/// The stem of a name is a part of it.
proof fn stem_is_inside(name: Seq<char>)
    ensures
        0 <= stem_length(name) <= name.len(),
{
    double_is_short(lower(name));
    last_index_is_inside(name, '.');
}

/// Where in the list the name with this number stands.
spec fn place_of(existing: Seq<String>, name: Seq<char>, n: nat) -> int {
    choose|i: int| 0 <= i < existing.len() && (#[trigger] existing[i])@ == numbered(name, n)
}

/// As many numbers as the list is long can be taken, and no more.
proof fn taken_numbers_are_listed(existing: Seq<String>, name: Seq<char>, count: nat)
    requires
        forall|m: nat| m < count ==> listed(existing, #[trigger] numbered(name, m)),
    ensures
        count <= existing.len(),
{
    let places = Seq::new(count, |m: int| place_of(existing, name, m as nat));
    assert forall|m: int| 0 <= m < count implies 0 <= #[trigger] places[m] < existing.len() && existing[places[m]]@ == numbered(name, m as nat) by {
        assert(listed(existing, numbered(name, m as nat)));
    }
    assert forall|a: int, b: int| 0 <= a < count && 0 <= b < count && a != b implies places[a] != places[b] by {
        if places[a] == places[b] {
            numbers_tell_apart(name, a as nat, b as nat);
        }
    }
    places.unique_seq_to_set();
    vstd::set_lib::lemma_int_range(0, existing.len() as int);
    let all = vstd::set_lib::set_int_range(0, existing.len() as int);
    assert forall|p: int| #[trigger] places.to_set().contains(p) implies all.contains(p) by {
        let m = choose|m: int| 0 <= m < places.len() && places[m] == p;
        assert(places[m] == p);
    }
    vstd::set_lib::lemma_len_subset(places.to_set(), all);
}

/// A file name that does not exist yet: `name`, else `stem (n).ext` with the first number that is free.
/// `existing`: the names that exist, as far as they were asked for.
pub fn unique_path(existing: &Vec<String>, name: &str) -> (r: String)
    ensures
        !listed(existing@, r@),
        !listed(existing@, name@) ==> r@ == name@,
        exists|n: nat| #[trigger] is_first_free(existing@, name@, n) && r@ == numbered(name@, n),
{
    if !is_listed(existing, name) {
        proof {
            assert(is_first_free(existing@, name@, 0));
        }
        return copy_text(name);
    }
    let cs = chars_of(name);
    let total: usize = cs.len();
    let lowered = ascii_lower(name);
    let double: usize = extension_length(lowered.as_str());
    let split: usize = if double > 0 {
        total - double
    } else {
        match find_last(&cs, '.') {
            Some(i) => if i > 0 { i } else { total },
            None => total,
        }
    };
    let stem = text_of(cs.as_slice(), 0, split);
    let extension = text_of(cs.as_slice(), split, total);
    let known: u64 = existing.len() as u64;
    let mut n: u64 = 1;
    proof {
        assert(stem@ =~= name@.take(stem_length(name@)));
        assert(extension@ =~= name@.skip(stem_length(name@)));
        assert(numbered(name@, 0) == name@);
        taken_numbers_are_listed(existing@, name@, 1);
    }
    loop
        invariant
            1 <= n,
            listed(existing@, name@),
            known == existing@.len(),
            n <= known,
            forall|m: nat| m < n ==> listed(existing@, #[trigger] numbered(name@, m)),
            stem@ == name@.take(stem_length(name@)),
            extension@ == name@.skip(stem_length(name@)),
        decreases known - n,
    {
        let mut candidate = join2(stem.as_str(), " (");
        candidate.append(decimal_text(n).as_str());
        candidate.append(")");
        candidate.append(extension.as_str());
        proof {
            assert(candidate@ =~= numbered(name@, n as nat));
        }
        if !is_listed(existing, candidate.as_str()) {
            proof {
                assert(is_first_free(existing@, name@, n as nat));
            }
            return candidate;
        }
        proof {
            taken_numbers_are_listed(existing@, name@, (n + 1) as nat);
        }
        n = n + 1;
    }
}

/// Some number is always free, whatever exists, and only one is the first.
pub proof fn a_unique_name_is_free(existing: Seq<String>, name: Seq<char>)
    ensures
        exists|n: nat| n <= existing.len() && #[trigger] is_first_free(existing, name, n),
        forall|a: nat, b: nat| #[trigger] is_first_free(existing, name, a) && #[trigger] is_first_free(existing, name, b) ==> a == b,
{
    first_free_after(existing, name, 0);
}

/// While all numbers before `n` are taken, one from `n` on is the first that is free.
proof fn first_free_after(existing: Seq<String>, name: Seq<char>, n: nat)
    requires
        forall|m: nat| m < n ==> listed(existing, #[trigger] numbered(name, m)),
    ensures
        exists|k: nat| k <= existing.len() && #[trigger] is_first_free(existing, name, k),
    decreases existing.len() + 1 - n,
{
    taken_numbers_are_listed(existing, name, n);
    if listed(existing, numbered(name, n)) {
        first_free_after(existing, name, n + 1);
    } else {
        assert(is_first_free(existing, name, n));
    }
}

proof fn no_double(name: Seq<char>, extension: Seq<char>, k: int)
    requires
        0 <= k < extension.len(),
        k > 0,
        extension[0] == '.',
        extension[k] == '.',
        forall|i: int, j: int| 0 <= i < j < name.len() ==> !(#[trigger] name[i] == '.' && #[trigger] name[j] == '.'),
    ensures
        !ends_with_more(lower(name), extension),
{
    if ends_with_more(lower(name), extension) {
        let s = lower(name);
        let from = s.len() - extension.len();
        assert(extension =~= s.subrange(from, s.len() as int));
        assert(s.subrange(from, s.len() as int)[0] == s[from] && s.subrange(from, s.len() as int)[k] == s[from + k]);
        assert(s[from] == '.' && s[from + k] == '.');
        assert(name[from] == '.' && name[from + k] == '.');
    }
}

/// The number of a name stands in parentheses before its extension; a name without one, or with nothing
/// before its only dot, has it at the end.
pub proof fn a_number_stands_before_the_extension(stem: Seq<char>, extension: Seq<char>, n: nat)
    requires
        n > 0,
        stem.len() > 0,
        !stem.contains('.'),
        !extension.contains('.'),
    ensures
        numbered(stem + seq!['.'] + extension, n) == stem + " ("@ + decimal(n) + ")"@ + seq!['.'] + extension,
        numbered(stem, n) == stem + " ("@ + decimal(n) + ")"@,
        numbered(seq!['.'] + stem, n) == seq!['.'] + stem + " ("@ + decimal(n) + ")"@,
        numbered(stem + seq!['.'] + extension, 0) == stem + seq!['.'] + extension,
{
    reveal_strlit(".tar.gz");
    reveal_strlit(".tar.bz2");
    reveal_strlit(".tar.xz");
    reveal_strlit(".tar.zst");
    reveal_strlit(".user.js");
    let name = stem + seq!['.'] + extension;
    let k = stem.len() as int;
    assert forall|i: int| 0 <= i < name.len() && #[trigger] name[i] == '.' implies i == k by {
        if i < k {
            assert(stem[i] == '.');
        } else if i > k {
            assert(extension[i - k - 1] == '.');
        }
    }
    no_double(name, ".tar.gz"@, 4);
    no_double(name, ".tar.bz2"@, 4);
    no_double(name, ".tar.xz"@, 4);
    no_double(name, ".tar.zst"@, 4);
    no_double(name, ".user.js"@, 5);
    the_last_position_is_the_last(name, '.');
    assert(name[k] == '.');
    assert(last_index(name, '.') == Some(k)) by {
        if last_index(name, '.') is None {
            assert(name.contains('.'));
        }
    }
    assert(name.take(k) =~= stem);
    assert(name.skip(k) =~= seq!['.'] + extension);
    assert(stem + " ("@ + decimal(n) + ")"@ + (seq!['.'] + extension) =~= stem + " ("@ + decimal(n) + ")"@ + seq!['.'] + extension);
    no_double(stem, ".tar.gz"@, 4);
    no_double(stem, ".tar.bz2"@, 4);
    no_double(stem, ".tar.xz"@, 4);
    no_double(stem, ".tar.zst"@, 4);
    no_double(stem, ".user.js"@, 5);
    the_last_position_is_the_last(stem, '.');
    assert(last_index(stem, '.') is None) by {
        if last_index(stem, '.') is Some {
            assert(stem.contains(stem[last_index(stem, '.')->0]));
        }
    }
    assert(stem.take(k) =~= stem);
    assert(stem.skip(k) =~= Seq::<char>::empty());
    assert(stem + " ("@ + decimal(n) + ")"@ + Seq::<char>::empty() =~= stem + " ("@ + decimal(n) + ")"@);
    let hidden = seq!['.'] + stem;
    assert forall|i: int| 0 <= i < hidden.len() && #[trigger] hidden[i] == '.' implies i == 0 by {
        if i > 0 {
            assert(stem[i - 1] == '.');
        }
    }
    no_double(hidden, ".tar.gz"@, 4);
    no_double(hidden, ".tar.bz2"@, 4);
    no_double(hidden, ".tar.xz"@, 4);
    no_double(hidden, ".tar.zst"@, 4);
    no_double(hidden, ".user.js"@, 5);
    the_last_position_is_the_last(hidden, '.');
    assert(last_index(hidden, '.') != None::<int> ==> last_index(hidden, '.')->0 == 0);
    let m = hidden.len() as int;
    assert(stem_length(hidden) == m);
    assert(hidden.take(m) =~= hidden);
    assert(hidden.skip(m) =~= Seq::<char>::empty());
    assert(hidden + " ("@ + decimal(n) + ")"@ + Seq::<char>::empty() =~= hidden + " ("@ + decimal(n) + ")"@);
}

/// An extension of two parts stays together, whatever the case of the name: the number stands before both.
pub proof fn a_double_extension_stays_together(stem: Seq<char>, extension: Seq<char>, n: nat)
    requires
        n > 0,
        stem.len() > 0,
        seq![".tar.gz"@, ".tar.bz2"@, ".tar.xz"@, ".tar.zst"@, ".user.js"@].contains(lower(extension)),
    ensures
        numbered(stem + extension, n) == stem + " ("@ + decimal(n) + ")"@ + extension,
{
    reveal_strlit(".tar.gz");
    reveal_strlit(".tar.bz2");
    reveal_strlit(".tar.xz");
    reveal_strlit(".tar.zst");
    reveal_strlit(".user.js");
    let name = stem + extension;
    let e = lower(extension);
    let s = lower(name);
    assert(s =~= lower(stem) + e);
    assert(e.is_suffix_of(s)) by {
        assert(e =~= s.subrange(s.len() - e.len(), s.len() as int));
    }
    let last = e.last();
    assert(s.last() == last);
    assert(ends_with_more(s, ".tar.gz"@) ==> s.last() == 'z' && s[s.len() - 2] == 'g') by {
        ends_alike(s, ".tar.gz"@);
    }
    assert(ends_with_more(s, ".tar.bz2"@) ==> s.last() == '2') by {
        ends_alike(s, ".tar.bz2"@);
    }
    assert(ends_with_more(s, ".tar.xz"@) ==> s.last() == 'z' && s[s.len() - 2] == 'x') by {
        ends_alike(s, ".tar.xz"@);
    }
    assert(ends_with_more(s, ".tar.zst"@) ==> s.last() == 't') by {
        ends_alike(s, ".tar.zst"@);
    }
    assert(s[s.len() - 2] == e[e.len() - 2]);
    assert(double_extension(s) == e.len());
    let k = stem.len() as int;
    assert(name.take(k) =~= stem);
    assert(name.skip(k) =~= extension);
}

proof fn ends_alike(s: Seq<char>, tail: Seq<char>)
    requires
        tail.len() >= 2,
    ensures
        ends_with_more(s, tail) ==> s.last() == tail.last() && s[s.len() - 2] == tail[tail.len() - 2],
{
    if ends_with_more(s, tail) {
        let t = s.subrange(s.len() - tail.len(), s.len() as int);
        assert(tail =~= t);
        assert(t[tail.len() - 1] == s[s.len() - 1]);
        assert(t[tail.len() - 2] == s[s.len() - 2]);
    }
}

} // verus!
