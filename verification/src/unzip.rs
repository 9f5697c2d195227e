//! Reading a ZIP archive: the central directory, stored and deflated entries, no encryption, no zip64.
//! Anything else is refused rather than guessed at.
//!
//! Beyond the format, every entry's path must stay inside the destination ([`safe_path`]), and every
//! entry's length and CRC-32 must match its header ([`read_entry`]).
use crate::bytes::{copy_range, le16_at, le32_at};
use crate::codec::{checksum, crc32, inflate, inflated, seen};
use crate::text::{chars_of, copy_text, decimal, decimal_text, joined_by, quote, quoted, text_of, text_views, utf8_text};
use vstd::prelude::*;
use vstd::utf8::{decode_utf8, encode_utf8, valid_utf8};

verus! {

pub const EOCD_SIGNATURE: u32 = 0x0605_4b50;

pub const CENTRAL_SIGNATURE: u32 = 0x0201_4b50;

pub const LOCAL_SIGNATURE: u32 = 0x0403_4b50;

/// The end-of-central-directory record, plus the longest comment that may follow it.
pub const EOCD_MAX_TAIL: usize = 65557;

/// A value of all ones means "see the zip64 record", which these archives never have.
pub const ZIP64_MARKER: u32 = 0xFFFF_FFFF;

pub const STORED: u16 = 0;

pub const DEFLATED: u16 = 8;

/// One file in the archive. (Folders are not listed: they are created as files need them.)
#[derive(Debug, Clone, PartialEq, Eq)]
pub struct Entry {
    /// The path inside the archive, as it was stored (`/` separated).
    pub name: String,
    pub method: u16,
    pub compressed_size: u32,
    pub size: u32,
    pub crc32: u32,
    /// Offset of the entry's local header in the archive.
    pub offset: u32,
}

/// The model of an [`Entry`].
#[verifier::ext_equal]
pub struct Listed {
    pub name: Seq<char>,
    pub method: nat,
    pub compressed_size: nat,
    pub size: nat,
    pub crc32: nat,
    pub offset: nat,
}

impl View for Entry {
    type V = Listed;

    open spec fn view(&self) -> Listed {
        Listed {
            name: self.name@,
            method: self.method as nat,
            compressed_size: self.compressed_size as nat,
            size: self.size as nat,
            crc32: self.crc32 as nat,
            offset: self.offset as nat,
        }
    }
}

// ------------------------------------------------------------------------------ fields

/// The complaint about a field that lies beyond the end of the archive.
pub open spec fn truncated(at: int) -> Seq<char> {
    "truncated archive at "@ + decimal(at as nat)
}

fn truncated_text(at: u64) -> (r: String)
    ensures
        r@ == truncated(at as int),
{
    let mut e = "truncated archive at ".to_owned();
    e.append(decimal_text(at).as_str());
    e
}

/// The two-byte number at `at`.
pub fn u16_at(bytes: &[u8], at: u64) -> (r: Result<u16, String>)
    ensures
        match r {
            Ok(n) => at + 2 <= bytes@.len() && n == le16_at(bytes@, at as int),
            Err(e) => at + 2 > bytes@.len() && e@ == truncated(at as int),
        },
{
    let total: usize = bytes.len();
    if total < 2 || at > (total - 2) as u64 {
        return Err(truncated_text(at));
    }
    let i: usize = at as usize;
    Ok(bytes[i] as u16 + bytes[i + 1] as u16 * 0x100)
}

/// The four-byte number at `at`.
pub fn u32_at(bytes: &[u8], at: u64) -> (r: Result<u32, String>)
    ensures
        match r {
            Ok(n) => at + 4 <= bytes@.len() && n == le32_at(bytes@, at as int),
            Err(e) => at + 4 > bytes@.len() && e@ == truncated(at as int),
        },
{
    let total: usize = bytes.len();
    if total < 4 || at > (total - 4) as u64 {
        return Err(truncated_text(at));
    }
    let i: usize = at as usize;
    Ok(bytes[i] as u32 + bytes[i + 1] as u32 * 0x100 + bytes[i + 2] as u32 * 0x1_0000 + bytes[i + 3] as u32 * 0x100_0000)
}

// ------------------------------------------------------------------------------ the central directory

/// The last position in `[from, to)` at which an end-of-central-directory record starts.
pub open spec fn last_eocd(bytes: Seq<u8>, from: int, to: int) -> Option<int>
    decreases to - from,
{
    if to <= from {
        None
    } else if le32_at(bytes, to - 1) == EOCD_SIGNATURE {
        Some(to - 1)
    } else {
        last_eocd(bytes, from, to - 1)
    }
}

/// Where the end-of-central-directory record is: the last one that leaves room for its 22 bytes and
/// at most the longest comment.
pub open spec fn eocd_of(bytes: Seq<u8>) -> Option<int> {
    let from = if bytes.len() < EOCD_MAX_TAIL { 0 } else { bytes.len() - EOCD_MAX_TAIL };
    let to = if bytes.len() < 21 { 0 } else { bytes.len() - 21 };
    last_eocd(bytes, from, to)
}

/// The central directory header at `at` (entry number `i`), and where the next one starts.
#[verifier::opaque]
pub open spec fn listed_at(bytes: Seq<u8>, at: int, i: nat) -> Result<(Listed, int), Seq<char>> {
    let len = bytes.len();
    let name_len = le16_at(bytes, at + 28) as int;
    if at + 4 > len {
        Err(truncated(at))
    } else if le32_at(bytes, at) != CENTRAL_SIGNATURE {
        Err("entry "@ + decimal(i) + " has no central directory header"@)
    } else if at + 12 > len {
        Err(truncated(at + 10))
    } else if at + 20 > len {
        Err(truncated(at + 16))
    } else if at + 24 > len {
        Err(truncated(at + 20))
    } else if at + 28 > len {
        Err(truncated(at + 24))
    } else if at + 30 > len {
        Err(truncated(at + 28))
    } else if at + 32 > len {
        Err(truncated(at + 30))
    } else if at + 34 > len {
        Err(truncated(at + 32))
    } else if at + 46 > len {
        Err(truncated(at + 42))
    } else if le32_at(bytes, at + 20) == ZIP64_MARKER || le32_at(bytes, at + 24) == ZIP64_MARKER || le32_at(bytes, at + 42) == ZIP64_MARKER {
        Err("zip64 entries are not supported"@)
    } else if at + 46 + name_len > len {
        Err("truncated entry name"@)
    } else if !valid_utf8(bytes.subrange(at + 46, at + 46 + name_len)) {
        Err("entry name is not UTF-8"@)
    } else {
        Ok(
            (
                Listed {
                    name: decode_utf8(bytes.subrange(at + 46, at + 46 + name_len)),
                    method: le16_at(bytes, at + 10),
                    compressed_size: le32_at(bytes, at + 20),
                    size: le32_at(bytes, at + 24),
                    crc32: le32_at(bytes, at + 16),
                    offset: le32_at(bytes, at + 42),
                },
                at + 46 + name_len + le16_at(bytes, at + 30) + le16_at(bytes, at + 32),
            ),
        )
    }
}

/// Entries `i..count`, the first of them at `at`.
pub open spec fn listed_from(bytes: Seq<u8>, at: int, i: nat, count: nat) -> Result<Seq<Listed>, Seq<char>>
    decreases count - i,
{
    if i >= count {
        Ok(Seq::empty())
    } else {
        match listed_at(bytes, at, i) {
            Err(e) => Err(e),
            Ok((entry, next)) => match listed_from(bytes, next, i + 1, count) {
                Err(e) => Err(e),
                Ok(rest) => Ok(seq![entry] + rest),
            },
        }
    }
}

/// Everything that the central directory of an archive names, folders included.
pub open spec fn directory_of(bytes: Seq<u8>) -> Result<Seq<Listed>, Seq<char>> {
    match eocd_of(bytes) {
        None => Err("not a zip archive (no end-of-central-directory record)"@),
        Some(at) => if le32_at(bytes, at + 16) == ZIP64_MARKER || le16_at(bytes, at + 8) == 0xFFFF {
            Err("zip64 archives are not supported"@)
        } else {
            listed_from(bytes, le32_at(bytes, at + 16) as int, 0, le16_at(bytes, at + 10))
        },
    }
}

/// An entry of this name is a folder: the name ends in a separator.
pub open spec fn is_folder(name: Seq<char>) -> bool {
    name.len() > 0 && is_separator(name.last())
}

/// The files of a directory, in order.
pub open spec fn files_in(list: Seq<Listed>) -> Seq<Listed>
    decreases list.len(),
{
    if list.len() == 0 {
        Seq::empty()
    } else if is_folder(list.last().name) {
        files_in(list.drop_last())
    } else {
        files_in(list.drop_last()).push(list.last())
    }
}

/// The files of an archive.
pub open spec fn listed(bytes: Seq<u8>) -> Result<Seq<Listed>, Seq<char>> {
    match directory_of(bytes) {
        Err(e) => Err(e),
        Ok(list) => Ok(files_in(list)),
    }
}

/// The entries of a vector, each by its view.
pub open spec fn entry_views(v: Seq<Entry>) -> Seq<Listed> {
    v.map_values(|e: Entry| e@)
}

fn find_eocd(bytes: &[u8]) -> (r: Option<usize>)
    ensures
        match r {
            Some(at) => eocd_of(bytes@) == Some(at as int) && at + 22 <= bytes@.len(),
            None => eocd_of(bytes@) is None,
        },
{
    let total: usize = bytes.len();
    let from: usize = if total < EOCD_MAX_TAIL { 0 } else { total - EOCD_MAX_TAIL };
    let end: usize = if total < 21 { 0 } else { total - 21 };
    let mut to: usize = end;
    while to > from
        invariant
            total == bytes@.len(),
            end == (if total < 21 { 0 } else { total - 21 }),
            from == (if total < EOCD_MAX_TAIL { 0 } else { total - EOCD_MAX_TAIL }),
            to <= end,
            last_eocd(bytes@, from as int, to as int) == last_eocd(bytes@, from as int, end as int),
        decreases to,
    {
        let i: usize = to - 1;
        let n: u32 = bytes[i] as u32 + bytes[i + 1] as u32 * 0x100 + bytes[i + 2] as u32 * 0x1_0000 + bytes[i + 3] as u32 * 0x100_0000;
        if n == EOCD_SIGNATURE {
            return Some(i);
        }
        to = i;
    }
    None
}

fn read_listed(bytes: &[u8], at: u64, i: u64) -> (r: Result<(Entry, u64), String>)
    requires
        at <= 0xFFFF_FFFF_FFFF,
    ensures
        match r {
            Ok(t) => listed_at(bytes@, at as int, i as nat) == Result::<(Listed, int), Seq<char>>::Ok((t.0@, t.1 as int)),
            Err(e) => listed_at(bytes@, at as int, i as nat) == Result::<(Listed, int), Seq<char>>::Err(e@),
        },
        r is Ok ==> r->Ok_0.1 <= at + 196651,
{
    proof {
        reveal(listed_at);
    }
    match u32_at(bytes, at) {
        Err(e) => {
            return Err(e);
        },
        Ok(signature) => {
            if signature != CENTRAL_SIGNATURE {
                let mut e = "entry ".to_owned();
                e.append(decimal_text(i).as_str());
                e.append(" has no central directory header");
                return Err(e);
            }
        },
    }
    let method: u16 = u16_at(bytes, at + 10)?;
    let crc: u32 = u32_at(bytes, at + 16)?;
    let compressed_size: u32 = u32_at(bytes, at + 20)?;
    let size: u32 = u32_at(bytes, at + 24)?;
    let name_len: u16 = u16_at(bytes, at + 28)?;
    let extra_len: u16 = u16_at(bytes, at + 30)?;
    let comment_len: u16 = u16_at(bytes, at + 32)?;
    let offset: u32 = u32_at(bytes, at + 42)?;
    if compressed_size == ZIP64_MARKER || size == ZIP64_MARKER || offset == ZIP64_MARKER {
        return Err("zip64 entries are not supported".to_owned());
    }
    let total: usize = bytes.len();
    let name_at: usize = at as usize + 46;
    if name_len as usize > total - name_at {
        return Err("truncated entry name".to_owned());
    }
    let raw = copy_range(bytes, name_at, name_at + name_len as usize);
    let name = match utf8_text(raw.as_slice()) {
        Some(name) => name,
        None => {
            return Err("entry name is not UTF-8".to_owned());
        },
    };
    let next: u64 = at + 46 + name_len as u64 + extra_len as u64 + comment_len as u64;
    Ok((Entry { name, method, compressed_size, size, crc32: crc, offset }, next))
}

/// `done` followed by what is read after it.
spec fn joined(done: Seq<Listed>, rest: Result<Seq<Listed>, Seq<char>>) -> Result<Seq<Listed>, Seq<char>> {
    match rest {
        Ok(r) => Ok(done + r),
        Err(e) => Err(e),
    }
}

fn read_entries(bytes: &[u8], directory_at: u32, count: u16) -> (r: Result<Vec<Entry>, String>)
    ensures
        match r {
            Ok(v) => listed_from(bytes@, directory_at as int, 0, count as nat) == Result::<Seq<Listed>, Seq<char>>::Ok(entry_views(v@)),
            Err(e) => listed_from(bytes@, directory_at as int, 0, count as nat) == Result::<Seq<Listed>, Seq<char>>::Err(e@),
        },
{
    let mut out: Vec<Entry> = Vec::new();
    let mut at: u64 = directory_at as u64;
    let mut i: u64 = 0;
    let ghost whole = listed_from(bytes@, directory_at as int, 0, count as nat);
    proof {
        if whole is Ok {
            assert(entry_views(out@) + whole->Ok_0 =~= whole->Ok_0);
        }
    }
    while i < count as u64
        invariant
            i <= count,
            at <= 0xFFFF_FFFF + i * 196651,
            whole == listed_from(bytes@, directory_at as int, 0, count as nat),
            whole == joined(entry_views(out@), listed_from(bytes@, at as int, i as nat, count as nat)),
        decreases count - i,
    {
        match read_listed(bytes, at, i) {
            Err(e) => {
                return Err(e);
            },
            Ok(t) => {
                proof {
                    let rest = listed_from(bytes@, t.1 as int, (i + 1) as nat, count as nat);
                    if rest is Ok {
                        assert(entry_views(out@) + (seq![t.0@] + rest->Ok_0) =~= entry_views(out@.push(t.0)) + rest->Ok_0);
                    }
                }
                out.push(t.0);
                at = t.1;
            },
        }
        i = i + 1;
    }
    proof {
        assert(entry_views(out@) + Seq::<Listed>::empty() =~= entry_views(out@));
    }
    Ok(out)
}

/// Everything in the archive's central directory.
fn directory(bytes: &[u8]) -> (r: Result<Vec<Entry>, String>)
    ensures
        match r {
            Ok(v) => directory_of(bytes@) == Result::<Seq<Listed>, Seq<char>>::Ok(entry_views(v@)),
            Err(e) => directory_of(bytes@) == Result::<Seq<Listed>, Seq<char>>::Err(e@),
        },
{
    let eocd: usize = match find_eocd(bytes) {
        Some(at) => at,
        None => {
            return Err("not a zip archive (no end-of-central-directory record)".to_owned());
        },
    };
    let total: usize = bytes.len();
    let count: u16 = u16_at(bytes, eocd as u64 + 10)?;
    let directory_at: u32 = u32_at(bytes, eocd as u64 + 16)?;
    if directory_at == ZIP64_MARKER || u16_at(bytes, eocd as u64 + 8)? == u16::MAX {
        return Err("zip64 archives are not supported".to_owned());
    }
    read_entries(bytes, directory_at, count)
}

/// The archive's files, from its central directory; folders are left out.
pub fn entries(bytes: &[u8]) -> (r: Result<Vec<Entry>, String>)
    ensures
        match r {
            Ok(v) => listed(bytes@) == Result::<Seq<Listed>, Seq<char>>::Ok(entry_views(v@)),
            Err(e) => listed(bytes@) == Result::<Seq<Listed>, Seq<char>>::Err(e@),
        },
{
    let all = directory(bytes)?;
    let ghost views = entry_views(all@);
    let mut files: Vec<Entry> = Vec::new();
    let mut i: usize = 0;
    proof {
        assert(entry_views(files@) =~= files_in(views.take(0)));
    }
    while i < all.len()
        invariant
            i <= all@.len(),
            views == entry_views(all@),
            entry_views(files@) == files_in(views.take(i as int)),
        decreases all@.len() - i,
    {
        proof {
            assert(views.take(i + 1).drop_last() =~= views.take(i as int));
            assert(views.take(i + 1).last() == all@[i as int]@);
        }
        if !ends_with_separator(all[i].name.as_str()) {
            let e = &all[i];
            let copy = Entry {
                name: copy_text(e.name.as_str()),
                method: e.method,
                compressed_size: e.compressed_size,
                size: e.size,
                crc32: e.crc32,
                offset: e.offset,
            };
            proof {
                assert(copy@ =~= all@[i as int]@);
                assert(entry_views(files@.push(copy)) =~= entry_views(files@).push(copy@));
            }
            files.push(copy);
        }
        i = i + 1;
    }
    proof {
        assert(views.take(views.len() as int) =~= views);
    }
    Ok(files)
}

// ------------------------------------------------------------------------------ paths

pub open spec fn is_separator(c: char) -> bool {
    c == '/' || c == '\\'
}

/// The parts of `s` between separators, given that the part in progress began at `start` and
/// everything before `i` was looked at.
pub open spec fn parts_from(s: Seq<char>, start: int, i: int) -> Seq<Seq<char>>
    decreases s.len() - i,
{
    if i >= s.len() || i < 0 {
        seq![s.subrange(start, s.len() as int)]
    } else if is_separator(s[i]) {
        seq![s.subrange(start, i)] + parts_from(s, i + 1, i + 1)
    } else {
        parts_from(s, start, i + 1)
    }
}

/// The parts of a path between its separators (`/` and `\`).
pub open spec fn path_parts(s: Seq<char>) -> Seq<Seq<char>> {
    parts_from(s, 0, 0)
}

/// A part that names something: not empty and not `.`.
pub open spec fn is_name(part: Seq<char>) -> bool {
    part.len() > 0 && part != "."@
}

/// The parts that name something, in order.
pub open spec fn names_in(parts: Seq<Seq<char>>) -> Seq<Seq<char>>
    decreases parts.len(),
{
    if parts.len() == 0 {
        Seq::empty()
    } else if is_name(parts.last()) {
        names_in(parts.drop_last()).push(parts.last())
    } else {
        names_in(parts.drop_last())
    }
}

/// The path has a form that could lead out of the folder it is put in: empty, a NUL, absolute, or a
/// drive letter.
pub open spec fn is_rooted(name: Seq<char>) -> bool {
    ||| name.len() == 0
    ||| name.contains('\0')
    ||| is_separator(name[0])
    ||| (name.len() >= 2 && (name[0] as u32) < 0x80 && name[1] == ':')
}

/// A part that begins with a drive letter: where there are drives, it starts a path of its own.
pub open spec fn has_drive(part: Seq<char>) -> bool {
    part.len() >= 2 && ('a' <= part[0] <= 'z' || 'A' <= part[0] <= 'Z') && part[1] == ':'
}

/// One of the parts begins with a drive letter.
pub open spec fn has_drive_in(parts: Seq<Seq<char>>) -> bool {
    exists|i: int| 0 <= i < parts.len() && has_drive(#[trigger] parts[i])
}

/// The folders and the file that `name` leads to below its destination; `None` when it would land
/// anywhere else, or on the destination itself.
pub open spec fn safe_names(name: Seq<char>) -> Option<Seq<Seq<char>>> {
    if is_rooted(name) || path_parts(name).contains(".."@) || has_drive_in(path_parts(name)) || names_in(path_parts(name)).len() == 0 {
        None
    } else {
        Some(names_in(path_parts(name)))
    }
}

fn split_path(cs: &Vec<char>) -> (r: Vec<String>)
    ensures
        text_views(r@) == path_parts(cs@),
{
    let total: usize = cs.len();
    let mut out: Vec<String> = Vec::new();
    let mut start: usize = 0;
    let mut i: usize = 0;
    proof {
        assert(text_views(out@) + path_parts(cs@) =~= path_parts(cs@));
    }
    while i < total
        invariant
            total == cs@.len(),
            start <= i <= total,
            path_parts(cs@) == text_views(out@) + parts_from(cs@, start as int, i as int),
        decreases total - i,
    {
        if cs[i] == '/' || cs[i] == '\\' {
            let part = text_of(cs.as_slice(), start, i);
            proof {
                assert(text_views(out@) + (seq![part@] + parts_from(cs@, i + 1, i + 1)) =~= text_views(out@.push(part)) + parts_from(
                    cs@,
                    i + 1,
                    i + 1,
                ));
            }
            out.push(part);
            start = i + 1;
        }
        i = i + 1;
    }
    let part = text_of(cs.as_slice(), start, total);
    proof {
        assert(text_views(out@) + seq![part@] =~= text_views(out@.push(part)));
    }
    out.push(part);
    out
}

fn begins_with_drive(part: &str) -> (r: bool)
    ensures
        r == has_drive(part@),
{
    let cs = chars_of(part);
    if cs.len() < 2 {
        return false;
    }
    let c: char = cs[0];
    ('a' <= c && c <= 'z' || 'A' <= c && c <= 'Z') && cs[1] == ':'
}

/// `name` as the folders and file below a destination, or `None` when it would land anywhere else.
pub fn safe_path(name: &str) -> (r: Option<Vec<String>>)
    ensures
        match r {
            Some(v) => safe_names(name@) == Some(text_views(v@)),
            None => safe_names(name@) is None,
        },
{
    let cs = chars_of(name);
    if cs.len() == 0 {
        return None;
    }
    let mut i: usize = 0;
    while i < cs.len()
        invariant
            i <= cs@.len(),
            cs@ == name@,
            forall|k: int| 0 <= k < i ==> cs@[k] != '\0',
        decreases cs@.len() - i,
    {
        if cs[i] == '\0' {
            proof {
                assert(name@.contains('\0'));
            }
            return None;
        }
        i = i + 1;
    }
    if cs[0] == '/' || cs[0] == '\\' {
        return None;
    }
    if cs.len() >= 2 && (cs[0] as u32) < 0x80 && cs[1] == ':' {
        return None;
    }
    let parts = split_path(&cs);
    let ghost views = path_parts(name@);
    let mut kept: Vec<String> = Vec::new();
    let mut k: usize = 0;
    proof {
        assert(!is_rooted(name@));
        assert(text_views(kept@) =~= names_in(views.take(0)));
        reveal_strlit(".");
        reveal_strlit("..");
    }
    while k < parts.len()
        invariant
            k <= parts@.len(),
            text_views(parts@) == views,
            views == path_parts(name@),
            !is_rooted(name@),
            text_views(kept@) == names_in(views.take(k as int)),
            forall|j: int| 0 <= j < k ==> views[j] != ".."@,
            forall|j: int| 0 <= j < k ==> !has_drive(#[trigger] views[j]),
        decreases parts@.len() - k,
    {
        let ghost part = parts@[k as int]@;
        proof {
            assert(views[k as int] == part);
            assert(views.take(k + 1).drop_last() =~= views.take(k as int));
            assert(views.take(k + 1).last() == part);
        }
        if crate::text::same_text(parts[k].as_str(), "..") {
            proof {
                assert(views.contains(".."@));
            }
            return None;
        }
        if begins_with_drive(parts[k].as_str()) {
            proof {
                assert(has_drive(views[k as int]));
            }
            return None;
        }
        if !parts[k].as_str().is_empty() && !crate::text::same_text(parts[k].as_str(), ".") {
            let copy = parts[k].clone();
            proof {
                assert(text_views(kept@.push(copy)) =~= text_views(kept@).push(part));
            }
            kept.push(copy);
        }
        k = k + 1;
    }
    proof {
        assert(views.take(views.len() as int) =~= views);
        assert(!views.contains(".."@));
        assert(text_views(kept@).len() == kept@.len());
    }
    if kept.len() == 0 {
        None
    } else {
        Some(kept)
    }
}

// ------------------------------------------------------------------------------ contents

/// The unpacked bytes of an entry, held against its header: the length, then the checksum.
pub open spec fn checked(e: Listed, data: Seq<u8>) -> Result<Seq<u8>, Seq<char>> {
    if data.len() % 0x1_0000_0000 != e.size {
        Err(e.name + ": "@ + decimal(data.len()) + " bytes, the header says "@ + decimal(e.size))
    } else if crc32(data) != e.crc32 {
        Err(e.name + ": checksum does not match"@)
    } else {
        Ok(data)
    }
}

/// The bytes of one entry, unpacked and checked.
pub open spec fn contents_of(bytes: Seq<u8>, e: Listed) -> Result<Seq<u8>, Seq<char>> {
    let at = e.offset as int;
    let from = at + 30 + le16_at(bytes, at + 26) + le16_at(bytes, at + 28);
    let raw = bytes.subrange(from, from + e.compressed_size);
    if at + 4 > bytes.len() {
        Err(truncated(at))
    } else if le32_at(bytes, at) != LOCAL_SIGNATURE {
        Err(e.name + ": no local header"@)
    } else if at + 28 > bytes.len() {
        Err(truncated(at + 26))
    } else if at + 30 > bytes.len() {
        Err(truncated(at + 28))
    } else if from + e.compressed_size > bytes.len() {
        Err(e.name + ": the archive ends inside it"@)
    } else if e.method == STORED {
        checked(e, raw)
    } else if e.method == DEFLATED {
        match inflated(raw, e.size + 1) {
            Ok(data) => checked(e, data),
            Err(text) => Err(e.name + ": "@ + text),
        }
    } else {
        Err(e.name + ": compression method "@ + decimal(e.method) + " is not supported"@)
    }
}

/// Holds the unpacked bytes of an entry against its header.
pub fn check_contents(entry: &Entry, data: Vec<u8>) -> (r: Result<Vec<u8>, String>)
    ensures
        seen(r) == checked(entry@, data@),
{
    if (data.len() as u64 % 0x1_0000_0000) as u32 != entry.size {
        let mut e = entry.name.clone();
        e.append(": ");
        e.append(decimal_text(data.len() as u64).as_str());
        e.append(" bytes, the header says ");
        e.append(decimal_text(entry.size as u64).as_str());
        return Err(e);
    }
    if checksum(data.as_slice()) != entry.crc32 {
        let mut e = entry.name.clone();
        e.append(": checksum does not match");
        return Err(e);
    }
    Ok(data)
}

/// The bytes of one entry, inflated and checked against its header.
pub fn read_entry(bytes: &[u8], entry: &Entry) -> (r: Result<Vec<u8>, String>)
    ensures
        seen(r) == contents_of(bytes@, entry@),
{
    let at: u64 = entry.offset as u64;
    match u32_at(bytes, at) {
        Err(e) => {
            return Err(e);
        },
        Ok(signature) => {
            if signature != LOCAL_SIGNATURE {
                let mut e = entry.name.clone();
                e.append(": no local header");
                return Err(e);
            }
        },
    }
    let name_len: u16 = u16_at(bytes, at + 26)?;
    let extra_len: u16 = u16_at(bytes, at + 28)?;
    let from: u64 = at + 30 + name_len as u64 + extra_len as u64;
    let total: u64 = bytes.len() as u64;
    if from + entry.compressed_size as u64 > total {
        let mut e = entry.name.clone();
        e.append(": the archive ends inside it");
        return Err(e);
    }
    let start: usize = from as usize;
    let raw = copy_range(bytes, start, start + entry.compressed_size as usize);
    if entry.method == STORED {
        check_contents(entry, raw)
    } else if entry.method == DEFLATED {
        match inflate(raw.as_slice(), entry.size as u64 + 1) {
            Ok(data) => check_contents(entry, data),
            Err(text) => {
                let mut e = entry.name.clone();
                e.append(": ");
                e.append(text.as_str());
                Err(e)
            },
        }
    } else {
        let mut e = entry.name.clone();
        e.append(": compression method ");
        e.append(decimal_text(entry.method as u64).as_str());
        e.append(" is not supported");
        Err(e)
    }
}

// ------------------------------------------------------------------------------ unpacking

/// One thing to do below the destination folder; the path is its folders and its own name.
pub enum Step {
    /// Create a folder (and those above it).
    Folder(Vec<String>),
    /// Write a file (and create the folders above it).
    File(Vec<String>, Vec<u8>),
}

/// The model of a [`Step`].
#[verifier::ext_equal]
pub enum Stepped {
    Folder(Seq<Seq<char>>),
    File(Seq<Seq<char>>, Seq<u8>),
}

impl View for Step {
    type V = Stepped;

    open spec fn view(&self) -> Stepped {
        match self {
            Step::Folder(path) => Stepped::Folder(text_views(path@)),
            Step::File(path, data) => Stepped::File(text_views(path@), data@),
        }
    }
}

/// Everything to do for an archive, in order, and what stopped the unpacking, if anything did.
pub struct Extraction {
    pub steps: Vec<Step>,
    pub error: Option<String>,
}

pub open spec fn step_views(v: Seq<Step>) -> Seq<Stepped> {
    v.map_values(|s: Step| s@)
}

pub open spec fn optional_text(t: Option<String>) -> Option<Seq<char>> {
    match t {
        Some(s) => Some(s@),
        None => None,
    }
}

/// What entry `e` of the archive asks for: nothing or one step, or the reason to stop.
pub open spec fn step_of(bytes: Seq<u8>, e: Listed) -> Result<Seq<Stepped>, Seq<char>> {
    if is_folder(e.name) {
        match safe_names(e.name) {
            Some(path) => Ok(seq![Stepped::Folder(path)]),
            None => Ok(Seq::empty()),
        }
    } else {
        match safe_names(e.name) {
            None => Err(quoted(e.name) + " would be written outside the update"@),
            Some(path) => match contents_of(bytes, e) {
                Ok(data) => Ok(seq![Stepped::File(path, data)]),
                Err(text) => Err(text),
            },
        }
    }
}

/// The steps of the entries from `i` on, up to the first that stops the unpacking.
pub open spec fn steps_from(bytes: Seq<u8>, list: Seq<Listed>, i: int) -> (Seq<Stepped>, Option<Seq<char>>)
    decreases list.len() - i,
{
    if i < 0 || i >= list.len() {
        (Seq::empty(), None)
    } else {
        match step_of(bytes, list[i]) {
            Err(e) => (Seq::empty(), Some(e)),
            Ok(own) => {
                let rest = steps_from(bytes, list, i + 1);
                (own + rest.0, rest.1)
            },
        }
    }
}

/// The steps of a whole archive.
pub open spec fn extraction(bytes: Seq<u8>) -> (Seq<Stepped>, Option<Seq<char>>) {
    match directory_of(bytes) {
        Err(e) => (Seq::empty(), Some(e)),
        Ok(list) => steps_from(bytes, list, 0),
    }
}

fn ends_with_separator(name: &str) -> (r: bool)
    ensures
        r == is_folder(name@),
{
    let cs = chars_of(name);
    if cs.len() == 0 {
        return false;
    }
    let last: char = cs[cs.len() - 1];
    last == '/' || last == '\\'
}

/// What one entry asks for.
pub fn entry_step(bytes: &[u8], entry: &Entry) -> (r: Result<Option<Step>, String>)
    ensures
        match r {
            Ok(Some(s)) => step_of(bytes@, entry@) == Result::<Seq<Stepped>, Seq<char>>::Ok(seq![s@]),
            Ok(None) => step_of(bytes@, entry@) == Result::<Seq<Stepped>, Seq<char>>::Ok(Seq::empty()),
            Err(e) => step_of(bytes@, entry@) == Result::<Seq<Stepped>, Seq<char>>::Err(e@),
        },
{
    let path = safe_path(entry.name.as_str());
    if ends_with_separator(entry.name.as_str()) {
        return match path {
            Some(dir) => Ok(Some(Step::Folder(dir))),
            None => Ok(None),
        };
    }
    match path {
        None => {
            let mut e = quote(entry.name.as_str());
            e.append(" would be written outside the update");
            Err(e)
        },
        Some(path) => match read_entry(bytes, entry) {
            Ok(data) => Ok(Some(Step::File(path, data))),
            Err(e) => Err(e),
        },
    }
}

/// What to write for an archive: every file of it, below one destination. An entry that would be
/// written outside, a damaged one or an unsupported one stops the unpacking there; the steps before it
/// stay.
pub fn extract(bytes: &[u8]) -> (r: Extraction)
    ensures
        step_views(r.steps@) == extraction(bytes@).0,
        optional_text(r.error) == extraction(bytes@).1,
{
    let mut steps: Vec<Step> = Vec::new();
    let list = match directory(bytes) {
        Ok(list) => list,
        Err(e) => {
            proof {
                assert(step_views(steps@) =~= Seq::empty());
            }
            return Extraction { steps, error: Some(e) };
        },
    };
    let ghost views = entry_views(list@);
    let ghost whole = steps_from(bytes@, views, 0);
    let mut i: usize = 0;
    proof {
        assert(step_views(steps@) + whole.0 =~= whole.0);
    }
    while i < list.len()
        invariant
            i <= list@.len(),
            views == entry_views(list@),
            whole == steps_from(bytes@, views, 0),
            whole == extraction(bytes@),
            whole.0 == step_views(steps@) + steps_from(bytes@, views, i as int).0,
            whole.1 == steps_from(bytes@, views, i as int).1,
        decreases list@.len() - i,
    {
        proof {
            assert(views[i as int] == list@[i as int]@);
        }
        let ghost rest = steps_from(bytes@, views, i + 1);
        match entry_step(bytes, &list[i]) {
            Err(e) => {
                proof {
                    assert(step_views(steps@) + Seq::<Stepped>::empty() =~= step_views(steps@));
                }
                return Extraction { steps, error: Some(e) };
            },
            Ok(Some(step)) => {
                proof {
                    assert(step_views(steps@) + (seq![step@] + rest.0) =~= step_views(steps@.push(step)) + rest.0);
                }
                steps.push(step);
            },
            Ok(None) => {
                proof {
                    assert(Seq::<Stepped>::empty() + rest.0 =~= rest.0);
                }
            },
        }
        i = i + 1;
    }
    proof {
        assert(step_views(steps@) + Seq::<Stepped>::empty() =~= step_views(steps@));
    }
    Extraction { steps, error: None }
}

// ------------------------------------------------------------------------------ nothing is written outside

/// A folder or file name that cannot lead anywhere else: not empty, not `.` or `..`, no drive letter, no
/// separator, no NUL.
pub open spec fn stays_inside(part: Seq<char>) -> bool {
    &&& part.len() > 0
    &&& part != "."@
    &&& part != ".."@
    &&& !has_drive(part)
    &&& is_plain(part)
}

pub open spec fn path_of(step: Stepped) -> Seq<Seq<char>> {
    match step {
        Stepped::Folder(path) => path,
        Stepped::File(path, _) => path,
    }
}

/// No separator and no NUL.
pub open spec fn is_plain(part: Seq<char>) -> bool {
    forall|k: int| 0 <= k < part.len() ==> !is_separator(#[trigger] part[k]) && part[k] != '\0'
}

/// No part of a path without NULs holds a separator or a NUL.
proof fn parts_are_plain(s: Seq<char>, start: int, i: int)
    requires
        0 <= start <= i <= s.len(),
        forall|k: int| start <= k < i ==> !is_separator(#[trigger] s[k]),
        !s.contains('\0'),
    ensures
        forall|n: int| 0 <= n < parts_from(s, start, i).len() ==> is_plain(#[trigger] parts_from(s, start, i)[n]),
    decreases s.len() - i,
{
    assert(forall|k: int| 0 <= k < s.len() ==> #[trigger] s[k] != '\0');
    if i >= s.len() {
        assert(is_plain(s.subrange(start, s.len() as int)));
    } else if is_separator(s[i]) {
        parts_are_plain(s, i + 1, i + 1);
        assert(is_plain(s.subrange(start, i)));
        let all = parts_from(s, start, i);
        let rest = parts_from(s, i + 1, i + 1);
        assert forall|n: int| 0 <= n < all.len() implies is_plain(#[trigger] all[n]) by {
            if n > 0 {
                assert(all[n] == rest[n - 1]);
            }
        }
    } else {
        parts_are_plain(s, start, i + 1);
        assert(parts_from(s, start, i) == parts_from(s, start, i + 1));
    }
}

/// The names are parts, and none of them is empty or `.`.
proof fn names_are_parts(parts: Seq<Seq<char>>)
    ensures
        forall|n: int|
            #![trigger names_in(parts)[n]]
            0 <= n < names_in(parts).len() ==> is_name(names_in(parts)[n]) && parts.contains(names_in(parts)[n]),
    decreases parts.len(),
{
    if parts.len() > 0 {
        let front = parts.drop_last();
        names_are_parts(front);
        assert forall|n: int| #![trigger names_in(parts)[n]] 0 <= n < names_in(parts).len() implies is_name(names_in(parts)[n]) && parts.contains(
            names_in(parts)[n],
        ) by {
            if n < names_in(front).len() {
                assert(names_in(parts)[n] == names_in(front)[n]);
                let m = choose|m: int| 0 <= m < front.len() && front[m] == names_in(front)[n];
                assert(parts[m] == front[m]);
            } else {
                assert(parts[parts.len() - 1] == names_in(parts)[n]);
            }
        }
    }
}

/// A path that is accepted leads through names that all stay inside the destination.
pub proof fn safe_names_stay_inside(name: Seq<char>)
    requires
        safe_names(name) is Some,
    ensures
        safe_names(name)->0.len() > 0,
        forall|n: int| 0 <= n < safe_names(name)->0.len() ==> stays_inside(#[trigger] safe_names(name)->0[n]),
{
    let parts = path_parts(name);
    parts_are_plain(name, 0, 0);
    names_are_parts(parts);
    let names = names_in(parts);
    assert forall|n: int| 0 <= n < names.len() implies stays_inside(#[trigger] names[n]) by {
        let m = choose|m: int| 0 <= m < parts.len() && parts[m] == names[n];
        assert(parts[m] != ".."@);
        assert(is_plain(parts[m]));
    }
}

/// Nothing is ever written outside the destination: whatever the archive holds, every step's path
/// consists of names that stay inside.
pub proof fn nothing_is_written_outside(bytes: Seq<u8>, list: Seq<Listed>, i: int, n: int, k: int)
    requires
        0 <= n < steps_from(bytes, list, i).0.len(),
        0 <= k < path_of(steps_from(bytes, list, i).0[n]).len(),
    ensures
        stays_inside(path_of(steps_from(bytes, list, i).0[n])[k]),
    decreases list.len() - i,
{
    let own = step_of(bytes, list[i])->Ok_0;
    if n < own.len() {
        safe_names_stay_inside(list[i].name);
        assert(steps_from(bytes, list, i).0[n] == own[n]);
    } else {
        nothing_is_written_outside(bytes, list, i + 1, n - own.len(), k);
        assert(steps_from(bytes, list, i).0[n] == steps_from(bytes, list, i + 1).0[n - own.len()]);
    }
}

/// What an archive lists is in its directory and is no folder.
pub proof fn folders_are_not_listed(list: Seq<Listed>)
    ensures
        forall|n: int|
            #![trigger files_in(list)[n]]
            0 <= n < files_in(list).len() ==> !is_folder(files_in(list)[n].name) && list.contains(files_in(list)[n]),
    decreases list.len(),
{
    if list.len() > 0 {
        let front = list.drop_last();
        folders_are_not_listed(front);
        assert forall|n: int| #![trigger files_in(list)[n]] 0 <= n < files_in(list).len() implies !is_folder(files_in(list)[n].name) && list.contains(
            files_in(list)[n],
        ) by {
            if n < files_in(front).len() {
                assert(files_in(list)[n] == files_in(front)[n]);
                let m = choose|m: int| 0 <= m < front.len() && front[m] == files_in(front)[n];
                assert(list[m] == front[m]);
            } else {
                assert(list[list.len() - 1] == files_in(list)[n]);
            }
        }
    }
}

/// Every file that is written has the length and the checksum its header promises.
pub proof fn files_match_their_headers(bytes: Seq<u8>, e: Listed)
    requires
        contents_of(bytes, e) is Ok,
    ensures
        contents_of(bytes, e)->Ok_0.len() % 0x1_0000_0000 == e.size,
        crc32(contents_of(bytes, e)->Ok_0) == e.crc32,
{
}

// ------------------------------------------------------------------------------ reading undoes packing

/// A number in two bytes, least significant first.
pub open spec fn le16(n: nat) -> Seq<u8> {
    seq![(n % 256) as u8, (n / 256 % 256) as u8]
}

/// A number in four bytes, least significant first.
pub open spec fn le32(n: nat) -> Seq<u8> {
    seq![(n % 256) as u8, (n / 256 % 256) as u8, (n / 65536 % 256) as u8, (n / 16777216 % 256) as u8]
}

/// A file as it is put into an archive. What the other fields of the headers hold (versions, times,
/// attributes) does not matter.
pub struct Packed {
    pub name: Seq<char>,
    pub method: nat,
    /// The bytes as the archive holds them.
    pub stored: Seq<u8>,
    /// What they stand for.
    pub data: Seq<u8>,
    /// The extra fields of the two headers, and the comment.
    pub local_extra: Seq<u8>,
    pub extra: Seq<u8>,
    pub comment: Seq<u8>,
    /// Where the local header stands.
    pub offset: nat,
    /// What does not matter: 22 bytes of the local header; 6, 4 and 8 bytes of the directory's.
    pub local_rest: Seq<u8>,
    pub versions: Seq<u8>,
    pub times: Seq<u8>,
    pub attributes: Seq<u8>,
}

impl Packed {
    /// Every length fits its field, and no field says "see the zip64 record".
    pub open spec fn fits(self) -> bool {
        &&& encode_utf8(self.name).len() < 65536
        &&& self.local_extra.len() < 65536
        &&& self.extra.len() < 65536
        &&& self.comment.len() < 65536
        &&& self.stored.len() < 0xFFFF_FFFF
        &&& self.data.len() < 0xFFFF_FFFF
        &&& self.offset < 0xFFFF_FFFF
        &&& self.method < 65536
        &&& self.local_rest.len() == 22
        &&& self.versions.len() == 6
        &&& self.times.len() == 4
        &&& self.attributes.len() == 8
    }

    /// What the archive holds at the file's offset: the local header, the name, the extra field, and the
    /// bytes.
    pub open spec fn local(self) -> Seq<u8> {
        seq![0x50u8, 0x4b, 0x03, 0x04] + self.local_rest + le16(encode_utf8(self.name).len()) + le16(self.local_extra.len()) + encode_utf8(self.name)
            + self.local_extra + self.stored
    }

    /// What the directory holds of the file.
    pub open spec fn central(self) -> Seq<u8> {
        seq![0x50u8, 0x4b, 0x01, 0x02] + self.versions + le16(self.method) + self.times + le32(crc32(self.data) as nat) + le32(self.stored.len())
            + le32(self.data.len()) + le16(encode_utf8(self.name).len()) + le16(self.extra.len()) + le16(self.comment.len()) + self.attributes + le32(
            self.offset,
        ) + encode_utf8(self.name) + self.extra + self.comment
    }

    /// The file as the directory lists it.
    pub open spec fn entry(self) -> Listed {
        Listed {
            name: self.name,
            method: self.method,
            compressed_size: self.stored.len(),
            size: self.data.len(),
            crc32: crc32(self.data) as nat,
            offset: self.offset,
        }
    }
}

/// The end of an archive without a comment: the number of files and where the directory begins.
pub open spec fn end_record(count: nat, directory_at: nat, disks: Seq<u8>, size: Seq<u8>) -> Seq<u8> {
    seq![0x50u8, 0x4b, 0x05, 0x06] + disks + le16(count) + le16(count) + size + le32(directory_at) + le16(0)
}

/// `part` stands in the bytes at `at`.
pub open spec fn stands_at(bytes: Seq<u8>, at: int, part: Seq<u8>) -> bool {
    0 <= at && at + part.len() <= bytes.len() && bytes.subrange(at, at + part.len()) == part
}

proof fn le16_stands(bytes: Seq<u8>, at: int, n: nat)
    requires
        n < 65536,
        0 <= at,
        at + 2 <= bytes.len(),
        bytes[at] == le16(n)[0] && bytes[at + 1] == le16(n)[1],
    ensures
        le16_at(bytes, at) == n,
{
    assert(n / 256 % 256 == n / 256);
}

proof fn le32_stands(bytes: Seq<u8>, at: int, n: nat)
    requires
        n < 0x1_0000_0000,
        0 <= at,
        at + 4 <= bytes.len(),
        bytes[at] == le32(n)[0] && bytes[at + 1] == le32(n)[1] && bytes[at + 2] == le32(n)[2] && bytes[at + 3] == le32(n)[3],
    ensures
        le32_at(bytes, at) == n,
{
    assert(n / 16777216 < 256);
}

/// Numbers are read from the archive as they are written into it, least significant byte first.
pub proof fn numbers_read_back(before: Seq<u8>, n: nat, after: Seq<u8>)
    ensures
        n < 65536 ==> le16_at(before + le16(n) + after, before.len() as int) == n,
        n < 0x1_0000_0000 ==> le32_at(before + le32(n) + after, before.len() as int) == n,
{
    let at = before.len() as int;
    if n < 65536 {
        le16_stands(before + le16(n) + after, at, n);
    }
    if n < 0x1_0000_0000 {
        le32_stands(before + le32(n) + after, at, n);
    }
}

/// What an archive gives for a file is what was packed, whatever its extra field holds: the stored bytes,
/// or what the deflated ones stand for.
#[verifier::rlimit(40)]
pub proof fn reading_undoes_packing(bytes: Seq<u8>, p: Packed)
    requires
        p.fits(),
        stands_at(bytes, p.offset as int, p.local()),
        (p.method == 0 && p.stored == p.data) || (p.method == 8 && inflated(p.stored, p.data.len() + 1) == Result::<Seq<u8>, Seq<char>>::Ok(p.data)),
    ensures
        contents_of(bytes, p.entry()) == Result::<Seq<u8>, Seq<char>>::Ok(p.data),
{
    let at = p.offset as int;
    let l = p.local();
    let name = encode_utf8(p.name);
    let here = bytes.subrange(at, at + l.len());
    assert(forall|k: int| 0 <= k < l.len() ==> #[trigger] here[k] == bytes[at + k]);
    assert(here[0] == 0x50 && here[1] == 0x4b && here[2] == 0x03 && here[3] == 0x04);
    assert(bytes[at + 0] == 0x50 && bytes[at + 1] == 0x4b && bytes[at + 2] == 0x03 && bytes[at + 3] == 0x04);
    assert(le32_at(bytes, at) == LOCAL_SIGNATURE);
    assert(here[26] == le16(name.len())[0] && here[27] == le16(name.len())[1]);
    assert(here[28] == le16(p.local_extra.len())[0] && here[29] == le16(p.local_extra.len())[1]);
    assert(bytes[at + 26] == here[26] && bytes[at + 27] == here[27] && bytes[at + 28] == here[28] && bytes[at + 29] == here[29]);
    le16_stands(bytes, at + 26, name.len());
    le16_stands(bytes, at + 28, p.local_extra.len());
    let from = at + 30 + name.len() + p.local_extra.len();
    let raw = bytes.subrange(from, from + p.stored.len());
    assert forall|k: int| 0 <= k < p.stored.len() implies #[trigger] raw[k] == p.stored[k] by {
        assert(raw[k] == here[from - at + k]);
        assert(l[from - at + k] == p.stored[k]);
    }
    assert(raw =~= p.stored);
}

/// A file that was damaged is not handed out: where the bytes do not have the length and the checksum that
/// the directory promises, or the local header is not there, or the archive ends too soon, reading fails.
pub proof fn damage_is_noticed(bytes: Seq<u8>, e: Listed)
    ensures
        contents_of(bytes, e) is Ok ==> {
            let data = contents_of(bytes, e)->Ok_0;
            let at = e.offset as int;
            let from = at + 30 + bytes[at + 26] + bytes[at + 27] * 256 + bytes[at + 28] + bytes[at + 29] * 256;
            &&& crc32(data) == e.crc32
            &&& data.len() % 0x1_0000_0000 == e.size
            &&& bytes[at] == 0x50 && bytes[at + 1] == 0x4b && bytes[at + 2] == 0x03 && bytes[at + 3] == 0x04
            &&& from + e.compressed_size <= bytes.len()
            &&& e.method == 0 || e.method == 8
            &&& e.method == 0 ==> data == bytes.subrange(from, from + e.compressed_size)
            &&& e.method == 8 ==> inflated(bytes.subrange(from, from + e.compressed_size), e.size + 1) == Result::<Seq<u8>, Seq<char>>::Ok(data)
        },
{
    if contents_of(bytes, e) is Ok {
        let at = e.offset as int;
        let (a, b, c, d) = (bytes[at] as int, bytes[at + 1] as int, bytes[at + 2] as int, bytes[at + 3] as int);
        assert(a + b * 0x100 + c * 0x1_0000 + d * 0x100_0000 == 0x0403_4b50);
        assert(d == 4 && c == 3 && b == 0x4b && a == 0x50);
    }
}

/// The numbers and the name of a file, where the directory holds them.
spec fn holds_central(c: Seq<u8>, p: Packed) -> bool {
    let name = encode_utf8(p.name);
    let (method, crc, stored, size) = (le16(p.method), le32(crc32(p.data) as nat), le32(p.stored.len()), le32(p.data.len()));
    let (names, extra, comment, offset) = (le16(name.len()), le16(p.extra.len()), le16(p.comment.len()), le32(p.offset));
    &&& c.len() == 46 + name.len() + p.extra.len() + p.comment.len()
    &&& c[0] == 0x50 && c[1] == 0x4b && c[2] == 0x01 && c[3] == 0x02
    &&& c[10] == method[0] && c[11] == method[1]
    &&& c[16] == crc[0] && c[17] == crc[1] && c[18] == crc[2] && c[19] == crc[3]
    &&& c[20] == stored[0] && c[21] == stored[1] && c[22] == stored[2] && c[23] == stored[3]
    &&& c[24] == size[0] && c[25] == size[1] && c[26] == size[2] && c[27] == size[3]
    &&& c[28] == names[0] && c[29] == names[1]
    &&& c[30] == extra[0] && c[31] == extra[1]
    &&& c[32] == comment[0] && c[33] == comment[1]
    &&& c[42] == offset[0] && c[43] == offset[1] && c[44] == offset[2] && c[45] == offset[3]
    &&& forall|k: int| 46 <= k < 46 + name.len() ==> #[trigger] c[k] == name[k - 46]
}

#[verifier::spinoff_prover]
#[verifier::rlimit(40)]
proof fn central_holds(p: Packed)
    requires
        p.fits(),
    ensures
        holds_central(p.central(), p),
{
}

#[verifier::spinoff_prover]
#[verifier::rlimit(40)]
proof fn what_is_held_is_listed(bytes: Seq<u8>, at: int, p: Packed, i: nat, c: Seq<u8>)
    requires
        p.fits(),
        holds_central(c, p),
        stands_at(bytes, at, c),
    ensures
        listed_at(bytes, at, i) == Result::<(Listed, int), Seq<char>>::Ok((p.entry(), at + c.len())),
{
    reveal(listed_at);
    let name = encode_utf8(p.name);
    let here = bytes.subrange(at, at + c.len());
    assert(forall|k: int| 0 <= k < c.len() ==> #[trigger] here[k] == bytes[at + k]);
    assert(bytes[at + 0] == here[0] && bytes[at + 1] == here[1] && bytes[at + 2] == here[2] && bytes[at + 3] == here[3]);
    assert(le32_at(bytes, at) == CENTRAL_SIGNATURE);
    assert(bytes[at + 10] == here[10] && bytes[at + 11] == here[11]);
    le16_stands(bytes, at + 10, p.method);
    assert(bytes[at + 16] == here[16] && bytes[at + 17] == here[17] && bytes[at + 18] == here[18] && bytes[at + 19] == here[19]);
    le32_stands(bytes, at + 16, crc32(p.data) as nat);
    assert(bytes[at + 20] == here[20] && bytes[at + 21] == here[21] && bytes[at + 22] == here[22] && bytes[at + 23] == here[23]);
    le32_stands(bytes, at + 20, p.stored.len());
    assert(bytes[at + 24] == here[24] && bytes[at + 25] == here[25] && bytes[at + 26] == here[26] && bytes[at + 27] == here[27]);
    le32_stands(bytes, at + 24, p.data.len());
    assert(bytes[at + 28] == here[28] && bytes[at + 29] == here[29] && bytes[at + 30] == here[30] && bytes[at + 31] == here[31]);
    le16_stands(bytes, at + 28, name.len());
    le16_stands(bytes, at + 30, p.extra.len());
    assert(bytes[at + 32] == here[32] && bytes[at + 33] == here[33]);
    le16_stands(bytes, at + 32, p.comment.len());
    assert(bytes[at + 42] == here[42] && bytes[at + 43] == here[43] && bytes[at + 44] == here[44] && bytes[at + 45] == here[45]);
    le32_stands(bytes, at + 42, p.offset);
    let raw = bytes.subrange(at + 46, at + 46 + name.len());
    assert forall|k: int| 0 <= k < name.len() implies #[trigger] raw[k] == name[k] by {
        assert(raw[k] == here[46 + k]);
        assert(c[46 + k] == name[k]);
    }
    assert(raw =~= name);
    vstd::utf8::encode_utf8_valid_utf8(p.name);
    vstd::utf8::encode_utf8_decode_utf8(p.name);
}

/// The directory lists a file as it was packed, and the next one stands after its name, its extra field and
/// its comment.
pub proof fn the_directory_lists_what_was_packed(bytes: Seq<u8>, at: int, p: Packed, i: nat)
    requires
        p.fits(),
        stands_at(bytes, at, p.central()),
    ensures
        listed_at(bytes, at, i) == Result::<(Listed, int), Seq<char>>::Ok((p.entry(), at + p.central().len())),
{
    central_holds(p);
    what_is_held_is_listed(bytes, at, p, i, p.central());
}

/// The files from number `i` on stand in the directory one after the other, the first of them at `at`.
pub open spec fn stand_in_a_row(bytes: Seq<u8>, at: int, files: Seq<Packed>, i: int) -> bool
    decreases files.len() - i,
{
    i >= files.len() || i < 0 || (stands_at(bytes, at, files[i].central()) && stand_in_a_row(bytes, at + files[i].central().len(), files, i + 1))
}

proof fn a_row_is_listed(bytes: Seq<u8>, at: int, files: Seq<Packed>, i: int)
    requires
        0 <= i <= files.len(),
        forall|k: int| 0 <= k < files.len() ==> (#[trigger] files[k]).fits(),
        stand_in_a_row(bytes, at, files, i),
    ensures
        listed_from(bytes, at, i as nat, files.len()) == Result::<Seq<Listed>, Seq<char>>::Ok(files.skip(i).map_values(|p: Packed| p.entry())),
    decreases files.len() - i,
{
    let all = files.skip(i).map_values(|p: Packed| p.entry());
    if i < files.len() {
        the_directory_lists_what_was_packed(bytes, at, files[i], i as nat);
        a_row_is_listed(bytes, at + files[i].central().len(), files, i + 1);
        let rest = files.skip(i + 1).map_values(|p: Packed| p.entry());
        assert(all =~= seq![files[i].entry()] + rest);
    } else {
        assert(all =~= Seq::<Listed>::empty());
    }
}

/// An archive names the files that were packed into it, all of them and in order.
#[verifier::rlimit(40)]
pub proof fn an_archive_names_its_files(bytes: Seq<u8>, files: Seq<Packed>, directory_at: nat, disks: Seq<u8>, size: Seq<u8>)
    requires
        files.len() < 0xFFFF,
        directory_at < 0xFFFF_FFFF,
        disks.len() == 4,
        size.len() == 4,
        bytes.len() >= 22,
        stands_at(bytes, bytes.len() - 22, end_record(files.len(), directory_at, disks, size)),
        forall|k: int| 0 <= k < files.len() ==> (#[trigger] files[k]).fits(),
        stand_in_a_row(bytes, directory_at as int, files, 0),
    ensures
        directory_of(bytes) == Result::<Seq<Listed>, Seq<char>>::Ok(files.map_values(|p: Packed| p.entry())),
{
    let at = bytes.len() - 22;
    let r = end_record(files.len(), directory_at, disks, size);
    let here = bytes.subrange(at, at + r.len());
    assert(r.len() == 22);
    assert(forall|k: int| 0 <= k < r.len() ==> #[trigger] here[k] == bytes[at + k]);
    assert(here[0] == 0x50 && here[1] == 0x4b && here[2] == 0x05 && here[3] == 0x06);
    assert(bytes[at + 0] == 0x50 && bytes[at + 1] == 0x4b && bytes[at + 2] == 0x05 && bytes[at + 3] == 0x06);
    assert(le32_at(bytes, at) == EOCD_SIGNATURE);
    assert(eocd_of(bytes) == Some(at));
    assert(bytes[at + 8] == here[8] && bytes[at + 9] == here[9] && bytes[at + 10] == here[10] && bytes[at + 11] == here[11]);
    le16_stands(bytes, at + 8, files.len());
    le16_stands(bytes, at + 10, files.len());
    assert(bytes[at + 16] == here[16] && bytes[at + 17] == here[17] && bytes[at + 18] == here[18] && bytes[at + 19] == here[19]);
    le32_stands(bytes, at + 16, directory_at);
    a_row_is_listed(bytes, directory_at as int, files, 0);
    assert(files.skip(0) =~= files);
}

proof fn packed_steps(bytes: Seq<u8>, files: Seq<Packed>, i: int)
    requires
        0 <= i <= files.len(),
        forall|k: int|
            0 <= k < files.len() ==> {
                let p = #[trigger] files[k];
                &&& p.fits()
                &&& stands_at(bytes, p.offset as int, p.local())
                &&& (p.method == 0 && p.stored == p.data) || (p.method == 8 && inflated(p.stored, p.data.len() + 1)
                    == Result::<Seq<u8>, Seq<char>>::Ok(p.data))
                &&& !is_folder(p.name)
                &&& safe_names(p.name) is Some
            },
    ensures
        steps_from(bytes, files.map_values(|p: Packed| p.entry()), i) == (
            files.skip(i).map_values(|p: Packed| Stepped::File(safe_names(p.name)->0, p.data)),
            None::<Seq<char>>,
        ),
    decreases files.len() - i,
{
    let list = files.map_values(|p: Packed| p.entry());
    let all = files.skip(i).map_values(|p: Packed| Stepped::File(safe_names(p.name)->0, p.data));
    if i < files.len() {
        let p = files[i];
        assert(p.fits());
        reading_undoes_packing(bytes, p);
        packed_steps(bytes, files, i + 1);
        let rest = files.skip(i + 1).map_values(|p: Packed| Stepped::File(safe_names(p.name)->0, p.data));
        assert(list[i] == p.entry());
        assert(all =~= seq![Stepped::File(safe_names(p.name)->0, p.data)] + rest);
    } else {
        assert(all =~= Seq::<Stepped>::empty());
    }
}

/// Unpacking undoes packing: every file that was packed is written below the destination, at its path and
/// with its bytes, in order, and nothing else is.
pub proof fn unpacking_undoes_packing(bytes: Seq<u8>, files: Seq<Packed>, directory_at: nat, disks: Seq<u8>, size: Seq<u8>)
    requires
        files.len() < 0xFFFF,
        directory_at < 0xFFFF_FFFF,
        disks.len() == 4,
        size.len() == 4,
        bytes.len() >= 22,
        stands_at(bytes, bytes.len() - 22, end_record(files.len(), directory_at, disks, size)),
        stand_in_a_row(bytes, directory_at as int, files, 0),
        forall|k: int|
            0 <= k < files.len() ==> {
                let p = #[trigger] files[k];
                &&& p.fits()
                &&& stands_at(bytes, p.offset as int, p.local())
                &&& (p.method == 0 && p.stored == p.data) || (p.method == 8 && inflated(p.stored, p.data.len() + 1)
                    == Result::<Seq<u8>, Seq<char>>::Ok(p.data))
                &&& !is_folder(p.name)
                &&& safe_names(p.name) is Some
            },
    ensures
        extraction(bytes) == (files.map_values(|p: Packed| Stepped::File(safe_names(p.name)->0, p.data)), None::<Seq<char>>),
{
    an_archive_names_its_files(bytes, files, directory_at, disks, size);
    packed_steps(bytes, files, 0);
    assert(files.skip(0) =~= files);
}

// ------------------------------------------------------------------------------ which paths are taken

proof fn parts_skip(s: Seq<char>, start: int, i: int, j: int)
    requires
        0 <= start <= i <= j <= s.len(),
        forall|k: int| i <= k < j ==> #[trigger] s[k] != '/' && s[k] != '\\',
    ensures
        parts_from(s, start, i) == parts_from(s, start, j),
    decreases j - i,
{
    if i < j {
        parts_skip(s, start, i + 1, j);
    }
}

proof fn parts_shift(s: Seq<char>, by: int, start: int, i: int)
    requires
        0 <= by,
        0 <= start <= i,
        by + i <= s.len(),
    ensures
        parts_from(s, by + start, by + i) == parts_from(s.skip(by), start, i),
    decreases s.len() - i,
{
    let t = s.skip(by);
    if by + i >= s.len() {
        assert(s.subrange(by + start, s.len() as int) =~= t.subrange(start, t.len() as int));
    } else if is_separator(s[by + i]) {
        parts_shift(s, by, i + 1, i + 1);
        assert(s.subrange(by + start, by + i) =~= t.subrange(start, i));
    } else {
        parts_shift(s, by, start, i + 1);
    }
}

/// A path without a separator is its only part; one before a slash or a backslash is the first part, and
/// the others are those of what follows.
pub proof fn the_first_part_ends_at_a_slash(first: Seq<char>, sep: char, rest: Seq<char>)
    requires
        !first.contains('/') && !first.contains('\\'),
        sep == '/' || sep == '\\',
    ensures
        path_parts(first) == seq![first],
        path_parts(first + seq![sep] + rest) == seq![first] + path_parts(rest),
{
    let n = first.len() as int;
    assert(forall|k: int| 0 <= k < n ==> #[trigger] first[k] != '/' && first[k] != '\\');
    parts_skip(first, 0, 0, n);
    assert(first.subrange(0, n) =~= first);
    let s = first + seq![sep] + rest;
    assert forall|k: int| 0 <= k < n implies #[trigger] s[k] != '/' && s[k] != '\\' by {
        assert(s[k] == first[k]);
    }
    parts_skip(s, 0, 0, n);
    assert(s[n] == sep);
    assert(s.subrange(0, n) =~= first);
    parts_shift(s, n + 1, 0, 0);
    assert(s.skip(n + 1) =~= rest);
}

proof fn all_are_names(parts: Seq<Seq<char>>)
    requires
        forall|n: int| 0 <= n < parts.len() ==> (#[trigger] parts[n]).len() > 0 && parts[n] != "."@,
    ensures
        names_in(parts) == parts,
    decreases parts.len(),
{
    if parts.len() > 0 {
        all_are_names(parts.drop_last());
        assert(parts.drop_last().push(parts.last()) =~= parts);
    } else {
        assert(parts =~= Seq::<Seq<char>>::empty());
    }
}

/// A name that is taken as it is: not empty, no `.` or `..`, no slash, backslash or NUL in it, and no colon
/// after its first character.
pub open spec fn is_ordinary(part: Seq<char>) -> bool {
    &&& part.len() > 0
    &&& part != "."@
    &&& part != ".."@
    &&& !part.contains('/') && !part.contains('\\') && !part.contains('\0')
    &&& part.len() >= 2 ==> part[1] != ':'
}

proof fn ordinary_parts(parts: Seq<Seq<char>>)
    requires
        parts.len() > 0,
        forall|n: int| 0 <= n < parts.len() ==> is_ordinary(#[trigger] parts[n]),
    ensures
        path_parts(joined_by(parts, '/')) == parts,
        !joined_by(parts, '/').contains('\0'),
        joined_by(parts, '/').len() > 0,
        joined_by(parts, '/')[0] == parts[0][0],
        joined_by(parts, '/').len() >= 2 ==> joined_by(parts, '/')[1] != ':',
    decreases parts.len(),
{
    let s = joined_by(parts, '/');
    let first = parts[0];
    assert(is_ordinary(first));
    if parts.len() == 1 {
        the_first_part_ends_at_a_slash(first, '/', Seq::empty());
        assert(seq![first] =~= parts);
    } else {
        let rest = parts.skip(1);
        assert forall|n: int| 0 <= n < rest.len() implies is_ordinary(#[trigger] rest[n]) by {
            assert(rest[n] == parts[n + 1]);
        }
        ordinary_parts(rest);
        the_first_part_ends_at_a_slash(first, '/', joined_by(rest, '/'));
        assert(seq![first] + rest =~= parts);
        if s.contains('\0') {
            let k = choose|k: int| 0 <= k < s.len() && s[k] == '\0';
            if k < first.len() {
                assert(first[k] == '\0');
            } else if k > first.len() {
                assert(joined_by(rest, '/')[k - first.len() - 1] == '\0');
            }
        }
        assert(s[0] == first[0]);
        if first.len() == 1 {
            assert(s[1] == '/');
        } else {
            assert(s[1] == first[1]);
        }
    }
}

/// An ordinary path is taken as it is, folder by folder.
pub proof fn an_ordinary_path_is_taken_as_it_is(parts: Seq<Seq<char>>)
    requires
        parts.len() > 0,
        forall|n: int| 0 <= n < parts.len() ==> is_ordinary(#[trigger] parts[n]),
    ensures
        safe_names(joined_by(parts, '/')) == Some(parts),
        !is_folder(joined_by(parts, '/')),
        is_folder(joined_by(parts, '/').push('/')) && is_folder(joined_by(parts, '/').push('\\')),
{
    let s = joined_by(parts, '/');
    ordinary_parts(parts);
    assert forall|n: int| 0 <= n < parts.len() implies (#[trigger] parts[n]).len() > 0 && parts[n] != "."@ && parts[n] != ".."@ && !has_drive(parts[n]) by {
        assert(is_ordinary(parts[n]));
    }
    all_are_names(parts);
    let first = parts[0];
    assert(is_ordinary(first));
    assert(first[0] != '/' && first[0] != '\\') by {
        assert(first.contains(first[0]));
    }
    assert(!is_rooted(s));
    last_of_joined(parts);
}

proof fn last_of_joined(parts: Seq<Seq<char>>)
    requires
        parts.len() > 0,
        forall|n: int| 0 <= n < parts.len() ==> is_ordinary(#[trigger] parts[n]),
    ensures
        !is_folder(joined_by(parts, '/')),
    decreases parts.len(),
{
    let first = parts[0];
    assert(is_ordinary(first));
    if parts.len() == 1 {
        assert(first.contains(first.last()));
    } else {
        let rest = parts.skip(1);
        assert forall|n: int| 0 <= n < rest.len() implies is_ordinary(#[trigger] rest[n]) by {
            assert(rest[n] == parts[n + 1]);
        }
        last_of_joined(rest);
        ordinary_parts(rest);
        assert(joined_by(parts, '/').last() == joined_by(rest, '/').last());
    }
}

/// A path that could lead anywhere else is not taken at all: one that is empty, holds a NUL, begins with a
/// slash, a backslash or a drive, or goes through `..`, also behind a backslash.
pub proof fn a_path_that_leads_out_is_not_taken(name: Seq<char>, before: Seq<Seq<char>>, after: Seq<char>)
    requires
        forall|n: int| 0 <= n < before.len() ==> !(#[trigger] before[n]).contains('/') && !before[n].contains('\\'),
    ensures
        name.len() == 0 || name.contains('\0') || name[0] == '/' || name[0] == '\\' ==> safe_names(name) is None,
        name.len() >= 2 && ('a' <= name[0] <= 'z' || 'A' <= name[0] <= 'Z') && name[1] == ':' ==> safe_names(name) is None,
        safe_names(".."@) is None,
        safe_names(".."@ + seq!['/'] + after) is None && safe_names(".."@ + seq!['\\'] + after) is None,
        before.len() > 0 ==> safe_names(joined_by(before, '/') + seq!['/'] + ".."@ + seq!['/'] + after) is None,
        before.len() > 0 ==> safe_names(joined_by(before, '\\') + seq!['\\'] + ".."@) is None,
        safe_names("."@) is None,
{
    reveal_strlit("..");
    reveal_strlit(".");
    assert(".."@[0] == '.' && ".."@[1] == '.' && "."@[0] == '.');
    the_first_part_ends_at_a_slash(".."@, '/', after);
    the_first_part_ends_at_a_slash(".."@, '\\', after);
    assert(path_parts(".."@)[0] == ".."@);
    assert(path_parts(".."@ + seq!['/'] + after)[0] == ".."@);
    assert(path_parts(".."@ + seq!['\\'] + after)[0] == ".."@);
    if before.len() > 0 {
        let tail = ".."@ + seq!['/'] + after;
        parts_of_joined(before, '/', tail);
        let whole = joined_by(before, '/') + seq!['/'] + ".."@ + seq!['/'] + after;
        assert(whole =~= joined_by(before, '/') + seq!['/'] + tail);
        assert(path_parts(whole)[before.len() as int] == ".."@);
        parts_of_joined(before, '\\', ".."@);
        assert(path_parts(joined_by(before, '\\') + seq!['\\'] + ".."@)[before.len() as int] == ".."@);
    }
    the_first_part_ends_at_a_slash("."@, '/', after);
    let dot = seq!["."@];
    assert(dot.drop_last() =~= Seq::<Seq<char>>::empty());
    assert(names_in(dot.drop_last()).len() == 0);
    assert(names_in(dot).len() == 0);
}

proof fn parts_of_joined(before: Seq<Seq<char>>, sep: char, rest: Seq<char>)
    requires
        before.len() > 0,
        sep == '/' || sep == '\\',
        forall|n: int| 0 <= n < before.len() ==> !(#[trigger] before[n]).contains('/') && !before[n].contains('\\'),
    ensures
        path_parts(joined_by(before, sep) + seq![sep] + rest) == before + path_parts(rest),
    decreases before.len(),
{
    let first = before[0];
    assert(!first.contains('/'));
    if before.len() == 1 {
        the_first_part_ends_at_a_slash(first, sep, rest);
        assert(seq![first] =~= before);
    } else {
        let more = before.skip(1);
        assert forall|n: int| 0 <= n < more.len() implies !(#[trigger] more[n]).contains('/') && !more[n].contains('\\') by {
            assert(more[n] == before[n + 1]);
        }
        parts_of_joined(more, sep, rest);
        let tail = joined_by(more, sep) + seq![sep] + rest;
        the_first_part_ends_at_a_slash(first, sep, tail);
        assert(joined_by(before, sep) + seq![sep] + rest =~= first + seq![sep] + tail);
        assert(seq![first] + (more + path_parts(rest)) =~= before + path_parts(rest));
    }
}

} // verus!
