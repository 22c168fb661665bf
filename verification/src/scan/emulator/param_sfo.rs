//! Reading `PARAM.SFO`, the metadata file Sony uses on the PSP, the PS3 and the PS4.
//!
//! It serves the same end [`super::psx_card`] serves for the PS1: finding out the **game's name**
//! from the save itself. Here the name sits in a file declared next to the save.
//!
//! Format, from PPSSPP's code (`Core/ELF/ParamSFO.cpp`):
//!
//! ```text
//! header, 20 bytes, all little-endian:
//!   0x00  u32  magic, 0x46535000, which is "\0PSF"
//!   0x04  u32  version, usually 0x00000101
//!   0x08  u32  start of the key table
//!   0x0C  u32  start of the data table
//!   0x10  u32  number of entries
//!
//! each index entry, 16 bytes:
//!   0x00  u16  key offset, relative to the key table
//!   0x02  u16  data format
//!   0x04  u32  bytes used
//!   0x08  u32  bytes reserved
//!   0x0C  u32  data offset, relative to the data table
//! ```
//!
//! Formats: `0x0204` is zero-terminated UTF-8 text, `0x0004` is UTF-8 text with no terminator,
//! and `0x0404` is an unsigned integer. Only text matters here.
use vstd::prelude::*;
use vstd::utf8::*;

use super::le::{le16, le32, u16_at, u32_at, u32_in};
use super::text::{
    ascii_upper, char_is_ascii_alpha, char_is_ascii_digit, char_to_ascii_upper, chars_of,
    find_zero, is_ascii_alpha, is_ascii_digit, lemma_zero_at_bounds, opt_view, read_utf8_field,
    string_from, utf8_chars, utf8_field, zero_at,
};

verus! {

/// The header's magic, `"\0PSF"` read as a little-endian integer.
pub const MAGIC: u32 = 0x4653_5000;

pub const HEADER_SIZE: usize = 20;

pub const INDEX_ENTRY_SIZE: usize = 16;

/// UTF-8 text, ended by a zero.
pub const FMT_UTF8: u16 = 0x0204;

/// UTF-8 text with no terminator.
pub const FMT_UTF8_RAW: u16 = 0x0004;

/// What index entry `index` says about the search: `None` when the search goes on past it,
/// otherwise the search's answer.
///
/// An entry that is not text is passed over. For a text entry, the key is read from its offset up
/// to the next zero; a key that runs off the end of the file, has no terminator or is not UTF-8
/// ends the search with nothing. An entry whose key is `wanted` ends the search with its value,
/// when the value lies inside the file.
#[verifier::opaque]
pub open spec fn entry_outcome(
    b: Seq<u8>,
    wanted: Seq<char>,
    key_table: int,
    data_table: int,
    index: int,
) -> Option<Option<Seq<char>>> {
    let at = HEADER_SIZE + INDEX_ENTRY_SIZE * index;
    let format = le16(b, at + 2);
    if format != FMT_UTF8 && format != FMT_UTF8_RAW {
        None
    } else {
        let key_start = key_table + le16(b, at);
        if key_start > b.len() {
            Some(None)
        } else {
            let rest = b.subrange(key_start, b.len() as int);
            let key = rest.take(zero_at(rest));
            if zero_at(rest) == rest.len() || !valid_utf8(key) {
                Some(None)
            } else if decode_utf8(key) != wanted {
                None
            } else {
                let value_at = data_table + le32(b, at + 12);
                let len = le32(b, at + 4) as int;
                if value_at + len <= b.len() {
                    Some(utf8_field(b.subrange(value_at, value_at + len)))
                } else {
                    Some(None)
                }
            }
        }
    }
}

/// The text value found by walking the index from entry `index` on.
pub open spec fn search_from(
    b: Seq<u8>,
    wanted: Seq<char>,
    key_table: int,
    data_table: int,
    entries: int,
    index: int,
) -> Option<Seq<char>>
    decreases entries - index,
{
    if index < 0 || index >= entries {
        None
    } else {
        match entry_outcome(b, wanted, key_table, data_table, index) {
            None => search_from(b, wanted, key_table, data_table, entries, index + 1),
            Some(answer) => answer,
        }
    }
}

fn entry_step(
    bytes: &[u8],
    wanted: &Vec<char>,
    key_table: usize,
    data_table: usize,
    index: usize,
) -> (r: Option<Option<String>>)
    requires
        HEADER_SIZE + INDEX_ENTRY_SIZE * index + 16 <= bytes@.len(),
    ensures
        r is None ==> entry_outcome(bytes@, wanted@, key_table as int, data_table as int, index as int) is None,
        r matches Some(x) ==> entry_outcome(bytes@, wanted@, key_table as int, data_table as int, index as int) == Some(opt_view(x)),
{
    reveal(entry_outcome);
    let n = bytes.len();
    let at = HEADER_SIZE + INDEX_ENTRY_SIZE * index;
    let key_offset = u16_at(bytes, at).unwrap() as usize;
    let format = u16_at(bytes, at + 2).unwrap();
    let len = u32_at(bytes, at + 4).unwrap() as usize;
    let data_offset = u32_at(bytes, at + 0x0C).unwrap() as usize;
    if format != FMT_UTF8 && format != FMT_UTF8_RAW {
        return None;
    }
    if key_table > n || n - key_table < key_offset {
        return Some(None);
    }
    let key_start = key_table + key_offset;
    let rest = vstd::slice::slice_subrange(bytes, key_start, n);
    let key_len = find_zero(rest);
    proof {
        lemma_zero_at_bounds(rest@);
    }
    if key_len == rest.len() {
        return Some(None);
    }
    let key = match utf8_chars(vstd::slice::slice_subrange(rest, 0, key_len)) {
        Some(k) => k,
        None => return Some(None),
    };
    if !chars_eq(&key, wanted) {
        return None;
    }
    if data_table > usize::MAX - data_offset {
        return Some(None);
    }
    Some(text_at(bytes, data_table + data_offset, len))
}

/// The text value of a key: `None` when the file is not an SFO, is cut short, lacks the key, or
/// the value is not text. The entry count is capped by what fits in the file.
pub open spec fn sfo_string(b: Seq<u8>, wanted: Seq<char>) -> Option<Seq<char>> {
    if b.len() < HEADER_SIZE || le32(b, 0) != MAGIC {
        None
    } else {
        let declared = le32(b, 0x10) as int;
        let fit = (b.len() - HEADER_SIZE) / (INDEX_ENTRY_SIZE as int);
        let entries = if declared < fit {
            declared
        } else {
            fit
        };
        search_from(b, wanted, le32(b, 0x08) as int, le32(b, 0x0C) as int, entries, 0)
    }
}

fn chars_eq(a: &Vec<char>, b: &Vec<char>) -> (r: bool)
    ensures
        r == (a@ == b@),
{
    if a.len() != b.len() {
        return false;
    }
    let mut i: usize = 0;
    while i < a.len()
        invariant
            a.len() == b.len(),
            i <= a.len(),
            forall|k: int| 0 <= k < i ==> a@[k] == b@[k],
        decreases a.len() - i,
    {
        if a[i] != b[i] {
            return false;
        }
        i = i + 1;
    }
    assert(a@ == b@);
    true
}

/// Reads a text that ends at a zero, or the whole piece when there is no terminator.
fn text_at(bytes: &[u8], at: usize, len: usize) -> (r: Option<String>)
    ensures
        opt_view(r) == (if at + len <= bytes@.len() {
            utf8_field(bytes@.subrange(at as int, at + len))
        } else {
            None
        }),
{
    if at > bytes.len() || bytes.len() - at < len {
        return None;
    }
    read_utf8_field(vstd::slice::slice_subrange(bytes, at, at + len))
}

/// Reads the text value of a key.
///
/// Returns `None` when the file is not an SFO, is truncated, the key does not exist, or the value
/// is not text. It never panics: this reads a file off somebody else's disk, and a corrupt file
/// has to become "don't know", not a crash.
pub fn string_value(bytes: &[u8], wanted: &str) -> (r: Option<String>)
    ensures
        opt_view(r) == sfo_string(bytes@, wanted@),
{
    let n = bytes.len();
    if n < HEADER_SIZE {
        return None;
    }
    let magic = u32_at(bytes, 0).unwrap();
    if magic != MAGIC {
        return None;
    }
    let key_table = u32_at(bytes, 0x08).unwrap() as usize;
    let data_table = u32_at(bytes, 0x0C).unwrap() as usize;
    let declared = u32_at(bytes, 0x10).unwrap() as usize;
    let fit = (n - HEADER_SIZE) / INDEX_ENTRY_SIZE;
    let entries = if declared < fit {
        declared
    } else {
        fit
    };
    let wanted_chars = chars_of(wanted);
    let ghost b = bytes@;
    let ghost w = wanted@;
    let mut index: usize = 0;
    while index < entries
        invariant
            b == bytes@,
            n == b.len(),
            w == wanted_chars@,
            w == wanted@,
            n >= HEADER_SIZE,
            entries <= (n - HEADER_SIZE) / (INDEX_ENTRY_SIZE as int),
            index <= entries,
            sfo_string(b, w) == search_from(b, w, key_table as int, data_table as int, entries as int, index as int),
        decreases entries - index,
    {
        assert(HEADER_SIZE + INDEX_ENTRY_SIZE * index + 16 <= n) by (nonlinear_arith)
            requires
                index < entries,
                entries <= (n - HEADER_SIZE) / (INDEX_ENTRY_SIZE as int),
                n >= HEADER_SIZE,
        ;
        match entry_step(bytes, &wanted_chars, key_table, data_table, index) {
            Some(answer) => {
                assert(search_from(b, w, key_table as int, data_table as int, entries as int, index as int) == opt_view(answer));
                return answer;
            },
            None => {},
        }
        index = index + 1;
    }
    None
}

/// The game's name, as the save itself declares it.
pub fn title(bytes: &[u8]) -> (r: Option<String>)
    ensures
        opt_view(r) == sfo_string(bytes@, "TITLE"@),
{
    string_value(bytes, "TITLE")
}

/// A PlayStation title id at the start of a name: four ASCII letters and five digits, letters in
/// upper case.
pub open spec fn title_id(s: Seq<char>) -> Option<Seq<char>> {
    if s.len() >= 9 && (forall|k: int| 0 <= k < 4 ==> is_ascii_alpha(#[trigger] s[k])) && (forall|
        k: int,
    |
        4 <= k < 9 ==> is_ascii_digit(#[trigger] s[k])) {
        Some(s.subrange(0, 4).map_values(|c: char| ascii_upper(c)) + s.subrange(4, 9))
    } else {
        None
    }
}

/// A PlayStation game id in text: four letters and five digits.
///
/// It serves the PSP (`ULUS12345`) and the PS3 (`BLES00932`, `NPEA00275`), which use the same
/// shape. The folder name carries suffixes that vary by game and by save kind (`ULUS1234501`,
/// `BLES00932-AUTO`), so what counts is the **start**.
pub fn title_id_prefix(name: &str) -> (r: Option<String>)
    ensures
        opt_view(r) == title_id(name@),
{
    let chars = chars_of(name);
    if chars.len() < 9 {
        return None;
    }
    let mut out: Vec<char> = Vec::new();
    let mut k: usize = 0;
    while k < 4
        invariant
            k <= 4,
            chars@ == name@,
            chars@.len() >= 9,
            forall|j: int| 0 <= j < k ==> is_ascii_alpha(#[trigger] chars@[j]),
            out@ == chars@.subrange(0, k as int).map_values(|c: char| ascii_upper(c)),
        decreases 4 - k,
    {
        if !char_is_ascii_alpha(chars[k]) {
            return None;
        }
        out.push(char_to_ascii_upper(chars[k]));
        k = k + 1;
        assert(out@ == chars@.subrange(0, k as int).map_values(|c: char| ascii_upper(c)));
    }
    let ghost head = out@;
    while k < 9
        invariant
            4 <= k <= 9,
            chars@ == name@,
            chars@.len() >= 9,
            forall|j: int| 0 <= j < 4 ==> is_ascii_alpha(#[trigger] chars@[j]),
            forall|j: int| 4 <= j < k ==> is_ascii_digit(#[trigger] chars@[j]),
            out@ == head + chars@.subrange(4, k as int),
        decreases 9 - k,
    {
        if !char_is_ascii_digit(chars[k]) {
            return None;
        }
        out.push(chars[k]);
        k = k + 1;
        assert(out@ == head + chars@.subrange(4, k as int));
    }
    Some(string_from(&out))
}


/// The index entries an SFO is read through: as many as it declares, and no more than fit in it.
pub open spec fn entries_read(b: Seq<u8>) -> int {
    let declared = le32(b, 0x10) as int;
    let fit = (b.len() - HEADER_SIZE) / (INDEX_ENTRY_SIZE as int);
    if declared < fit {
        declared
    } else {
        fit
    }
}

/// Index entry `index` holds text.
pub open spec fn holds_text(b: Seq<u8>, index: int) -> bool {
    let format = le16(b, HEADER_SIZE + INDEX_ENTRY_SIZE * index + 2);
    format == FMT_UTF8 || format == FMT_UTF8_RAW
}

/// The key of index entry `index`, when it is there, ends with a zero and is UTF-8.
pub open spec fn key_of(b: Seq<u8>, key_table: int, index: int) -> Option<Seq<char>> {
    let key_start = key_table + le16(b, HEADER_SIZE + INDEX_ENTRY_SIZE * index);
    if key_start > b.len() {
        None
    } else {
        let rest = b.subrange(key_start, b.len() as int);
        let key = rest.take(zero_at(rest));
        if zero_at(rest) == rest.len() || !valid_utf8(key) {
            None
        } else {
            Some(decode_utf8(key))
        }
    }
}

/// The text value of index entry `index`, when it lies inside the file: cut at its first zero,
/// trimmed, and none when empty or not UTF-8.
pub open spec fn value_of(b: Seq<u8>, data_table: int, index: int) -> Option<Seq<char>> {
    let at = HEADER_SIZE + INDEX_ENTRY_SIZE * index;
    let value_at = data_table + le32(b, at + 12);
    let len = le32(b, at + 4) as int;
    if value_at + len <= b.len() {
        utf8_field(b.subrange(value_at, value_at + len))
    } else {
        None
    }
}

proof fn lemma_search_from(b: Seq<u8>, wanted: Seq<char>, key_table: int, data_table: int, entries: int, index: int)
    requires
        0 <= index,
    ensures
        search_from(b, wanted, key_table, data_table, entries, index) matches Some(v) ==> exists|i: int|
            {
                &&& index <= i < entries
                &&& #[trigger] holds_text(b, i)
                &&& key_of(b, key_table, i) == Some(wanted)
                &&& value_of(b, data_table, i) == Some(v)
                &&& forall|j: int|
                    index <= j < i ==> !#[trigger] holds_text(b, j) || (key_of(b, key_table, j) matches Some(k)
                        && k != wanted)
            },
    decreases entries - index,
{
    reveal(entry_outcome);
    if index < entries {
        lemma_search_from(b, wanted, key_table, data_table, entries, index + 1);
        if let Some(v) = search_from(b, wanted, key_table, data_table, entries, index) {
            if entry_outcome(b, wanted, key_table, data_table, index) is None {
                let i = choose|i: int|
                    {
                        &&& index + 1 <= i < entries
                        &&& #[trigger] holds_text(b, i)
                        &&& key_of(b, key_table, i) == Some(wanted)
                        &&& value_of(b, data_table, i) == Some(v)
                        &&& forall|j: int|
                            index + 1 <= j < i ==> !#[trigger] holds_text(b, j) || (key_of(b, key_table, j) matches Some(k)
                                && k != wanted)
                    };
                assert forall|j: int| index <= j < i implies !#[trigger] holds_text(b, j) || (key_of(b, key_table, j) matches Some(k)
                    && k != wanted) by {
                    if j == index {
                    }
                }
            } else {
                assert(holds_text(b, index));
            }
        }
    }
}

/// A value is only ever returned from a file that starts with the SFO magic, from the first
/// index entry of a text format whose key is the one asked for, among the entries the header
/// declares and the file can hold: a header that claims more entries than fit is not believed.
pub proof fn a_value_comes_from_the_first_text_entry_of_its_key(b: Seq<u8>, wanted: Seq<char>)
    ensures
        b.len() < HEADER_SIZE || le32(b, 0) != MAGIC ==> sfo_string(b, wanted) is None,
        sfo_string(b, wanted) matches Some(v) ==> exists|i: int|
            {
                &&& 0 <= i < entries_read(b)
                &&& HEADER_SIZE + INDEX_ENTRY_SIZE * (i + 1) <= b.len()
                &&& #[trigger] holds_text(b, i)
                &&& key_of(b, le32(b, 0x08) as int, i) == Some(wanted)
                &&& value_of(b, le32(b, 0x0C) as int, i) == Some(v)
                &&& forall|j: int|
                    0 <= j < i ==> !#[trigger] holds_text(b, j) || (key_of(b, le32(b, 0x08) as int, j) matches Some(k)
                        && k != wanted)
            },
{
    if b.len() >= HEADER_SIZE && le32(b, 0) == MAGIC {
        lemma_search_from(b, wanted, le32(b, 0x08) as int, le32(b, 0x0C) as int, entries_read(b), 0);
        if let Some(v) = sfo_string(b, wanted) {
            let i = choose|i: int|
                {
                    &&& 0 <= i < entries_read(b)
                    &&& #[trigger] holds_text(b, i)
                    &&& key_of(b, le32(b, 0x08) as int, i) == Some(wanted)
                    &&& value_of(b, le32(b, 0x0C) as int, i) == Some(v)
                    &&& forall|j: int|
                        0 <= j < i ==> !#[trigger] holds_text(b, j) || (key_of(b, le32(b, 0x08) as int, j) matches Some(k)
                            && k != wanted)
                };
            let fit = (b.len() - HEADER_SIZE) / (INDEX_ENTRY_SIZE as int);
            assert(i < fit);
            assert(INDEX_ENTRY_SIZE * (i + 1) <= INDEX_ENTRY_SIZE * fit) by (nonlinear_arith)
                requires
                    i + 1 <= fit;
            assert(INDEX_ENTRY_SIZE * fit <= b.len() - HEADER_SIZE) by (nonlinear_arith)
                requires
                    fit == (b.len() - HEADER_SIZE) / (INDEX_ENTRY_SIZE as int),
                    b.len() >= HEADER_SIZE;
        }
    }
}

} // verus!
