//! Reading the PlayStation memory card format.
//!
//! A PlayStation memory card is a raw image of 131,072 bytes with no header, which emulators save
//! as `.mcd` (DuckStation), `.mcr` (ePSXe) and the like. The format is public:
//!
//! * 16 blocks of 8,192 bytes, each block 64 frames of 128 bytes.
//! * Block 0 is the directory. Frames 1 to 15 describe save blocks 1 to 15: state at `0x00..0x04`
//!   (`0x51` = in use, first block of the save), and the file name at `0x0A..0x1F`, ASCII ended by
//!   `0x00`. The name carries the game's code, for example `BASLUS-01251FF9-01`.
//! * The first frame of each save block is the "title frame": signature `SC` at `0x00..0x02` and
//!   the **title written by the game itself** at `0x04..0x44`, 64 bytes of Shift-JIS.
//!
//! Nothing here invents: a byte outside the format, a title that does not decode or a file of the
//! wrong size all end in absent information, never in a guess.
use vstd::prelude::*;

use super::le::{le32, u32_at, u32_in};
use super::text::{
    ascii_upper, char_is_ascii_alpha, char_is_ascii_digit, char_to_ascii_upper, chars_of,
    decode_shift_jis, is_ascii_alpha, is_ascii_digit, latin1, opt_view, latin1_before_zero, before_zero,
    shift_jis_title, string_from,
};

verus! {

/// The exact size of a PlayStation memory card image.
pub const CARD_SIZE: usize = 131_072;

const FRAME_SIZE: usize = 128;

const BLOCK_SIZE: usize = 8_192;

/// Save blocks, that is, every block but the directory block 0.
const SAVE_BLOCKS: usize = 15;

/// Block state: in use, and the first (or only) block of the save.
pub const STATE_IN_USE_FIRST: u32 = 0x0000_0051;

/// A save found on the card.
#[derive(Clone, Debug, Eq, PartialEq, Ord, PartialOrd, Hash)]
pub struct CardEntry {
    /// Save block, from 1 to 15.
    pub slot: usize,
    /// The game's media code, for example `SLUS-01251`. This is the stable identity.
    pub serial: String,
    /// Title written by the game itself. `None` when the card carries none or it does not decode.
    pub title: Option<String>,
}

impl View for CardEntry {
    type V = (usize, Seq<char>, Option<Seq<char>>);

    open spec fn view(&self) -> Self::V {
        (self.slot, self.serial@, opt_view(self.title))
    }
}

/// How many ASCII digits run from `from` on.
pub open spec fn digit_run(s: Seq<char>, from: int) -> int
    decreases s.len() - from,
{
    if 0 <= from < s.len() && is_ascii_digit(s[from]) {
        1 + digit_run(s, from + 1)
    } else {
        0
    }
}

/// A media code starts at `start`: four ASCII letters, a hyphen, and three to five digits.
pub open spec fn code_starts_at(s: Seq<char>, start: int) -> bool {
    &&& 0 <= start
    &&& start + 4 < s.len()
    &&& forall|k: int| 0 <= k < 4 ==> is_ascii_alpha(#[trigger] s[start + k])
    &&& s[start + 4] == '-'
    &&& 3 <= digit_run(s, start + 5) <= 5
}

/// The first place, from `start` on, where a media code starts. The search stops where four
/// letters no longer fit.
pub open spec fn first_code_from(s: Seq<char>, start: int) -> Option<int>
    decreases s.len() - start,
{
    if start < 0 || start + 4 > s.len() {
        None
    } else if code_starts_at(s, start) {
        Some(start)
    } else {
        first_code_from(s, start + 1)
    }
}

/// The PlayStation media code inside a text, letters in upper case: `SLUS-00067`.
pub open spec fn media_code(s: Seq<char>) -> Option<Seq<char>> {
    match first_code_from(s, 0) {
        Some(i) => Some(
            s.subrange(i, i + 4).map_values(|c: char| ascii_upper(c)) + seq!['-'] + s.subrange(
                i + 5,
                i + 5 + digit_run(s, i + 5),
            ),
        ),
        None => None,
    }
}

/// Searches a PlayStation media code (`SLUS-00067`) in characters. See [`media_code_in`].
pub fn media_code_in_chars(chars: &Vec<char>) -> (r: Option<Vec<char>>)
    ensures
        r matches Some(v) ==> media_code(chars@) == Some(v@),
        r is None ==> media_code(chars@) is None,
{
    let ghost s = chars@;
    let n = chars.len();
    let mut start: usize = 0;
    while start <= n && n - start >= 4
        invariant
            n == s.len(),
            s == chars@,
            start <= n,
            first_code_from(s, 0) == first_code_from(s, start as int),
        decreases n - start,
    {
        let letters_ok = char_is_ascii_alpha(chars[start]) && char_is_ascii_alpha(chars[start + 1])
            && char_is_ascii_alpha(chars[start + 2]) && char_is_ascii_alpha(chars[start + 3]);
        let dash_ok = n - start > 4 && chars[start + 4] == '-';
        if letters_ok && dash_ok {
            let from = start + 5;
            let mut j: usize = from;
            while j < n && char_is_ascii_digit(chars[j])
                invariant
                    from <= j <= n,
                    n == s.len(),
                    s == chars@,
                    (j - from) + digit_run(s, j as int) == digit_run(s, from as int),
                decreases n - j,
            {
                j = j + 1;
            }
            let run = j - from;
            assert(digit_run(s, j as int) == 0);
            if run >= 3 && run <= 5 {
                proof {
                    assert forall|k: int| 0 <= k < 4 implies is_ascii_alpha(#[trigger] s[start + k]) by {
                        if k == 0 {
                        } else if k == 1 {
                        } else if k == 2 {
                        } else {
                        }
                    }
                    assert(code_starts_at(s, start as int));
                }
                let mut code: Vec<char> = Vec::new();
                let mut k: usize = 0;
                while k < 4
                    invariant
                        k <= 4,
                        start + 4 < n,
                        n == s.len(),
                        s == chars@,
                        code@ == s.subrange(start as int, start + k).map_values(
                            |c: char| ascii_upper(c),
                        ),
                    decreases 4 - k,
                {
                    code.push(char_to_ascii_upper(chars[start + k]));
                    k = k + 1;
                    assert(code@ == s.subrange(start as int, start + k).map_values(
                        |c: char| ascii_upper(c),
                    ));
                }
                code.push('-');
                let ghost head = code@;
                let mut d: usize = from;
                while d < j
                    invariant
                        from <= d <= j <= n,
                        n == s.len(),
                        s == chars@,
                        code@ == head + s.subrange(from as int, d as int),
                    decreases j - d,
                {
                    code.push(chars[d]);
                    d = d + 1;
                    assert(code@ == head + s.subrange(from as int, d as int));
                }
                return Some(code);
            }
            proof {
                assert(!code_starts_at(s, start as int));
            }
        } else {
            proof {
                if code_starts_at(s, start as int) {
                    assert(is_ascii_alpha(s[start + 0]));
                    assert(is_ascii_alpha(s[start + 1]));
                    assert(is_ascii_alpha(s[start + 2]));
                    assert(is_ascii_alpha(s[start + 3]));
                }
            }
        }
        start = start + 1;
    }
    None
}

/// Searches a PlayStation media code (`SLUS-00067`) inside a text.
///
/// Searched by shape (four letters, a hyphen, digits) and not by a fixed position, because the
/// position varies: in the file name of the card's directory it comes after the region code
/// (`BASLUS-00067SOTN`), and in the name of a save state it comes first.
pub fn media_code_in(text: &str) -> (r: Option<String>)
    ensures
        r matches Some(t) ==> media_code(text@) == Some(t@),
        r is None ==> media_code(text@) is None,
{
    let chars = chars_of(text);
    match media_code_in_chars(&chars) {
        Some(code) => Some(string_from(&code)),
        None => None,
    }
}


/// The media code in a directory file name: the bytes up to the first zero, each read as a
/// character, searched by [`media_code`]. The name is `<region><game code><game id>`, for example
/// `BASLUS-01251FF9-01`.
pub open spec fn filename_serial(raw: Seq<u8>) -> Option<Seq<char>> {
    media_code(latin1(before_zero(raw)))
}

pub fn serial_from_filename(raw: &[u8]) -> (r: Option<String>)
    ensures
        r matches Some(t) ==> filename_serial(raw@) == Some(t@),
        r is None ==> filename_serial(raw@) is None,
{
    let name = latin1_before_zero(raw);
    match media_code_in_chars(&name) {
        Some(code) => Some(string_from(&code)),
        None => None,
    }
}

/// The title in a save block's title frame: the `SC` signature, then Shift-JIS text.
pub open spec fn frame_title(frame: Seq<u8>) -> Option<Seq<char>> {
    if frame.len() >= 0x44 && frame[0] == 0x53u8 && frame[1] == 0x43u8 {
        shift_jis_title(frame.subrange(0x04, 0x44))
    } else {
        None
    }
}

fn read_title(frame: &[u8]) -> (r: Option<String>)
    requires
        frame@.len() == FRAME_SIZE,
    ensures
        r matches Some(t) ==> frame_title(frame@) == Some(t@),
        r is None ==> frame_title(frame@) is None,
{
    if frame[0] != 0x53u8 || frame[1] != 0x43u8 {
        return None;
    }
    let raw = slice_range(frame, 0x04, 0x44);
    decode_shift_jis(raw)
}

/// The entry that save block `slot` describes, when its directory frame is in use as the first
/// block of a save and its file name carries a media code.
pub open spec fn slot_entry(bytes: Seq<u8>, slot: int) -> Option<(usize, Seq<char>, Option<Seq<char>>)> {
    let dir = bytes.subrange(128 * slot, 128 * (slot + 1));
    if le32(dir, 0) != STATE_IN_USE_FIRST {
        None
    } else {
        match filename_serial(dir.subrange(0x0A, 0x1F)) {
            None => None,
            Some(serial) => Some(
                (
                    slot as usize,
                    serial,
                    frame_title(bytes.subrange(8192 * slot, 8192 * slot + 128)),
                ),
            ),
        }
    }
}

/// The entries of save blocks `1..n`, in block order.
pub open spec fn slot_entries(bytes: Seq<u8>, n: int) -> Seq<(usize, Seq<char>, Option<Seq<char>>)>
    decreases n,
{
    if n <= 1 {
        seq![]
    } else {
        let before = slot_entries(bytes, n - 1);
        match slot_entry(bytes, n - 1) {
            Some(e) => before.push(e),
            None => before,
        }
    }
}

/// What a card image holds: nothing when it is not exactly the size of a card, otherwise the
/// entry of each of the fifteen save blocks that has one, in block order.
pub open spec fn card_entries(bytes: Seq<u8>) -> Seq<(usize, Seq<char>, Option<Seq<char>>)> {
    if bytes.len() != CARD_SIZE {
        seq![]
    } else {
        slot_entries(bytes, 16)
    }
}

/// `&s[from..to]`.
pub fn slice_range(s: &[u8], from: usize, to: usize) -> (r: &[u8])
    requires
        from <= to <= s@.len(),
    ensures
        r@ == s@.subrange(from as int, to as int),
{
    vstd::slice::slice_subrange(s, from, to)
}

/// Reads the saves on a memory card image.
///
/// Returns nothing when the bytes are not a card image. A save that spans several blocks shows
/// up once, because only its first block counts.
pub fn read_entries(bytes: &[u8]) -> (r: Vec<CardEntry>)
    ensures
        r@.map_values(|e: CardEntry| e@) == card_entries(bytes@),
{
    let mut out: Vec<CardEntry> = Vec::new();
    if bytes.len() != CARD_SIZE {
        assert(out@.map_values(|e: CardEntry| e@) == Seq::<(usize, Seq<char>, Option<Seq<char>>)>::empty());
        return out;
    }
    let mut slot: usize = 1;
    while slot <= SAVE_BLOCKS
        invariant
            1 <= slot <= SAVE_BLOCKS + 1,
            bytes@.len() == CARD_SIZE,
            out@.map_values(|e: CardEntry| e@) == slot_entries(bytes@, slot as int),
        decreases SAVE_BLOCKS + 1 - slot,
    {
        let ghost before = out@.map_values(|e: CardEntry| e@);
        let dir = slice_range(bytes, FRAME_SIZE * slot, FRAME_SIZE * (slot + 1));
        let state = u32_at(dir, 0);
        if state == Some(STATE_IN_USE_FIRST) {
            let name = slice_range(dir, 0x0A, 0x1F);
            match serial_from_filename(name) {
                Some(serial) => {
                    let frame = slice_range(bytes, BLOCK_SIZE * slot, BLOCK_SIZE * slot + FRAME_SIZE);
                    let title = read_title(frame);
                    let entry = CardEntry { slot, serial, title };
                    out.push(entry);
                    assert(out@.map_values(|e: CardEntry| e@) == before.push(entry@));
                },
                None => {},
            }
        }
        slot = slot + 1;
    }
    out
}


proof fn lemma_digit_run(s: Seq<char>, from: int)
    requires
        0 <= from,
    ensures
        digit_run(s, from) >= 0,
        digit_run(s, from) > 0 ==> from + digit_run(s, from) <= s.len(),
        forall|k: int| 0 <= k < digit_run(s, from) ==> is_ascii_digit(#[trigger] s[from + k]),
    decreases s.len() - from,
{
    if 0 <= from < s.len() && is_ascii_digit(s[from]) {
        lemma_digit_run(s, from + 1);
        assert forall|k: int| 0 <= k < digit_run(s, from) implies is_ascii_digit(#[trigger] s[from + k]) by {
            if k > 0 {
                assert(s[from + k] == s[(from + 1) + (k - 1)]);
            }
        }
    }
}

proof fn lemma_first_code_from(s: Seq<char>, start: int)
    requires
        0 <= start,
    ensures
        first_code_from(s, start) matches Some(i) ==> start <= i && code_starts_at(s, i) && forall|j: int|
            start <= j < i ==> !#[trigger] code_starts_at(s, j),
        first_code_from(s, start) is None ==> forall|j: int| start <= j ==> !#[trigger] code_starts_at(s, j),
    decreases s.len() - start,
{
    if start + 4 > s.len() {
    } else if code_starts_at(s, start) {
    } else {
        lemma_first_code_from(s, start + 1);
    }
}

/// A media code is found exactly when four ASCII letters, a hyphen and a run of three to five
/// digits stand somewhere in the text, and it is taken from the first such place: four capital
/// letters, a hyphen and that whole run of digits.
pub proof fn a_media_code_has_its_shape(s: Seq<char>)
    ensures
        media_code(s) is Some <==> exists|i: int| #[trigger] code_starts_at(s, i),
        media_code(s) matches Some(c) ==> {
            &&& 8 <= c.len() <= 10
            &&& forall|k: int| 0 <= k < 4 ==> 'A' <= #[trigger] c[k] <= 'Z'
            &&& c[4] == '-'
            &&& forall|k: int| 5 <= k < c.len() ==> is_ascii_digit(#[trigger] c[k])
        },
        media_code(s) matches Some(c) ==> exists|i: int| {
            &&& #[trigger] code_starts_at(s, i)
            &&& forall|j: int| 0 <= j < i ==> !#[trigger] code_starts_at(s, j)
            &&& c == s.subrange(i, i + 4).map_values(|x: char| ascii_upper(x)) + seq!['-'] + s.subrange(
                i + 5,
                i + 5 + digit_run(s, i + 5),
            )
        },
{
    lemma_first_code_from(s, 0);
    if let Some(i) = first_code_from(s, 0) {
        lemma_digit_run(s, i + 5);
        let c = media_code(s).unwrap();
        assert forall|k: int| 0 <= k < 4 implies 'A' <= #[trigger] c[k] <= 'Z' by {
            assert(c[k] == ascii_upper(s[i + k]));
            assert(is_ascii_alpha(s[i + k]));
        }
        assert forall|k: int| 5 <= k < c.len() implies is_ascii_digit(#[trigger] c[k]) by {
            assert(c[k] == s[i + 5 + (k - 5)]);
        }
    } else {
        if exists|i: int| #[trigger] code_starts_at(s, i) {
            let i = choose|i: int| #[trigger] code_starts_at(s, i);
            assert(0 <= i);
        }
    }
}


proof fn lemma_slot_entries(bytes: Seq<u8>, n: int)
    requires
        1 <= n <= 16,
    ensures
        forall|k: int|
            0 <= k < slot_entries(bytes, n).len() ==> {
                let e = #[trigger] slot_entries(bytes, n)[k];
                &&& 1 <= e.0 < n
                &&& slot_entry(bytes, e.0 as int) == Some(e)
            },
        forall|a: int, b: int|
            0 <= a < b < slot_entries(bytes, n).len() ==> (#[trigger] slot_entries(bytes, n)[a]).0 < (
            #[trigger] slot_entries(bytes, n)[b]).0,
        forall|slot: int|
            1 <= slot < n && (#[trigger] slot_entry(bytes, slot)) is Some ==> exists|k: int|
                0 <= k < slot_entries(bytes, n).len() && (#[trigger] slot_entries(bytes, n)[k]).0 == slot,
    decreases n,
{
    if n > 1 {
        lemma_slot_entries(bytes, n - 1);
        let before = slot_entries(bytes, n - 1);
        let now = slot_entries(bytes, n);
        if let Some(e) = slot_entry(bytes, n - 1) {
            assert(e.0 == n - 1);
            assert(now == before.push(e));
            assert forall|slot: int| 1 <= slot < n && (#[trigger] slot_entry(bytes, slot)) is Some implies exists|k: int|
                0 <= k < now.len() && (#[trigger] now[k]).0 == slot by {
                if slot == n - 1 {
                    assert(now[before.len() as int].0 == slot);
                } else {
                    let k = choose|k: int| 0 <= k < before.len() && (#[trigger] before[k]).0 == slot;
                    assert(now[k] == before[k]);
                }
            }
        } else {
            assert forall|slot: int| 1 <= slot < n && (#[trigger] slot_entry(bytes, slot)) is Some implies exists|k: int|
                0 <= k < now.len() && (#[trigger] now[k]).0 == slot by {
                let k = choose|k: int| 0 <= k < before.len() && (#[trigger] before[k]).0 == slot;
            }
        }
    }
}

/// A card lists each save once, by the first block of the save, in block order: only blocks 1 to
/// 15 count, a block is listed exactly when its directory frame is in use as the first block of a
/// save and its file name holds a media code, and then the serial is that code. An image that is
/// not exactly the size of a card lists nothing.
pub proof fn a_card_lists_each_save_once_in_block_order(bytes: Seq<u8>)
    ensures
        bytes.len() != CARD_SIZE ==> card_entries(bytes).len() == 0,
        forall|k: int|
            0 <= k < card_entries(bytes).len() ==> {
                let e = #[trigger] card_entries(bytes)[k];
                &&& 1 <= e.0 <= 15
                &&& slot_entry(bytes, e.0 as int) == Some(e)
            },
        forall|a: int, b: int|
            0 <= a < b < card_entries(bytes).len() ==> (#[trigger] card_entries(bytes)[a]).0 < (
            #[trigger] card_entries(bytes)[b]).0,
        bytes.len() == CARD_SIZE ==> forall|slot: int|
            1 <= slot <= 15 && (#[trigger] slot_entry(bytes, slot)) is Some ==> exists|k: int|
                0 <= k < card_entries(bytes).len() && (#[trigger] card_entries(bytes)[k]).0 == slot,
{
    lemma_slot_entries(bytes, 16);
}


/// Only a block in use as the first block of a save is ever listed: every entry comes from a save
/// block, 1 to 15, whose directory frame's state word is `0x51`. A deleted save, or a block that
/// continues a save, is never listed.
pub proof fn only_blocks_in_use_as_a_first_block_are_listed(bytes: Seq<u8>)
    ensures
        forall|k: int|
            0 <= k < card_entries(bytes).len() ==> {
                let slot = (#[trigger] card_entries(bytes)[k]).0 as int;
                &&& 1 <= slot <= 15
                &&& bytes.len() == 131_072
                &&& le32(bytes, 128 * slot) == 0x51u32
            },
{
    a_card_lists_each_save_once_in_block_order(bytes);
    assert forall|k: int| 0 <= k < card_entries(bytes).len() implies {
        let slot = (#[trigger] card_entries(bytes)[k]).0 as int;
        &&& 1 <= slot <= 15
        &&& bytes.len() == 131_072
        &&& le32(bytes, 128 * slot) == 0x51u32
    } by {
        let e = card_entries(bytes)[k];
        let slot = e.0 as int;
        let dir = bytes.subrange(128 * slot, 128 * (slot + 1));
        assert(slot_entry(bytes, slot) == Some(e));
        assert(dir[0] == bytes[128 * slot] && dir[1] == bytes[128 * slot + 1] && dir[2] == bytes[128 * slot + 2] && dir[3]
            == bytes[128 * slot + 3]);
        assert(le32(dir, 0) == le32(bytes, 128 * slot));
    }
}

} // verus!
