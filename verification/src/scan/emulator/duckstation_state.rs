//! Reading the header of a DuckStation save state.
//!
//! It serves the same end as [`super::psx_card`]: finding out the **game's name** from the save
//! itself, with no outside database and no internet. Here the name is in the file's header, in
//! clear text, which covers whoever only ever uses save states and never wrote to a memory card.
//!
//! Format, from `src/core/save_state_version.h` in DuckStation, struct `SAVE_STATE_HEADER`, all
//! little-endian:
//!
//! ```text
//!   0x00  u32       magic, 0x43435544, which is "DUCC"
//!   0x04  u32       version
//!   0x08  char[128] title
//!   0x88  char[32]  serial
//!   0xA8  ...       offsets of the media, the screenshot and the data
//! ```
//!
//! Unlike the PS1 and PS2 cards, this title **does not come from the game**: DuckStation copies it
//! from its own database, already in UTF-8. So there is no Shift-JIS here. Nothing needs to be
//! decompressed: the state itself may be compressed, but the header is always in clear at the
//! start of the file, and only the header is read.
use vstd::prelude::*;

use super::le::{le32, u32_at, u32_in};
use super::psx_card::{a_media_code_has_its_shape, media_code, media_code_in};
use super::text::{opt_view, read_utf8_field, utf8_field};

verus! {

/// The header's magic, `"DUCC"` read as a little-endian integer.
pub const MAGIC: u32 = 0x4343_5544;

/// The oldest version DuckStation itself accepts to load (`SAVE_STATE_MINIMUM_VERSION`). Below it
/// the layout was not checked against the source, so refusing is the only honest answer.
pub const MINIMUM_VERSION: u32 = 42;

pub const TITLE_AT: usize = 0x08;

pub const TITLE_LEN: usize = 128;

pub const SERIAL_AT: usize = 0x88;

pub const SERIAL_LEN: usize = 32;

/// How many bytes from the start of the file are enough. The rest of a state reaches 32 MB and
/// is of no interest here.
pub const HEADER_PREFIX: usize = 0xA8;

/// What a save state's header declares about the game.
#[derive(Clone, Debug, Eq, PartialEq)]
pub struct StateInfo {
    pub version: u32,
    pub serial: Option<String>,
    pub title: Option<String>,
}

impl View for StateInfo {
    type V = (u32, Option<Seq<char>>, Option<Seq<char>>);

    open spec fn view(&self) -> Self::V {
        (self.version, opt_view(self.serial), opt_view(self.title))
    }
}

/// A fixed-size text field at `at`, when the buffer holds all of it. It is cut at the first zero,
/// or taken whole when there is none: that is the `Strnlen` DuckStation itself loads it with.
pub open spec fn field_text(b: Seq<u8>, at: int, len: int) -> Option<Seq<char>> {
    if at + len <= b.len() {
        utf8_field(b.subrange(at, at + len))
    } else {
        None
    }
}

fn text_field(bytes: &[u8], at: usize, len: usize) -> (r: Option<String>)
    requires
        at + len <= usize::MAX,
    ensures
        opt_view(r) == field_text(bytes@, at as int, len as int),
{
    if at + len > bytes.len() {
        return None;
    }
    let raw = vstd::slice::slice_subrange(bytes, at, at + len);
    read_utf8_field(raw)
}

/// What the header declares: `None` unless the magic is there and the version is one DuckStation
/// itself would load. There is deliberately no upper bound on the version. The serial goes
/// through the same media-code normalisation as the rest of the base, so `SLUS-00774` from the
/// header and from a file name are the same key.
pub open spec fn header_info(b: Seq<u8>) -> Option<(u32, Option<Seq<char>>, Option<Seq<char>>)> {
    match u32_in(b, 0) {
        None => None,
        Some(magic) => if magic != MAGIC {
            None
        } else {
            match u32_in(b, 4) {
                None => None,
                Some(version) => if version < MINIMUM_VERSION {
                    None
                } else {
                    Some(
                        (
                            version,
                            match field_text(b, 0x88, 32) {
                                Some(raw) => media_code(raw),
                                None => None,
                            },
                            field_text(b, 0x08, 128),
                        ),
                    )
                },
            }
        },
    }
}

/// Reads what the header declares, or `None` when this is not a DuckStation save state.
///
/// An unreadable title does not take the serial with it, nor the other way round: they are two
/// independent facts.
pub fn read_header(bytes: &[u8]) -> (r: Option<StateInfo>)
    ensures
        r matches Some(info) ==> header_info(bytes@) == Some(info@),
        r is None ==> header_info(bytes@) is None,
{
    let magic = match u32_at(bytes, 0) {
        Some(m) => m,
        None => return None,
    };
    if magic != MAGIC {
        return None;
    }
    let version = match u32_at(bytes, 0x04) {
        Some(v) => v,
        None => return None,
    };
    if version < MINIMUM_VERSION {
        return None;
    }
    let serial = match text_field(bytes, SERIAL_AT, SERIAL_LEN) {
        Some(raw) => media_code_in(raw.as_str()),
        None => None,
    };
    let title = text_field(bytes, TITLE_AT, TITLE_LEN);
    Some(StateInfo { version, serial, title })
}


/// A save state is read exactly when its header starts with the magic and declares a version
/// DuckStation itself would load, however new; the version read is the one declared, and a
/// serial, when there is one, has the shape of a media code: four capital letters, a hyphen and
/// three to five digits.
pub proof fn a_state_is_read_exactly_when_its_header_loads(b: Seq<u8>)
    ensures
        header_info(b) is Some <==> (b.len() >= 8 && le32(b, 0) == MAGIC && le32(b, 4) >= MINIMUM_VERSION),
        header_info(b) matches Some(h) ==> h.0 == le32(b, 4) && h.2 == field_text(b, 0x08, 128),
        header_info(b) matches Some(h) ==> (h.1 matches Some(c) ==> {
            &&& 8 <= c.len() <= 10
            &&& forall|k: int| 0 <= k < 4 ==> 'A' <= #[trigger] c[k] <= 'Z'
            &&& c[4] == '-'
        }),
{
    if let Some(raw) = field_text(b, 0x88, 32) {
        a_media_code_has_its_shape(raw);
    }
}

} // verus!
