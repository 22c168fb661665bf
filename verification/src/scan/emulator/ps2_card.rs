//! Reading the file system of a PlayStation 2 memory card.
//!
//! The PS2 card is not the PS1 card. Where the PS1 has a fixed directory of 15 blocks, the PS2 has
//! a real file system: a superblock, an indirect FAT, and folders with files in them. Each game has
//! **one folder**, whose name carries the serial (`BASLUS-21004MAYC`), and inside it an
//! `icon.sys`, which is where the game writes the name shown in the console's menu.
//!
//! Sources, all open:
//!
//! * PCSX2's `pcsx2/SIO/Memcard/MemoryCardFolder.h`: the `superblock` and `MemoryCardFileEntry`
//!   structs, the mode flags and the geometry (`PageSize`, `EccSize`, `PageSizeRaw`).
//! * PCSX2's `pcsx2/SIO/Memcard/MemoryCardFile.cpp`: `GetMemoryCardFileTypeFromSize`, which is how
//!   PCSX2 itself decides whether a card has ECC: **by the file's size**.
//! * ps2sdk, `ee/rpc/memorycard/include/libmc.h`: the `mcIcon` struct, which is `icon.sys`.
//!
//! The trap the format hides: a logical cluster of 1,024 bytes **is not contiguous in the file**
//! when the card has ECC. It is two pieces of 512 separated by 16 bytes of error correction, and
//! they have to be stitched together.
use vstd::prelude::*;

use super::le::{le16, le32, u16_at, u32_at, u32_in};
use super::psx_card::{media_code, media_code_in_chars};
use super::text::{
    ascii_lower, before_zero, char_to_ascii_lower, chars_of, decode_shift_jis, latin1,
    latin1_before_zero, opt_view, shift_jis_title, string_from,
};

verus! {

/// The superblock's opening text.
pub open spec fn magic() -> Seq<u8> {
    seq![
        0x53u8, 0x6Fu8, 0x6Eu8, 0x79u8, 0x20u8, 0x50u8, 0x53u8, 0x32u8, 0x20u8, 0x4Du8, 0x65u8,
        0x6Du8, 0x6Fu8, 0x72u8, 0x79u8, 0x20u8, 0x43u8, 0x61u8, 0x72u8, 0x64u8, 0x20u8, 0x46u8,
        0x6Fu8, 0x72u8, 0x6Du8, 0x61u8, 0x74u8,
    ]
}

/// Useful bytes of a page. The rest of the stride, when there is one, is ECC.
pub const PAGE_DATA: usize = 512;

/// A page with ECC (PCSX2's `PageSizeRaw`) and without.
pub const PAGE_STRIDE_ECC: usize = 528;

pub const PAGE_STRIDE_PLAIN: usize = 512;

pub const DIR_ENTRY_SIZE: usize = 512;

/// `u32` entries in a FAT of one cluster (1,024 bytes).
pub const FAT_ENTRIES_PER_CLUSTER: u32 = 256;

pub const MODE_FILE: u32 = 0x0010;

pub const MODE_DIRECTORY: u32 = 0x0020;

pub const MODE_USED: u32 = 0x8000;

pub const FAT_IN_USE: u32 = 0x8000_0000;

pub const FAT_END: u32 = 0xFFFF_FFFF;

/// Ceiling on the clusters walked in one chain. A corrupt card can have a cyclic FAT, and a backup
/// scan cannot hang because of somebody else's file.
pub const MAX_CHAIN: usize = 8_192;

/// Bytes in a card of one megabyte with ECC, and without.
pub const RAW_MB: usize = 1_081_344;

pub const PLAIN_MB: usize = 1_048_576;

/// How many bytes each page takes in the file, from the file's size.
///
/// It is PCSX2's own method (`GetMemoryCardFileTypeFromSize`): an 8 MB card is 8,650,752 bytes
/// with ECC and 8,388,608 without. A size off the table has no stride, because guessing it would
/// shift **every** offset after it and produce garbage that looks like data.
pub open spec fn stride_of(len: int) -> Option<int> {
    if len == 8 * RAW_MB || len == 16 * RAW_MB || len == 32 * RAW_MB || len == 64 * RAW_MB {
        Some(PAGE_STRIDE_ECC as int)
    } else if len == 8 * PLAIN_MB || len == 16 * PLAIN_MB || len == 32 * PLAIN_MB || len == 64
        * PLAIN_MB {
        Some(PAGE_STRIDE_PLAIN as int)
    } else {
        None
    }
}

fn stride_for(len: usize) -> (r: Option<usize>)
    ensures
        match r {
            Some(s) => stride_of(len as int) == Some(s as int),
            None => stride_of(len as int) is None,
        },
{
    let sizes: [usize; 4] = [8, 16, 32, 64];
    let mut i: usize = 0;
    while i < 4
        invariant
            i <= 4,
            sizes@ == seq![8usize, 16, 32, 64],
            forall|k: int|
                0 <= k < i ==> len != sizes@[k] * RAW_MB && len != #[trigger] sizes@[k] * PLAIN_MB,
        decreases 4 - i,
    {
        let mb = sizes[i];
        if len == mb * RAW_MB {
            return Some(PAGE_STRIDE_ECC);
        } else if len == mb * PLAIN_MB {
            return Some(PAGE_STRIDE_PLAIN);
        }
        i = i + 1;
    }
    assert(len != sizes@[0] * PLAIN_MB);
    assert(len != sizes@[1] * PLAIN_MB);
    assert(len != sizes@[2] * PLAIN_MB);
    assert(len != sizes@[3] * PLAIN_MB);
    None
}

/// The card's geometry, as the superblock and the file's size declare it.
pub struct Geometry {
    pub stride: int,
    pub alloc_offset: u32,
    pub clusters: u32,
    pub ifc: Seq<u32>,
}

/// A card opens when its size is on PCSX2's table, the superblock starts with the format's magic,
/// and it declares the only geometry the sources cover: pages of 512 bytes, two per cluster.
pub open spec fn open_geometry(b: Seq<u8>) -> Option<Geometry> {
    match stride_of(b.len() as int) {
        None => None,
        Some(stride) => if b.len() >= PAGE_DATA && b.subrange(0, 27) == magic() && le16(b, 0x28)
            == 512 && le16(b, 0x2A) == 2 {
            Some(
                Geometry {
                    stride,
                    alloc_offset: le32(b, 0x34),
                    clusters: le32(b, 0x30),
                    ifc: Seq::new(32, |i: int| le32(b, 0x50 + 4 * i)),
                },
            )
        } else {
            None
        },
    }
}

/// Page `index`, when it lies inside the file.
pub open spec fn page_of(b: Seq<u8>, stride: int, index: int) -> Option<Seq<u8>> {
    let at = index * stride;
    if at + PAGE_DATA <= b.len() {
        Some(b.subrange(at, at + PAGE_DATA))
    } else {
        None
    }
}

/// Absolute cluster `index`: its two pages stitched together.
pub open spec fn cluster_of(b: Seq<u8>, stride: int, index: int) -> Option<Seq<u8>> {
    match (page_of(b, stride, 2 * index), page_of(b, stride, 2 * index + 1)) {
        (Some(p0), Some(p1)) => Some(p0 + p1),
        _ => None,
    }
}

/// Cluster `index` of the data area, numbered from the allocation offset.
pub open spec fn data_cluster_of(g: Geometry, b: Seq<u8>, index: u32) -> Option<Seq<u8>> {
    if index >= g.clusters || g.alloc_offset + index > u32::MAX {
        None
    } else {
        cluster_of(b, g.stride, g.alloc_offset + index)
    }
}

/// The next cluster of a chain, through the indirect FAT. A chain ends at an entry that is the
/// end marker or is not in use.
pub open spec fn next_of(g: Geometry, b: Seq<u8>, index: u32) -> Option<u32> {
    let slot = index / 65536;
    if slot >= g.ifc.len() {
        None
    } else {
        match cluster_of(b, g.stride, g.ifc[slot as int] as int) {
            None => None,
            Some(indirect) => {
                let fat_cluster = le32(indirect, ((index / 256) % 256) * 4);
                match cluster_of(b, g.stride, fat_cluster as int) {
                    None => None,
                    Some(fat) => {
                        let entry = le32(fat, (index % 256) * 4);
                        if entry == FAT_END || entry < FAT_IN_USE {
                            None
                        } else {
                            Some((entry - FAT_IN_USE) as u32)
                        }
                    },
                }
            },
        }
    }
}

/// The chain that continues from `current` after the clusters in `walked`: it stops at the
/// length ceiling, at a cluster already walked (a cyclic FAT), or where the FAT ends it.
pub open spec fn chain_after(g: Geometry, b: Seq<u8>, current: u32, walked: Seq<u32>) -> Seq<u32>
    decreases MAX_CHAIN - walked.len(),
{
    if walked.len() >= MAX_CHAIN || walked.contains(current) {
        walked
    } else {
        match next_of(g, b, current) {
            Some(next) => chain_after(g, b, next, walked.push(current)),
            None => walked.push(current),
        }
    }
}

/// The data clusters of a folder or file, in chain order.
pub open spec fn chain_of(g: Geometry, b: Seq<u8>, start: u32) -> Seq<u32> {
    chain_after(g, b, start, seq![])
}

/// A directory entry, seen as its mode, its length, its first cluster and its name.
pub type DirView = (u32, u32, u32, Seq<char>);

/// The directory entry at offset `o` of a cluster. The name is the 32 bytes at `0x40`, up to the
/// first zero, each read as a character.
pub open spec fn entry_at(d: Seq<u8>, o: int) -> DirView {
    (
        le32(d, o),
        le32(d, o + 4),
        le32(d, o + 0x10),
        latin1(before_zero(d.subrange(o + 0x40, o + 0x60))),
    )
}

/// The directory entries read off the clusters of `cl` from position `i` on, after `acc`: two per
/// cluster, stopping at the first cluster that is not in the data area.
pub open spec fn listing_from(g: Geometry, b: Seq<u8>, cl: Seq<u32>, i: int, acc: Seq<DirView>) -> Seq<
    DirView,
>
    decreases cl.len() - i,
{
    if i < 0 || i >= cl.len() {
        acc
    } else {
        match data_cluster_of(g, b, cl[i]) {
            None => acc,
            Some(d) => listing_from(g, b, cl, i + 1, acc + seq![entry_at(d, 0), entry_at(d, 512)]),
        }
    }
}

/// At most `count` entries of the directory whose chain starts at `start`.
pub open spec fn dir_listing(g: Geometry, b: Seq<u8>, start: u32, count: u32) -> Seq<DirView> {
    let all = listing_from(g, b, chain_of(g, b, start), 0, seq![]);
    if all.len() <= count {
        all
    } else {
        all.take(count as int)
    }
}

/// The bytes of the clusters of `cl` from position `i` on, after `acc`, stopping at the first
/// cluster that is not in the data area.
pub open spec fn bytes_from(g: Geometry, b: Seq<u8>, cl: Seq<u32>, i: int, acc: Seq<u8>) -> Seq<u8>
    decreases cl.len() - i,
{
    if i < 0 || i >= cl.len() {
        acc
    } else {
        match data_cluster_of(g, b, cl[i]) {
            None => acc,
            Some(d) => bytes_from(g, b, cl, i + 1, acc + d),
        }
    }
}

/// The first `len` bytes of the file whose chain starts at `start`, or all of them when the chain
/// holds fewer.
pub open spec fn file_bytes(g: Geometry, b: Seq<u8>, start: u32, len: u32) -> Seq<u8> {
    let all = bytes_from(g, b, chain_of(g, b, start), 0, seq![]);
    if all.len() <= len {
        all
    } else {
        all.take(len as int)
    }
}

proof fn lemma_listing_prefix(g: Geometry, b: Seq<u8>, cl: Seq<u32>, i: int, acc: Seq<DirView>)
    requires
        0 <= i,
    ensures
        listing_from(g, b, cl, i, acc) == acc + listing_from(g, b, cl, i, seq![]),
    decreases cl.len() - i,
{
    if i < cl.len() {
        match data_cluster_of(g, b, cl[i]) {
            None => {
                assert(acc + Seq::<DirView>::empty() == acc);
            },
            Some(d) => {
                let two = seq![entry_at(d, 0), entry_at(d, 512)];
                lemma_listing_prefix(g, b, cl, i + 1, acc + two);
                lemma_listing_prefix(g, b, cl, i + 1, two);
                assert(Seq::<DirView>::empty() + two == two);
                assert((acc + two) + listing_from(g, b, cl, i + 1, seq![]) == acc + (two
                    + listing_from(g, b, cl, i + 1, seq![])));
            },
        }
    } else {
        assert(acc + Seq::<DirView>::empty() == acc);
    }
}

proof fn lemma_bytes_prefix(g: Geometry, b: Seq<u8>, cl: Seq<u32>, i: int, acc: Seq<u8>)
    requires
        0 <= i,
    ensures
        bytes_from(g, b, cl, i, acc) == acc + bytes_from(g, b, cl, i, seq![]),
    decreases cl.len() - i,
{
    if i < cl.len() {
        match data_cluster_of(g, b, cl[i]) {
            None => {
                assert(acc + Seq::<u8>::empty() == acc);
            },
            Some(d) => {
                lemma_bytes_prefix(g, b, cl, i + 1, acc + d);
                lemma_bytes_prefix(g, b, cl, i + 1, d);
                assert(Seq::<u8>::empty() + d == d);
                assert((acc + d) + bytes_from(g, b, cl, i + 1, seq![]) == acc + (d + bytes_from(
                    g,
                    b,
                    cl,
                    i + 1,
                    seq![],
                )));
            },
        }
    } else {
        assert(acc + Seq::<u8>::empty() == acc);
    }
}

/// A directory entry of the card.
struct DirEntry {
    mode: u32,
    length: u32,
    cluster: u32,
    name: Vec<char>,
}

impl DirEntry {
    spec fn view(&self) -> DirView {
        (self.mode, self.length, self.cluster, self.name@)
    }

    fn read(bytes: &[u8]) -> (r: Option<Self>)
        ensures
            match r {
                Some(e) => bytes@.len() >= DIR_ENTRY_SIZE && e.view() == entry_at(bytes@, 0),
                None => bytes@.len() < DIR_ENTRY_SIZE,
            },
    {
        if bytes.len() < DIR_ENTRY_SIZE {
            return None;
        }
        let name = latin1_before_zero(vstd::slice::slice_subrange(bytes, 0x40, 0x60));
        Some(
            DirEntry {
                mode: u32_at(bytes, 0x00).unwrap(),
                length: u32_at(bytes, 0x04).unwrap(),
                cluster: u32_at(bytes, 0x10).unwrap(),
                name,
            },
        )
    }
}

/// The card's geometry, deduced from the file's size and read from its superblock.
struct Card<'a> {
    bytes: &'a [u8],
    stride: usize,
    alloc_offset: u32,
    clusters: u32,
    ifc: Vec<u32>,
}

impl<'a> Card<'a> {
    spec fn geometry(&self) -> Geometry {
        Geometry {
            stride: self.stride as int,
            alloc_offset: self.alloc_offset,
            clusters: self.clusters,
            ifc: self.ifc@,
        }
    }

    spec fn wf(&self) -> bool {
        &&& open_geometry(self.bytes@) == Some(self.geometry())
        &&& self.stride == PAGE_STRIDE_ECC || self.stride == PAGE_STRIDE_PLAIN
    }

    fn open(bytes: &'a [u8]) -> (r: Option<Self>)
        ensures
            r matches Some(card) ==> card.wf() && card.bytes@ == bytes@,
            r is None ==> open_geometry(bytes@) is None,
    {
        let stride = match stride_for(bytes.len()) {
            Some(s) => s,
            None => return None,
        };
        if bytes.len() < PAGE_DATA {
            return None;
        }
        let sig: [u8; 27] = [
            0x53, 0x6F, 0x6E, 0x79, 0x20, 0x50, 0x53, 0x32, 0x20, 0x4D, 0x65, 0x6D, 0x6F, 0x72,
            0x79, 0x20, 0x43, 0x61, 0x72, 0x64, 0x20, 0x46, 0x6F, 0x72, 0x6D, 0x61, 0x74,
        ];
        let mut i: usize = 0;
        while i < 27
            invariant
                i <= 27,
                bytes@.len() >= PAGE_DATA,
                sig@ == magic(),
                forall|k: int| 0 <= k < i ==> bytes@[k] == magic()[k],
            decreases 27 - i,
        {
            if bytes[i] != sig[i] {
                assert(bytes@.subrange(0, 27)[i as int] != magic()[i as int]);
                return None;
            }
            i = i + 1;
        }
        assert(bytes@.subrange(0, 27) == magic());
        if u16_at(bytes, 0x28).unwrap() != 512 || u16_at(bytes, 0x2A).unwrap() != 2 {
            return None;
        }
        let mut ifc: Vec<u32> = Vec::new();
        let mut k: usize = 0;
        while k < 32
            invariant
                k <= 32,
                bytes@.len() >= PAGE_DATA,
                ifc@ == Seq::new(k as nat, |i: int| le32(bytes@, 0x50 + 4 * i)),
            decreases 32 - k,
        {
            ifc.push(u32_at(bytes, 0x50 + 4 * k).unwrap());
            k = k + 1;
            assert(ifc@ == Seq::new(k as nat, |i: int| le32(bytes@, 0x50 + 4 * i)));
        }
        let card = Card {
            bytes,
            stride,
            alloc_offset: u32_at(bytes, 0x34).unwrap(),
            clusters: u32_at(bytes, 0x30).unwrap(),
            ifc,
        };
        Some(card)
    }

    fn page(&self, index: usize) -> (r: Option<&'a [u8]>)
        requires
            self.wf(),
        ensures
            match r {
                Some(p) => page_of(self.bytes@, self.stride as int, index as int) == Some(p@),
                None => page_of(self.bytes@, self.stride as int, index as int) is None,
            },
    {
        let n = self.bytes.len();
        if index > n / self.stride {
            assert(index * self.stride > n) by (nonlinear_arith)
                requires
                    index > n / self.stride,
                    self.stride > 0,
            ;
            return None;
        }
        assert(index * self.stride <= n) by (nonlinear_arith)
            requires
                index <= n / self.stride,
                self.stride > 0,
        ;
        let at = index * self.stride;
        if n - at < PAGE_DATA {
            return None;
        }
        Some(vstd::slice::slice_subrange(self.bytes, at, at + PAGE_DATA))
    }

    /// An absolute cluster, stitching the two pages it is made of.
    fn cluster(&self, index: u32) -> (r: Option<Vec<u8>>)
        requires
            self.wf(),
        ensures
            match r {
                Some(c) => cluster_of(self.bytes@, self.stride as int, index as int) == Some(c@),
                None => cluster_of(self.bytes@, self.stride as int, index as int) is None,
            },
    {
        if index as usize > (usize::MAX - 1) / 2 {
            assert(2 * index * (self.stride as int) + PAGE_DATA > self.bytes@.len()) by (nonlinear_arith)
                requires
                    2 * index > usize::MAX - 1,
                    self.stride >= 1,
                    self.bytes@.len() <= usize::MAX,
            ;
            return None;
        }
        let first = 2 * (index as usize);
        let p0 = match self.page(first) {
            Some(p) => p,
            None => return None,
        };
        let p1 = match self.page(first + 1) {
            Some(p) => p,
            None => return None,
        };
        let mut out: Vec<u8> = Vec::with_capacity(PAGE_DATA * 2);
        let mut i: usize = 0;
        while i < PAGE_DATA
            invariant
                i <= PAGE_DATA,
                p0@.len() == PAGE_DATA,
                out@ == p0@.take(i as int),
            decreases PAGE_DATA - i,
        {
            out.push(p0[i]);
            i = i + 1;
            assert(out@ == p0@.take(i as int));
        }
        let mut j: usize = 0;
        while j < PAGE_DATA
            invariant
                j <= PAGE_DATA,
                p0@.len() == PAGE_DATA,
                p1@.len() == PAGE_DATA,
                out@ == p0@ + p1@.take(j as int),
            decreases PAGE_DATA - j,
        {
            out.push(p1[j]);
            j = j + 1;
            assert(out@ == p0@ + p1@.take(j as int));
        }
        assert(p1@.take(PAGE_DATA as int) == p1@);
        Some(out)
    }

    /// A cluster of the data area, numbered from the allocation offset.
    fn data_cluster(&self, index: u32) -> (r: Option<Vec<u8>>)
        requires
            self.wf(),
        ensures
            match r {
                Some(c) => data_cluster_of(self.geometry(), self.bytes@, index) == Some(c@),
                None => data_cluster_of(self.geometry(), self.bytes@, index) is None,
            },
    {
        if index >= self.clusters {
            return None;
        }
        if self.alloc_offset > u32::MAX - index {
            return None;
        }
        self.cluster(self.alloc_offset + index)
    }

    /// The next cluster of the chain, through the indirect FAT.
    fn next_in_chain(&self, index: u32) -> (r: Option<u32>)
        requires
            self.wf(),
        ensures
            r == next_of(self.geometry(), self.bytes@, index),
    {
        let per = FAT_ENTRIES_PER_CLUSTER;
        let slot = (index / (per * per)) as usize;
        if slot >= self.ifc.len() {
            return None;
        }
        let indirect = match self.cluster(self.ifc[slot]) {
            Some(c) => c,
            None => return None,
        };
        let fat_cluster = u32_at(indirect.as_slice(), ((index / per) % per) as usize * 4).unwrap();
        let fat = match self.cluster(fat_cluster) {
            Some(c) => c,
            None => return None,
        };
        let entry = u32_at(fat.as_slice(), (index % per) as usize * 4).unwrap();
        if entry == FAT_END || entry < FAT_IN_USE {
            return None;
        }
        Some(entry - FAT_IN_USE)
    }

    /// The data clusters of a folder or file, in chain order.
    fn chain(&self, start: u32) -> (r: Vec<u32>)
        requires
            self.wf(),
        ensures
            r@ == chain_of(self.geometry(), self.bytes@, start),
    {
        let ghost g = self.geometry();
        let ghost b = self.bytes@;
        let mut chain: Vec<u32> = Vec::new();
        let mut seen: std::collections::HashSet<u32> = std::collections::HashSet::new();
        let mut current = start;
        loop
            invariant_except_break
                self.wf(),
                g == self.geometry(),
                b == self.bytes@,
                chain@.len() <= MAX_CHAIN,
                forall|x: u32| seen@.contains(x) <==> chain@.contains(x),
                chain_after(g, b, current, chain@) == chain_of(g, b, start),
            ensures
                chain@ == chain_of(g, b, start),
            decreases MAX_CHAIN - chain@.len(),
        {
            if chain.len() >= MAX_CHAIN {
                break;
            }
            if !seen.insert(current) {
                assert(chain@.contains(current));
                break;
            }
            assert(!chain@.contains(current));
            let ghost before = chain@;
            chain.push(current);
            assert forall|x: u32| seen@.contains(x) <==> chain@.contains(x) by {
                if x == current {
                    assert(chain@[chain@.len() - 1] == x);
                } else if chain@.contains(x) {
                    let k = choose|k: int| 0 <= k < chain@.len() && chain@[k] == x;
                    assert(before[k] == x);
                } else if before.contains(x) {
                    let k = choose|k: int| 0 <= k < before.len() && before[k] == x;
                    assert(chain@[k] == x);
                }
            }
            match self.next_in_chain(current) {
                Some(next) => {
                    current = next;
                },
                None => {
                    assert(chain_after(g, b, current, before) == before.push(current));
                    break;
                },
            }
        }
        chain
    }

    /// The entries of a directory, following its chain.
    fn dir_entries(&self, start: u32, count: u32) -> (r: Vec<DirEntry>)
        requires
            self.wf(),
        ensures
            r@.map_values(|e: DirEntry| e.view()) == dir_listing(self.geometry(), self.bytes@, start, count),
    {
        let ghost g = self.geometry();
        let ghost b = self.bytes@;
        let wanted = count as usize;
        let chain = self.chain(start);
        let ghost full = listing_from(g, b, chain@, 0, seq![]);
        let mut entries: Vec<DirEntry> = Vec::new();
        let mut idx: usize = 0;
        proof {
            assert(entries@.map_values(|e: DirEntry| e.view()) == Seq::<DirView>::empty());
        }
        while idx < chain.len()
            invariant_except_break
                self.wf(),
                g == self.geometry(),
                b == self.bytes@,
                chain@ == chain_of(g, b, start),
                full == listing_from(g, b, chain@, 0, seq![]),
                idx <= chain.len(),
                wanted == count,
                entries@.len() <= wanted,
                listing_from(g, b, chain@, idx as int, entries@.map_values(|e: DirEntry| e.view())) == full,
            ensures
                entries@.len() <= wanted,
                entries@.map_values(|e: DirEntry| e.view()) == full,
            decreases chain.len() - idx,
        {
            let ghost acc = entries@.map_values(|e: DirEntry| e.view());
            let data = match self.data_cluster(chain[idx]) {
                Some(d) => d,
                None => break,
            };
            let ghost two = seq![entry_at(data@, 0), entry_at(data@, 512)];
            proof {
                lemma_listing_prefix(g, b, chain@, idx + 1, acc + two);
                assert(full == acc + two + listing_from(g, b, chain@, idx + 1, seq![]));
            }
            let mut slot: usize = 0;
            while slot < 2
                invariant
                    self.wf(),
                    g == self.geometry(),
                    b == self.bytes@,
                    slot <= 2,
                    data@.len() == 2 * DIR_ENTRY_SIZE,
                    wanted == count,
                    entries@.len() <= wanted,
                    two == seq![entry_at(data@, 0), entry_at(data@, 512)],
                    entries@.map_values(|e: DirEntry| e.view()) == acc + two.take(slot as int),
                    full == acc + two + listing_from(g, b, chain@, idx + 1, seq![]),
                    full == listing_from(g, b, chain_of(g, b, start), 0, seq![]),
                decreases 2 - slot,
            {
                if entries.len() >= wanted {
                    proof {
                        let got = entries@.map_values(|e: DirEntry| e.view());
                        let rest = listing_from(g, b, chain@, idx + 1, seq![]);
                        assert(acc + two == got + two.subrange(slot as int, 2));
                        assert(full == got + (two.subrange(slot as int, 2) + rest));
                        assert(full.take(count as int) == got);
                    }
                    return entries;
                }
                let entry = DirEntry::read(vstd::slice::slice_subrange(data.as_slice(), slot * DIR_ENTRY_SIZE, data.len())).unwrap();
                proof {
                    assert(data@.subrange(slot * 512, data@.len() as int).subrange(0x40, 0x60) == data@.subrange(slot * 512 + 0x40, slot * 512 + 0x60));
                    assert(entry.view() == entry_at(data@, slot * 512));
                }
                let ghost before = entries@.map_values(|e: DirEntry| e.view());
                entries.push(entry);
                slot = slot + 1;
                assert(entries@.map_values(|e: DirEntry| e.view()) == before.push(entry.view()));
                assert(acc + two.take(slot as int) == (acc + two.take(slot - 1)).push(two[slot - 1]));
            }
            idx = idx + 1;
            assert(two.take(2) == two);
        }
        entries
    }

    /// The contents of a file, following its chain.
    fn file_contents(&self, start: u32, len: u32) -> (r: Vec<u8>)
        requires
            self.wf(),
        ensures
            r@ == file_bytes(self.geometry(), self.bytes@, start, len),
    {
        let ghost g = self.geometry();
        let ghost b = self.bytes@;
        let chain = self.chain(start);
        let ghost full = bytes_from(g, b, chain@, 0, seq![]);
        let mut out: Vec<u8> = Vec::new();
        let mut idx: usize = 0;
        while idx < chain.len()
            invariant_except_break
                self.wf(),
                g == self.geometry(),
                b == self.bytes@,
                idx <= chain.len(),
                full == bytes_from(g, b, chain@, 0, seq![]),
                bytes_from(g, b, chain@, idx as int, out@) == full,
            ensures
                out@.len() <= full.len(),
                out@.len() >= len ==> out@ == full.take(out@.len() as int),
                out@.len() < len ==> out@ == full,
            decreases chain.len() - idx,
        {
            let mut data = match self.data_cluster(chain[idx]) {
                Some(d) => d,
                None => break,
            };
            let ghost acc = out@;
            proof {
                lemma_bytes_prefix(g, b, chain@, idx + 1, acc + data@);
            }
            out.append(&mut data);
            idx = idx + 1;
            if out.len() >= len as usize {
                assert(full == out@ + bytes_from(g, b, chain@, idx as int, seq![]));
                assert(full.take(out@.len() as int) == out@);
                break;
            }
        }
        let ghost before = out@;
        out.truncate(len as usize);
        proof {
            if before.len() >= len {
                assert(out@ == before.take(len as int));
                assert(out@ == full.take(len as int));
                if full.len() <= len {
                    assert(full.take(len as int) == full);
                }
            } else {
                assert(out@ == full);
            }
        }
        out
    }
}


/// The name of the file in which a game writes the name shown in the console's menu.
pub open spec fn icon_file_name() -> Seq<char> {
    seq!['i', 'c', 'o', 'n', '.', 's', 'y', 's']
}

/// `icon.sys`'s opening text, `PS2D`.
pub open spec fn icon_magic() -> Seq<u8> {
    seq![0x50u8, 0x53u8, 0x32u8, 0x44u8]
}

pub const ICON_NL_OFFSET_AT: usize = 0x06;

pub const ICON_TITLE_AT: usize = 0xC0;

pub const ICON_TITLE_LEN: usize = 68;

/// A game found on the card.
#[derive(Clone, Debug, Eq, PartialEq, Ord, PartialOrd, Hash)]
pub struct CardEntry {
    /// The folder's name on the card, for example `BASLUS-21004MAYC`.
    pub folder: String,
    /// The game's media code, for example `SLUS-21004`. This is the stable identity.
    pub serial: String,
    /// Name written by the game itself. `None` when the card carries none or it does not decode.
    pub title: Option<String>,
}

impl View for CardEntry {
    type V = (Seq<char>, Seq<char>, Option<Seq<char>>);

    open spec fn view(&self) -> Self::V {
        (self.folder@, self.serial@, opt_view(self.title))
    }
}

/// The game's name, as the game itself wrote it in `icon.sys`.
///
/// The title is a single string with a line-break position declared apart: the console's menu
/// breaks the name in two lines for the width of the box, and `GOD OF WAR` arrives as `GOD OF` +
/// `WAR`. Here the two halves become one phrase again, when both halves decode; otherwise the
/// whole title is taken, ugly but true.
pub open spec fn icon_text(bytes: Seq<u8>) -> Option<Seq<char>> {
    if bytes.len() < 4 || bytes.take(4) != icon_magic() || bytes.len() < ICON_TITLE_AT
        + ICON_TITLE_LEN {
        None
    } else {
        let raw = before_zero(bytes.subrange(ICON_TITLE_AT as int, ICON_TITLE_AT + ICON_TITLE_LEN));
        let split = le16(bytes, ICON_NL_OFFSET_AT as int) as int;
        if 0 < split < raw.len() && shift_jis_title(raw.take(split)) is Some && shift_jis_title(
            raw.skip(split),
        ) is Some {
            Some(
                shift_jis_title(raw.take(split))->0 + seq![' '] + shift_jis_title(
                    raw.skip(split),
                )->0,
            )
        } else {
            shift_jis_title(raw)
        }
    }
}

fn icon_title(bytes: &[u8]) -> (r: Option<String>)
    ensures
        opt_view(r) == icon_text(bytes@),
{
    if bytes.len() < 4 || bytes[0] != 0x50u8 || bytes[1] != 0x53u8 || bytes[2] != 0x32u8
        || bytes[3] != 0x44u8 {
        proof {
            if bytes@.len() >= 4 {
                assert(bytes@.take(4) != icon_magic()) by {
                    if bytes@.take(4) == icon_magic() {
                        assert(bytes@.take(4)[0] == bytes@[0]);
                        assert(bytes@.take(4)[1] == bytes@[1]);
                        assert(bytes@.take(4)[2] == bytes@[2]);
                        assert(bytes@.take(4)[3] == bytes@[3]);
                    }
                }
            }
        }
        return None;
    }
    assert(bytes@.take(4) == icon_magic());
    if bytes.len() < ICON_TITLE_AT + ICON_TITLE_LEN {
        return None;
    }
    let field = vstd::slice::slice_subrange(bytes, ICON_TITLE_AT, ICON_TITLE_AT + ICON_TITLE_LEN);
    let cut = super::text::copy_before_zero(field);
    proof {
        super::text::lemma_zero_at_bounds(field@);
    }
    let split = u16_at(bytes, ICON_NL_OFFSET_AT).unwrap() as usize;
    if split > 0 && split < cut.len() {
        let first = decode_shift_jis(vstd::slice::slice_subrange(cut.as_slice(), 0, split));
        let second = decode_shift_jis(vstd::slice::slice_subrange(cut.as_slice(), split, cut.len()));
        assert(cut@.subrange(0, split as int) == cut@.take(split as int));
        assert(cut@.subrange(split as int, cut@.len() as int) == cut@.skip(split as int));
        match (first, second) {
            (Some(first), Some(second)) => {
                let mut joined = chars_of(first.as_str());
                joined.push(' ');
                let mut rest = chars_of(second.as_str());
                joined.append(&mut rest);
                return Some(string_from(&joined));
            },
            _ => {},
        }
    }
    decode_shift_jis(cut.as_slice())
}

/// A real save folder: in use and a directory, and neither `.` nor `..`, which are folders too
/// and would make the walk loop.
pub open spec fn is_game_folder(e: DirView) -> bool {
    &&& e.0 & MODE_USED != 0
    &&& e.0 & MODE_DIRECTORY != 0
    &&& e.3 != seq!['.']
    &&& e.3 != seq!['.', '.']
}

/// A file in use.
pub open spec fn is_file(e: DirView) -> bool {
    e.0 & MODE_USED != 0 && e.0 & MODE_FILE != 0
}

/// A file named `icon.sys`, ignoring ASCII case.
pub open spec fn is_icon(e: DirView) -> bool {
    &&& is_file(e)
    &&& e.3.len() == icon_file_name().len()
    &&& forall|k: int|
        0 <= k < e.3.len() ==> ascii_lower(#[trigger] e.3[k]) == icon_file_name()[k]
}

/// The first entry of `children`, from `i` on, that is an `icon.sys`.
pub open spec fn first_icon_from(children: Seq<DirView>, i: int) -> Option<DirView>
    decreases children.len() - i,
{
    if i < 0 || i >= children.len() {
        None
    } else if is_icon(children[i]) {
        Some(children[i])
    } else {
        first_icon_from(children, i + 1)
    }
}

/// The name a game folder's `icon.sys` declares, when the folder has one and it reads.
pub open spec fn folder_title(g: Geometry, b: Seq<u8>, folder: DirView) -> Option<Seq<char>> {
    match first_icon_from(dir_listing(g, b, folder.2, folder.1), 0) {
        None => None,
        Some(icon) => icon_text(file_bytes(g, b, icon.2, icon.1)),
    }
}

/// The game a root entry is: a game folder whose name carries a media code. Without a media code
/// there is no telling whose folder it is, and inventing one would be a guess on someone's save.
pub open spec fn game_of(g: Geometry, b: Seq<u8>, e: DirView) -> Option<(Seq<char>, Seq<char>, Option<Seq<char>>)> {
    if !is_game_folder(e) {
        None
    } else {
        match media_code(e.3) {
            None => None,
            Some(serial) => Some((e.3, serial, folder_title(g, b, e))),
        }
    }
}

/// The games among the first `n` root entries, in order.
pub open spec fn games_upto(g: Geometry, b: Seq<u8>, root: Seq<DirView>, n: int) -> Seq<(Seq<char>, Seq<char>, Option<Seq<char>>)>
    decreases n,
{
    if n <= 0 {
        seq![]
    } else {
        let before = games_upto(g, b, root, n - 1);
        match game_of(g, b, root[n - 1]) {
            Some(game) => before.push(game),
            None => before,
        }
    }
}

/// What a card holds. The root's `.` entry declares how many entries the root has, which is how
/// PCSX2 itself reads it (`GetFileEntryPointer`).
pub open spec fn card_games(b: Seq<u8>) -> Seq<(Seq<char>, Seq<char>, Option<Seq<char>>)> {
    match open_geometry(b) {
        None => seq![],
        Some(g) => {
            let rootdir = le32(b, 0x3C);
            let first = dir_listing(g, b, rootdir, 1);
            if first.len() == 0 {
                seq![]
            } else {
                let root = dir_listing(g, b, rootdir, first[0].1);
                games_upto(g, b, root, root.len() as int)
            }
        },
    }
}

fn name_is(name: &Vec<char>, expected: &Vec<char>) -> (r: bool)
    ensures
        r == (name@ == expected@),
{
    if name.len() != expected.len() {
        return false;
    }
    let mut i: usize = 0;
    while i < name.len()
        invariant
            name.len() == expected.len(),
            i <= name.len(),
            forall|k: int| 0 <= k < i ==> name@[k] == expected@[k],
        decreases name.len() - i,
    {
        if name[i] != expected[i] {
            return false;
        }
        i = i + 1;
    }
    assert(name@ == expected@);
    true
}

impl DirEntry {
    fn is_used(&self) -> (r: bool)
        ensures
            r == (self.mode & MODE_USED != 0),
    {
        self.mode & MODE_USED != 0
    }

    /// A real save folder. `.` and `..` are folders too, and walking into them would loop.
    fn is_game_folder(&self) -> (r: bool)
        ensures
            r == is_game_folder(self.view()),
    {
        let dot = vec!['.'];
        let dots = vec!['.', '.'];
        assert(dot@ == seq!['.']);
        assert(dots@ == seq!['.', '.']);
        self.is_used() && self.mode & MODE_DIRECTORY != 0 && !name_is(&self.name, &dot) && !name_is(&self.name, &dots)
    }

    fn is_file(&self) -> (r: bool)
        ensures
            r == is_file(self.view()),
    {
        self.is_used() && self.mode & MODE_FILE != 0
    }

    /// A file named `icon.sys`, ignoring ASCII case.
    fn is_icon(&self) -> (r: bool)
        ensures
            r == is_icon(self.view()),
    {
        if !self.is_file() {
            return false;
        }
        let expected = vec!['i', 'c', 'o', 'n', '.', 's', 'y', 's'];
        assert(expected@ == icon_file_name());
        if self.name.len() != expected.len() {
            return false;
        }
        let mut i: usize = 0;
        while i < self.name.len()
            invariant
                self.name.len() == expected.len(),
                expected@ == icon_file_name(),
                i <= self.name.len(),
                forall|k: int| 0 <= k < i ==> ascii_lower(#[trigger] self.name@[k]) == icon_file_name()[k],
            decreases self.name.len() - i,
        {
            if char_to_ascii_lower(self.name[i]) != expected[i] {
                return false;
            }
            i = i + 1;
        }
        true
    }
}

/// Reads the games saved on a PS2 card.
///
/// Returns nothing when the bytes are not a card, when it is not formatted, or when it is empty.
/// It never panics: this reads a file off somebody else's disk.
pub fn read_entries(bytes: &[u8]) -> (r: Vec<CardEntry>)
    ensures
        r@.map_values(|e: CardEntry| e@) == card_games(bytes@),
{
    let mut found: Vec<CardEntry> = Vec::new();
    let card = match Card::open(bytes) {
        Some(c) => c,
        None => {
            assert(found@.map_values(|e: CardEntry| e@) == Seq::<(Seq<char>, Seq<char>, Option<Seq<char>>)>::empty());
            return found;
        },
    };
    let ghost g = card.geometry();
    let ghost b = bytes@;
    let rootdir = u32_at(bytes, 0x3C).unwrap();
    let first = card.dir_entries(rootdir, 1);
    if first.len() == 0 {
        assert(found@.map_values(|e: CardEntry| e@) == Seq::<(Seq<char>, Seq<char>, Option<Seq<char>>)>::empty());
        return found;
    }
    assert(first@.map_values(|e: DirEntry| e.view())[0] == first@[0].view());
    let root = card.dir_entries(rootdir, first[0].length);
    let ghost rootv = root@.map_values(|e: DirEntry| e.view());
    let mut i: usize = 0;
    while i < root.len()
        invariant
            card.wf(),
            g == card.geometry(),
            b == card.bytes@,
            b == bytes@,
            i <= root.len(),
            rootv == root@.map_values(|e: DirEntry| e.view()),
            card_games(b) == games_upto(g, b, rootv, rootv.len() as int),
            found@.map_values(|e: CardEntry| e@) == games_upto(g, b, rootv, i as int),
        decreases root.len() - i,
    {
        let folder = &root[i];
        assert(rootv[i as int] == folder.view());
        let ghost before = found@.map_values(|e: CardEntry| e@);
        if folder.is_game_folder() {
            match media_code_in_chars(&folder.name) {
                Some(serial) => {
                    let title = folder_icon_title(&card, folder);
                    let entry = CardEntry {
                        folder: string_from(&folder.name),
                        serial: string_from(&serial),
                        title,
                    };
                    found.push(entry);
                    assert(found@.map_values(|e: CardEntry| e@) == before.push(entry@));
                },
                None => {},
            }
        }
        i = i + 1;
    }
    found
}

/// The name in a folder's `icon.sys`: the first child that is a file named `icon.sys`, ignoring
/// ASCII case, read whole and decoded.
fn folder_icon_title(card: &Card, folder: &DirEntry) -> (r: Option<String>)
    requires
        card.wf(),
    ensures
        opt_view(r) == folder_title(card.geometry(), card.bytes@, folder.view()),
{
    let children = card.dir_entries(folder.cluster, folder.length);
    let ghost cv = children@.map_values(|e: DirEntry| e.view());
    let mut i: usize = 0;
    while i < children.len()
        invariant
            i <= children.len(),
            card.wf(),
            cv == children@.map_values(|e: DirEntry| e.view()),
            cv == dir_listing(card.geometry(), card.bytes@, folder.cluster, folder.length),
            first_icon_from(cv, 0) == first_icon_from(cv, i as int),
        decreases children.len() - i,
    {
        assert(cv[i as int] == children@[i as int].view());
        if children[i].is_icon() {
            let contents = card.file_contents(children[i].cluster, children[i].length);
            return icon_title(contents.as_slice());
        }
        i = i + 1;
    }
    None
}


proof fn lemma_games_upto(g: Geometry, b: Seq<u8>, root: Seq<DirView>, n: int)
    ensures
        forall|k: int|
            0 <= k < games_upto(g, b, root, n).len() ==> media_code((#[trigger] games_upto(g, b, root, n)[k]).0) == Some(
                games_upto(g, b, root, n)[k].1,
            ) && games_upto(g, b, root, n)[k].0 != seq!['.'] && games_upto(g, b, root, n)[k].0 != seq!['.', '.'],
    decreases n,
{
    if n > 0 {
        lemma_games_upto(g, b, root, n - 1);
    }
}

proof fn lemma_chain_after(g: Geometry, b: Seq<u8>, current: u32, walked: Seq<u32>)
    requires
        walked.len() <= MAX_CHAIN,
        walked.no_duplicates(),
    ensures
        chain_after(g, b, current, walked).len() <= MAX_CHAIN,
        chain_after(g, b, current, walked).no_duplicates(),
    decreases MAX_CHAIN - walked.len(),
{
    if walked.len() >= MAX_CHAIN || walked.contains(current) {
    } else {
        let w = walked.push(current);
        assert(w.no_duplicates()) by {
            assert forall|i: int, j: int| 0 <= i < w.len() && 0 <= j < w.len() && i != j implies w[i] != w[j] by {
                if i == walked.len() as int {
                    assert(w[j] == walked[j]);
                } else if j == walked.len() as int {
                    assert(w[i] == walked[i]);
                } else {
                    assert(w[i] == walked[i] && w[j] == walked[j]);
                }
            }
        }
        match next_of(g, b, current) {
            Some(next) => lemma_chain_after(g, b, next, w),
            None => {},
        }
    }
}

/// A card is read only when its size is on PCSX2's table of card sizes, it starts with the
/// format's magic and it declares pages of 512 bytes, two to a cluster; each game it lists is a
/// real save folder (neither `.` nor `..`) whose name carries the game's media code, which is
/// the serial. A chain of clusters, however the table lies or loops, is walked at most
/// [`MAX_CHAIN`] clusters long and never visits a cluster twice.
pub proof fn a_card_lists_only_folders_named_by_their_serial(b: Seq<u8>, g: Geometry, start: u32)
    ensures
        card_games(b).len() > 0 ==> stride_of(b.len() as int) is Some && b.subrange(0, 27) == magic() && le16(b, 0x28)
            == 512 && le16(b, 0x2A) == 2,
        forall|k: int|
            0 <= k < card_games(b).len() ==> media_code((#[trigger] card_games(b)[k]).0) == Some(card_games(b)[k].1)
                && card_games(b)[k].0 != seq!['.'] && card_games(b)[k].0 != seq!['.', '.'],
        chain_of(g, b, start).len() <= MAX_CHAIN,
        chain_of(g, b, start).no_duplicates(),
{
    lemma_chain_after(g, b, start, seq![]);
    if let Some(geo) = open_geometry(b) {
        let rootdir = le32(b, 0x3C);
        let first = dir_listing(geo, b, rootdir, 1);
        if first.len() > 0 {
            let root = dir_listing(geo, b, rootdir, first[0].1);
            lemma_games_upto(geo, b, root, root.len() as int);
        }
    }
}


/// Two images are read alike: the same geometry but for the stride, and every cluster the same.
pub open spec fn read_alike(g1: Geometry, b1: Seq<u8>, g2: Geometry, b2: Seq<u8>) -> bool {
    &&& g1.alloc_offset == g2.alloc_offset
    &&& g1.clusters == g2.clusters
    &&& g1.ifc == g2.ifc
    &&& forall|x: int| #[trigger] cluster_of(b1, g1.stride, x) == cluster_of(b2, g2.stride, x)
}

proof fn lemma_chain_alike(g1: Geometry, b1: Seq<u8>, g2: Geometry, b2: Seq<u8>, current: u32, walked: Seq<u32>)
    requires
        read_alike(g1, b1, g2, b2),
    ensures
        chain_after(g1, b1, current, walked) == chain_after(g2, b2, current, walked),
    decreases MAX_CHAIN - walked.len(),
{
    if walked.len() >= MAX_CHAIN || walked.contains(current) {
    } else {
        let slot = current / 65536;
        if slot < g1.ifc.len() {
            let c1 = cluster_of(b1, g1.stride, g1.ifc[slot as int] as int);
            assert(c1 == cluster_of(b2, g2.stride, g2.ifc[slot as int] as int));
            if let Some(indirect) = c1 {
                let fat_cluster = le32(indirect, ((current / 256) % 256) * 4);
                assert(cluster_of(b1, g1.stride, fat_cluster as int) == cluster_of(b2, g2.stride, fat_cluster as int));
            }
        }
        assert(next_of(g1, b1, current) == next_of(g2, b2, current));
        match next_of(g1, b1, current) {
            Some(next) => lemma_chain_alike(g1, b1, g2, b2, next, walked.push(current)),
            None => {},
        }
    }
}

proof fn lemma_data_cluster_alike(g1: Geometry, b1: Seq<u8>, g2: Geometry, b2: Seq<u8>, index: u32)
    requires
        read_alike(g1, b1, g2, b2),
    ensures
        data_cluster_of(g1, b1, index) == data_cluster_of(g2, b2, index),
{
    if !(index >= g1.clusters || g1.alloc_offset + index > u32::MAX) {
        assert(cluster_of(b1, g1.stride, g1.alloc_offset + index) == cluster_of(b2, g2.stride, g2.alloc_offset + index));
    }
}

proof fn lemma_listing_alike(g1: Geometry, b1: Seq<u8>, g2: Geometry, b2: Seq<u8>, cl: Seq<u32>, i: int, acc: Seq<DirView>)
    requires
        read_alike(g1, b1, g2, b2),
    ensures
        listing_from(g1, b1, cl, i, acc) == listing_from(g2, b2, cl, i, acc),
    decreases cl.len() - i,
{
    if 0 <= i < cl.len() {
        lemma_data_cluster_alike(g1, b1, g2, b2, cl[i]);
        if let Some(d) = data_cluster_of(g1, b1, cl[i]) {
            lemma_listing_alike(g1, b1, g2, b2, cl, i + 1, acc + seq![entry_at(d, 0), entry_at(d, 512)]);
        }
    }
}

proof fn lemma_bytes_alike(g1: Geometry, b1: Seq<u8>, g2: Geometry, b2: Seq<u8>, cl: Seq<u32>, i: int, acc: Seq<u8>)
    requires
        read_alike(g1, b1, g2, b2),
    ensures
        bytes_from(g1, b1, cl, i, acc) == bytes_from(g2, b2, cl, i, acc),
    decreases cl.len() - i,
{
    if 0 <= i < cl.len() {
        lemma_data_cluster_alike(g1, b1, g2, b2, cl[i]);
        if let Some(d) = data_cluster_of(g1, b1, cl[i]) {
            lemma_bytes_alike(g1, b1, g2, b2, cl, i + 1, acc + d);
        }
    }
}

proof fn lemma_dir_alike(g1: Geometry, b1: Seq<u8>, g2: Geometry, b2: Seq<u8>, start: u32, count: u32)
    requires
        read_alike(g1, b1, g2, b2),
    ensures
        dir_listing(g1, b1, start, count) == dir_listing(g2, b2, start, count),
{
    lemma_chain_alike(g1, b1, g2, b2, start, seq![]);
    lemma_listing_alike(g1, b1, g2, b2, chain_of(g1, b1, start), 0, seq![]);
}

proof fn lemma_games_alike(g1: Geometry, b1: Seq<u8>, g2: Geometry, b2: Seq<u8>, root: Seq<DirView>, n: int)
    requires
        read_alike(g1, b1, g2, b2),
    ensures
        games_upto(g1, b1, root, n) == games_upto(g2, b2, root, n),
    decreases n,
{
    if n > 0 {
        lemma_games_alike(g1, b1, g2, b2, root, n - 1);
        let e = root[n - 1];
        lemma_dir_alike(g1, b1, g2, b2, e.2, e.1);
        if let Some(icon) = first_icon_from(dir_listing(g1, b1, e.2, e.1), 0) {
            lemma_chain_alike(g1, b1, g2, b2, icon.2, seq![]);
            lemma_bytes_alike(g1, b1, g2, b2, chain_of(g1, b1, icon.2), 0, seq![]);
        }
        assert(folder_title(g1, b1, e) == folder_title(g2, b2, e));
        assert(game_of(g1, b1, e) == game_of(g2, b2, e));
    }
}

/// The same card with and without ECC reads the same: an image whose pages carry the spare
/// bytes of ECC and an image of the same number of pages without them, page for page the same
/// data, list the same games.
pub proof fn a_card_reads_the_same_with_and_without_ecc(with_ecc: Seq<u8>, plain: Seq<u8>, mb: int)
    requires
        mb == 8 || mb == 16 || mb == 32 || mb == 64,
        with_ecc.len() == mb * RAW_MB,
        plain.len() == mb * PLAIN_MB,
        forall|i: int| #[trigger] page_of(with_ecc, PAGE_STRIDE_ECC as int, i) == page_of(plain, PAGE_STRIDE_PLAIN as int, i),
    ensures
        card_games(with_ecc) == card_games(plain),
{
    assert(stride_of(with_ecc.len() as int) == Some(PAGE_STRIDE_ECC as int));
    assert(stride_of(plain.len() as int) == Some(PAGE_STRIDE_PLAIN as int));
    let p0 = page_of(with_ecc, PAGE_STRIDE_ECC as int, 0);
    assert(p0 == page_of(plain, PAGE_STRIDE_PLAIN as int, 0));
    assert(with_ecc.subrange(0, 512) == plain.subrange(0, 512));
    assert forall|k: int| 0 <= k < 512 implies with_ecc[k] == plain[k] by {
        assert(with_ecc.subrange(0, 512)[k] == plain.subrange(0, 512)[k]);
    }
    assert(with_ecc.subrange(0, 27) =~= plain.subrange(0, 27));
    if let Some(g1) = open_geometry(with_ecc) {
        let g2 = open_geometry(plain).unwrap();
        assert(g1.ifc =~= g2.ifc);
        assert forall|x: int| #[trigger] cluster_of(with_ecc, g1.stride, x) == cluster_of(plain, g2.stride, x) by {
            assert(page_of(with_ecc, PAGE_STRIDE_ECC as int, 2 * x) == page_of(plain, PAGE_STRIDE_PLAIN as int, 2 * x));
            assert(page_of(with_ecc, PAGE_STRIDE_ECC as int, 2 * x + 1) == page_of(plain, PAGE_STRIDE_PLAIN as int, 2 * x + 1));
        }
        let rootdir = le32(with_ecc, 0x3C);
        lemma_dir_alike(g1, with_ecc, g2, plain, rootdir, 1);
        let first = dir_listing(g1, with_ecc, rootdir, 1);
        if first.len() > 0 {
            lemma_dir_alike(g1, with_ecc, g2, plain, rootdir, first[0].1);
            let root = dir_listing(g1, with_ecc, rootdir, first[0].1);
            lemma_games_alike(g1, with_ecc, g2, plain, root, root.len() as int);
        }
    }
}


/// The entries of a card's root folder, as many as its `.` entry declares; none when the card
/// does not open.
pub open spec fn root_entries(b: Seq<u8>) -> Seq<DirView> {
    match open_geometry(b) {
        None => seq![],
        Some(g) => {
            let first = dir_listing(g, b, le32(b, 0x3C), 1);
            if first.len() == 0 {
                seq![]
            } else {
                dir_listing(g, b, le32(b, 0x3C), first[0].1)
            }
        },
    }
}

proof fn lemma_games_from_used_folders(g: Geometry, b: Seq<u8>, root: Seq<DirView>, n: int)
    requires
        0 <= n <= root.len(),
    ensures
        forall|k: int|
            0 <= k < games_upto(g, b, root, n).len() ==> exists|i: int|
                0 <= i < n && (#[trigger] root[i]).3 == (#[trigger] games_upto(g, b, root, n)[k]).0 && root[i].0 & MODE_USED != 0
                    && root[i].0 & MODE_DIRECTORY != 0 && media_code(root[i].3) == Some(games_upto(g, b, root, n)[k].1),
    decreases n,
{
    if n > 0 {
        lemma_games_from_used_folders(g, b, root, n - 1);
        let before = games_upto(g, b, root, n - 1);
        let now = games_upto(g, b, root, n);
        assert forall|k: int| 0 <= k < now.len() implies exists|i: int|
            0 <= i < n && (#[trigger] root[i]).3 == (#[trigger] now[k]).0 && root[i].0 & MODE_USED != 0 && root[i].0
                & MODE_DIRECTORY != 0 && media_code(root[i].3) == Some(now[k].1) by {
            if k < before.len() {
                assert(now[k] == before[k]);
                let i = choose|i: int|
                    0 <= i < n - 1 && (#[trigger] root[i]).3 == (#[trigger] before[k]).0 && root[i].0 & MODE_USED != 0
                        && root[i].0 & MODE_DIRECTORY != 0 && media_code(root[i].3) == Some(before[k].1);
            } else {
                assert(root[n - 1].3 == now[k].0);
            }
        }
    }
}

/// Every game a card lists is a folder of its root that is in use (mode bit `0x8000`) and is a
/// directory, named with the game's media code: a deleted save folder, whose entry is no longer
/// in use, is never listed.
pub proof fn only_folders_in_use_are_listed(b: Seq<u8>)
    ensures
        forall|k: int|
            0 <= k < card_games(b).len() ==> exists|i: int|
                0 <= i < root_entries(b).len() && (#[trigger] root_entries(b)[i]).3 == (#[trigger] card_games(b)[k]).0
                    && root_entries(b)[i].0 & 0x8000u32 != 0 && root_entries(b)[i].0 & 0x0020u32 != 0 && media_code(
                    root_entries(b)[i].3,
                ) == Some(card_games(b)[k].1),
{
    if let Some(g) = open_geometry(b) {
        let first = dir_listing(g, b, le32(b, 0x3C), 1);
        if first.len() > 0 {
            let root = root_entries(b);
            lemma_games_from_used_folders(g, b, root, root.len() as int);
        }
    }
}

} // verus!
