//! The character-to-glyph mapping table (`cmap`) of OpenType fonts: choosing
//! a Unicode subtable and looking characters up in it.

use vstd::prelude::*;
use crate::text::Range;

verus! {

/// The byte at `i`, if there is one.
pub open spec fn u8_at(s: Seq<u8>, i: int) -> Option<u8> {
    if 0 <= i < s.len() {
        Some(s[i])
    } else {
        None
    }
}

/// The big-endian 16-bit integer at `i`, if all its bytes are there.
pub open spec fn u16_at(s: Seq<u8>, i: int) -> Option<u16> {
    if 0 <= i && i + 2 <= s.len() {
        Some((s[i] as int * 0x100 + s[i + 1] as int) as u16)
    } else {
        None
    }
}

/// The big-endian 32-bit integer at `i`, if all its bytes are there.
pub open spec fn u32_at(s: Seq<u8>, i: int) -> Option<u32> {
    if 0 <= i && i + 4 <= s.len() {
        Some(
            (s[i] as int * 0x1000000 + s[i + 1] as int * 0x10000 + s[i + 2] as int * 0x100 + s[i
                + 3] as int) as u32,
        )
    } else {
        None
    }
}

/// The 16-bit integer at `i`, or 0 where it is cut off.
pub open spec fn r16(s: Seq<u8>, i: int) -> int {
    match u16_at(s, i) {
        Some(v) => v as int,
        None => 0,
    }
}

/// The 32-bit integer at `i`, or 0 where it is cut off.
pub open spec fn r32(s: Seq<u8>, i: int) -> int {
    match u32_at(s, i) {
        Some(v) => v as int,
        None => 0,
    }
}

/// A range of the bytes of a font file.
#[derive(Clone, Copy, Debug)]
pub struct Region<'a> {
    data: &'a [u8],
    range: Range,
}

impl<'a> Region<'a> {
    #[verifier::type_invariant]
    spec fn bounded(self) -> bool {
        self.range.start <= self.range.end <= self.data@.len()
    }

    /// All the bytes the region's offsets refer to.
    pub closed spec fn data_view(self) -> Seq<u8> {
        self.data@
    }

    pub closed spec fn range_view(self) -> Range {
        self.range
    }

    /// The bytes inside the region.
    pub open spec fn bytes(self) -> Seq<u8> {
        self.data_view().subrange(self.range_view().start as int, self.range_view().end as int)
    }

    /// The region that spans all of `data`.
    pub fn new(data: &'a [u8]) -> (r: Region<'a>)
        ensures
            r.data_view() == data@,
            r.range_view() == (Range { start: 0, end: data@.len() as usize }),
    {
        Region { data, range: Range { start: 0, end: data.len() } }
    }

    /// The offsets of the region within the data.
    pub fn range(&self) -> (r: Range)
        ensures
            r == self.range_view(),
            r.start <= r.end <= self.data_view().len(),
    {
        proof {
            use_type_invariant(self);
        }
        self.range
    }

    /// The part of this region over `[start, end)`, offsets into the data, if
    /// it lies within this region.
    pub fn subregion(&self, start: usize, end: usize) -> (r: Option<Region<'a>>)
        ensures
            (self.range_view().start <= start <= end <= self.range_view().end) <==> r is Some,
            r matches Some(q) ==> q.data_view() == self.data_view() && q.range_view() == (Range {
                start,
                end,
            }),
    {
        proof {
            use_type_invariant(self);
        }
        if self.range.start <= start && start <= end && end <= self.range.end {
            Some(Region { data: self.data, range: Range { start, end } })
        } else {
            None
        }
    }

    pub fn read_u8_at(&self, i: usize) -> (r: Option<u8>)
        ensures
            r == u8_at(self.bytes(), i as int),
    {
        proof {
            use_type_invariant(self);
        }
        if i < self.range.end - self.range.start {
            Some(self.data[self.range.start + i])
        } else {
            None
        }
    }

    pub fn read_u16_at(&self, i: usize) -> (r: Option<u16>)
        ensures
            r == u16_at(self.bytes(), i as int),
    {
        proof {
            use_type_invariant(self);
        }
        let len = self.range.end - self.range.start;
        if i < len && len - i >= 2 {
            let at = self.range.start + i;
            let v = (self.data[at] as u16) * 0x100 + (self.data[at + 1] as u16);
            Some(v)
        } else {
            None
        }
    }

    pub fn read_u32_at(&self, i: usize) -> (r: Option<u32>)
        ensures
            r == u32_at(self.bytes(), i as int),
    {
        proof {
            use_type_invariant(self);
        }
        let len = self.range.end - self.range.start;
        if i < len && len - i >= 4 {
            let at = self.range.start + i;
            let v = (self.data[at] as u32) * 0x1000000 + (self.data[at + 1] as u32) * 0x10000
                + (self.data[at + 2] as u32) * 0x100 + (self.data[at + 3] as u32);
            Some(v)
        } else {
            None
        }
    }

    /// The byte at `i`, or 0 where there is none.
    fn read_u8_or_0(&self, i: u64) -> (r: u64)
        ensures
            r == (match u8_at(self.bytes(), i as int) {
                Some(b) => b as int,
                None => 0,
            }),
    {
        proof {
            use_type_invariant(self);
        }
        if i >= (self.range.end - self.range.start) as u64 {
            return 0;
        }
        match self.read_u8_at(i as usize) {
            Some(b) => b as u64,
            None => 0,
        }
    }

    /// The 16-bit integer at `i`, or 0 where it is cut off.
    fn read_u16_or_0(&self, i: u64) -> (r: u64)
        ensures
            r == r16(self.bytes(), i as int),
            r <= 0xffff,
    {
        proof {
            use_type_invariant(self);
        }
        if i >= (self.range.end - self.range.start) as u64 {
            return 0;
        }
        match self.read_u16_at(i as usize) {
            Some(v) => v as u64,
            None => 0,
        }
    }

    /// The 32-bit integer at `i`, or 0 where it is cut off.
    fn read_u32_or_0(&self, i: u64) -> (r: u64)
        ensures
            r == r32(self.bytes(), i as int),
            r <= 0xffff_ffff,
    {
        proof {
            use_type_invariant(self);
        }
        if i >= (self.range.end - self.range.start) as u64 {
            return 0;
        }
        match self.read_u32_at(i as usize) {
            Some(v) => v as u64,
            None => 0,
        }
    }
}

/// The subtable formats that lookups support.
#[derive(Clone, Copy, Debug, PartialEq, Eq, Structural)]
pub enum Format {
    Type0,
    Type4,
    Type6,
    Type12,
    Type13,
}

pub open spec fn format_of(n: u16) -> Option<Format> {
    if n == 0 {
        Some(Format::Type0)
    } else if n == 4 {
        Some(Format::Type4)
    } else if n == 6 {
        Some(Format::Type6)
    } else if n == 12 {
        Some(Format::Type12)
    } else if n == 13 {
        Some(Format::Type13)
    } else {
        None
    }
}

impl Format {
    pub fn try_new(format: u16) -> (r: Option<Format>)
        ensures
            r == format_of(format),
    {
        match format {
            0 => Some(Format::Type0),
            4 => Some(Format::Type4),
            6 => Some(Format::Type6),
            12 => Some(Format::Type12),
            13 => Some(Format::Type13),
            _ => None,
        }
    }
}

/// What the scan of the encoding records finds: a record that cannot be read,
/// no Unicode record, or the offset of the first Unicode subtable.
pub enum Pick {
    Broken,
    Missing,
    At(u32),
}

/// Scans the encoding records `i..count` of the `cmap` header `c` for the
/// first Unicode one: platform 0, or platform 3 with encoding 1 or 10.
pub open spec fn pick(c: Seq<u8>, i: nat, count: nat) -> Pick
    decreases count - i,
{
    if i >= count {
        Pick::Missing
    } else {
        let offset = 4 + 8 * (i as int);
        let at = match u32_at(c, offset + 4) {
            Some(index) => Pick::At(index),
            None => Pick::Broken,
        };
        match u16_at(c, offset) {
            None => Pick::Broken,
            Some(platform) => if platform == 0 {
                at
            } else if platform == 3 {
                match u16_at(c, offset + 2) {
                    None => Pick::Broken,
                    Some(encoding) => if encoding == 1 || encoding == 10 {
                        at
                    } else {
                        pick(c, i + 1, count)
                    },
                }
            } else {
                pick(c, i + 1, count)
            },
        }
    }
}

/// Where the Unicode subtable starts in the font's data, given the `cmap`
/// table `c` that starts at `cmap_start`: the header must be version 0.
pub open spec fn subtable_start(c: Seq<u8>, cmap_start: int) -> Option<int> {
    if u16_at(c, 0) != Some(0u16) {
        None
    } else {
        match u16_at(c, 2) {
            None => None,
            Some(count) => match pick(c, 0, count as nat) {
                Pick::At(index) => Some(cmap_start + index),
                _ => None,
            },
        }
    }
}

/// The segment search of a format 4 subtable `s`: `steps` halvings of
/// `range`, moving past the segments whose end code is below `ch`.
pub open spec fn segment_search(s: Seq<u8>, ch: int, search: int, range: int, steps: int) -> int
    decreases steps,
{
    if steps <= 0 {
        search
    } else {
        let half = range / 2;
        let next = if ch > r16(s, search + half * 2) {
            search + half * 2
        } else {
            search
        };
        segment_search(s, ch, next, half, steps - 1)
    }
}

/// The glyph of `ch` in a format 4 subtable `s`.
pub open spec fn glyph4(s: Seq<u8>, ch: int) -> int {
    let seg_count = r16(s, 6) / 2;
    let search_range = r16(s, 8) / 2;
    let range_shift = r16(s, 12) / 2;
    let first = if ch >= r16(s, 14 + range_shift * 2) {
        14 + range_shift * 2
    } else {
        14
    };
    let search = segment_search(s, ch, first - 2, search_range, r16(s, 10)) + 2;
    let item = (search - 14) / 2;
    let start = r16(s, 14 + seg_count * 2 + 2 + 2 * item);
    let offset = r16(s, 14 + seg_count * 6 + 2 + 2 * item);
    if ch > 0xffff || ch > r16(s, 14 + 2 * item) || ch < start {
        0
    } else if offset == 0 {
        (ch + r16(s, 14 + seg_count * 4 + 2 + 2 * item)) % 0x10000
    } else {
        r16(s, offset + (ch - start) * 2 + 14 + seg_count * 6 + 2 + 2 * item)
    }
}

/// The binary search over the groups `[low, high)` of a format 12 or 13
/// subtable `s`; in format 12 the glyph grows with the code within a group.
pub open spec fn group_search(s: Seq<u8>, ch: int, low: int, high: int, sequential: bool) -> int
    decreases high - low,
{
    if low >= high {
        0
    } else {
        let mid = (low + high) / 2;
        let group = 16 + mid * 12;
        let first = r32(s, group);
        if ch < first {
            group_search(s, ch, low, mid, sequential)
        } else if ch > r32(s, group + 4) {
            group_search(s, ch, mid + 1, high, sequential)
        } else if sequential {
            r32(s, group + 8) + (ch - first)
        } else {
            r32(s, group + 8)
        }
    }
}

/// The glyph index of the code `ch` in the subtable `s` of format `format`,
/// 0 where the subtable maps it to none.
pub open spec fn glyph(s: Seq<u8>, format: Format, ch: int) -> int {
    match format {
        Format::Type0 => {
            let len = match u16_at(s, 2) {
                Some(l) => if l >= 6 {
                    l - 6
                } else {
                    l + 0xfffa
                },
                None => 0,
            };
            if ch < len {
                match u8_at(s, 6 + ch) {
                    Some(b) => b as int,
                    None => 0,
                }
            } else {
                0
            }
        },
        Format::Type4 => glyph4(s, ch),
        Format::Type6 => {
            let first = r16(s, 6);
            let count = r16(s, 8);
            if first <= ch < first + count {
                r16(s, 10 + (ch - first) * 2)
            } else {
                0
            }
        },
        Format::Type12 => group_search(s, ch, 0, r16(s, 12), true),
        Format::Type13 => group_search(s, ch, 0, r16(s, 12), false),
    }
}

/// Where the Unicode subtable chosen by the `cmap` table `c` (at `cmap_start`)
/// starts in the font's `data`, and its format: it must begin inside the font
/// file's range `file` and have a supported format.
pub open spec fn table_of(data: Seq<u8>, file: Range, c: Seq<u8>, cmap_start: int) -> Option<(int, Format)> {
    match subtable_start(c, cmap_start) {
        None => None,
        Some(start) => if file.start <= start <= file.end {
            match u16_at(data.subrange(start, file.end as int), 0) {
                None => None,
                Some(f) => match format_of(f) {
                    None => None,
                    Some(format) => Some((start, format)),
                },
            }
        } else {
            None
        },
    }
}

/// The mapping from character codes to glyph indices: a Unicode subtable of
/// the font and its format.
#[derive(Clone, Copy, Debug)]
pub struct CharacterToGlyphIndexMappingTable<'a> {
    subtable: Region<'a>,
    format: Format,
}

impl<'a> CharacterToGlyphIndexMappingTable<'a> {
    pub closed spec fn subtable_view(self) -> Region<'a> {
        self.subtable
    }

    pub closed spec fn format_view(self) -> Format {
        self.format
    }

    /// Reads the `cmap` table `cmap` of the font `file`: picks its first
    /// Unicode subtable, which runs to the end of `file`, and reads its format.
    pub fn try_new(file: &Region<'a>, cmap: Region<'a>) -> (r: Option<Self>)
        ensures
            r is Some <==> table_of(file.data_view(), file.range_view(), cmap.bytes(), cmap.range_view().start as int) is Some,
            r matches Some(t) ==> t.subtable_view().data_view() == file.data_view()
                && t.subtable_view().range_view().end == file.range_view().end
                && table_of(file.data_view(), file.range_view(), cmap.bytes(), cmap.range_view().start as int)
                == Some((t.subtable_view().range_view().start as int, t.format_view())),
    {
        let version = cmap.read_u16_at(0)?;
        if version != 0 {
            return None;
        }
        let table_count = cmap.read_u16_at(2)? as usize;
        let ghost c = cmap.bytes();
        let ghost count = table_count as nat;
        let mut index: Option<u32> = None;
        let mut i: usize = 0;
        while i < table_count
            invariant_except_break
                index is None,
            invariant
                c == cmap.bytes(),
                count == table_count,
                i <= table_count <= 0xffff,
                pick(c, 0, count) == pick(c, i as nat, count),
                u16_at(c, 0) == Some(0u16),
                u16_at(c, 2) == Some(table_count as u16),
            ensures
                pick(c, 0, count) matches Pick::At(x) ==> index == Some(x),
                pick(c, 0, count) is Missing ==> index is None,
                pick(c, 0, count) is Broken ==> index is None,
            decreases table_count - i,
        {
            let offset: usize = 4 + 8 * i;
            let platform = match cmap.read_u16_at(offset) {
                Some(p) => p,
                None => {
                    proof {
                        assert(pick(c, i as nat, count) is Broken);
                    }
                    return None;
                },
            };
            if platform == 3 {
                let encoding = match cmap.read_u16_at(offset + 2) {
                    Some(e) => e,
                    None => {
                        proof {
                            assert(pick(c, i as nat, count) is Broken);
                        }
                        return None;
                    },
                };
                if encoding != 1 && encoding != 10 {
                    i = i + 1;
                    continue;
                }
            } else if platform != 0 {
                i = i + 1;
                continue;
            }
            index = match cmap.read_u32_at(offset + 4) {
                Some(x) => Some(x),
                None => return None,
            };
            break;
        }
        let index = index?;
        let file_range = file.range();
        let start = cmap.range().start.checked_add(index as usize)?;
        let subtable = file.subregion(start, file_range.end)?;
        let format = Format::try_new(subtable.read_u16_at(0)?)?;
        Some(CharacterToGlyphIndexMappingTable { subtable, format })
    }

    fn lookup4(&self, ch: u64) -> (r: u64)
        requires
            self.format_view() == Format::Type4,
            ch <= 0x10ffff,
        ensures
            r == glyph4(self.subtable_view().bytes(), ch as int),
    {
        let ghost s = self.subtable.bytes();
        if ch > 0xffff {
            return 0;
        }
        let t = &self.subtable;
        let seg_count = t.read_u16_or_0(6) / 2;
        let mut search_range = t.read_u16_or_0(8) / 2;
        let mut entry_selector = t.read_u16_or_0(10);
        let range_shift = t.read_u16_or_0(12) / 2;
        let end_count: u64 = 14;
        let mut search = end_count;
        if ch >= t.read_u16_or_0(search + range_shift * 2) {
            search = search + range_shift * 2;
        }
        search = search - 2;
        let ghost first = search as int;
        let ghost first_range = search_range as int;
        let ghost steps = entry_selector as int;
        while entry_selector != 0
            invariant
                s == t.bytes(),
                entry_selector <= steps <= 0xffff,
                search_range <= 0x7fff,
                12 <= search <= 65548 + (steps - entry_selector) * 65534,
                segment_search(s, ch as int, first, first_range, steps) == segment_search(
                    s,
                    ch as int,
                    search as int,
                    search_range as int,
                    entry_selector as int,
                ),
            decreases entry_selector,
        {
            search_range = search_range / 2;
            let end = t.read_u16_or_0(search + search_range * 2);
            if ch > end {
                search = search + search_range * 2;
            }
            entry_selector = entry_selector - 1;
        }
        search = search + 2;
        let item = (search - end_count) / 2;
        if ch > t.read_u16_or_0(end_count + 2 * item) {
            return 0;
        }
        let start = t.read_u16_or_0(14 + seg_count * 2 + 2 + 2 * item);
        if ch < start {
            return 0;
        }
        let offset = t.read_u16_or_0(14 + seg_count * 6 + 2 + 2 * item);
        if offset == 0 {
            (ch + t.read_u16_or_0(14 + seg_count * 4 + 2 + 2 * item)) % 0x10000
        } else {
            t.read_u16_or_0(offset + (ch - start) * 2 + 14 + seg_count * 6 + 2 + 2 * item)
        }
    }

    fn lookup_groups(&self, ch: u64) -> (r: u64)
        requires
            self.format_view() == Format::Type12 || self.format_view() == Format::Type13,
            ch <= 0x10ffff,
        ensures
            r == group_search(
                self.subtable_view().bytes(),
                ch as int,
                0,
                r16(self.subtable_view().bytes(), 12),
                self.format_view() == Format::Type12,
            ),
    {
        let ghost s = self.subtable.bytes();
        let t = &self.subtable;
        let sequential = self.format == Format::Type12;
        let mut low: u64 = 0;
        let mut high = t.read_u16_or_0(12);
        let ghost top = high as int;
        while low < high
            invariant
                s == t.bytes(),
                s == self.subtable_view().bytes(),
                sequential == (self.format_view() == Format::Type12),
                top == r16(s, 12),
                low <= high <= 0xffff,
                group_search(s, ch as int, 0, top, sequential) == group_search(
                    s,
                    ch as int,
                    low as int,
                    high as int,
                    sequential,
                ),
            decreases high - low,
        {
            let mid = (low + high) / 2;
            let group = 16 + mid * 12;
            let first = t.read_u32_or_0(group);
            if ch < first {
                high = mid;
            } else if ch > t.read_u32_or_0(group + 4) {
                low = mid + 1;
            } else {
                let glyph = t.read_u32_or_0(group + 8);
                if sequential {
                    return glyph + (ch - first);
                }
                return glyph;
            }
        }
        0
    }

    /// The glyph index of `ch`, 0 where the subtable maps it to none.
    pub fn lookup(&self, ch: char) -> (r: u64)
        ensures
            r == glyph(self.subtable_view().bytes(), self.format_view(), ch as u32 as int),
    {
        let ch = ch as u32 as u64;
        let t = &self.subtable;
        match self.format {
            Format::Type0 => {
                let len: u64 = match t.read_u16_at(2) {
                    Some(l) => if l >= 6 {
                        (l - 6) as u64
                    } else {
                        l as u64 + 0xfffa
                    },
                    None => 0,
                };
                if ch < len {
                    t.read_u8_or_0(6 + ch)
                } else {
                    0
                }
            },
            Format::Type4 => self.lookup4(ch),
            Format::Type6 => {
                let first = t.read_u16_or_0(6);
                let count = t.read_u16_or_0(8);
                if ch >= first && ch < first + count {
                    t.read_u16_or_0(10 + (ch - first) * 2)
                } else {
                    0
                }
            },
            Format::Type12 | Format::Type13 => self.lookup_groups(ch),
        }
    }
}

} // verus!
