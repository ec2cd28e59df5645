//! Read-only access to the FAT12/16 ramdisk image: root-directory listing and
//! file lookup by 8.3 name.
//!
//! The image is a byte slice. Fields are little-endian; the boot sector holds
//! the geometry, the root directory follows the reserved sectors and the FATs,
//! and file data starts after the root directory.

use vstd::prelude::*;
use vstd::utf8::encode_utf8;
use vstd::utf8::is_ascii_chars;

verus! {

/// Size of the FAT12/16 boot sector with its extended parameter block.
pub const BOOT_SECTOR_SIZE: usize = 62;
/// Size of one directory entry.
pub const DIR_ENTRY_SIZE: usize = 32;

/// Little-endian 16-bit field at `off`.
pub open spec fn le16(img: Seq<u8>, off: int) -> int {
    img[off] + 256 * img[off + 1]
}

/// Little-endian 32-bit field at `off`.
pub open spec fn le32(img: Seq<u8>, off: int) -> int {
    img[off] + 256 * img[off + 1] + 65536 * img[off + 2] + 16777216 * img[off + 3]
}

pub open spec fn bytes_per_sector(img: Seq<u8>) -> int { le16(img, 11) }
pub open spec fn sectors_per_cluster(img: Seq<u8>) -> int { img[13] as int }
pub open spec fn reserved_sectors(img: Seq<u8>) -> int { le16(img, 14) }
pub open spec fn num_fats(img: Seq<u8>) -> int { img[16] as int }
pub open spec fn root_entries(img: Seq<u8>) -> int { le16(img, 17) }
pub open spec fn sectors_per_fat(img: Seq<u8>) -> int { le16(img, 22) }

/// Byte offset of the root directory.
pub open spec fn root_dir_offset(img: Seq<u8>) -> int {
    reserved_sectors(img) * bytes_per_sector(img) + num_fats(img) * sectors_per_fat(img)
        * bytes_per_sector(img)
}

/// Byte offset of root-directory entry `i`.
pub open spec fn entry_offset(img: Seq<u8>, i: int) -> int {
    root_dir_offset(img) + 32 * i
}

/// Entry `i` lies wholly inside the image.
pub open spec fn entry_in_image(img: Seq<u8>, i: int) -> bool {
    entry_offset(img, i) + 32 <= img.len()
}

/// The scan of the root directory stops at index `i`: past the table, past the
/// image, or at an entry whose first name byte is zero.
pub open spec fn stops_at(img: Seq<u8>, i: int) -> bool {
    i >= root_entries(img) || !entry_in_image(img, i) || img[entry_offset(img, i)] == 0
}

/// First index at or after `i` where the scan stops.
pub open spec fn dir_end_from(img: Seq<u8>, i: int) -> int
    decreases root_entries(img) - i,
{
    if i < 0 || stops_at(img, i) {
        i
    } else {
        dir_end_from(img, i + 1)
    }
}

/// Number of root-directory slots that the scan visits.
pub open spec fn dir_end(img: Seq<u8>) -> int {
    dir_end_from(img, 0)
}

/// Slot `i` (before the end of the scan) names a regular file: not deleted,
/// not a volume label, not a directory.
pub open spec fn is_listed(img: Seq<u8>, i: int) -> bool {
    let off = entry_offset(img, i);
    &&& img[off] != 0xE5
    &&& img[off + 11] & 0x08 == 0
    &&& img[off + 11] & 0x10 == 0
}

/// The ASCII characters with the Unicode White_Space property: tab, line
/// feed, vertical tab, form feed, carriage return and space.
pub open spec fn is_ws(b: u8) -> bool {
    (9 <= b && b <= 13) || b == 32
}

/// The two-byte UTF-8 encodings of White_Space characters: U+0085 and
/// U+00A0.
pub open spec fn is_ws2(a: u8, b: u8) -> bool {
    a == 0xC2 && (b == 0x85 || b == 0xA0)
}

/// The three-byte UTF-8 encodings of White_Space characters: U+1680,
/// U+2000 to U+200A, U+2028, U+2029, U+202F, U+205F and U+3000.
pub open spec fn is_ws3(a: u8, b: u8, c: u8) -> bool {
    ||| a == 0xE1 && b == 0x9A && c == 0x80
    ||| a == 0xE2 && b == 0x80 && ((0x80 <= c && c <= 0x8A) || c == 0xA8 || c == 0xA9 || c == 0xAF)
    ||| a == 0xE2 && b == 0x81 && c == 0x9F
    ||| a == 0xE3 && b == 0x80 && c == 0x80
}

/// Bytes taken by the White_Space character that `s` starts with; 0 when
/// it starts with none.
pub open spec fn ws_prefix(s: Seq<u8>) -> int {
    if s.len() >= 1 && is_ws(s[0]) {
        1
    } else if s.len() >= 2 && is_ws2(s[0], s[1]) {
        2
    } else if s.len() >= 3 && is_ws3(s[0], s[1], s[2]) {
        3
    } else {
        0
    }
}

/// Bytes taken by the White_Space character that `s` ends with; 0 when it
/// ends with none.
pub open spec fn ws_suffix(s: Seq<u8>) -> int {
    let n = s.len() as int;
    if n >= 1 && is_ws(s[n - 1]) {
        1
    } else if n >= 2 && is_ws2(s[n - 2], s[n - 1]) {
        2
    } else if n >= 3 && is_ws3(s[n - 3], s[n - 2], s[n - 1]) {
        3
    } else {
        0
    }
}

/// `s` without its leading White_Space characters.
pub open spec fn trim_start(s: Seq<u8>) -> Seq<u8>
    decreases s.len(),
{
    let k = ws_prefix(s);
    if k == 0 {
        s
    } else {
        trim_start(s.subrange(k, s.len() as int))
    }
}

/// `s` without its trailing White_Space characters.
pub open spec fn trim_end(s: Seq<u8>) -> Seq<u8>
    decreases s.len(),
{
    let k = ws_suffix(s);
    if k == 0 {
        s
    } else {
        trim_end(s.subrange(0, s.len() - k))
    }
}

/// The UTF-8 text `s` with leading and trailing whitespace removed, as
/// `str::trim` removes it: every character with the White_Space property.
pub open spec fn trim(s: Seq<u8>) -> Seq<u8> {
    trim_end(trim_start(s))
}

/// The display name of an 8.3 entry: trimmed base, then `.` and the trimmed
/// extension when the extension is not empty.
pub open spec fn name_83(raw: Seq<u8>) -> Seq<u8> {
    let base = trim(raw.subrange(0, 8));
    let ext = trim(raw.subrange(8, 11));
    if ext.len() == 0 {
        base
    } else {
        base.push(46u8) + ext
    }
}

/// Display name of slot `i`.
pub open spec fn entry_name(img: Seq<u8>, i: int) -> Seq<u8> {
    let off = entry_offset(img, i);
    name_83(img.subrange(off, off + 11))
}

/// File size recorded in slot `i`.
pub open spec fn entry_size(img: Seq<u8>, i: int) -> int {
    le32(img, entry_offset(img, i) + 28)
}

/// Starting cluster (low 16 bits) recorded in slot `i`.
pub open spec fn entry_cluster(img: Seq<u8>, i: int) -> int {
    le16(img, entry_offset(img, i) + 26)
}

/// The listing of the first `n` scanned slots: name and size of each regular file.
pub open spec fn listing_upto(img: Seq<u8>, n: int) -> Seq<(Seq<u8>, int)>
    decreases n,
{
    if n <= 0 {
        Seq::empty()
    } else if is_listed(img, n - 1) {
        listing_upto(img, n - 1).push((entry_name(img, n - 1), entry_size(img, n - 1)))
    } else {
        listing_upto(img, n - 1)
    }
}

/// The whole root-directory listing.
pub open spec fn listing(img: Seq<u8>) -> Seq<(Seq<u8>, int)> {
    listing_upto(img, dir_end(img))
}

/// Sectors taken by the root directory.
pub open spec fn root_dir_sectors(img: Seq<u8>) -> int {
    (root_entries(img) * 32 + (bytes_per_sector(img) - 1)) / bytes_per_sector(img)
}

/// First sector of the data area.
pub open spec fn first_data_sector(img: Seq<u8>) -> int {
    reserved_sectors(img) + num_fats(img) * sectors_per_fat(img) + root_dir_sectors(img)
}

/// Byte offset of the data of slot `i`.
pub open spec fn data_offset(img: Seq<u8>, i: int) -> int {
    (first_data_sector(img) + (entry_cluster(img, i) - 2) * sectors_per_cluster(img))
        * bytes_per_sector(img)
}

/// Slot `i` is a regular file named `name` with a data cluster.
pub open spec fn matches_name(img: Seq<u8>, i: int, name: Seq<u8>) -> bool {
    is_listed(img, i) && entry_name(img, i) == name && entry_cluster(img, i) >= 2
}

/// The result of looking `name` up among scanned slots `i..`: the data of the
/// first match, or `None` when there is none or its data lies past the image.
pub open spec fn lookup_from(img: Seq<u8>, name: Seq<u8>, i: int) -> Option<Seq<u8>>
    decreases dir_end(img) - i,
{
    if i < 0 || i >= dir_end(img) {
        None
    } else if matches_name(img, i, name) {
        let start = data_offset(img, i);
        let end = start + entry_size(img, i);
        if end <= img.len() {
            Some(img.subrange(start, end))
        } else {
            None
        }
    } else {
        lookup_from(img, name, i + 1)
    }
}

/// The image has a boot sector, and its sector size is not zero.
pub open spec fn well_formed(img: Seq<u8>) -> bool {
    img.len() >= BOOT_SECTOR_SIZE && bytes_per_sector(img) != 0
}

/// An image that can be handed to `read_file`: too short to hold a boot
/// sector (treated as empty), or with a non-zero sector size.
pub open spec fn readable(img: Seq<u8>) -> bool {
    img.len() < BOOT_SECTOR_SIZE || bytes_per_sector(img) != 0
}

/// What a lookup of `name` in `img` gives.
pub open spec fn lookup(img: Seq<u8>, name: Seq<u8>) -> Option<Seq<u8>> {
    if img.len() < BOOT_SECTOR_SIZE {
        None
    } else {
        lookup_from(img, name, 0)
    }
}

/// What a listing of `img` gives.
pub open spec fn list_of(img: Seq<u8>) -> Seq<(Seq<u8>, int)> {
    if img.len() < BOOT_SECTOR_SIZE {
        Seq::empty()
    } else {
        listing(img)
    }
}

/// The uppercase form that `str::to_uppercase` gives for a string.
pub uninterp spec fn uppercase_of(s: Seq<char>) -> Seq<char>;

/// ASCII uppercase of one character.
pub open spec fn ascii_upper(c: char) -> char {
    if 'a' <= c && c <= 'z' {
        ((c as u32) - 32) as char
    } else {
        c
    }
}

/// Wraps `str::to_uppercase` from std. The result is the name applied to the
/// input; for an ASCII input, std documents the mapping per character (letters
/// `a`..`z` to `A`..`Z`, everything else unchanged), which is stated too.
#[verifier::external_body]
fn to_uppercase(s: &str) -> (r: String)
    ensures
        r@ == uppercase_of(s@),
        is_ascii_chars(s@) ==> r@ == s@.map_values(|c: char| ascii_upper(c)),
{
    s.to_uppercase()
}

fn read_u16(img: &[u8], off: usize) -> (r: u64)
    requires
        off + 2 <= img@.len(),
    ensures
        r == le16(img@, off as int),
{
    (img[off] as u64) + 256 * (img[off + 1] as u64)
}

fn read_u32(img: &[u8], off: usize) -> (r: u64)
    requires
        off + 4 <= img@.len(),
    ensures
        r == le32(img@, off as int),
{
    (img[off] as u64) + 256 * (img[off + 1] as u64) + 65536 * (img[off + 2] as u64) + 16777216 * (
    img[off + 3] as u64)
}

fn is_ws_byte(b: u8) -> (r: bool)
    ensures
        r == is_ws(b),
{
    (9 <= b && b <= 13) || b == 32
}

fn is_ws3_bytes(a: u8, b: u8, c: u8) -> (r: bool)
    ensures
        r == is_ws3(a, b, c),
{
    (a == 0xE1 && b == 0x9A && c == 0x80) || (a == 0xE2 && b == 0x80 && ((0x80 <= c && c <= 0x8A)
        || c == 0xA8 || c == 0xA9 || c == 0xAF)) || (a == 0xE2 && b == 0x81 && c == 0x9F) || (a
        == 0xE3 && b == 0x80 && c == 0x80)
}

/// Bytes taken by the whitespace character that `raw[a..hi]` starts with.
fn ws_prefix_at(raw: &[u8], a: usize, hi: usize) -> (k: usize)
    requires
        a <= hi <= raw@.len(),
    ensures
        k == ws_prefix(raw@.subrange(a as int, hi as int)),
        k <= hi - a,
{
    let ghost s = raw@.subrange(a as int, hi as int);
    let n = hi - a;
    if n >= 1 && is_ws_byte(raw[a]) {
        1
    } else if n >= 2 && raw[a] == 0xC2 && (raw[a + 1] == 0x85 || raw[a + 1] == 0xA0) {
        2
    } else if n >= 3 && is_ws3_bytes(raw[a], raw[a + 1], raw[a + 2]) {
        3
    } else {
        proof {
            if n >= 2 {
                assert(s[0] == raw@[a as int] && s[1] == raw@[a + 1]);
            }
            if n >= 3 {
                assert(s[2] == raw@[a + 2]);
            }
        }
        0
    }
}

/// Bytes taken by the whitespace character that `raw[a..b]` ends with.
fn ws_suffix_at(raw: &[u8], a: usize, b: usize) -> (k: usize)
    requires
        a <= b <= raw@.len(),
    ensures
        k == ws_suffix(raw@.subrange(a as int, b as int)),
        k <= b - a,
{
    let ghost s = raw@.subrange(a as int, b as int);
    let n = b - a;
    if n >= 1 && is_ws_byte(raw[b - 1]) {
        1
    } else if n >= 2 && raw[b - 2] == 0xC2 && (raw[b - 1] == 0x85 || raw[b - 1] == 0xA0) {
        2
    } else if n >= 3 && is_ws3_bytes(raw[b - 3], raw[b - 2], raw[b - 1]) {
        3
    } else {
        proof {
            if n >= 1 {
                assert(s[n - 1] == raw@[b - 1]);
            }
            if n >= 2 {
                assert(s[n - 2] == raw@[b - 2]);
            }
            if n >= 3 {
                assert(s[n - 3] == raw@[b - 3]);
            }
        }
        0
    }
}

/// Copy `raw[lo..hi]` with surrounding whitespace removed, appending to `out`.
fn push_trimmed(out: &mut Vec<u8>, raw: &[u8], lo: usize, hi: usize)
    requires
        lo <= hi <= raw@.len(),
    ensures
        final(out)@ == old(out)@ + trim(raw@.subrange(lo as int, hi as int)),
{
    let ghost s = raw@.subrange(lo as int, hi as int);
    let mut a: usize = lo;
    while ws_prefix_at(raw, a, hi) > 0
        invariant
            lo <= a <= hi <= raw@.len(),
            s == raw@.subrange(lo as int, hi as int),
            trim_start(s) == trim_start(raw@.subrange(a as int, hi as int)),
        decreases hi - a,
    {
        let k = ws_prefix_at(raw, a, hi);
        proof {
            assert(raw@.subrange(a as int, hi as int).subrange(k as int, hi - a) =~= raw@.subrange(
                a + k,
                hi as int,
            ));
        }
        a = a + k;
    }
    let mut b: usize = hi;
    while ws_suffix_at(raw, a, b) > 0
        invariant
            lo <= a <= b <= hi <= raw@.len(),
            s == raw@.subrange(lo as int, hi as int),
            trim(s) == trim_end(raw@.subrange(a as int, b as int)),
        decreases b - a,
    {
        let k = ws_suffix_at(raw, a, b);
        proof {
            assert(raw@.subrange(a as int, b as int).subrange(0, b - a - k) =~= raw@.subrange(
                a as int,
                b - k,
            ));
        }
        b = b - k;
    }
    let mut k: usize = a;
    while k < b
        invariant
            a <= k <= b <= hi <= raw@.len(),
            out@ == old(out)@ + raw@.subrange(a as int, k as int),
        decreases b - k,
    {
        out.push(raw[k]);
        proof {
            assert(raw@.subrange(a as int, k + 1) == raw@.subrange(a as int, k as int).push(raw@[k as int]));
        }
        k = k + 1;
    }
}

/// The display name of the 11 raw name bytes at `off`.
fn entry_display_name(img: &[u8], off: usize) -> (r: Vec<u8>)
    requires
        off + 11 <= img@.len(),
    ensures
        r@ == name_83(img@.subrange(off as int, off + 11)),
{
    let ghost raw = img@.subrange(off as int, off + 11);
    let n = img.len();
    assert(off + 11 <= n);
    let mut out: Vec<u8> = Vec::new();
    push_trimmed(&mut out, img, off, off + 8);
    let mut ext: Vec<u8> = Vec::new();
    push_trimmed(&mut ext, img, off + 8, off + 11);
    proof {
        assert(raw.subrange(0, 8) == img@.subrange(off as int, off + 8));
        assert(raw.subrange(8, 11) == img@.subrange(off + 8, off + 11));
        assert(out@ == trim(raw.subrange(0, 8)));
        assert(ext@ == trim(raw.subrange(8, 11)));
    }
    if ext.len() > 0 {
        out.push(46u8);
        let mut k: usize = 0;
        let ghost base = out@;
        while k < ext.len()
            invariant
                k <= ext@.len(),
                out@ == base + ext@.subrange(0, k as int),
            decreases ext@.len() - k,
        {
            out.push(ext[k]);
            proof {
                assert(ext@.subrange(0, k + 1) == ext@.subrange(0, k as int).push(ext@[k as int]));
            }
            k = k + 1;
        }
        proof {
            assert(ext@.subrange(0, k as int) == ext@);
        }
    }
    out
}

/// Geometry of the image that the scans need.
struct Geometry {
    root_off: u64,
    root_entries: u64,
}

fn geometry(img: &[u8]) -> (g: Geometry)
    requires
        img@.len() >= BOOT_SECTOR_SIZE,
    ensures
        g.root_off == root_dir_offset(img@),
        g.root_entries == root_entries(img@),
        g.root_off <= 0x1_0000_0000_0000,
{
    let bps = read_u16(img, 11);
    let reserved = read_u16(img, 14);
    let nfats = img[16] as u64;
    let entries = read_u16(img, 17);
    let spf = read_u16(img, 22);
    assert(reserved * bps <= 65535 * 65535) by (nonlinear_arith)
        requires reserved <= 65535, bps <= 65535;
    assert(nfats * spf <= 255 * 65535) by (nonlinear_arith)
        requires nfats <= 255, spf <= 65535;
    assert(nfats * spf * bps <= 255 * 65535 * 65535) by (nonlinear_arith)
        requires nfats * spf <= 255 * 65535, bps <= 65535;
    let off = reserved * bps + nfats * spf * bps;
    Geometry { root_off: off, root_entries: entries }
}

/// Whether the scan stops at slot `i`, computed.
fn scan_stops(img: &[u8], g: &Geometry, i: u64) -> (r: bool)
    requires
        img@.len() >= BOOT_SECTOR_SIZE,
        g.root_off == root_dir_offset(img@),
        g.root_entries == root_entries(img@),
        g.root_off <= 0x1_0000_0000_0000,
        i <= 65536,
    ensures
        r == stops_at(img@, i as int),
{
    if i >= g.root_entries {
        return true;
    }
    let off = g.root_off + 32 * i;
    if off + 32 > img.len() as u64 {
        return true;
    }
    img[off as usize] == 0
}

/// List the regular files of the root directory, in directory order, as
/// (display name bytes, size) pairs. An image too short for a boot sector
/// lists nothing.
pub fn list_files(image: &[u8]) -> (r: Vec<(Vec<u8>, u32)>)
    ensures
        r@.len() == list_of(image@).len(),
        forall|k: int|
            0 <= k < r@.len() ==> (#[trigger] r@[k]).0@ == list_of(image@)[k].0 && r@[k].1
                == list_of(image@)[k].1,
{
    let mut files: Vec<(Vec<u8>, u32)> = Vec::new();
    if image.len() < BOOT_SECTOR_SIZE {
        return files;
    }
    let g = geometry(image);
    let mut i: u64 = 0;
    while !scan_stops(image, &g, i)
        invariant
            image@.len() >= BOOT_SECTOR_SIZE,
            g.root_off == root_dir_offset(image@),
            g.root_entries == root_entries(image@),
            g.root_off <= 0x1_0000_0000_0000,
            i <= root_entries(image@),
            dir_end(image@) == dir_end_from(image@, i as int),
            files@.len() == listing_upto(image@, i as int).len(),
            forall|k: int|
                0 <= k < files@.len() ==> (#[trigger] files@[k]).0@ == listing_upto(
                    image@,
                    i as int,
                )[k].0 && files@[k].1 == listing_upto(image@, i as int)[k].1,
        decreases root_entries(image@) - i,
    {
        let off = (g.root_off + 32 * i) as usize;
        let first = image[off];
        let attr = image[off + 11];
        if first != 0xE5 && attr & 0x08 == 0 && attr & 0x10 == 0 {
            let name = entry_display_name(image, off);
            let size = read_u32(image, off + 28);
            files.push((name, size as u32));
        }
        proof {
            assert(listing_upto(image@, i + 1) == if is_listed(image@, i as int) {
                listing_upto(image@, i as int).push(
                    (entry_name(image@, i as int), entry_size(image@, i as int)),
                )
            } else {
                listing_upto(image@, i as int)
            });
        }
        i = i + 1;
    }
    proof {
        assert(dir_end_from(image@, i as int) == i);
    }
    files
}

/// Look up the file whose display name is exactly `search` among the regular
/// files of the root directory and return a copy of its data. The first entry
/// with that name and a data cluster decides; `None` when there is none, when
/// its data runs past the image, or when the image is too short.
pub fn find_file(image: &[u8], search: &[u8]) -> (r: Option<Vec<u8>>)
    requires
        readable(image@),
    ensures
        r matches Some(v) ==> lookup(image@, search@) == Some(v@),
        r is None ==> lookup(image@, search@) is None,
{
    if image.len() < BOOT_SECTOR_SIZE {
        return None;
    }
    let g = geometry(image);
    let bps = read_u16(image, 11);
    let spc = image[13] as u64;
    let reserved = read_u16(image, 14);
    let nfats = image[16] as u64;
    let spf = read_u16(image, 22);
    let num = g.root_entries * 32 + (bps - 1);
    let root_dir_secs = num / bps;
    assert(root_dir_secs <= num) by (nonlinear_arith)
        requires root_dir_secs == num / bps, bps >= 1, num >= 0;
    assert(nfats * spf <= 255 * 65535) by (nonlinear_arith)
        requires nfats <= 255, spf <= 65535;
    let first_data = reserved + nfats * spf + root_dir_secs;
    let mut i: u64 = 0;
    while !scan_stops(image, &g, i)
        invariant
            image@.len() >= BOOT_SECTOR_SIZE,
            bytes_per_sector(image@) != 0,
            g.root_off == root_dir_offset(image@),
            g.root_entries == root_entries(image@),
            g.root_off <= 0x1_0000_0000_0000,
            bps == bytes_per_sector(image@),
            spc == sectors_per_cluster(image@),
            first_data == first_data_sector(image@),
            first_data <= 65535 + 255 * 65535 + 65535 * 32 + 65535,
            i <= root_entries(image@),
            dir_end(image@) == dir_end_from(image@, i as int),
            lookup_from(image@, search@, 0) == lookup_from(image@, search@, i as int),
        decreases root_entries(image@) - i,
    {
        let off = (g.root_off + 32 * i) as usize;
        let first = image[off];
        let attr = image[off + 11];
        proof {
            lemma_dir_end_after(image@, i as int);
        }
        if first != 0xE5 && attr & 0x08 == 0 && attr & 0x10 == 0 {
            let name = entry_display_name(image, off);
            let cluster = read_u16(image, off + 26);
            if bytes_equal(&name, search) && cluster >= 2 {
                let size = read_u32(image, off + 28);
                assert((cluster - 2) * spc <= 65535 * 255) by (nonlinear_arith)
                    requires cluster <= 65535, spc <= 255, cluster >= 2;
                let lba = first_data + (cluster - 2) * spc;
                assert(lba * bps <= 0x4000_0000_0000_0000u64) by (nonlinear_arith)
                    requires lba <= 65535 + 255 * 65535 + 65535 * 32 + 65535 + 65535 * 255,
                        bps <= 65535;
                let start = lba * bps;
                if start + size <= image.len() as u64 {
                    let data = copy_range(image, start as usize, (start + size) as usize);
                    return Some(data);
                } else {
                    return None;
                }
            }
        }
        i = i + 1;
    }
    proof {
        assert(dir_end_from(image@, i as int) == i);
    }
    None
}

/// `dir_end` is past every slot that the scan visits.
proof fn lemma_dir_end_after(img: Seq<u8>, i: int)
    requires
        0 <= i,
        !stops_at(img, i),
        dir_end(img) == dir_end_from(img, i),
    ensures
        dir_end(img) > i,
{
    lemma_dir_end_from_ge(img, i + 1);
}

proof fn lemma_dir_end_from_ge(img: Seq<u8>, i: int)
    requires
        0 <= i,
    ensures
        dir_end_from(img, i) >= i,
    decreases root_entries(img) - i,
{
    if !stops_at(img, i) {
        lemma_dir_end_from_ge(img, i + 1);
    }
}

fn bytes_equal(a: &Vec<u8>, b: &[u8]) -> (r: bool)
    ensures
        r == (a@ == b@),
{
    if a.len() != b.len() {
        return false;
    }
    let mut k: usize = 0;
    while k < a.len()
        invariant
            a@.len() == b@.len(),
            k <= a@.len(),
            forall|j: int| 0 <= j < k ==> a@[j] == b@[j],
        decreases a@.len() - k,
    {
        if a[k] != b[k] {
            return false;
        }
        k = k + 1;
    }
    assert(a@ == b@);
    true
}

fn copy_range(img: &[u8], start: usize, end: usize) -> (r: Vec<u8>)
    requires
        start <= end <= img@.len(),
    ensures
        r@ == img@.subrange(start as int, end as int),
{
    let mut out: Vec<u8> = Vec::new();
    let mut k: usize = start;
    while k < end
        invariant
            start <= k <= end <= img@.len(),
            out@ == img@.subrange(start as int, k as int),
        decreases end - k,
    {
        out.push(img[k]);
        proof {
            assert(img@.subrange(start as int, k + 1) == img@.subrange(start as int, k as int).push(img@[k as int]));
        }
        k = k + 1;
    }
    out
}

/// Read a file of the root directory by name. The name is compared in the
/// uppercase form that `str::to_uppercase` gives, against the entries' 8.3
/// display names.
pub fn read_file(image: &[u8], filename: &str) -> (r: Option<Vec<u8>>)
    requires
        readable(image@),
    ensures
        r matches Some(v) ==> lookup(image@, encode_utf8(uppercase_of(filename@))) == Some(v@),
        r is None ==> lookup(image@, encode_utf8(uppercase_of(filename@))) is None,
{
    let upper = to_uppercase(filename);
    let search = upper.as_str().as_bytes();
    find_file(image, search)
}

proof fn lemma_listing_has(img: Seq<u8>, n: int, j: int)
    requires
        0 <= j < n,
        is_listed(img, j),
    ensures
        listing_upto(img, n).contains((entry_name(img, j), entry_size(img, j))),
    decreases n,
{
    if j == n - 1 {
        let l = listing_upto(img, n);
        assert(l[l.len() - 1] == (entry_name(img, j), entry_size(img, j)));
    } else {
        lemma_listing_has(img, n - 1, j);
        let prev = listing_upto(img, n - 1);
        let k = choose|k: int| 0 <= k < prev.len() && prev[k] == (entry_name(img, j), entry_size(img, j));
        if is_listed(img, n - 1) {
            assert(listing_upto(img, n)[k] == prev[k]);
        }
    }
}

proof fn lemma_lookup_from_listed(img: Seq<u8>, name: Seq<u8>, i: int)
    requires
        0 <= i,
        well_formed(img),
    ensures
        lookup_from(img, name, i) matches Some(d) ==> exists|j: int|
            i <= j < dir_end(img) && is_listed(img, j) && #[trigger] entry_name(img, j) == name
                && entry_size(img, j) == d.len(),
    decreases dir_end(img) - i,
{
    if 0 <= i < dir_end(img) {
        if matches_name(img, i, name) {
            let start = data_offset(img, i);
            let end = start + entry_size(img, i);
            let fds = first_data_sector(img);
            let c = entry_cluster(img, i);
            let spc = sectors_per_cluster(img);
            let bps = bytes_per_sector(img);
            assert(root_dir_sectors(img) >= 0) by (nonlinear_arith)
                requires bps >= 1, root_entries(img) >= 0,
                    root_dir_sectors(img) == (root_entries(img) * 32 + (bps - 1)) / bps;
            assert(fds >= 0) by (nonlinear_arith)
                requires fds == reserved_sectors(img) + num_fats(img) * sectors_per_fat(img)
                    + root_dir_sectors(img), reserved_sectors(img) >= 0, num_fats(img) >= 0,
                    sectors_per_fat(img) >= 0, root_dir_sectors(img) >= 0;
            assert(start >= 0) by (nonlinear_arith)
                requires start == (fds + (c - 2) * spc) * bps, fds >= 0, c >= 2, spc >= 0, bps >= 1;
            if end <= img.len() {
                assert(entry_name(img, i) == name);
            }
        } else {
            lemma_lookup_from_listed(img, name, i + 1);
        }
    }
}

/// A file that a lookup finds appears in the listing, under the name it
/// was looked up by and with the size of the data the lookup gives.
pub proof fn found_files_are_listed(img: Seq<u8>, name: Seq<u8>, d: Seq<u8>)
    requires
        well_formed(img),
        lookup(img, name) == Some(d),
    ensures
        list_of(img).contains((name, d.len() as int)),
{
    lemma_lookup_from_listed(img, name, 0);
    let j = choose|j: int|
        0 <= j < dir_end(img) && is_listed(img, j) && #[trigger] entry_name(img, j) == name
            && entry_size(img, j) == d.len();
    lemma_listing_has(img, dir_end(img), j);
}

} // verus!
