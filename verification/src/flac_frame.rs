//! The framing of FLAC metadata: where the blocks begin, how long each is, and whether
//! each block holds all the bytes that its own lengths speak of. A tag may only be read
//! from bytes that are framed so.

use vstd::prelude::*;
use vstd::slice::slice_subrange;

verus! {

/// The number that four bytes write, the first byte counting most.
pub open spec fn be32(b: Seq<u8>, i: int) -> int {
    b[i] * 16777216 + b[i + 1] * 65536 + b[i + 2] * 256 + b[i + 3]
}

/// The number that four bytes write, the first byte counting least.
pub open spec fn le32(b: Seq<u8>, i: int) -> int {
    b[i] + b[i + 1] * 256 + b[i + 2] * 65536 + b[i + 3] * 16777216
}

/// The number that three bytes write, the first byte counting most.
pub open spec fn be24(b: Seq<u8>, i: int) -> int {
    b[i] * 65536 + b[i + 1] * 256 + b[i + 2]
}

/// The number that four bytes write with seven bits each, the first byte counting most:
/// the size in the header of an ID3 tag.
pub open spec fn syncsafe(b: Seq<u8>, i: int) -> int {
    (b[i] % 128) * 2097152 + (b[i + 1] % 128) * 16384 + (b[i + 2] % 128) * 128 + b[i + 3] % 128
}

/// Whether the four bytes at `i` are the letters `fLaC`.
pub open spec fn is_magic(b: Seq<u8>, i: int) -> bool {
    b[i] == 0x66 && b[i + 1] == 0x4C && b[i + 2] == 0x61 && b[i + 3] == 0x43
}

/// Whether the bytes begin with the header of an ID3 tag of version 2.2, 2.3 or 2.4.
pub open spec fn begins_with_id3(b: Seq<u8>) -> bool {
    b.len() >= 4 && b[0] == 0x49 && b[1] == 0x44 && b[2] == 0x33 && (b[3] == 2 || b[3] == 3 || b[3]
        == 4)
}

/// Where the metadata blocks begin: behind the letters `fLaC`, which stand at the start
/// or right behind an ID3 tag, whose header says how long it is and whether a footer of
/// ten bytes follows it. Nowhere, where the letters do not stand there.
pub open spec fn blocks_start(b: Seq<u8>) -> Option<int> {
    if b.len() < 4 {
        None
    } else if begins_with_id3(b) {
        if b.len() < 10 {
            None
        } else {
            let at = 10 + syncsafe(b, 6) + if (b[5] / 16) % 2 == 1 {
                10int
            } else {
                0int
            };
            if at + 4 <= b.len() && is_magic(b, at) {
                Some(at + 4)
            } else {
                None
            }
        }
    } else if is_magic(b, 0) {
        Some(4)
    } else {
        None
    }
}

/// Whether an equals sign stands among the bytes from `from` up to `to`.
pub open spec fn has_equals(d: Seq<u8>, from: int, to: int) -> bool {
    exists|k: int| from <= k < to && #[trigger] d[k] == 0x3D
}

/// Whether `n` comments stand whole in the block from place `at` on: each with the four
/// bytes of its length, as many bytes as that length says, and an equals sign among
/// them.
pub open spec fn comments_whole(d: Seq<u8>, at: int, n: int) -> bool
    decreases n,
{
    n <= 0 || (at + 4 <= d.len() && at + 4 + le32(d, at) <= d.len() && has_equals(
        d,
        at + 4,
        at + 4 + le32(d, at),
    ) && comments_whole(d, at + 4 + le32(d, at), n - 1))
}

/// Whether a block of comments is whole: the vendor text with its length, the number of
/// comments, and each comment.
pub open spec fn vorbis_whole(d: Seq<u8>) -> bool {
    d.len() >= 4 && 8 + le32(d, 0) <= d.len() && comments_whole(
        d,
        8 + le32(d, 0),
        le32(d, 4 + le32(d, 0)),
    )
}

/// Whether a picture block is whole: its kind, the media type and the description with
/// their lengths, four numbers, and the picture with its length.
pub open spec fn picture_whole(d: Seq<u8>) -> bool {
    d.len() >= 8 && 12 + be32(d, 4) <= d.len() && 32 + be32(d, 4) + be32(d, 8 + be32(d, 4))
        <= d.len() && 32 + be32(d, 4) + be32(d, 8 + be32(d, 4)) + be32(
        d,
        28 + be32(d, 4) + be32(d, 8 + be32(d, 4)),
    ) <= d.len()
}

/// Whether `n` index points of a cue sheet track stand in the block from place `at` on:
/// of the twelve bytes of each, the first nine are read.
pub open spec fn indices_whole(d: Seq<u8>, at: int, n: int) -> bool
    decreases n,
{
    n <= 0 || (at + 9 <= d.len() && indices_whole(d, at + 12, n - 1))
}

/// Whether `n` tracks of a cue sheet stand whole in the block from place `at` on: each
/// with its thirty-six bytes, the last of which says how many index points follow.
pub open spec fn tracks_whole(d: Seq<u8>, at: int, n: int) -> bool
    decreases n,
{
    n <= 0 || (at + 36 <= d.len() && indices_whole(d, at + 36, d[at + 35] as int) && tracks_whole(
        d,
        at + 36 + 12 * d[at + 35],
        n - 1,
    ))
}

/// Whether a cue sheet block is whole: its 396 bytes, the last of which says how many
/// tracks follow, and each track.
pub open spec fn cue_whole(d: Seq<u8>) -> bool {
    d.len() >= 396 && tracks_whole(d, 396, d[395] as int)
}

/// Whether a block of this kind is whole: stream information has 34 bytes, an
/// application block at least 4; comments, pictures and cue sheets hold what their
/// lengths speak of; padding, seek tables and blocks of other kinds are whole as they
/// are.
pub open spec fn block_whole(kind: int, d: Seq<u8>) -> bool {
    if kind == 0 {
        d.len() >= 34
    } else if kind == 2 {
        d.len() >= 4
    } else if kind == 4 {
        vorbis_whole(d)
    } else if kind == 5 {
        cue_whole(d)
    } else if kind == 6 {
        picture_whole(d)
    } else {
        true
    }
}

/// Where the block that begins at `at` ends: behind its four header bytes and as many
/// bytes as the header says, or at the end of the bytes where fewer are left.
pub open spec fn block_end(b: Seq<u8>, at: int) -> int {
    if at + 4 + be24(b, at + 1) <= b.len() {
        at + 4 + be24(b, at + 1)
    } else {
        b.len() as int
    }
}

/// Whether the blocks from place `at` on are whole, one after the other, up to the one
/// that is marked as the last or to where no header is left, and the lengths that their
/// headers give, with four for each header, add up with `total` to a number of 32 bits.
pub open spec fn blocks_whole(b: Seq<u8>, at: int, total: int) -> bool
    decreases b.len() - at,
{
    if at < 0 || at + 4 > b.len() {
        true
    } else {
        block_whole((b[at] % 128) as int, b.subrange(at + 4, block_end(b, at))) && total + be24(
            b,
            at + 1,
        ) + 4 <= 0xFFFF_FFFF && (b[at] >= 128 || blocks_whole(
            b,
            block_end(b, at),
            total + be24(b, at + 1) + 4,
        ))
    }
}

/// Whether the bytes are framed so that a FLAC tag may be read from them: where metadata
/// blocks begin at all, every block is whole, and the lengths of all blocks add up to a
/// number of 32 bits.
pub open spec fn flac_safe(b: Seq<u8>) -> bool {
    match blocks_start(b) {
        Some(at) => blocks_whole(b, at, 0),
        None => true,
    }
}

pub(crate) fn read_le32(d: &[u8], i: usize) -> (r: u64)
    requires
        i + 4 <= d@.len(),
    ensures
        r == le32(d@, i as int),
        r < 0x1_0000_0000,
{
    d[i] as u64 + d[i + 1] as u64 * 256 + d[i + 2] as u64 * 65536 + d[i + 3] as u64 * 16777216
}

pub(crate) fn read_be32(d: &[u8], i: usize) -> (r: u64)
    requires
        i + 4 <= d@.len(),
    ensures
        r == be32(d@, i as int),
        r < 0x1_0000_0000,
{
    d[i] as u64 * 16777216 + d[i + 1] as u64 * 65536 + d[i + 2] as u64 * 256 + d[i + 3] as u64
}

fn magic_at(b: &[u8], i: usize) -> (r: bool)
    requires
        i + 4 <= b@.len(),
    ensures
        r == is_magic(b@, i as int),
{
    b[i] == 0x66 && b[i + 1] == 0x4C && b[i + 2] == 0x61 && b[i + 3] == 0x43
}

fn find_start(b: &[u8]) -> (r: Option<usize>)
    ensures
        match r {
            Some(at) => blocks_start(b@) == Some(at as int) && at <= b@.len(),
            None => blocks_start(b@) is None,
        },
{
    let len = b.len();
    if len < 4 {
        return None;
    }
    if b[0] == 0x49 && b[1] == 0x44 && b[2] == 0x33 && (b[3] == 2 || b[3] == 3 || b[3] == 4) {
        if len < 10 {
            return None;
        }
        let size: u64 = (b[6] % 128) as u64 * 2097152 + (b[7] % 128) as u64 * 16384 + (b[8]
            % 128) as u64 * 128 + (b[9] % 128) as u64;
        let footer: u64 = if (b[5] / 16) % 2 == 1 {
            10
        } else {
            0
        };
        let at: u64 = 10 + size + footer;
        if at + 4 <= len as u64 {
            let at = at as usize;
            if magic_at(b, at) {
                return Some(at + 4);
            }
        }
        None
    } else if magic_at(b, 0) {
        Some(4)
    } else {
        None
    }
}

fn equals_between(d: &[u8], from: usize, to: usize) -> (r: bool)
    requires
        from <= to <= d@.len(),
    ensures
        r == has_equals(d@, from as int, to as int),
{
    let mut k = from;
    while k < to
        invariant
            from <= k <= to <= d@.len(),
            forall|x: int| from <= x < k ==> #[trigger] d@[x] != 0x3D,
        decreases to - k,
    {
        if d[k] == 0x3D {
            return true;
        }
        k += 1;
    }
    false
}

fn check_comments(d: &[u8], start: usize, count: u64) -> (r: bool)
    requires
        start <= d@.len(),
    ensures
        r == comments_whole(d@, start as int, count as int),
{
    let len = d.len();
    let mut at = start;
    let mut left = count;
    while left > 0
        invariant
            at <= len,
            len == d@.len(),
            comments_whole(d@, start as int, count as int) == comments_whole(
                d@,
                at as int,
                left as int,
            ),
        decreases left,
    {
        if len - at < 4 {
            return false;
        }
        let size = read_le32(d, at);
        if ((len - at - 4) as u64) < size {
            return false;
        }
        let end = at + 4 + size as usize;
        if !equals_between(d, at + 4, end) {
            return false;
        }
        at = end;
        left -= 1;
    }
    true
}

fn check_vorbis(d: &[u8]) -> (r: bool)
    ensures
        r == vorbis_whole(d@),
{
    let len = d.len();
    if len < 4 {
        return false;
    }
    let vendor = read_le32(d, 0);
    if len < 8 || ((len - 8) as u64) < vendor {
        return false;
    }
    let vendor = vendor as usize;
    let count = read_le32(d, 4 + vendor);
    check_comments(d, 8 + vendor, count)
}

fn check_picture(d: &[u8]) -> (r: bool)
    ensures
        r == picture_whole(d@),
{
    let len = d.len();
    if len < 8 {
        return false;
    }
    let mime = read_be32(d, 4);
    if len < 12 || ((len - 12) as u64) < mime {
        return false;
    }
    let mime = mime as usize;
    let text = read_be32(d, 8 + mime);
    if len - 12 - mime < 20 || ((len - 12 - mime - 20) as u64) < text {
        return false;
    }
    let text = text as usize;
    let data = read_be32(d, 28 + mime + text);
    ((len - 32 - mime - text) as u64) >= data
}

fn check_indices(d: &[u8], start: usize, count: u8) -> (r: bool)
    requires
        start <= d@.len(),
    ensures
        r == indices_whole(d@, start as int, count as int),
        r ==> start + 12 * count <= d@.len() + 3,
{
    let len = d.len();
    let mut at = start;
    let mut left = count;
    while left > 0
        invariant
            len == d@.len(),
            at <= len + 3,
            at == start + 12 * (count - left),
            left <= count,
            indices_whole(d@, start as int, count as int) == indices_whole(
                d@,
                at as int,
                left as int,
            ),
        decreases left,
    {
        if at > len || len - at < 9 {
            return false;
        }
        if len - at < 12 {
            assert(indices_whole(d@, at + 12, left - 1) == (left == 1));
            assert(indices_whole(d@, at as int, left as int) == (left == 1));
            return left == 1;
        }
        at += 12;
        left -= 1;
    }
    true
}

fn check_tracks(d: &[u8], start: usize, count: u8) -> (r: bool)
    requires
        start <= d@.len(),
    ensures
        r == tracks_whole(d@, start as int, count as int),
{
    let len = d.len();
    let mut at = start;
    let mut left = count;
    while left > 0
        invariant
            len == d@.len(),
            at <= len,
            tracks_whole(d@, start as int, count as int) == tracks_whole(
                d@,
                at as int,
                left as int,
            ),
        decreases left,
    {
        if len - at < 36 {
            return false;
        }
        let points = d[at + 35];
        if !check_indices(d, at + 36, points) {
            return false;
        }
        let step = 12 * points as usize;
        if len - at - 36 < step {
            assert(tracks_whole(d@, at + 36 + step, left - 1) == (left == 1));
            assert(tracks_whole(d@, at as int, left as int) == (left == 1));
            return left == 1;
        }
        at = at + 36 + step;
        left -= 1;
    }
    true
}

fn check_block(kind: u8, d: &[u8]) -> (r: bool)
    ensures
        r == block_whole(kind as int, d@),
{
    if kind == 0 {
        d.len() >= 34
    } else if kind == 2 {
        d.len() >= 4
    } else if kind == 4 {
        check_vorbis(d)
    } else if kind == 5 {
        d.len() >= 396 && check_tracks(d, 396, d[395])
    } else if kind == 6 {
        check_picture(d)
    } else {
        true
    }
}

/// Whether the bytes are framed so that a FLAC tag may be read from them.
pub fn is_flac_safe(bytes: &[u8]) -> (r: bool)
    ensures
        r == flac_safe(bytes@),
{
    let len = bytes.len();
    let mut at = match find_start(bytes) {
        Some(at) => at,
        None => {
            return true;
        },
    };
    let ghost first = at;
    let mut whole = true;
    let mut total: u64 = 0;
    loop
        invariant_except_break
            len == bytes@.len(),
            at <= len,
            total <= 0xFFFF_FFFF,
            blocks_whole(bytes@, first as int, 0) == blocks_whole(bytes@, at as int, total as int),
        ensures
            whole == blocks_whole(bytes@, first as int, 0),
        decreases len - at,
    {
        if len - at < 4 {
            whole = true;
            break;
        }
        let head = bytes[at];
        let size: u64 = bytes[at + 1] as u64 * 65536 + bytes[at + 2] as u64 * 256 + bytes[at
            + 3] as u64;
        let end: usize = if ((len - at - 4) as u64) >= size {
            at + 4 + size as usize
        } else {
            len
        };
        assert(end == block_end(bytes@, at as int));
        if !check_block(head % 128, slice_subrange(bytes, at + 4, end)) {
            whole = false;
            break;
        }
        if total + size + 4 > 0xFFFF_FFFF {
            whole = false;
            break;
        }
        total = total + size + 4;
        if head >= 128 {
            whole = true;
            break;
        }
        at = end;
    }
    whole
}

} // verus!
