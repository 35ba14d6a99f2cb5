//! The framing of an ID3 tag: where the tag stands, where its frames can begin, and
//! whether a chapter or a table of contents among them holds another. Such a frame holds
//! frames of its own, to any depth, and reading them takes one level of the stack for
//! each. A tag may only be read from bytes in which no chapter and no table of contents
//! stands inside another.

use crate::flac_frame::{be32, le32, read_be32, read_le32};
use vstd::prelude::*;
use vstd::slice::slice_subrange;

verus! {

/// Whether the four bytes at `k` are the letters `CHAP` or `CTOC`, by which a frame says
/// that it is a chapter or a table of contents.
pub open spec fn names_chapter(b: Seq<u8>, k: int) -> bool {
    b[k] == 0x43 && ((b[k + 1] == 0x48 && b[k + 2] == 0x41 && b[k + 3] == 0x50) || (b[k + 1]
        == 0x54 && b[k + 2] == 0x4F && b[k + 3] == 0x43))
}

/// Whether neither name stands anywhere in the bytes from `from` up to `end`.
pub open spec fn free_between(b: Seq<u8>, from: int, end: int) -> bool {
    forall|k: int| from <= k && k + 4 <= end ==> !names_chapter(b, k)
}

/// Whether the bytes begin with the letters `ID3` and hold the ten bytes of a tag's header.
pub open spec fn has_header(b: Seq<u8>) -> bool {
    b.len() >= 10 && b[0] == 0x49 && b[1] == 0x44 && b[2] == 0x33
}

/// Whether the bytes begin as a container of chunks does, with the letters `FORM` or
/// `RIFF`, and hold the twelve bytes by which such a container is known.
pub open spec fn has_chunks(b: Seq<u8>) -> bool {
    b.len() >= 12 && ((b[0] == 0x46 && b[1] == 0x4F && b[2] == 0x52 && b[3] == 0x4D) || (b[0]
        == 0x52 && b[1] == 0x49 && b[2] == 0x46 && b[3] == 0x46))
}

/// The number that four bytes write with seven bits each, the first byte counting most,
/// where each keeps to seven bits; where one does not, a number that is not less than
/// what the bytes are read as.
pub open spec fn seven_bits(b: Seq<u8>, i: int) -> int {
    b[i] * 2097152 + b[i + 1] * 16384 + b[i + 2] * 128 + b[i + 3]
}

/// The most that the size in the tag's header can stand for.
pub open spec fn size_bound(b: Seq<u8>) -> int {
    seven_bits(b, 6)
}

/// The place before which the name of every frame of the tag stands. A frame begins
/// inside the size that the header gives, counted in bytes as they are read. Where the
/// tag is unsynchronised a byte that is read can stand for two that are stored, and a
/// frame that says how long its data was can take four bytes more than it counts, so
/// twice the size is allowed for, and thirty two bytes more for the header and the name
/// itself. Never past the end of the bytes.
pub open spec fn frames_end(b: Seq<u8>) -> int {
    let reach = 2 * size_bound(b) + 32;
    if reach < b.len() {
        reach
    } else {
        b.len() as int
    }
}

/// Whether the frames of the tag begin right behind its header: the tag has no extended
/// header.
pub open spec fn walkable(b: Seq<u8>) -> bool {
    (b[5] / 64) % 2 == 0
}

/// The bytes from place `i` on as they are read from an unsynchronised tag: a zero that
/// follows a byte of all ones is left out. `dropping` says whether the byte before was
/// such a byte.
pub open spec fn resynced(b: Seq<u8>, i: int, dropping: bool) -> Seq<u8>
    decreases b.len() - i,
{
    if i < 0 || i >= b.len() {
        Seq::empty()
    } else if dropping && b[i] == 0 {
        resynced(b, i + 1, false)
    } else {
        seq![b[i]] + resynced(b, i + 1, b[i] == 0xFF)
    }
}

/// Whether the tag is unsynchronised as a whole, which only a tag of version 2.3 is: one
/// of version 2.4 is unsynchronised frame by frame.
pub open spec fn unsynchronised(b: Seq<u8>) -> bool {
    b[3] == 3 && b[5] >= 128
}

/// The tag as its frames are read: the header, and what follows it as it stands or, in
/// an unsynchronised tag, as it is read.
pub open spec fn as_read(b: Seq<u8>) -> Seq<u8> {
    if unsynchronised(b) {
        b.subrange(0, 10) + resynced(b, 10, false)
    } else {
        b
    }
}

/// Whether the header of the frame at `p` says where the next frame begins. In version
/// 2.3 it always does. In version 2.4 the four bytes of its size must keep to seven bits
/// each, and of the flags in its last byte only the one for unsynchronisation may be
/// set: a compressed frame ends where its compressed data ends, and one that says how
/// long its data was can take more bytes than it counts.
pub open spec fn leads_on(b: Seq<u8>, v4: bool, p: int) -> bool {
    !v4 || (b[p + 4] < 128 && b[p + 5] < 128 && b[p + 6] < 128 && b[p + 7] < 128 && (b[p + 9] == 0
        || b[p + 9] == 2))
}

/// The size that the header of the frame at `p` gives for what the frame holds.
pub open spec fn frame_size(b: Seq<u8>, v4: bool, p: int) -> int {
    if v4 {
        seven_bits(b, p + 4)
    } else {
        be32(b, p + 4)
    }
}

/// Where what the frame at `p` holds ends: at the size that its header gives, or at the
/// end of the bytes.
pub open spec fn frame_end(b: Seq<u8>, v4: bool, p: int) -> int {
    let end = p + 10 + frame_size(b, v4, p);
    if end < b.len() {
        end
    } else {
        b.len() as int
    }
}

/// Whether the frame at `p` is no chapter and no table of contents, or is one that
/// holds no other: its flags are all clear, so that what it holds stands in the bytes as
/// it is read, and neither name stands in what it holds.
pub open spec fn holds_no_chapter(b: Seq<u8>, v4: bool, p: int) -> bool {
    names_chapter(b, p) ==> b[p + 8] == 0 && b[p + 9] == 0 && free_between(
        b,
        p + 10,
        frame_end(b, v4, p),
    )
}

/// Whether the frames from place `p` on can be followed one after the other, each
/// beginning where the one before it ends, and none of them is a chapter or a table of
/// contents that holds another. The frames end where `limit` bytes of them have been
/// passed, where no header of ten bytes is left, or at a header that begins with a zero.
pub open spec fn frames_safe(b: Seq<u8>, v4: bool, limit: int, p: int) -> bool
    decreases b.len() - p,
{
    if p < 10 || p - 10 >= limit || p + 10 > b.len() || b[p] == 0 {
        true
    } else {
        leads_on(b, v4, p) && holds_no_chapter(b, v4, p) && frames_safe(
            b,
            v4,
            limit,
            frame_end(b, v4, p),
        )
    }
}

/// Whether a tag may be read from bytes that hold nothing before it. A tag of version
/// 2.3 or 2.4: neither name stands where a frame can begin, or the frames can be followed
/// from the header on, as they are read, and none of them is a chapter or a table of
/// contents that holds another. A tag of another version has no frame of either name,
/// and bytes without a header hold no tag.
pub open spec fn tag_safe(b: Seq<u8>) -> bool {
    if has_header(b) && (b[3] == 3 || b[3] == 4) {
        free_between(b, 0, frames_end(b)) || (walkable(b) && frames_safe(
            as_read(b),
            b[3] == 4,
            size_bound(b),
            10,
        ))
    } else {
        true
    }
}

/// Whether the four bytes at `a` are the letters `ID3` and a space, by which a chunk
/// says that it holds a tag.
pub open spec fn names_tag(b: Seq<u8>, a: int) -> bool {
    b[a] == 0x49 && b[a + 1] == 0x44 && b[a + 2] == 0x33 && b[a + 3] == 0x20
}

/// The size that the header of the chunk at `a` gives: the first byte counting least in
/// a container that begins with `RIFF`, most in one that begins with `FORM`.
pub open spec fn chunk_size(b: Seq<u8>, little: bool, a: int) -> int {
    if little {
        le32(b, a + 4)
    } else {
        be32(b, a + 4)
    }
}

/// Where the chunk behind the one at `a` begins: behind its header of eight bytes, what
/// it holds, and one byte more where its size is odd and not the largest that fits four
/// bytes. Never past the end of the bytes.
pub open spec fn next_chunk(b: Seq<u8>, little: bool, a: int) -> int {
    let size = chunk_size(b, little, a);
    let next = a + 8 + size + if size < 0xFFFF_FFFF {
        size % 2
    } else {
        0
    };
    if next < b.len() {
        next
    } else {
        b.len() as int
    }
}

/// Where the first chunk that holds a tag begins and ends, among the chunks from place
/// `a` on, one after the other; nothing where none of them holds a tag.
pub open spec fn tag_chunk(b: Seq<u8>, little: bool, a: int) -> Option<(int, int)>
    decreases b.len() - a,
{
    if a < 12 || a + 8 > b.len() {
        None
    } else if names_tag(b, a) {
        let end = a + 8 + chunk_size(b, little, a);
        Some(
            (
                a + 8,
                if end < b.len() {
                    end
                } else {
                    b.len() as int
                },
            ),
        )
    } else {
        tag_chunk(b, little, next_chunk(b, little, a))
    }
}

/// Whether a tag may be read from the bytes: no chapter and no table of contents that
/// would be read from them holds another. The tag is looked for at the start of the
/// bytes; where they begin as a container of chunks instead, in the first chunk that
/// says that it holds one, among the chunks that follow the twelve bytes of the
/// container's own header.
pub open spec fn id3_safe(b: Seq<u8>) -> bool {
    if has_chunks(b) {
        match tag_chunk(b, b[0] == 0x52, 12) {
            Some((from, end)) => tag_safe(b.subrange(from, end)),
            None => true,
        }
    } else {
        tag_safe(b)
    }
}

fn chapter_at(bytes: &[u8], k: usize) -> (r: bool)
    requires
        k + 4 <= bytes@.len(),
    ensures
        r == names_chapter(bytes@, k as int),
{
    bytes[k] == 0x43 && ((bytes[k + 1] == 0x48 && bytes[k + 2] == 0x41 && bytes[k + 3] == 0x50)
        || (bytes[k + 1] == 0x54 && bytes[k + 2] == 0x4F && bytes[k + 3] == 0x43))
}

fn none_between(bytes: &[u8], from: usize, end: usize) -> (r: bool)
    requires
        end <= bytes@.len(),
    ensures
        r == free_between(bytes@, from as int, end as int),
{
    let mut k: usize = from;
    while end >= 4 && k <= end - 4
        invariant
            from <= k,
            end <= bytes@.len(),
            forall|j: int| from <= j < k && j + 4 <= end ==> !names_chapter(bytes@, j),
        decreases end - k,
    {
        if chapter_at(bytes, k) {
            return false;
        }
        k = k + 1;
    }
    true
}

fn size_at(bytes: &[u8], v4: bool, p: usize) -> (r: u64)
    requires
        p + 10 <= bytes@.len(),
    ensures
        r == frame_size(bytes@, v4, p as int),
        r < 0x1_0000_0000,
{
    let len = bytes.len();
    assert(p + 10 <= len);
    if v4 {
        bytes[p + 4] as u64 * 2097152 + bytes[p + 5] as u64 * 16384 + bytes[p + 6] as u64 * 128
            + bytes[p + 7] as u64
    } else {
        read_be32(bytes, p + 4)
    }
}

fn check_frames(bytes: &[u8], v4: bool, limit: u64) -> (r: bool)
    requires
        bytes@.len() >= 10,
    ensures
        r == frames_safe(bytes@, v4, limit as int, 10),
{
    let len = bytes.len();
    let mut p: usize = 10;
    let mut safe = true;
    loop
        invariant_except_break
            len == bytes@.len(),
            10 <= p <= len,
            frames_safe(bytes@, v4, limit as int, 10) == frames_safe(
                bytes@,
                v4,
                limit as int,
                p as int,
            ),
        ensures
            safe == frames_safe(bytes@, v4, limit as int, 10),
        decreases len - p,
    {
        if (p - 10) as u64 >= limit || len - p < 10 || bytes[p] == 0 {
            safe = true;
            break;
        }
        if v4 && !(bytes[p + 4] < 128 && bytes[p + 5] < 128 && bytes[p + 6] < 128 && bytes[p + 7]
            < 128 && (bytes[p + 9] == 0 || bytes[p + 9] == 2)) {
            safe = false;
            break;
        }
        let size = size_at(bytes, v4, p);
        let rest: usize = len - p - 10;
        let end: usize = if size < rest as u64 {
            p + 10 + size as usize
        } else {
            len
        };
        assert(end == frame_end(bytes@, v4, p as int));
        if chapter_at(bytes, p) && !(bytes[p + 8] == 0 && bytes[p + 9] == 0 && none_between(
            bytes,
            p + 10,
            end,
        )) {
            safe = false;
            break;
        }
        if end == len {
            assert(frames_safe(bytes@, v4, limit as int, len as int));
            safe = true;
            break;
        }
        p = end;
    }
    safe
}

fn read_through(bytes: &[u8]) -> (r: Vec<u8>)
    requires
        bytes@.len() >= 10,
    ensures
        r@ == bytes@.subrange(0, 10) + resynced(bytes@, 10, false),
{
    let len = bytes.len();
    let mut out: Vec<u8> = Vec::new();
    let mut i: usize = 0;
    while i < 10
        invariant
            len == bytes@.len(),
            len >= 10,
            i <= 10,
            out@ == bytes@.subrange(0, i as int),
        decreases 10 - i,
    {
        out.push(bytes[i]);
        assert(out@ =~= bytes@.subrange(0, i + 1));
        i = i + 1;
    }
    let mut dropping = false;
    while i < len
        invariant
            len == bytes@.len(),
            10 <= i <= len,
            out@ + resynced(bytes@, i as int, dropping) == bytes@.subrange(0, 10) + resynced(
                bytes@,
                10,
                false,
            ),
        decreases len - i,
    {
        let ghost before = out@;
        if dropping && bytes[i] == 0 {
            dropping = false;
        } else {
            out.push(bytes[i]);
            dropping = bytes[i] == 0xFF;
            assert(out@ + resynced(bytes@, i + 1, dropping) =~= before + (seq![bytes@[i as int]]
                + resynced(bytes@, i + 1, dropping)));
        }
        i = i + 1;
    }
    assert(out@ + resynced(bytes@, len as int, dropping) =~= out@);
    out
}

fn check_tag(bytes: &[u8]) -> (r: bool)
    ensures
        r == tag_safe(bytes@),
{
    let len = bytes.len();
    if len >= 10 && bytes[0] == 0x49 && bytes[1] == 0x44 && bytes[2] == 0x33 && (bytes[3] == 3
        || bytes[3] == 4) {
        let size: u64 = bytes[6] as u64 * 2097152 + bytes[7] as u64 * 16384 + bytes[8] as u64
            * 128 + bytes[9] as u64;
        let reach: u64 = 2 * size + 32;
        let end: usize = if reach < len as u64 {
            reach as usize
        } else {
            len
        };
        if none_between(bytes, 0, end) {
            true
        } else if (bytes[5] / 64) % 2 != 0 {
            false
        } else if bytes[3] == 3 && bytes[5] >= 128 {
            let read = read_through(bytes);
            check_frames(read.as_slice(), false, size)
        } else {
            check_frames(bytes, bytes[3] == 4, size)
        }
    } else {
        true
    }
}

fn find_chunk(bytes: &[u8], little: bool) -> (r: Option<(usize, usize)>)
    requires
        bytes@.len() >= 12,
    ensures
        match r {
            Some((from, end)) => from <= end <= bytes@.len() && tag_chunk(bytes@, little, 12)
                == Some((from as int, end as int)),
            None => tag_chunk(bytes@, little, 12) is None,
        },
{
    let len = bytes.len();
    let mut a: usize = 12;
    let mut found: Option<(usize, usize)> = None;
    loop
        invariant_except_break
            len == bytes@.len(),
            12 <= a <= len,
            tag_chunk(bytes@, little, 12) == tag_chunk(bytes@, little, a as int),
        ensures
            match found {
                Some((from, end)) => from <= end <= len && tag_chunk(bytes@, little, 12) == Some(
                    (from as int, end as int),
                ),
                None => tag_chunk(bytes@, little, 12) is None,
            },
        decreases len - a,
    {
        if len - a < 8 {
            found = None;
            break;
        }
        let size: u64 = if little {
            read_le32(bytes, a + 4)
        } else {
            read_be32(bytes, a + 4)
        };
        let rest: usize = len - a - 8;
        if bytes[a] == 0x49 && bytes[a + 1] == 0x44 && bytes[a + 2] == 0x33 && bytes[a + 3]
            == 0x20 {
            let end: usize = if size < rest as u64 {
                a + 8 + size as usize
            } else {
                len
            };
            found = Some((a + 8, end));
            break;
        }
        let skip: u64 = if size < 0xFFFF_FFFF {
            size + size % 2
        } else {
            size
        };
        if skip >= rest as u64 {
            assert(next_chunk(bytes@, little, a as int) == len);
            assert(tag_chunk(bytes@, little, len as int) is None);
            found = None;
            break;
        }
        a = a + 8 + skip as usize;
    }
    found
}

/// Whether a tag may be read from the bytes.
pub fn is_id3_safe(bytes: &[u8]) -> (r: bool)
    ensures
        r == id3_safe(bytes@),
{
    let len = bytes.len();
    if len >= 12 && ((bytes[0] == 0x46 && bytes[1] == 0x4F && bytes[2] == 0x52
        && bytes[3] == 0x4D) || (bytes[0] == 0x52 && bytes[1] == 0x49 && bytes[2] == 0x46
        && bytes[3] == 0x46)) {
        match find_chunk(bytes, bytes[0] == 0x52) {
            Some((from, end)) => check_tag(slice_subrange(bytes, from, end)),
            None => true,
        }
    } else {
        check_tag(bytes)
    }
}

} // verus!
