use id3::frame::Content;
use soniccave::id3_frame::is_id3_safe;
use soniccave::media::open_id3;

struct Dice(u64);

impl Dice {
    fn roll(&mut self, sides: u64) -> u64 {
        self.0 = self.0.wrapping_mul(6364136223846793005).wrapping_add(1442695040888963407);
        (self.0 >> 33) % sides
    }

    fn pick(&mut self, from: &[u8]) -> u8 {
        from[self.roll(from.len() as u64) as usize]
    }
}

fn size_bytes(v4: bool, size: usize) -> [u8; 4] {
    if v4 {
        [
            ((size >> 21) & 0x7f) as u8,
            ((size >> 14) & 0x7f) as u8,
            ((size >> 7) & 0x7f) as u8,
            (size & 0x7f) as u8,
        ]
    } else {
        (size as u32).to_be_bytes()
    }
}

fn some_frames(dice: &mut Dice, v4: bool, depth: u32) -> Vec<u8> {
    let names: [&[u8; 4]; 6] = [b"CHAP", b"CTOC", b"TIT2", b"TXXX", b"PRIV", b"TALB"];
    let mut out = Vec::new();
    for _ in 0..dice.roll(4) {
        let name = names[dice.roll(6) as usize];
        let mut held = Vec::new();
        if name == b"CHAP" {
            held.extend_from_slice(b"c\0");
            held.extend_from_slice(&[0; 16]);
        } else if name == b"CTOC" {
            held.extend_from_slice(b"t\0\x03\x00");
        } else {
            held.push(0);
            held.extend_from_slice(if dice.roll(4) == 0 { b"CHAPTER" } else { b"chapter" });
            held.extend_from_slice([&b"\0"[..], &b"\xff\0"[..], &b"\xff\0\0"[..]][dice.roll(3) as usize]);
        }
        if (name == b"CHAP" || name == b"CTOC") && depth < 3 {
            held.extend_from_slice(&some_frames(dice, v4, depth + 1));
        }
        let mut size: usize = held.len();
        if dice.roll(12) == 0 {
            size += dice.roll(40) as usize;
        }
        out.extend_from_slice(name);
        out.extend_from_slice(&size_bytes(v4, size));
        out.push(dice.pick(&[0, 0, 0, 0, 0x40, 0x80]));
        out.push(dice.pick(&[0, 0, 0, 0, 0, 0, 1, 2, 8, 0x80]));
        out.extend_from_slice(&held);
    }
    out
}

fn some_tag(dice: &mut Dice) -> Vec<u8> {
    let version = dice.pick(&[3, 3, 3, 4, 4, 4, 2, 5]);
    let flags = dice.pick(&[0, 0, 0, 0, 0x80, 0x40, 0x20, 0x10]);
    let frames = some_frames(dice, version == 4, 0);
    let mut size: usize = frames.len();
    if dice.roll(6) == 0 {
        size = dice.roll(2 * frames.len() as u64 + 1) as usize;
    }
    let mut out = vec![b'I', b'D', b'3', version, 0, flags];
    out.extend_from_slice(&size_bytes(true, size));
    if flags == 0x40 {
        out.extend_from_slice(&[0, 0, 0, dice.pick(&[6, 6, 10, 16]), 0, 0]);
    }
    out.extend_from_slice(&frames);
    for _ in 0..dice.roll(3) {
        out.push(dice.pick(&[0, 0, 0xff, b'C']));
    }
    out
}

fn some_bytes(dice: &mut Dice) -> Vec<u8> {
    let tag = some_tag(dice);
    if dice.roll(3) > 0 {
        return tag;
    }
    let little = dice.roll(2) == 0;
    let mut held = Vec::new();
    for _ in 0..dice.roll(3) {
        let data: &[u8] = [&b"CHAP"[..], &b"samples"[..], &b"ID3\x04"[..], &b""[..]][dice.roll(4) as usize];
        held.extend_from_slice([b"data", b"fmt ", b"LIST"][dice.roll(3) as usize]);
        let mut size: u32 = data.len() as u32;
        if dice.roll(10) == 0 {
            size += dice.roll(6) as u32;
        }
        held.extend_from_slice(&if little { size.to_le_bytes() } else { size.to_be_bytes() });
        held.extend_from_slice(data);
        if data.len() % 2 == 1 {
            held.push(0);
        }
    }
    held.extend_from_slice(b"ID3 ");
    let mut size: u32 = tag.len() as u32;
    if dice.roll(8) == 0 {
        size = dice.roll(2 * tag.len() as u64 + 1) as u32;
    }
    held.extend_from_slice(&if little { size.to_le_bytes() } else { size.to_be_bytes() });
    held.extend_from_slice(&tag);
    let mut whole: u32 = held.len() as u32 + 4;
    if dice.roll(8) == 0 {
        whole = dice.roll(2 * held.len() as u64 + 1) as u32;
    }
    let mut out = if little { b"RIFF".to_vec() } else { b"FORM".to_vec() };
    out.extend_from_slice(&if little { whole.to_le_bytes() } else { whole.to_be_bytes() });
    out.extend_from_slice(if little { b"WAVE" } else { b"AIFF" });
    out.extend_from_slice(&held);
    out
}

fn holds_a_chapter(frames: &[id3::frame::Frame]) -> bool {
    frames
        .iter()
        .any(|f| matches!(f.content(), Content::Chapter(_) | Content::TableOfContents(_)))
}

fn chapters_of(tag: &id3::Tag) -> (usize, bool) {
    let mut chapters: usize = 0;
    let mut nested = false;
    for frame in tag.frames() {
        match frame.content() {
            Content::Chapter(c) => {
                chapters += 1;
                nested = nested || holds_a_chapter(&c.frames);
            }
            Content::TableOfContents(t) => {
                chapters += 1;
                nested = nested || holds_a_chapter(&t.frames);
            }
            _ => {}
        }
    }
    (chapters, nested)
}

#[test]
fn no_tag_that_may_be_read_holds_a_chapter_in_a_chapter() {
    let mut dice = Dice(20240229);
    let mut read_with_chapters: u32 = 0;
    let mut refused: u32 = 0;
    for _ in 0..30_000 {
        let bytes = some_bytes(&mut dice);
        if !is_id3_safe(&bytes) {
            refused += 1;
            assert!(open_id3(&bytes).is_none());
            continue;
        }
        let tag = match id3::Tag::read_from2(std::io::Cursor::new(&bytes[..])) {
            Ok(tag) => {
                assert!(open_id3(&bytes).is_some());
                Some(tag)
            }
            Err(e) => {
                assert!(open_id3(&bytes).is_none());
                e.partial_tag
            }
        };
        if let Some(tag) = tag {
            let (chapters, nested) = chapters_of(&tag);
            assert!(!nested, "a chapter in a chapter was read from {:?}", bytes);
            if chapters > 0 {
                read_with_chapters += 1;
            }
        }
    }
    assert!(read_with_chapters > 100);
    assert!(refused > 100);
}

#[test]
fn every_tag_with_a_chapter_in_a_chapter_is_refused() {
    let mut dice = Dice(7);
    let mut found: u32 = 0;
    for _ in 0..8_000 {
        let bytes = some_bytes(&mut dice);
        let tag = match id3::Tag::read_from2(std::io::Cursor::new(&bytes[..])) {
            Ok(tag) => Some(tag),
            Err(e) => e.partial_tag,
        };
        if let Some(tag) = tag {
            if chapters_of(&tag).1 {
                found += 1;
                assert!(!is_id3_safe(&bytes), "not refused: {:?}", bytes);
            }
        }
    }
    assert!(found > 50);
}
