use uterm::utf8_stream::{Utf8BoundaryDecoder, MAX_CARRY};

#[test]
fn whole_ascii_chunk_passes_through() {
    let mut d = Utf8BoundaryDecoder::new();
    let c = d.push(b"echo hi\r\n");
    assert_eq!(c.text, "echo hi\r\n");
    assert_eq!(c.dropped, 0);
    assert!(d.pending().is_empty());
}

#[test]
fn character_split_across_chunks_is_reassembled() {
    let text = "héllo wörld ✓ 🎉";
    let bytes = text.as_bytes();
    for cut in 0..=bytes.len() {
        let mut d = Utf8BoundaryDecoder::new();
        let a = d.push(&bytes[..cut]);
        let b = d.push(&bytes[cut..]);
        assert_eq!(a.dropped + b.dropped, 0);
        assert_eq!(format!("{}{}", a.text, b.text), text);
        assert!(d.pending().is_empty());
    }
}

#[test]
fn split_two_byte_character_emits_nothing_then_the_character() {
    let mut d = Utf8BoundaryDecoder::new();
    let a = d.push(&[0x61, 0xC3]);
    assert_eq!(a.text, "a");
    assert_eq!(d.pending(), &[0xC3]);
    let b = d.push(&[0xA9, 0x62]);
    assert_eq!(b.text, "éb");
    assert!(d.pending().is_empty());
}

#[test]
fn four_byte_character_fed_byte_by_byte() {
    let bytes = "🎉".as_bytes();
    let mut d = Utf8BoundaryDecoder::new();
    let mut out = String::new();
    for b in bytes {
        out.push_str(&d.push(&[*b]).text);
        assert!(d.pending().len() <= MAX_CARRY);
    }
    assert_eq!(out, "🎉");
}

#[test]
fn run_of_five_continuation_bytes_is_dropped() {
    let mut d = Utf8BoundaryDecoder::new();
    let c = d.push(&[0x80, 0x81, 0x82, 0x83, 0x84]);
    assert_eq!(c.text, "");
    assert_eq!(c.dropped, 5);
    assert!(d.pending().is_empty());
    // the decoder carries on normally afterwards
    let c = d.push(b"ok");
    assert_eq!(c.text, "ok");
    assert_eq!(c.dropped, 0);
}

#[test]
fn short_undecodable_tail_is_held_then_dropped_when_it_cannot_complete() {
    let mut d = Utf8BoundaryDecoder::new();
    let c = d.push(&[0x41, 0xFF]);
    assert_eq!(c.text, "A");
    assert_eq!(d.pending(), &[0xFF]);
    let c = d.push(&[0x42, 0x43, 0x44, 0x45]);
    assert_eq!(c.text, "");
    assert_eq!(c.dropped, 5);
    assert!(d.pending().is_empty());
}

#[test]
fn empty_chunk_changes_nothing() {
    let mut d = Utf8BoundaryDecoder::new();
    let c = d.push(&[]);
    assert_eq!(c.text, "");
    assert_eq!(c.dropped, 0);
    assert!(d.pending().is_empty());
}

#[test]
fn many_chunks_join_to_the_text() {
    let text = "añ€🎉b";
    let bytes = text.as_bytes();
    let mut d = Utf8BoundaryDecoder::new();
    let mut out = String::new();
    for chunk in bytes.chunks(3) {
        let c = d.push(chunk);
        assert_eq!(c.dropped, 0);
        out.push_str(&c.text);
    }
    assert_eq!(out, text);
    assert!(d.pending().is_empty());
}
