//! Tests of the byte-offset to line-number mapping.

use crabix::lines::line_at;
use crabix::lines::span_from_offsets;
use crabix::Spos;

fn spos(start_line: u32, end_line: u32) -> Spos {
    Spos {
        start_line,
        end_line,
    }
}

#[test]
fn single_line_source() {
    let src = b"hello world".to_vec();
    for p in 0..11 {
        assert_eq!(line_at(&src, p), Some(1));
    }
    assert_eq!(span_from_offsets(&src, 0, 11), Some(spos(1, 1)));
}

#[test]
fn lines_split_by_line_feeds() {
    let src = b"# one\ntwo\nthree".to_vec();
    assert_eq!(line_at(&src, 0), Some(1));
    assert_eq!(line_at(&src, 4), Some(1));
    // the line-feed byte itself already counts into the next line
    assert_eq!(line_at(&src, 5), Some(2));
    assert_eq!(line_at(&src, 6), Some(2));
    assert_eq!(line_at(&src, 10), Some(3));
    assert_eq!(span_from_offsets(&src, 0, 5), Some(spos(1, 1)));
    assert_eq!(span_from_offsets(&src, 6, 9), Some(spos(2, 2)));
    assert_eq!(span_from_offsets(&src, 0, 15), Some(spos(1, 3)));
}

#[test]
fn leading_line_breaks() {
    let src = b"\n\n\n\n\n\n123".to_vec();
    for p in 0..6 {
        assert_eq!(line_at(&src, p), Some(p as u32 + 2));
    }
    assert_eq!(line_at(&src, 7), Some(7));
    assert_eq!(line_at(&src, 8), Some(7));
}

#[test]
fn offsets_past_the_end() {
    assert_eq!(line_at(&b"123".to_vec(), 100), Some(1));
    assert_eq!(line_at(&b"123\n".to_vec(), 100), Some(2));
    assert_eq!(line_at(&b"123\n456".to_vec(), 100), Some(2));
}

#[test]
fn carriage_returns() {
    // a carriage return directly before a line feed is no break of its own
    let src = b"a\r\nb".to_vec();
    assert_eq!(line_at(&src, 0), Some(1));
    assert_eq!(line_at(&src, 1), Some(1));
    assert_eq!(line_at(&src, 2), Some(2));
    assert_eq!(line_at(&src, 3), Some(2));
    // a lone carriage return breaks the line
    let src = b"a\rb".to_vec();
    assert_eq!(line_at(&src, 1), Some(2));
    assert_eq!(line_at(&src, 2), Some(2));
}

#[test]
fn three_line_fenced_block_span() {
    // the fenced block of "```rust\n    fn app() {}\n```" spans lines 1-3
    let src = b"```rust\n    fn app() {}\n```".to_vec();
    assert_eq!(span_from_offsets(&src, 0, src.len()), Some(spos(1, 3)));
}
