//! Line numbers from byte offsets.
//!
//! The parser reports each node's source span as a pair of byte offsets.
//! The index speaks of 1-indexed lines, so the offsets are mapped against
//! the source: the line of an offset is one more than the number of line
//! breaks up to and including it. A line feed breaks a line, and so does a
//! carriage return that no line feed follows directly.

use vstd::prelude::*;

use crate::spos::Spos;

verus! {

/// The byte at `i` ends a line: a line feed, or a carriage return not
/// immediately followed by a line feed.
pub open spec fn is_line_break(s: Seq<u8>, i: int) -> bool {
    s[i] == 10 || (s[i] == 13 && !(i + 1 < s.len() && s[i + 1] == 10))
}

/// How many of the first `q` bytes end a line.
pub open spec fn breaks_before(s: Seq<u8>, q: int) -> nat
    decreases q,
{
    if q <= 0 {
        0
    } else {
        breaks_before(s, q - 1) + (if is_line_break(s, q - 1) {
            1nat
        } else {
            0nat
        })
    }
}

/// The 1-indexed line of the byte at offset `p`: one more than the number
/// of line breaks up to and including `p`, with offsets past the end of
/// the source counting every break.
pub open spec fn line_of(s: Seq<u8>, p: int) -> int {
    let q = if p + 1 <= s.len() {
        p + 1
    } else {
        s.len() as int
    };
    1 + breaks_before(s, q) as int
}

proof fn lemma_breaks_before_mono(s: Seq<u8>, q1: int, q2: int)
    requires
        q1 <= q2,
    ensures
        breaks_before(s, q1) <= breaks_before(s, q2),
    decreases q2 - q1,
{
    if q1 < q2 {
        lemma_breaks_before_mono(s, q1, q2 - 1);
    }
}

/// The line of the byte at offset `p`, or nothing when the source holds
/// more line breaks than a line counter can number.
pub fn line_at(src: &Vec<u8>, p: usize) -> (r: Option<u32>)
    ensures
        r matches Some(line) ==> line == line_of(src@, p as int),
        r is Some <==> line_of(src@, p as int) <= u32::MAX,
{
    let n = src.len();
    let stop = if p < n {
        p + 1
    } else {
        n
    };
    let mut line: u32 = 1;
    let mut i: usize = 0;
    while i < stop
        invariant
            stop <= n == src@.len(),
            i <= stop,
            stop == if p + 1 <= src@.len() {
                p + 1
            } else {
                src@.len() as int
            },
            line == 1 + breaks_before(src@, i as int),
        decreases stop - i,
    {
        let is_break = src[i] == 10 || (src[i] == 13 && !(i + 1 < n && src[i + 1] == 10));
        if is_break {
            line = match line.checked_add(1) {
                Option::Some(l) => l,
                Option::None => {
                    proof {
                        lemma_breaks_before_mono(src@, i as int + 1, stop as int);
                    }
                    return Option::None;
                },
            };
        }
        i = i + 1;
    }
    Option::Some(line)
}

/// The source span of a node given its byte offsets, `end` exclusive: the
/// line of its first byte and the line of its last one. Nothing comes
/// back only when a line number would not fit; a span of at least one
/// byte always maps to a well-formed range.
pub fn span_from_offsets(src: &Vec<u8>, start: usize, end: usize) -> (r: Option<Spos>)
    ensures
        r matches Some(sp) ==> sp.start_line == line_of(src@, start as int) && sp.end_line
            == line_of(
            src@,
            if end > 0 {
                end as int - 1
            } else {
                0
            },
        ),
        r is Some <==> line_of(src@, start as int) <= u32::MAX && line_of(
            src@,
            if end > 0 {
                end as int - 1
            } else {
                0
            },
        ) <= u32::MAX,
        r matches Some(sp) ==> (start < end ==> sp.wf()),
{
    let start_line = match line_at(src, start) {
        Option::Some(l) => l,
        Option::None => {
            return Option::None;
        },
    };
    let last = if end > 0 {
        end - 1
    } else {
        0
    };
    let end_line = match line_at(src, last) {
        Option::Some(l) => l,
        Option::None => {
            return Option::None;
        },
    };
    proof {
        if start < end {
            let n = src@.len() as int;
            let q1 = if start + 1 <= n {
                start as int + 1
            } else {
                n
            };
            let q2 = if last + 1 <= n {
                last as int + 1
            } else {
                n
            };
            lemma_breaks_before_mono(src@, q1, q2);
        }
    }
    Option::Some(Spos { start_line, end_line })
}

} // verus!
