use vstd::prelude::*;
use unicode_width::UnicodeWidthChar;
use crate::text::{from_chars, to_chars};

verus! {

/// The width in columns that `unicode_width` gives `c` (`None` for control characters).
pub uninterp spec fn unicode_char_width(c: char) -> Option<usize>;

/// What the source of `unicode_width` fixes of the width `w` of `c`: none for
/// the control characters below U+0020 and from U+007F to U+009F, 1 for
/// printable ASCII, and at most 3 from U+00A0 on.
pub open spec fn width_facts(c: char, w: Option<usize>) -> bool {
    let u = c as u32;
    &&& u < 0x20 ==> w is None
    &&& 0x20 <= u && u < 0x7F ==> w == Some(1usize)
    &&& 0x7F <= u && u < 0xA0 ==> w is None
    &&& 0xA0 <= u ==> w is Some && w->0 <= 3
}

/// `UnicodeWidthChar::width` of `unicode_width`: the contract names the result
/// and states the facts of `width_facts`.
#[verifier::external_body]
fn char_width(c: char) -> (r: Option<usize>)
    ensures
        r == unicode_char_width(c),
        width_facts(c, r),
{
    UnicodeWidthChar::width(c)
}

/// The width in columns of `c` (`None` for control characters); a caller
/// learns from it the facts of `width_facts` for `c`.
pub fn char_display_width(c: char) -> (r: Option<usize>)
    ensures
        r == unicode_char_width(c),
        width_facts(c, r),
{
    char_width(c)
}

/// An ASCII letter (`char::is_ascii_alphabetic`).
pub open spec fn is_ascii_letter(c: char) -> bool {
    ('A' <= c && c <= 'Z') || ('a' <= c && c <= 'z')
}

/// The columns that `c` takes when the cursor is at column `col`: a tab runs
/// to the next multiple of 8, and another character takes its Unicode width
/// (none for control characters).
pub open spec fn column_width(c: char, col: int) -> int {
    if c == '\t' {
        8 - col % 8
    } else {
        match unicode_char_width(c) {
            Some(w) => w as int,
            None => 0,
        }
    }
}

/// The columns taken by `line`, and whether it ends inside an escape
/// sequence: an escape sequence runs from ESC to the first ASCII letter and
/// takes no column.
pub open spec fn scan_end(line: Seq<char>) -> (int, bool)
    decreases line.len(),
{
    if line.len() == 0 {
        (0, false)
    } else {
        let (w, esc) = scan_end(line.drop_last());
        let c = line.last();
        if esc {
            (w, !is_ascii_letter(c))
        } else if c == '\x1b' {
            (w, true)
        } else {
            (w + column_width(c, w), false)
        }
    }
}

/// The columns that `line` takes on screen.
pub open spec fn display_width(line: Seq<char>) -> int {
    scan_end(line).0
}

/// The state of a scan of a line, from its left end: what is kept, the
/// columns it takes, whether the scan is inside an escape sequence, and
/// whether it has stopped.
pub struct Scan {
    pub kept: Seq<char>,
    pub width: int,
    pub in_escape: bool,
    pub stopped: bool,
}

/// The scan of `line` that keeps what fits in `max_w` columns: escape
/// sequences are always kept, and the scan stops at the first character that
/// would pass `max_w`.
pub open spec fn scan(line: Seq<char>, max_w: int) -> Scan
    decreases line.len(),
{
    if line.len() == 0 {
        Scan { kept: Seq::empty(), width: 0, in_escape: false, stopped: false }
    } else {
        let s = scan(line.drop_last(), max_w);
        let c = line.last();
        if s.stopped {
            s
        } else if s.in_escape {
            Scan { kept: s.kept.push(c), in_escape: !is_ascii_letter(c), ..s }
        } else if c == '\x1b' {
            Scan { kept: s.kept.push(c), in_escape: true, ..s }
        } else if s.width + column_width(c, s.width) > max_w {
            Scan { stopped: true, ..s }
        } else {
            Scan { kept: s.kept.push(c), width: s.width + column_width(c, s.width), ..s }
        }
    }
}

/// What a scan keeps is a prefix of the line, which takes the columns the
/// scan counted, at most `max_w`; a scan that did not stop kept the whole line.
pub proof fn lemma_scan(line: Seq<char>, max_w: int)
    requires
        max_w >= 0,
    ensures
        0 <= scan(line, max_w).width <= max_w,
        scan(line, max_w).kept.len() <= line.len(),
        scan(line, max_w).kept == line.take(scan(line, max_w).kept.len() as int),
        !scan(line, max_w).stopped ==> scan(line, max_w).kept.len() == line.len(),
        scan_end(scan(line, max_w).kept) == (scan(line, max_w).width, scan(line, max_w).in_escape),
    decreases line.len(),
{
    if line.len() > 0 {
        lemma_scan(line.drop_last(), max_w);
        let s = scan(line.drop_last(), max_w);
        let c = line.last();
        assert(line.drop_last().take(s.kept.len() as int) =~= line.take(s.kept.len() as int));
        if !s.stopped {
            assert(s.kept =~= line.drop_last());
            assert(line.take(line.len() as int) =~= line);
            assert(s.kept.push(c).drop_last() =~= s.kept);
        }
        assert(column_width(c, s.width) >= 0);
    }
}


/// Once a scan has stopped, the rest of the line changes nothing.
proof fn lemma_scan_stopped(line: Seq<char>, max_w: int, k: int)
    requires
        0 <= k <= line.len(),
        scan(line.take(k), max_w).stopped,
    ensures
        scan(line, max_w) == scan(line.take(k), max_w),
    decreases line.len() - k,
{
    if k < line.len() {
        assert(line.take(k + 1).drop_last() =~= line.take(k));
        lemma_scan_stopped(line, max_w, k + 1);
    } else {
        assert(line.take(k) =~= line);
    }
}

/// Whether `c` is an ASCII letter.
fn ascii_letter(c: char) -> (b: bool)
    ensures
        b == is_ascii_letter(c),
{
    ('A' <= c && c <= 'Z') || ('a' <= c && c <= 'z')
}

/// Scans `line` for what fits in `max_w` columns: what is kept, the columns
/// it takes, and whether the scan stopped before the end of the line.
pub fn scan_line(line: &[char], max_w: usize) -> (r: (Vec<char>, usize, bool))
    ensures
        r.0@ == scan(line@, max_w as int).kept,
        r.1 as int == scan(line@, max_w as int).width,
        r.2 == scan(line@, max_w as int).stopped,
{
    proof {
        lemma_scan(line@, max_w as int);
    }
    let mut sliced: Vec<char> = Vec::new();
    let mut current_width: usize = 0;
    let mut in_escape = false;
    let mut i: usize = 0;
    assert(line@.take(0) =~= Seq::<char>::empty());
    while i < line.len()
        invariant
            i <= line@.len(),
            current_width <= max_w,
            scan(line@.take(i as int), max_w as int) == (Scan {
                kept: sliced@,
                width: current_width as int,
                in_escape,
                stopped: false,
            }),
        decreases line.len() - i,
    {
        let ch = line[i];
        let ghost t = line@.take(i + 1);
        assert(t.drop_last() =~= line@.take(i as int));
        assert(t.last() == ch);
        if in_escape {
            sliced.push(ch);
            if ascii_letter(ch) {
                in_escape = false;
            }
            i += 1;
        } else if ch == '\x1b' {
            in_escape = true;
            sliced.push(ch);
            i += 1;
        } else {
            let ch_width: usize = if ch == '\t' {
                8 - (current_width % 8)
            } else {
                match char_width(ch) {
                    Some(w) => w,
                    None => 0,
                }
            };
            if ch_width > max_w - current_width {
                proof {
                    lemma_scan_stopped(line@, max_w as int, i + 1);
                }
                return (sliced, current_width, true);
            }
            sliced.push(ch);
            current_width = current_width + ch_width;
            i += 1;
        }
    }
    assert(line@.take(line@.len() as int) =~= line@);
    (sliced, current_width, false)
}

/// The part of `line` that fits in `max_w` columns: escape sequences are
/// kept whole and take no column, and the line is cut before the first
/// character that would pass `max_w`.
pub fn slice_line_to_width(line: &str, max_w: usize) -> (r: String)
    ensures
        r@ == scan(line@, max_w as int).kept,
        r@ == line@.take(r@.len() as int),
        display_width(r@) <= max_w,
{
    proof {
        lemma_scan(line@, max_w as int);
    }
    let chars = to_chars(line);
    let (kept, _, _) = scan_line(chars.as_slice(), max_w);
    from_chars(kept.as_slice())
}

/// A scan stops exactly when the line is wider than `max_w`, and a scan that
/// did not stop counted the width of the whole line.
pub proof fn lemma_scan_measures(line: Seq<char>, max_w: int)
    requires
        max_w >= 0,
    ensures
        scan(line, max_w).stopped <==> display_width(line) > max_w,
        !scan(line, max_w).stopped ==> scan(line, max_w).width == display_width(line),
    decreases line.len(),
{
    lemma_scan(line, max_w);
    if line.len() > 0 {
        lemma_scan_measures(line.drop_last(), max_w);
        lemma_scan(line.drop_last(), max_w);
        let c = line.last();
        let (w, esc) = scan_end(line.drop_last());
        assert(column_width(c, w) >= 0);
        let s = scan(line.drop_last(), max_w);
        if !s.stopped {
            assert(s.kept =~= line.drop_last());
        }
    }
}

/// The columns that `line` takes, or `usize::MAX` when that is more.
pub fn visual_width(line: &str) -> (r: usize)
    ensures
        r as int == if display_width(line@) > usize::MAX {
            usize::MAX as int
        } else {
            display_width(line@)
        },
{
    let chars = to_chars(line);
    let mut w: usize = 0;
    let mut in_escape = false;
    let mut i: usize = 0;
    assert(chars@.take(0) =~= Seq::<char>::empty());
    while i < chars.len()
        invariant
            i <= chars@.len(),
            chars@ == line@,
            scan_end(chars@.take(i as int)).1 == in_escape,
            scan_end(chars@.take(i as int)).0 >= 0,
            w as int == if scan_end(chars@.take(i as int)).0 > usize::MAX {
                usize::MAX as int
            } else {
                scan_end(chars@.take(i as int)).0
            },
        decreases chars.len() - i,
    {
        let ch = chars[i];
        let ghost t = chars@.take(i + 1);
        assert(t.drop_last() =~= chars@.take(i as int));
        assert(t.last() == ch);
        if in_escape {
            if ascii_letter(ch) {
                in_escape = false;
            }
        } else if ch == '\x1b' {
            in_escape = true;
        } else {
            let ch_width: usize = if ch == '\t' {
                8 - (w % 8)
            } else {
                match char_width(ch) {
                    Some(cw) => cw,
                    None => 0,
                }
            };
            assert(ch_width >= 1 || ch != '\t');
            w = if ch_width > usize::MAX - w { usize::MAX } else { w + ch_width };
        }
        i += 1;
    }
    assert(chars@.take(chars@.len() as int) =~= chars@);
    w
}

} // verus!
