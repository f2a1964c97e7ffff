use vstd::prelude::*;
use unicode_width::UnicodeWidthStr;
use crate::text::{chars_eq_str, from_chars, to_chars, trim_end_ws, trim_end_in_place};
use crate::view::{byte_len, hint_text_spec, ViewModel};
use crate::width::{display_width, lemma_scan, lemma_scan_measures, scan, scan_line, visual_width};
use crate::options::has_prefix;

verus! {

/// The width in columns that `unicode_width` gives the string `s` in an East
/// Asian context.
pub uninterp spec fn unicode_str_width_cjk(s: Seq<char>) -> usize;

/// `UnicodeWidthStr::width_cjk` of `unicode_width`; the contract names the result.
#[verifier::external_body]
fn str_width_cjk(s: &str) -> (r: usize)
    ensures
        r == unicode_str_width_cjk(s@),
{
    UnicodeWidthStr::width_cjk(s)
}

/// The size of the screen: a zero width or height reported by the terminal
/// stands for 80 columns or 24 rows.
pub open spec fn screen_size_spec(width: u16, height: u16) -> (int, int) {
    (if width == 0 { 80 } else { width as int }, if height == 0 { 24 } else { height as int })
}

/// The size of the screen from what the terminal reports.
pub fn screen_size(width: u16, height: u16) -> (r: (usize, usize))
    ensures
        (r.0 as int, r.1 as int) == screen_size_spec(width, height),
{
    (if width == 0 { 80 } else { width as usize }, if height == 0 { 24 } else { height as usize })
}

/// `n` spaces.
pub open spec fn spaces(n: int) -> Seq<char> {
    Seq::new(n as nat, |i: int| ' ')
}

/// The text drawn on row `index` for the line `line` on a screen of `w`
/// columns and `h` rows, if the row is drawn: rows past the screen are not,
/// nor are blank lines unless rows alternate in colour. The bottom row is cut
/// to `w - 1` columns; other rows are padded with spaces to `w - 1` columns
/// when rows alternate in colour.
pub open spec fn row_text_spec(line: Seq<char>, index: int, w: int, h: int, alternate: bool) -> Option<
    Seq<char>,
> {
    let wrap_w = if w > 1 { w - 1 } else { w };
    if index >= h || (trim_end_ws(line).len() == 0 && !alternate) {
        None
    } else if index == h - 1 {
        if display_width(line) > wrap_w {
            Some(scan(line, wrap_w).kept)
        } else {
            Some(line)
        }
    } else if alternate {
        Some(
            line + spaces(
                if display_width(line) < wrap_w {
                    wrap_w - display_width(line)
                } else {
                    0
                },
            ),
        )
    } else {
        Some(line)
    }
}

/// The text drawn on row `index` for `line`, if the row is drawn.
pub fn row_text(line: &str, index: usize, w: usize, h: usize, alternate: bool) -> (r: Option<String>)
    ensures
        match row_text_spec(line@, index as int, w as int, h as int, alternate) {
            Some(t) => r matches Some(s) && s@ == t,
            None => r is None,
        },
{
    let wrap_w: usize = if w > 1 { w - 1 } else { w };
    let chars = to_chars(line);
    let mut clean = vstd::slice::slice_to_vec(chars.as_slice());
    trim_end_in_place(&mut clean);
    if index >= h || (clean.len() == 0 && !alternate) {
        return None;
    }
    proof {
        lemma_scan(line@, wrap_w as int);
        lemma_scan_measures(line@, wrap_w as int);
    }
    let (kept, width, stopped) = scan_line(chars.as_slice(), wrap_w);
    if index == h - 1 {
        if stopped {
            Some(from_chars(kept.as_slice()))
        } else {
            Some(line.to_owned())
        }
    } else if alternate {
        let pad: usize = if !stopped && width < wrap_w { wrap_w - width } else { 0 };
        let mut padded = chars;
        let mut k: usize = 0;
        while k < pad
            invariant
                k <= pad,
                padded@ == line@ + spaces(k as int),
            decreases pad - k,
        {
            padded.push(' ');
            k += 1;
            assert(padded@ =~= line@ + spaces(k as int));
        }
        Some(from_chars(padded.as_slice()))
    } else {
        Some(line.to_owned())
    }
}

/// How a match is drawn: picked already, selected, or neither.
#[derive(Debug, Clone, Copy, PartialEq, Eq, Structural)]
pub enum Role {
    Chosen,
    Selected,
    Normal,
}

/// The role of match `i`: a match whose text was picked is `Chosen`; one
/// equal in every field to the selected match is `Selected`.
pub open spec fn role_spec(v: ViewModel, i: int) -> Role {
    if exists|k: int| 0 <= k < v.chosen.len() && #[trigger] v.chosen[k].0 == v.matches[i].text {
        Role::Chosen
    } else if 0 <= v.skip < v.matches.len() && v.matches[v.skip] == v.matches[i] {
        Role::Selected
    } else {
        Role::Normal
    }
}

/// The columns before the match at character `x` of `line` (a negative `x`
/// stands past the end of the line).
pub open spec fn match_offset_spec(line: Seq<char>, x: i32) -> int {
    let prefix = if x < 0 || x > line.len() { line } else { line.take(x as int) };
    let w = display_width(prefix);
    if w > usize::MAX { usize::MAX as int } else { w }
}

/// The columns before the match at character `x` of `line`.
pub fn match_offset(line: &str, x: i32) -> (r: usize)
    ensures
        r as int == match_offset_spec(line@, x),
{
    let chars = to_chars(line);
    let n: usize = if x < 0 || x as usize > chars.len() { chars.len() } else { x as usize };
    let prefix = vstd::slice::slice_subrange(chars.as_slice(), 0, n);
    let p = from_chars(prefix);
    assert(p@ =~= (if x < 0 || x > line@.len() { line@ } else { line@.take(x as int) }));
    visual_width(p.as_str())
}

/// The `i16` that `x as i16` gives: the low 16 bits of `x`, in two's complement.
pub open spec fn as_i16(x: usize) -> int {
    let t = (x % 65536) as int;
    if t < 32768 {
        t
    } else {
        t - 65536
    }
}

proof fn lemma_as_i16(x: usize)
    ensures
        (x as i16) as int == as_i16(x),
{
    assert((x as i16) as int == if (x % 65536) < 32768 {
        (x % 65536) as int
    } else {
        (x % 65536) as int - 65536
    }) by (bit_vector);
}

/// The shift of a hint from its match, by `position`: on the right end of the
/// match text (of width `text_width`), left of the match, right of the match,
/// or on the match; computed on 16-bit values, as `i16` casts give them.
pub open spec fn hint_shift(position: Seq<char>, contrast: bool, text_width: usize, hint_len: usize) -> int {
    let tw = as_i16(text_width);
    let hl = as_i16(hint_len);
    if position == "right"@ {
        tw - hl
    } else if position == "off_left"@ {
        0 - hl - if contrast { 2int } else { 0int }
    } else if position == "off_right"@ {
        tw
    } else {
        0
    }
}

/// Whether the 16-bit arithmetic of a hint's column stays in range.
pub open spec fn hint_column_fits(
    position: Seq<char>,
    contrast: bool,
    text_width: usize,
    hint_len: usize,
    offset: usize,
) -> bool {
    let shift = hint_shift(position, contrast, text_width, hint_len);
    let hl = as_i16(hint_len);
    &&& i16::MIN <= shift <= i16::MAX
    &&& (position == "off_left"@ ==> i16::MIN <= 0 - hl <= i16::MAX)
    &&& i16::MIN <= as_i16(offset) + shift <= i16::MAX
}

/// The column of a hint: the match's column `offset` moved by the shift, and
/// never left of the screen.
pub open spec fn hint_column_spec(
    position: Seq<char>,
    contrast: bool,
    text_width: usize,
    hint_len: usize,
    offset: usize,
) -> int {
    let c = as_i16(offset) + hint_shift(position, contrast, text_width, hint_len);
    if c < 0 { 0 } else { c }
}

/// The column of a hint of `hint_len` bytes, for a match at column `offset`
/// whose shown text is `text_width` columns wide.
pub fn hint_column(position: &str, contrast: bool, text_width: usize, hint_len: usize, offset: usize) -> (r: usize)
    requires
        hint_column_fits(position@, contrast, text_width, hint_len, offset),
    ensures
        r as int == hint_column_spec(position@, contrast, text_width, hint_len, offset),
{
    let pos = to_chars(position);
    proof {
        lemma_as_i16(text_width);
        lemma_as_i16(hint_len);
        lemma_as_i16(offset);
    }
    let tw = text_width as i16;
    let hl = hint_len as i16;
    let shift: i16 = if chars_eq_str(pos.as_slice(), "right") {
        tw - hl
    } else if chars_eq_str(pos.as_slice(), "off_left") {
        0 - hl - if contrast { 2 } else { 0 }
    } else if chars_eq_str(pos.as_slice(), "off_right") {
        tw
    } else {
        0
    };
    let c = offset as i16 + shift;
    if c < 0 { 0 } else { c as usize }
}

/// The shift of a hint from its match in whole numbers, with no 16-bit cast.
pub open spec fn plain_hint_shift(position: Seq<char>, contrast: bool, text_width: int, hint_len: int) -> int {
    if position == "right"@ {
        text_width - hint_len
    } else if position == "off_left"@ {
        0 - hint_len - if contrast { 2int } else { 0int }
    } else if position == "off_right"@ {
        text_width
    } else {
        0
    }
}

/// Below 32768 columns and bytes the 16-bit casts change nothing: the hint's
/// column is the match's column moved by the shift in whole numbers, and
/// never left of the screen.
pub proof fn lemma_hint_column_plain(
    position: Seq<char>,
    contrast: bool,
    text_width: usize,
    hint_len: usize,
    offset: usize,
)
    requires
        text_width < 32768,
        hint_len < 32768,
        offset < 32768,
    ensures
        ({
            let c = offset + plain_hint_shift(position, contrast, text_width as int, hint_len as int);
            hint_column_spec(position, contrast, text_width, hint_len, offset) == if c < 0 {
                0
            } else {
                c
            }
        }),
{
    assert(text_width % 65536 == text_width);
    assert(hint_len % 65536 == hint_len);
    assert(offset % 65536 == offset);
}

/// The pair of colours, foreground and background, that a match is drawn in.
#[derive(Debug, Clone, Copy, PartialEq, Eq, Structural)]
pub enum ColorPair {
    /// The colours of picked matches (`multi_fg` and `multi_bg`).
    Multi,
    /// The colours of the selected match (`select_fg` and `select_bg`).
    Select,
    /// The plain colours (`fg_color` and `bg_color`).
    Plain,
}

/// The colours of each role: picked matches in the multi-selection colours,
/// the selected match in the selection colours, the others in the plain ones.
pub open spec fn role_colors_spec(r: Role) -> ColorPair {
    match r {
        Role::Chosen => ColorPair::Multi,
        Role::Selected => ColorPair::Select,
        Role::Normal => ColorPair::Plain,
    }
}

/// The colours a match of role `r` is drawn in.
pub fn role_colors(r: Role) -> (c: ColorPair)
    ensures
        c == role_colors_spec(r),
{
    match r {
        Role::Chosen => ColorPair::Multi,
        Role::Selected => ColorPair::Select,
        Role::Normal => ColorPair::Plain,
    }
}

/// Where and how a hint is drawn: its column, its shown text, and whether the
/// typed hint is drawn over it.
pub struct HintLayout {
    pub column: usize,
    pub text: String,
    pub typed_overlay: bool,
}

/// The column, the shown text and the overlay flag of the hint `hint` of a
/// match whose shown text is `text_width` columns wide, at column `offset`,
/// with `typed` typed so far; `None` when the 16-bit arithmetic of the
/// column overflows.
pub open spec fn hint_layout_spec(
    position: Seq<char>,
    contrast: bool,
    text_width: usize,
    hint: Seq<char>,
    typed: Seq<char>,
    offset: usize,
) -> Option<(int, Seq<char>, bool)> {
    let hl = byte_len(hint) as usize;
    if hint_column_fits(position, contrast, text_width, hl, offset) {
        Some(
            (
                hint_column_spec(position, contrast, text_width, hl, offset),
                hint_text_spec(contrast, hint),
                has_prefix(hint, typed),
            ),
        )
    } else {
        None
    }
}

/// Whether the layout `l` is the one that `hint_layout_spec` gives.
pub open spec fn layout_is(l: HintLayout, t: (int, Seq<char>, bool)) -> bool {
    &&& l.column as int == t.0
    &&& l.text@ == t.1
    &&& l.typed_overlay == t.2
}

/// The hint of a drawn match: it has none, its column overflows, or it is
/// drawn as laid out.
pub enum HintDraw {
    Absent,
    Overflow,
    Shown(HintLayout),
}

/// How a match on the screen is drawn: at `column` of `row`, its shown text
/// in the colours `colors`, and its hint.
pub struct MatchDraw {
    pub column: usize,
    pub row: usize,
    pub text: String,
    pub colors: ColorPair,
    pub hint: HintDraw,
}

/// Whether `d` is how the match `m` (the match `i` of the picker `v`) is
/// drawn over the line `line` with `typed` typed: at the columns before it on
/// its row, its shown text in the colours of its role, and its hint laid out
/// next to it (the hint's place is measured from the width of the shown text).
pub open spec fn match_draw_is(
    v: ViewModel,
    i: int,
    line: Seq<char>,
    typed: Seq<char>,
    d: MatchDraw,
) -> bool {
    let m = v.matches[i];
    &&& d.row as int == m.y as int
    &&& d.column as int == match_offset_spec(line, m.x)
    &&& d.text@ == hint_text_spec(v.contrast, m.text)
    &&& d.colors == role_colors_spec(role_spec(v, i))
    &&& match m.hint {
        None => d.hint is Absent,
        Some(h) => match hint_layout_spec(
            v.position,
            v.contrast,
            unicode_str_width_cjk(hint_text_spec(v.contrast, m.text)),
            h,
            typed,
            d.column,
        ) {
            Some(t) => d.hint matches HintDraw::Shown(l) && layout_is(l, t),
            None => d.hint is Overflow,
        },
    }
}

impl crate::view::View {
    /// How match `i` is drawn.
    pub fn match_role(&self, i: usize) -> (r: Role)
        requires
            i < self.matches@.len(),
        ensures
            r == role_spec(self@, i as int),
    {
        let text = &self.matches[i].text;
        assert(self@.matches[i as int] == self.matches@[i as int]@);
        let mut k: usize = 0;
        while k < self.chosen.len()
            invariant
                k <= self.chosen@.len(),
                i < self.matches@.len(),
                self@.matches[i as int].text == text@,
                forall|j: int| 0 <= j < k ==> #[trigger] self@.chosen[j].0 != self@.matches[i as int].text,
            decreases self.chosen.len() - k,
        {
            assert(self@.chosen[k as int].0 == self.chosen@[k as int].0@);
            if self.chosen[k].0 == *text {
                assert(self@.chosen[k as int].0 == self@.matches[i as int].text);
                return Role::Chosen;
            }
            k += 1;
        }
        if self.skip < self.matches.len() && self.same_match(self.skip, i) {
            Role::Selected
        } else {
            Role::Normal
        }
    }

    /// Whether matches `a` and `b` are equal in every field.
    fn same_match(&self, a: usize, b: usize) -> (r: bool)
        requires
            a < self.matches@.len(),
            b < self.matches@.len(),
        ensures
            r == (self@.matches[a as int] == self@.matches[b as int]),
    {
        let ma = &self.matches[a];
        let mb = &self.matches[b];
        let hints_equal = match (&ma.hint, &mb.hint) {
            (Some(x), Some(y)) => *x == *y,
            (None, None) => true,
            _ => false,
        };
        ma.x == mb.x && ma.y == mb.y && ma.text == mb.text && hints_equal
    }

    /// How the hint `hint` of a match with text `text` at column `offset` is
    /// drawn, with `typed` typed so far; `None` when the 16-bit arithmetic of
    /// its column would overflow.
    #[verifier::spinoff_prover]
    pub fn hint_layout(&self, text: &str, hint: &str, typed: &str, offset: usize) -> (r: Option<HintLayout>)
        ensures
            match hint_layout_spec(
                self.position@,
                self.contrast,
                unicode_str_width_cjk(hint_text_spec(self.contrast, text@)),
                hint@,
                typed@,
                offset,
            ) {
                Some(t) => r matches Some(l) && layout_is(l, t),
                None => r is None,
            },
    {
        let shown = self.make_hint_text(text);
        let tw = str_width_cjk(shown.as_str());
        let hl = hint.len();
        let pos = to_chars(self.position.as_str());
        proof {
            lemma_as_i16(tw);
            lemma_as_i16(hl);
            lemma_as_i16(offset);
        }
        let tw16 = tw as i16;
        let hl16 = hl as i16;
        let o16 = offset as i16;
        let is_right = chars_eq_str(pos.as_slice(), "right");
        let is_off_left = chars_eq_str(pos.as_slice(), "off_left");
        let is_off_right = chars_eq_str(pos.as_slice(), "off_right");
        let shift: i64 = if is_right {
            tw16 as i64 - hl16 as i64
        } else if is_off_left {
            0 - hl16 as i64 - if self.contrast { 2 } else { 0 }
        } else if is_off_right {
            tw16 as i64
        } else {
            0
        };
        let fits = -32768 <= shift && shift <= 32767 && (!is_off_left || (-32768 <= 0 - (hl16 as i64)
            && 0 - (hl16 as i64) <= 32767)) && -32768 <= o16 as i64 + shift && o16 as i64 + shift
            <= 32767;
        if !fits {
            return None;
        }
        let column = hint_column(self.position.as_str(), self.contrast, tw, hl, offset);
        let hint_chars = to_chars(hint);
        let typed_chars = to_chars(typed);
        let overlay = crate::text::starts_with(hint_chars.as_slice(), typed_chars.as_slice());
        Some(HintLayout { column, text: self.make_hint_text(hint), typed_overlay: overlay })
    }

    /// How match `i` is drawn over `lines` on a screen of `h` rows, with
    /// `typed` typed so far: `None` when its row is not on the screen.
    pub fn match_layout(&self, lines: &Vec<String>, i: usize, h: usize, typed: &str) -> (r: Option<MatchDraw>)
        requires
            i < self.matches@.len(),
            0 <= self.matches@[i as int].y < lines@.len(),
        ensures
            ({
                let m = self@.matches[i as int];
                match r {
                    None => m.y as int >= h,
                    Some(d) => m.y < h && match_draw_is(self@, i as int, lines@[m.y as int]@, typed@, d),
                }
            }),
    {
        let m = &self.matches[i];
        assert(self@.matches[i as int] == m@);
        let y = m.y as usize;
        if y >= h {
            return None;
        }
        let colors = role_colors(self.match_role(i));
        let column = match_offset(lines[y].as_str(), m.x);
        let text = self.make_hint_text(m.text.as_str());
        let hint = match &m.hint {
            None => HintDraw::Absent,
            Some(hs) => match self.hint_layout(m.text.as_str(), hs.as_str(), typed, column) {
                Some(l) => HintDraw::Shown(l),
                None => HintDraw::Overflow,
            },
        };
        Some(MatchDraw { column, row: y, text, colors, hint })
    }
}

/// A picked match is drawn as picked, in the multi-selection colours, even
/// when it is the selected one; a match not picked is drawn in the selection
/// colours exactly when it is the selected one, and in the plain colours
/// otherwise.
pub proof fn lemma_role_priority(v: ViewModel, i: int)
    requires
        0 <= i < v.matches.len(),
    ensures
        (exists|k: int| 0 <= k < v.chosen.len() && #[trigger] v.chosen[k].0 == v.matches[i].text)
            ==> role_spec(v, i) == Role::Chosen && role_colors_spec(role_spec(v, i))
            == ColorPair::Multi,
        !(exists|k: int| 0 <= k < v.chosen.len() && #[trigger] v.chosen[k].0 == v.matches[i].text)
            ==> {
            if 0 <= v.skip < v.matches.len() && v.matches[v.skip] == v.matches[i] {
                role_spec(v, i) == Role::Selected && role_colors_spec(role_spec(v, i))
                    == ColorPair::Select
            } else {
                role_spec(v, i) == Role::Normal && role_colors_spec(role_spec(v, i))
                    == ColorPair::Plain
            }
        },
{
}

/// Which rows are drawn: none past the screen; on the screen, every row
/// when rows alternate in colour, and otherwise exactly the rows whose line
/// is not blank. A row above the bottom one, when rows alternate, is its line
/// followed by spaces up to `w - 1` columns (none when the line is as wide).
pub proof fn lemma_rows_drawn(line: Seq<char>, index: int, w: int, h: int)
    ensures
        index >= h ==> row_text_spec(line, index, w, h, true) is None && row_text_spec(
            line,
            index,
            w,
            h,
            false,
        ) is None,
        index < h ==> row_text_spec(line, index, w, h, true) is Some,
        index < h ==> (row_text_spec(line, index, w, h, false) is None <==> trim_end_ws(line).len()
            == 0),
        index < h - 1 ==> ({
            let wrap_w = if w > 1 { w - 1 } else { w };
            let pad = if display_width(line) < wrap_w { wrap_w - display_width(line) } else { 0 };
            let t = row_text_spec(line, index, w, h, true)->Some_0;
            &&& t.len() == line.len() + pad
            &&& t.take(line.len() as int) == line
            &&& forall|j: int| line.len() <= j < t.len() ==> #[trigger] t[j] == ' '
        }),
{
    if index < h - 1 {
        let wrap_w = if w > 1 { w - 1 } else { w };
        let pad = if display_width(line) < wrap_w { wrap_w - display_width(line) } else { 0 };
        let t = row_text_spec(line, index, w, h, true)->Some_0;
        assert(t == line + spaces(pad));
        assert(t.take(line.len() as int) =~= line);
    }
}

} // verus!
