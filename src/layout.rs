use vstd::prelude::*;
use crate::terminal::{goto, goto_seq};
use crate::text::{
    chars_of, lines_of, push_all, push_repeated, repeated, split_lines,
    string_of, views,
};

verus! {

/// The length of the longest line, 0 when there is none.
pub open spec fn longest(lines: Seq<Seq<char>>) -> nat
    decreases lines.len(),
{
    if lines.len() == 0 {
        0
    } else {
        let m = longest(lines.drop_last());
        if lines.last().len() > m {
            lines.last().len()
        } else {
            m
        }
    }
}

/// Spaces to the left of a line of length `len` centred in `width` columns.
pub open spec fn left_padding(width: nat, len: nat) -> nat {
    ((width - len) / 2) as nat
}

/// Spaces to the right of a line of length `len` centred in `width` columns.
pub open spec fn right_padding(width: nat, len: nat) -> nat {
    (width - len - left_padding(width, len)) as nat
}

pub open spec fn top_border(width: nat) -> Seq<char> {
    seq!['┏'] + repeated('━', width) + seq!['┓']
}

pub open spec fn bottom_border(width: nat) -> Seq<char> {
    seq!['┗'] + repeated('━', width) + seq!['┛']
}

pub open spec fn blank_row(width: nat) -> Seq<char> {
    seq!['┃'] + repeated(' ', width) + seq!['┃']
}

/// A line centred in `width` columns between two vertical bars.
pub open spec fn content_row(line: Seq<char>, width: nat) -> Seq<char> {
    seq!['┃'] + repeated(' ', left_padding(width, line.len())) + line + repeated(
        ' ',
        right_padding(width, line.len()),
    ) + seq!['┃']
}

/// The rows of a box `width` columns wide inside its border, holding `lines`
/// with `margin` blank rows above and below them.
pub open spec fn frame(lines: Seq<Seq<char>>, width: nat, margin: nat) -> Seq<Seq<char>> {
    seq![top_border(width)] + Seq::new(margin, |_i: int| blank_row(width)) + lines.map_values(
        |l: Seq<char>| content_row(l, width),
    ) + Seq::new(margin, |_i: int| blank_row(width)) + seq![bottom_border(width)]
}

/// Inner width of the box around `lines` with `margin_side` columns on each side.
pub open spec fn box_width(lines: Seq<Seq<char>>, margin_side: nat) -> nat {
    longest(lines) + 2 * margin_side
}

/// Inner height of the box around `lines` with `margin_vert` rows above and below.
pub open spec fn box_height(lines: Seq<Seq<char>>, margin_vert: nat) -> nat {
    lines.len() + 2 * margin_vert
}

/// Whether the box centred on `(x, y)` starts at or after column and row 0
/// and its last row is a `u16`.
pub open spec fn box_fits(
    lines: Seq<Seq<char>>,
    x: nat,
    y: nat,
    margin_side: nat,
    margin_vert: nat,
) -> bool {
    let w = box_width(lines, margin_side);
    let h = box_height(lines, margin_vert);
    &&& w / 2 <= x
    &&& h / 2 <= y
    &&& y - h / 2 + h + 1 <= u16::MAX
}

/// The top-left corner of the box centred on `(x, y)`.
pub open spec fn box_corner(
    lines: Seq<Seq<char>>,
    x: nat,
    y: nat,
    margin_side: nat,
    margin_vert: nat,
) -> (nat, nat) {
    (
        (x - box_width(lines, margin_side) / 2) as nat,
        (y - box_height(lines, margin_vert) / 2) as nat,
    )
}

/// The rows, each one preceded by a move of the cursor to column `x` and to
/// row `y` for the first row, `y + 1` for the next, and so on.
pub open spec fn painted(rows: Seq<Seq<char>>, x: nat, y: nat) -> Seq<char>
    decreases rows.len(),
{
    if rows.len() == 0 {
        Seq::empty()
    } else {
        painted(rows.drop_last(), x, y) + goto_seq(x, (y + rows.len() - 1) as nat) + rows.last()
    }
}

/// The whole box around `lines` centred on `(x, y)`, ready to be written.
pub open spec fn boxed(
    lines: Seq<Seq<char>>,
    x: nat,
    y: nat,
    margin_side: nat,
    margin_vert: nat,
) -> Seq<char> {
    let corner = box_corner(lines, x, y, margin_side, margin_vert);
    painted(frame(lines, box_width(lines, margin_side), margin_vert), corner.0, corner.1)
}

/// A size past which no box can be centred on a `u16` position.
const LARGEST_SPAN: usize = 140000;

/// The length of the longest line.
pub fn longest_line(lines: &Vec<Vec<char>>) -> (r: usize)
    ensures
        r == longest(views(lines@)),
{
    let mut m: usize = 0;
    let mut i: usize = 0;
    while i < lines.len()
        invariant
            i <= lines.len(),
            m == longest(views(lines@.subrange(0, i as int))),
        decreases lines.len() - i,
    {
        assert(views(lines@.subrange(0, i + 1)).drop_last() =~= views(
            lines@.subrange(0, i as int),
        ));
        if lines[i].len() > m {
            m = lines[i].len();
        }
        i += 1;
    }
    assert(lines@.subrange(0, lines.len() as int) =~= lines@);
    m
}

/// One row of content: `line` centred in `width` columns between two bars.
pub fn content_line(line: &Vec<char>, width: usize) -> (r: Vec<char>)
    requires
        line.len() <= width,
    ensures
        r@ == content_row(line@, width as nat),
{
    let padding = width - line.len();
    let padding_left = padding / 2;
    let padding_right = padding - padding_left;
    let mut row: Vec<char> = Vec::new();
    row.push('┃');
    push_repeated(&mut row, ' ', padding_left);
    push_all(&mut row, line);
    push_repeated(&mut row, ' ', padding_right);
    row.push('┃');
    assert(row@ =~= content_row(line@, width as nat));
    row
}

fn edge_line(left: char, fill: char, right: char, width: usize) -> (r: Vec<char>)
    ensures
        r@ == seq![left] + repeated(fill, width as nat) + seq![right],
{
    let mut row: Vec<char> = Vec::new();
    row.push(left);
    push_repeated(&mut row, fill, width);
    row.push(right);
    assert(row@ =~= seq![left] + repeated(fill, width as nat) + seq![right]);
    row
}

/// The rows of the box around `lines`: border, margins and centred content.
pub fn frame_rows(lines: &Vec<Vec<char>>, width: usize, margin_vert: usize) -> (r: Vec<Vec<char>>)
    requires
        longest(views(lines@)) <= width,
    ensures
        views(r@) == frame(views(lines@), width as nat, margin_vert as nat),
{
    let ghost ls = views(lines@);
    let ghost w = width as nat;
    let ghost mv = margin_vert as nat;
    proof {
        lemma_longest_bounds(ls);
    }
    let mut rows: Vec<Vec<char>> = Vec::new();
    rows.push(edge_line('┏', '━', '┓', width));
    let mut i: usize = 0;
    while i < margin_vert
        invariant
            i <= margin_vert,
            w == width as nat,
            views(rows@) =~= seq![top_border(w)] + Seq::new(i as nat, |_i: int| blank_row(w)),
        decreases margin_vert - i,
    {
        let ghost before = views(rows@);
        let blank = edge_line('┃', ' ', '┃', width);
        assert(blank@ == blank_row(w));
        rows.push(blank);
        assert(views(rows@) =~= before.push(blank_row(w)));
        i += 1;
    }
    let ghost upper = views(rows@);
    let mut k: usize = 0;
    while k < lines.len()
        invariant
            k <= lines.len(),
            w == width as nat,
            ls == views(lines@),
            forall|j: int| 0 <= j < ls.len() ==> #[trigger] ls[j].len() <= w,
            views(rows@) =~= upper + ls.subrange(0, k as int).map_values(
                |l: Seq<char>| content_row(l, w),
            ),
        decreases lines.len() - k,
    {
        assert(ls[k as int] == lines@[k as int]@);
        let ghost before = views(rows@);
        rows.push(content_line(&lines[k], width));
        assert(views(rows@) =~= before.push(content_row(ls[k as int], w)));
        assert(ls.subrange(0, k + 1) =~= ls.subrange(0, k as int).push(ls[k as int]));
        k += 1;
    }
    assert(ls.subrange(0, lines.len() as int) =~= ls);
    let ghost middle = views(rows@);
    let mut i: usize = 0;
    while i < margin_vert
        invariant
            i <= margin_vert,
            w == width as nat,
            views(rows@) =~= middle + Seq::new(i as nat, |_i: int| blank_row(w)),
        decreases margin_vert - i,
    {
        let ghost before = views(rows@);
        let blank = edge_line('┃', ' ', '┃', width);
        assert(blank@ == blank_row(w));
        rows.push(blank);
        assert(views(rows@) =~= before.push(blank_row(w)));
        i += 1;
    }
    let ghost before = views(rows@);
    rows.push(edge_line('┗', '━', '┛', width));
    assert(views(rows@) =~= before.push(bottom_border(w)));
    assert(views(rows@) =~= frame(ls, w, mv));
    rows
}

proof fn lemma_longest_bounds(lines: Seq<Seq<char>>)
    ensures
        forall|j: int| 0 <= j < lines.len() ==> #[trigger] lines[j].len() <= longest(lines),
    decreases lines.len(),
{
    if lines.len() > 0 {
        lemma_longest_bounds(lines.drop_last());
        assert forall|j: int| 0 <= j < lines.len() implies #[trigger] lines[j].len() <= longest(
            lines,
        ) by {
            if j < lines.len() - 1 {
                assert(lines[j] == lines.drop_last()[j]);
            }
        }
    }
}

/// Every row of the box, borders included, is `box_width` columns wide between
/// its two edge characters, and the box has one row per line, the blank rows of
/// both vertical margins, and the top and bottom borders.
pub proof fn lemma_frame_shape(lines: Seq<Seq<char>>, margin_side: nat, margin_vert: nat)
    ensures
        frame(lines, box_width(lines, margin_side), margin_vert).len() == lines.len() + 2
            * margin_vert + 2,
        forall|k: int|
            0 <= k < frame(lines, box_width(lines, margin_side), margin_vert).len() ==> (
            #[trigger] frame(lines, box_width(lines, margin_side), margin_vert)[k]).len()
                == box_width(lines, margin_side) + 2,
{
    let w = box_width(lines, margin_side);
    let rows = frame(lines, w, margin_vert);
    lemma_longest_bounds(lines);
    let mv = margin_vert as int;
    let n = lines.len() as int;
    assert forall|k: int| 0 <= k < rows.len() implies #[trigger] rows[k].len() == w + 2 by {
        if 1 + mv <= k < 1 + mv + n {
            assert(rows[k] == content_row(lines[k - 1 - mv], w));
        } else if k == 0 {
            assert(rows[k] == top_border(w));
        } else if k == rows.len() - 1 {
            assert(rows[k] == bottom_border(w));
        } else {
            assert(rows[k] == blank_row(w));
        }
    }
}

/// A single line of length `L` in a box of inner width `W` gets `W - L` spaces
/// of padding in all, of which `(W - L) / 2` stand on its left.
pub proof fn lemma_single_line_centred(line: Seq<char>, margin_side: nat, margin_vert: nat)
    ensures
        ({
            let w = box_width(seq![line], margin_side);
            let row = frame(seq![line], w, margin_vert)[1 + margin_vert as int];
            let left = left_padding(w, line.len());
            let right = right_padding(w, line.len());
            &&& row == seq!['┃'] + repeated(' ', left) + line + repeated(' ', right) + seq!['┃']
            &&& left + right == w - line.len()
            &&& left == (w - line.len()) / 2
        }),
{
    let lines = seq![line];
    let w = box_width(lines, margin_side);
    lemma_longest_bounds(lines);
    assert(lines[0] == line);
    assert(frame(lines, w, margin_vert)[1 + margin_vert as int] == content_row(line, w));
}

/// Writes each row after a move of the cursor to column `x` and row `y + i`.
pub fn paint(rows: &Vec<Vec<char>>, x: u16, y: u16) -> (r: String)
    requires
        y + rows.len() <= u16::MAX + 1,
    ensures
        r@ == painted(views(rows@), x as nat, y as nat),
{
    let mut out = String::new();
    let mut i: usize = 0;
    while i < rows.len()
        invariant
            i <= rows.len(),
            y + rows.len() <= u16::MAX + 1,
            out@ == painted(views(rows@.subrange(0, i as int)), x as nat, y as nat),
        decreases rows.len() - i,
    {
        let row_y: u16 = (y as usize + i) as u16;
        let cursor = goto(x, row_y);
        let text = string_of(&rows[i]);
        out.append(cursor.as_str());
        out.append(text.as_str());
        assert(views(rows@.subrange(0, i + 1)).drop_last() =~= views(rows@.subrange(0, i as int)));
        i += 1;
    }
    assert(rows@.subrange(0, rows.len() as int) =~= rows@);
    out
}

/// The box around `lines` centred on `position`, with `margin_side` blank
/// columns left and right of the widest line and `margin_vert` blank rows
/// above and below; `None` where the box does not fit the screen coordinates.
pub fn framed(
    lines: &Vec<Vec<char>>,
    position: (u16, u16),
    margin_side: usize,
    margin_vert: usize,
) -> (r: Option<String>)
    ensures
        box_fits(views(lines@), position.0 as nat, position.1 as nat, margin_side as nat, margin_vert as nat)
            ==> (r matches Some(s) && s@ == boxed(views(lines@), position.0 as nat, position.1 as nat, margin_side as nat, margin_vert as nat)),
        !box_fits(views(lines@), position.0 as nat, position.1 as nat, margin_side as nat, margin_vert as nat)
            ==> r is None,
{
    let longest_line = longest_line(lines);
    // A box wider or taller than this has a half size beyond every `u16`
    // position, so it cannot fit; below it the sums that follow cannot overflow.
    if longest_line > LARGEST_SPAN || margin_side > LARGEST_SPAN || lines.len() > LARGEST_SPAN
        || margin_vert > LARGEST_SPAN {
        return None;
    }
    let width = longest_line + margin_side * 2;
    let height = lines.len() + margin_vert * 2;
    if width / 2 > position.0 as usize || height / 2 > position.1 as usize {
        return None;
    }
    let left = position.0 as usize - width / 2;
    let top = position.1 as usize - height / 2;
    if top + height + 1 > u16::MAX as usize {
        return None;
    }
    let rows = frame_rows(lines, width, margin_vert);
    assert(views(rows@).len() == rows@.len());
    assert(frame(views(lines@), width as nat, margin_vert as nat).len() == height + 2);
    Some(paint(&rows, left as u16, top as u16))
}

/// The box around the lines of `input` (cut at each newline), centred on
/// `position`; `None` where it does not fit the screen coordinates.
pub fn text_box(input: &str, position: (u16, u16), margin_side: usize, margin_vert: usize) -> (r:
    Option<String>)
    ensures
        box_fits(lines_of(input@), position.0 as nat, position.1 as nat, margin_side as nat, margin_vert as nat)
            ==> (r matches Some(s) && s@ == boxed(lines_of(input@), position.0 as nat, position.1 as nat, margin_side as nat, margin_vert as nat)),
        !box_fits(lines_of(input@), position.0 as nat, position.1 as nat, margin_side as nat, margin_vert as nat)
            ==> r is None,
{
    let text = chars_of(input);
    let lines = split_lines(&text);
    framed(&lines, position, margin_side, margin_vert)
}

/// The lines of `text`, the first one at `position` and each next one a row
/// lower; `None` where the last row would pass the largest `u16` row.
pub fn draw_box(text: &str, position: (u16, u16)) -> (r: Option<String>)
    ensures
        position.1 + lines_of(text@).len() <= u16::MAX + 1 ==> (r matches Some(s) && s@ == painted(lines_of(text@), position.0 as nat, position.1 as nat)),
        position.1 + lines_of(text@).len() > u16::MAX + 1 ==> r is None,
{
    let chars = chars_of(text);
    let lines = split_lines(&chars);
    if lines.len() > u16::MAX as usize + 1 - position.1 as usize {
        return None;
    }
    Some(paint(&lines, position.0, position.1))
}

} // verus!
