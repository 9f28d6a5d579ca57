//! Where things go on the screen: the rectangle of a prompt laid over the
//! middle of an area, and the text and place of a list's position mark.

use vstd::prelude::*;

use vstd::string::StrSliceExecFns;

use crate::text::{decimal, spec_decimal};

verus! {

/// A rectangle of terminal cells.
#[derive(Clone, Copy, Debug, PartialEq, Eq, Structural)]
pub struct Rect {
    pub x: u16,
    pub y: u16,
    pub width: u16,
    pub height: u16,
}

impl Rect {
    /// The rectangle spans no more cells than the greatest `u16`, as every
    /// rectangle that the terminal library makes.
    pub open spec fn wf(self) -> bool {
        self.width * self.height <= u16::MAX
    }

    /// The column after the last one.
    pub open spec fn right(self) -> int {
        self.x + self.width
    }

    /// The row after the last one.
    pub open spec fn bottom(self) -> int {
        self.y + self.height
    }

    /// The smallest rectangle that holds both `self` and `other`.
    pub open spec fn spec_union(self, other: Rect) -> Rect {
        let x = if self.x <= other.x { self.x } else { other.x };
        let y = if self.y <= other.y { self.y } else { other.y };
        let right = if self.right() >= other.right() { self.right() } else { other.right() };
        let bottom = if self.bottom() >= other.bottom() { self.bottom() } else { other.bottom() };
        Rect { x, y, width: (right - x) as u16, height: (bottom - y) as u16 }
    }
}

/// Calls `tui::layout::Rect::new`, which makes the rectangle as asked for
/// where it spans no more cells than the greatest `u16`. Wider and higher
/// ones it would cut down: they are left out here.
#[verifier::external_body]
fn new_rect(x: u16, y: u16, width: u16, height: u16) -> (rect: Rect)
    requires
        width * height <= u16::MAX,
    ensures
        rect == (Rect { x, y, width, height }),
{
    let made = tui::layout::Rect::new(x, y, width, height);
    Rect { x: made.x, y: made.y, width: made.width, height: made.height }
}

/// Calls `tui::layout::Rect::union`, which gives the smallest rectangle
/// that holds both. It adds each rectangle's position and size in `u16`,
/// so neither may reach past the greatest `u16`.
#[verifier::external_body]
fn union_rect(first: Rect, second: Rect) -> (both: Rect)
    requires
        first.right() <= u16::MAX,
        first.bottom() <= u16::MAX,
        second.right() <= u16::MAX,
        second.bottom() <= u16::MAX,
    ensures
        both == first.spec_union(second),
{
    let a = tui::layout::Rect { x: first.x, y: first.y, width: first.width, height: first.height };
    let b = tui::layout::Rect {
        x: second.x,
        y: second.y,
        width: second.width,
        height: second.height,
    };
    let made = a.union(b);
    Rect { x: made.x, y: made.y, width: made.width, height: made.height }
}

/// How many rows an overlay takes of an area `available` rows high: the
/// rows asked for and one for the footer, as far as the area has them.
pub open spec fn overlay_rows(available: u16, height: u16, footer: bool) -> int {
    let wanted = if footer { height + 1 } else { height as int };
    if wanted <= available { wanted } else { available as int }
}

/// How many columns an overlay takes of an area `available` columns wide:
/// seven tenths, rounded down.
pub open spec fn overlay_width(available: u16) -> int {
    70 * available / 100
}

/// The body of an overlay over `area`: seven tenths of its width, centred,
/// and the rows that `overlay_rows` gives less the footer's, around the
/// middle row.
pub open spec fn overlay_body(area: Rect, height: u16, footer: bool) -> Rect {
    let rows = overlay_rows(area.height, height, footer);
    let width = overlay_width(area.width);
    Rect {
        x: ((area.width - width) / 2) as u16,
        y: (area.height / 2 - rows / 2) as u16,
        width: width as u16,
        height: (if footer { rows - 1 } else { rows }) as u16,
    }
}

/// The footer of an overlay with the body `body`: the row under it.
pub open spec fn overlay_footer(body: Rect) -> Rect {
    Rect { x: body.x, y: (body.y + body.height) as u16, width: body.width, height: 1 }
}

/// The rectangles of a prompt laid over `area`: its body, what it covers,
/// and its footer if it has one. The body is seven tenths of the area wide
/// and `height` rows high, as far as the area has them, in the middle; the
/// footer is the row under the body; what is covered is both.
pub fn overlay(area: Rect, height: u16, footer: bool) -> (placed: (Rect, Rect, Option<Rect>))
    requires
        area.wf(),
        70 * area.width <= u16::MAX,
        footer ==> height < u16::MAX && area.height > 0,
    ensures
        placed.0 == overlay_body(area, height, footer),
        placed.2 == (if footer {
            Some(overlay_footer(placed.0))
        } else {
            None
        }),
        placed.1 == (if footer {
            Rect { height: (placed.0.height + 1) as u16, ..placed.0 }
        } else {
            placed.0
        }),
{
    let wanted = if footer { height + 1 } else { height };
    let rows = if wanted <= area.height { wanted } else { area.height };
    let width = 70 * area.width / 100;
    proof {
        assert(width * rows <= area.width * area.height) by (nonlinear_arith)
            requires
                0 <= width <= area.width,
                0 <= rows <= area.height,
        ;
        if footer {
            assert(width * (rows - 1) <= width * rows) by (nonlinear_arith)
                requires
                    0 <= width,
                    rows >= 1,
            ;
        }
    }
    let body = new_rect(
        (area.width - width) / 2,
        area.height / 2 - rows / 2,
        width,
        if footer { rows - 1 } else { rows },
    );
    if footer {
        let under = new_rect(body.x, body.y + body.height, body.width, 1);
        let clear = union_rect(body, under);
        (body, clear, Some(under))
    } else {
        (body, body, None)
    }
}

/// What a list's position mark says: the line, no greater than the count of
/// lines, and that count.
pub open spec fn position_text(position: usize, total: usize) -> Seq<char> {
    spec_decimal(if position <= total { position as nat } else { total as nat }) + " of "@
        + spec_decimal(total as nat)
}

/// Whether the position mark of a list fits into the bottom row of `area`:
/// there are more than five columns beside it.
pub open spec fn position_fits(area: Rect, position: usize, total: usize) -> bool {
    area.width > position_text(position, total).len() + 5
}

/// The text of a list's position mark and its place in the bottom row of
/// `area`, two columns from the right; `None` where the row is too narrow.
pub fn list_position(area: Rect, position: usize, total: usize) -> (mark: Option<(String, Rect)>)
    requires
        position_fits(area, position, total) ==> area.right() <= u16::MAX && 1 <= area.bottom()
            <= u16::MAX,
    ensures
        match mark {
            Some((text, rect)) => {
                &&& position_fits(area, position, total)
                &&& text@ == position_text(position, total)
                &&& rect == (Rect {
                    x: (area.right() - 2 - text@.len()) as u16,
                    y: (area.bottom() - 1) as u16,
                    width: text@.len() as u16,
                    height: 1,
                })
            },
            None => !position_fits(area, position, total),
        },
{
    let shown = if position <= total { position } else { total };
    let mut text = decimal(shown);
    text.push_str(" of ");
    let count = decimal(total);
    text.push_str(count.as_str());
    let len = text.as_str().unicode_len();
    let available = area.width as usize;
    if len < available && available - len > 5 {
        let width = len as u16;
        let rect = new_rect(area.x + area.width - 2 - width, area.y + area.height - 1, width, 1);
        Some((text, rect))
    } else {
        None
    }
}

/// The key bindings `bindings` in one line: each key, a colon and what the
/// key does, with commas between them.
pub open spec fn bindings_text(bindings: Seq<(&str, &str)>) -> Seq<char>
    decreases bindings.len(),
{
    if bindings.len() == 0 {
        Seq::empty()
    } else {
        let last = bindings.last().0@ + ": "@ + bindings.last().1@;
        if bindings.len() == 1 {
            last
        } else {
            bindings_text(bindings.drop_last()) + ", "@ + last
        }
    }
}

/// The line that tells the key bindings `pairs`: each key, a colon and
/// what the key does, with commas between them.
pub fn bindings(pairs: &Vec<(&str, &str)>) -> (text: String)
    ensures
        text@ == bindings_text(pairs@),
{
    let mut text = String::new();
    let mut i: usize = 0;
    while i < pairs.len()
        invariant
            i <= pairs.len(),
            text@ == bindings_text(pairs@.take(i as int)),
        decreases pairs.len() - i,
    {
        let ghost before = text@;
        if i > 0 {
            text.push_str(", ");
        }
        text.push_str(pairs[i].0);
        text.push_str(": ");
        text.push_str(pairs[i].1);
        proof {
            let taken = pairs@.take(i + 1);
            assert(taken.drop_last() =~= pairs@.take(i as int));
            assert(taken.last() == pairs@[i as int]);
            if i == 0 {
                assert(before + pairs@[0].0@ + ": "@ + pairs@[0].1@ =~= pairs@[0].0@ + ": "@
                    + pairs@[0].1@);
            } else {
                assert(before + ", "@ + pairs@[i as int].0@ + ": "@ + pairs@[i as int].1@
                    =~= before + ", "@ + (pairs@[i as int].0@ + ": "@ + pairs@[i as int].1@));
            }
        }
        i += 1;
    }
    proof {
        assert(pairs@.take(pairs.len() as int) =~= pairs@);
    }
    text
}

} // verus!
