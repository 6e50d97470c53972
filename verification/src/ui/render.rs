//! Drawing the widgets into a screen buffer, each with an exact statement of
//! the cells it writes.

use vstd::prelude::*;

use crate::game::data::Broadcast;
use crate::text::{chars_to_string, clip_pad_chars, sp_clip_pad, sp_texts, str_chars};
use crate::ui::base::{sp_colors, Color, Pos, Render, Status};
use crate::ui::cli::Message;
use crate::ui::screen::{sp_write_row, ScreenBuffer};
use crate::ui::widgets::{InfoSection, MainSection, TabSwitcher};

verus! {

/// Draws a button: the label's characters land at `(x, y)` in the status's
/// colors, and no other cell changes. Drawing on a row that does not exist
/// fails and changes nothing.
pub fn button(buffer: &mut ScreenBuffer, x: Pos, y: Pos, status: Status, text: &str) -> (r:
    Result<(), ()>)
    requires
        old(buffer).wf(),
    ensures
        final(buffer).wf(),
        final(buffer).spec_width() == old(buffer).spec_width(),
        final(buffer).grid().len() == old(buffer).grid().len(),
        final(buffer).cursor == old(buffer).cursor,
        r is Ok <==> (y as int) < old(buffer).grid().len(),
        final(buffer).grid() == (if (y as int) < old(buffer).grid().len() {
            old(buffer).grid().update(
                y as int,
                sp_write_row(
                    old(buffer).grid()[y as int],
                    x as int,
                    u16::MAX as int,
                    sp_colors(status).0,
                    sp_colors(status).1,
                    text@,
                ),
            )
        } else {
            old(buffer).grid()
        }),
{
    let (fg, bg) = status.colors();
    buffer.write_at(x, y, u16::MAX, fg, bg, text)
}

/// Draws one tab header: like a button, the label at `(x, y)` in the
/// status's colors, and nothing else.
pub fn tab_header(buffer: &mut ScreenBuffer, x: Pos, y: Pos, status: Status, label: &str) -> (r:
    Result<(), ()>)
    requires
        old(buffer).wf(),
    ensures
        final(buffer).wf(),
        final(buffer).spec_width() == old(buffer).spec_width(),
        final(buffer).grid().len() == old(buffer).grid().len(),
        final(buffer).cursor == old(buffer).cursor,
        r is Ok <==> (y as int) < old(buffer).grid().len(),
        final(buffer).grid() == (if (y as int) < old(buffer).grid().len() {
            old(buffer).grid().update(
                y as int,
                sp_write_row(
                    old(buffer).grid()[y as int],
                    x as int,
                    u16::MAX as int,
                    sp_colors(status).0,
                    sp_colors(status).1,
                    label@,
                ),
            )
        } else {
            old(buffer).grid()
        }),
{
    let (fg, bg) = status.colors();
    buffer.write_at(x, y, u16::MAX, fg, bg, label)
}

/// What a list shows in place of its items when it has none.
pub open spec fn sp_list_items(items: Seq<Seq<char>>) -> Seq<Seq<char>> {
    if items.len() == 0 {
        seq!["none"@]
    } else {
        items
    }
}

/// The characters of one visible row of a list: the matching item (or the
/// single word `none` when the list is empty) clipped and blank-padded to
/// the width, with a scroll marker in the last column of the first row when
/// entries lie above the window and of the last row when entries lie below
/// it.
pub open spec fn sp_list_row(
    items: Seq<Seq<char>>,
    first: int,
    i: int,
    width: int,
    height: int,
) -> Seq<char> {
    let eff = sp_list_items(items);
    let base = if 0 <= first + i < eff.len() {
        sp_clip_pad(eff[first + i], width)
    } else {
        sp_clip_pad(Seq::empty(), width)
    };
    let up = if i == 0 && first > 0 && width > 0 {
        base.update(width - 1, '↑')
    } else {
        base
    };
    if i == height - 1 && eff.len() - first > height && width > 0 {
        up.update(width - 1, '↓')
    } else {
        up
    }
}

/// Builds the characters of one list row, exactly as `sp_list_row` says.
fn build_list_row(items: &Vec<String>, first: usize, i: usize, width: usize, height: usize) -> (r:
    Vec<char>)
    ensures
        r@ == sp_list_row(sp_texts(items@), first as int, i as int, width as int, height as int),
{
    let src: Vec<char> = if items.len() == 0 {
        if first == 0 && i == 0 {
            str_chars("none")
        } else {
            Vec::new()
        }
    } else {
        if first < items.len() && i < items.len() - first {
            str_chars(items[first + i].as_str())
        } else {
            Vec::new()
        }
    };
    proof {
        let eff = sp_list_items(sp_texts(items@));
        if items@.len() == 0 {
            assert(eff.len() == 1 && eff[0] == "none"@);
        } else {
            assert(forall|m: int| 0 <= m < eff.len() ==> eff[m] == #[trigger] items@[m]@);
        }
    }
    let mut row = clip_pad_chars(&src, width);
    let eff_len: usize = if items.len() == 0 {
        1
    } else {
        items.len()
    };
    if i == 0 && first > 0 && width > 0 {
        let e = &mut row[width - 1];
        *e = '↑';
    }
    if height > 0 && i == height - 1 && eff_len > first && eff_len - first > height && width > 0 {
        let e = &mut row[width - 1];
        *e = '↓';
    }
    proof {
        assert(row@ =~= sp_list_row(
            sp_texts(items@),
            first as int,
            i as int,
            width as int,
            height as int,
        ));
    }
    row
}

/// Draws a scrolling list: each row of the window `[y, y + height)` shows
/// `sp_list_row` of the items from `first` on, in the status's colors; rows
/// outside the window keep their cells. Fails when part of the window lies
/// below the grid; rows that do exist are still drawn.
pub fn list(
    buffer: &mut ScreenBuffer,
    x: Pos,
    y: Pos,
    status: Status,
    width: Pos,
    height: Pos,
    first: usize,
    items: &Vec<String>,
) -> (r: Result<(), ()>)
    requires
        old(buffer).wf(),
        x + width <= u16::MAX,
        y + height <= u16::MAX,
    ensures
        final(buffer).wf(),
        final(buffer).spec_width() == old(buffer).spec_width(),
        final(buffer).grid().len() == old(buffer).grid().len(),
        final(buffer).cursor == old(buffer).cursor,
        r is Ok <==> (y as int) + (height as int) <= old(buffer).grid().len() || height == 0,
        forall|yy: int|
            0 <= yy < final(buffer).grid().len() ==> #[trigger] final(buffer).grid()[yy] == (
            if y <= yy < y + height {
                sp_write_row(
                    old(buffer).grid()[yy],
                    x as int,
                    (x + width) as int,
                    sp_colors(status).0,
                    sp_colors(status).1,
                    sp_list_row(
                        sp_texts(items@),
                        first as int,
                        yy - y,
                        width as int,
                        height as int,
                    ),
                )
            } else {
                old(buffer).grid()[yy]
            }),
{
    let limit = x + width;
    let (fg, bg) = status.colors();
    let mut i: Pos = 0;
    while i < height
        invariant
            i <= height,
            y + height <= u16::MAX,
            x + width <= u16::MAX,
            limit == x + width,
            fg == sp_colors(status).0,
            bg == sp_colors(status).1,
            buffer.wf(),
            buffer.spec_width() == old(buffer).spec_width(),
            buffer.grid().len() == old(buffer).grid().len(),
            buffer.cursor == old(buffer).cursor,
            forall|yy: int|
                0 <= yy < buffer.grid().len() ==> #[trigger] buffer.grid()[yy] == (
                if y <= yy < y + i {
                    sp_write_row(
                        old(buffer).grid()[yy],
                        x as int,
                        (x + width) as int,
                        sp_colors(status).0,
                        sp_colors(status).1,
                        sp_list_row(
                            sp_texts(items@),
                            first as int,
                            yy - y,
                            width as int,
                            height as int,
                        ),
                    )
                } else {
                    old(buffer).grid()[yy]
                }),
        decreases height - i,
    {
        let row = build_list_row(items, first, i as usize, width as usize, height as usize);
        let row_text = chars_to_string(row);
        let ghost prev = buffer.grid();
        let _ = buffer.write_at(x, y + i, limit, fg, bg, row_text.as_str());
        proof {
            assert(row_text@ == sp_list_row(
                sp_texts(items@),
                first as int,
                i as int,
                width as int,
                height as int,
            ));
            assert forall|yy: int|
                0 <= yy < buffer.grid().len() implies #[trigger] buffer.grid()[yy] == (
            if y <= yy < y + i + 1 {
                sp_write_row(
                    old(buffer).grid()[yy],
                    x as int,
                    (x + width) as int,
                    sp_colors(status).0,
                    sp_colors(status).1,
                    sp_list_row(
                        sp_texts(items@),
                        first as int,
                        yy - y,
                        width as int,
                        height as int,
                    ),
                )
            } else {
                old(buffer).grid()[yy]
            }) by {
                if yy == y + i {
                    assert(prev[yy] == old(buffer).grid()[yy]);
                    assert(fg == sp_colors(status).0 && bg == sp_colors(status).1);
                    assert(((y + i) as int) < prev.len());
                    assert(buffer.grid() == prev.update(
                        (y + i) as int,
                        sp_write_row(
                            prev[(y + i) as int],
                            x as int,
                            limit as int,
                            fg,
                            bg,
                            row_text@,
                        ),
                    ));
                    assert(buffer.grid()[yy] == sp_write_row(
                        prev[(y + i) as int],
                        x as int,
                        limit as int,
                        sp_colors(status).0,
                        sp_colors(status).1,
                        row_text@,
                    ));
                } else {
                    assert(buffer.grid()[yy] == prev[yy]);
                }
            }
        }
        i += 1;
    }
    let ok = height == 0 || (y as usize) + (height as usize) <= buffer.rows.len();
    proof {
        assert(buffer.grid().len() == buffer.rows@.len());
    }
    if ok {
        Ok(())
    } else {
        Err(())
    }
}

/// Draws a text field: its text clipped and blank-padded to the width at
/// `(x, y)` in the status's colors, nothing else; when the field is active
/// the cursor wish is set one cell past the text, otherwise it is cleared.
/// Fails when the row does not exist (the cursor wish is still set).
pub fn text_field(
    buffer: &mut ScreenBuffer,
    x: Pos,
    y: Pos,
    status: Status,
    width: Pos,
    text: &str,
) -> (r: Result<(), ()>)
    requires
        old(buffer).wf(),
        x + width <= u16::MAX,
        y < u16::MAX,
    ensures
        final(buffer).wf(),
        final(buffer).spec_width() == old(buffer).spec_width(),
        final(buffer).grid().len() == old(buffer).grid().len(),
        r is Ok <==> (y as int) < old(buffer).grid().len(),
        final(buffer).grid() == (if (y as int) < old(buffer).grid().len() {
            old(buffer).grid().update(
                y as int,
                sp_write_row(
                    old(buffer).grid()[y as int],
                    x as int,
                    (x + width) as int,
                    sp_colors(status).0,
                    sp_colors(status).1,
                    sp_clip_pad(text@, width as int),
                ),
            )
        } else {
            old(buffer).grid()
        }),
        final(buffer).cursor == (if status is Active {
            Some(
                (
                    (if text@.len() <= u16::MAX - 1 - x {
                        (x + 1 + text@.len()) as Pos
                    } else {
                        u16::MAX as Pos
                    }),
                    (y + 1) as Pos,
                ),
            )
        } else {
            None::<(Pos, Pos)>
        }),
{
    let limit = x + width;
    let (fg, bg) = status.colors();
    let chars = str_chars(text);
    let padded = clip_pad_chars(&chars, width as usize);
    let row_text = chars_to_string(padded);
    let wrote = buffer.write_at(x, y, limit, fg, bg, row_text.as_str());
    if matches!(status, Status::Active) {
        let n = chars.len();
        let cx: u16 = if n <= (u16::MAX as usize) && (x as usize) + 1 + n <= (u16::MAX as usize) {
            ((x as usize) + 1 + n) as u16
        } else {
            u16::MAX
        };
        buffer.set_cursor_hint(Some((cx, y + 1)));
    } else {
        buffer.set_cursor_hint(None);
    }
    wrote
}

/// What the main section needs to draw itself.
pub struct MainSectionArgs {
    pub broadcasts: Vec<Broadcast>,
}

impl Render for InfoSection {
    type Args = Message;

    fn render(&self, b: &mut ScreenBuffer, x: Pos, y: Pos, args: &Message) -> Result<(), ()> {
        match args {
            Message::Notice(s) => {
                let _ = b.write_at(x, y, u16::MAX, Color::Green, Color::Black, s.as_str());
            },
            Message::Error(s) => {
                let _ = b.write_at(x, y, u16::MAX, Color::Red, Color::Black, s.as_str());
            },
            Message::Silent => {},
        }
        Ok(())
    }
}

impl Render for MainSection {
    type Args = MainSectionArgs;

    fn render(&self, b: &mut ScreenBuffer, x: Pos, y: Pos, args: &MainSectionArgs) -> Result<
        (),
        (),
    > {
        let n = args.broadcasts.len();
        let mut rows: Vec<String> = Vec::new();
        let mut k: usize = 0;
        while k < n
            invariant
                k <= n,
                n == args.broadcasts@.len(),
            decreases n - k,
        {
            let bc = &args.broadcasts[k];
            let mut row = crate::text::u64_to_dec(bc.sender);
            let mut sep = crate::text::str_chars(": ");
            row.append(&mut sep);
            let mut msg = crate::text::str_chars(bc.message.as_str());
            row.append(&mut msg);
            rows.push(chars_to_string(row));
            k += 1;
        }
        let mut j: usize = 0;
        while j < rows.len()
            invariant
                b.wf(),
            decreases rows@.len() - j,
        {
            if j <= (u16::MAX as usize) && (y as usize) + 1 + j <= (u16::MAX as usize) {
                let _ = b.write_at(
                    x,
                    (y as usize + 1 + j) as u16,
                    u16::MAX,
                    Color::White,
                    Color::Black,
                    rows[j].as_str(),
                );
            }
            j += 1;
        }
        Ok(())
    }
}

impl Render for TabSwitcher {
    type Args = ();

    fn render(&self, b: &mut ScreenBuffer, x: Pos, y: Pos, _args: &()) -> Result<(), ()> {
        let w = b.width();
        let mut xx = x;
        while xx < w
            decreases w - xx,
        {
            if y < u16::MAX {
                let _ = b.set(
                    xx,
                    y + 1,
                    crate::ui::screen::Cell { c: '-', fg: Color::White, bg: Color::Black },
                );
            }
            if xx == u16::MAX {
                break ;
            }
            xx += 1;
        }
        Ok(())
    }
}

} // verus!
