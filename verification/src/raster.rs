//! Drawing into the frame buffer of the renderers and writing it out as a
//! binary pixmap.
//!
//! The frame buffer holds one packed pixel for each point of the window,
//! row after row.

use vstd::prelude::*;
use crate::color::get_color_from_map_value;
use crate::color::map_color;
use crate::color::unpack_color;
use crate::color::unpacked;

verus! {

/// Width of the window in pixels.
pub const WIN_W: usize = 1024;

/// Height of the window in pixels.
pub const WIN_H: usize = 512;

/// Width of the map in cells.
pub const MAP_W: usize = 16;

/// Height of the map in cells.
pub const MAP_H: usize = 16;

/// Width of a map cell in pixels: the map takes the left half of the
/// window.
pub const RECT_W: usize = 32;

/// Height of a map cell in pixels.
pub const RECT_H: usize = 32;

/// The map value of an empty cell: a blank.
pub const EMPTY_CELL: u8 = 32;

/// Whether the point `(px, py)` lies in the rectangle of width `w` and
/// height `h` whose upper left corner is `(x, y)`.
pub open spec fn in_rect(px: int, py: int, x: int, y: int, w: int, h: int) -> bool {
    x <= px < x + w && y <= py < y + h
}

/// Whether the buffer index `i` is a point of the window inside the
/// rectangle.
pub open spec fn covered(i: int, x: int, y: int, w: int, h: int) -> bool {
    0 <= i < WIN_W * WIN_H && in_rect(i % (WIN_W as int), i / (WIN_W as int), x, y, w, h)
}

/// Fills the part of the rectangle that lies inside the window with
/// `color`. Every other pixel keeps its value.
pub fn fill_rect(buffer: &mut [u32], x: usize, y: usize, w: usize, h: usize, color: u32)
    requires
        old(buffer).len() >= WIN_W * WIN_H,
    ensures
        final(buffer).len() == old(buffer).len(),
        forall|i: int|
            0 <= i < final(buffer).len() ==> #[trigger] final(buffer)@[i] == if covered(
                i,
                x as int,
                y as int,
                w as int,
                h as int,
            ) {
                color
            } else {
                old(buffer)@[i]
            },
{
    if x >= WIN_W || y >= WIN_H {
        return ;
    }
    let x_end: usize = if w > WIN_W - x { WIN_W } else { x + w };
    let y_end: usize = if h > WIN_H - y { WIN_H } else { y + h };
    let mut cy: usize = y;
    while cy < y_end
        invariant
            x < WIN_W,
            y <= cy <= y_end <= WIN_H,
            x <= x_end <= WIN_W,
            x_end == if x + w < WIN_W { x + w } else { WIN_W as int },
            y_end == if y + h < WIN_H { y + h } else { WIN_H as int },
            buffer.len() == old(buffer).len(),
            buffer.len() >= WIN_W * WIN_H,
            forall|i: int|
                0 <= i < buffer.len() ==> #[trigger] buffer@[i] == if covered(
                    i,
                    x as int,
                    y as int,
                    w as int,
                    cy - y,
                ) {
                    color
                } else {
                    old(buffer)@[i]
                },
        decreases y_end - cy,
    {
        let mut cx: usize = x;
        while cx < x_end
            invariant
                x < WIN_W,
                y <= cy < y_end <= WIN_H,
                x <= cx <= x_end <= WIN_W,
                x_end == if x + w < WIN_W { x + w } else { WIN_W as int },
                buffer.len() == old(buffer).len(),
                buffer.len() >= WIN_W * WIN_H,
                forall|i: int|
                    0 <= i < buffer.len() ==> #[trigger] buffer@[i] == if covered(
                        i,
                        x as int,
                        y as int,
                        w as int,
                        cy - y,
                    ) || (i / (WIN_W as int) == cy && x <= i % (WIN_W as int) < cx) {
                        color
                    } else {
                        old(buffer)@[i]
                    },
            decreases x_end - cx,
        {
            let at: usize = cx + cy * WIN_W;
            assert(at % WIN_W == cx && at / WIN_W == cy);
            buffer[at] = color;
            cx = cx + 1;
        }
        cy = cy + 1;
    }
}

/// The column of map cells that the buffer index `i` lies in.
pub open spec fn cell_column(i: int) -> int {
    i % (WIN_W as int) / (RECT_W as int)
}

/// The row of map cells that the buffer index `i` lies in.
pub open spec fn cell_row(i: int) -> int {
    i / (WIN_W as int) / (RECT_H as int)
}

/// Whether the buffer index `i` is a point of the window that the map
/// covers.
pub open spec fn on_map(i: int) -> bool {
    0 <= i < WIN_W * WIN_H && cell_column(i) < MAP_W && cell_row(i) < MAP_H
}

/// The map value of the cell that the buffer index `i` lies in.
pub open spec fn cell_at(map: Seq<u8>, i: int) -> u8 {
    map[cell_column(i) + MAP_W * cell_row(i)]
}

/// The pixel at buffer index `i` once the map is drawn over a pixel that
/// was `before`: the colour of its cell, or `before` where the cell is
/// empty or the map does not reach.
pub open spec fn map_pixel(map: Seq<u8>, before: u32, i: int) -> u32 {
    if on_map(i) && cell_at(map, i) != EMPTY_CELL {
        map_color(cell_at(map, i))
    } else {
        before
    }
}

/// Draws the map into the left half of the frame buffer, one filled
/// rectangle for each cell that is not empty. `map` holds the cells row
/// after row.
pub fn draw_map(buffer: &mut [u32], map: &[u8])
    requires
        old(buffer).len() >= WIN_W * WIN_H,
        map.len() >= MAP_W * MAP_H,
    ensures
        final(buffer).len() == old(buffer).len(),
        forall|i: int|
            0 <= i < final(buffer).len() ==> #[trigger] final(buffer)@[i] == map_pixel(
                map@,
                old(buffer)@[i],
                i,
            ),
{
    let mut j: usize = 0;
    while j < MAP_H
        invariant
            j <= MAP_H,
            map.len() >= MAP_W * MAP_H,
            buffer.len() == old(buffer).len(),
            buffer.len() >= WIN_W * WIN_H,
            forall|i: int|
                0 <= i < buffer.len() ==> #[trigger] buffer@[i] == if cell_row(i) < j {
                    map_pixel(map@, old(buffer)@[i], i)
                } else {
                    old(buffer)@[i]
                },
        decreases MAP_H - j,
    {
        let mut i: usize = 0;
        while i < MAP_W
            invariant
                j < MAP_H,
                i <= MAP_W,
                map.len() >= MAP_W * MAP_H,
                buffer.len() == old(buffer).len(),
                buffer.len() >= WIN_W * WIN_H,
                forall|k: int|
                    0 <= k < buffer.len() ==> #[trigger] buffer@[k] == if cell_row(k) < j || (
                    cell_row(k) == j && cell_column(k) < i) {
                        map_pixel(map@, old(buffer)@[k], k)
                    } else {
                        old(buffer)@[k]
                    },
            decreases MAP_W - i,
        {
            let cell: u8 = map[i + MAP_W * j];
            if cell != EMPTY_CELL {
                let color = get_color_from_map_value(cell);
                fill_rect(buffer, i * RECT_W, j * RECT_H, RECT_W, RECT_H, color);
                assert forall|k: int| 0 <= k < buffer.len() implies (covered(
                    k,
                    i * RECT_W,
                    j * RECT_H,
                    RECT_W as int,
                    RECT_H as int,
                ) <==> k < WIN_W * WIN_H && cell_row(k) == j && cell_column(k) == i) by {}
            }
            i = i + 1;
        }
        j = j + 1;
    }
}

/// The header of a binary pixmap of the window's size with 255 as the
/// largest channel value: the two characters that mark a binary pixmap,
/// the width and the height in decimal, and `255`, each ended by a line
/// feed.
pub open spec fn ppm_header() -> Seq<u8> {
    seq![
        80u8, 54u8, 10u8, 49u8, 48u8, 50u8, 52u8, 32u8, 53u8, 49u8, 50u8, 10u8, 50u8, 53u8, 53u8,
        10u8,
    ]
}

/// Red, green and blue of each pixel, pixel after pixel.
pub open spec fn rgb_bytes(pixels: Seq<u32>) -> Seq<u8> {
    Seq::new(
        3 * pixels.len(),
        |k: int|
            {
                let channels = unpacked(pixels[k / 3]);
                if k % 3 == 0 {
                    channels.0
                } else if k % 3 == 1 {
                    channels.1
                } else {
                    channels.2
                }
            },
    )
}

/// The frame buffer as a binary pixmap: the header, then red, green and
/// blue of every pixel of the window. Alpha is left out.
pub fn ppm_image(buffer: &[u32]) -> (file: Vec<u8>)
    requires
        buffer.len() >= WIN_W * WIN_H,
    ensures
        file@ == ppm_header() + rgb_bytes(buffer@.take((WIN_W * WIN_H) as int)),
{
    let mut file: Vec<u8> = vec![
        80u8, 54u8, 10u8, 49u8, 48u8, 50u8, 52u8, 32u8, 53u8, 49u8, 50u8, 10u8, 50u8, 53u8, 53u8,
        10u8,
    ];
    assert(file@ =~= ppm_header());
    let n: usize = WIN_W * WIN_H;
    let mut i: usize = 0;
    while i < n
        invariant
            n == WIN_W * WIN_H,
            i <= n <= buffer.len(),
            file@ == ppm_header() + rgb_bytes(buffer@.take(i as int)),
        decreases n - i,
    {
        let (r, g, b, _) = unpack_color(&buffer[i]);
        file.push(r);
        file.push(g);
        file.push(b);
        proof {
            let before = rgb_bytes(buffer@.take(i as int));
            let after = rgb_bytes(buffer@.take(i + 1));
            assert forall|k: int| 0 <= k < after.len() implies after[k] == (before + seq![
                r,
                g,
                b,
            ])[k] by {
                if k < 3 * i {
                    assert(buffer@.take(i + 1)[k / 3] == buffer@.take(i as int)[k / 3]);
                } else {
                    assert(k / 3 == i);
                }
            }
            assert(after =~= before + seq![r, g, b]);
            assert(file@ =~= ppm_header() + after);
        }
        i = i + 1;
    }
    file
}

} // verus!
