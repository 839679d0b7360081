//! Pixel layout of the board for a graphical front end: tile sizes, piece
//! discs and RGBA frame buffers.
use vstd::prelude::*;

use crate::board::{lemma_cell_index, Board};
use crate::color::{hsva_to_rgba, rgba_of};
use crate::game::Game;

verus! {

/// Radius of a piece's disc in a tile `grid_size` pixels wide: three tenths
/// of the tile, rounded down.
pub open spec fn piece_radius(grid_size: int) -> int {
    grid_size * 6 / 10 / 2
}

pub fn calc_piece_radius(grid_size: u32) -> (r: u32)
    ensures
        r == piece_radius(grid_size as int),
{
    (grid_size as u64 * 6 / 10 / 2) as u32
}

/// Tile size and the left and top borders that centre a board of
/// `board_width` × `board_height` tiles, plus one row above it for the piece
/// about to drop, in a window of `size_width` × `size_height` pixels.
pub open spec fn grid_constants(board_width: int, board_height: int, size_width: int, size_height: int) -> (int, int, int) {
    let rows = board_height + 1;
    let tile_w = size_width / board_width;
    let tile_h = size_height / rows;
    let grid = if tile_w < tile_h {
        tile_w
    } else {
        tile_h
    };
    (grid, (size_width - board_width * grid) / 2, (size_height - rows * grid) / 2)
}

pub fn calc_grid_constants(board_width: u32, board_height: u32, size_width: u32, size_height: u32) -> (r: (u32, u32, u32))
    requires
        board_width > 0,
        board_height < u32::MAX,
    ensures
        r.0 as int == grid_constants(board_width as int, board_height as int, size_width as int, size_height as int).0,
        r.1 as int == grid_constants(board_width as int, board_height as int, size_width as int, size_height as int).1,
        r.2 as int == grid_constants(board_width as int, board_height as int, size_width as int, size_height as int).2,
{
    let rows = board_height + 1;
    let tile_w = size_width / board_width;
    let tile_h = size_height / rows;
    let grid = if tile_w < tile_h {
        tile_w
    } else {
        tile_h
    };
    proof {
        assert(board_width * grid <= size_width) by (nonlinear_arith)
            requires
                grid <= size_width / board_width,
                board_width > 0,
        ;
        assert(rows * grid <= size_height) by (nonlinear_arith)
            requires
                grid <= size_height / rows,
                rows > 0,
        ;
    }
    (grid, (size_width - board_width * grid) / 2, (size_height - rows * grid) / 2)
}

/// What tile pixel (px, py) shows: the outline colour `fg` outside the
/// piece's disc, the player's colour inside it, or nothing (left as it was)
/// inside the disc of an empty cell.
pub open spec fn tile_paint(px: int, py: int, grid_size: int, player: Option<[u8; 4]>, fg: [u8; 4]) -> Option<[u8; 4]> {
    let c = grid_size / 2;
    let r = piece_radius(grid_size);
    if (c - px) * (c - px) + (c - py) * (c - py) > r * r {
        Some(fg)
    } else {
        player
    }
}

/// Byte `i` of an RGBA frame `bw` pixels wide, which held `before`, once the
/// tile of side `gs` with its top-left corner at pixel (xo, yo) is painted.
pub open spec fn painted_byte(before: u8, i: int, bw: int, xo: int, yo: int, gs: int, player: Option<[u8; 4]>, fg: [u8; 4]) -> u8 {
    let q = i / 4;
    let px = q % bw - xo;
    let py = q / bw - yo;
    if 0 <= px < gs && 0 <= py < gs {
        match tile_paint(px, py, gs, player, fg) {
            Some(c) => c@[i % 4],
            None => before,
        }
    } else {
        before
    }
}

/// Byte `i` of a frame `bw` pixels wide belongs to pixel (x, y), channel `ch`
/// exactly when `i == (bw * y + x) * 4 + ch`.
proof fn lemma_pixel_index(bw: int, x: int, y: int, ch: int)
    requires
        0 <= x < bw,
        0 <= y,
        0 <= ch < 4,
    ensures
        ((bw * y + x) * 4 + ch) / 4 == bw * y + x,
        ((bw * y + x) * 4 + ch) % 4 == ch,
        (bw * y + x) % bw == x,
        (bw * y + x) / bw == y,
{
    vstd::arithmetic::div_mod::lemma_fundamental_div_mod_converse((bw * y + x) * 4 + ch, 4, bw * y + x, ch);
    vstd::arithmetic::div_mod::lemma_fundamental_div_mod_converse(bw * y + x, bw, y, x);
}

/// A square of a value within 2^32 of zero stays within 2^64.
proof fn lemma_square_bound(d: int)
    requires
        -0x1_0000_0000 <= d <= 0x1_0000_0000,
    ensures
        0 <= d * d <= 0x1_0000_0000_0000_0000,
{
    assert(0 <= d * d <= 0x1_0000_0000_0000_0000) by (nonlinear_arith)
        requires
            -0x1_0000_0000 <= d <= 0x1_0000_0000,
    ;
}

/// A byte's pixel and channel give back the byte.
proof fn lemma_pixel_of_byte(bw: int, i: int)
    requires
        bw > 0,
        i >= 0,
    ensures
        i == (bw * ((i / 4) / bw) + (i / 4) % bw) * 4 + i % 4,
{
    vstd::arithmetic::div_mod::lemma_fundamental_div_mod(i, 4);
    vstd::arithmetic::div_mod::lemma_fundamental_div_mod(i / 4, bw);
}

/// Paints the tile of side `grid_size` whose top-left corner is pixel
/// (`x_offset`, `y_offset`) of an RGBA frame `buffer_width` pixels wide: the
/// outline in `foreground_color`, the disc in the player's colour, and the
/// disc of an empty cell left untouched.
pub fn create_cell(
    buffer: &mut Vec<u8>,
    player_color: Option<[u8; 4]>,
    foreground_color: [u8; 4],
    x_offset: u32,
    y_offset: u32,
    grid_size: u32,
    buffer_width: usize,
)
    requires
        x_offset + grid_size <= buffer_width,
        (y_offset + grid_size) * buffer_width * 4 <= old(buffer)@.len(),
    ensures
        final(buffer)@.len() == old(buffer)@.len(),
        forall|i: int|
            0 <= i < old(buffer)@.len() ==> #[trigger] final(buffer)@[i] == painted_byte(
                old(buffer)@[i],
                i,
                buffer_width as int,
                x_offset as int,
                y_offset as int,
                grid_size as int,
                player_color,
                foreground_color,
            ),
{
    let ghost start = buffer@;
    let total = buffer.len();
    let ghost bw = buffer_width as int;
    let ghost xo = x_offset as int;
    let ghost yo = y_offset as int;
    let ghost gs = grid_size as int;
    let center = (grid_size / 2) as i128;
    let radius = calc_piece_radius(grid_size) as i128;
    proof {
        lemma_square_bound(radius as int);
    }
    let radius_square = radius * radius;
    let mut x_pix: u32 = 0;
    while x_pix < grid_size
        invariant
            x_offset + grid_size <= buffer_width,
            (y_offset + grid_size) * buffer_width * 4 <= start.len(),
            total == start.len(),
            bw == buffer_width,
            xo == x_offset,
            yo == y_offset,
            gs == grid_size,
            center == gs / 2,
            radius_square == piece_radius(gs) * piece_radius(gs),
            x_pix <= grid_size,
            buffer@.len() == start.len(),
            forall|i: int|
                0 <= i < start.len() ==> #[trigger] buffer@[i] == if (i / 4) % bw - xo < x_pix {
                    painted_byte(start[i], i, bw, xo, yo, gs, player_color, foreground_color)
                } else {
                    start[i]
                },
        decreases grid_size - x_pix,
    {
        proof {
            lemma_square_bound(center - x_pix);
        }
        let x_dist = (center - x_pix as i128) * (center - x_pix as i128);
        let mut y_pix: u32 = 0;
        while y_pix < grid_size
            invariant
                x_offset + grid_size <= buffer_width,
                (y_offset + grid_size) * buffer_width * 4 <= start.len(),
                total == start.len(),
            total == start.len(),
                bw == buffer_width,
                xo == x_offset,
                yo == y_offset,
                gs == grid_size,
                center == gs / 2,
                radius_square == piece_radius(gs) * piece_radius(gs),
                x_pix < grid_size,
                y_pix <= grid_size,
                x_dist == (center - x_pix) * (center - x_pix),
                buffer@.len() == start.len(),
                forall|i: int|
                    0 <= i < start.len() ==> #[trigger] buffer@[i] == if (i / 4) % bw - xo < x_pix
                        || ((i / 4) % bw - xo == x_pix && (i / 4) / bw - yo < y_pix) {
                        painted_byte(start[i], i, bw, xo, yo, gs, player_color, foreground_color)
                    } else {
                        start[i]
                    },
            decreases grid_size - y_pix,
        {
            proof {
                lemma_square_bound(center - x_pix);
                lemma_square_bound(center - y_pix);
            }
            let y_dist = (center - y_pix as i128) * (center - y_pix as i128);
            let color = if y_dist + x_dist > radius_square {
                Some(foreground_color)
            } else {
                player_color
            };
            proof {
                assert(y_offset + grid_size <= (y_offset + grid_size) * buffer_width * 4) by (nonlinear_arith)
                    requires
                        buffer_width >= 1,
                ;
            }
            let x = x_pix as usize + x_offset as usize;
            let y = y_pix as usize + y_offset as usize;
            proof {
                assert(buffer_width * y + x < (y_offset + grid_size) * buffer_width * 4) by (nonlinear_arith)
                    requires
                        x < buffer_width,
                        y < y_offset + grid_size,
                ;
                assert((buffer_width * y + x) * 4 + 3 < (y_offset + grid_size) * buffer_width * 4) by (nonlinear_arith)
                    requires
                        x < buffer_width,
                        y < y_offset + grid_size,
                ;
                lemma_pixel_index(bw, x as int, y as int, 0);
                lemma_pixel_index(bw, x as int, y as int, 1);
                lemma_pixel_index(bw, x as int, y as int, 2);
                lemma_pixel_index(bw, x as int, y as int, 3);
            }
            let index = (buffer_width * y + x) * 4;
            let ghost before = buffer@;
            match color {
                Some(c) => {
                    buffer.set(index, c[0]);
                    buffer.set(index + 1, c[1]);
                    buffer.set(index + 2, c[2]);
                    buffer.set(index + 3, c[3]);
                },
                None => {},
            }
            proof {
                assert forall|i: int| 0 <= i < start.len() implies #[trigger] buffer@[i] == if (i / 4)
                    % bw - xo < x_pix || ((i / 4) % bw - xo == x_pix && (i / 4) / bw - yo < y_pix
                    + 1) {
                    painted_byte(start[i], i, bw, xo, yo, gs, player_color, foreground_color)
                } else {
                    start[i]
                } by {
                    lemma_pixel_of_byte(bw, i);
                    if (i / 4) % bw == x && (i / 4) / bw == y {
                        assert(i == index + i % 4);
                        assert(tile_paint(x_pix as int, y_pix as int, gs, player_color, foreground_color) == color);
                    } else {
                        assert(buffer@[i] == before[i]);
                    }
                }
            }
            y_pix += 1;
        }
        x_pix += 1;
    }
}

/// Colour of the window behind the board.
pub const BACKGROUND_COLOR: [u8; 4] = [200, 200, 200, 255];

/// Colour of the board around the discs.
pub const FOREGROUND_COLOR: [u8; 4] = [20, 20, 200, 255];

/// Colour of the board around the discs of the column under the pointer.
pub const FOREGROUND_HIGHLIGHT_COLOR: [u8; 4] = [80, 120, 255, 255];

/// What the disc of a cell with this occupant shows: nothing when empty, the
/// player's colour otherwise.
pub open spec fn disc_color(occupant: u32, colors: Seq<[u8; 4]>) -> Option<[u8; 4]> {
    if occupant == 0 {
        None
    } else {
        Some(colors[occupant - 1])
    }
}

/// Byte `i` of a frame `sw` pixels wide sits in column `col` of the board
/// drawn with tiles of side `grid`, its left border `bw` and top border `bh`
/// (the row of tiles under the top border is left for the piece in hand).
pub open spec fn in_column(i: int, sw: int, bw: int, bh: int, grid: int, col: int, rows: int) -> bool {
    let q = i / 4;
    let lx = q % sw - bw - col * grid;
    let a = q / sw - bh - grid;
    0 <= lx < grid && 0 <= a && a / grid < rows
}

/// Byte `i` of a frame `sw` pixels wide, which held `before`, once column
/// `col` of `board` is drawn with outline colour `fg`.
pub open spec fn column_byte(
    before: u8,
    i: int,
    sw: int,
    bw: int,
    bh: int,
    grid: int,
    board: Board,
    col: int,
    colors: Seq<[u8; 4]>,
    fg: [u8; 4],
) -> u8 {
    let q = i / 4;
    let lx = q % sw - bw - col * grid;
    let a = q / sw - bh - grid;
    if in_column(i, sw, bw, bh, grid, col, board.height as int) {
        match tile_paint(lx, a % grid, grid, disc_color(board.occ(col, a / grid), colors), fg) {
            Some(c) => c@[i % 4],
            None => before,
        }
    } else {
        before
    }
}

/// `a` lies in the `y`-th stretch of `g` exactly when `a / g == y`, and
/// then `a % g` is its place in that stretch.
proof fn lemma_stretch(a: int, g: int, y: int)
    requires
        g > 0,
        y >= 0,
    ensures
        (0 <= a - y * g < g) <==> (a >= 0 && a / g == y),
        (0 <= a - y * g < g) ==> a % g == a - y * g,
{
    if 0 <= a - y * g < g {
        assert(a >= 0) by (nonlinear_arith)
            requires
                0 <= a - y * g,
                y >= 0,
                g > 0,
        ;
        vstd::arithmetic::div_mod::lemma_fundamental_div_mod_converse(a, g, y, a - y * g);
    }
    if a >= 0 && a / g == y {
        vstd::arithmetic::div_mod::lemma_fundamental_div_mod(a, g);
        vstd::arithmetic::div_mod::lemma_mod_bound(a, g);
        assert(a == g * y + a % g);
        assert(a - y * g == a % g) by (nonlinear_arith)
            requires
                a == g * y + a % g,
        ;
    }
}

/// Draws the tiles of column `col` of the game's board into an RGBA frame
/// `size_width` pixels wide: outline in `fg`, each disc in its player's
/// colour, empty discs left as they were.
pub fn paint_column(
    buffer: &mut Vec<u8>,
    game: &Game,
    player_colors: &[[u8; 4]],
    col: usize,
    fg: [u8; 4],
    grid_size: u32,
    border_width: u32,
    border_height: u32,
    size_width: u32,
)
    requires
        game.wf(),
        player_colors@.len() >= game.player_count,
        col < game.board.width,
        border_width + (col + 1) * grid_size <= size_width,
        border_height + (game.board.height + 1) * grid_size <= u32::MAX,
        (border_height + (game.board.height + 1) * grid_size) * size_width * 4 <= old(buffer)@.len(),
    ensures
        final(buffer)@.len() == old(buffer)@.len(),
        forall|i: int|
            0 <= i < old(buffer)@.len() ==> #[trigger] final(buffer)@[i] == column_byte(
                old(buffer)@[i],
                i,
                size_width as int,
                border_width as int,
                border_height as int,
                grid_size as int,
                game.board,
                col as int,
                player_colors@,
                fg,
            ),
{
    let ghost start = buffer@;
    let ghost sw = size_width as int;
    let ghost bw = border_width as int;
    let ghost bh = border_height as int;
    let ghost g = grid_size as int;
    let ghost h = game.board.height as int;
    proof {
        assert(col * grid_size + border_width <= size_width) by (nonlinear_arith)
            requires
                border_width + (col + 1) * grid_size <= size_width,
        ;
    }
    let x_offset = (col as u64 * grid_size as u64 + border_width as u64) as u32;
    let mut y: usize = 0;
    while y < game.board.height
        invariant
            game.wf(),
            player_colors@.len() >= game.player_count,
            col < game.board.width,
            border_width + (col + 1) * grid_size <= size_width,
            border_height + (game.board.height + 1) * grid_size <= u32::MAX,
            (border_height + (game.board.height + 1) * grid_size) * size_width * 4 <= start.len(),
            sw == size_width,
            bw == border_width,
            bh == border_height,
            g == grid_size,
            h == game.board.height,
            x_offset == col * grid_size + border_width,
            y <= h,
            buffer@.len() == start.len(),
            forall|i: int|
                0 <= i < start.len() ==> #[trigger] buffer@[i] == if in_column(i, sw, bw, bh, g, col as int, y as int) {
                    column_byte(start[i], i, sw, bw, bh, g, game.board, col as int, player_colors@, fg)
                } else {
                    start[i]
                },
        decreases h - y,
    {
        proof {
            assert((y + 1) * grid_size + border_height <= border_height + (game.board.height + 1) * grid_size) by (nonlinear_arith)
                requires
                    y < game.board.height,
            ;
            assert((border_height + (y + 2) * grid_size) * size_width * 4 <= (border_height + (game.board.height + 1) * grid_size) * size_width * 4) by (nonlinear_arith)
                requires
                    y < game.board.height,
            ;
        }
        let y_offset = ((y as u64 + 1) * grid_size as u64 + border_height as u64) as u32;
        let color = match game.board.get_cell(col, y) {
            Some(c) => if c.occupant == 0 {
                None
            } else {
                proof {
                    lemma_cell_index(game.board.width as int, h, col as int, y as int);
                }
                Some(player_colors[(c.occupant - 1) as usize])
            },
            None => None,
        };
        proof {
            assert(x_offset + grid_size <= size_width) by (nonlinear_arith)
                requires
                    x_offset == col * grid_size + border_width,
                    border_width + (col + 1) * grid_size <= size_width,
            ;
            assert(y_offset + grid_size == border_height + (y + 2) * grid_size) by (nonlinear_arith)
                requires
                    y_offset == (y + 1) * grid_size + border_height,
            ;
        }
        let ghost before = buffer@;
        create_cell(buffer, color, fg, x_offset, y_offset, grid_size, size_width as usize);
        proof {
            assert(color == disc_color(game.board.occ(col as int, y as int), player_colors@));
            assert forall|i: int| 0 <= i < start.len() implies #[trigger] buffer@[i] == if in_column(i, sw, bw, bh, g, col as int, y + 1) {
                column_byte(start[i], i, sw, bw, bh, g, game.board, col as int, player_colors@, fg)
            } else {
                start[i]
            } by {
                let q = i / 4;
                let a = q / sw - bh - g;
                let lx = q % sw - bw - col * g;
                assert(y_offset == y * g + g + bh) by (nonlinear_arith)
                    requires
                        y_offset == (y + 1) * g + bh,
                ;
                assert(q % sw - x_offset == lx);
                assert(q / sw - y_offset == a - y * g);
                assert(buffer@[i] == painted_byte(before[i], i, sw, x_offset as int, y_offset as int, g, color, fg));
                if g > 0 {
                    lemma_stretch(a, g, y as int);
                    if 0 <= lx < g && 0 <= a - y * g < g {
                        assert(in_column(i, sw, bw, bh, g, col as int, y + 1));
                        assert(!in_column(i, sw, bw, bh, g, col as int, y as int));
                        assert(before[i] == start[i]);
                        assert(buffer@[i] == column_byte(start[i], i, sw, bw, bh, g, game.board, col as int, player_colors@, fg));
                    } else {
                        assert(buffer@[i] == before[i]);
                        if a >= 0 && a / g < y + 1 && a / g != y {
                            assert(a / g < y);
                        }
                    }
                } else {
                    assert(!in_column(i, sw, bw, bh, g, col as int, y + 1));
                    assert(buffer@[i] == before[i]);
                }
            }
        }
        y += 1;
    }
}

/// Byte `i` of a frame `sw` pixels wide that shows `board`: the background,
/// with each column of the board drawn over it in `fg`.
pub open spec fn frame_byte(
    i: int,
    sw: int,
    bw: int,
    bh: int,
    grid: int,
    board: Board,
    colors: Seq<[u8; 4]>,
    bg: [u8; 4],
    fg: [u8; 4],
) -> u8 {
    let px = (i / 4) % sw;
    if grid > 0 && px >= bw && (px - bw) / grid < board.width {
        column_byte(bg@[i % 4], i, sw, bw, bh, grid, board, (px - bw) / grid, colors, fg)
    } else {
        bg@[i % 4]
    }
}

/// A frame of `size_width` × `size_height` RGBA pixels showing the game's
/// board, tiles of side `grid_size` placed after the given borders.
pub fn create_background_buffer(
    size_width: u32,
    size_height: u32,
    game: &Game,
    player_colors: &[[u8; 4]],
    grid_size: u32,
    border_width: u32,
    border_height: u32,
) -> (r: Vec<u8>)
    requires
        game.wf(),
        player_colors@.len() >= game.player_count,
        size_width * size_height * 4 <= usize::MAX,
        border_width + game.board.width * grid_size <= size_width,
        border_height + (game.board.height + 1) * grid_size <= size_height,
    ensures
        r@.len() == size_width * size_height * 4,
        forall|i: int|
            0 <= i < r@.len() ==> #[trigger] r@[i] == frame_byte(
                i,
                size_width as int,
                border_width as int,
                border_height as int,
                grid_size as int,
                game.board,
                player_colors@,
                BACKGROUND_COLOR,
                FOREGROUND_COLOR,
            ),
{
    let ghost sw = size_width as int;
    let ghost bw = border_width as int;
    let ghost bh = border_height as int;
    let ghost g = grid_size as int;
    let n: usize = size_width as usize * size_height as usize;
    let mut buffer: Vec<u8> = Vec::with_capacity(n * 4);
    let mut k: usize = 0;
    while k < n
        invariant
            n * 4 <= usize::MAX,
            k <= n,
            buffer@.len() == 4 * k,
            forall|j: int| 0 <= j < 4 * k ==> #[trigger] buffer@[j] == BACKGROUND_COLOR@[j % 4],
        decreases n - k,
    {
        buffer.push(BACKGROUND_COLOR[0]);
        buffer.push(BACKGROUND_COLOR[1]);
        buffer.push(BACKGROUND_COLOR[2]);
        buffer.push(BACKGROUND_COLOR[3]);
        proof {
            assert forall|j: int| 4 * k <= j < 4 * k + 4 implies #[trigger] buffer@[j]
                == BACKGROUND_COLOR@[j % 4] by {
                vstd::arithmetic::div_mod::lemma_fundamental_div_mod_converse(j, 4, k as int, j - 4 * k);
            }
        }
        k += 1;
    }
    proof {
        assert((border_height + (game.board.height + 1) * grid_size) * size_width * 4 <= size_width * size_height * 4) by (nonlinear_arith)
            requires
                border_height + (game.board.height + 1) * grid_size <= size_height,
        ;
    }
    let ghost start = buffer@;
    let mut col: usize = 0;
    while col < game.board.width
        invariant
            game.wf(),
            player_colors@.len() >= game.player_count,
            border_width + game.board.width * grid_size <= size_width,
            border_height + (game.board.height + 1) * grid_size <= size_height,
            (border_height + (game.board.height + 1) * grid_size) * size_width * 4 <= buffer@.len(),
            sw == size_width,
            bw == border_width,
            bh == border_height,
            g == grid_size,
            col <= game.board.width,
            buffer@.len() == size_width * size_height * 4,
            forall|i: int|
                0 <= i < buffer@.len() ==> #[trigger] buffer@[i] == {
                    let px = (i / 4) % sw;
                    if g > 0 && px >= bw && (px - bw) / g < col {
                        column_byte(BACKGROUND_COLOR@[i % 4], i, sw, bw, bh, g, game.board, (px - bw) / g, player_colors@, FOREGROUND_COLOR)
                    } else {
                        BACKGROUND_COLOR@[i % 4]
                    }
                },
        decreases game.board.width - col,
    {
        proof {
            assert(border_width + (col + 1) * grid_size <= size_width) by (nonlinear_arith)
                requires
                    border_width + game.board.width * grid_size <= size_width,
                    col < game.board.width,
            ;
        }
        let ghost before = buffer@;
        paint_column(&mut buffer, game, player_colors, col, FOREGROUND_COLOR, grid_size, border_width, border_height, size_width);
        proof {
            assert forall|i: int| 0 <= i < buffer@.len() implies #[trigger] buffer@[i] == {
                let px = (i / 4) % sw;
                if g > 0 && px >= bw && (px - bw) / g < col + 1 {
                    column_byte(BACKGROUND_COLOR@[i % 4], i, sw, bw, bh, g, game.board, (px - bw) / g, player_colors@, FOREGROUND_COLOR)
                } else {
                    BACKGROUND_COLOR@[i % 4]
                }
            } by {
                let px = (i / 4) % sw;
                if g > 0 {
                    lemma_stretch(px - bw, g, col as int);
                }
                if g > 0 && px >= bw && (px - bw) / g == col {
                } else {
                    assert(!in_column(i, sw, bw, bh, g, col as int, game.board.height as int));
                }
            }
        }
        col += 1;
    }
    buffer
}

/// Redraws columns `old_x` and then `x` of the board in a frame
/// `size_width` pixels wide: `old_x` with the plain outline, `x` with the
/// highlighted one.
pub fn update_background_buffer_column(
    buffer: &mut Vec<u8>,
    old_x: u32,
    x: u32,
    size_width: u32,
    game: &Game,
    player_colors: &[[u8; 4]],
    grid_size: u32,
    border_width: u32,
    border_height: u32,
)
    requires
        game.wf(),
        player_colors@.len() >= game.player_count,
        old_x < game.board.width,
        x < game.board.width,
        border_width + game.board.width * grid_size <= size_width,
        border_height + (game.board.height + 1) * grid_size <= u32::MAX,
        (border_height + (game.board.height + 1) * grid_size) * size_width * 4 <= old(buffer)@.len(),
    ensures
        final(buffer)@.len() == old(buffer)@.len(),
        forall|i: int|
            0 <= i < old(buffer)@.len() ==> #[trigger] final(buffer)@[i] == column_byte(
                column_byte(
                    old(buffer)@[i],
                    i,
                    size_width as int,
                    border_width as int,
                    border_height as int,
                    grid_size as int,
                    game.board,
                    old_x as int,
                    player_colors@,
                    FOREGROUND_COLOR,
                ),
                i,
                size_width as int,
                border_width as int,
                border_height as int,
                grid_size as int,
                game.board,
                x as int,
                player_colors@,
                FOREGROUND_HIGHLIGHT_COLOR,
            ),
{
    proof {
        assert(border_width + (old_x + 1) * grid_size <= size_width) by (nonlinear_arith)
            requires
                border_width + game.board.width * grid_size <= size_width,
                old_x < game.board.width,
        ;
        assert(border_width + (x + 1) * grid_size <= size_width) by (nonlinear_arith)
            requires
                border_width + game.board.width * grid_size <= size_width,
                x < game.board.width,
        ;
    }
    let ghost start = buffer@;
    paint_column(buffer, game, player_colors, old_x as usize, FOREGROUND_COLOR, grid_size, border_width, border_height, size_width);
    let ghost middle = buffer@;
    paint_column(buffer, game, player_colors, x as usize, FOREGROUND_HIGHLIGHT_COLOR, grid_size, border_width, border_height, size_width);
    assert forall|i: int| 0 <= i < start.len() implies #[trigger] buffer@[i] == column_byte(
        column_byte(start[i], i, size_width as int, border_width as int, border_height as int, grid_size as int, game.board, old_x as int, player_colors@, FOREGROUND_COLOR),
        i, size_width as int, border_width as int, border_height as int, grid_size as int, game.board, x as int, player_colors@, FOREGROUND_HIGHLIGHT_COLOR,
    ) by {
        assert(middle[i] == column_byte(start[i], i, size_width as int, border_width as int, border_height as int, grid_size as int, game.board, old_x as int, player_colors@, FOREGROUND_COLOR));
    }
}

/// The board column under pointer position `mouse_x`, kept within the board.
pub open spec fn column_under(mouse_x: int, border_width: int, grid_size: int, board_width: int) -> int {
    let d = mouse_x - border_width;
    if d < 0 {
        0
    } else if d / grid_size > board_width - 1 {
        board_width - 1
    } else {
        d / grid_size
    }
}

pub fn mouse_column(mouse_x: i32, border_width: u32, grid_size: u32, board_width: usize) -> (r: u32)
    requires
        grid_size > 0,
        0 < board_width <= u32::MAX,
    ensures
        r as int == column_under(mouse_x as int, border_width as int, grid_size as int, board_width as int),
        r < board_width,
{
    let d = mouse_x as i64 - border_width as i64;
    if d < 0 {
        0
    } else {
        let c = d / grid_size as i64;
        if c > board_width as i64 - 1 {
            (board_width - 1) as u32
        } else {
            c as u32
        }
    }
}

/// Hue of player `i` among `player_count`: the players spread evenly round
/// the colour circle, `255 * i / player_count` rounded up.
pub fn player_hue(i: u32, player_count: u32) -> (r: u8)
    requires
        i < player_count,
    ensures
        r as int == (255 * i + player_count - 1) / player_count as int,
        player_count <= 255 ==> r < 255,
{
    proof {
        if player_count <= 255 {
            assert((255 * i + player_count - 1) / player_count as int <= 254) by (nonlinear_arith)
                requires
                    i < player_count,
                    player_count <= 255,
            ;
        }
        assert((255 * i + player_count - 1) / player_count as int <= 255) by (nonlinear_arith)
            requires
                i < player_count,
        ;
        assert((255 * i + player_count - 1) / player_count as int >= 0) by (nonlinear_arith)
            requires
                i < player_count,
        ;
    }
    ((255 * i as u64 + player_count as u64 - 1) / player_count as u64) as u8
}

/// One fully saturated, fully bright colour per player, spread round the
/// colour circle.
pub fn player_colors(player_count: u32) -> (r: Vec<[u8; 4]>)
    requires
        player_count <= 255,
    ensures
        r@.len() == player_count,
        forall|i: int|
            0 <= i < player_count ==> (#[trigger] r@[i])@ == rgba_of(
                (255 * i + player_count - 1) / player_count as int,
                100,
                100,
                255,
            ),
{
    let mut colors: Vec<[u8; 4]> = Vec::with_capacity(player_count as usize);
    let mut i: u32 = 0;
    while i < player_count
        invariant
            player_count <= 255,
            i <= player_count,
            colors@.len() == i,
            forall|j: int|
                0 <= j < i ==> (#[trigger] colors@[j])@ == rgba_of(
                    (255 * j + player_count - 1) / player_count as int,
                    100,
                    100,
                    255,
                ),
        decreases player_count - i,
    {
        let hue = player_hue(i, player_count);
        let c = hsva_to_rgba([hue, 100, 100, 255]);
        colors.push(c);
        i += 1;
    }
    colors
}

} // verus!
