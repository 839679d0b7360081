use connect_k::game::{take_turn, Game};
use connect_k::render::{
    calc_grid_constants, calc_piece_radius, create_background_buffer, create_cell, mouse_column,
    player_colors, player_hue, update_background_buffer_column, BACKGROUND_COLOR,
    FOREGROUND_COLOR, FOREGROUND_HIGHLIGHT_COLOR,
};

fn pixel(buffer: &[u8], width: usize, x: usize, y: usize) -> [u8; 4] {
    let i = (width * y + x) * 4;
    [buffer[i], buffer[i + 1], buffer[i + 2], buffer[i + 3]]
}

#[test]
fn piece_radius_is_three_tenths() {
    assert_eq!(calc_piece_radius(50), 15);
    assert_eq!(calc_piece_radius(100), 30);
    assert_eq!(calc_piece_radius(3), 0);
}

#[test]
fn grid_constants_centre_the_board() {
    assert_eq!(calc_grid_constants(7, 6, 800, 600), (85, 102, 2));
    assert_eq!(calc_grid_constants(7, 6, 700, 1000), (100, 0, 150));
}

#[test]
fn cell_tile_outline_and_disc() {
    let player = [1, 2, 3, 4];
    let fg = [9, 9, 9, 9];
    let mut buffer = vec![0u8; 64];
    create_cell(&mut buffer, Some(player), fg, 0, 0, 4, 4);
    assert_eq!(pixel(&buffer, 4, 0, 0), fg);
    assert_eq!(pixel(&buffer, 4, 3, 3), fg);
    assert_eq!(pixel(&buffer, 4, 2, 2), player);
    assert_eq!(pixel(&buffer, 4, 1, 2), player);
    assert_eq!(pixel(&buffer, 4, 2, 3), player);

    let mut empty = vec![0u8; 64];
    create_cell(&mut empty, None, fg, 0, 0, 4, 4);
    assert_eq!(pixel(&empty, 4, 0, 0), fg);
    assert_eq!(pixel(&empty, 4, 2, 2), [0, 0, 0, 0]);
}

#[test]
fn cell_tile_at_an_offset_leaves_the_rest() {
    let fg = [9, 9, 9, 9];
    let mut buffer = vec![0u8; 6 * 6 * 4];
    create_cell(&mut buffer, None, fg, 2, 3, 2, 6);
    assert_eq!(pixel(&buffer, 6, 2, 3), fg);
    assert_eq!(pixel(&buffer, 6, 3, 3), fg);
    assert_eq!(pixel(&buffer, 6, 3, 4), [0, 0, 0, 0]);
    assert_eq!(pixel(&buffer, 6, 1, 3), [0, 0, 0, 0]);
    assert_eq!(pixel(&buffer, 6, 2, 5), [0, 0, 0, 0]);
}

#[test]
fn background_frame_of_a_small_board() {
    let mut game = Game::new(2, 4, 2, 1);
    let colors = player_colors(2);
    let (grid, bw, bh) = calc_grid_constants(2, 1, 4, 4);
    assert_eq!((grid, bw, bh), (2, 0, 0));
    let buffer = create_background_buffer(4, 4, &game, &colors, grid, bw, bh);
    assert_eq!(buffer.len(), 64);
    assert_eq!(pixel(&buffer, 4, 0, 0), BACKGROUND_COLOR);
    assert_eq!(pixel(&buffer, 4, 0, 2), FOREGROUND_COLOR);
    assert_eq!(pixel(&buffer, 4, 1, 3), BACKGROUND_COLOR);
    assert_eq!(pixel(&buffer, 4, 3, 3), BACKGROUND_COLOR);

    assert_eq!(take_turn(&mut game, 0), Ok(false));
    assert_eq!(take_turn(&mut game, 1), Ok(false));
    let buffer = create_background_buffer(4, 4, &game, &colors, grid, bw, bh);
    assert_eq!(pixel(&buffer, 4, 1, 3), colors[0]);
    assert_eq!(pixel(&buffer, 4, 3, 3), colors[1]);
}

#[test]
fn highlight_moves_between_columns() {
    let game = Game::new(2, 4, 2, 1);
    let colors = player_colors(2);
    let mut buffer = create_background_buffer(4, 4, &game, &colors, 2, 0, 0);
    update_background_buffer_column(&mut buffer, 0, 1, 4, &game, &colors, 2, 0, 0);
    assert_eq!(pixel(&buffer, 4, 2, 2), FOREGROUND_HIGHLIGHT_COLOR);
    assert_eq!(pixel(&buffer, 4, 0, 2), FOREGROUND_COLOR);
    update_background_buffer_column(&mut buffer, 1, 0, 4, &game, &colors, 2, 0, 0);
    assert_eq!(pixel(&buffer, 4, 2, 2), FOREGROUND_COLOR);
    assert_eq!(pixel(&buffer, 4, 0, 2), FOREGROUND_HIGHLIGHT_COLOR);
    assert_eq!(pixel(&buffer, 4, 0, 0), BACKGROUND_COLOR);
}

#[test]
fn pointer_column_is_clamped() {
    assert_eq!(mouse_column(250, 102, 85, 7), 1);
    assert_eq!(mouse_column(50, 102, 85, 7), 0);
    assert_eq!(mouse_column(-20, 0, 85, 7), 0);
    assert_eq!(mouse_column(2000, 102, 85, 7), 6);
}

#[test]
fn player_hues_spread_evenly() {
    assert_eq!(player_hue(0, 2), 0);
    assert_eq!(player_hue(1, 2), 128);
    assert_eq!(player_hue(1, 3), 85);
    assert_eq!(player_hue(2, 3), 170);
    assert_eq!(player_colors(2), vec![[255, 0, 0, 255], [0, 252, 255, 255]]);
}
