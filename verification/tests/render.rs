use cellular_automaton::render::{
    background, cell_color, crop_amount, visible_width, Color, Tile, ACTIVE_GLYPH, INACTIVE_GLYPH,
};
use cellular_automaton::rule::rules_to_bools;
use cellular_automaton::simulation::Simulation;

fn triangle(generations: usize) -> Simulation {
    let mut simulation = match Simulation::new(generations, 5) {
        Ok(simulation) => simulation,
        Err(error) => panic!("no simulation: {:?}", error),
    };
    simulation.create(&rules_to_bools(90), 100);
    simulation
}

const BLACK: Color = Color { red: 0, green: 0, blue: 0 };
const WHITE: Color = Color { red: 255, green: 255, blue: 255 };

#[test]
fn crop_of_a_wide_grid_is_half_the_excess() {
    assert_eq!(crop_amount(11, 5), 3);
    assert_eq!(visible_width(11, 5), 5);
}

#[test]
fn crop_of_a_narrow_grid_is_one_column() {
    assert_eq!(crop_amount(5, 10), 1);
    assert_eq!(visible_width(5, 10), 3);
}

#[test]
fn crop_rounds_half_the_excess_down() {
    assert_eq!(crop_amount(10, 5), 2);
    assert_eq!(visible_width(10, 5), 6);
    assert_eq!(crop_amount(6, 5), 0);
    assert_eq!(visible_width(6, 5), 6);
}

#[test]
fn crop_of_a_grid_at_the_limit_is_one_column() {
    assert_eq!(crop_amount(5, 5), 1);
    assert_eq!(visible_width(5, 5), 3);
}

#[test]
fn crop_leaves_nothing_of_a_grid_of_one_or_two_columns() {
    assert_eq!(crop_amount(1, 5), 1);
    assert_eq!(visible_width(1, 5), 0);
    assert_eq!(crop_amount(2, 5), 1);
    assert_eq!(visible_width(2, 5), 0);
    assert_eq!(visible_width(0, 5), 0);
}

#[test]
fn crop_to_nothing_hides_everything_but_an_odd_column() {
    assert_eq!(crop_amount(7, 0), 3);
    assert_eq!(visible_width(7, 0), 1);
    assert_eq!(crop_amount(usize::MAX, 0), usize::MAX / 2);
    assert_eq!(visible_width(usize::MAX, 0), 1);
}

#[test]
fn glyphs_are_the_two_squares() {
    assert_eq!(ACTIVE_GLYPH, '⬛');
    assert_eq!(INACTIVE_GLYPH, '⬜');
}

#[test]
fn render_text_shows_the_cropped_rows() {
    let simulation = triangle(5);
    assert_eq!(simulation.width(), 11);
    assert_eq!(
        simulation.render_text(5),
        vec![
            "⬜⬜⬛⬜⬜",
            "⬜⬛⬜⬛⬜",
            "⬛⬜⬜⬜⬛",
            "⬜⬛⬜⬛⬜",
            "⬜⬜⬜⬜⬜",
        ]
    );
}

#[test]
fn render_text_hides_the_outer_columns_of_a_narrow_grid() {
    let simulation = triangle(3);
    assert_eq!(simulation.width(), 7);
    assert_eq!(
        simulation.render_text(100),
        vec!["⬜⬜⬛⬜⬜", "⬜⬛⬜⬛⬜", "⬛⬜⬜⬜⬛"]
    );
}

#[test]
fn render_text_of_a_grid_too_narrow_is_empty_lines() {
    let simulation = match Simulation::new(2, 2) {
        Ok(simulation) => simulation,
        Err(error) => panic!("no simulation: {:?}", error),
    };
    assert_eq!(simulation.render_text(10), vec!["", ""]);
}

#[test]
fn colors_are_black_white_and_red() {
    assert_eq!(cell_color(true), BLACK);
    assert_eq!(cell_color(false), WHITE);
    assert_eq!(background(), Color { red: 255, green: 0, blue: 0 });
}

#[test]
fn render_tiles_places_one_square_for_each_shown_cell() {
    let simulation = triangle(2);
    assert_eq!(simulation.width(), 5);
    let tiles = simulation.render_tiles(100, 4);
    assert_eq!(
        tiles,
        Some(vec![
            Tile { x: 0, y: 0, size: 4, color: WHITE },
            Tile { x: 4, y: 0, size: 4, color: BLACK },
            Tile { x: 8, y: 0, size: 4, color: WHITE },
            Tile { x: 0, y: 4, size: 4, color: BLACK },
            Tile { x: 4, y: 4, size: 4, color: WHITE },
            Tile { x: 8, y: 4, size: 4, color: BLACK },
        ])
    );
}

#[test]
fn render_tiles_crops_like_render_text() {
    let simulation = triangle(5);
    let tiles = match simulation.render_tiles(5, 10) {
        Some(tiles) => tiles,
        None => panic!("the picture is small enough"),
    };
    let lines = simulation.render_text(5);
    assert_eq!(tiles.len(), 25);
    for (row, line) in lines.iter().enumerate() {
        for (column, glyph) in line.chars().enumerate() {
            let tile = tiles[row * 5 + column];
            assert_eq!(tile.x, 10 * column as i32);
            assert_eq!(tile.y, 10 * row as i32);
            assert_eq!(tile.size, 10);
            assert_eq!(tile.color, cell_color(glyph == ACTIVE_GLYPH));
        }
    }
}

#[test]
fn render_tiles_with_squares_of_no_size() {
    let simulation = triangle(2);
    let tiles = match simulation.render_tiles(100, 0) {
        Some(tiles) => tiles,
        None => panic!("the picture is small enough"),
    };
    assert_eq!(tiles.len(), 6);
    assert!(tiles.iter().all(|tile| tile.x == 0 && tile.y == 0 && tile.size == 0));
}

#[test]
fn render_tiles_gives_up_on_a_picture_too_large() {
    let simulation = triangle(2);
    // Two rows of three squares: the picture is 3 * size wide and 2 * size high.
    assert!(simulation.render_tiles(100, 715_827_882).is_some());
    assert!(simulation.render_tiles(100, 715_827_883).is_none());
    assert!(simulation.render_tiles(100, u32::MAX).is_none());
}

#[test]
fn render_tiles_reaches_the_last_coordinate() {
    let simulation = triangle(2);
    let tiles = match simulation.render_tiles(100, 715_827_882) {
        Some(tiles) => tiles,
        None => panic!("the picture is small enough"),
    };
    assert_eq!(tiles[5].x, 1_431_655_764);
    assert_eq!(tiles[5].y, 715_827_882);
}
