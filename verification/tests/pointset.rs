use yggdrasil::pointset::{
    apply_gravity, find_group, grid_is_empty, has_valid_group, PointsetSession, COLS, ROWS,
};

/// The seed the host hands out when it has no random source.
const SEED: u64 = 0xdead_beef_cafe_babe;


// Build a session with a known grid for deterministic tests.
fn session_with_grid(grid: [[u8; COLS]; ROWS]) -> PointsetSession {
    PointsetSession {
        grid,
        score: 0,
        is_over: false,
        initialized: true,
    }
}

#[test]
fn test_initial_grid_is_non_empty() {
    let mut s = PointsetSession::default();
    s.initialize(SEED);
    // At least one non-empty cell
    assert!(s.grid.iter().any(|row| row.iter().any(|&v| v != 0)));
    // All cells are valid colors (1-5)
    for row in &s.grid {
        for &cell in row {
            assert!((1..=5).contains(&cell), "cell value out of range: {cell}");
        }
    }
}

#[test]
fn test_has_valid_group_after_init() {
    let mut s = PointsetSession::default();
    s.initialize(SEED);
    assert!(has_valid_group(&s.grid));
}

#[test]
fn test_click_on_group_removes_tiles() {
    // Place a 2x2 block of color 1 at rows 4-5, cols 0-1 (bottom-left).
    // Remaining cells are color 2.
    let mut grid = [[2u8; COLS]; ROWS];
    grid[4][0] = 1;
    grid[4][1] = 1;
    grid[5][0] = 1;
    grid[5][1] = 1;

    let mut s = session_with_grid(grid);
    let err = s.process_action("click", Some(0), Some(4), SEED);
    assert_eq!(err, None);

    // Score = 4*4 = 16
    assert_eq!(s.score, 16);
    // The group cells should now be empty (or shifted by gravity)
    // After gravity the four empty rows are on top — check row 5 cols 0 and 1
    assert_eq!(s.grid[5][0], 2);
    assert_eq!(s.grid[5][1], 2);
}

#[test]
fn test_isolated_tile_click_is_noop() {
    // A lone tile of color 3 at (row=0, col=7) — all others are color 2.
    let mut grid = [[2u8; COLS]; ROWS];
    grid[0][7] = 3;

    let mut s = session_with_grid(grid);
    let original_score = s.score;
    let err = s.process_action("click", Some(7), Some(0), SEED);

    // Score unchanged
    assert_eq!(s.score, original_score);
    // Error message present
    assert_eq!(err, Some("Grupo muito pequeno"));
    // Grid unchanged at that position
    assert_eq!(s.grid[0][7], 3);
}

#[test]
fn test_tiles_fall_after_removal() {
    // Column 0: top rows empty, then tile 1 at row 2, then color 2 at rows 3-5.
    // Remove the pair at rows 3-4 col 0 (color 2), leaving tile 1 at row 2.
    // After gravity tile 1 should be at row 5.
    let mut grid = [[0u8; COLS]; ROWS];
    grid[2][0] = 1;
    grid[3][0] = 2;
    grid[4][0] = 2;
    grid[5][0] = 2;
    // Need at least one more group of 2 elsewhere so has_valid_group stays true for other cols
    // but we only care about col 0 behavior here.

    let mut s = session_with_grid(grid);
    // Click on the group of three color-2 tiles (x=0, y=3)
    s.process_action("click", Some(0), Some(3), SEED);

    // Tile 1 should have fallen to row 5 col 0
    assert_eq!(s.grid[5][0], 1);
    // Rows 0-4 col 0 should be empty
    for r in 0..5usize {
        assert_eq!(s.grid[r][0], 0, "row {r} col 0 should be empty");
    }
    // Score = 3*3 = 9
    assert_eq!(s.score, 9);
}

#[test]
fn test_gravity_packs_to_bottom() {
    // Simple gravity test on an isolated grid
    let mut grid = [[0u8; COLS]; ROWS];
    grid[0][0] = 5;
    grid[2][0] = 3;
    grid[4][0] = 1;
    apply_gravity(&mut grid);
    // Should be packed: row5=1, row4=3, row3=5, rows 0-2 empty
    assert_eq!(grid[5][0], 1);
    assert_eq!(grid[4][0], 3);
    assert_eq!(grid[3][0], 5);
    assert_eq!(grid[0][0], 0);
    assert_eq!(grid[1][0], 0);
    assert_eq!(grid[2][0], 0);
}

#[test]
fn test_game_over_when_no_valid_groups() {
    // A grid where every tile is isolated (checkerboard of alternating colors).
    // With 5 colors and 8 cols × 6 rows, a carefully designed grid has no group of 2.
    // Simplest: make each adjacent pair a different color — checkerboard of 1 and 2
    // but a checkerboard with exactly 2 colors still forms diagonal isolation.
    // We need 4-directional isolation: use column offset trick.
    let mut grid = [[0u8; COLS]; ROWS];
    for r in 0..ROWS {
        for c in 0..COLS {
            // Every tile is different from its left/right/up/down neighbors.
            // Use (r + c) mod 5 + 1 — with 5 colors on 8×6 grid, adjacent tiles differ.
            grid[r][c] = ((r + c) % 5 + 1) as u8;
        }
    }
    // Verify no group of ≥ 2 exists
    for r in 0..ROWS {
        for c in 0..COLS {
            let g = find_group(&grid, r, c);
            assert!(g.len() < 2, "unexpected group at ({r},{c}): {:?}", g);
        }
    }
    let s = session_with_grid(grid);
    // Grid is full but has no valid groups → game_over check should detect it
    assert!(!has_valid_group(&s.grid));
}

#[test]
fn test_game_over_when_grid_is_empty() {
    let grid = [[0u8; COLS]; ROWS];
    assert!(grid_is_empty(&grid));
    // is_over flag should be set
    let mut s = session_with_grid(grid);
    s.check_game_over();
    assert!(s.is_over);
}

#[test]
fn test_find_group_single_cell() {
    let mut grid = [[0u8; COLS]; ROWS];
    grid[3][3] = 2;
    let g = find_group(&grid, 3, 3);
    assert_eq!(g.len(), 1);
}

#[test]
fn test_find_group_connected() {
    let mut grid = [[0u8; COLS]; ROWS];
    grid[0][0] = 1;
    grid[0][1] = 1;
    grid[1][0] = 1;
    let g = find_group(&grid, 0, 0);
    assert_eq!(g.len(), 3);
}

#[test]
fn test_output_has_correct_dimensions() {
    let mut s = PointsetSession::default();
    s.initialize(SEED);
    s.process_action("", None, None, SEED);
    assert_eq!(COLS, 8);
    assert_eq!(ROWS, 6);
    assert_eq!(s.grid.len(), 6);
    assert_eq!(s.grid[0].len(), 8);
}

#[test]
fn process_reads_a_json_click() {
    let mut grid = [[2u8; COLS]; ROWS];
    grid[4][0] = 1;
    grid[4][1] = 1;
    grid[5][0] = 1;
    grid[5][1] = 1;
    let mut s = session_with_grid(grid);
    let err = s.process("{\"action\":\"click\",\"x\":0,\"y\":4}", SEED);
    assert_eq!(err, None);
    assert_eq!(s.score, 16);
    assert_eq!(s.grid[5][0], 2);
}

#[test]
fn process_of_text_that_is_not_json_only_deals() {
    let mut s = PointsetSession::default();
    let err = s.process("not json", SEED);
    assert_eq!(err, None);
    assert!(s.initialized);
    assert_eq!(s.score, 0);
}

#[test]
fn process_reports_a_group_too_small() {
    let mut grid = [[0u8; COLS]; ROWS];
    for (r, row) in grid.iter_mut().enumerate() {
        for (c, cell) in row.iter_mut().enumerate() {
            *cell = ((r + c) % 2) as u8 + 1;
        }
    }
    let mut s = session_with_grid(grid);
    let err = s.process("{\"action\":\"click\",\"x\":0,\"y\":0}", SEED);
    assert_eq!(err, Some("Grupo muito pequeno"));
    assert_eq!(s.score, 0);
}
