use falling_sand::catalog::get_element;
use falling_sand::elements::{Element, ElementType};
use falling_sand::elements::ElementType::{Air, Bendium, Dirt, Metal, Sand, Steam, Stone, Water};
use falling_sand::rng::RandomSource;
use falling_sand::swap_buffer::SwapBuffer;
use falling_sand::world::{
    fall_ok, rise_ok, update_chemistry, update_gases, update_main, World,
};

fn grid_of(kinds: &[ElementType], seed: u64) -> (Vec<Element>, RandomSource) {
    let mut rng = RandomSource::from_seed(seed);
    let cells = kinds.iter().map(|k| get_element(*k, &mut rng)).collect();
    (cells, rng)
}

fn world_of(kinds: &[ElementType], width: usize, height: usize, seed: u64) -> World {
    assert_eq!(kinds.len(), width * height);
    let (cells, rng) = grid_of(kinds, seed);
    World { cells: SwapBuffer::from_arr(cells, width), height, rng }
}

#[test]
fn sand_falls_one_row_in_one_movement_pass() {
    // a 3x3 grid: immovable stone along the bottom row, air in the middle
    // row, and a single sand cell at top-centre.  One run of the movement
    // pass drops the sand exactly one row, whatever the random draws.
    for seed in 0..10 {
        let (mut grid, mut rng) = grid_of(
            &[
                Stone, Stone, Stone, // row 0 (bottom)
                Air, Air, Air, // row 1
                Air, Sand, Air, // row 2 (top)
            ],
            seed,
        );
        update_main(&mut rng, &mut grid, 3, 3);
        assert_eq!(grid[4].id, Sand, "sand occupies the middle row");
        assert_eq!(grid[7].id, Air, "the top centre is air again");
        for i in [0usize, 1, 2] {
            assert_eq!(grid[i].id, Stone);
        }
        for i in [3usize, 5, 6, 8] {
            assert_eq!(grid[i].id, Air);
        }
    }
}

#[test]
fn sand_does_not_enter_an_immovable_floor() {
    for seed in 0..10 {
        let (mut grid, mut rng) = grid_of(&[Stone, Sand, Air], seed);
        // a 1x3 column: sand right above stone stays put
        update_main(&mut rng, &mut grid, 1, 3);
        assert_eq!(grid[0].id, Stone);
        assert_eq!(grid[1].id, Sand);
        assert_eq!(grid[2].id, Air);
    }
}

#[test]
fn immovable_stone_keeps_its_cell_across_ticks() {
    // stone in the centre of churning water never moves, whatever the
    // neighbour densities do around it
    let mut world = world_of(
        &[
            Water, Water, Water, //
            Water, Stone, Water, //
            Air, Water, Air,
        ],
        3,
        3,
        21,
    );
    for _ in 0..30 {
        world.update();
        assert_eq!(world.cells.r[4].id, Stone);
    }
}

#[test]
fn displacement_needs_strictly_lower_density() {
    let mut rng = RandomSource::from_seed(5);
    let sand = get_element(Sand, &mut rng);
    let sand2 = get_element(Sand, &mut rng);
    let air = get_element(Air, &mut rng);
    let water = get_element(Water, &mut rng);
    let steam = get_element(Steam, &mut rng);

    assert!(fall_ok(&sand, false, &air));
    assert!(fall_ok(&sand, false, &water));
    // equal density and solid-solid pairs never swap
    assert!(!fall_ok(&sand, false, &sand2));
    // never into a cell below an immovable neighbour
    assert!(!fall_ok(&sand, true, &air));
    // a liquid never displaces a gas
    assert!(!fall_ok(&water, false, &steam));
    // nothing displaces a denser cell
    assert!(!fall_ok(&air, false, &water));
}

#[test]
fn gases_rise_only_into_denser_fluid() {
    let mut rng = RandomSource::from_seed(6);
    let steam = get_element(Steam, &mut rng);
    let air = get_element(Air, &mut rng);
    let water = get_element(Water, &mut rng);
    let sand = get_element(Sand, &mut rng);

    assert!(rise_ok(&steam, false, &air));
    assert!(rise_ok(&steam, false, &water));
    // solids are not fluid-like, whatever their density
    assert!(!rise_ok(&steam, false, &sand));
    // blocked under an immovable ceiling
    assert!(!rise_ok(&steam, true, &air));
    // never into something less dense than itself
    assert!(!rise_ok(&water, false, &steam));
}

#[test]
fn steam_rises_one_row_in_one_buoyancy_pass() {
    for seed in 0..10 {
        let (mut grid, mut rng) = grid_of(&[Steam, Water, Water], seed);
        update_gases(&mut rng, &mut grid, 1, 3);
        assert_eq!(grid[0].id, Water);
        assert_eq!(grid[1].id, Steam);
        assert_eq!(grid[2].id, Water);
    }
}

#[test]
fn chemistry_turns_adjacent_sand_and_stone_into_bendium_and_air() {
    for seed in 0..10 {
        // a 1x2 column, sand below stone: the sand initiates, becomes the
        // product, and the consumed stone becomes air
        let (mut grid, mut rng) = grid_of(&[Sand, Stone], seed);
        update_chemistry(&mut rng, &mut grid, 1, 2);
        assert_eq!(grid[0].id, Bendium);
        assert_eq!(grid[1].id, Air);

        // chemistry is idempotent once no reactive pair remains
        let before = grid.clone();
        update_chemistry(&mut rng, &mut grid, 1, 2);
        assert_eq!(grid, before);
    }
}

#[test]
fn water_with_no_air_neighbors_never_evaporates() {
    // a grid full of water: densities are all equal, so nothing moves, and
    // with zero air-adjacent neighbours the evaporation probability is zero
    let (mut grid, mut rng) = grid_of(&[Water; 9], 13);
    for _ in 0..60 {
        update_main(&mut rng, &mut grid, 3, 3);
        for cell in grid.iter() {
            assert_eq!(cell.id, Water);
        }
    }
}

#[test]
fn world_new_seeds_dirt_and_air() {
    let world = World::new(10, 10, 77);
    assert_eq!(world.cells.r.len(), 100);
    assert_eq!(world.cells.w.len(), 100);
    let mut dirt = 0;
    for cell in world.cells.r.iter() {
        assert!(cell.id == ElementType::Dirt || cell.id == ElementType::Air);
        if cell.id == ElementType::Dirt {
            dirt += 1;
        }
    }
    assert!(dirt > 0, "a 100-cell world gets some dirt");
}

#[test]
fn update_swaps_the_buffers() {
    let mut world = World::new(4, 4, 9);
    let before = world.cells.r.clone();
    world.update();
    assert_eq!(world.cells.w, before, "the old grid becomes the scratch buffer");
    assert_eq!(world.cells.r.len(), 16);
}

#[test]
fn render_to_packs_every_cell() {
    let world = World::new(5, 4, 123);
    let mut buf: Vec<u32> = Vec::new();
    world.render_to(&mut buf);
    assert_eq!(buf.len(), 20);
    for (i, cell) in world.cells.r.iter().enumerate() {
        let r = (cell.render_color.r + 500) / 1000;
        let g = (cell.render_color.g + 500) / 1000;
        let b = (cell.render_color.b + 500) / 1000;
        assert_eq!(buf[i], (r << 16) | (g << 8) | b);
    }
}

#[test]
fn place_writes_a_fresh_instance() {
    let mut world = World::new(3, 3, 55);
    world.place(ElementType::Sand, 4);
    assert_eq!(world.cells.r[4].id, ElementType::Sand);
    world.place(ElementType::Steam, 0);
    assert_eq!(world.cells.r[0].id, ElementType::Steam);
}

#[test]
fn ticks_conserve_cells_on_phase_free_unreactive_grids() {
    // sand, dirt, metal and air neither sparkle nor change phase, and no
    // pair of these kinds reacts: however the cells tumble, every tick
    // keeps exactly the same bag of cells
    let mut world = world_of(
        &[
            Air, Sand, Air, Dirt, //
            Metal, Air, Sand, Air, //
            Sand, Air, Dirt, Air,
        ],
        4,
        3,
        29,
    );
    let count = |cells: &Vec<Element>, id: ElementType| cells.iter().filter(|c| c.id == id).count();
    let sands = count(&world.cells.r, Sand);
    let dirts = count(&world.cells.r, Dirt);
    let metals = count(&world.cells.r, Metal);
    let airs = count(&world.cells.r, Air);
    for _ in 0..25 {
        world.update();
        assert_eq!(count(&world.cells.r, Sand), sands);
        assert_eq!(count(&world.cells.r, Dirt), dirts);
        assert_eq!(count(&world.cells.r, Metal), metals);
        assert_eq!(count(&world.cells.r, Air), airs);
    }
}

#[test]
fn chemistry_always_changes_a_reactive_grid() {
    // whatever the scan direction, a grid holding a reactive pair never
    // comes out of the chemistry pass unchanged
    for seed in 0..10 {
        // a 2x2 grid with sand directly below stone in the right column
        let (mut grid, mut rng) = grid_of(&[Air, Sand, Air, Stone], seed);
        let before = grid.clone();
        update_chemistry(&mut rng, &mut grid, 2, 2);
        assert_ne!(grid, before);
        assert_eq!(grid[1].id, Bendium);
        assert_eq!(grid[3].id, Air);
    }
}

#[test]
fn inert_still_grid_is_a_fixed_point() {
    // stone and air neither move, sparkle, change phase nor react: a tick
    // leaves the grid bit-for-bit unchanged
    let mut world = world_of(
        &[
            Stone, Air, Stone, //
            Air, Air, Air, //
            Stone, Air, Air,
        ],
        3,
        3,
        17,
    );
    let before = world.cells.r.clone();
    for _ in 0..5 {
        world.update();
        assert_eq!(world.cells.r, before);
    }
}

#[test]
fn dense_sand_sinks_through_water_over_ticks() {
    let mut world = world_of(
        &[
            Water, //
            Water, //
            Sand,
        ],
        1,
        3,
        41,
    );
    for _ in 0..10 {
        world.update();
    }
    assert_eq!(world.cells.r[0].id, Sand, "sand ends at the bottom");
}
