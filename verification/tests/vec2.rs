use falling_sand::vector::Vec2;

#[test]
fn new_and_zero() {
    let v = Vec2::new(3i64, -4i64);
    assert_eq!(v.x, 3);
    assert_eq!(v.y, -4);
    let z = Vec2::zero();
    assert_eq!((z.x, z.y), (0, 0));
}

#[test]
fn abs_is_componentwise() {
    let v = Vec2::new(-7i64, 2i64).abs();
    assert_eq!((v.x, v.y), (7, 2));
}

#[test]
fn area_and_index() {
    assert_eq!(Vec2::new(8i64, 5i64).area(), 40);
    // cell (x=3, y=2) of a width-10 grid sits at flat index 23
    assert_eq!(Vec2::new(3i64, 2i64).index(10), 23);
}

#[test]
fn min_and_max_are_componentwise() {
    let a = Vec2::new(1i64, 9i64);
    let b = Vec2::new(4i64, -2i64);
    let lo = a.min(b);
    let hi = a.max(b);
    assert_eq!((lo.x, lo.y), (1, -2));
    assert_eq!((hi.x, hi.y), (4, 9));
}

#[test]
fn clamp_usize_clamps_into_the_box() {
    let m = Vec2 { x: 10usize, y: 10usize };
    let inside = Vec2::new(4i64, 7i64).clamp_usize(m);
    assert_eq!((inside.x, inside.y), (4, 7));
    let low = Vec2::new(-3i64, 5i64).clamp_usize(m);
    assert_eq!((low.x, low.y), (0, 5));
    let high = Vec2::new(99i64, -1i64).clamp_usize(m);
    assert_eq!((high.x, high.y), (10, 0));
}

#[test]
fn to_grid_accepts_only_in_range_coordinates() {
    let size = Vec2 { x: 8usize, y: 6usize };
    let ok = Vec2::new(7i64, 5i64).to_grid(size);
    assert_eq!(ok, Some(Vec2 { x: 7usize, y: 5usize }));
    assert_eq!(Vec2::new(8i64, 5i64).to_grid(size), None);
    assert_eq!(Vec2::new(-1i64, 0i64).to_grid(size), None);
    assert_eq!(Vec2::new(0i64, 6i64).to_grid(size), None);
    assert_eq!(Vec2::new(0i64, 0i64).to_grid(size), Some(Vec2 { x: 0usize, y: 0usize }));
}
