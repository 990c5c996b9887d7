use raytracer::colorrgba::ColorRGBA;
use raytracer::surface::{Surface, SurfaceFactory};

fn image(x: usize, y: usize) -> ColorRGBA<u8> {
    ColorRGBA::new_rgb((x % 251) as u8, (y % 241) as u8, ((x * 7 + y * 13) % 256) as u8)
}

fn paint(factory: &SurfaceFactory) -> Surface {
    let mut tile = factory.create();
    for y in 0..tile.height {
        for x in 0..tile.width {
            tile.set(x, y, image(tile.x_off + x, tile.y_off + y));
        }
    }
    tile
}

fn same(a: ColorRGBA<u8>, b: ColorRGBA<u8>) -> bool {
    (a.r, a.g, a.b, a.a) == (b.r, b.g, b.b, b.a)
}

fn tiles_of(width: usize, height: usize, tw: usize, th: usize) -> Vec<SurfaceFactory> {
    let surface = Surface::new(width, height, ColorRGBA::new_rgb(0, 0, 0));
    let mut it = surface.divide(tw, th);
    let mut tiles = Vec::new();
    while let Some(tile) = it.next() {
        tiles.push(tile);
    }
    assert!(it.next().is_none());
    tiles
}

#[test]
fn a_small_surface_is_cut_into_rows_of_whole_tiles() {
    let tiles = tiles_of(32, 32, 128, 8);
    assert_eq!(tiles.len(), 4);
    for (k, tile) in tiles.iter().enumerate() {
        assert_eq!((tile.x_off, tile.y_off, tile.width, tile.height), (0, 8 * k, 128, 8));
        let inside = tile.fit(32, 32);
        assert_eq!((inside.x_off, inside.y_off, inside.width, inside.height), (0, 8 * k, 32, 8));
    }
    let tiles = tiles_of(200, 5, 128, 8);
    let places: Vec<(usize, usize, usize, usize)> =
        tiles.iter().map(|t| (t.x_off, t.y_off, t.width, t.height)).collect();
    assert_eq!(places, vec![(0, 0, 128, 8), (128, 0, 128, 8)]);
    let inside: Vec<(usize, usize, usize, usize)> =
        tiles.iter().map(|t| t.fit(200, 5)).map(|t| (t.x_off, t.y_off, t.width, t.height)).collect();
    assert_eq!(inside, vec![(0, 0, 128, 5), (128, 0, 72, 5)]);
}

#[test]
fn a_tile_is_fitted_to_a_surface() {
    let black = ColorRGBA::new_rgb(0, 0, 0);
    let place = |t: SurfaceFactory| (t.x_off, t.y_off, t.width, t.height);
    let tile = SurfaceFactory::new(10, 4, 6, 2, black);
    // Inside, the tile stays as it is.
    assert_eq!(place(tile.fit(16, 6)), (6, 2, 10, 4));
    assert_eq!(place(tile.fit(100, 100)), (6, 2, 10, 4));
    // Past the right edge, the lower edge, and both.
    assert_eq!(place(tile.fit(12, 100)), (6, 2, 6, 4));
    assert_eq!(place(tile.fit(100, 3)), (6, 2, 10, 1));
    assert_eq!(place(tile.fit(7, 5)), (6, 2, 1, 3));
    // A tile that starts outside has no part inside.
    assert_eq!(place(tile.fit(6, 100)), (6, 2, 0, 4));
    assert_eq!(place(tile.fit(100, 2)), (6, 2, 10, 0));
    assert_eq!(place(tile.fit(0, 0)), (6, 2, 0, 0));
    let fitted = tile.fit(12, 3);
    assert_eq!((fitted.background.r, fitted.background.a), (0, 255));
}

#[test]
fn tiles_come_row_by_row() {
    let tiles = tiles_of(300, 20, 128, 8);
    let places: Vec<(usize, usize, usize, usize)> =
        tiles.iter().map(|t| (t.x_off, t.y_off, t.width, t.height)).collect();
    assert_eq!(
        places,
        vec![
            (0, 0, 128, 8),
            (128, 0, 128, 8),
            (256, 0, 128, 8),
            (0, 8, 128, 8),
            (128, 8, 128, 8),
            (256, 8, 128, 8),
            (0, 16, 128, 8),
            (128, 16, 128, 8),
            (256, 16, 128, 8),
        ]
    );
    let inside: Vec<(usize, usize, usize, usize)> =
        tiles.iter().map(|t| t.fit(300, 20)).map(|t| (t.x_off, t.y_off, t.width, t.height)).collect();
    assert_eq!(
        inside,
        vec![
            (0, 0, 128, 8),
            (128, 0, 128, 8),
            (256, 0, 44, 8),
            (0, 8, 128, 8),
            (128, 8, 128, 8),
            (256, 8, 44, 8),
            (0, 16, 128, 4),
            (128, 16, 128, 4),
            (256, 16, 44, 4),
        ]
    );
}

#[test]
fn an_empty_surface_has_no_tiles() {
    assert_eq!(tiles_of(0, 10, 4, 4).len(), 0);
    assert_eq!(tiles_of(10, 0, 4, 4).len(), 0);
}

#[test]
fn every_pixel_lies_in_exactly_one_tile() {
    for &(w, h, tw, th) in [(37, 23, 8, 5), (128, 8, 128, 8), (1, 1, 3, 3), (50, 50, 7, 50)].iter() {
        let tiles = tiles_of(w, h, tw, th);
        for y in 0..h {
            for x in 0..w {
                let n = tiles
                    .iter()
                    .filter(|t| {
                        t.x_off <= x && x < t.x_off + t.width && t.y_off <= y && y < t.y_off + t.height
                    })
                    .count();
                assert_eq!(n, 1);
            }
        }
    }
}

#[test]
fn one_tile_and_many_tiles_give_the_same_picture() {
    let (w, h) = (53, 41);
    let mut whole = Surface::new(w, h, ColorRGBA::new_rgb(9, 9, 9));
    let single = paint(&SurfaceFactory::new(w, h, 0, 0, ColorRGBA::new_rgb(0, 0, 0)));
    whole.merge(&single);

    let mut assembled = Surface::new(w, h, ColorRGBA::new_rgb(9, 9, 9));
    let mut it = assembled.divide(16, 4);
    let mut tiles = Vec::new();
    while let Some(factory) = it.next() {
        tiles.push(paint(&factory.fit(w, h)));
    }
    // The order in which tiles arrive does not matter.
    tiles.reverse();
    for tile in tiles.iter() {
        assembled.merge(tile);
    }
    assert_eq!(assembled.buffer.len(), w * h);
    for y in 0..h {
        for x in 0..w {
            assert!(same(assembled.get(x, y), image(x, y)));
            assert!(same(assembled.get(x, y), whole.get(x, y)));
        }
    }
}

#[test]
fn merge_leaves_the_rest_alone() {
    let grey = ColorRGBA::new_rgb(9, 9, 9);
    let mut surface = Surface::new(6, 5, grey);
    let factory = SurfaceFactory::new(2, 2, 3, 1, ColorRGBA::new_rgb(0, 0, 0));
    surface.merge(&paint(&factory));
    for y in 0..5 {
        for x in 0..6 {
            let inside = (3..5).contains(&x) && (1..3).contains(&y);
            let expected = if inside { image(x, y) } else { grey };
            assert!(same(surface.get(x, y), expected));
        }
    }
    // Rows are stored one after the other.
    assert!(same(surface.buffer[1 * 6 + 3], image(3, 1)));
}
