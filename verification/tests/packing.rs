use font_atlas::math::{IMargins, IRect, ISize};
use font_atlas::packing::{
    pack_sprites, sort_tallest_first, try_shelf_pack, PackError, Packing,
};
use font_atlas::sort::stable_order;

fn overlap(a: &IRect, b: &IRect) -> bool {
    a.min.x < b.max.x
        && b.min.x < a.max.x
        && a.min.y < b.max.y
        && b.min.y < a.max.y
        && a.min.x < a.max.x
        && a.min.y < a.max.y
        && b.min.x < b.max.x
        && b.min.y < b.max.y
}

fn check_packing(sizes: &[(usize, usize, ISize)], padding: IMargins, packing: &Packing) {
    assert_eq!(packing.placements.len(), sizes.len());
    for (asset, sprite, rect) in packing.placements.iter() {
        let matching: Vec<_> =
            sizes.iter().filter(|(a, s, _)| a == asset && s == sprite).collect();
        assert_eq!(matching.len(), 1);
        let size = matching[0].2;
        assert_eq!(rect.max.x - rect.min.x, size.width);
        assert_eq!(rect.max.y - rect.min.y, size.height);
        assert!(rect.min.x - padding.left >= 0);
        assert!(rect.min.y - padding.top >= 0);
        assert!(rect.max.x + padding.right <= packing.canvas.width);
        assert!(rect.max.y + padding.bottom <= packing.canvas.height);
    }
    for i in 0..packing.placements.len() {
        for j in (i + 1)..packing.placements.len() {
            let a = packing.placements[i].2;
            let b = packing.placements[j].2;
            assert!(!overlap(&a, &b));
            let slot_a = IRect::new(
                a.min.x - padding.left,
                a.min.y - padding.top,
                a.width() + padding.hori(),
                a.height() + padding.vert(),
            );
            let slot_b = IRect::new(
                b.min.x - padding.left,
                b.min.y - padding.top,
                b.width() + padding.hori(),
                b.height() + padding.vert(),
            );
            assert!(!overlap(&slot_a, &slot_b));
        }
    }
}

fn varied_sizes(count: usize) -> Vec<(usize, usize, ISize)> {
    let mut state: u32 = 12345;
    let mut sizes = Vec::new();
    for i in 0..count {
        state = state.wrapping_mul(1664525).wrapping_add(1013904223);
        let w = ((state >> 8) % 24) as i32;
        state = state.wrapping_mul(1664525).wrapping_add(1013904223);
        let h = ((state >> 8) % 24) as i32;
        sizes.push((i / 10, i % 10, ISize::new(w, h)));
    }
    sizes
}

#[test]
fn three_sprites_share_one_row() {
    let sizes = vec![
        (0usize, 0usize, ISize::new(10, 20)),
        (0, 1, ISize::new(15, 20)),
        (0, 2, ISize::new(5, 5)),
    ];
    let packing = pack_sprites(&sizes, IMargins::uniform(0), 32, i32::MAX).unwrap();
    assert_eq!(packing.placements.len(), 3);
    assert_eq!(packing.placements[0], (0, 0, IRect::new(0, 0, 10, 20)));
    assert_eq!(packing.placements[1], (0, 1, IRect::new(10, 0, 15, 20)));
    assert_eq!(packing.placements[2], (0, 2, IRect::new(25, 0, 5, 5)));
    assert!(packing.canvas.height >= 20);
    assert_eq!(packing.canvas, ISize::new(32, 32));
    assert_eq!(packing.retries, 0);
}

#[test]
fn oversized_sprite_is_refused() {
    let sizes = vec![(0usize, 0usize, ISize::new(2000, 2000))];
    let result = pack_sprites(&sizes, IMargins::uniform(0), 1, 1024);
    assert!(matches!(result, Err(PackError::SpriteTooLarge { .. })));
}

#[test]
fn oversized_sprite_reports_first_canvas() {
    let sizes = vec![(0usize, 0usize, ISize::new(4, 4)), (0, 1, ISize::new(1025, 1))];
    let result = pack_sprites(&sizes, IMargins::uniform(0), 16, 1024);
    assert_eq!(result.unwrap_err(), PackError::SpriteTooLarge { canvas: ISize::new(16, 16) });
}

#[test]
fn too_tall_sprite_exhausts_the_canvases() {
    let sizes = vec![(0usize, 0usize, ISize::new(10, 2000))];
    let result = pack_sprites(&sizes, IMargins::uniform(0), 64, 1024);
    assert_eq!(result.unwrap_err(), PackError::CanvasLimitExceeded { canvas: ISize::new(1024, 1024) });
}

#[test]
fn limit_that_is_no_power_of_two_is_kept() {
    let sizes = vec![(0usize, 0usize, ISize::new(10, 2000))];
    let result = pack_sprites(&sizes, IMargins::uniform(0), 64, 1000);
    assert_eq!(result.unwrap_err(), PackError::CanvasLimitExceeded { canvas: ISize::new(512, 512) });
}

#[test]
fn padding_can_make_a_sprite_too_wide() {
    let sizes = vec![(0usize, 0usize, ISize::new(1024, 1))];
    let result = pack_sprites(&sizes, IMargins::new(0, 0, 1, 0), 1024, 1024);
    assert_eq!(result.unwrap_err(), PackError::CanvasLimitExceeded { canvas: ISize::new(1024, 1024) });
}

#[test]
fn flat_sprite_that_never_fits_ends_the_attempt() {
    let sizes = vec![(0usize, 0usize, ISize::new(5, 0))];
    assert_eq!(try_shelf_pack(&sizes, IMargins::new(0, 0, 1, 0), 5, 5), None);
    let packing = pack_sprites(&sizes, IMargins::new(0, 0, 1, 0), 1, 1024).unwrap();
    assert_eq!(packing.canvas, ISize::new(8, 4));
    assert_eq!(packing.placements, vec![(0, 0, IRect::new(1, 0, 5, 0))]);
}

#[test]
fn no_sprites_need_one_pixel() {
    let packing = pack_sprites(&Vec::new(), IMargins::uniform(0), 0, 1024).unwrap();
    assert_eq!(packing.canvas, ISize::new(1, 1));
    assert!(packing.placements.is_empty());
    assert_eq!(packing.retries, 0);
}

#[test]
fn guess_is_held_to_the_limit() {
    let packing = pack_sprites(&Vec::new(), IMargins::uniform(0), 5000, 1024).unwrap();
    assert_eq!(packing.canvas, ISize::new(1024, 1024));
    let packing = pack_sprites(&Vec::new(), IMargins::uniform(0), u32::MAX, i32::MAX).unwrap();
    assert_eq!(packing.canvas, ISize::new(i32::MAX, i32::MAX));
}

#[test]
fn small_guess_is_retried() {
    let sizes: Vec<_> = (0..17).map(|i| (0usize, i as usize, ISize::new(4, 4))).collect();
    let packing = pack_sprites(&sizes, IMargins::uniform(0), 16, 1024).unwrap();
    assert!(packing.retries >= 1);
    assert_eq!(packing.retries, 1);
    assert_eq!(packing.canvas, ISize::new(32, 16));
    assert_eq!(packing.canvas.area(), 2 * ISize::new(16, 16).area());
    check_packing(&sizes, IMargins::uniform(0), &packing);
}

#[test]
fn canvas_grows_wide_then_high() {
    let sizes = vec![(0usize, 0usize, ISize::new(3, 40))];
    let packing = pack_sprites(&sizes, IMargins::uniform(0), 4, 1024).unwrap();
    assert_eq!(packing.retries, 8);
    assert_eq!(packing.canvas, ISize::new(64, 64));
    let sizes = vec![(0usize, 0usize, ISize::new(40, 3))];
    let packing = pack_sprites(&sizes, IMargins::uniform(0), 4, 1024).unwrap();
    assert_eq!(packing.retries, 7);
    assert_eq!(packing.canvas, ISize::new(64, 32));
    let sizes = vec![(0usize, 0usize, ISize::new(33, 3))];
    let packing = pack_sprites(&sizes, IMargins::uniform(0), 32, 1024).unwrap();
    assert_eq!(packing.retries, 1);
    assert_eq!(packing.canvas, ISize::new(64, 32));
}

#[test]
fn rows_wrap_when_full() {
    let sizes = vec![
        (0usize, 0usize, ISize::new(6, 4)),
        (0, 1, ISize::new(6, 8)),
        (0, 2, ISize::new(6, 6)),
        (0, 3, ISize::new(6, 2)),
    ];
    let placed = try_shelf_pack(&sort_tallest_first(&sizes), IMargins::uniform(0), 12, 16).unwrap();
    assert_eq!(
        placed,
        vec![
            (0, 1, IRect::new(0, 0, 6, 8)),
            (0, 2, IRect::new(6, 0, 6, 6)),
            (0, 0, IRect::new(0, 8, 6, 4)),
            (0, 3, IRect::new(6, 8, 6, 2)),
        ]
    );
    assert_eq!(try_shelf_pack(&sort_tallest_first(&sizes), IMargins::uniform(0), 12, 11), None);
    assert_eq!(try_shelf_pack(&sort_tallest_first(&sizes), IMargins::uniform(0), 5, 100), None);
}

#[test]
fn padding_surrounds_every_sprite() {
    let sizes = vec![(0usize, 0usize, ISize::new(4, 4)), (0, 1, ISize::new(4, 4))];
    let padding = IMargins::new(1, 2, 3, 4);
    let placed = try_shelf_pack(&sizes, padding, 22, 7).unwrap();
    assert_eq!(placed, vec![(0, 0, IRect::new(3, 1, 4, 4)), (0, 1, IRect::new(14, 1, 4, 4))]);
    assert_eq!(try_shelf_pack(&sizes, padding, 22, 6), None);
    let placed = try_shelf_pack(&sizes, padding, 21, 14).unwrap();
    assert_eq!(placed, vec![(0, 0, IRect::new(3, 1, 4, 4)), (0, 1, IRect::new(3, 8, 4, 4))]);
}

#[test]
fn sort_keeps_equal_heights_in_order() {
    let sizes = vec![
        (0usize, 0usize, ISize::new(1, 5)),
        (0, 1, ISize::new(2, 9)),
        (0, 2, ISize::new(3, 5)),
        (0, 3, ISize::new(4, 9)),
        (0, 4, ISize::new(5, 0)),
    ];
    let sorted = sort_tallest_first(&sizes);
    let ids: Vec<usize> = sorted.iter().map(|entry| entry.1).collect();
    assert_eq!(ids, vec![1, 3, 0, 2, 4]);
    assert_eq!(sort_tallest_first(&sorted), sorted);
}

#[test]
fn stable_order_reads_by_key_then_position() {
    assert_eq!(stable_order(&vec![3, 1, 2, 1, 3, 0]), vec![5, 1, 3, 2, 0, 4]);
    assert_eq!(stable_order(&Vec::new()), Vec::<usize>::new());
    assert_eq!(stable_order(&vec![u64::MAX, 0]), vec![1, 0]);
}

#[test]
fn many_sprites_are_packed_soundly() {
    for count in [1usize, 2, 7, 50, 300] {
        for padding in [IMargins::uniform(0), IMargins::uniform(1), IMargins::new(0, 3, 2, 0)] {
            let sizes = varied_sizes(count);
            let packing = pack_sprites(&sizes, padding, 1, 4096).unwrap();
            check_packing(&sizes, padding, &packing);
        }
    }
}

#[test]
fn packing_twice_gives_the_same() {
    let sizes = varied_sizes(120);
    let first = pack_sprites(&sizes, IMargins::uniform(1), 8, 1024).unwrap();
    let second = pack_sprites(&sizes, IMargins::uniform(1), 8, 1024).unwrap();
    assert_eq!(first.canvas, second.canvas);
    assert_eq!(first.placements, second.placements);
    assert_eq!(first.retries, second.retries);
    let again = pack_sprites(&sort_tallest_first(&sizes), IMargins::uniform(1), 8, 1024).unwrap();
    assert_eq!(first.canvas, again.canvas);
    assert_eq!(first.placements, again.placements);
}

#[test]
fn canvas_never_shrinks_over_retries() {
    let sizes = varied_sizes(200);
    let packing = pack_sprites(&sizes, IMargins::uniform(0), 2, 4096).unwrap();
    assert!(packing.retries > 0);
    let mut width = 2;
    let mut height = 2;
    for _ in 0..packing.retries {
        let area = width * height;
        if width <= height {
            width *= 2;
        } else {
            height *= 2;
        }
        assert_eq!(width * height, 2 * area);
        assert!(width >= height);
    }
    assert_eq!(packing.canvas, ISize::new(width, height));
}
