use raster3d::depth::{depth_key, draw_order, painter_order};

fn key(v: f32) -> Option<i64> {
    depth_key(v.to_bits())
}

#[test]
fn farthest_is_painted_first() {
    let keys = vec![key(5.0), key(1.0), key(3.0)];
    assert_eq!(painter_order(&keys), vec![0, 2, 1]);
}

#[test]
fn keys_order_as_floats_do() {
    let vals = [f32::NEG_INFINITY, -3.5, -1.0, -0.25, 0.0, 1e-30, 0.5, 2.0, 1e30, f32::INFINITY];
    for w in vals.windows(2) {
        assert!(key(w[0]).unwrap() < key(w[1]).unwrap(), "{:?}", w);
    }
    assert_eq!(key(-0.0), key(0.0));
    assert_eq!(key(0.0), Some(0));
    assert_eq!(key(f32::NAN), None);
    assert_eq!(depth_key(0xffc0_0001), None);
}

#[test]
fn equal_depths_paint_later_ones_first() {
    let keys = vec![key(2.0), key(7.0), key(2.0), key(7.0)];
    assert_eq!(painter_order(&keys), vec![3, 1, 2, 0]);
}

#[test]
fn empty_and_single() {
    assert_eq!(painter_order(&vec![]), Vec::<usize>::new());
    assert_eq!(painter_order(&vec![key(1.0)]), vec![0]);
}

#[test]
fn missing_keys_still_give_every_triangle_once() {
    let keys = vec![key(1.0), None, key(3.0), key(2.0)];
    let mut order = painter_order(&keys);
    order.sort();
    assert_eq!(order, vec![0, 1, 2, 3]);
}

#[test]
fn hidden_triangles_are_dropped() {
    let visible = vec![true, false, true, true, false];
    let keys = vec![key(1.0), None, key(4.0), key(2.0), key(9.0)];
    assert_eq!(draw_order(&visible, &keys), vec![2, 3, 0]);
    assert_eq!(draw_order(&vec![false, false], &vec![key(1.0), key(2.0)]), Vec::<usize>::new());
}
