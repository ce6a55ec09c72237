use game::buffers::index_buffer;
use game::paddle::{paddle_mesh, paddle_scale, PaddleMesh, PaddleScale, PADDLE_BOWL, PADDLE_RUGBY, PADDLE_SKATE};
use game::slots::SlotList;
use game::topology::{push_quad, push_shifted, skateboard_topology, sphere_grid_topology, unit_box_topology};
use game::{hosting_mode, render_backend};

#[test]
fn declares_webgpu_backend_and_hosted_mode() {
    assert_eq!(render_backend(), 1);
    assert_eq!(hosting_mode(), 0);
}

#[test]
fn single_cell_grid_is_two_triangles() {
    let t = sphere_grid_topology(1, 1);
    assert_eq!(t.vertex_count, 4);
    assert_eq!(t.indices, vec![0, 2, 1, 1, 2, 3]);
}

#[test]
fn grid_cells_follow_rows() {
    let t = sphere_grid_topology(2, 3);
    assert_eq!(t.vertex_count, 12);
    assert_eq!(t.indices.len(), 36);
    // cell (0, 1): a = 1, b = 5
    assert_eq!(&t.indices[6..12], &[1, 5, 2, 2, 5, 6]);
    // cell (1, 2): a = 6, b = 10
    assert_eq!(&t.indices[30..36], &[6, 10, 7, 7, 10, 11]);
    assert!(t.indices.iter().all(|&i| (i as u64) < t.vertex_count));
}

#[test]
fn empty_grid_has_no_triangles() {
    let t = sphere_grid_topology(0, 5);
    assert_eq!(t.vertex_count, 6);
    assert!(t.indices.is_empty());
    let t = sphere_grid_topology(4, 0);
    assert_eq!(t.vertex_count, 5);
    assert!(t.indices.is_empty());
}

#[test]
fn renderer_sphere_grid_sizes() {
    let t = sphere_grid_topology(24, 32);
    assert_eq!(t.vertex_count, 25 * 33);
    assert_eq!(t.indices.len(), 6 * 24 * 32);
    assert_eq!(*t.indices.iter().max().unwrap() as u64, t.vertex_count - 1);
}

#[test]
fn box_faces_are_quads() {
    let t = unit_box_topology();
    assert_eq!(t.vertex_count, 24);
    assert_eq!(t.indices.len(), 36);
    assert_eq!(&t.indices[0..6], &[0, 1, 2, 0, 2, 3]);
    assert_eq!(&t.indices[30..36], &[20, 21, 22, 20, 22, 23]);
}

#[test]
fn skateboard_deck_then_wheels() {
    let t = skateboard_topology();
    assert_eq!(t.vertex_count, 312 + 4 * 165);
    assert_eq!(t.indices.len(), 468 + 4 * 840);
    assert_eq!(&t.indices[462..468], &[308, 309, 310, 308, 310, 311]);
    // first cell of the first wheel, shifted past the deck's 312 vertices
    assert_eq!(&t.indices[468..474], &[312, 327, 313, 313, 327, 328]);
    // first cell of the last wheel
    let w = 468 + 3 * 840;
    assert_eq!(&t.indices[w..w + 6], &[807, 822, 808, 808, 822, 823]);
    assert!(t.indices.iter().all(|&i| (i as u64) < t.vertex_count));
}

#[test]
fn push_quad_appends_two_triangles() {
    let mut v = vec![9];
    push_quad(&mut v, 40);
    assert_eq!(v, vec![9, 40, 41, 42, 40, 42, 43]);
}

#[test]
fn push_shifted_offsets_every_index() {
    let mut v = vec![1];
    push_shifted(&mut v, &vec![0, 2, 1], 10);
    assert_eq!(v, vec![1, 10, 12, 11]);
}

#[test]
fn bricks_keep_their_indices() {
    let mut s: SlotList<&str> = SlotList::new();
    assert_eq!(s.add("a"), 0);
    assert_eq!(s.add("b"), 1);
    assert_eq!(s.add("c"), 2);
    s.vacate(1);
    assert_eq!(s.len(), 3);
    assert_eq!(s.get(0), Some(&"a"));
    assert_eq!(s.get(1), None);
    assert_eq!(s.get(2), Some(&"c"));
    assert_eq!(s.add("d"), 3);
    assert_eq!(s.live_indices(), vec![0, 2, 3]);
}

#[test]
fn vacating_twice_or_out_of_range_changes_nothing_more() {
    let mut s: SlotList<u32> = SlotList::new();
    s.add(7);
    s.add(8);
    s.vacate(0);
    s.vacate(0);
    s.vacate(5);
    assert_eq!(s.len(), 2);
    assert_eq!(s.live_indices(), vec![1]);
}

#[test]
fn live_mut_changes_only_live_slots() {
    let mut s: SlotList<u32> = SlotList::new();
    s.add(1);
    s.add(2);
    s.vacate(0);
    assert!(s.live_mut(0).is_none());
    assert!(s.live_mut(9).is_none());
    if let Some(x) = s.live_mut(1) {
        *x = 20;
    }
    assert_eq!(s.get(1), Some(&20));
    assert_eq!(s.get(0), None);
}

#[test]
fn clear_removes_every_slot() {
    let mut s: SlotList<u32> = SlotList::new();
    s.add(1);
    s.add(2);
    s.clear();
    assert_eq!(s.len(), 0);
    assert!(s.live_indices().is_empty());
    assert_eq!(s.add(3), 0);
}

#[test]
fn paddle_meshes_by_kind() {
    assert_eq!(paddle_mesh(PADDLE_SKATE), PaddleMesh::Skateboard);
    assert_eq!(paddle_mesh(PADDLE_RUGBY), PaddleMesh::Sphere);
    assert_eq!(paddle_mesh(PADDLE_BOWL), PaddleMesh::Hemisphere);
    assert_eq!(paddle_mesh(3), PaddleMesh::Cube);
    assert_eq!(paddle_mesh(255), PaddleMesh::Cube);
}

#[test]
fn paddle_scales_by_kind() {
    assert_eq!(paddle_scale(PADDLE_SKATE), PaddleScale { width: 1, height: 2 });
    assert_eq!(paddle_scale(PADDLE_RUGBY), PaddleScale { width: 1, height: 1 });
    assert_eq!(paddle_scale(PADDLE_BOWL), PaddleScale { width: 1, height: 1 });
    assert_eq!(paddle_scale(7), PaddleScale { width: 2, height: 2 });
}

#[test]
fn index_buffer_holds_four_bytes_per_index() {
    let b = index_buffer(&vec![1, 0x0102_0304, 0]);
    assert_eq!(b.count, 3);
    assert_eq!(b.bytes.len(), 12);
    let expect: Vec<u8> = [1u32, 0x0102_0304, 0].iter().flat_map(|w| w.to_ne_bytes()).collect();
    assert_eq!(b.bytes, expect);
}

#[test]
fn index_buffer_of_box() {
    let t = unit_box_topology();
    let b = index_buffer(&t.indices);
    assert_eq!(b.count, 36);
    assert_eq!(b.bytes.len(), 144);
}

#[test]
fn brick_indices_across_a_session() {
    let mut s: SlotList<u32> = SlotList::new();
    let a = s.add(10);
    let b = s.add(11);
    let c = s.add(12);
    s.vacate(b);
    let d = s.add(13);
    if let Some(x) = s.live_mut(a) {
        *x = 100;
    }
    assert!(s.live_mut(b).is_none());
    s.vacate(d);
    // the vacated slot stays empty, the others keep their items
    assert_eq!(s.get(b), None);
    assert_eq!(s.get(a), Some(&100));
    assert_eq!(s.get(c), Some(&12));
    assert_eq!(s.live_indices(), vec![a, c]);
    s.clear();
    assert!(s.live_indices().is_empty());
    assert_eq!(s.add(1), 0);
    assert_eq!(s.add(2), 1);
    assert_eq!(s.add(3), 2);
}
