use tech_paws_graphics::lazy_graphics_resource::LazyGraphicsResource;
use tech_paws_graphics::memory::InstanceId;
use tech_paws_graphics::memory_new::{CapacityPlan, FlushPlan, GpuVec, SlotId};
use tech_paws_graphics::renderer::colored_plane::ColoredPlaneInstanceId;
use tech_paws_graphics::renderer::colored_plane_new::ColoredPlaneInstanceId as SlotPlaneId;
use tech_paws_graphics::resources::mesh_2d::{
    Mesh2DGpuPrimitive, Mesh2DId, Mesh2DInstanceId, Mesh2DResources, MeshDraw, StorageByteSizes,
};
use tech_paws_graphics::resources::mesh_2d_new::{
    Mesh2DResources as SlotMeshResources, MeshFlushPlans,
};
use tech_paws_graphics::resources::polyline::PolylineResources;
use tech_paws_graphics::svg::{
    new_primitive, Paint, PathConvIter, PathEvent, PathPrimitives, PathSegment,
    PrimitiveCollector,
};
use tech_paws_graphics::view::{surface_texture_usable, FrameAction, Graphics, SurfaceStatus};

// Path conversion -----------------------------------------------------------------------------

fn convert(segments: Vec<PathSegment<(i32, i32)>>) -> Vec<PathEvent<(i32, i32)>> {
    PathConvIter::new(segments, (0, 0)).collect_events()
}

#[test]
fn path_open_subpath_is_ended_at_the_end() {
    let events = convert(vec![PathSegment::MoveTo((1, 1)), PathSegment::LineTo((2, 3))]);
    assert_eq!(events.len(), 3);
    assert!(matches!(events[0], PathEvent::Begin { at: (1, 1) }));
    // The first line starts at the current point, which a first move leaves at the origin.
    assert!(matches!(events[1], PathEvent::Line { from: (0, 0), to: (2, 3) }));
    assert!(matches!(events[2], PathEvent::End { last: (2, 3), first: (1, 1), close: false }));
}

#[test]
fn path_close_ends_at_the_first_point() {
    let events = convert(vec![
        PathSegment::MoveTo((1, 1)),
        PathSegment::QuadTo((2, 2), (3, 1)),
        PathSegment::Close,
    ]);
    assert_eq!(events.len(), 3);
    assert!(matches!(events[1], PathEvent::Quadratic { from: (0, 0), ctrl: (2, 2), to: (3, 1) }));
    assert!(matches!(events[2], PathEvent::End { last: (1, 1), first: (1, 1), close: true }));
}

#[test]
fn path_second_move_ends_then_begins() {
    let events = convert(vec![
        PathSegment::MoveTo((0, 0)),
        PathSegment::LineTo((5, 0)),
        PathSegment::MoveTo((7, 7)),
        PathSegment::CubicTo((8, 8), (9, 8), (10, 7)),
    ]);
    assert_eq!(events.len(), 6);
    assert!(matches!(events[2], PathEvent::End { last: (5, 0), first: (0, 0), close: false }));
    assert!(matches!(events[3], PathEvent::Begin { at: (7, 7) }));
    assert!(matches!(
        events[4],
        PathEvent::Cubic { from: (7, 7), ctrl1: (8, 8), ctrl2: (9, 8), to: (10, 7) }
    ));
    assert!(matches!(events[5], PathEvent::End { last: (10, 7), first: (7, 7), close: false }));
}

#[test]
fn path_move_then_close_is_one_closed_subpath() {
    let events = convert(vec![PathSegment::MoveTo((4, 2)), PathSegment::Close]);
    assert_eq!(events.len(), 2);
    assert!(matches!(events[0], PathEvent::Begin { at: (4, 2) }));
    assert!(matches!(events[1], PathEvent::End { last: (4, 2), first: (4, 2), close: true }));
}

#[test]
fn path_move_after_drawn_subpath_then_close() {
    let events = convert(vec![
        PathSegment::MoveTo((0, 0)),
        PathSegment::LineTo((3, 0)),
        PathSegment::MoveTo((6, 6)),
        PathSegment::Close,
    ]);
    assert_eq!(events.len(), 5);
    assert!(matches!(events[2], PathEvent::End { last: (3, 0), first: (0, 0), close: false }));
    assert!(matches!(events[3], PathEvent::Begin { at: (6, 6) }));
    assert!(matches!(events[4], PathEvent::End { last: (6, 6), first: (6, 6), close: true }));
}

#[test]
fn path_empty_yields_nothing() {
    let mut it = PathConvIter::new(Vec::<PathSegment<(i32, i32)>>::new(), (0, 0));
    assert!(it.next().is_none());
    assert!(it.next().is_none());
}

// Primitives ----------------------------------------------------------------------------------

#[test]
fn primitive_color_is_packed_rgba() {
    let p = new_primitive(3, 0x12, 0x34, 0x56, 0x78);
    assert_eq!(p.transform, 3);
    assert_eq!(p.color, 0x1234_5678);
    assert_eq!(p._pad, [0, 0]);
    assert_eq!(new_primitive(0, 255, 255, 255, 255).color, u32::MAX);
}

#[test]
fn collector_counts_transforms_and_primitives() {
    let red = Paint { red: 255, green: 0, blue: 0, alpha: 255 };
    let blue = Paint { red: 0, green: 0, blue: 255, alpha: 128 };
    let mut c = PrimitiveCollector::new();

    let first = c.add_path(true, Some(red), Some(blue));
    assert_eq!(first, PathPrimitives { transform_idx: 0, fill: Some(0), stroke: Some(1) });

    // Same transform: no new transform, the index stays.
    let second = c.add_path(false, None, Some(red));
    assert_eq!(second, PathPrimitives { transform_idx: 0, fill: None, stroke: Some(2) });

    let third = c.add_path(true, Some(blue), None);
    assert_eq!(third, PathPrimitives { transform_idx: 1, fill: Some(3), stroke: None });

    assert_eq!(c.transforms_len(), 2);
    let colors: Vec<u32> = c.primitives().iter().map(|p| p.color).collect();
    assert_eq!(colors, vec![0xff00_00ff, 0x0000_ff80, 0xff00_00ff, 0x0000_ff80]);
    let transforms: Vec<u32> = c.primitives().iter().map(|p| p.transform).collect();
    assert_eq!(transforms, vec![0, 0, 0, 1]);
}

// Identifiers ---------------------------------------------------------------------------------

#[test]
fn identifiers_round_trip_their_index() {
    let id = ColoredPlaneInstanceId::from_index(7);
    assert_eq!(id.index(), 7);
    assert!(id == ColoredPlaneInstanceId::from_index(7));
    assert!(id != ColoredPlaneInstanceId::from_index(8));
    let slot = <SlotPlaneId as SlotId>::from_index(9);
    assert_eq!(slot.index(), 9);
    let mesh = <Mesh2DId as SlotId>::from_index(4);
    assert_eq!(mesh.value, 4);
}

#[test]
fn mesh_instance_ids_compare_by_slot_only() {
    let a = Mesh2DInstanceId { mesh_id: Mesh2DId { value: 1 }, value: 5 };
    let b = Mesh2DInstanceId { mesh_id: Mesh2DId { value: 2 }, value: 5 };
    assert!(a == b);
    assert_eq!(a.index(), 5);
}

// Lazy resources ------------------------------------------------------------------------------

#[test]
fn lazy_resource_holds_value_once_initialized() {
    let mut r: LazyGraphicsResource<i32> = LazyGraphicsResource::new();
    assert!(!r.initialized());
    r.init(5);
    assert!(r.initialized());
    assert_eq!(*r.as_ref(), 5);
    *r.as_mut() = 6;
    assert_eq!(*r.as_ref(), 6);
    let d: LazyGraphicsResource<i32> = LazyGraphicsResource::default();
    assert!(!d.initialized());
}

// GpuVec plans --------------------------------------------------------------------------------

#[test]
fn gpu_vec_recreates_buffer_when_it_outgrows_it() {
    let mut v: GpuVec<u8> = GpuVec::new(2);
    v.push(1);
    assert_eq!(
        v.flush(),
        FlushPlan { capacity: CapacityPlan::Recreate { flush_old: None, capacity: 2 }, upload: Some(1) }
    );
    v.push(2);
    assert_eq!(v.flush(), FlushPlan { capacity: CapacityPlan::Keep, upload: Some(2) });
    v.push(3);
    // The storage doubled; the old buffer first gets the elements it had room for.
    assert_eq!(
        v.flush(),
        FlushPlan {
            capacity: CapacityPlan::Recreate { flush_old: Some(2), capacity: 4 },
            upload: Some(3),
        }
    );
    assert!(v.take_buffer_resized());
    assert!(!v.take_buffer_resized());
}

// Meshes --------------------------------------------------------------------------------------

#[test]
fn meshes_get_consecutive_ids_and_storage_sizes() {
    let mut r: Mesh2DResources<&str, [u8; 32], [u8; 16], ()> = Mesh2DResources::new();
    let prims = [new_primitive(0, 1, 2, 3, 4)];
    let (a, sizes_a) = r.load_mesh_to_gpu("a", 6, &prims, [0; 32], [0; 16]);
    assert_eq!(a.value, 0);
    assert_eq!(sizes_a, StorageByteSizes { primitives: 16 * 1024, transforms: 32, mesh_sizes: 16 });
    let (b, sizes_b) = r.load_mesh_to_gpu("b", 9, &[], [0; 32], [0; 16]);
    assert_eq!(b.value, 1);
    assert_eq!(sizes_b, StorageByteSizes { primitives: 2 * 16 * 1024, transforms: 64, mesh_sizes: 32 });
    assert_eq!(r.primitives().len(), 2);
    assert_eq!(r.transforms().len(), 2);
    assert_eq!(r.mesh_sizes().len(), 2);
    r.set_storage(());

    let (mesh, draw) = r.render(Mesh2DInstanceId { mesh_id: b, value: 3 });
    assert_eq!(*mesh, "b");
    assert_eq!(draw, MeshDraw { index_count: 9, first_instance: 3, end_instance: 4 });
}

#[test]
fn slot_meshes_flush_their_storage() {
    let mut r: SlotMeshResources<u8, u16, u32> = SlotMeshResources::new();
    let prims = [Mesh2DGpuPrimitive { transform: 0, color: 7, _pad: [0, 0] }];
    let (id, plans) = r.load_mesh_to_gpu(10, 3, &prims, 1, 2);
    assert_eq!(id.value, 0);
    let first = FlushPlan {
        capacity: CapacityPlan::Recreate { flush_old: None, capacity: 8 },
        upload: Some(1),
    };
    assert_eq!(plans, MeshFlushPlans { primitives: first, transforms: first, sizes: first });
    assert!(r.take_buffer_resized());
    assert!(!r.take_buffer_resized());

    let (id2, plans2) = r.load_mesh_to_gpu(11, 5, &[], 3, 4);
    assert_eq!(id2.value, 1);
    let keep = FlushPlan { capacity: CapacityPlan::Keep, upload: Some(2) };
    assert_eq!(plans2, MeshFlushPlans { primitives: keep, transforms: keep, sizes: keep });
    assert_eq!(r.transforms_data(), &[1, 3]);
    assert_eq!(r.sizes_data(), &[2, 4]);
    assert_eq!(r.primitives_data().len(), 2);
    assert_eq!(r.transforms_byte_size(), 4);
    assert_eq!(r.mesh_sizes_byte_size(), 8);
    assert_eq!(r.primitives_byte_size(), 2 * 16 * 1024);

    let (mesh, draw) = r.render_slot(6, id2);
    assert_eq!(*mesh, 11);
    assert_eq!(draw, MeshDraw { index_count: 5, first_instance: 6, end_instance: 7 });
}

// Polylines -----------------------------------------------------------------------------------

#[test]
fn polyline_points_form_a_chain() {
    let mut p: PolylineResources<i32, u8> = PolylineResources::new(1);
    p.add_point(10);
    assert!(p.is_empty());
    p.add_point(20);
    p.set_style(2);
    p.add_point(30);
    let segs: Vec<(i32, i32, u8)> = p.data().iter().map(|s| (s.from, s.to, s.style)).collect();
    assert_eq!(segs, vec![(10, 20, 1), (20, 30, 2)]);

    p.clear();
    assert_eq!(p.len(), 0);
    // After a clear the next point starts a new chain.
    p.add_point(40);
    assert_eq!(p.len(), 0);
    assert_eq!(p.style(), 2);
}

#[test]
fn polyline_rect_is_a_closed_outline() {
    let mut p: PolylineResources<i32, u8> = PolylineResources::new(0);
    p.add_rect(1, 2, 3, 4);
    let segs: Vec<(i32, i32)> = p.data().iter().map(|s| (s.from, s.to)).collect();
    assert_eq!(segs, vec![(1, 2), (2, 3), (3, 4), (4, 1)]);
    // The rectangle ends at its first corner, where the next point joins.
    p.add_point(9);
    assert_eq!(p.data()[4].from, 1);
    p.add_line(5, 6);
    assert_eq!((p.data()[5].from, p.data()[5].to), (5, 6));
}

// Frame scheduling ----------------------------------------------------------------------------

#[test]
fn frames_suspend_when_nothing_asks_for_them() {
    let mut g = Graphics::new(1, ());
    assert!(g.should_render(None));
    assert!(!g.should_render(Some(false)));
    g.frame_presented();
    assert_eq!(g.render(false, 10), FrameAction::Suspend);
    assert!(g.is_suspended());
    assert_eq!(g.rendered_frames(), 0);
}

#[test]
fn frame_rate_counts_the_frames_of_a_window() {
    let mut g = Graphics::new(1, ());
    for _ in 0..3 {
        assert_eq!(g.render(true, 10), FrameAction::Render { restart_fps_timer: false });
        g.frame_presented();
    }
    assert_eq!(g.fps(), 0);
    assert_eq!(g.render(true, 1000), FrameAction::Render { restart_fps_timer: true });
    assert_eq!(g.fps(), 3);
    assert_eq!(g.rendered_frames(), 0);
}

#[test]
fn resize_wakes_the_view_for_one_frame() {
    let mut g = Graphics::new(7, 0u8);
    assert!(!g.set_view_parameters(true, true));
    assert!(!g.set_view_parameters(false, false));
    assert!(!g.is_woken());
    assert!(g.set_view_parameters(false, true));
    assert!(g.should_render(Some(false)));
    assert_eq!(g.render(false, 0), FrameAction::Render { restart_fps_timer: false });
    assert!(!g.is_woken());
    assert_eq!(g.render(false, 0), FrameAction::Suspend);
    assert_eq!(g.id(), 7);
    *g.gpu_mut() = 3;
    assert_eq!(*g.gpu(), 3);
}

#[test]
fn only_live_surfaces_are_drawn_into() {
    assert!(surface_texture_usable(SurfaceStatus::Success));
    assert!(surface_texture_usable(SurfaceStatus::Suboptimal));
    for s in [
        SurfaceStatus::Timeout,
        SurfaceStatus::Occluded,
        SurfaceStatus::Outdated,
        SurfaceStatus::Lost,
        SurfaceStatus::Validation,
    ] {
        assert!(!surface_texture_usable(s));
    }
}

#[test]
fn path_events_count_moves_and_closes_and_join_up() {
    let events = convert(vec![
        PathSegment::MoveTo((0, 0)),
        PathSegment::LineTo((1, 0)),
        PathSegment::LineTo((1, 1)),
        PathSegment::Close,
        PathSegment::MoveTo((5, 5)),
        PathSegment::QuadTo((6, 6), (7, 5)),
        PathSegment::MoveTo((9, 9)),
        PathSegment::LineTo((9, 8)),
    ]);
    let begins = events.iter().filter(|e| matches!(e, PathEvent::Begin { .. })).count();
    let ends = events.iter().filter(|e| matches!(e, PathEvent::End { .. })).count();
    let closing = events
        .iter()
        .filter(|e| matches!(e, PathEvent::End { close: true, .. }))
        .count();
    assert_eq!((begins, ends, closing), (3, 3, 1));
    assert!(matches!(events.last(), Some(PathEvent::End { last: (9, 8), first: (9, 9), close: false })));
    // The second line starts where the first ended.
    assert!(matches!(events[2], PathEvent::Line { from: (1, 0), to: (1, 1) }));
    // An open sub-path ends at the end of its last curve.
    assert!(matches!(events[6], PathEvent::End { last: (7, 5), first: (5, 5), close: false }));
}
