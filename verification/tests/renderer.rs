use vkengine::renderer::camera::ActiveCamera;
use vkengine::renderer::debug::{message_level, MessageLevel};
use vkengine::renderer::device::{best_device, device_score, DeviceKind};
use vkengine::renderer::events::{handle_render_event, RenderDecision, RenderEvent};
use vkengine::renderer::geometry::Shape;
use vkengine::renderer::queues::{
    assign_queues, plan_queues, QueueFamily, QueueFamilyIds, QueueFamilyTypes, QueueSlots,
};
use vkengine::renderer::swapchain::{
    choose_composite_alpha, choose_present_mode, clamp_extent, image_count, initial_extent,
    CompositeAlpha, PresentMode,
};

fn family(id: u32, compute: bool, graphics: bool, present: bool) -> QueueFamily {
    QueueFamily {
        id,
        supports_compute: compute,
        supports_graphics: graphics,
        supports_present: present,
    }
}

#[test]
fn no_family_is_chosen_at_first() {
    let ids = QueueFamilyIds::none();
    assert_eq!(ids.general, None);
    assert_eq!(ids.compute, None);
    assert_eq!(ids.graphics, None);
    assert_eq!(ids.present, None);
}

#[test]
fn families_are_sorted_into_roles() {
    let families = vec![
        family(0, true, true, true),
        family(1, true, false, false),
        family(2, false, true, true),
        family(3, false, false, true),
        family(4, false, true, false),
        family(5, true, true, false),
    ];
    let ids = QueueFamilyIds::from_queue_families_iter(&families);
    assert_eq!(ids.general, Some(0));
    assert_eq!(ids.compute, Some(5));
    assert_eq!(ids.graphics, Some(2));
    assert_eq!(ids.present, Some(3));
}

#[test]
fn the_last_family_of_a_role_wins() {
    let families = vec![
        family(7, true, true, true),
        family(8, true, true, true),
        family(9, false, false, false),
    ];
    let ids = QueueFamilyIds::from_queue_families_iter(&families);
    assert_eq!(ids.general, Some(8));
    assert_eq!(ids.compute, None);
    assert_eq!(ids.graphics, None);
    assert_eq!(ids.present, None);
    let none = QueueFamilyIds::from_queue_families_iter(&Vec::new());
    assert_eq!(none.general, None);
}

#[test]
fn general_family_gives_up_to_four_queues() {
    let mut ids = QueueFamilyIds::none();
    ids.general = Some(2);
    ids.graphics = Some(5);
    ids.compute = Some(6);
    assert_eq!(
        plan_queues(&ids, 16),
        vec![(2, QueueFamilyTypes::General); 4]
    );
    assert_eq!(
        plan_queues(&ids, 3),
        vec![(2, QueueFamilyTypes::General); 3]
    );
    ids.present = Some(9);
    assert_eq!(
        plan_queues(&ids, 1),
        vec![(2, QueueFamilyTypes::General), (9, QueueFamilyTypes::Present)]
    );
    assert_eq!(plan_queues(&ids, 0), vec![(9, QueueFamilyTypes::Present)]);
}

#[test]
fn without_a_general_family_each_role_gets_its_own_queue() {
    let mut ids = QueueFamilyIds::none();
    ids.graphics = Some(5);
    ids.compute = Some(6);
    ids.present = Some(7);
    assert_eq!(
        plan_queues(&ids, 16),
        vec![
            (5, QueueFamilyTypes::Graphics),
            (6, QueueFamilyTypes::Compute),
            (7, QueueFamilyTypes::Present),
        ]
    );
    assert_eq!(plan_queues(&QueueFamilyIds::none(), 4), Vec::new());
}

#[test]
fn queues_are_handed_their_roles() {
    let general = vec![QueueFamilyTypes::General; 4];
    assert_eq!(
        assign_queues(&general),
        Some(QueueSlots {
            general: 0,
            compute: 1,
            graphics: 2,
            present: 3
        })
    );
    let split = vec![
        QueueFamilyTypes::Graphics,
        QueueFamilyTypes::Compute,
        QueueFamilyTypes::Present,
    ];
    assert_eq!(
        assign_queues(&split),
        Some(QueueSlots {
            general: 0,
            compute: 1,
            graphics: 0,
            present: 0
        })
    );
    assert_eq!(
        assign_queues(&vec![QueueFamilyTypes::General]),
        Some(QueueSlots {
            general: 0,
            compute: 0,
            graphics: 0,
            present: 0
        })
    );
    assert_eq!(assign_queues(&Vec::new()), None);
}

#[test]
fn devices_are_scored_by_kind_and_version() {
    assert_eq!(device_score(DeviceKind::DiscreteGpu, 1, 1, 70), 11_240);
    assert_eq!(device_score(DeviceKind::IntegratedGpu, 1, 0, 3), 6_006);
    assert_eq!(device_score(DeviceKind::Other, 0, 0, 0), 0);
    assert_eq!(
        device_score(DeviceKind::DiscreteGpu, u16::MAX, u16::MAX, u16::MAX),
        10_000 + 65_535 * 1_102
    );
}

#[test]
fn the_highest_score_wins_and_ties_go_to_the_last() {
    assert_eq!(best_device(&vec![5, 9, 3]), Some(1));
    assert_eq!(best_device(&vec![9, 5, 9, 1]), Some(2));
    assert_eq!(best_device(&vec![4]), Some(0));
    assert_eq!(best_device(&vec![0, 0]), None);
    assert_eq!(best_device(&Vec::new()), None);
}

#[test]
fn image_count_is_the_larger_bound() {
    assert_eq!(image_count(2, Some(8)), 8);
    assert_eq!(image_count(2, None), 2);
    assert_eq!(image_count(3, Some(1)), 3);
    assert_eq!(image_count(3, Some(3)), 3);
}

#[test]
fn first_extent_is_the_current_one_or_the_default() {
    assert_eq!(initial_extent(Some([800, 600])), [800, 600]);
    assert_eq!(initial_extent(Some([0, 0])), [0, 0]);
    assert_eq!(initial_extent(None), [1600, 900]);
}

#[test]
fn extent_is_clamped_in_dictionary_order() {
    let min = [100, 100];
    let max = [2000, 1000];
    assert_eq!(clamp_extent(Some([800, 600]), min, max), [800, 600]);
    assert_eq!(clamp_extent(None, min, max), [100, 100]);
    assert_eq!(clamp_extent(Some([50, 5000]), min, max), [100, 100]);
    assert_eq!(clamp_extent(Some([100, 50]), min, max), [100, 100]);
    assert_eq!(clamp_extent(Some([3000, 10]), min, max), [2000, 1000]);
    assert_eq!(clamp_extent(Some([2000, 1001]), min, max), [2000, 1000]);
    // Only the width decides while it differs.
    assert_eq!(clamp_extent(Some([500, 5000]), min, max), [500, 5000]);
}

#[test]
fn opaque_windows_are_preferred() {
    let first = Some(CompositeAlpha::PreMultiplied);
    assert_eq!(
        choose_composite_alpha(true, true, first),
        Some(CompositeAlpha::Opaque)
    );
    assert_eq!(
        choose_composite_alpha(false, true, first),
        Some(CompositeAlpha::Inherit)
    );
    assert_eq!(choose_composite_alpha(false, false, first), first);
    assert_eq!(
        choose_composite_alpha(false, false, Some(CompositeAlpha::PostMultiplied)),
        Some(CompositeAlpha::PostMultiplied)
    );
    assert_eq!(choose_composite_alpha(false, false, None), None);
}

#[test]
fn mailbox_is_preferred_then_fifo() {
    let first = Some(PresentMode::Immediate);
    assert_eq!(
        choose_present_mode(true, true, first),
        Some(PresentMode::Mailbox)
    );
    assert_eq!(
        choose_present_mode(false, true, first),
        Some(PresentMode::Fifo)
    );
    assert_eq!(choose_present_mode(false, false, first), first);
    assert_eq!(
        choose_present_mode(false, false, Some(PresentMode::Relaxed)),
        Some(PresentMode::Relaxed)
    );
    assert_eq!(choose_present_mode(false, false, None), None);
}

#[test]
fn driver_messages_are_logged_by_their_gravest_flag() {
    assert_eq!(
        message_level(true, true, true, true, true),
        Some(MessageLevel::Error)
    );
    assert_eq!(
        message_level(false, true, false, true, true),
        Some(MessageLevel::Warn)
    );
    assert_eq!(
        message_level(false, false, true, true, true),
        Some(MessageLevel::Warn)
    );
    assert_eq!(
        message_level(false, false, false, true, true),
        Some(MessageLevel::Info)
    );
    assert_eq!(
        message_level(false, false, false, false, true),
        Some(MessageLevel::Debug)
    );
    assert_eq!(message_level(false, false, false, false, false), None);
}

#[test]
fn render_events_switch_rendering() {
    assert_eq!(
        handle_render_event(true, RenderEvent::WindowResized),
        RenderDecision {
            should_render: true,
            recreate_swapchain: true
        }
    );
    assert_eq!(
        handle_render_event(false, RenderEvent::WindowResized),
        RenderDecision {
            should_render: false,
            recreate_swapchain: true
        }
    );
    assert_eq!(
        handle_render_event(true, RenderEvent::StopRendering),
        RenderDecision {
            should_render: false,
            recreate_swapchain: false
        }
    );
    assert_eq!(
        handle_render_event(false, RenderEvent::StartRendering),
        RenderDecision {
            should_render: true,
            recreate_swapchain: false
        }
    );
}

#[test]
fn markers_and_shapes_are_plain_values() {
    assert_eq!(ActiveCamera::default(), ActiveCamera);
    assert_eq!(Shape::Sphere(100, 100), Shape::Sphere(100, 100));
    assert_ne!(Shape::Cylinder(40), Shape::Cone(40));
    assert_ne!(Shape::Cube, Shape::Quad(1, 1));
    assert_ne!(Shape::Capsule(2, 3), Shape::Capsule(3, 2));
}
