use nalgebra::{Isometry3, Matrix4, Translation3, Vector3};
use specs::prelude::{
    Component, ComponentEvent, DenseVecStorage, Dispatcher, DispatcherBuilder, Builder, Entities,
    Entity, FlaggedStorage, Join, ReadExpect, ReadStorage, ReaderId, Resources, System,
    SystemData, VecStorage, World, Write, WriteStorage,
};
use specs_hierarchy::{Hierarchy, HierarchyEvent, HierarchySystem, Parent};
use vkengine::hierarchy::Hierarchy as HierarchyIndex;
use vkengine::resources::DirtyEntities;
use vkengine::storage::{FlaggedStorage as Locals, VecStorage as Globals};
use vkengine::systems::TransformSystem as SyncEngine;

/// Component defining a link in a hierarchy of components
#[derive(Debug, Copy, Clone)]
struct Link {
    parent: Entity,
}

impl Link {
    fn new(parent: Entity) -> Self {
        Self { parent }
    }
}

impl Component for Link {
    type Storage = FlaggedStorage<Self, DenseVecStorage<Self>>;
}

impl Parent for Link {
    fn parent_entity(&self) -> Entity {
        self.parent
    }
}

impl From<Link> for vkengine::components::Link {
    fn from(link: Link) -> Self {
        vkengine::components::Link::new(link.parent.id())
    }
}

/// Transform (translation, rotation, scale)
#[derive(Clone, Copy, Debug, PartialEq)]
struct Transform {
    iso: Isometry3<f32>,
    scale: Vector3<f32>,
}

impl Transform {
    fn to_matrix(&self) -> Matrix4<f32> {
        self.iso
            .to_homogeneous()
            .prepend_nonuniform_scaling(&self.scale)
    }

}

impl Component for Transform {
    type Storage = FlaggedStorage<Self, VecStorage<Self>>;
}

impl From<Vector3<f32>> for Transform {
    fn from(vector: Vector3<f32>) -> Self {
        let mut iso = Isometry3::identity();
        iso.append_translation_mut(&Translation3::from(vector));
        Self {
            iso,
            ..Self::default()
        }
    }
}

impl Default for Transform {
    fn default() -> Self {
        Transform {
            iso: Isometry3::identity(),
            scale: Vector3::new(1.0, 1.0, 1.0),
        }
    }
}

/// The composed world transform of an object
#[derive(Clone, Copy, Debug, PartialEq)]
struct GlobalTransform {
    matrix: Matrix4<f32>,
}

impl GlobalTransform {
    fn to_matrix(&self) -> Matrix4<f32> {
        self.matrix
    }
}

impl Component for GlobalTransform {
    type Storage = FlaggedStorage<Self, VecStorage<Self>>;
}

impl From<Matrix4<f32>> for GlobalTransform {
    fn from(matrix: Matrix4<f32>) -> Self {
        Self { matrix }
    }
}

/// Replays what the component storages and the hierarchy report into the
/// library's view of the scene, runs the pass, and writes the world
/// transforms back.
struct TransformSystem {
    engine: SyncEngine,
    index: HierarchyIndex,
    locals: Locals<Matrix4<f32>>,
    globals: Globals<Matrix4<f32>>,
    transform_reader_id: Option<ReaderId<ComponentEvent>>,
    hierarchy_reader_id: Option<ReaderId<HierarchyEvent>>,
}

impl TransformSystem {
    fn replay_transforms(&mut self, entities: &Entities<'_>, transforms: &ReadStorage<'_, Transform>) {
        let events = transforms
            .channel()
            .read(self.transform_reader_id.as_mut().unwrap());
        for event in events {
            match *event {
                ComponentEvent::Removed(id) => {
                    self.locals.remove(id);
                }
                ComponentEvent::Inserted(id) | ComponentEvent::Modified(id) => {
                    match transforms.get(entities.entity(id)) {
                        Some(transform) => {
                            self.locals
                                .insert(id, transform.to_matrix())
                                .expect("Entity index beyond what the dirty set can hold");
                        }
                        None => {
                            self.locals.remove(id);
                        }
                    }
                }
            }
        }
    }

    fn replay_hierarchy(&mut self, entities: &Entities<'_>, hierarchy: &Hierarchy<Link>) {
        let events = hierarchy
            .changed()
            .read(self.hierarchy_reader_id.as_mut().unwrap());
        for event in events {
            match *event {
                HierarchyEvent::Removed(entity) => {
                    let _ = entities.delete(entity);
                    self.index.remove(entity.id());
                }
                HierarchyEvent::Modified(entity) => match hierarchy.parent(entity) {
                    Some(parent) => {
                        self.index
                            .insert(entity.id(), Link::new(parent).into())
                            .expect("Parent links must form a forest");
                    }
                    None => {
                        self.index.detach(entity.id());
                    }
                },
            }
        }
    }

    fn write_back(&self, entities: &Entities<'_>, globals: &mut WriteStorage<'_, GlobalTransform>) {
        let known = (&**entities, globals.mask().clone())
            .join()
            .map(|(entity, _)| entity)
            .collect::<Vec<_>>();
        for entity in known {
            if !self.globals.contains(entity.id()) {
                let _ = globals.remove(entity);
            }
        }
        for id in 0..self.globals.extent() as u32 {
            if let Some(world) = self.globals.get(id) {
                let entity = entities.entity(id);
                let world = GlobalTransform::from(world);
                if globals.get(entity) != Some(&world) {
                    let _ = globals.insert(entity, world);
                }
            }
        }
    }
}

impl<'a> System<'a> for TransformSystem {
    type SystemData = (
        Entities<'a>,
        Write<'a, DirtyEntities>,
        ReadExpect<'a, Hierarchy<Link>>,
        ReadStorage<'a, Transform>,
        WriteStorage<'a, GlobalTransform>,
    );

    fn run(
        &mut self,
        (entities, mut dirty_entities, hierarchy, transforms, mut globals): Self::SystemData,
    ) {
        self.replay_transforms(&entities, &transforms);
        self.replay_hierarchy(&entities, &hierarchy);

        self.engine.run(
            &mut dirty_entities,
            &self.index,
            &mut self.locals,
            &mut self.globals,
            Matrix4::identity(),
            |world: Matrix4<f32>, outer: Matrix4<f32>| outer * world,
        );

        self.write_back(&entities, &mut globals);
    }

    fn setup(&mut self, res: &mut Resources) {
        Self::SystemData::setup(res);

        {
            let mut transforms = WriteStorage::<Transform>::fetch(res);
            let mut hierarchy = res.fetch_mut::<Hierarchy<Link>>();

            self.transform_reader_id = Some(transforms.register_reader());
            self.hierarchy_reader_id = Some(hierarchy.track());
        }

        {
            let entities = Entities::fetch(res);
            let transforms = ReadStorage::<Transform>::fetch(res);
            let hierarchy = res.fetch::<Hierarchy<Link>>();
            let mut globals = WriteStorage::<GlobalTransform>::fetch(res);
            let mut dirty_entities = Write::<DirtyEntities>::fetch(res);

            for (entity, transform) in (&*entities, &transforms).join() {
                self.locals
                    .insert(entity.id(), transform.to_matrix())
                    .expect("Entity index beyond what the dirty set can hold");
            }
            for child in hierarchy.all() {
                if let Some(parent) = hierarchy.parent(*child) {
                    self.index
                        .insert(child.id(), Link::new(parent).into())
                        .expect("Parent links must form a forest");
                }
            }
            for (entity, global) in (&*entities, &globals).join() {
                self.globals
                    .insert(entity.id(), global.matrix)
                    .expect("Entity index beyond what the dirty set can hold");
            }

            self.engine.setup(
                &mut dirty_entities,
                &self.index,
                &self.locals,
                &mut self.globals,
                Matrix4::identity(),
            );
            self.write_back(&entities, &mut globals);
        }
    }
}

impl Default for TransformSystem {
    fn default() -> Self {
        Self {
            engine: SyncEngine::default(),
            index: HierarchyIndex::new(),
            locals: Locals::new(),
            globals: Globals::new(),
            transform_reader_id: None,
            hierarchy_reader_id: None,
        }
    }
}

fn world<'a, 'b>() -> (World, Dispatcher<'a, 'b>) {
    let mut world = World::new();
    let hierarchy_sys = HierarchySystem::<Link>::new();
    let transform_sys = TransformSystem::default();

    world.register::<Transform>();
    world.register::<GlobalTransform>();
    world.register::<Link>();

    let mut dispatcher = DispatcherBuilder::new()
        .with(hierarchy_sys, "hs", &[])
        .with(transform_sys, "ts", &["hs"])
        .build();

    dispatcher.setup(&mut world.res);

    (world, dispatcher)
}

// Test if TransformMatrix is inserted and synced
#[test]
fn transform_basic() {
    let (mut world, mut dispatcher) = world();

    let tra = Transform::from(Vector3::new(5.9, 3.9, 1.0));
    let e1 = world.create_entity().with(tra.clone()).build();

    dispatcher.dispatch(&world.res);

    let sys_mat = world
        .read_storage::<GlobalTransform>()
        .get(e1)
        .unwrap()
        .to_matrix();

    let tra_mat = tra.to_matrix();

    assert_eq!(sys_mat, tra_mat);
}

// Test if matrix is synced even if parent is after child
#[test]
fn transform_complex() {
    let (mut world, mut dispatcher) = world();

    let tra = Transform::from(Vector3::new(5.9, 3.9, 1.0));
    let e1 = world.create_entity().with(tra.clone()).build();

    let e2 = world.create_entity().with(tra.clone()).build();

    {
        let mut links = world.write_storage::<Link>();
        links.insert(e1, Link::new(e2)).unwrap();
    }

    world.maintain();

    dispatcher.dispatch(&world.res);

    let abs_tra_e1 = world
        .read_storage::<GlobalTransform>()
        .get(e1)
        .unwrap()
        .to_matrix();

    let abs_tra_e2 = world
        .read_storage::<GlobalTransform>()
        .get(e2)
        .unwrap()
        .to_matrix();

    let abs_tra = tra.to_matrix() * tra.to_matrix();

    // The absolute matricies should no longer be equal
    assert_ne!(abs_tra_e1, abs_tra_e2);
    // Actual result should be the same as simulated result
    assert_eq!(abs_tra_e1, abs_tra);
}

#[test]
fn world_follows_edits_and_deletions_frame_by_frame() {
    let (mut world, mut dispatcher) = world();

    let root = world
        .create_entity()
        .with(Transform::from(Vector3::new(1.0, 0.0, -10.0)))
        .build();
    let child = world
        .create_entity()
        .with(Transform::default())
        .with(Link::new(root))
        .build();
    world.maintain();
    dispatcher.dispatch(&world.res);

    let expected = Matrix4::new_translation(&Vector3::new(1.0f32, 0.0, -10.0));
    assert_eq!(
        world.read_storage::<GlobalTransform>().get(child).unwrap().to_matrix(),
        expected
    );

    *world.write_storage::<Transform>().get_mut(root).unwrap() =
        Transform::from(Vector3::new(0.0, 0.0, 0.0));
    dispatcher.dispatch(&world.res);
    assert_eq!(
        world.read_storage::<GlobalTransform>().get(child).unwrap().to_matrix(),
        Matrix4::<f32>::identity()
    );
    assert_eq!(
        *world.read_storage::<Transform>().get(child).unwrap(),
        Transform::default()
    );

    // A deleted parent takes its children with it.
    world.delete_entity(root).unwrap();
    world.maintain();
    dispatcher.dispatch(&world.res);
    world.maintain();
    dispatcher.dispatch(&world.res);
    assert!(!world.is_alive(child));
    assert!(world.read_storage::<GlobalTransform>().get(child).is_none());
}

#[test]
fn parent_rotation_and_scale_carry_over_to_the_child() {
    let (mut world, mut dispatcher) = world();

    let turn = nalgebra::UnitQuaternion::from_scaled_axis(Vector3::y() * 0.5f32);
    let parent_t = Transform {
        iso: Isometry3::from_parts(Translation3::new(1.0, 2.0, 3.0), turn),
        scale: Vector3::new(2.0, 2.0, 2.0),
    };
    let child_t = Transform::from(Vector3::new(0.5, 0.0, 0.0));
    let parent = world.create_entity().with(parent_t).build();
    let child = world
        .create_entity()
        .with(child_t)
        .with(Link::new(parent))
        .build();
    world.maintain();
    dispatcher.dispatch(&world.res);

    let globals = world.read_storage::<GlobalTransform>();
    assert_eq!(globals.get(parent).unwrap().to_matrix(), parent_t.to_matrix());
    assert_eq!(
        globals.get(child).unwrap().to_matrix(),
        parent_t.to_matrix() * child_t.to_matrix()
    );
}
