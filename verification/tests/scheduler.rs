use cacti::components::smc::{Component, SystemManagerComponent, MANAGER_TYPE};
use cacti::managers::system_manager::{request_shutdown, SystemManager};
use cacti::sys::Sys;
use cacti::world::{EntityComponentManager, LoopExit, World};
use std::cell::{Cell, RefCell};
use std::rc::Rc;

type Ecs = EntityComponentManager<Component<u32>>;

/// Writes its name to a shared log on every hook.
struct Recorder {
    name: &'static str,
    log: Rc<RefCell<Vec<String>>>,
}

impl Sys<u32> for Recorder {
    fn on_start(&self, _world: &mut Ecs) {
        self.log.borrow_mut().push(format!("start {}", self.name));
    }

    fn on_update(&self, _world: &mut Ecs) {
        self.log.borrow_mut().push(format!("update {}", self.name));
    }
}

/// Asks for shutdown on its second update.
struct Stopper {
    updates: Cell<u32>,
    log: Rc<RefCell<Vec<String>>>,
}

impl Sys<u32> for Stopper {
    fn on_start(&self, _world: &mut Ecs) {}

    fn on_update(&self, world: &mut Ecs) {
        self.updates.set(self.updates.get() + 1);
        self.log.borrow_mut().push(format!("update A"));
        if self.updates.get() == 2 {
            assert!(request_shutdown(world));
        }
    }
}

/// Does nothing in either hook.
struct Idle;

impl Sys<u32> for Idle {
    fn on_start(&self, _world: &mut Ecs) {}

    fn on_update(&self, _world: &mut Ecs) {}
}

fn boxed<T: Sys<u32> + 'static>(system: T) -> Box<dyn Sys<u32>> {
    Box::new(system)
}

#[test]
fn systems_update_in_registration_order() {
    let log = Rc::new(RefCell::new(Vec::new()));
    let mut world = Ecs::new(4, 4, 4);
    let mut manager: SystemManager<Box<dyn Sys<u32>>> = SystemManager::new(3);
    manager.register(boxed(Recorder { name: "S1", log: log.clone() }));
    manager.register(boxed(Recorder { name: "S2", log: log.clone() }));
    manager.register(boxed(Recorder { name: "S3", log: log.clone() }));
    assert!(manager.init(&mut world));
    assert_eq!(*log.borrow(), vec!["start S1", "start S2", "start S3"]);
    log.borrow_mut().clear();
    assert!(manager.update(&mut world));
    assert_eq!(*log.borrow(), vec!["update S1", "update S2", "update S3"]);
}

#[test]
fn shutdown_is_seen_by_the_next_update() {
    let log = Rc::new(RefCell::new(Vec::new()));
    let mut world = Ecs::new(4, 4, 4);
    let mut manager: SystemManager<Box<dyn Sys<u32>>> = SystemManager::new(3);
    manager.register(boxed(Stopper { updates: Cell::new(0), log: log.clone() }));
    manager.register(boxed(Recorder { name: "B", log: log.clone() }));
    manager.register(boxed(Recorder { name: "C", log: log.clone() }));
    assert!(manager.init(&mut world));
    log.borrow_mut().clear();
    assert_eq!(manager.shutdown_requested(&world), Some(false));
    assert!(manager.update(&mut world));
    assert!(manager.update(&mut world));
    assert_eq!(
        *log.borrow(),
        vec!["update A", "update B", "update C", "update A", "update B", "update C"]
    );
    assert_eq!(manager.shutdown_requested(&world), Some(true));
    assert!(!manager.update(&mut world));
    assert_eq!(log.borrow().len(), 6);
    assert!(!manager.update(&mut world));
    assert_eq!(log.borrow().len(), 6);
}

#[test]
fn init_creates_the_control_entity() {
    let mut world = Ecs::new(4, 4, 4);
    let mut manager: SystemManager<Idle> = SystemManager::new(1);
    manager.register(Idle);
    assert_eq!(manager.shutdown_requested(&world), None);
    assert!(manager.init(&mut world));
    assert_eq!(world.get_entities_with_types(&vec![MANAGER_TYPE]), vec![3]);
    match world.get_component(&3, MANAGER_TYPE) {
        Some(Component::Manager(SystemManagerComponent { shutdown })) => assert!(!*shutdown),
        _ => panic!("the control entity carries no control component"),
    }
    assert!(manager.update(&mut world));
}

#[test]
fn init_fails_without_a_free_entity() {
    let mut world = Ecs::new(1, 4, 4);
    assert_eq!(world.create_entity(), Some(0));
    let mut manager: SystemManager<Idle> = SystemManager::new(1);
    assert!(!manager.init(&mut world));
    assert_eq!(world.get_entities_with_types(&vec![]), vec![0]);
}

#[test]
fn init_fails_where_the_control_component_does_not_fit() {
    // no component type can be registered
    let mut world = Ecs::new(3, 0, 4);
    let mut manager: SystemManager<Idle> = SystemManager::new(1);
    assert!(!manager.init(&mut world));
    assert_eq!(world.get_entities_with_types(&vec![]), Vec::<usize>::new());
    assert_eq!(world.create_entity(), Some(2));
}

#[test]
fn request_shutdown_needs_a_control_entity() {
    let mut world = Ecs::new(4, 4, 4);
    assert!(!request_shutdown(&mut world));
    let e = world.create_entity().unwrap();
    assert!(world.add_component(&e, MANAGER_TYPE, Component::User(5)));
    assert!(!request_shutdown(&mut world));
    assert!(matches!(world.get_component(&e, MANAGER_TYPE), Some(Component::User(5))));
}

#[test]
fn frame_loop_ends_on_shutdown() {
    let log = Rc::new(RefCell::new(Vec::new()));
    let mut world: World<u32, Box<dyn Sys<u32>>> = World::new(4, 4, 4, 3);
    world.add_system(boxed(Stopper { updates: Cell::new(0), log: log.clone() }));
    world.add_system(boxed(Recorder { name: "B", log: log.clone() }));
    assert_eq!(world.start_loop(100), (LoopExit::Shutdown, 2));
    assert_eq!(
        *log.borrow(),
        vec!["start B", "update A", "update B", "update A", "update B"]
    );
}

#[test]
fn frame_loop_ends_when_frames_run_out() {
    let mut world: World<u32, Idle> = World::new(4, 4, 4, 1);
    world.add_system(Idle);
    assert_eq!(world.start_loop(5), (LoopExit::OutOfTicks, 5));
}

#[test]
fn frame_loop_does_not_start_in_a_full_world() {
    let mut world: World<u32, Idle> = World::new(0, 4, 4, 1);
    world.add_system(Idle);
    assert_eq!(world.start_loop(5), (LoopExit::NotStarted, 0));
}

/// Takes the control component away on its first update.
struct Saboteur;

impl Sys<u32> for Saboteur {
    fn on_start(&self, _world: &mut Ecs) {}

    fn on_update(&self, world: &mut Ecs) {
        let control = world.get_first_entity_with_types(&vec![MANAGER_TYPE]).unwrap();
        world.remove_component(&control, MANAGER_TYPE);
    }
}

#[test]
fn frame_loop_ends_when_the_control_component_is_gone() {
    let mut world: World<u32, Saboteur> = World::new(4, 4, 4, 1);
    world.add_system(Saboteur);
    assert_eq!(world.start_loop(5), (LoopExit::ControlLost, 1));
}
