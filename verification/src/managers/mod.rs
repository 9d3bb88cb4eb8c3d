pub mod component_manager;
pub mod entity_manager;
pub mod system_manager;
