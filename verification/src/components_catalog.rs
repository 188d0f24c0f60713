pub mod activity;
pub mod compose;
pub mod conformance;
pub mod engine_rpc;
pub mod gearbox;
pub mod new_gear;
pub mod product;
pub mod scaffold;
pub mod skeleton;
pub mod values;
