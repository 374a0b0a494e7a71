pub mod alum;
pub mod garbage_collector;
