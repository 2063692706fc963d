//! Two single-threaded memory primitives built from first principles:
//! [`cell::Cell`], a slot that is only ever copied out of or overwritten,
//! and [`rc::Rc`], a counted handle to a value shared by several owners.

pub mod cell;
pub mod history;
pub mod model;
pub mod rc;
