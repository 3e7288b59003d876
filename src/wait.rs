//! Work that waits for something to happen.

pub mod any;
pub mod until;

pub use self::any::any;
pub use self::until::until;
