pub mod bag;
pub mod letter;
pub mod measure;
pub mod walk;

pub use bag::Bag;
pub use letter::Letter;
pub use walk::{Cmd, Frame, Walk};
