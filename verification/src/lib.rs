pub mod byte_source;
pub mod cursor;
pub mod decode;
pub mod errors;
pub mod file;
pub mod specs;
pub mod trys;
pub mod view;

pub use byte_source::ByteSource;
pub use cursor::Cursor;
pub use specs::Spec;
pub use view::View;
pub mod text;
