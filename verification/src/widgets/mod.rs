//! Interactive form widgets: their state and how keys change it. Drawing
//! is left to the terminal front end; the text layout it needs (fitting,
//! scrolling, soft wrapping) is computed here.

pub mod button;
pub mod checkbox;
pub mod enable;
pub mod key;
pub mod look;
pub mod password;
pub mod select;
pub mod text;
pub mod textarea;

pub use button::Button;
pub use checkbox::Checkbox;
pub use enable::Enable;
pub use key::{Key, KeyEvent, Mods};
pub use password::Password;
pub use select::{Select, SelectOption};
pub use text::Text;


