pub mod asset_loaders;
pub mod collision;
pub mod command;
pub mod components;
pub mod cursor;
pub mod history;
pub mod order;
pub mod painter;
pub mod redraw;
pub mod render;
pub mod runner;
pub mod spatial;
pub mod sprite;
pub mod style;
pub mod window;
pub mod window_settings;

pub use cursor::Cursor;
pub use window::CrosstermWindow;
pub use window_settings::CrosstermWindowSettings;
