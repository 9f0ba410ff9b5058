//! Battery monitoring for the Steam Controller 2: the rules of the daemon that
//! reads the controllers, and of the panel applet that shows them.
pub mod applet;
pub mod clock;
pub mod dbus;
pub mod discovery;
pub mod interface;
pub mod key_map;
pub mod mirror;
pub mod mirror_laws;
pub mod protocol;
pub mod reader;
pub mod state;
pub mod state_laws;
pub mod supervisor;
pub mod supervisor_laws;
pub mod suspend;
pub mod text;
pub mod window;
