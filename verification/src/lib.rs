//! Verified core of two game-server administration plugins: the map-chooser
//! admin menu and vote bookkeeping, and the administrator ESP outline state.
pub mod text;
pub mod state;
pub mod flags;
pub mod admin_config;
pub mod esp_config;
pub mod esp;
pub mod menu;
pub mod preferences;
pub mod events;
