//! The decision logic of a Wayland phone shell.
pub mod app_history;
pub mod arrange;
pub mod backend;
pub mod background_effect;
pub mod bar_hint;
pub mod blank;
pub mod capture;
pub mod catalog;
pub mod catalog_watch;
pub mod content_type;
pub mod debug_input;
pub mod drm_backend;
pub mod exec_line;
pub mod folders;
pub mod frame;
pub mod frame_stats;
pub mod gamma_control;
pub mod handlers;
pub mod icon_menu;
pub mod idle_inhibit;
pub mod idle_notify;
pub mod input_common;
pub mod input_dispatch;
pub mod ipc;
pub mod kbd_switch;
pub mod keybinds;
pub mod launcher;
pub mod layer_shell;
pub mod library;
pub mod mirror;
pub mod osd;
pub mod output_power;
pub mod popups;
pub mod presentation;
pub mod provenance;
pub mod render;
pub mod resources;
pub mod rotation;
pub mod scene;
pub mod screenshot;
pub mod search;
pub mod sensor;
pub mod session;
pub mod session_lock;
pub mod sorting;
pub mod text;
pub mod time;
pub mod ui_state;
