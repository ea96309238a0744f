//! Menu, nickname and receipt logic of the space-invaders sign-up terminal.
pub mod execut_api;
pub mod execut_http_client;
pub mod gl_buffers;
pub mod helpers;
pub mod nickname_generator;
pub mod printer;
pub mod scene;
pub mod spaceship_settings;
pub mod string_map;
pub mod text;
pub mod text_scene;
