pub mod browser;
pub mod calendar;
pub mod cli;
pub mod clock;
pub mod codec;
pub mod cookies;
pub mod direct;
pub mod engine;
pub mod extract;
pub mod gallery;
pub mod gui;
pub mod json;
pub mod log;
pub mod number;
pub mod page_images;
pub mod paths;
pub mod pattern;
pub mod settings;
pub mod song;
pub mod text;
pub mod thumb;
pub mod tools;
pub mod verify;
pub mod web;
