[package]
name = "tile_collision"
version = "0.1.0"
edition = "2021"
publish = false

[dependencies]
macroquad = "0.3"
macroquad-platformer = "0.1"
macroquad-tiled = "0.1"
