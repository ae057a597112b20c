[package]
name = "grid_route"
version = "0.1.0"
edition = "2021"
publish = false

[dependencies]
pathfinding = "*"
rand = "*"
speedy2d = "*"
cli-clipboard = "*"
