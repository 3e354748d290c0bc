[package]
name = "dual_graph"
version = "0.1.0"
edition = "2021"
publish = false

[dependencies]
voronoi = "*"
delaunator = "*"
rand = "*"
nalgebra = "*"
