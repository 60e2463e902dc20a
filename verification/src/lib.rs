pub mod angle;
pub mod block;
pub mod boolgrid;
pub mod building;
pub mod city;
pub mod describe;
pub mod fields;
pub mod geometry;
pub mod grid;
pub mod intersection;
pub mod landmass_shape;
pub mod lattice;
pub mod layer;
pub mod limit_bounds;
pub mod list_cache;
pub mod mask;
pub mod materialize;
pub mod pillar;
pub mod rng;
pub mod union;
pub mod union_threaded;
pub mod util;
pub mod worldgen;
