//! A raycasting renderer's core: a tile map parsed from text, a player pose
//! in fixed point, per-frame movement with wall sliding, and a grid walk
//! (DDA) that finds, for each screen column, the wall the ray meets, the
//! perpendicular distance to it and the color to draw.

pub mod clock;
pub mod fixed;
pub mod map;
pub mod player;
pub mod settings;
pub mod world;
