//! Painting by evolution: a picture is approached by a population of
//! paintings, each a sequence of brush strokes, that is bred, scored and
//! selected generation after generation.
//!
//! The library holds the decisions of that process and proves what it
//! promises about them. What it cannot do itself is left to its caller: to
//! read and write images, to compute where a hop of a stroke lands, and to
//! render a painting.
//!
//! - `guidance`: the picture to reach, the flow to follow and the importance
//!   of each pixel.
//! - `stroke`, `growth`, `bounds`: a brush stroke, how its skeleton grows hop
//!   by hop, and the bounds that its random numbers are held to.
//! - `seeding`, `individual`: where the strokes of a new painting start, and
//!   a painting as strokes in painting order.
//! - `fitness`, `perception`: the score of a rendered painting.
//! - `selection`, `recombine`, `population`, `stagnation`, `checkpoint`,
//!   `evolution`: the choice of parents, crossover and mutation, the ranked
//!   population, the countdown of stagnation, the generations that are
//!   saved, and the machine that ties them together.
//! - `binary32`, `geometry`, `color`: numbers as bit patterns of single
//!   precision numbers, points and pixels, colours.
//! - `edge_map`: from a map of edges to the slope that a direction map is
//!   made of.
//! - `resources`, `shader`: the paths of the assets of a program, and the
//!   kind of a shader.
//! - `random`: what is trusted of the `rand` crate.

pub mod binary32;
pub mod bounds;
pub mod checkpoint;
pub mod color;
pub mod edge_map;
pub mod error;
pub mod evolution;
pub mod fitness;
pub mod geometry;
pub mod growth;
pub mod guidance;
pub mod individual;
pub mod perception;
pub mod population;
pub mod random;
pub mod recombine;
pub mod resources;
pub mod seeding;
pub mod selection;
pub mod shader;
pub mod stagnation;
pub mod stroke;
