//! Deterministic integer core of a generative alpine-scene painter: the seeded
//! generator that picks every random choice, the sky it selects, the RGBA8
//! canvas the scene is drawn on, the oil-painting filter laid over it and the
//! hash behind its canvas weave.
pub mod canvas;
pub mod oil;
pub mod rng;
pub mod sky;
pub mod texture;
