//! Deterministic core of an air-traffic-control simulation.
//!
//! The engine advances a population of aircraft through the flight lifecycle
//! in atomic ticks, detects airborne and ground conflicts and runs the
//! automated controllers for approach sequencing, gate assignment and
//! departure release.
//!
//! Every quantity is a fixed-point integer: one unit is a thousandth of a
//! foot, of a knot or of a degree, and a second is divided into the ticks of
//! the engine. Positions are points on a flat map, headings are compass
//! angles: north is zero, east a quarter turn. Sines, cosines and bearings
//! are rational approximations that are exact along the axes.
//!
//! The modules, leaves first:
//!
//! - `names`, `geometry`, `search`, `pairs`: identifiers, angles and points,
//!   and two small tools;
//! - `pathfinder`, `wayfinder`, `world`, `aircraft`, `command`: the data;
//! - `events`, `navigation`, `taxi`: what an event does to an aircraft;
//! - `effects`: what a tick does to an aircraft by itself;
//! - `tcas`, `conflicts`, `gates`, `approach`, `ground`: the passes over the
//!   fleet;
//! - `engine`, `ticking`, `invariants`: the engine, its tick, and what holds
//!   after every tick;
//! - `chance`: the random source;
//! - `prompter`: the texts that go to and come from the language model.
//!
//! Three outside crates are called, each behind a few declarations whose
//! contracts are taken on trust: the taxi graph of `petgraph` in
//! `pathfinder`, the random source of `turborand` in `chance`, and the
//! combinations of `itertools` in `pairs`.

pub mod aircraft;
pub mod approach;
pub mod chance;
pub mod command;
pub mod conflicts;
pub mod effects;
pub mod engine;
pub mod events;
pub mod gates;
pub mod geometry;
pub mod ground;
pub mod invariants;
pub mod names;
pub mod navigation;
pub mod pairs;
pub mod pathfinder;
pub mod prompter;
pub mod search;
pub mod taxi;
pub mod tcas;
pub mod ticking;
pub mod wayfinder;
pub mod world;
