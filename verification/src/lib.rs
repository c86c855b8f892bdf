//! Turn-based hex combat: the rules that sit between a combat engine, the
//! entity world that displays it, and the AI that plays it.

pub mod ai_cache;
pub mod ai_tags;
pub mod auras;
pub mod bootstrap;
pub mod candidates;
pub mod classify;
pub mod cleanup;
pub mod command_input;
pub mod content;
pub mod decisions;
pub mod deliberation;
pub mod effects;
pub mod effects_math;
pub mod events;
pub mod explain;
pub mod forecast;
pub mod hex;
pub mod ids;
pub mod influence;
pub mod legality;
pub mod movement;
pub mod outcome;
pub mod phases;
pub mod pool;
pub mod popup;
pub mod positions;
pub mod process;
pub mod project;
pub mod queues;
pub mod ranking;
pub mod reservations;
pub mod session;
pub mod snapshot;
pub mod spending;
pub mod state;
pub mod tactics;
pub mod tag_cache;
pub mod tags;
pub mod targets;
pub mod templates;
pub mod text;
pub mod translate;
