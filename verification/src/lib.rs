//! The swarm-agent simulation core of a top-down survival game.
//!
//! Thousands of agents sleep until a player or an awake agent comes near, wake
//! up, hunt the player, push each other apart, and are put back to sleep where
//! too many are awake at once. The scene they live in is laid out by
//! rejection sampling from a seeded random source.
//!
//! Every quantity is an integer. Positions are lattice points, distances are
//! compared through their squares, times are counted in ticks. The host picks
//! the scale, that is how many lattice units make a world unit and how many
//! ticks a second, and converts at its boundary. The library decides states,
//! velocities and forces; moving the bodies is the host's part.
//!
//! - [`geometry`]: points, vectors, exact roots, scaling and clamping
//! - [`rng`]: the seeded random source
//! - [`config`]: the options
//! - [`generate`]: constrained placement of points in a ring
//! - [`agent`]: an agent and its life cycle
//! - [`sense`]: what wakes a sleeper
//! - [`hunt`]: what an awake agent heads for
//! - [`separation`]: the repulsion among awake agents
//! - [`admission`]: the cap on awake agents
//! - [`stages`]: each of these over a whole population
//! - [`swarm`]: the population and its simulation step
//! - [`player`]: the player's record and score

pub mod admission;
pub mod agent;
pub mod config;
pub mod generate;
pub mod geometry;
pub mod hunt;
pub mod player;
pub mod rng;
pub mod sense;
pub mod separation;
pub mod stages;
pub mod swarm;
