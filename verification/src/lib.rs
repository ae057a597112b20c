//! Route planning on an occupancy grid, and the wire format of movement commands.
//!
//! An operator marks obstacles on a fixed grid and places an agent. For a target cell the
//! library finds a shortest route over `Empty` cells and words it as a command: `!`, the runs
//! of the route as direction and count tokens, a fixed trailer, and a nonce in decimal.
//!
//! - [`coord`]: coordinates, cell states, the successor rule and the distance estimate.
//! - [`grid`]: the grid and its edits.
//! - [`route`]: what a route is, and what is proved of shortest routes.
//! - [`finder`]: the search for a shortest route.
//! - [`command`]: runs, tokens and the command text.
//! - [`digits`]: decimal notation.
//! - [`wire`]: what a reader of a command can recover from it.
//! - [`planner`]: edits and planning requests as a front end hands them in.

pub mod command;
pub mod coord;
pub mod digits;
pub mod finder;
pub mod grid;
pub mod planner;
pub mod route;
pub mod wire;
