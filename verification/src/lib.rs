//! A road-network model and simulation-diagnosis core.
//!
//! The library derives navigable structure from a tagged road network
//! (per-lane turn restrictions, parking capacity, block boundaries) and
//! supports a fixed-tick simulation clock together with a blocking graph
//! that explains which waiting agents delay which others.

pub mod block;
pub mod blocking;
pub mod clock;
pub mod geometry;
pub mod lane;
pub mod roadmap;
pub mod text;
pub mod turns;

pub use blocking::{AgentID, Arrow, ArrowColor, BlockingGraph, DelayCause, RootCause};
pub use clock::{Benchmark, SimClock, Tick};
pub use geometry::{Line, Polygon, Polyline, Pt};
pub use lane::{BusStopID, Lane, LaneID, LaneType};
pub use roadmap::{
    DirectedRoadID, Direction, Intersection, IntersectionID, MapModel, Road, RoadID, Tags,
};
pub use turns::{TurnSet, TurnType};
