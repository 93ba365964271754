//! Synthesis of connected, weighted line networks.
//!
//! A network is a set of lines, each a sequence of nodes placed along a random
//! curve, joined where the curves cross. The library places the end points of
//! the curves, records where curves cross, chooses the nodes of each line,
//! assembles the graph and keeps it only if it is connected; it retries
//! within a budget of trials. Two transforms work on a finished network:
//! direct travel along a line, and waiting times at the stations.
//!
//! Real-valued quantities (curve parameters, coordinates, weights) are carried
//! as IEEE-754 binary64 bit patterns in `u64`. The library compares, negates
//! and tabulates these patterns itself; all other arithmetic on them is
//! supplied by the caller as function values, and every contract says what is
//! made of the values that these functions return.

pub mod float_bits;
pub mod float_table;
pub mod line_segment_iterator;
pub mod graph;
pub mod check_connected_graph;
pub mod check_connection;
pub mod rand_utils;
pub mod bezier_point_factory;
pub mod make_curves;
pub mod intersections;
pub mod node_locations;
pub mod point_factory;
pub mod build_lines;
pub mod lines_to_graph;
pub mod build_graph;
pub mod network_builder;
pub mod all_direct_path;
pub mod station_wait_times;
