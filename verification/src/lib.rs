//! Unipotato: routing, request parsing and response helpers for HTTP
//! backends, with their behaviour proved against specifications.
//!
//! Routes are registered in a `RouteTable` with placeholders written
//! `<name>`; a lookup finds the first route registered for the request's
//! method whose path (static routes) or pattern (routes with placeholders)
//! answers the request path, and gives each placeholder its value.

pub mod handler;
pub mod logger;
pub mod params;
pub mod pattern;
pub mod request;
pub mod route;
pub mod server;
pub mod text;

pub use handler::Reply;
pub use params::ParamMap;
pub use request::{Body, Query, Request};
pub use route::{
    collect_routes, find_handler, find_handler_with_params, get_mount_base, mount,
    register_route, try_register_route, HandlerMatch, Route, RouteError, RouteTable, Router,
};
pub use server::Unipotato;
