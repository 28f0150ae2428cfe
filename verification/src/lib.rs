//! A small HTTP server library: header collections, URI handling and the
//! request/response text formats, with their behaviour proved by Verus.
pub mod text;
pub mod listmap;
pub mod multi_value_map;
pub mod utils;
pub mod http;
pub mod internal;
pub mod uitls;
pub mod uri;
pub mod message;
pub mod reqr;
pub mod respw;
pub mod request;
pub mod response;
pub mod protocols;
pub mod ws_impl;
pub mod services;
pub mod router;
pub mod mux;
pub mod logging;
pub mod serve;
pub mod args;
pub mod middleware;
