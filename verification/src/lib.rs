//! Verified core of a SCADA data server.
use vstd::prelude::*;

pub mod float_bits;
pub mod hasher;
pub mod measure_store;
pub mod code_decode;
pub mod schemas;
pub mod text;
pub mod validation;
pub mod auth;
pub mod live;
pub mod vault;
pub mod group_view;
pub mod chart;
pub mod routing;
pub mod setup;
