//! The wire types of the control plane, under the name that the laptop side
//! imports them by.

pub use crate::common::{DeregisterRequest, ErrorResponse, RegisterRequest, RegisterResponse};
