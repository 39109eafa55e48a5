use vstd::prelude::*;

pub mod client;
pub mod control;
pub mod json;
pub mod paths;
pub mod persist;
pub mod proxy;
pub mod registry;
pub mod text;
pub mod tls;
pub mod types;
pub mod wire;

verus! {

/// First port the allocator may hand out.
pub const PORT_RANGE_START: u16 = 4000;

/// Last port the allocator may hand out.
pub const PORT_RANGE_END: u16 = 5000;

/// A port is acceptable exactly when it lies in the reserved range.
pub open spec fn port_in_range(p: u16) -> bool {
    PORT_RANGE_START <= p <= PORT_RANGE_END
}

} // verus!
