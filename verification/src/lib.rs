//! A decision procedure for reference lifetimes: which lifetimes outlive which,
//! when one reference may stand in for another, what a reborrow yields, and
//! what a call through a capability returns.

pub mod graph;
pub mod order;
pub mod reborrow;
pub mod reference;
pub mod trait_lifetime;
pub mod type_lifetime;
pub mod variance;
