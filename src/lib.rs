//! Device-token registry and wake-up dispatch: routing of tokens to the
//! production or sandbox push gateway, interpretation of gateway replies,
//! the prune policy, and the effect of each decision on the token store.

pub mod dispatch;
pub mod gateway;
pub mod intake;
pub mod state;
pub mod store;
pub mod token;
