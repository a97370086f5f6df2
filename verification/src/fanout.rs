//! The fan-out bus: topics named by any string, any number of subscribers
//! per topic, each with a channel of its own, and publication to every
//! subscriber still listening.

pub mod bus;
pub mod workers;
