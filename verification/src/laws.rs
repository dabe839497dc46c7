//! What the operations promise, stated of the arguments and the results of
//! calls.

pub mod devices;
pub mod frames;
pub mod messages;
pub mod modes;
pub mod rates;
pub mod requests;
pub mod run;
pub mod samples;
pub mod shown;
pub mod sources;
pub mod stream;
