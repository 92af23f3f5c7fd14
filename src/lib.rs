//! A trigger-and-wait client for a build-automation server: the decisions of
//! its three phases (trigger, queue resolution, execution watching) and the
//! encodings of what it sends, as verified functions on plain values.
pub mod params;
pub mod urls;
pub mod run;
pub mod form;
