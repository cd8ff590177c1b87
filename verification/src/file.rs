//! Which files a translation run takes up, what texts they hold, how they
//! are ordered and grouped, where their translations are written, and how
//! their names appear in the log.
pub mod jar_handler;
pub mod js_handler;
pub mod js_scan;
pub mod json_handler;
pub mod pack_gen;
pub mod paths;
pub mod pipeline;
pub mod plan;
