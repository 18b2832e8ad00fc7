//! A metrics bridge for residential solar-power telemetry.
//!
//! A third-party status page embeds two numeric readings (power generation
//! and power consumption, in fractional kilowatts) between known HTML-comment
//! markers.  This library holds the verified core of the bridge:
//!
//! * [`scan`] locates the two raw decimal fragments inside the page text;
//! * [`number`] converts a raw decimal fragment to an integer milli-value,
//!   rounding half away from zero;
//! * [`reading`] composes the two into the operation "read both values",
//!   whose plain form is [`parse`];
//! * [`fetch`] is the retry state machine around an injected transport;
//! * [`render`] produces the plain-text exposition body that is served
//!   to the metrics collector.
//!
//! Network I/O, argument handling and HTTP routing live outside the library;
//! they hand page bodies in and take readings and response bodies out.

pub mod fetch;
pub mod number;
pub mod reading;
pub mod render;
pub mod scan;

pub use reading::parse;
