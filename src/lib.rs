//! The core of a retained-mode declarative UI engine: the property-set algebra, the
//! positional identity of widgets across renders, the reconciliation decisions, the
//! capture, bubbling and dispatch of events, and the anchor layout. The native window
//! system stays outside: these modules take and return plain values.

use vstd::prelude::*;

pub mod geometry;
pub mod props;
pub mod event_hub;
pub mod resize_layout;
pub mod renderable;
pub mod uicontext;
pub mod widget_spec;
pub mod widgets;
pub mod utils;
pub mod main_vm;

verus! {

} // verus!
