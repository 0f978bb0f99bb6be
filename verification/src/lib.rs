//! Runtime core of a retained-mode GUI widget toolkit.
//!
//! The crate provides the pieces shared by every widget:
//!
//! -   integer geometry primitives ([`geom`]) and axis selection
//!     ([`direction`])
//! -   the `SizeRules` layout-demand algebra and its space solver ([`layout`],
//!     [`solve`])
//! -   walk-order widget identifiers and subtree containment tests
//!     ([`widgetid`]), and the per-widget core state ([`data`])
//! -   the typed event / response model ([`event`])
//! -   the per-window interaction state machine tracking press grabs, focus
//!     and highlight ([`manager`])
//! -   a widget tree with id assignment, the two-phase layout pass and event
//!     routing ([`widget`]), composed with its interaction state in a
//!     [`window`]
//! -   the [`scrollbar`] control built on all of the above
//!
//! Rendering backends, OS event capture and theming are collaborators outside
//! this crate: the core only consumes plain pixel metrics and hands finalized
//! rectangles and highlight states outward.

pub mod data;
pub mod direction;
pub mod event;
pub mod geom;
pub mod layout;
pub mod manager;
pub mod scrollbar;
pub mod solve;
pub mod widget;
pub mod widgetid;
pub mod window;
