//! A view tree mounted onto a natively hosted document tree, kept in step with
//! the view's inputs, with native input events routed back to callbacks.
pub mod arena;
pub mod attribute;
pub mod changes;
pub mod dom;
pub mod element;
pub mod elements;
pub mod event;
pub mod handle;
pub mod inert;
pub mod into_view;
pub mod mount;
pub mod primitives;
pub mod registry;
pub mod renderer;
pub mod store;
pub mod strings;
pub mod text;
pub mod tuples;
pub mod view;
