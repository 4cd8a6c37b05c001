//! The walking skeleton: one conversation whose journal is the source of
//! truth, projected into the model view on every request.
pub mod protocol;
pub mod state;
pub mod view;
pub mod brain;
pub mod face;
pub mod face_loop;
pub mod limb;
pub mod events;
pub mod context;
pub mod dump;
