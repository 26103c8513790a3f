//! What the tools do to the editor.

pub mod clipboard;
pub mod dispatcher;
pub mod edit;
pub mod groups;
pub mod selection;
pub mod tools;
