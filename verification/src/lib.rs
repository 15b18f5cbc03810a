//! Planning logic of the Choreo trajectory editor: renumbering of
//! constraint scopes once initial-guess points are taken out of a path,
//! the sequence of path-builder calls that a path and its constraints
//! produce, and the decisions on project files that the editor makes.

pub mod scope;
pub mod trajectory;
pub mod project_files;
pub mod plan_laws;
