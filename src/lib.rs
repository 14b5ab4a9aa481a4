//! Loading and querying tiled navigation meshes.
//!
//! The library holds the parts of the navigation pipeline that decide: the
//! binary tile-set format, the steps of an import, and what each composed
//! query returns once the mesh-query engine has answered its primitive calls.
//! Coordinates are IEEE-754 single-precision values carried as their bit
//! patterns; the library never computes with them, it only moves and compares
//! them.
pub mod geom;
pub mod tileset;
pub mod import;
pub mod query;
