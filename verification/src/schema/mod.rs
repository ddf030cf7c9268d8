//! Reading Keen's reflection schema, program table and message registry out
//! of a server image, and comparing two builds' dumps.

pub mod strings;
pub mod descriptor;
pub mod program;
pub mod proto;
pub mod metadata;
pub mod diff;
