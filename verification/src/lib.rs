//! Version identifiers of Godot engine releases and the file names derived from them.
//!
//! Upstream writes its versions loosely: `4.3`, `4.2.1-stable`, `4.5-beta1`. The
//! [`normalize`] module rewrites such a string into strict three-component form, the
//! [`version`] module reads the strict form, and [`godot`] derives the names that a
//! release goes by: its label, its installation directory, the archive that upstream
//! publishes for a platform and the path of the executable inside it. [`platform`] holds
//! the tokens that name the platforms, and [`order`] compares versions by precedence.
//!
//! Three modules state and prove what holds for every input: [`normal_forms`] of the
//! normalizer, [`upstream`] of the releases that the upstream forms give, and [`names`] of
//! the derived names.

pub mod godot;
pub mod names;
pub mod normal_forms;
pub mod normalize;
pub mod order;
pub mod platform;
pub mod text;
pub mod upstream;
pub mod version;

pub use crate::godot::GodotVersion;
pub use crate::version::{Version, VersionError};
