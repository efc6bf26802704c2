//! Gentoo ebuild repository reader: verified parsing and planning logic.
pub mod arch;
pub mod atom;
pub mod cache;
pub mod category;
pub mod eapi;
pub mod ebuild;
pub mod error;
pub mod inherit;
pub mod layout;
pub mod manifest;
pub mod pms;
pub mod profile;
pub mod repository;
pub mod shell;
pub mod stack;
pub mod text;
pub mod useflags;
pub mod util;
pub mod ver;
pub mod walk;

pub use error::RepoError;
pub use manifest::{Manifest, ManifestEntry};
pub use profile::{Profile, ProfileDesc, ProfileStatus};
pub use category::{Category, Package};
pub use layout::LayoutConf;
pub use repository::{MasterResolver, MasterStep, ProfileUpdate, Repository};
