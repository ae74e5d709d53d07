//! What the `sysinfo` crate is trusted to do when the library asks the host
//! for its processors.
//!
//! Nothing is known of the numbers that come back: they depend on the
//! machine. The declarations below only let verified code make the calls.

use vstd::prelude::*;

verus! {

/// `sysinfo::System`, the handle through which the host is inspected. Its
/// contents are opaque to the verifier.
#[verifier::external_type_specification]
#[verifier::external_body]
pub struct ExSystem(sysinfo::System);

/// `sysinfo::Cpu`, one logical processor of the host. Its contents are opaque
/// to the verifier.
#[verifier::external_type_specification]
#[verifier::external_body]
pub struct ExCpu(sysinfo::Cpu);

/// `sysinfo::System::new_all` creates a handle with everything loaded.
/// Nothing is claimed of the handle.
pub assume_specification[ sysinfo::System::new_all ]() -> (system: sysinfo::System);

/// `sysinfo::System::refresh_all` reloads the handle's information.
/// Nothing is claimed of the handle afterwards.
pub assume_specification[ sysinfo::System::refresh_all ](system: &mut sysinfo::System);

/// `sysinfo::System::physical_core_count` reports the number of physical
/// cores, or nothing when the host does not tell. Nothing is claimed of the
/// answer; in particular it may be zero.
pub assume_specification[ sysinfo::System::physical_core_count ]() -> (count: Option<usize>);

/// `sysinfo::System::cpus` lends the list of logical processors that the
/// handle has loaded. Nothing is claimed of the list; it may be empty.
pub assume_specification<'a>[ sysinfo::System::cpus ](system: &'a sysinfo::System) -> (cpus:
    &'a [sysinfo::Cpu]);

} // verus!
