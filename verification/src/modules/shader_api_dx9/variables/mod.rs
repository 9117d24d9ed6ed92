//! The variables of `shaderapidx9.dll` that the overlay reads.

use vstd::prelude::*;
use crate::utils::module::maps::MemoryMap;
use self::material_system::shader_api_dx9::shader_device_dx8::gp_d3d_device;

pub mod material_system;

verus! {

/// Why a variable could not be found.
#[derive(Debug, Clone, Copy, PartialEq, Eq)]
pub enum Error {
    MaterialSystem(material_system::Error),
}

/// The variables, by the source file that defines them.
#[derive(Debug)]
pub struct Variables {
    pub material_system: material_system::MaterialSystem,
}

impl Variables {
    /// Finds the variables in the library's regions `maps`, whose bytes are
    /// `images`, given where the signature first matched in each.
    pub fn find(maps: &[MemoryMap], images: &[&[u8]], first_matches: &[Option<usize>]) -> (r:
        Result<Self, Error>)
        requires
            gp_d3d_device::resolvable(maps@, images@, first_matches@),
        ensures
            match gp_d3d_device::spec_find(maps@, images@, first_matches@) {
                Ok(device) => r matches Ok(v)
                    && v.material_system.shader_api_dx9.shader_device_dx8.gp_d3d_device == device,
                Err(e) => r == Err::<Self, Error>(
                    Error::MaterialSystem(
                        material_system::Error::ShaderApiDX9(
                            material_system::shader_api_dx9::Error::ShaderDeviceDX8(
                                material_system::shader_api_dx9::shader_device_dx8::Error::GPD3DDevice(e),
                            ),
                        ),
                    ),
                ),
            },
    {
        match material_system::MaterialSystem::find(maps, images, first_matches) {
            Ok(material_system) => Ok(Variables { material_system }),
            Err(e) => Err(Error::MaterialSystem(e)),
        }
    }
}

} // verus!
