//! The variables of `materialsystem/` in `shaderapidx9.dll`.

use vstd::prelude::*;
use crate::utils::module::maps::MemoryMap;
use self::shader_api_dx9::shader_device_dx8::gp_d3d_device;

pub mod shader_api_dx9;

verus! {

/// Why a variable could not be found.
#[derive(Debug, Clone, Copy, PartialEq, Eq)]
pub enum Error {
    ShaderApiDX9(shader_api_dx9::Error),
}

/// The variables of `materialsystem/`.
#[derive(Debug)]
pub struct MaterialSystem {
    pub shader_api_dx9: shader_api_dx9::ShaderApiDX9,
}

impl MaterialSystem {
    /// Finds the variables (see `Variables::find`).
    pub fn find(maps: &[MemoryMap], images: &[&[u8]], first_matches: &[Option<usize>]) -> (r:
        Result<Self, Error>)
        requires
            gp_d3d_device::resolvable(maps@, images@, first_matches@),
        ensures
            match gp_d3d_device::spec_find(maps@, images@, first_matches@) {
                Ok(device) => r matches Ok(v)
                    && v.shader_api_dx9.shader_device_dx8.gp_d3d_device == device,
                Err(e) => r == Err::<Self, Error>(
                    Error::ShaderApiDX9(
                        shader_api_dx9::Error::ShaderDeviceDX8(
                            shader_api_dx9::shader_device_dx8::Error::GPD3DDevice(e),
                        ),
                    ),
                ),
            },
    {
        match shader_api_dx9::ShaderApiDX9::find(maps, images, first_matches) {
            Ok(shader_api_dx9) => Ok(MaterialSystem { shader_api_dx9 }),
            Err(e) => Err(Error::ShaderApiDX9(e)),
        }
    }
}

} // verus!
