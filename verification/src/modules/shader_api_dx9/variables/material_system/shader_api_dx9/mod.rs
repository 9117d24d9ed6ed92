//! The variables of `materialsystem/shaderapidx9/`.

use vstd::prelude::*;
use crate::utils::module::maps::MemoryMap;
use self::shader_device_dx8::gp_d3d_device;

pub mod shader_device_dx8;

verus! {

/// Why a variable could not be found.
#[derive(Debug, Clone, Copy, PartialEq, Eq)]
pub enum Error {
    ShaderDeviceDX8(shader_device_dx8::Error),
}

/// The variables of `materialsystem/shaderapidx9/`.
#[derive(Debug)]
pub struct ShaderApiDX9 {
    pub shader_device_dx8: shader_device_dx8::ShaderDeviceDX8,
}

impl ShaderApiDX9 {
    /// Finds the variables (see `Variables::find`).
    pub fn find(maps: &[MemoryMap], images: &[&[u8]], first_matches: &[Option<usize>]) -> (r:
        Result<Self, Error>)
        requires
            gp_d3d_device::resolvable(maps@, images@, first_matches@),
        ensures
            match gp_d3d_device::spec_find(maps@, images@, first_matches@) {
                Ok(device) => r matches Ok(v) && v.shader_device_dx8.gp_d3d_device == device,
                Err(e) => r == Err::<Self, Error>(
                    Error::ShaderDeviceDX8(shader_device_dx8::Error::GPD3DDevice(e)),
                ),
            },
    {
        match shader_device_dx8::ShaderDeviceDX8::find(maps, images, first_matches) {
            Ok(shader_device_dx8) => Ok(ShaderApiDX9 { shader_device_dx8 }),
            Err(e) => Err(Error::ShaderDeviceDX8(e)),
        }
    }
}

} // verus!
