//! The variables of `shaderdevicedx8.cpp`.

use vstd::prelude::*;
use crate::utils::module::maps::MemoryMap;

pub mod gp_d3d_device;

verus! {

/// Why a variable could not be found.
#[derive(Debug, Clone, Copy, PartialEq, Eq)]
pub enum Error {
    GPD3DDevice(gp_d3d_device::Error),
}

/// The variables of `shaderdevicedx8.cpp`: the address of `g_pD3DDevice`.
#[derive(Debug)]
pub struct ShaderDeviceDX8 {
    pub gp_d3d_device: usize,
}

impl ShaderDeviceDX8 {
    /// Finds the variables (see `Variables::find`).
    pub fn find(maps: &[MemoryMap], images: &[&[u8]], first_matches: &[Option<usize>]) -> (r:
        Result<Self, Error>)
        requires
            gp_d3d_device::resolvable(maps@, images@, first_matches@),
        ensures
            match gp_d3d_device::spec_find(maps@, images@, first_matches@) {
                Ok(device) => r matches Ok(v) && v.gp_d3d_device == device,
                Err(e) => r == Err::<Self, Error>(Error::GPD3DDevice(e)),
            },
    {
        match gp_d3d_device::find(maps, images, first_matches) {
            Ok(gp_d3d_device) => Ok(ShaderDeviceDX8 { gp_d3d_device }),
            Err(e) => Err(Error::GPD3DDevice(e)),
        }
    }
}

} // verus!
