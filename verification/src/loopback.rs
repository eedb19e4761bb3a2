//! Loopback device modelling. Loopback devices map files to block devices
//! and appear as `loop*` block nodes.

use vstd::prelude::*;

use crate::disk::{is_loop_name, name_matches_loop, BasicDisk};

verus! {

/// Represents a loop device.
#[derive(Debug)]
pub struct Device {
    /// The device name (e.g. `loop0`, `loop1`).
    pub name: String,
    /// Path to the device under the device directory.
    pub device: String,
    /// Optional backing file path.
    pub file: Option<String>,
    /// Optional disk record when the loop device is backed by a file.
    pub disk: Option<BasicDisk>,
}

impl Device {
    /// A loop device is well-formed when its name matches `loop\d+` and
    /// its embedded disk record, when present, is well-formed.
    pub open spec fn wf(self) -> bool {
        &&& is_loop_name(self.name@)
        &&& self.disk matches Some(d) ==> d.wf()
    }

    /// Two loop devices are equivalent when every field holds the same
    /// value (embedded disk records compared field by field).
    pub open spec fn equiv(self, o: Device) -> bool {
        &&& self.name == o.name
        &&& self.device == o.device
        &&& self.file == o.file
        &&& match (self.disk, o.disk) {
            (Some(a), Some(b)) => a.equiv(b),
            (None, None) => true,
            _ => false,
        }
    }

    /// Build a loop device from already-read attributes. Returns `None`
    /// exactly when the name does not match the loop-device pattern.
    /// A disk record may only be present when a backing file is.
    pub fn from_attributes(
        name: String,
        device: String,
        file: Option<String>,
        disk: Option<BasicDisk>,
    ) -> (r: Option<Device>)
        requires
            disk matches Some(d) ==> d.wf(),
            disk is Some ==> file is Some,
        ensures
            r is Some <==> is_loop_name(name@),
            r matches Some(d) ==> {
                &&& d.wf()
                &&& d.name == name
                &&& d.device == device
                &&& d.file == file
                &&& d.disk == disk
            },
    {
        if name_matches_loop(name.as_str()) {
            Some(Device { name, device, file, disk })
        } else {
            None
        }
    }

    /// Returns the device name.
    pub fn name(&self) -> (r: &str)
        ensures
            r@ == self.name@,
    {
        self.name.as_str()
    }

    /// Returns the device path.
    pub fn device_path(&self) -> (r: &str)
        ensures
            r@ == self.device@,
    {
        self.device.as_str()
    }

    /// Returns the backing file path, when the device is attached.
    pub fn file_path(&self) -> (r: Option<&str>)
        ensures
            r is Some <==> self.file is Some,
            r matches Some(s) ==> s@ == self.file->Some_0@,
    {
        match &self.file {
            Some(f) => Some(f.as_str()),
            None => None,
        }
    }

    /// Returns the disk record when the loop device is backed by a disk.
    pub fn disk(&self) -> (r: Option<&BasicDisk>)
        ensures
            r is Some <==> self.disk is Some,
            r matches Some(d) ==> *d == self.disk->Some_0,
    {
        match &self.disk {
            Some(d) => Some(d),
            None => None,
        }
    }
}

impl Clone for Device {
    /// Cloning a loop device keeps every field's value.
    fn clone(&self) -> (res: Self)
        ensures
            res.equiv(*self),
    {
        Device {
            name: self.name.clone(),
            device: self.device.clone(),
            file: match &self.file {
                Some(f) => Some(f.clone()),
                None => None,
            },
            disk: match &self.disk {
                Some(d) => Some(d.clone()),
                None => None,
            },
        }
    }
}

} // verus!
