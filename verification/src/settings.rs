//! Output-device settings screen: the list of audio devices, the highlighted
//! row, and the device currently in use.

use vstd::prelude::*;

verus! {

use vstd::string::StringExecFns;

/// State of the output-device screen. Devices are carried by name; the audio
/// backend that enumerates them hands the names over at construction.
pub struct Settings {
    /// Names of the available output devices.
    pub devices: Vec<String>,
    /// Highlighted row, `None` when there are no devices.
    pub index: Option<usize>,
    /// Name of the device currently in use.
    pub current_device: String,
}

impl Settings {
    /// A settings screen over the given device names. The wanted device is
    /// kept current when it is present, else the default device; the
    /// highlight starts on the first row when there is one.
    pub fn new(wanted_device: &str, devices: Vec<String>, default_device: &str) -> (r: Settings)
        ensures
            r.devices@ == devices@,
            r.index == (if devices@.len() == 0 {
                Option::<usize>::None
            } else {
                Option::<usize>::Some(0usize)
            }),
            (exists|i: int| 0 <= i < devices@.len() && devices@[i]@ == wanted_device@)
                ==> r.current_device@ == wanted_device@,
            !(exists|i: int| 0 <= i < devices@.len() && devices@[i]@ == wanted_device@)
                ==> r.current_device@ == default_device@,
    {
        let wanted = String::from_str(wanted_device);
        let mut found = false;
        let n = devices.len();
        #[verifier::loop_isolation(false)]
        for k in 0..n
            invariant
                found == exists|i: int| 0 <= i < k && devices@[i]@ == wanted_device@,
        {
            if devices[k] == wanted {
                found = true;
            }
        }
        let current_device = if found {
            wanted
        } else {
            String::from_str(default_device)
        };
        let index = if devices.len() == 0 {
            None
        } else {
            Some(0)
        };
        Settings { devices, index, current_device }
    }

    /// Name of the highlighted device, when the highlight points at one.
    pub fn selected(&self) -> (r: Option<&str>)
        ensures
            match self.index {
                Some(i) if i < self.devices@.len() => r matches Some(name) && name@
                    == self.devices@[i as int]@,
                _ => r is None,
            },
    {
        if let Some(index) = self.index {
            if index < self.devices.len() {
                return Some(self.devices[index].as_str());
            }
        }
        None
    }

    /// Move the highlight one row up, wrapping from the first row to the
    /// last; with no devices, or no highlight, nothing moves.
    pub fn up(&mut self)
        ensures
            final(self).devices@ == old(self).devices@,
            final(self).current_device == old(self).current_device,
            final(self).index == (if old(self).devices@.len() == 0 {
                old(self).index
            } else {
                match old(self).index {
                    Some(0usize) => Some((old(self).devices@.len() - 1) as usize),
                    Some(n) => Some((n - 1) as usize),
                    None => Option::<usize>::None,
                }
            }),
    {
        if self.devices.len() == 0 {
            return;
        }
        match self.index {
            Some(0) => self.index = Some(self.devices.len() - 1),
            Some(n) => self.index = Some(n - 1),
            None => (),
        }
    }

    /// Move the highlight one row down, wrapping from the last row to the
    /// first; with no devices, or no highlight, nothing moves.
    pub fn down(&mut self)
        ensures
            final(self).devices@ == old(self).devices@,
            final(self).current_device == old(self).current_device,
            final(self).index == (if old(self).devices@.len() == 0 {
                old(self).index
            } else {
                match old(self).index {
                    Some(n) if n + 1 < old(self).devices@.len() => Some((n + 1) as usize),
                    Some(_) => Some(0usize),
                    None => Option::<usize>::None,
                }
            }),
    {
        if self.devices.len() == 0 {
            return;
        }
        match self.index {
            Some(n) if n < self.devices.len() - 1 => self.index = Some(n + 1),
            Some(_) => self.index = Some(0),
            None => (),
        }
    }
}

} // verus!
