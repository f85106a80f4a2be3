//! What the controller serves: sites, and the devices registered at a site.

use vstd::prelude::*;

use crate::mac_address::MacAddress;

verus! {

/// A site of the controller: its identifier and its display name.
#[derive(Debug, Clone)]
pub struct UnifiSite {
    pub code: String,
    pub desc: String,
}

/// A site as plain values.
pub struct SiteView {
    pub code: Seq<char>,
    pub desc: Seq<char>,
}

impl DeepView for UnifiSite {
    type V = SiteView;

    open spec fn deep_view(&self) -> SiteView {
        SiteView { code: self.code@, desc: self.desc@ }
    }
}

/// The basic attributes of a device, as the controller lists them, with the
/// label and the site name that are filled in once the device is found.
#[derive(Debug, Clone)]
pub struct UnifiDeviceBasic {
    pub mac: MacAddress,
    pub name: Option<String>,
    pub model: String,
    pub device_label: String,
    pub site: String,
}

/// A device as plain values.
pub struct DeviceView {
    pub mac: nat,
    pub name: Option<Seq<char>>,
    pub model: Seq<char>,
    pub device_label: Seq<char>,
    pub site: Seq<char>,
}

impl DeepView for UnifiDeviceBasic {
    type V = DeviceView;

    open spec fn deep_view(&self) -> DeviceView {
        DeviceView {
            mac: self.mac@,
            name: match self.name {
                Some(name) => Some(name@),
                None => None,
            },
            model: self.model@,
            device_label: self.device_label@,
            site: self.site@,
        }
    }
}

/// The label of a device: the name it was given, or its model where it has
/// none.
pub open spec fn label_text(name: Option<Seq<char>>, model: Seq<char>) -> Seq<char> {
    match name {
        Some(name) => name,
        None => model,
    }
}

/// A device with its label filled in.
pub open spec fn labelled(device: DeviceView) -> DeviceView {
    DeviceView { device_label: label_text(device.name, device.model), ..device }
}

impl UnifiDeviceBasic {
    /// Fills in the device's label from its name, or from its model where it
    /// has no name.
    pub fn create_device_label(&mut self)
        ensures
            final(self).deep_view() == labelled(old(self).deep_view()),
    {
        let label = match &self.name {
            Some(name) => name.clone(),
            None => self.model.clone(),
        };
        self.device_label = label;
    }
}

} // verus!
