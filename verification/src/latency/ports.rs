use vstd::prelude::*;

verus! {

/// The USB vendor ID of QinHeng, maker of the CH34x serial bridges.
pub const QINHENG_VID: u16 = 0x1A86;

/// A serial port as the system lists it: its name, and the USB vendor ID
/// when it is a USB port.
pub struct PortInfo {
    pub name: String,
    pub usb_vid: Option<u16>,
}

/// Whether the port is a CH34x bridge.
pub open spec fn is_ch34x(p: PortInfo) -> bool {
    p.usb_vid == Some(QINHENG_VID)
}

/// Picks the first CH34x bridge in the list, if any.
pub fn autodetect_ch34x(ports: &Vec<PortInfo>) -> (r: Option<String>)
    ensures
        match r {
            Some(name) => exists|i: int|
                0 <= i < ports@.len() && is_ch34x(ports@[i]) && name@ == ports@[i].name@ && (
                forall|j: int| 0 <= j < i ==> !is_ch34x(#[trigger] ports@[j])),
            None => forall|j: int| 0 <= j < ports@.len() ==> !is_ch34x(#[trigger] ports@[j]),
        },
{
    let mut k: usize = 0;
    while k < ports.len()
        invariant
            k <= ports@.len(),
            forall|j: int| 0 <= j < k ==> !is_ch34x(#[trigger] ports@[j]),
        decreases ports@.len() - k,
    {
        if ports[k].usb_vid == Some(QINHENG_VID) {
            let name = ports[k].name.clone();
            assert(is_ch34x(ports@[k as int]));
            return Some(name);
        }
        k = k + 1;
    }
    None
}

} // verus!
