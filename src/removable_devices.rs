//! Listing of the candidate devices found in the block-device registry.
//!
//! The caller reads one [`RegistryEntry`] per registry directory; this module
//! decides which of them become a [`Device`].

use crate::text::{parse_u128, parse_u128_of, trim_end_of, trim_of, trimmed};
use vstd::prelude::*;

verus! {

broadcast use vstd::string::group_string_axioms;

/// What the registry holds for one block device: each attribute file's
/// content, or `None` where it could not be read.
#[derive(Debug, Clone)]
pub struct RegistryEntry {
    /// The directory entry's leaf name, such as `sda`.
    pub name: String,
    /// Content of `removable`.
    pub removable: Option<String>,
    /// Content of `device/model`.
    pub model: Option<String>,
    /// Content of `device/vendor`.
    pub vendor: Option<String>,
    /// Content of `size`: a count of 512-byte sectors in decimal.
    pub size: Option<String>,
}

/// A candidate device, with the metadata shown to a user picking a target.
#[derive(Debug)]
pub struct Device {
    model: String,
    vendor: String,
    size: u128,
    pub name: String,
}

/// The mathematical value of a [`Device`].
pub struct DeviceView {
    pub name: Seq<char>,
    pub model: Seq<char>,
    pub vendor: Seq<char>,
    pub size: nat,
}

impl View for Device {
    type V = DeviceView;

    closed spec fn view(&self) -> DeviceView {
        DeviceView { name: self.name@, model: self.model@, vendor: self.vendor@, size: self.size as nat }
    }
}

/// Bytes in one sector of the registry's size attribute.
pub const SECTOR_SIZE: u128 = 512;

/// Whether a removability flag's content marks the device as removable.
pub open spec fn removable_flag(content: Seq<char>) -> bool {
    content == "1\n"@
}

/// The byte size for a sector count, where it fits in `u128`.
pub open spec fn size_of_sectors(sectors: int) -> Option<nat> {
    if 0 <= sectors && sectors * 512 <= u128::MAX {
        Some((sectors * 512) as nat)
    } else {
        None
    }
}

/// The byte size that the text of a size attribute gives.
pub open spec fn size_of_text(text: Seq<char>) -> Option<nat> {
    match parse_u128_of(trim_of(text)) {
        Some(n) => size_of_sectors(n),
        None => None,
    }
}

/// Whether the removability flag of `e` could be read and marks it removable.
pub open spec fn flagged_removable(e: RegistryEntry) -> bool {
    e.removable matches Some(f) && removable_flag(f@)
}

/// Whether `e` is listed when non-removable devices are allowed or not.
pub open spec fn listed(allow_non_removable: bool, e: RegistryEntry) -> bool {
    &&& (allow_non_removable || flagged_removable(e))
    &&& e.model matches Some(m) && trim_end_of(m@) != "CD-ROM"@
    &&& e.vendor is Some
    &&& e.size matches Some(s) && size_of_text(s@) is Some
}

/// The device that a listed entry becomes.
pub open spec fn device_of(e: RegistryEntry) -> DeviceView {
    DeviceView {
        name: e.name@,
        model: trim_end_of(e.model->0@),
        vendor: trim_end_of(e.vendor->0@),
        size: size_of_text(e.size->0@)->0,
    }
}

/// The devices listed for `entries`, in their order.
pub open spec fn listing(allow_non_removable: bool, entries: Seq<RegistryEntry>) -> Seq<DeviceView>
    decreases entries.len(),
{
    if entries.len() == 0 {
        Seq::empty()
    } else {
        let rest = listing(allow_non_removable, entries.drop_last());
        if listed(allow_non_removable, entries.last()) {
            rest.push(device_of(entries.last()))
        } else {
            rest
        }
    }
}

/// Whether a removability flag's content marks the device as removable.
pub fn is_removable_flag(content: &str) -> (r: bool)
    ensures
        r == removable_flag(content@),
{
    let flag = String::from_str("1\n");
    let c = String::from_str(content);
    c == flag
}

/// The byte size of `sectors` sectors, or `None` where it exceeds `u128`.
pub fn size_from_sectors(sectors: u128) -> (r: Option<u128>)
    ensures
        r matches Some(b) ==> size_of_sectors(sectors as int) == Some(b as nat),
        r is None ==> size_of_sectors(sectors as int) is None,
        r matches Some(b) ==> b / 512 == sectors,
{
    if sectors <= u128::MAX / SECTOR_SIZE {
        Some(sectors * SECTOR_SIZE)
    } else {
        None
    }
}

/// The byte size that the text of a size attribute gives.
pub fn size_from_text(text: &str) -> (r: Option<u128>)
    ensures
        r matches Some(b) ==> size_of_text(text@) == Some(b as nat),
        r is None ==> size_of_text(text@) is None,
{
    match parse_u128(text) {
        Some(n) => size_from_sectors(n),
        None => None,
    }
}

/// The device that `entry` becomes, or `None` where it is not listed.
pub fn device_from_entry(allow_non_removable: bool, entry: &RegistryEntry) -> (r: Option<Device>)
    ensures
        r is Some <==> listed(allow_non_removable, *entry),
        r matches Some(d) ==> d@ == device_of(*entry),
{
    if !allow_non_removable {
        match &entry.removable {
            Some(flag) => {
                if !is_removable_flag(flag.as_str()) {
                    return None;
                }
            },
            None => {
                return None;
            },
        }
    }
    let model = match &entry.model {
        Some(m) => trimmed(m.clone()),
        None => {
            return None;
        },
    };
    let cdrom = String::from_str("CD-ROM");
    if model == cdrom {
        return None;
    }
    let vendor = match &entry.vendor {
        Some(v) => trimmed(v.clone()),
        None => {
            return None;
        },
    };
    let size = match &entry.size {
        Some(s) => match size_from_text(s.as_str()) {
            Some(b) => b,
            None => {
                return None;
            },
        },
        None => {
            return None;
        },
    };
    Some(Device { model, vendor, size, name: entry.name.clone() })
}

/// The devices that the registry `entries` list, in their order: an entry
/// whose attributes cannot be read or parsed is left out, as is a `CD-ROM`,
/// and, unless `allow_non_removable`, a device not flagged removable.
pub fn get_storage_devices(allow_non_removable: bool, entries: &Vec<RegistryEntry>) -> (r: Vec<Device>)
    ensures
        r@.map_values(|d: Device| d@) == listing(allow_non_removable, entries@),
{
    let mut r: Vec<Device> = Vec::new();
    let mut i: usize = 0;
    while i < entries.len()
        invariant
            i <= entries@.len(),
            r@.map_values(|d: Device| d@) == listing(allow_non_removable, entries@.subrange(0, i as int)),
        decreases entries.len() - i,
    {
        let ghost before = r@;
        assert(entries@.subrange(0, i + 1).drop_last() =~= entries@.subrange(0, i as int));
        match device_from_entry(allow_non_removable, &entries[i]) {
            Some(d) => {
                r.push(d);
                assert(r@.map_values(|d: Device| d@) =~= before.map_values(|d: Device| d@).push(d@));
            },
            None => {},
        }
        i = i + 1;
    }
    assert(entries@.subrange(0, i as int) =~= entries@);
    r
}

/// A name for the text that byte_unit gives for a byte count shown in the
/// binary unit that suits it (`1.50 KiB`).
pub uninterp spec fn appropriate_unit_text(bytes: u128) -> Seq<char>;

/// Relies on byte_unit's `Byte::get_appropriate_unit(true)` and the `Display`
/// of the adjusted value: the text depends on the byte count alone.
#[verifier::external_body]
fn appropriate_unit(bytes: u128) -> (r: String)
    ensures
        r@ == appropriate_unit_text(bytes),
{
    byte_unit::Byte::from_bytes(bytes).get_appropriate_unit(true).to_string()
}

impl Device {
    /// The trimmed model string.
    pub fn model(&self) -> (r: &str)
        ensures
            r@ == self@.model,
    {
        self.model.as_str()
    }

    /// The trimmed vendor string.
    pub fn vendor(&self) -> (r: &str)
        ensures
            r@ == self@.vendor,
    {
        self.vendor.as_str()
    }

    /// The size in bytes.
    pub fn size(&self) -> (r: u128)
        ensures
            r == self@.size,
    {
        self.size
    }

    /// The line shown for this device: vendor, model, and the size in the
    /// binary unit that suits it, as in `Kingston DataTraveler (14.41 GiB)`.
    pub fn describe(&self) -> (r: String)
        ensures
            r@ == self@.vendor + " "@ + self@.model + " ("@ + appropriate_unit_text(self@.size as u128)
                + ")"@,
    {
        let unit = appropriate_unit(self.size);
        let mut r = self.vendor.clone();
        r.append(" ");
        r.append(self.model.as_str());
        r.append(" (");
        r.append(unit.as_str());
        r.append(")");
        r
    }
}

/// No listed device has the model `CD-ROM`, whatever the removability flags say.
pub proof fn lemma_no_cdrom_listed(allow_non_removable: bool, entries: Seq<RegistryEntry>)
    ensures
        forall|i: int|
            0 <= i < listing(allow_non_removable, entries).len() ==> #[trigger] listing(
                allow_non_removable,
                entries,
            )[i].model != "CD-ROM"@,
    decreases entries.len(),
{
    if entries.len() > 0 {
        let prefix = entries.drop_last();
        lemma_no_cdrom_listed(allow_non_removable, prefix);
        let rest = listing(allow_non_removable, prefix);
        let l = listing(allow_non_removable, entries);
        assert forall|i: int| 0 <= i < l.len() implies #[trigger] l[i].model != "CD-ROM"@ by {
            if i < rest.len() {
                assert(l[i] == rest[i]);
            }
        }
    }
}

/// Whether `d` is the device of an entry of `entries` flagged removable.
pub open spec fn from_removable_entry(entries: Seq<RegistryEntry>, d: DeviceView) -> bool {
    exists|j: int|
        0 <= j < entries.len() && flagged_removable(#[trigger] entries[j]) && device_of(entries[j]) == d
}

/// Without the override, every listed device comes from an entry whose
/// removability flag reads exactly `1` and a newline.
pub proof fn lemma_only_removable_listed(entries: Seq<RegistryEntry>)
    ensures
        forall|i: int|
            0 <= i < listing(false, entries).len() ==> from_removable_entry(
                entries,
                #[trigger] listing(false, entries)[i],
            ),
    decreases entries.len(),
{
    if entries.len() > 0 {
        let prefix = entries.drop_last();
        lemma_only_removable_listed(prefix);
        let l = listing(false, entries);
        let rest = listing(false, prefix);
        assert forall|i: int| 0 <= i < l.len() implies from_removable_entry(entries, #[trigger] l[i]) by {
            if i < rest.len() {
                assert(l[i] == rest[i]);
                assert(from_removable_entry(prefix, rest[i]));
                let j = choose|j: int|
                    0 <= j < prefix.len() && flagged_removable(#[trigger] prefix[j]) && device_of(prefix[j]) == rest[i];
                assert(entries[j] == prefix[j]);
            } else {
                let j = entries.len() - 1;
                assert(flagged_removable(entries[j]) && device_of(entries[j]) == l[i]);
            }
        }
    }
}

}
