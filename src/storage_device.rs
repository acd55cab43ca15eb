//! Validation of a single target device, its partitions and its mounts.

use crate::error::StorageError;
use crate::mounts::{mount_points_of, mounts_for, mounts_in_table, MountConfig};
use crate::partition::Partition;
use crate::removable_devices::{is_removable_flag, removable_flag};
use crate::text::{char_vec, is_digit};
use vstd::prelude::*;

verus! {

broadcast use vstd::string::group_string_axioms;

/// The last component of `path`: what follows its last `/`.
pub open spec fn leaf_name(path: Seq<char>) -> Seq<char>
    decreases path.len(),
{
    if path.len() == 0 || path.last() == '/' {
        Seq::empty()
    } else {
        leaf_name(path.drop_last()).push(path.last())
    }
}

/// The registry directory of the device `name`.
pub open spec fn sys_path_of(name: Seq<char>) -> Seq<char> {
    "/sys/block/"@ + name
}

/// The character of the decimal digit `d`.
pub open spec fn char_of_digit(d: nat) -> char {
    seq!['0', '1', '2', '3', '4', '5', '6', '7', '8', '9'][d as int]
}

/// The decimal text of `n`.
pub open spec fn decimal_text(n: nat) -> Seq<char>
    decreases n,
{
    if n < 10 {
        seq![char_of_digit(n)]
    } else {
        decimal_text(n / 10).push(char_of_digit(n % 10))
    }
}

/// The name of partition `index` of the device `name`: a `p` separates the
/// two where the name ends in a digit.
pub open spec fn partition_name(name: Seq<char>, index: nat) -> Seq<char> {
    if name.len() > 0 && is_digit(name.last()) {
        name + seq!['p'] + decimal_text(index)
    } else {
        name + decimal_text(index)
    }
}

/// The device node of partition `index` of the device `name`.
pub open spec fn partition_path_of(name: Seq<char>, index: nat) -> Seq<char> {
    "/dev/"@ + partition_name(name, index)
}

/// The mathematical value of a [`StorageDevice`].
pub struct StorageDeviceView {
    pub name: Seq<char>,
    pub path: Seq<char>,
    pub removable: bool,
    pub is_loop: bool,
    pub overridden: bool,
    pub mounts: Seq<Seq<char>>,
}

/// A block device that passed the safety check, with the mount points it had
/// when it was validated. Only [`StorageDevice::from_path`] makes one.
#[derive(Debug)]
pub struct StorageDevice {
    name: String,
    path: String,
    removable: bool,
    is_loop: bool,
    overridden: bool,
    mount_config: Vec<MountConfig>,
}

impl View for StorageDevice {
    type V = StorageDeviceView;

    closed spec fn view(&self) -> StorageDeviceView {
        StorageDeviceView {
            name: self.name@,
            path: self.path@,
            removable: self.removable,
            is_loop: self.is_loop,
            overridden: self.overridden,
            mounts: mount_points_of(self.mount_config@),
        }
    }
}

/// A validated device: named by its path's leaf, and removable, a loop
/// device, or explicitly allowed.
pub open spec fn valid_device(d: StorageDeviceView) -> bool {
    &&& d.name.len() > 0
    &&& d.name == leaf_name(d.path)
    &&& (d.removable || d.is_loop || d.overridden)
}

/// Whether a removability flag was read and marks the device removable.
pub open spec fn flag_removable(flag: Option<&str>) -> bool {
    match flag {
        Some(f) => removable_flag(f@),
        None => false,
    }
}

/// The safety gate: a device whose flag was read passes where it is
/// removable, a loop device, or non-removable devices are allowed.
pub open spec fn passes_gate(allow_non_removable: bool, flag: Option<&str>, is_loop: bool) -> bool {
    flag is Some && (allow_non_removable || flag_removable(flag) || is_loop)
}

/// The characters after the last `/` of `path`.
pub fn device_name(path: &str) -> (r: Result<String, StorageError>)
    ensures
        r matches Ok(n) ==> n@ == leaf_name(path@) && n@.len() > 0,
        r is Err ==> leaf_name(path@).len() == 0,
        r matches Err(e) ==> e matches StorageError::InvalidDeviceName(p) && p@ == path@,
{
    let cs = char_vec(path);
    let n = cs.len();
    let mut i = n;
    assert(cs@.subrange(i as int, n as int) =~= Seq::<char>::empty());
    assert(cs@.subrange(0, i as int) =~= cs@);
    while i > 0 && cs[i - 1] != '/'
        invariant
            i <= n == cs@.len(),
            cs@ == path@,
            leaf_name(path@) == leaf_name(cs@.subrange(0, i as int)) + cs@.subrange(i as int, n as int),
        decreases i,
    {
        let ghost p = cs@.subrange(0, i as int);
        assert(p.drop_last() =~= cs@.subrange(0, i - 1));
        assert(cs@.subrange(i - 1, n as int) =~= seq![p.last()] + cs@.subrange(i as int, n as int));
        assert(leaf_name(p) == leaf_name(p.drop_last()).push(p.last()));
        assert(leaf_name(p.drop_last()).push(p.last()) + cs@.subrange(i as int, n as int) =~= leaf_name(
            p.drop_last(),
        ) + cs@.subrange(i - 1, n as int));
        i = i - 1;
    }
    assert(leaf_name(cs@.subrange(0, i as int)) =~= Seq::<char>::empty());
    assert(leaf_name(path@) =~= cs@.subrange(i as int, n as int));
    if i == n {
        return Err(StorageError::InvalidDeviceName(String::from_str(path)));
    }
    Ok(String::from_str(path.substring_char(i, n)))
}

/// Whether `c` is a decimal digit.
fn is_digit_char(c: char) -> (r: bool)
    ensures
        r == is_digit(c),
{
    '0' <= c && c <= '9'
}

/// The text of one decimal digit.
fn digit_str(d: u8) -> (r: &'static str)
    requires
        d < 10,
    ensures
        r@ == seq![char_of_digit(d as nat)],
{
    proof {
        reveal_strlit("0");
        reveal_strlit("1");
        reveal_strlit("2");
        reveal_strlit("3");
        reveal_strlit("4");
        reveal_strlit("5");
        reveal_strlit("6");
        reveal_strlit("7");
        reveal_strlit("8");
        reveal_strlit("9");
    }
    if d == 0 {
        "0"
    } else if d == 1 {
        "1"
    } else if d == 2 {
        "2"
    } else if d == 3 {
        "3"
    } else if d == 4 {
        "4"
    } else if d == 5 {
        "5"
    } else if d == 6 {
        "6"
    } else if d == 7 {
        "7"
    } else if d == 8 {
        "8"
    } else {
        "9"
    }
}

/// Appends the decimal text of `n` to `s`.
fn append_decimal(s: &mut String, n: u8)
    ensures
        final(s)@ == old(s)@ + decimal_text(n as nat),
{
    reveal_with_fuel(decimal_text, 3);
    if n >= 100 {
        s.append(digit_str(n / 100));
        s.append(digit_str((n / 10) % 10));
        s.append(digit_str(n % 10));
        assert(decimal_text(n as nat) =~= seq![char_of_digit((n / 100) as nat), char_of_digit(((n / 10) % 10) as nat), char_of_digit((n % 10) as nat)]);
    } else if n >= 10 {
        s.append(digit_str(n / 10));
        s.append(digit_str(n % 10));
        assert(decimal_text(n as nat) =~= seq![char_of_digit((n / 10) as nat), char_of_digit((n % 10) as nat)]);
    } else {
        s.append(digit_str(n));
    }
}

impl StorageDevice {
    /// The registry directory of the device `name`, `/sys/block/<name>`.
    pub fn sys_path(name: &str) -> (r: String)
        ensures
            r@ == sys_path_of(name@),
    {
        let mut r = String::from_str("/sys/block/");
        r.append(name);
        r
    }

    /// Validates the block device at `path`, a canonical path. The caller
    /// hands in what it read for the device `name` that `path` ends in: the
    /// content of its removability flag (`None` where it could not be read),
    /// whether its loop marker exists, and the mount table (`None` where it
    /// could not be read).
    ///
    /// The device is refused unless it is removable, a loop device, or
    /// `allow_non_removable` is set. Its mount points are the second field of
    /// each mount-table line that starts with `path`: a device's own mounts and
    /// those of its partitions.
    pub fn from_path(
        path: &str,
        allow_non_removable: bool,
        removable_flag_text: Option<&str>,
        is_loop: bool,
        mount_table: Option<&str>,
    ) -> (r: Result<StorageDevice, StorageError>)
        ensures
            (leaf_name(path@).len() > 0 && !allow_non_removable && !is_loop && removable_flag_text is Some
                && !flag_removable(removable_flag_text)) ==> (r matches Err(
                StorageError::UnsafeDevice(_),
            )),
            match r {
                Ok(d) => {
                    &&& leaf_name(path@).len() > 0
                    &&& removable_flag_text is Some
                    &&& passes_gate(allow_non_removable, removable_flag_text, is_loop)
                    &&& mount_table is Some
                    &&& d@ == (StorageDeviceView {
                        name: leaf_name(path@),
                        path: path@,
                        removable: flag_removable(removable_flag_text),
                        is_loop,
                        overridden: allow_non_removable,
                        mounts: mounts_in_table(path@, mount_table->0@),
                    })
                    &&& valid_device(d@)
                },
                Err(StorageError::InvalidDeviceName(p)) => leaf_name(path@).len() == 0 && p@ == path@,
                Err(StorageError::AttributeRead(n)) => {
                    &&& leaf_name(path@).len() > 0
                    &&& removable_flag_text is None
                    &&& n@ == leaf_name(path@)
                },
                Err(StorageError::UnsafeDevice(n)) => {
                    &&& leaf_name(path@).len() > 0
                    &&& removable_flag_text is Some
                    &&& !passes_gate(allow_non_removable, removable_flag_text, is_loop)
                    &&& n@ == leaf_name(path@)
                },
                Err(StorageError::MountTableRead) => {
                    &&& leaf_name(path@).len() > 0
                    &&& passes_gate(allow_non_removable, removable_flag_text, is_loop)
                    &&& mount_table is None
                },
                Err(_) => false,
            },
    {
        let name = match device_name(path) {
            Ok(n) => n,
            Err(e) => {
                return Err(e);
            },
        };
        let removable = match removable_flag_text {
            Some(f) => is_removable_flag(f),
            None => {
                return Err(StorageError::AttributeRead(name));
            },
        };
        if !(allow_non_removable || removable || is_loop) {
            return Err(StorageError::UnsafeDevice(name));
        }
        let mount_config = match mount_table {
            Some(t) => mounts_for(path, t),
            None => {
                return Err(StorageError::MountTableRead);
            },
        };
        Ok(
            StorageDevice {
                name,
                path: String::from_str(path),
                removable,
                is_loop,
                overridden: allow_non_removable,
                mount_config,
            },
        )
    }

    /// The device's leaf name, such as `sda`.
    pub fn name(&self) -> (r: &str)
        ensures
            r@ == self@.name,
    {
        self.name.as_str()
    }

    /// The canonical path of the device node.
    pub fn path(&self) -> (r: &str)
        ensures
            r@ == self@.path,
    {
        self.path.as_str()
    }

    /// Whether the registry flagged the device removable when it was validated.
    pub fn is_removable_device(&self) -> (r: bool)
        ensures
            r == self@.removable,
    {
        self.removable
    }

    /// Whether the device had a loop marker when it was validated.
    pub fn is_loop_device(&self) -> (r: bool)
        ensures
            r == self@.is_loop,
    {
        self.is_loop
    }

    /// The mount points known for the device.
    pub fn mount_config(&self) -> (r: &Vec<MountConfig>)
        ensures
            mount_points_of(r@) == self@.mounts,
    {
        &self.mount_config
    }

    /// The device node of partition `index`, `/dev/<name><index>`, with a
    /// `p` before the index where the name ends in a digit.
    pub fn partition_path(&self, index: u8) -> (r: String)
        requires
            valid_device(self@),
        ensures
            r@ == partition_path_of(self@.name, index as nat),
    {
        let cs = char_vec(self.name.as_str());
        let mut r = String::from_str("/dev/");
        r.append(self.name.as_str());
        if is_digit_char(cs[cs.len() - 1]) {
            r.append("p");
            proof {
                reveal_strlit("p");
            }
        }
        append_decimal(&mut r, index);
        r
    }

    /// Partition `index` of the device. `node_exists` says whether its
    /// device node, [`StorageDevice::partition_path`], exists.
    pub fn get_partition(&self, index: u8, node_exists: bool) -> (r: Result<Partition, StorageError>)
        requires
            valid_device(self@),
        ensures
            r is Ok <==> node_exists,
            r matches Ok(p) ==> p@ == partition_path_of(self@.name, index as nat),
            r matches Err(e) ==> e == StorageError::PartitionNotFound(index),
    {
        if !node_exists {
            return Err(StorageError::PartitionNotFound(index));
        }
        Ok(Partition::new(self.partition_path(index)))
    }

    /// Hands out the known mount points, for the caller to unmount, and
    /// forgets them: afterwards the device has none.
    pub fn take_mount_config(&mut self) -> (r: Vec<MountConfig>)
        ensures
            mount_points_of(r@) == old(self)@.mounts,
            final(self)@ == (StorageDeviceView { mounts: Seq::empty(), ..old(self)@ }),
            final(self)@.mounts.len() == 0,
            old(self)@.mounts.len() == 0 ==> final(self)@ == old(self)@ && r@.len() == 0,
    {
        let mut r: Vec<MountConfig> = Vec::new();
        std::mem::swap(&mut self.mount_config, &mut r);
        assert(mount_points_of(self.mount_config@) =~= Seq::<Seq<char>>::empty());
        if r.len() == 0 {
            assert(mount_points_of(r@) =~= Seq::<Seq<char>>::empty());
        }
        r
    }
}

/// Partition naming: the index follows a `p` exactly where the device name
/// ends in a decimal digit, and follows the name directly otherwise.
pub proof fn lemma_partition_suffix(name: Seq<char>, index: nat)
    requires
        name.len() > 0,
    ensures
        partition_name(name, index) == name + seq!['p'] + decimal_text(index) <==> is_digit(name.last()),
        !is_digit(name.last()) <==> partition_name(name, index) == name + decimal_text(index),
{
    let with_p = name + seq!['p'] + decimal_text(index);
    let without = name + decimal_text(index);
    assert(with_p.len() != without.len());
}

}
