//! Linux whole-disk devices, from the values `/sys/block/<dev>/` holds.
//! Reading the files is the caller's part; what they say is decided here.

use vstd::prelude::*;
use crate::text::{cat, lower, owned, starts_with, string_of, to_chars, trim};

verus! {

/// What kind of device sysfs describes.
#[derive(Debug, Clone, Copy, PartialEq, Eq, Structural)]
pub enum LinuxKind {
    Nvme,
    Ssd,
    Hdd,
    UsbMassStorage,
    Unknown,
}

/// One whole disk.
#[derive(Debug, Clone)]
pub struct LinuxDevice {
    pub name: String,
    pub kind: LinuxKind,
    pub model: String,
    pub firmware: Option<String>,
    pub serial: Option<String>,
    pub size_bytes: u64,
    pub removable: bool,
}

/// Block devices that are not disks of their own: loop and ram devices,
/// and the stacked ones (dm, md, ZFS zvols) the volumes view covers.
pub open spec fn skipped_block(name: Seq<char>) -> bool {
    ||| starts_with(name, "loop"@)
    ||| starts_with(name, "ram"@)
    ||| starts_with(name, "dm-"@)
    ||| starts_with(name, "md"@)
    ||| starts_with(name, "zd"@)
}

pub fn is_skipped_block(name: &str) -> (b: bool)
    ensures
        b == skipped_block(name@),
{
    let v = to_chars(name);
    let n = v.len();
    proof {
        assert(v@.subrange(0, n as int) =~= v@);
    }
    crate::text::range_has_prefix(&v, 0, n, "loop") || crate::text::range_has_prefix(&v, 0, n, "ram")
        || crate::text::range_has_prefix(&v, 0, n, "dm-") || crate::text::range_has_prefix(&v, 0, n, "md")
        || crate::text::range_has_prefix(&v, 0, n, "zd")
}

/// A sysfs attribute's text, trimmed; `None` when nothing is left.
pub open spec fn attr_text(raw: Seq<char>) -> Option<Seq<char>> {
    if trim(raw).len() == 0 {
        None
    } else {
        Some(trim(raw))
    }
}

pub fn trimmed_attr(raw: &str) -> (r: Option<String>)
    ensures
        crate::config::opt_view(r) == attr_text(raw@),
{
    let v = to_chars(raw);
    let (a, b) = crate::text::trim_range(&v, 0, v.len());
    proof {
        assert(v@.subrange(0, v@.len() as int) =~= v@);
    }
    if a == b {
        None
    } else {
        Some(string_of(&v, a, b))
    }
}

/// The model string shown: the vendor in front of the model when both are
/// known and the model does not already begin with it (compared without
/// regard to ASCII case); a dash when no model is known.
pub open spec fn composed_model(model: Seq<char>, vendor: Seq<char>) -> Seq<char> {
    if vendor.len() > 0 && !starts_with(lower(model), lower(vendor)) {
        vendor + " "@ + model
    } else if model.len() == 0 {
        "\u{2014}"@
    } else {
        model
    }
}

pub fn compose_model(model: &str, vendor: &str) -> (s: String)
    ensures
        s@ == composed_model(model@, vendor@),
{
    let mv = to_chars(model);
    let vv = to_chars(vendor);
    let ml = crate::text::lower_range(&mv, 0, mv.len());
    let vl = crate::text::lower_range(&vv, 0, vv.len());
    proof {
        assert(mv@.subrange(0, mv@.len() as int) =~= mv@);
        assert(vv@.subrange(0, vv@.len() as int) =~= vv@);
        assert(ml@.subrange(0, ml@.len() as int) =~= ml@);
    }
    if vv.len() > 0 && !crate::text::range_starts_with(&ml, 0, ml.len(), &vl) {
        cat(cat(owned(vendor), " "), model)
    } else if mv.len() == 0 {
        owned("\u{2014}")
    } else {
        owned(model)
    }
}

/// NVMe by name; then removable media; then spinning disks; then a disk
/// with a model is taken for an SSD.
pub open spec fn linux_kind(name: Seq<char>, removable: bool, rotational: bool, model: Seq<char>) -> LinuxKind {
    if starts_with(name, "nvme"@) {
        LinuxKind::Nvme
    } else if removable {
        LinuxKind::UsbMassStorage
    } else if rotational {
        LinuxKind::Hdd
    } else if model.len() > 0 {
        LinuxKind::Ssd
    } else {
        LinuxKind::Unknown
    }
}

/// What each kind means: NVMe is told by the name; otherwise removable
/// media is USB mass storage; a fixed disk is a spinning HDD exactly when
/// sysfs says it rotates, and a fixed disk that does not rotate is an SSD
/// when it reports a model — so no SSD is ever listed as a spinning disk.
pub proof fn law_only_rotating_disks_are_hdds(name: Seq<char>, removable: bool, rotational: bool, model: Seq<char>)
    ensures
        (linux_kind(name, removable, rotational, model) == LinuxKind::Nvme) == starts_with(name, "nvme"@),
        (linux_kind(name, removable, rotational, model) == LinuxKind::UsbMassStorage)
            == (!starts_with(name, "nvme"@) && removable),
        (linux_kind(name, removable, rotational, model) == LinuxKind::Hdd)
            == (!starts_with(name, "nvme"@) && !removable && rotational),
        (linux_kind(name, removable, rotational, model) == LinuxKind::Ssd)
            == (!starts_with(name, "nvme"@) && !removable && !rotational && model.len() > 0),
        (linux_kind(name, removable, rotational, model) == LinuxKind::Unknown)
            == (!starts_with(name, "nvme"@) && !removable && !rotational && model.len() == 0),
{
}

/// The values read from one `/sys/block/<dev>/` directory; `None` where a
/// file was missing or unreadable.
#[derive(Debug, Clone)]
pub struct BlockAttrs {
    pub size_sectors: Option<u64>,
    pub removable: Option<u64>,
    pub rotational: Option<u64>,
    pub model: Option<String>,
    pub vendor: Option<String>,
    pub firmware: Option<String>,
    pub serial: Option<String>,
}

/// The device `/sys/block/<name>/` describes.
pub fn parse_block(name: &str, a: &BlockAttrs) -> (d: LinuxDevice)
    ensures
        d.name@ == name@,
        d.removable == (a.removable == Some(1u64)),
        d.kind == linux_kind(name@, a.removable == Some(1u64), a.rotational == Some(1u64),
            crate::config::opt_view(a.model).unwrap_or(Seq::empty())),
        d.model@ == composed_model(crate::config::opt_view(a.model).unwrap_or(Seq::empty()),
            crate::config::opt_view(a.vendor).unwrap_or(Seq::empty())),
        crate::config::opt_view(d.firmware) == crate::config::opt_view(a.firmware),
        crate::config::opt_view(d.serial) == crate::config::opt_view(a.serial),
        d.size_bytes == crate::collect::io::sat_mul(a.size_sectors.unwrap_or(0), 512),
{
    let removable = match a.removable {
        Some(v) => v == 1,
        None => false,
    };
    let rotational = match a.rotational {
        Some(v) => v == 1,
        None => false,
    };
    let model = match &a.model {
        Some(m) => owned(m.as_str()),
        None => String::new(),
    };
    let vendor = match &a.vendor {
        Some(m) => owned(m.as_str()),
        None => String::new(),
    };
    let v = to_chars(name);
    proof {
        assert(v@.subrange(0, v@.len() as int) =~= v@);
    }
    let kind = if crate::text::range_has_prefix(&v, 0, v.len(), "nvme") {
        LinuxKind::Nvme
    } else if removable {
        LinuxKind::UsbMassStorage
    } else if rotational {
        LinuxKind::Hdd
    } else if to_chars(model.as_str()).len() > 0 {
        LinuxKind::Ssd
    } else {
        LinuxKind::Unknown
    };
    let sectors = match a.size_sectors {
        Some(s) => s,
        None => 0,
    };
    LinuxDevice {
        name: owned(name),
        kind,
        model: compose_model(model.as_str(), vendor.as_str()),
        firmware: match &a.firmware {
            Some(f) => Some(owned(f.as_str())),
            None => None,
        },
        serial: match &a.serial {
            Some(f) => Some(owned(f.as_str())),
            None => None,
        },
        size_bytes: crate::collect::io::saturating_mul(sectors, 512),
        removable,
    }
}

} // verus!

verus! {

/// A numeric sysfs attribute: the trimmed text parsed as a `u64`.
pub open spec fn attr_number(raw: Seq<char>) -> Option<u64> {
    match crate::text::parse_uint(trim(raw), u64::MAX as nat) {
        Some(n) => Some(n as u64),
        None => None,
    }
}

pub fn attr_u64(raw: &str) -> (r: Option<u64>)
    ensures
        r == attr_number(raw@),
{
    let v = to_chars(raw);
    let (a, b) = crate::text::trim_range(&v, 0, v.len());
    proof {
        assert(v@.subrange(0, v@.len() as int) =~= v@);
    }
    crate::text::parse_u64(&v, a, b)
}

} // verus!
