//! Device resolver decisions: deterministic ordering of enumerated HID
//! collections, identity predicates, and selection of the collection that
//! carries a wanted feature report ID.
//!
//! The surrounding program enumerates collections and fetches their report
//! descriptors; everything decided about them is decided here.

use vstd::prelude::*;
use crate::descriptor::{feature_report_ids, spec_feature_ids, ReportDescriptorError};
use crate::device_spec::DeviceSpec;
use crate::part::Part;

verus! {

/// The bootloader's shared USB identity, common to all supported keyboards.
pub const BOOTLOADER_VENDOR_ID: u16 = 0x0603;

pub const BOOTLOADER_PRODUCT_ID: u16 = 0x1020;

pub const BOOTLOADER_V2_PRODUCT_ID: u16 = 0x1021;

pub const BOOTLOADER_INTERFACE: i32 = 0;

/// The feature report ID of the ISP command channel.
pub const ISP_COMMAND_REPORT_ID: u32 = 5;

/// The feature report ID of the ISP data channel.
pub const ISP_DATA_REPORT_ID: u32 = 6;

/// Identity of one enumerated HID collection, valid for one enumeration
/// snapshot; the path is the opaque token the host stack opens it by.
#[derive(Debug, Clone)]
pub struct HidCandidate {
    pub vendor_id: u16,
    pub product_id: u16,
    pub interface_number: i32,
    pub usage_page: u16,
    pub usage: u16,
    pub path: Vec<u8>,
    pub bus_usb: bool,
}

/// Failure of one resolution pass.
#[derive(Debug, Clone, PartialEq, Eq, Structural)]
pub enum DeviceSelectorError {
    /// No collection carries the wanted report ID.
    DeviceNotFound,
    /// More than one collection carries the wanted report ID where exactly
    /// one is expected; picking one silently could program the wrong device.
    DuplicateDevices,
    /// A collection's report descriptor cannot be read.
    ReportDescriptor(ReportDescriptorError),
}

/// Lexicographic order on byte strings.
pub open spec fn lex_le(x: Seq<u8>, y: Seq<u8>) -> bool
    decreases x.len(),
{
    if x.len() == 0 {
        true
    } else if y.len() == 0 {
        false
    } else if x[0] < y[0] {
        true
    } else if x[0] > y[0] {
        false
    } else {
        lex_le(x.drop_first(), y.drop_first())
    }
}

proof fn lemma_lex_le_total(x: Seq<u8>, y: Seq<u8>)
    ensures
        lex_le(x, y) || lex_le(y, x),
    decreases x.len(),
{
    if x.len() != 0 && y.len() != 0 && x[0] == y[0] {
        lemma_lex_le_total(x.drop_first(), y.drop_first());
    }
}

proof fn lemma_lex_le_trans(x: Seq<u8>, y: Seq<u8>, z: Seq<u8>)
    requires
        lex_le(x, y),
        lex_le(y, z),
    ensures
        lex_le(x, z),
    decreases x.len(),
{
    if x.len() != 0 && y.len() != 0 && z.len() != 0 && x[0] == y[0] && y[0] == z[0] {
        lemma_lex_le_trans(x.drop_first(), y.drop_first(), z.drop_first());
    }
}

/// The deterministic resolver order: vendor ID, product ID, path, interface
/// number, usage page, then usage.
pub open spec fn candidate_le(a: &HidCandidate, b: &HidCandidate) -> bool {
    if a.vendor_id != b.vendor_id {
        a.vendor_id < b.vendor_id
    } else if a.product_id != b.product_id {
        a.product_id < b.product_id
    } else if a.path@ != b.path@ {
        lex_le(a.path@, b.path@)
    } else if a.interface_number != b.interface_number {
        a.interface_number < b.interface_number
    } else if a.usage_page != b.usage_page {
        a.usage_page < b.usage_page
    } else {
        a.usage <= b.usage
    }
}

proof fn lemma_candidate_le_total(a: &HidCandidate, b: &HidCandidate)
    ensures
        candidate_le(a, b) || candidate_le(b, a),
{
    lemma_lex_le_total(a.path@, b.path@);
}

proof fn lemma_candidate_le_trans(a: &HidCandidate, b: &HidCandidate, c: &HidCandidate)
    requires
        candidate_le(a, b),
        candidate_le(b, c),
    ensures
        candidate_le(a, c),
{
    lemma_lex_le_total(a.path@, a.path@);
    lemma_lex_le_total(b.path@, b.path@);
    lemma_lex_le_total(c.path@, c.path@);
    lemma_lex_le_total(a.path@, b.path@);
    lemma_lex_le_total(b.path@, c.path@);
    lemma_lex_le_total(a.path@, c.path@);
    if lex_le(a.path@, b.path@) && lex_le(b.path@, c.path@) {
        lemma_lex_le_trans(a.path@, b.path@, c.path@);
    }
    if lex_le(a.path@, b.path@) && lex_le(b.path@, a.path@) {
        lemma_lex_le_antisym(a.path@, b.path@);
    }
    if lex_le(b.path@, c.path@) && lex_le(c.path@, b.path@) {
        lemma_lex_le_antisym(b.path@, c.path@);
    }
    if lex_le(a.path@, c.path@) && lex_le(c.path@, a.path@) {
        lemma_lex_le_antisym(a.path@, c.path@);
    }
}

proof fn lemma_lex_le_antisym(x: Seq<u8>, y: Seq<u8>)
    requires
        lex_le(x, y),
        lex_le(y, x),
    ensures
        x == y,
    decreases x.len(),
{
    if x.len() != 0 && y.len() != 0 && x[0] == y[0] {
        lemma_lex_le_antisym(x.drop_first(), y.drop_first());
        assert(x =~= seq![x[0]] + x.drop_first());
        assert(y =~= seq![y[0]] + y.drop_first());
    }
}

/// True when two candidates are sorted with respect to the resolver order.
pub open spec fn candidates_sorted(s: Seq<HidCandidate>) -> bool {
    forall|i: int, j: int| 0 <= i < j < s.len() ==> candidate_le(&s[i], &s[j])
}

/// The USB-bus candidates of an enumeration snapshot, in enumeration order.
pub open spec fn usb_filter(s: Seq<HidCandidate>) -> Seq<HidCandidate>
    decreases s.len(),
{
    if s.len() == 0 {
        seq![]
    } else if s.last().bus_usb {
        usb_filter(s.drop_last()).push(s.last())
    } else {
        usb_filter(s.drop_last())
    }
}

/// Sorts the USB-bus candidates of an enumeration snapshot into the
/// deterministic resolver order, so that repeated runs against unchanged
/// hardware pick the same collection.
#[verifier::loop_isolation(false)]
pub fn sorted_usb_device_list(devices: Vec<HidCandidate>) -> (r: Vec<HidCandidate>)
    ensures
        r@.to_multiset() == usb_filter(devices@).to_multiset(),
        candidates_sorted(r@),
{
    broadcast use vstd::seq_lib::group_to_multiset_ensures;
    broadcast use vstd::seq_lib::to_multiset_insert;

    let mut out: Vec<HidCandidate> = Vec::new();
    let n = devices.len();
    let mut taken = devices;
    let ghost all = taken@;

    // walk the snapshot from the back so that elements can be popped
    proof {
        assert(all.take(all.len() as int) =~= all);
        assert(usb_filter(all.take(0int)) =~= Seq::<HidCandidate>::empty());
    }
    let mut processed: Vec<HidCandidate> = Vec::new();
    let mut i: usize = 0;
    while i < n
        invariant
            i <= n,
            n == all.len(),
            taken@ == all.skip(i as int),
            out@.to_multiset() == usb_filter(all.take(i as int)).to_multiset(),
            candidates_sorted(out@),
        decreases n - i,
    {
        let ghost prefix = all.take(i as int);
        let c = taken.remove(0);
        proof {
            assert(c == all[i as int]);
            assert(taken@ =~= all.skip(i + 1));
            assert(all.take(i + 1).drop_last() =~= prefix);
            assert(all.take(i + 1).last() == c);
        }
        if c.bus_usb {
            let m = out.len();
            let pos = insertion_point(&out, &c);
            proof {
                if pos < m {
                    lemma_candidate_le_total(&out@[pos as int], &c);
                }
            }
            let ghost before = out@;
            out.insert(pos, c);
            proof {
                assert(out@ == before.insert(pos as int, c));
                assert(usb_filter(all.take(i + 1)) == usb_filter(prefix).push(c));
                assert(usb_filter(prefix).push(c).to_multiset() == usb_filter(
                    prefix,
                ).to_multiset().insert(c));
                assert forall|x: int, y: int| 0 <= x < y < out@.len() implies candidate_le(
                    &out@[x],
                    &out@[y],
                ) by {
                    if y < pos {
                        assert(out@[x] == before[x] && out@[y] == before[y]);
                    } else if x < pos && y == pos {
                        assert(out@[x] == before[x] && out@[y] == c);
                    } else if x < pos && y > pos {
                        assert(out@[x] == before[x] && out@[y] == before[y - 1]);
                    } else if x == pos {
                        assert(out@[x] == c && out@[y] == before[y - 1]);
                        assert(!candidate_le(&before[pos as int], &c));
                        lemma_candidate_le_total(&before[pos as int], &c);
                        if y - 1 > pos {
                            assert(candidate_le(&before[pos as int], &before[y - 1]));
                        }
                        lemma_candidate_le_trans(&c, &before[pos as int], &before[y - 1]);
                    } else {
                        assert(out@[x] == before[x - 1] && out@[y] == before[y - 1]);
                    }
                }
            }
        } else {
            proof {
                assert(usb_filter(all.take(i + 1)) == usb_filter(prefix));
            }
        }
        i = i + 1;
    }
    proof {
        assert(all.take(n as int) =~= all);
    }
    out
}

/// The first position in a sorted run whose element is not below `c`: where
/// `c` belongs.
fn insertion_point(out: &Vec<HidCandidate>, c: &HidCandidate) -> (pos: usize)
    ensures
        pos <= out@.len(),
        forall|t: int| 0 <= t < pos ==> candidate_le(&out@[t], c),
        pos < out@.len() ==> !candidate_le(&out@[pos as int], c),
{
    let m = out.len();
    let mut i: usize = 0;
    while i < m
        invariant
            i <= m,
            m == out@.len(),
            forall|t: int| 0 <= t < i ==> candidate_le(&out@[t], c),
        decreases m - i,
    {
        if !le_candidates(&out[i], c) {
            return i;
        }
        i = i + 1;
    }
    m
}

/// The resolver order, decided executably.
pub fn le_candidates(a: &HidCandidate, b: &HidCandidate) -> (r: bool)
    ensures
        r == candidate_le(a, b),
{
    if a.vendor_id != b.vendor_id {
        return a.vendor_id < b.vendor_id;
    }
    if a.product_id != b.product_id {
        return a.product_id < b.product_id;
    }
    let pe = bytes_eq(&a.path, &b.path);
    if !pe {
        return lex_le_bytes(&a.path, &b.path);
    }
    if a.interface_number != b.interface_number {
        return a.interface_number < b.interface_number;
    }
    if a.usage_page != b.usage_page {
        return a.usage_page < b.usage_page;
    }
    a.usage <= b.usage
}

/// Byte-string equality.
fn bytes_eq(a: &Vec<u8>, b: &Vec<u8>) -> (r: bool)
    ensures
        r == (a@ == b@),
{
    if a.len() != b.len() {
        return false;
    }
    let n = a.len();
    let mut i: usize = 0;
    while i < n
        invariant
            i <= n,
            n == a@.len() == b@.len(),
            forall|j: int| 0 <= j < i ==> a@[j] == b@[j],
        decreases n - i,
    {
        if a[i] != b[i] {
            return false;
        }
        i = i + 1;
    }
    proof {
        assert(a@ =~= b@);
    }
    true
}

/// Lexicographic order on byte strings, decided executably.
#[verifier::loop_isolation(false)]
fn lex_le_bytes(a: &Vec<u8>, b: &Vec<u8>) -> (r: bool)
    ensures
        r == lex_le(a@, b@),
{
    let an = a.len();
    let bn = b.len();
    let mut i: usize = 0;
    proof {
        assert(a@.skip(0) =~= a@);
        assert(b@.skip(0) =~= b@);
    }
    while i < an && i < bn && a[i] == b[i]
        invariant
            i <= an,
            i <= bn,
            forall|j: int| 0 <= j < i ==> a@[j] == b@[j],
            lex_le(a@, b@) == lex_le(a@.skip(i as int), b@.skip(i as int)),
        decreases an - i,
    {
        proof {
            assert(a@.skip(i as int)[0] == a@[i as int]);
            assert(b@.skip(i as int)[0] == b@[i as int]);
            assert(a@.skip(i as int).drop_first() =~= a@.skip(i + 1));
            assert(b@.skip(i as int).drop_first() =~= b@.skip(i + 1));
        }
        i = i + 1;
    }
    proof {
        assert(a@.skip(i as int).len() == an - i);
        assert(b@.skip(i as int).len() == bn - i);
        if i < an && i < bn {
            assert(a@.skip(i as int)[0] == a@[i as int]);
            assert(b@.skip(i as int)[0] == b@[i as int]);
        }
    }
    if i >= an {
        true
    } else if i >= bn {
        false
    } else {
        a[i] < b[i]
    }
}

/// True when a candidate matches a keyboard's normal-mode identity.
pub fn matches_device(c: &HidCandidate, spec: &DeviceSpec) -> (r: bool)
    ensures
        r == (c.vendor_id == spec.vendor_id && c.product_id == spec.product_id
            && c.interface_number == spec.isp_iface_num),
{
    c.vendor_id == spec.vendor_id && c.product_id == spec.product_id && c.interface_number
        == spec.isp_iface_num
}

/// True when a candidate matches a part's normal-mode identity including the
/// collection usage pair, for hosts that bind one handle per collection and
/// need usage page and usage to tell collections sharing an interface apart.
pub fn matches_device_usage(c: &HidCandidate, part: &Part) -> (r: bool)
    ensures
        r == (c.vendor_id == part.vendor_id && c.product_id == part.product_id
            && c.interface_number == part.isp_iface_num as i32 && c.usage_page
            == part.isp_usage_page && c.usage == part.isp_usage),
{
    c.vendor_id == part.vendor_id && c.product_id == part.product_id && c.interface_number
        == part.isp_iface_num as i32 && c.usage_page == part.isp_usage_page && c.usage
        == part.isp_usage
}

/// True when a candidate matches the shared bootloader identity.
pub fn matches_bootloader(c: &HidCandidate) -> (r: bool)
    ensures
        r == spec_matches_bootloader(c),
{
    c.vendor_id == BOOTLOADER_VENDOR_ID && (c.product_id == BOOTLOADER_PRODUCT_ID || c.product_id
        == BOOTLOADER_V2_PRODUCT_ID) && c.interface_number == BOOTLOADER_INTERFACE
}

/// The bootloader identity: the fixed vendor ID, either bootloader product
/// ID, and the first interface.
pub open spec fn spec_matches_bootloader(c: &HidCandidate) -> bool {
    c.vendor_id == 0x0603 && (c.product_id == 0x1020 || c.product_id == 0x1021)
        && c.interface_number == 0
}

/// True when a descriptor parses and declares the report ID.
pub open spec fn declares_report_id(descriptor: Seq<u8>, report_id: u32) -> bool {
    match spec_feature_ids(descriptor, None, seq![]) {
        Ok(ids) => ids.contains(report_id),
        Err(_) => false,
    }
}

/// True when a descriptor fails to parse.
pub open spec fn descriptor_unreadable(descriptor: Seq<u8>) -> bool {
    spec_feature_ids(descriptor, None, seq![]) is Err
}

/// Picks the first of the filtered candidates whose report descriptor
/// declares the wanted feature report ID.
///
/// `descriptors[i]` must be the report descriptor fetched for
/// `candidates[i]`.  An unreadable descriptor fails the resolution; no
/// matching candidate is `DeviceNotFound`.
#[verifier::loop_isolation(false)]
pub fn find_collection(
    candidates: &Vec<HidCandidate>,
    descriptors: &Vec<Vec<u8>>,
    target_report_id: u32,
) -> (r: Result<usize, DeviceSelectorError>)
    requires
        candidates@.len() == descriptors@.len(),
    ensures
        r matches Ok(i) ==> {
            &&& i < candidates@.len()
            &&& declares_report_id(descriptors@[i as int]@, target_report_id)
            &&& forall|j: int|
                0 <= j < i ==> !declares_report_id(#[trigger] descriptors@[j]@, target_report_id)
                    && !descriptor_unreadable(descriptors@[j]@)
        },
        r == Err::<usize, DeviceSelectorError>(DeviceSelectorError::DeviceNotFound) ==> forall|
            j: int,
        |
            0 <= j < candidates@.len() ==> !declares_report_id(
                #[trigger] descriptors@[j]@,
                target_report_id,
            ) && !descriptor_unreadable(descriptors@[j]@),
        r matches Err(e) ==> (e is DeviceNotFound || (e matches
            DeviceSelectorError::ReportDescriptor(pe) && exists|j: int|
            {
                &&& 0 <= j < descriptors@.len()
                &&& #[trigger] descriptor_unreadable(descriptors@[j]@)
                &&& spec_feature_ids(descriptors@[j]@, None, seq![]) == Err::<
                    Seq<u32>,
                    ReportDescriptorError,
                >(pe)
                &&& forall|t: int|
                    0 <= t < j ==> !declares_report_id(
                        #[trigger] descriptors@[t]@,
                        target_report_id,
                    ) && !descriptor_unreadable(descriptors@[t]@)
            })),
{
    let n = candidates.len();
    let mut i: usize = 0;
    while i < n
        invariant
            i <= n,
            n == candidates@.len() == descriptors@.len(),
            forall|j: int|
                0 <= j < i ==> !declares_report_id(#[trigger] descriptors@[j]@, target_report_id)
                    && !descriptor_unreadable(descriptors@[j]@),
        decreases n - i,
    {
        match feature_report_ids(descriptors[i].as_slice()) {
            Err(e) => {
                proof {
                    assert(descriptor_unreadable(descriptors@[i as int]@));
                    assert(spec_feature_ids(descriptors@[i as int]@, None, seq![]) == Err::<
                        Seq<u32>,
                        ReportDescriptorError,
                    >(e));
                }
                return Err(DeviceSelectorError::ReportDescriptor(e));
            },
            Ok(ids) => {
                let m = ids.len();
                let mut t: usize = 0;
                let mut found = false;
                while t < m
                    invariant
                        t <= m,
                        m == ids@.len(),
                        found == exists|u: int| 0 <= u < t && ids@[u] == target_report_id,
                    decreases m - t,
                {
                    if ids[t] == target_report_id {
                        found = true;
                    }
                    t = t + 1;
                }
                proof {
                    assert(found == ids@.contains(target_report_id));
                }
                if found {
                    return Ok(i);
                }
            },
        }
        i = i + 1;
    }
    Err(DeviceSelectorError::DeviceNotFound)
}

/// Picks the single filtered candidate whose report descriptor declares the
/// wanted feature report ID: none is `DeviceNotFound`, and two or more are
/// `DuplicateDevices`, never a silent choice between them.
#[verifier::loop_isolation(false)]
pub fn find_unique_collection(
    candidates: &Vec<HidCandidate>,
    descriptors: &Vec<Vec<u8>>,
    target_report_id: u32,
) -> (r: Result<usize, DeviceSelectorError>)
    requires
        candidates@.len() == descriptors@.len(),
    ensures
        r matches Ok(i) ==> {
            &&& i < candidates@.len()
            &&& declares_report_id(descriptors@[i as int]@, target_report_id)
            &&& forall|j: int|
                0 <= j < candidates@.len() && j != i ==> !declares_report_id(
                    #[trigger] descriptors@[j]@,
                    target_report_id,
                )
            &&& forall|j: int|
                0 <= j < candidates@.len() ==> !descriptor_unreadable(#[trigger] descriptors@[j]@)
        },
        r == Err::<usize, DeviceSelectorError>(DeviceSelectorError::DeviceNotFound) ==> forall|
            j: int,
        |
            0 <= j < candidates@.len() ==> !declares_report_id(
                #[trigger] descriptors@[j]@,
                target_report_id,
            ) && !descriptor_unreadable(descriptors@[j]@),
        r == Err::<usize, DeviceSelectorError>(DeviceSelectorError::DuplicateDevices) ==> exists|
            j: int,
            k: int,
        |
            {
                &&& 0 <= j < k < candidates@.len()
                &&& declares_report_id(#[trigger] descriptors@[j]@, target_report_id)
                &&& declares_report_id(#[trigger] descriptors@[k]@, target_report_id)
                &&& forall|t: int|
                    0 <= t < k ==> !descriptor_unreadable(#[trigger] descriptors@[t]@)
                &&& forall|t: int|
                    0 <= t < k && t != j ==> !declares_report_id(
                        #[trigger] descriptors@[t]@,
                        target_report_id,
                    )
            },
        r matches Err(e) ==> (e is DeviceNotFound || e is DuplicateDevices || (e matches
            DeviceSelectorError::ReportDescriptor(pe) && exists|j: int|
            {
                &&& 0 <= j < descriptors@.len()
                &&& #[trigger] descriptor_unreadable(descriptors@[j]@)
                &&& spec_feature_ids(descriptors@[j]@, None, seq![]) == Err::<
                    Seq<u32>,
                    ReportDescriptorError,
                >(pe)
                &&& forall|t: int|
                    0 <= t < j ==> !descriptor_unreadable(#[trigger] descriptors@[t]@)
                &&& forall|t: int, u: int|
                    0 <= t < u < j ==> !(declares_report_id(
                        #[trigger] descriptors@[t]@,
                        target_report_id,
                    ) && declares_report_id(#[trigger] descriptors@[u]@, target_report_id))
            })),
{
    let n = candidates.len();
    let mut i: usize = 0;
    let mut found: Option<usize> = None;
    while i < n
        invariant
            i <= n,
            n == candidates@.len() == descriptors@.len(),
            forall|j: int| 0 <= j < i ==> !descriptor_unreadable(#[trigger] descriptors@[j]@),
            found matches Some(f) ==> f < i && declares_report_id(
                descriptors@[f as int]@,
                target_report_id,
            ) && forall|j: int|
                0 <= j < i && j != f ==> !declares_report_id(
                    #[trigger] descriptors@[j]@,
                    target_report_id,
                ),
            found is None ==> forall|j: int|
                0 <= j < i ==> !declares_report_id(#[trigger] descriptors@[j]@, target_report_id),
        decreases n - i,
    {
        match feature_report_ids(descriptors[i].as_slice()) {
            Err(e) => {
                proof {
                    assert(descriptor_unreadable(descriptors@[i as int]@));
                    assert(spec_feature_ids(descriptors@[i as int]@, None, seq![]) == Err::<
                        Seq<u32>,
                        ReportDescriptorError,
                    >(e));
                    assert forall|t: int, u: int| 0 <= t < u < i implies !(declares_report_id(
                        #[trigger] descriptors@[t]@,
                        target_report_id,
                    ) && declares_report_id(#[trigger] descriptors@[u]@, target_report_id)) by {
                        match found {
                            Some(f) => {
                                assert(t != f ==> !declares_report_id(
                                    descriptors@[t]@,
                                    target_report_id,
                                ));
                                assert(u != f ==> !declares_report_id(
                                    descriptors@[u]@,
                                    target_report_id,
                                ));
                            },
                            None => {},
                        }
                    }
                }
                return Err(DeviceSelectorError::ReportDescriptor(e));
            },
            Ok(ids) => {
                let m = ids.len();
                let mut t: usize = 0;
                let mut hit = false;
                while t < m
                    invariant
                        t <= m,
                        m == ids@.len(),
                        hit == exists|u: int| 0 <= u < t && ids@[u] == target_report_id,
                    decreases m - t,
                {
                    if ids[t] == target_report_id {
                        hit = true;
                    }
                    t = t + 1;
                }
                proof {
                    assert(hit == ids@.contains(target_report_id));
                }
                if hit {
                    match found {
                        Some(f) => {
                            proof {
                                assert(declares_report_id(
                                    descriptors@[f as int]@,
                                    target_report_id,
                                ));
                                assert(declares_report_id(
                                    descriptors@[i as int]@,
                                    target_report_id,
                                ));
                            }
                            return Err(DeviceSelectorError::DuplicateDevices);
                        },
                        None => {
                            found = Some(i);
                        },
                    }
                }
            },
        }
        i = i + 1;
    }
    match found {
        Some(f) => Ok(f),
        None => Err(DeviceSelectorError::DeviceNotFound),
    }
}

} // verus!
