//! HID report descriptor introspection: which feature report IDs a
//! descriptor declares.
//!
//! A report descriptor is a sequence of items.  A short item starts with a
//! prefix byte holding its tag, type and data size; a long item starts with
//! the prefix 0xFE followed by its size and tag.  The global `Report ID` item
//! sets the report ID carried by the main items that follow it; a `Feature`
//! main item declares one feature report under the current report ID.

use vstd::prelude::*;

verus! {

/// A blob that cannot be read as a HID report descriptor.
#[derive(Debug, Clone, PartialEq, Eq, Structural)]
pub enum ReportDescriptorError {
    /// An item promises more data bytes than the descriptor holds.
    TruncatedItem,
}

/// The data size of a short item, from the two low bits of its prefix.
pub open spec fn short_item_size(prefix: u8) -> int {
    if prefix % 4 == 3 {
        4
    } else {
        (prefix % 4) as int
    }
}

/// The little-endian value of at most four data bytes.
pub open spec fn le_value(s: Seq<u8>) -> u32
    recommends
        s.len() <= 4,
{
    if s.len() == 0 {
        0
    } else if s.len() == 1 {
        s[0] as u32
    } else if s.len() == 2 {
        (s[0] + s[1] * 0x100) as u32
    } else if s.len() == 3 {
        (s[0] + s[1] * 0x100 + s[2] * 0x10000) as u32
    } else {
        (s[0] + s[1] * 0x100 + s[2] * 0x10000 + s[3] * 0x1000000) as u32
    }
}

/// True of the prefix of a global `Report ID` item (tag 8, type 1).
pub open spec fn is_report_id_prefix(prefix: u8) -> bool {
    prefix / 4 == 0x84u8 / 4
}

/// True of the prefix of a `Feature` main item (tag 11, type 0).
pub open spec fn is_feature_prefix(prefix: u8) -> bool {
    prefix / 4 == 0xb0u8 / 4
}

/// The feature report IDs declared by the descriptor bytes `d`, walking its
/// items with `cur` as the report ID currently in force and `acc` as the IDs
/// already declared; each ID is listed once.
pub open spec fn spec_feature_ids(d: Seq<u8>, cur: Option<u32>, acc: Seq<u32>) -> Result<
    Seq<u32>,
    ReportDescriptorError,
>
    decreases d.len(),
{
    if d.len() == 0 {
        Ok(acc)
    } else if d[0] == 0xfe {
        // long item: size byte, tag byte, then the data
        if d.len() < 2 || d.len() < 2 + d[1] + 1 {
            Err(ReportDescriptorError::TruncatedItem)
        } else {
            spec_feature_ids(d.skip(3 + d[1]), cur, acc)
        }
    } else {
        let size = short_item_size(d[0]);
        if d.len() < 1 + size {
            Err(ReportDescriptorError::TruncatedItem)
        } else {
            let value = le_value(d.subrange(1, 1 + size));
            let cur2 = if is_report_id_prefix(d[0]) {
                Some(value)
            } else {
                cur
            };
            let acc2 = if is_feature_prefix(d[0]) {
                match cur2 {
                    Some(id) => if acc.contains(id) {
                        acc
                    } else {
                        acc.push(id)
                    },
                    None => acc,
                }
            } else {
                acc
            };
            spec_feature_ids(d.skip(1 + size), cur2, acc2)
        }
    }
}

/// True when `v` holds `x`.
fn contains_u32(v: &Vec<u32>, x: u32) -> (r: bool)
    ensures
        r == v@.contains(x),
{
    let n = v.len();
    let mut i: usize = 0;
    while i < n
        invariant
            i <= n,
            n == v@.len(),
            forall|j: int| 0 <= j < i ==> v@[j] != x,
        decreases n - i,
    {
        if v[i] == x {
            return true;
        }
        i = i + 1;
    }
    false
}

/// Extracts the set of feature report IDs a HID report descriptor declares.
///
/// Fails only when the descriptor cannot be walked as a sequence of items.
#[verifier::loop_isolation(false)]
pub fn feature_report_ids(descriptor: &[u8]) -> (r: Result<Vec<u32>, ReportDescriptorError>)
    ensures
        r matches Ok(v) ==> spec_feature_ids(descriptor@, None, seq![]) == Ok::<
            Seq<u32>,
            ReportDescriptorError,
        >(v@),
        r matches Err(e) ==> spec_feature_ids(descriptor@, None, seq![]) == Err::<
            Seq<u32>,
            ReportDescriptorError,
        >(e),
{
    let n = descriptor.len();
    let mut ids: Vec<u32> = Vec::new();
    let mut cur: Option<u32> = None;
    let mut pos: usize = 0;
    proof {
        assert(descriptor@.skip(0) =~= descriptor@);
    }
    while pos < n
        invariant
            pos <= n,
            spec_feature_ids(descriptor@, None, seq![]) == spec_feature_ids(
                descriptor@.skip(pos as int),
                cur,
                ids@,
            ),
        decreases n - pos,
    {
        let ghost rem = descriptor@.skip(pos as int);
        let prefix = descriptor[pos];
        proof {
            assert(rem[0] == prefix);
        }
        if prefix == 0xfe {
            if n - pos < 2 || n - pos < 2 + descriptor[pos + 1] as usize + 1 {
                proof {
                    if n - pos >= 2 {
                        assert(rem[1] == descriptor@[pos + 1]);
                    }
                }
                return Err(ReportDescriptorError::TruncatedItem);
            }
            let size = descriptor[pos + 1] as usize;
            proof {
                assert(rem[1] == descriptor@[pos + 1]);
                assert(rem.skip(3 + descriptor@[pos + 1]) =~= descriptor@.skip(
                    pos + 3 + descriptor@[pos + 1],
                ));
            }
            pos = pos + 3 + size;
        } else {
            let size: usize = if prefix % 4 == 3 {
                4
            } else {
                (prefix % 4) as usize
            };
            if n - pos < 1 + size {
                return Err(ReportDescriptorError::TruncatedItem);
            }
            let mut value: u32 = 0;
            if size >= 1 {
                value = descriptor[pos + 1] as u32;
            }
            if size >= 2 {
                value = value + (descriptor[pos + 2] as u32) * 0x100;
            }
            if size >= 3 {
                value = value + (descriptor[pos + 3] as u32) * 0x10000;
            }
            if size == 4 {
                value = value + (descriptor[pos + 4] as u32) * 0x1000000;
            }
            proof {
                let data = rem.subrange(1, 1 + size as int);
                assert(data.len() == size);
                if size >= 1 {
                    assert(data[0] == descriptor@[pos + 1]);
                }
                if size >= 2 {
                    assert(data[1] == descriptor@[pos + 2]);
                }
                if size >= 3 {
                    assert(data[2] == descriptor@[pos + 3]);
                }
                if size == 4 {
                    assert(data[3] == descriptor@[pos + 4]);
                }
                assert(value == le_value(data));
            }
            if prefix / 4 == 0x84u8 / 4 {
                cur = Some(value);
            }
            if prefix / 4 == 0xb0u8 / 4 {
                match cur {
                    Some(id) => {
                        let ghost prev = ids@;
                        if !contains_u32(&ids, id) {
                            ids.push(id);
                        }
                    },
                    None => {},
                }
            }
            proof {
                assert(rem.skip(1 + size as int) =~= descriptor@.skip(pos + 1 + size));
            }
            pos = pos + 1 + size;
        }
    }
    proof {
        assert(descriptor@.skip(n as int) =~= Seq::<u8>::empty());
    }
    Ok(ids)
}

} // verus!
