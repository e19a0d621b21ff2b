//! The `--devices` list of a distributed command: comma-separated device
//! names, each of which must name a distinct CUDA device.

use vstd::prelude::*;
use crate::error::{push_number, TensorError};
use crate::storage::Device;
use crate::text::{chars_of, debug_quoted, decimal, push_debug_quoted, trim, trim_bounds};

verus! {

/// The pieces of `s` between commas, as `str::split(',')` gives them: one
/// more piece than there are commas, possibly empty.
pub open spec fn split_commas(s: Seq<char>) -> Seq<Seq<char>>
    decreases s.len(),
{
    if s.len() == 0 {
        seq![Seq::empty()]
    } else {
        let pieces = split_commas(s.drop_last());
        if s.last() == ',' {
            pieces.push(Seq::empty())
        } else {
            pieces.update(pieces.len() - 1, pieces.last().push(s.last()))
        }
    }
}

proof fn lemma_split_commas_nonempty(s: Seq<char>)
    ensures
        split_commas(s).len() >= 1,
    decreases s.len(),
{
    if s.len() > 0 {
        lemma_split_commas_nonempty(s.drop_last());
    }
}

/// One entry of a device list: the piece as written and its trimmed form.
#[derive(Clone, Debug)]
pub struct DeviceListItem {
    pub raw: String,
    pub trimmed: String,
}

/// The entries of a device list, in order: each comma-separated piece, and
/// the piece trimmed of white space.
pub fn device_list_items(value: &str) -> (items: Vec<DeviceListItem>)
    ensures
        items@.len() == split_commas(value@).len(),
        forall|k: int|
            0 <= k < items@.len() ==> (#[trigger] items@[k]).raw@ == split_commas(value@)[k]
                && items@[k].trimmed@ == trim(split_commas(value@)[k]),
{
    let v = chars_of(value);
    let mut items: Vec<DeviceListItem> = Vec::new();
    let mut start: usize = 0;
    let mut i: usize = 0;
    assert(v@.take(0) =~= Seq::<char>::empty());
    assert(v@.subrange(0, 0) =~= Seq::<char>::empty());
    while i < v.len()
        invariant
            start <= i <= v@.len(),
            v@ == value@,
            split_commas(v@.take(i as int)).len() == items@.len() + 1,
            split_commas(v@.take(i as int)).last() == v@.subrange(start as int, i as int),
            forall|k: int|
                0 <= k < items@.len() ==> (#[trigger] items@[k]).raw@ == split_commas(v@.take(i as int))[k]
                    && items@[k].trimmed@ == trim(split_commas(v@.take(i as int))[k]),
        decreases v@.len() - i,
    {
        let ghost before = split_commas(v@.take(i as int));
        proof {
            assert(v@.take(i + 1).drop_last() =~= v@.take(i as int));
            assert(v@.take(i + 1).last() == v@[i as int]);
            lemma_split_commas_nonempty(v@.take(i as int));
        }
        if v[i] == ',' {
            let raw = String::from_str(value.substring_char(start, i));
            let (a, b) = trim_bounds(&v, start, i);
            let trimmed = String::from_str(value.substring_char(a, b));
            items.push(DeviceListItem { raw, trimmed });
            start = i + 1;
            proof {
                let after = split_commas(v@.take(i + 1));
                assert(after == before.push(Seq::empty()));
                assert(v@.subrange(start as int, i + 1) =~= Seq::<char>::empty());
                assert forall|k: int| 0 <= k < items@.len() implies (#[trigger] items@[k]).raw@ == after[k]
                    && items@[k].trimmed@ == trim(after[k]) by {
                    if k < items@.len() - 1 {
                        assert(after[k] == before[k]);
                    } else {
                        assert(after[k] == before.last());
                    }
                }
            }
        } else {
            proof {
                let after = split_commas(v@.take(i + 1));
                assert(after == before.update(before.len() - 1, before.last().push(v@[i as int])));
                assert(v@.subrange(start as int, i + 1) =~= v@.subrange(start as int, i as int).push(v@[i as int]));
                assert forall|k: int| 0 <= k < items@.len() implies (#[trigger] items@[k]).raw@ == after[k]
                    && items@[k].trimmed@ == trim(after[k]) by {
                    assert(after[k] == before[k]);
                }
            }
        }
        i = i + 1;
    }
    assert(v@.take(v@.len() as int) =~= v@);
    let raw = String::from_str(value.substring_char(start, v.len()));
    let (a, b) = trim_bounds(&v, start, v.len());
    let trimmed = String::from_str(value.substring_char(a, b));
    items.push(DeviceListItem { raw, trimmed });
    items
}

/// Why a device list is refused.
#[derive(Clone, Debug)]
pub enum DeviceListError {
    /// Entry `index` names no device.
    Unparsed(usize),
    /// A device error: an entry that is not a CUDA device, a CUDA device
    /// listed twice, or an empty list.
    Refused(TensorError),
}

/// CUDA device `id` appears among `ids`.
pub open spec fn lists_device(ids: Seq<usize>, id: usize) -> bool {
    exists|j: int| 0 <= j < ids.len() && ids[j] == id
}

/// The CUDA ids of the first `n` entries, if they pass.
pub open spec fn ids_upto(devices: Seq<Option<Device>>, n: int) -> Seq<usize>
    decreases n,
{
    if n <= 0 {
        Seq::empty()
    } else {
        let before = ids_upto(devices, n - 1);
        match devices[n - 1] {
            Some(Device::Cuda(id)) => before.push(id),
            _ => before,
        }
    }
}

/// Entry `k` is refused, given the ids of the entries before it.
pub open spec fn entry_refused(devices: Seq<Option<Device>>, k: int) -> bool {
    match devices[k] {
        None => true,
        Some(Device::Cpu) => true,
        Some(Device::Cuda(id)) => lists_device(ids_upto(devices, k), id),
    }
}

/// The device error for entry `k`, which names a device.
pub open spec fn entry_refusal(items: Seq<DeviceListItem>, devices: Seq<Option<Device>>, k: int) -> Seq<char> {
    match devices[k] {
        Some(Device::Cuda(id)) => "duplicate CUDA device cuda:"@ + decimal(id as nat) + " in --devices"@,
        _ => "distributed --devices accepts only cuda:<id> entries, got "@ + debug_quoted(items[k].raw@),
    }
}

/// The CUDA device ids of a device list, given each entry's parsed device
/// (`None` where the entry names no device): entries are checked in order,
/// and the first that names no device, names a device other than CUDA, or
/// repeats a CUDA device ends the check; an empty list is refused too.
pub fn cuda_device_ids(items: &[DeviceListItem], devices: &[Option<Device>]) -> (res: Result<
    Vec<usize>,
    DeviceListError,
>)
    requires
        items@.len() == devices@.len(),
    ensures
        res matches Ok(ids) ==> ids@ == ids_upto(devices@, devices@.len() as int) && ids@.len() > 0 && forall|
            k: int,
        | 0 <= k < devices@.len() ==> !#[trigger] entry_refused(devices@, k),
        res is Ok <==> (forall|k: int| 0 <= k < devices@.len() ==> !#[trigger] entry_refused(devices@, k))
            && devices@.len() > 0,
        res matches Err(DeviceListError::Unparsed(k)) ==> k < devices@.len() && devices@[k as int] is None
            && forall|j: int| 0 <= j < k ==> !#[trigger] entry_refused(devices@, j),
        res matches Err(DeviceListError::Refused(e)) ==> e is Device && ((exists|k: int|
            0 <= k < devices@.len() && #[trigger] entry_refused(devices@, k) && devices@[k] is Some && (forall|
                j: int,
            | 0 <= j < k ==> !entry_refused(devices@, j)) && e.message_spec() == entry_refusal(items@, devices@, k))
            || (devices@.len() == 0 && e.message_spec() == "--devices must include at least one cuda:<id> entry"@)),
{
    let mut ids: Vec<usize> = Vec::new();
    let mut k: usize = 0;
    while k < devices.len()
        invariant
            k <= devices@.len(),
            items@.len() == devices@.len(),
            ids@ == ids_upto(devices@, k as int),
            forall|j: int| 0 <= j < k ==> !#[trigger] entry_refused(devices@, j),
        decreases devices@.len() - k,
    {
        match devices[k] {
            None => {
                assert(entry_refused(devices@, k as int));
                return Err(DeviceListError::Unparsed(k));
            },
            Some(Device::Cpu) => {
                let mut message = String::from_str("distributed --devices accepts only cuda:<id> entries, got ");
                push_debug_quoted(&mut message, items[k].raw.as_str());
                assert(entry_refused(devices@, k as int));
                return Err(DeviceListError::Refused(TensorError::Device(message)));
            },
            Some(Device::Cuda(id)) => {
                let mut j: usize = 0;
                while j < ids.len()
                    invariant
                        j <= ids@.len(),
                        k < devices@.len(),
                        items@.len() == devices@.len(),
                        devices@[k as int] == Some(Device::Cuda(id)),
                        ids@ == ids_upto(devices@, k as int),
                        forall|q: int| 0 <= q < k ==> !#[trigger] entry_refused(devices@, q),
                        forall|a: int| 0 <= a < j ==> ids@[a] != id,
                    decreases ids@.len() - j,
                {
                    if ids[j] == id {
                        let mut message = String::new();
                        push_number(&mut message, "duplicate CUDA device cuda:", id as u64);
                        message.append(" in --devices");
                        assert(lists_device(ids@, id));
                        assert(entry_refused(devices@, k as int));
                        assert(message@ =~= entry_refusal(items@, devices@, k as int));
                        return Err(DeviceListError::Refused(TensorError::Device(message)));
                    }
                    j = j + 1;
                }
                assert(!lists_device(ids@, id));
                ids.push(id);
            },
        }
        k = k + 1;
    }
    if ids.len() == 0 {
        proof {
            if devices@.len() > 0 {
                assert(!entry_refused(devices@, 0));
                lemma_ids_grow(devices@, devices@.len() as int);
            }
        }
        return Err(DeviceListError::Refused(TensorError::Device(String::from_str("--devices must include at least one cuda:<id> entry"))));
    }
    Ok(ids)
}

/// With no entry refused, every entry adds its CUDA id.
proof fn lemma_ids_grow(devices: Seq<Option<Device>>, n: int)
    requires
        0 <= n <= devices.len(),
        forall|j: int| 0 <= j < n ==> !#[trigger] entry_refused(devices, j),
    ensures
        ids_upto(devices, n).len() == n,
    decreases n,
{
    if n > 0 {
        lemma_ids_grow(devices, n - 1);
        assert(!entry_refused(devices, n - 1));
    }
}

} // verus!
