use vstd::prelude::*;
use crate::extensions::views;
use crate::order::{buckets_below, stable_order_by_key};

verus! {

/// Reads `ash::vk::QueueFlags::GRAPHICS`, which ash defines as `0b1`.
#[verifier::external_body]
fn queue_graphics_bit() -> (r: u32)
    ensures
        r == 1,
{
    ash::vk::QueueFlags::GRAPHICS.as_raw()
}

/// Reads `ash::vk::QueueFlags::COMPUTE`, which ash defines as `0b10`.
#[verifier::external_body]
fn queue_compute_bit() -> (r: u32)
    ensures
        r == 2,
{
    ash::vk::QueueFlags::COMPUTE.as_raw()
}

/// A queue family of a physical device, by the properties the renderer reads.
#[derive(Debug, Clone, Copy)]
pub struct QueueFamily {
    pub index: u32,
    pub queue_flags: u32,
    pub queue_count: u32,
    pub timestamp_valid_bits: u32,
    pub supports_present: bool,
}

impl QueueFamily {
    pub fn new(index: u32, queue_flags: u32, queue_count: u32, timestamp_valid_bits: u32, supports_present: bool) -> (q: Self)
        ensures
            q.index == index,
            q.queue_flags == queue_flags,
            q.queue_count == queue_count,
            q.timestamp_valid_bits == timestamp_valid_bits,
            q.supports_present == supports_present,
    {
        QueueFamily { index, queue_flags, queue_count, timestamp_valid_bits, supports_present }
    }

    /// The family's flags contain the compute bit.
    pub fn supports_compute(&self) -> (b: bool)
        ensures
            b == (self.queue_flags & 2u32 == 2u32),
    {
        let bit = queue_compute_bit();
        self.queue_flags & bit == bit
    }

    /// The family's flags contain the graphics bit.
    pub fn supports_graphics(&self) -> (b: bool)
        ensures
            b == (self.queue_flags & 1u32 == 1u32),
    {
        let bit = queue_graphics_bit();
        self.queue_flags & bit == bit
    }

    pub fn supports_present(&self) -> (b: bool)
        ensures
            b == self.supports_present,
    {
        self.supports_present
    }

    pub fn has_queues(&self) -> (b: bool)
        ensures
            b == (self.queue_count > 0),
    {
        self.queue_count > 0
    }

    pub fn supports_timestamp_queries(&self) -> (b: bool)
        ensures
            b == (self.timestamp_valid_bits > 0),
    {
        self.timestamp_valid_bits > 0
    }
}

/// Every extension asked for is among those the device supports.
pub fn supports_extensions(supported_extensions: &Vec<String>, extensions: &[String]) -> (b: bool)
    ensures
        b == forall|i: int| 0 <= i < extensions@.len() ==> views(supported_extensions@).contains(
            #[trigger] extensions@[i]@,
        ),
{
    let mut i: usize = 0;
    while i < extensions.len()
        invariant
            i <= extensions@.len(),
            forall|k: int| 0 <= k < i ==> views(supported_extensions@).contains(#[trigger] extensions@[k]@),
        decreases extensions@.len() - i,
    {
        let mut found = false;
        let mut j: usize = 0;
        while j < supported_extensions.len()
            invariant
                i < extensions@.len(),
                j <= supported_extensions@.len(),
                found ==> views(supported_extensions@).contains(extensions@[i as int]@),
                !found ==> forall|k: int| 0 <= k < j ==> supported_extensions@[k]@ != extensions@[i as int]@,
            decreases supported_extensions@.len() - j,
        {
            if supported_extensions[j] == extensions[i] {
                proof {
                    assert(views(supported_extensions@)[j as int] == extensions@[i as int]@);
                }
                found = true;
            }
            j += 1;
        }
        if !found {
            proof {
                if views(supported_extensions@).contains(extensions@[i as int]@) {
                    let k = choose|k: int| 0 <= k < views(supported_extensions@).len() && views(supported_extensions@)[k] == extensions@[i as int]@;
                    assert(supported_extensions@[k]@ == extensions@[i as int]@);
                }
            }
            return false;
        }
        i += 1;
    }
    true
}

/// The kind of a physical device.
#[derive(Debug, Clone, Copy, PartialEq, Eq, Structural)]
pub enum PhysicalDeviceType {
    Other,
    IntegratedGpu,
    DiscreteGpu,
    VirtualGpu,
    Cpu,
}

/// Preference rank of a device kind: discrete GPUs first, then integrated
/// GPUs, then everything else.
pub open spec fn spec_device_rank(t: PhysicalDeviceType) -> usize {
    match t {
        PhysicalDeviceType::DiscreteGpu => 0,
        PhysicalDeviceType::IntegratedGpu => 1,
        _ => 2,
    }
}

pub fn device_rank(t: PhysicalDeviceType) -> (r: usize)
    ensures
        r == spec_device_rank(t),
{
    match t {
        PhysicalDeviceType::DiscreteGpu => 0,
        PhysicalDeviceType::IntegratedGpu => 1,
        _ => 2,
    }
}

/// The order in which physical devices are tried: by rank, keeping the
/// driver's order among devices of equal rank.
pub fn device_order(device_types: &[PhysicalDeviceType]) -> (order: Vec<usize>)
    ensures
        order@ == buckets_below(Seq::new(device_types@.len(), |i: int| spec_device_rank(device_types@[i])), 3),
{
    let ghost keys_spec = Seq::new(device_types@.len(), |i: int| spec_device_rank(device_types@[i]));
    let mut keys: Vec<usize> = Vec::new();
    let mut i: usize = 0;
    while i < device_types.len()
        invariant
            i <= device_types@.len(),
            keys_spec.len() == device_types@.len(),
            forall|k: int| 0 <= k < device_types@.len() ==> #[trigger] keys_spec[k] == spec_device_rank(device_types@[k]),
            keys@ == keys_spec.take(i as int),
        decreases device_types@.len() - i,
    {
        keys.push(device_rank(device_types[i]));
        i += 1;
        proof {
            assert(keys@ =~= keys_spec.take(i as int));
        }
    }
    proof {
        assert(keys@ =~= keys_spec);
    }
    stable_order_by_key(&keys, 3)
}

} // verus!
