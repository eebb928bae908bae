use vstd::prelude::*;

verus! {

/// Capacity of the filesystem that holds a path, in bytes.
#[derive(Clone, Copy, Debug, PartialEq, Eq, Structural)]
pub struct DiskSpace {
    pub total_bytes: u64,
    pub available_bytes: u64,
    pub used_bytes: u64,
}

impl DiskSpace {
    /// Capacity from filesystem statistics: block counts times the fundamental block
    /// (fragment) size. `None` when a product does not fit in 64 bits.
    pub fn from_blocks(fragment_size: u64, blocks: u64, blocks_available: u64) -> (r: Option<
        DiskSpace,
    >)
        ensures
            match r {
                Some(d) => {
                    &&& d.total_bytes == blocks * fragment_size
                    &&& d.available_bytes == blocks_available * fragment_size
                    &&& d.used_bytes == if d.total_bytes >= d.available_bytes {
                        d.total_bytes - d.available_bytes
                    } else {
                        0
                    }
                },
                None => blocks * fragment_size > u64::MAX || blocks_available * fragment_size
                    > u64::MAX,
            },
    {
        match (blocks.checked_mul(fragment_size), blocks_available.checked_mul(fragment_size)) {
            (Some(total_bytes), Some(available_bytes)) => Some(
                DiskSpace {
                    total_bytes,
                    available_bytes,
                    used_bytes: total_bytes.saturating_sub(available_bytes),
                },
            ),
            _ => None,
        }
    }
}

} // verus!
