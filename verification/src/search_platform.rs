//! What a search makes of the storage that it reads from.

use vstd::prelude::*;
use crate::platform::Platform;
use crate::text;
use crate::text::{byte_strings_equal, copy_bytes};

verus! {

/// The length from which on a file is worth reading ahead.
pub const MINIMUM_SEQUENTIAL_LENGTH: u64 = 1_048_576;

/// The most roots whose storage is asked about.
pub const MAX_STORAGE_ROOTS: usize = 16;

/// The number of a fixed drive.
pub const DRIVE_FIXED: u32 = 3;

/// The number of a drive that is held in memory.
pub const DRIVE_RAMDISK: u32 = 6;

/// Whether the length of a file is looked at before it is opened.
pub fn sequential_scan_size_probe_enabled(platform: Platform) -> (result: bool)
    ensures
        result == (platform is Windows),
{
    matches!(platform, Platform::Windows)
}

/// Whether a file of a length is worth reading ahead.
pub fn sequential_scan_is_beneficial(platform: Platform, length: u64) -> (result: bool)
    ensures
        result == (platform is Windows && length >= MINIMUM_SEQUENTIAL_LENGTH),
{
    match platform {
        Platform::Windows => length >= MINIMUM_SEQUENTIAL_LENGTH,
        Platform::Other => false,
    }
}

/// Whether a drive is one of this machine that stays in it.
pub open spec fn is_local_drive(kind: Option<u32>) -> bool {
    kind == Some(DRIVE_FIXED) || kind == Some(DRIVE_RAMDISK)
}

/// Whether all roots are on drives of this machine that stay in it. Each kind is that of the volume of
/// a root, where it is known.
pub fn roots_are_local_fixed(platform: Platform, kinds: &[Option<u32>]) -> (result: bool)
    ensures
        result == (platform is Windows && kinds@.len() > 0 && forall|i: int|
            0 <= i < kinds@.len() ==> is_local_drive(#[trigger] kinds@[i])),
{
    match platform {
        Platform::Other => {
            return false;
        },
        Platform::Windows => {},
    }
    if kinds.len() == 0 {
        return false;
    }
    let mut index: usize = 0;
    while index < kinds.len()
        invariant
            index <= kinds.len(),
            forall|i: int| 0 <= i < index ==> is_local_drive(#[trigger] kinds@[i]),
        decreases kinds.len() - index,
    {
        let local: bool = match kinds[index] {
            Some(kind) => kind == DRIVE_FIXED || kind == DRIVE_RAMDISK,
            None => false,
        };
        if !local {
            assert(!is_local_drive(kinds@[index as int]));
            return false;
        }
        index += 1;
    }
    true
}

/// What is known of volumes: whether reading anywhere on them is equally fast.
#[derive(Debug)]
pub struct SeekPenaltyCache {
    pub volumes: Vec<Vec<u8>>,
    pub fast: Vec<bool>,
}

/// What is known of a volume: what was said of it first.
pub open spec fn known_speed(volumes: Seq<Seq<u8>>, fast: Seq<bool>, volume: Seq<u8>) -> Option<bool>
    decreases volumes.len(),
{
    if volumes.len() == 0 || volumes.len() != fast.len() {
        None
    } else {
        match known_speed(volumes.drop_last(), fast.drop_last(), volume) {
            Some(value) => Some(value),
            None => if volumes.last() == volume {
                Some(fast.last())
            } else {
                None
            },
        }
    }
}

impl SeekPenaltyCache {
    pub open spec fn wf(self) -> bool {
        self.volumes@.len() == self.fast@.len()
    }

    /// What is known of a volume.
    pub open spec fn speed(self, volume: Seq<u8>) -> Option<bool> {
        known_speed(text::byte_strings(self.volumes@), self.fast@, volume)
    }

    /// A memory of nothing.
    pub fn new() -> (result: Self)
        ensures
            result.wf(),
            forall|volume: Seq<u8>| (#[trigger] result.speed(volume)) is None,
    {
        SeekPenaltyCache { volumes: Vec::new(), fast: Vec::new() }
    }

    /// What is known of a volume.
    pub fn get(&self, volume: &[u8]) -> (result: Option<bool>)
        requires
            self.wf(),
        ensures
            result == self.speed(volume@),
    {
        let ghost names = text::byte_strings(self.volumes@);
        let mut index: usize = 0;
        let mut found: Option<bool> = None;
        while index < self.volumes.len()
            invariant
                index <= self.volumes.len(),
                self.wf(),
                names == text::byte_strings(self.volumes@),
                found == known_speed(
                    names.subrange(0, index as int),
                    self.fast@.subrange(0, index as int),
                    volume@,
                ),
            decreases self.volumes.len() - index,
        {
            proof {
                let here = names.subrange(0, index + 1);
                let values = self.fast@.subrange(0, index + 1);
                assert(here.last() == self.volumes[index as int]@);
                assert(here.drop_last() =~= names.subrange(0, index as int));
                assert(values.drop_last() =~= self.fast@.subrange(0, index as int));
            }
            if found.is_none() && byte_strings_equal(self.volumes[index].as_slice(), volume) {
                found = Some(self.fast[index]);
            }
            index += 1;
        }
        proof {
            assert(names.subrange(0, names.len() as int) =~= names);
            assert(self.fast@.subrange(0, names.len() as int) =~= self.fast@);
        }
        found
    }

    /// Whether a volume is fast: what is known of it, or else what an answer says, which is kept. No
    /// answer counts as slow.
    pub fn volume_has_no_seek_penalty(&mut self, volume: &[u8], answer: Option<bool>) -> (result: bool)
        requires
            old(self).wf(),
        ensures
            final(self).wf(),
            result == match old(self).speed(volume@) {
                Some(value) => value,
                None => answer == Some(true),
            },
            final(self).speed(volume@) == Some(result),
            forall|other: Seq<u8>|
                other != volume@ ==> (#[trigger] final(self).speed(other)) == old(self).speed(
                    other,
                ),
    {
        if let Some(value) = self.get(volume) {
            return value;
        }
        let value: bool = match answer {
            Some(value) => value,
            None => false,
        };
        let ghost names = text::byte_strings(self.volumes@);
        let ghost speeds = self.fast@;
        self.volumes.push(copy_bytes(volume));
        self.fast.push(value);
        proof {
            let all = text::byte_strings(self.volumes@);
            assert(all.last() == volume@);
            assert(all.drop_last() =~= names);
            assert(self.fast@.drop_last() =~= speeds);
        }
        value
    }
}

/// What a search does next about the speed of its storage.
#[derive(Debug)]
pub enum StorageStep {
    /// Whether the storage is fast is settled.
    Decided(bool),
    /// It is to be found out whether the volume with this number is fast.
    Ask(usize),
}

/// Whether the volumes of roots can be asked about at all.
pub open spec fn volumes_are_known(platform: Platform, volumes: Seq<Option<Vec<u8>>>) -> bool {
    &&& platform is Windows
    &&& 0 < volumes.len() <= MAX_STORAGE_ROOTS
    &&& forall|i: int| 0 <= i < volumes.len() ==> (#[trigger] volumes[i]) is Some
}

/// Whether all roots are on fast storage, as far as that is known. Each volume is that of a root,
/// where it is known; the first that nothing is known of is to be asked about, unless one before it is
/// slow.
pub fn roots_are_fast_storage(
    platform: Platform,
    volumes: &[Option<Vec<u8>>],
    cache: &SeekPenaltyCache,
) -> (result: StorageStep)
    requires
        cache.wf(),
    ensures
        match result {
            StorageStep::Decided(fast) => {
                &&& fast ==> volumes_are_known(platform, volumes@) && forall|i: int|
                    0 <= i < volumes@.len() ==> cache.speed((#[trigger] volumes@[i])->0@) == Some(
                        true,
                    )
                &&& !fast ==> !volumes_are_known(platform, volumes@) || exists|i: int|
                    0 <= i < volumes@.len() && cache.speed((#[trigger] volumes@[i])->0@) == Some(
                        false,
                    )
            },
            StorageStep::Ask(index) => {
                &&& volumes_are_known(platform, volumes@)
                &&& index < volumes@.len()
                &&& cache.speed(volumes@[index as int]->0@) is None
                &&& forall|i: int|
                    0 <= i < index ==> cache.speed((#[trigger] volumes@[i])->0@) == Some(true)
            },
        },
{
    match platform {
        Platform::Other => {
            return StorageStep::Decided(false);
        },
        Platform::Windows => {},
    }
    if volumes.len() == 0 || volumes.len() > MAX_STORAGE_ROOTS {
        return StorageStep::Decided(false);
    }
    let mut index: usize = 0;
    while index < volumes.len()
        invariant
            index <= volumes.len(),
            forall|i: int| 0 <= i < index ==> (#[trigger] volumes@[i]) is Some,
        decreases volumes.len() - index,
    {
        if volumes[index].is_none() {
            assert(volumes@[index as int] is None);
            return StorageStep::Decided(false);
        }
        index += 1;
    }
    index = 0;
    while index < volumes.len()
        invariant
            index <= volumes.len(),
            cache.wf(),
            volumes_are_known(platform, volumes@),
            forall|i: int|
                0 <= i < index ==> cache.speed((#[trigger] volumes@[i])->0@) == Some(true),
        decreases volumes.len() - index,
    {
        assert(volumes@[index as int] is Some);
        match &volumes[index] {
            Some(volume) => match cache.get(volume.as_slice()) {
                Some(true) => {},
                Some(false) => {
                    assert(cache.speed(volumes@[index as int]->0@) == Some(false));
                    return StorageStep::Decided(false);
                },
                None => {
                    return StorageStep::Ask(index);
                },
            },
            None => {},
        }
        index += 1;
    }
    StorageStep::Decided(true)
}

/// What the kind of a drive says of its speed: memory is fast, only a fixed drive can be, and which
/// fixed drive is must be asked of the device.
pub fn drive_speed(kind: u32) -> (result: Option<bool>)
    ensures
        result == (if kind == DRIVE_RAMDISK {
            Some(true)
        } else if kind != DRIVE_FIXED {
            Some(false)
        } else {
            None
        }),
{
    if kind == DRIVE_RAMDISK {
        Some(true)
    } else if kind != DRIVE_FIXED {
        Some(false)
    } else {
        None
    }
}

/// What a device says of its speed.
#[derive(Clone, Copy, Debug, PartialEq, Eq, Structural)]
pub struct SeekPenaltyAnswer {
    /// Whether the device answered.
    pub success: bool,
    /// How many bytes it answered.
    pub returned: u32,
    /// How many bytes an answer has.
    pub expected: u32,
    pub version: u32,
    pub size: u32,
    pub incurs_seek_penalty: bool,
}

/// Whether a device is fast, where its answer is whole.
pub fn device_speed(answer: SeekPenaltyAnswer) -> (result: Option<bool>)
    ensures
        result == (if answer.success && answer.returned >= answer.expected && answer.version
            >= answer.expected && answer.size >= answer.expected {
            Some(!answer.incurs_seek_penalty)
        } else {
            None
        }),
{
    if !answer.success || answer.returned < answer.expected || answer.version < answer.expected
        || answer.size < answer.expected {
        return None;
    }
    Some(!answer.incurs_seek_penalty)
}

/// How long a name is that ends at the first zero of a buffer.
pub fn terminated_length(buffer: &[u16]) -> (result: Option<usize>)
    ensures
        match result {
            Some(length) => length < buffer@.len() && buffer@[length as int] == 0 && forall|i: int|
                0 <= i < length ==> buffer@[i] != 0,
            None => forall|i: int| 0 <= i < buffer@.len() ==> buffer@[i] != 0,
        },
{
    let mut index: usize = 0;
    while index < buffer.len()
        invariant
            index <= buffer.len(),
            forall|i: int| 0 <= i < index ==> buffer@[i] != 0,
        decreases buffer.len() - index,
    {
        if buffer[index] == 0 {
            return Some(index);
        }
        index += 1;
    }
    None
}

/// Whether a unit of a name is a slash of either kind.
pub open spec fn is_separator(unit: u16) -> bool {
    unit == 0x5c || unit == 0x2f
}

/// A name without slashes at its end.
pub open spec fn without_separators(name: Seq<u16>) -> Seq<u16>
    decreases name.len(),
{
    if name.len() > 0 && is_separator(name.last()) {
        without_separators(name.drop_last())
    } else {
        name
    }
}

/// The name by which a volume is opened: its own name without slashes at the end.
pub fn device_name(name: &[u16]) -> (result: &[u16])
    ensures
        result@ == without_separators(name@),
{
    let mut length: usize = name.len();
    assert(name@.subrange(0, length as int) =~= name@);
    while length > 0 && (name[length - 1] == 0x5c || name[length - 1] == 0x2f)
        invariant
            length <= name.len(),
            without_separators(name@) == without_separators(name@.subrange(0, length as int)),
        decreases length,
    {
        proof {
            let here = name@.subrange(0, length as int);
            assert(here.last() == name@[length - 1]);
            assert(here.drop_last() =~= name@.subrange(0, length - 1));
        }
        length -= 1;
    }
    proof {
        let here = name@.subrange(0, length as int);
        if length > 0 {
            assert(here.last() == name@[length - 1]);
        }
    }
    &name[0..length]
}

/// Two answers to one question agree: what is once known of a volume stays known.
pub proof fn first_answer_stays(
    volumes: Seq<Seq<u8>>,
    fast: Seq<bool>,
    volume: Seq<u8>,
    other: Seq<u8>,
    value: bool,
)
    requires
        volumes.len() == fast.len(),
        known_speed(volumes, fast, volume) is Some,
    ensures
        known_speed(volumes.push(other), fast.push(value), volume) == known_speed(
            volumes,
            fast,
            volume,
        ),
{
    assert(volumes.push(other).drop_last() =~= volumes);
    assert(fast.push(value).drop_last() =~= fast);
}

} // verus!
