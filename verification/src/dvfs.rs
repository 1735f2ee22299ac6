//! The GPU frequency table of the power manager (`pmgr`).
//!
//! The `voltage-states9` property of `pmgr` is a list of 8-byte records: a frequency in
//! Hz and a voltage, both little-endian `u32`.

use vstd::prelude::*;
use crate::error::CollectionError;

verus! {

/// The little-endian `u32` made of the four bytes of `b` from `at` on.
pub open spec fn le_u32(b: Seq<u8>, at: int) -> int {
    b[at] + 256 * b[at + 1] + 65536 * b[at + 2] + 16777216 * b[at + 3]
}

/// Number of whole records in `n` bytes.
pub open spec fn record_count(n: int) -> int {
    n / 8
}

/// Reads the little-endian `u32` at `at`.
fn read_le_u32(data: &[u8], at: usize) -> (v: u32)
    requires
        at + 4 <= data@.len(),
    ensures
        v == le_u32(data@, at as int),
{
    let b0 = data[at] as u32;
    let b1 = data[at + 1] as u32;
    let b2 = data[at + 2] as u32;
    let b3 = data[at + 3] as u32;
    b0 + 256 * b1 + 65536 * b2 + 16777216 * b3
}

/// Decodes a DVFS table into `(voltages, frequencies)`, one entry per whole 8-byte
/// record (trailing bytes are ignored); empty data has no table.
pub fn decode_dvfs_table(data: &[u8]) -> (r: Option<(Vec<u32>, Vec<u32>)>)
    ensures
        r is None <==> data@.len() == 0,
        r matches Some((volts, freqs)) ==> {
            &&& volts@.len() == record_count(data@.len() as int)
            &&& freqs@.len() == record_count(data@.len() as int)
            &&& forall|i: int|
                0 <= i < freqs@.len() ==> #[trigger] freqs@[i] == le_u32(data@, 8 * i)
            &&& forall|i: int|
                0 <= i < volts@.len() ==> #[trigger] volts@[i] == le_u32(data@, 8 * i + 4)
        },
{
    let len = data.len();
    if len == 0 {
        return None;
    }
    let count = len / 8;
    let mut freqs: Vec<u32> = Vec::new();
    let mut volts: Vec<u32> = Vec::new();
    let mut i: usize = 0;
    while i < count
        invariant
            count == data@.len() / 8,
            len == data@.len(),
            0 <= i <= count,
            freqs@.len() == i,
            volts@.len() == i,
            forall|j: int| 0 <= j < i ==> #[trigger] freqs@[j] == le_u32(data@, 8 * j),
            forall|j: int| 0 <= j < i ==> #[trigger] volts@[j] == le_u32(data@, 8 * j + 4),
        decreases count - i,
    {
        assert(8 * i + 8 <= len) by (nonlinear_arith)
            requires
                i < count,
                count == len / 8,
        ;
        let at = 8 * i;
        freqs.push(read_le_u32(data, at));
        volts.push(read_le_u32(data, at + 4));
        i = i + 1;
    }
    Some((volts, freqs))
}

/// Converts frequencies from Hz to MHz, rounding down.
pub fn hz_to_mhz(freqs: &[u32]) -> (mhz: Vec<u32>)
    ensures
        mhz@.len() == freqs@.len(),
        forall|i: int| 0 <= i < mhz@.len() ==> #[trigger] mhz@[i] == freqs@[i] / 1_000_000,
{
    let mut mhz: Vec<u32> = Vec::new();
    let mut i: usize = 0;
    while i < freqs.len()
        invariant
            0 <= i <= freqs@.len(),
            mhz@.len() == i,
            forall|j: int| 0 <= j < i ==> #[trigger] mhz@[j] == freqs@[j] / 1_000_000,
        decreases freqs@.len() - i,
    {
        mhz.push(freqs[i] / 1_000_000);
        i = i + 1;
    }
    mhz
}

/// Whether a registry entry is the power manager, whose properties hold the GPU table.
pub fn is_power_manager(name: &String) -> (b: bool)
    ensures
        b == (name@ == "pmgr"@),
{
    let pmgr = "pmgr".to_owned();
    name.eq(&pmgr)
}

/// The GPU frequencies (MHz) that a `voltage-states9` table yields: present when the
/// table holds at least one whole record.
pub fn gpu_freqs_from_dvfs(data: &[u8]) -> (r: Option<Vec<u32>>)
    ensures
        r is Some <==> data@.len() >= 8,
        r matches Some(mhz) ==> {
            &&& mhz@.len() == record_count(data@.len() as int)
            &&& forall|i: int|
                0 <= i < mhz@.len() ==> #[trigger] mhz@[i] == le_u32(data@, 8 * i) / 1_000_000
        },
{
    match decode_dvfs_table(data) {
        Some((_volts, freqs)) => {
            let mhz = hz_to_mhz(freqs.as_slice());
            if mhz.len() > 0 {
                Some(mhz)
            } else {
                None
            }
        },
        None => None,
    }
}

/// The GPU frequencies (MHz) a `voltage-states9` table yields, when it holds a whole
/// record.
pub open spec fn dvfs_mhz(data: Seq<u8>) -> Option<Seq<u32>> {
    if data.len() >= 8 {
        Some(
            Seq::new(
                record_count(data.len() as int) as nat,
                |i: int| (le_u32(data, 8 * i) / 1_000_000) as u32,
            ),
        )
    } else {
        None
    }
}

/// The GPU frequencies (MHz) that one registry entry yields: only the power manager's
/// `voltage-states9` table counts. The walk over the registry stops at the first entry
/// that yields some.
pub fn entry_gpu_freqs(name: &String, table: Option<&[u8]>) -> (r: Option<Vec<u32>>)
    ensures
        name@ != "pmgr"@ ==> r is None,
        r is Some <==> (name@ == "pmgr"@ && table is Some && table->0@.len() >= 8),
        r matches Some(m) ==> {
            &&& m@.len() == table->0@.len() / 8
            &&& forall|i: int|
                0 <= i < m@.len() ==> #[trigger] m@[i] == le_u32(table->0@, 8 * i) / 1_000_000
        },
        name@ == "pmgr"@ ==> match table {
            None => r is None,
            Some(t) => match (r, dvfs_mhz(t@)) {
                (None, None) => true,
                (Some(m), Some(expected)) => m@ == expected,
                _ => false,
            },
        },
{
    if !is_power_manager(name) {
        return None;
    }
    match table {
        None => None,
        Some(t) => {
            let r = gpu_freqs_from_dvfs(t);
            proof {
                if r is Some {
                    assert(r->0@ =~= dvfs_mhz(t@)->0);
                }
            }
            r
        },
    }
}

/// The power manager's table yields one frequency per whole 8-byte record, in order,
/// each the record's little-endian frequency in Hz divided down to MHz; a table without
/// a whole record yields none.
pub proof fn lemma_table_keeps_every_record(data: Seq<u8>)
    ensures
        data.len() >= 8 ==> (dvfs_mhz(data) matches Some(m) && m.len() == data.len() / 8 && forall|
            i: int,
        |
            0 <= i < m.len() ==> #[trigger] m[i] == (data[8 * i] + 256 * data[8 * i + 1] + 65536
                * data[8 * i + 2] + 16777216 * data[8 * i + 3]) / 1_000_000),
        data.len() < 8 ==> dvfs_mhz(data) is None,
{
    if data.len() >= 8 {
        let m = dvfs_mhz(data)->0;
        assert forall|i: int| 0 <= i < m.len() implies #[trigger] m[i] == (data[8 * i] + 256
            * data[8 * i + 1] + 65536 * data[8 * i + 2] + 16777216 * data[8 * i + 3]) / 1_000_000 by {
            let v = le_u32(data, 8 * i);
            assert(0 <= v < 0x1_0000_0000);
            assert(0 <= v / 1_000_000 <= v);
        }
    }
}

/// The frequency table found while walking the registry, or the error that none was.
pub fn gpu_freqs_found(found: Option<Vec<u32>>) -> (r: Result<Vec<u32>, CollectionError>)
    ensures
        found matches Some(f) ==> r == Ok::<Vec<u32>, CollectionError>(f),
        found is None ==> r == Err::<Vec<u32>, CollectionError>(CollectionError::NoGpuFrequencies),
{
    match found {
        Some(f) => Ok(f),
        None => Err(CollectionError::NoGpuFrequencies),
    }
}

} // verus!
