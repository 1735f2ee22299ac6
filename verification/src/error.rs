//! Errors of the GPU sampler.

use vstd::prelude::*;

verus! {

/// Why a GPU sampler could not be set up.
#[derive(Debug, PartialEq, Eq)]
pub enum CollectionError {
    /// The service name could not be turned into a C string.
    InvalidServiceName,
    /// The IOKit lookup of the `AppleARMIODevice` services failed.
    ServiceLookupFailed,
    /// Reading the properties of the named registry entry failed.
    PropertiesFailed(String),
    /// No `pmgr` entry carried a usable `voltage-states9` table.
    NoGpuFrequencies,
    /// The GPU frequency table has fewer than two entries.
    FrequencyTableTooShort,
    /// IOReport could not list its channels.
    CopyAllChannelsFailed,
    /// The channel dictionary could not be copied.
    ChannelCopyFailed,
    /// The channel dictionary has no `IOReportChannels` list.
    ChannelListMissing,
    /// The array of selected channels could not be created.
    ChannelArrayFailed,
    /// No `GPU Stats` / `GPU Performance States` channel exists.
    NoGpuChannels,
    /// The IOReport subscription could not be created.
    SubscriptionFailed,
}

} // verus!
