//! IOReport channels: which ones carry the GPU performance states.

use vstd::prelude::*;
use crate::error::CollectionError;

verus! {

/// Whether a character has the Unicode `White_Space` property, by which `str::trim`
/// goes.
pub open spec fn is_white_space(c: char) -> bool {
    let n = c as int;
    ||| 0x9 <= n <= 0xD
    ||| n == 0x20
    ||| n == 0x85
    ||| n == 0xA0
    ||| n == 0x1680
    ||| 0x2000 <= n <= 0x200A
    ||| n == 0x2028
    ||| n == 0x2029
    ||| n == 0x202F
    ||| n == 0x205F
    ||| n == 0x3000
}

/// `s` without its leading whitespace.
pub open spec fn trim_start(s: Seq<char>) -> Seq<char>
    decreases s.len(),
{
    if s.len() > 0 && is_white_space(s[0]) {
        trim_start(s.drop_first())
    } else {
        s
    }
}

/// `s` without its trailing whitespace.
pub open spec fn trim_end(s: Seq<char>) -> Seq<char>
    decreases s.len(),
{
    if s.len() > 0 && is_white_space(s.last()) {
        trim_end(s.drop_last())
    } else {
        s
    }
}

/// `s` without its leading and trailing whitespace, as `str::trim` returns it.
pub open spec fn trimmed(s: Seq<char>) -> Seq<char> {
    trim_end(trim_start(s))
}

/// Whether a character has the Unicode `White_Space` property.
fn white_space(c: char) -> (b: bool)
    ensures
        b == is_white_space(c),
{
    let n = c as u32;
    (0x9 <= n && n <= 0xD) || n == 0x20 || n == 0x85 || n == 0xA0 || n == 0x1680 || (0x2000 <= n
        && n <= 0x200A) || n == 0x2028 || n == 0x2029 || n == 0x202F || n == 0x205F || n == 0x3000
}

/// `s` without its leading and trailing whitespace.
pub fn trim_text(s: &str) -> (r: String)
    ensures
        r@ == trimmed(s@),
{
    let len = s.unicode_len();
    let mut start: usize = 0;
    assert(s@.subrange(0, len as int) =~= s@);
    while start < len && white_space(s.get_char(start))
        invariant
            start <= len,
            len == s@.len(),
            trim_start(s@) == trim_start(s@.subrange(start as int, len as int)),
        decreases len - start,
    {
        assert(s@.subrange(start as int, len as int).drop_first() =~= s@.subrange(
            start + 1,
            len as int,
        ));
        start = start + 1;
    }
    let ghost rest = s@.subrange(start as int, len as int);
    assert(trim_start(rest) == rest);
    let mut end: usize = len;
    assert(rest.subrange(0, (end - start) as int) =~= rest);
    while end > start && white_space(s.get_char(end - 1))
        invariant
            start <= end <= len,
            len == s@.len(),
            rest == s@.subrange(start as int, len as int),
            trim_end(rest) == trim_end(s@.subrange(start as int, end as int)),
        decreases end - start,
    {
        assert(s@.subrange(start as int, end as int).drop_last() =~= s@.subrange(
            start as int,
            end - 1,
        ));
        end = end - 1;
    }
    assert(trim_end(s@.subrange(start as int, end as int)) == s@.subrange(start as int, end as int));
    s.substring_char(start, end).to_owned()
}

/// The text description of one IOReport channel, as read from the channel dictionary.
#[derive(Debug)]
pub struct ChannelInfo {
    pub group: String,
    pub subgroup: String,
    pub channel: String,
    pub unit: String,
}

impl ChannelInfo {
    /// The channel's four texts as one tuple of character sequences.
    pub open spec fn texts(self) -> (Seq<char>, Seq<char>, Seq<char>, Seq<char>) {
        (self.group@, self.subgroup@, self.channel@, self.unit@)
    }
}

/// Whether a channel belongs to the GPU performance-state statistics.
pub open spec fn is_gpu_perf_channel(c: ChannelInfo) -> bool {
    c.group@ == "GPU Stats"@ && c.subgroup@ == "GPU Performance States"@
}

/// Whether a channel is the GPU performance-state channel `GPUPH`.
pub open spec fn is_gpuph_channel(c: ChannelInfo) -> bool {
    is_gpu_perf_channel(c) && c.channel@ == "GPUPH"@
}

/// The metadata kept for a selected channel: its texts, with the unit trimmed.
pub open spec fn kept_metadata(c: ChannelInfo) -> (Seq<char>, Seq<char>, Seq<char>, Seq<char>) {
    (c.group@, c.subgroup@, c.channel@, trimmed(c.unit@))
}

/// The metadata of the GPU performance-state channels among `s`, in order.
pub open spec fn selected_metadata(s: Seq<ChannelInfo>) -> Seq<
    (Seq<char>, Seq<char>, Seq<char>, Seq<char>),
>
    decreases s.len(),
{
    if s.len() == 0 {
        Seq::empty()
    } else if is_gpu_perf_channel(s.last()) {
        selected_metadata(s.drop_last()).push(kept_metadata(s.last()))
    } else {
        selected_metadata(s.drop_last())
    }
}

/// The texts of a list of channels.
pub open spec fn texts_of(s: Seq<ChannelInfo>) -> Seq<(Seq<char>, Seq<char>, Seq<char>, Seq<char>)> {
    s.map_values(|c: ChannelInfo| c.texts())
}

/// Whether a channel belongs to the GPU performance-state statistics.
pub fn gpu_perf_channel(c: &ChannelInfo) -> (b: bool)
    ensures
        b == is_gpu_perf_channel(*c),
{
    let group = "GPU Stats".to_owned();
    let subgroup = "GPU Performance States".to_owned();
    c.group.eq(&group) && c.subgroup.eq(&subgroup)
}

/// Keeps the GPU performance-state channels of `all`, in order, with their units
/// trimmed; fails when there is none.
pub fn select_gpu_channels(all: &[ChannelInfo]) -> (r: Result<Vec<ChannelInfo>, CollectionError>)
    ensures
        selected_metadata(all@).len() == 0 ==> r == Err::<Vec<ChannelInfo>, CollectionError>(
            CollectionError::NoGpuChannels,
        ),
        selected_metadata(all@).len() > 0 ==> (r matches Ok(kept) && texts_of(kept@)
            == selected_metadata(all@)),
{
    let mut kept: Vec<ChannelInfo> = Vec::new();
    let mut i: usize = 0;
    while i < all.len()
        invariant
            0 <= i <= all@.len(),
            texts_of(kept@) == selected_metadata(all@.take(i as int)),
        decreases all@.len() - i,
    {
        let c = &all[i];
        assert(all@.take(i + 1).drop_last() =~= all@.take(i as int));
        assert(all@.take(i + 1).last() == all@[i as int]);
        if gpu_perf_channel(c) {
            let info = ChannelInfo {
                group: c.group.clone(),
                subgroup: c.subgroup.clone(),
                channel: c.channel.clone(),
                unit: trim_text(c.unit.as_str()),
            };
            let ghost before = kept@;
            kept.push(info);
            assert(texts_of(kept@) =~= texts_of(before).push(kept_metadata(*c)));
        }
        i = i + 1;
    }
    assert(all@.take(all@.len() as int) =~= all@);
    if kept.len() == 0 {
        Err(CollectionError::NoGpuChannels)
    } else {
        Ok(kept)
    }
}

/// Finds the `GPUPH` channel among the first `n` channels of a sample, whose order is
/// that of the metadata; the search stops at the end of the metadata.
pub fn find_gpuph_channel(meta: &[ChannelInfo], n: usize) -> (r: Option<usize>)
    ensures
        r matches Some(i) ==> {
            &&& i < n
            &&& i < meta@.len()
            &&& is_gpuph_channel(meta@[i as int])
            &&& forall|j: int| 0 <= j < i ==> !is_gpuph_channel(#[trigger] meta@[j])
        },
        r is None ==> forall|j: int|
            0 <= j < n && j < meta@.len() ==> !is_gpuph_channel(#[trigger] meta@[j]),
{
    let gpuph = "GPUPH".to_owned();
    let mut i: usize = 0;
    while i < n
        invariant
            0 <= i <= n,
            gpuph@ == "GPUPH"@,
            forall|j: int| 0 <= j < i && j < meta@.len() ==> !is_gpuph_channel(#[trigger] meta@[j]),
        decreases n - i,
    {
        if i >= meta.len() {
            return None;
        }
        let c = &meta[i];
        if gpu_perf_channel(c) && c.channel.eq(&gpuph) {
            return Some(i);
        }
        i = i + 1;
    }
    None
}

/// Selection keeps exactly the GPU performance-state channels, whatever their place in
/// the list: nothing is selected from an empty list, appending such a channel appends its
/// metadata (texts, unit trimmed), and appending any other channel changes nothing.
pub proof fn lemma_selection_appends(s: Seq<ChannelInfo>, c: ChannelInfo)
    ensures
        selected_metadata(Seq::empty()) == Seq::<(Seq<char>, Seq<char>, Seq<char>, Seq<char>)>::empty(),
        c.group@ == "GPU Stats"@ && c.subgroup@ == "GPU Performance States"@ ==> selected_metadata(
            s.push(c),
        ) == selected_metadata(s).push((c.group@, c.subgroup@, c.channel@, trimmed(c.unit@))),
        !(c.group@ == "GPU Stats"@ && c.subgroup@ == "GPU Performance States"@)
            ==> selected_metadata(s.push(c)) == selected_metadata(s),
{
    assert(s.push(c).drop_last() =~= s);
}

/// Some channel is selected exactly when the list holds a `GPU Stats` / `GPU Performance
/// States` channel.
pub proof fn lemma_selection_nonempty_iff_gpu_channel(s: Seq<ChannelInfo>)
    ensures
        selected_metadata(s).len() > 0 <==> exists|i: int|
            0 <= i < s.len() && #[trigger] s[i].group@ == "GPU Stats"@ && s[i].subgroup@
                == "GPU Performance States"@,
    decreases s.len(),
{
    if s.len() > 0 {
        let init = s.drop_last();
        lemma_selection_nonempty_iff_gpu_channel(init);
        if exists|i: int|
            0 <= i < init.len() && #[trigger] init[i].group@ == "GPU Stats"@ && init[i].subgroup@
                == "GPU Performance States"@ {
            let i = choose|i: int|
                0 <= i < init.len() && #[trigger] init[i].group@ == "GPU Stats"@
                    && init[i].subgroup@ == "GPU Performance States"@;
            assert(s[i] == init[i]);
        }
        if exists|i: int|
            0 <= i < s.len() && #[trigger] s[i].group@ == "GPU Stats"@ && s[i].subgroup@
                == "GPU Performance States"@ {
            let i = choose|i: int|
                0 <= i < s.len() && #[trigger] s[i].group@ == "GPU Stats"@ && s[i].subgroup@
                    == "GPU Performance States"@;
            if i < s.len() - 1 {
                assert(init[i] == s[i]);
            }
        }
    }
}

} // verus!
