//! The totals of a download, kept per layer of the image that is pulled.

use crate::mapping::{has_key, position, unique_keys};
use vstd::prelude::*;
use vstd::string::*;

verus! {

/// The sizes that a frame reports for one layer.
#[derive(Debug, Clone, Copy)]
pub struct ProgressDetail {
    pub total: Option<i64>,
    pub current: Option<i64>,
}

/// One frame of the progress stream of a build or a pull.
#[derive(Debug)]
pub struct Frame {
    pub status: Option<String>,
    pub id: Option<String>,
    pub progress_detail: Option<ProgressDetail>,
}

/// Model of a [`Frame`].
pub struct FrameModel {
    pub status: Option<Seq<char>>,
    pub id: Option<Seq<char>>,
    pub progress_detail: Option<ProgressDetail>,
}

impl View for Frame {
    type V = FrameModel;

    open spec fn view(&self) -> FrameModel {
        FrameModel {
            status: self.status.deep_view(),
            id: self.id.deep_view(),
            progress_detail: self.progress_detail,
        }
    }
}

/// The frame reports a download.
pub open spec fn downloading(frame: FrameModel) -> bool {
    frame.status == Some("Downloading"@)
}

/// What a frame adds to the totals: the layer, its total size and the
/// size that has arrived. Only a download frame that reports both sizes
/// adds anything; a frame without a layer id counts for the layer with
/// the empty id.
pub open spec fn progress_of(frame: FrameModel) -> Option<(Seq<char>, i64, i64)> {
    match frame.progress_detail {
        Some(ProgressDetail { total: Some(total), current: Some(current) }) if downloading(frame) =>
        Some((
            match frame.id {
                Some(id) => id,
                None => Seq::empty(),
            },
            total,
            current,
        )),
        _ => None,
    }
}

/// The sizes recorded for each layer: the id, then the total size and the
/// size that has arrived.
pub type Layers = Seq<(Seq<char>, (i64, i64))>;

/// The layers after a report for layer `id`: a known layer keeps the
/// total it was first reported with and takes the new `current`; a new
/// layer is added behind the others.
pub open spec fn reported(layers: Layers, id: Seq<char>, total: i64, current: i64) -> Layers {
    if has_key(layers, id) {
        layers.map_values(
            |layer: (Seq<char>, (i64, i64))|
                if layer.0 == id {
                    (id, (layer.1.0, current))
                } else {
                    layer
                },
        )
    } else {
        layers.push((id, (total, current)))
    }
}

/// The sum of the total sizes.
pub open spec fn sum_total(layers: Layers) -> int
    decreases layers.len(),
{
    if layers.len() == 0 {
        0
    } else {
        sum_total(layers.drop_last()) + layers.last().1.0
    }
}

/// The sum of the sizes that have arrived.
pub open spec fn sum_current(layers: Layers) -> int
    decreases layers.len(),
{
    if layers.len() == 0 {
        0
    } else {
        sum_current(layers.drop_last()) + layers.last().1.1
    }
}

/// `x` brought into the range of a `u64`.
pub open spec fn saturated(x: int) -> u64 {
    if x < 0 {
        0
    } else if x > u64::MAX {
        u64::MAX
    } else {
        x as u64
    }
}

/// What the download indicator shows: its length and its position.
#[derive(Debug, PartialEq, Eq, Structural, Clone, Copy)]
pub struct Totals {
    pub length: u64,
    pub position: u64,
}

/// The totals of `layers`: the sum of the total sizes as length, the sum
/// of the arrived sizes as position, each brought into the range of a
/// `u64`.
pub open spec fn totals_of(layers: Layers) -> Totals {
    Totals { length: saturated(sum_total(layers)), position: saturated(sum_current(layers)) }
}

/// The running totals of the downloads of one job.
#[derive(Debug)]
pub struct DownloadProgress {
    layers: Vec<(String, (i64, i64))>,
}

impl View for DownloadProgress {
    type V = Layers;

    closed spec fn view(&self) -> Layers {
        self.layers.deep_view()
    }
}

fn saturate(x: i128) -> (r: u64)
    ensures
        r == saturated(x as int),
{
    if x < 0 {
        0
    } else if x > 0xffff_ffff_ffff_ffff {
        0xffff_ffff_ffff_ffff
    } else {
        x as u64
    }
}

/// Records a report for the layer `id`.
fn report(layers: &mut Vec<(String, (i64, i64))>, id: String, total: i64, current: i64)
    requires
        unique_keys(old(layers).deep_view()),
    ensures
        unique_keys(final(layers).deep_view()),
        final(layers).deep_view() == reported(old(layers).deep_view(), id@, total, current),
{
    let ghost before = layers.deep_view();
    let ghost after = reported(before, id@, total, current);
    if let Some(i) = position(layers, &id) {
        let first_total = layers[i].1.0;
        let ghost layer = (id@, (first_total, current));
        layers.set(i, (id, (first_total, current)));
        proof {
            assert(has_key(before, layer.0));
            assert(layers.deep_view() =~= before.update(i as int, layer));
            assert forall|j: int| 0 <= j < before.len() implies before.update(i as int, layer)[j]
                == #[trigger] after[j] by {
                if j != i {
                    assert(before[j].0 != before[i as int].0);
                }
            }
            assert(before.update(i as int, layer) =~= after);
            assert forall|j: int, k: int|
                0 <= j < after.len() && 0 <= k < after.len() && j != k implies (
            #[trigger] after[j]).0 != (#[trigger] after[k]).0 by {
                assert(after[j].0 == before[j].0);
                assert(after[k].0 == before[k].0);
            }
        }
    } else {
        let ghost layer = (id@, (total, current));
        layers.push((id, (total, current)));
        proof {
            assert(!has_key(before, layer.0));
            assert(layers.deep_view() =~= before.push(layer));
        }
    }
}

/// The totals of `layers`.
fn sum(layers: &Vec<(String, (i64, i64))>) -> (shown: Totals)
    ensures
        shown == totals_of(layers.deep_view()),
{
    let ghost all = layers.deep_view();
    let mut length: i128 = 0;
    let mut position: i128 = 0;
    let mut i: usize = 0;
    while i < layers.len()
        invariant
            i <= layers.len(),
            all == layers.deep_view(),
            length == sum_total(all.take(i as int)),
            position == sum_current(all.take(i as int)),
            -(i * 0x8000_0000_0000_0000) <= length <= i * 0x8000_0000_0000_0000,
            -(i * 0x8000_0000_0000_0000) <= position <= i * 0x8000_0000_0000_0000,
        decreases layers.len() - i,
    {
        let sizes = layers[i].1;
        proof {
            assert(all.take(i + 1).drop_last() =~= all.take(i as int));
            assert(all.take(i + 1).last().1 == sizes);
            assert(i * 0x8000_0000_0000_0000 <= 0xffff_ffff_ffff_ffff * 0x8000_0000_0000_0000)
                by (nonlinear_arith)
                requires
                    i <= 0xffff_ffff_ffff_ffff,
            ;
            assert((i + 1) * 0x8000_0000_0000_0000 == i * 0x8000_0000_0000_0000
                + 0x8000_0000_0000_0000) by (nonlinear_arith);
        }
        length = length + sizes.0 as i128;
        position = position + sizes.1 as i128;
        i += 1;
    }
    assert(all.take(i as int) =~= all);
    Totals { length: saturate(length), position: saturate(position) }
}

impl DownloadProgress {
    /// No layer is recorded twice.
    #[verifier::type_invariant]
    spec fn no_layer_twice(self) -> bool {
        unique_keys(self.layers.deep_view())
    }

    /// Totals without a layer.
    pub fn new() -> (progress: DownloadProgress)
        ensures
            progress@ == Layers::empty(),
    {
        DownloadProgress { layers: Vec::new() }
    }

    /// Whether `frame` reports a download.
    pub fn is_downloading(frame: &Frame) -> (b: bool)
        ensures
            b == downloading(frame@),
    {
        match &frame.status {
            Some(status) => {
                let wanted = "Downloading".to_owned();
                *status == wanted
            },
            None => false,
        }
    }

    /// The totals of the layers recorded so far.
    pub fn totals(&self) -> (shown: Totals)
        ensures
            shown == totals_of(self@),
    {
        sum(&self.layers)
    }

    /// Takes one frame of the stream into account. A frame that reports
    /// the sizes of a download changes the layers and gives the totals to
    /// show; any other frame changes nothing and gives none.
    pub fn record(&mut self, frame: &Frame) -> (shown: Option<Totals>)
        ensures
            unique_keys(final(self)@),
            match progress_of(frame@) {
                Some((id, total, current)) => final(self)@ == reported(
                    old(self)@,
                    id,
                    total,
                    current,
                ) && shown == Some(totals_of(final(self)@)),
                None => final(self)@ == old(self)@ && shown is None,
            },
    {
        proof {
            use_type_invariant(&*self);
        }
        if !Self::is_downloading(frame) {
            return None;
        }
        let (total, current) = match frame.progress_detail {
            Some(ProgressDetail { total: Some(total), current: Some(current) }) => (total, current),
            _ => {
                return None;
            },
        };
        let id = match &frame.id {
            Some(id) => id.clone(),
            None => String::new(),
        };
        let mut layers: Vec<(String, (i64, i64))> = Vec::new();
        core::mem::swap(&mut self.layers, &mut layers);
        report(&mut layers, id, total, current);
        let shown = sum(&layers);
        core::mem::swap(&mut self.layers, &mut layers);
        Some(shown)
    }
}

} // verus!
