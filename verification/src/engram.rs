//! Gathered engram rows on a device.
pub mod gate;

use crate::block;
use crate::device::DeviceBuffer;
use crate::error::Error;
use crate::router;
use crate::router::is_binary;
use vstd::prelude::*;

verus! {

/// Hash rows of one token.
pub const HASH_ROWS: usize = 24;

/// Bytes of one hash row of weights, scales and decoded embeddings.
pub const HASH_WEIGHT_BYTES: usize = 256;

pub const HASH_SCALE_BYTES: usize = 8;

pub const HASH_EMBEDDING_BYTES: usize = 512;

/// Bytes of one token's decoded embeddings.
pub const TOKEN_EMBEDDING_BYTES: usize = 12288;

/// Bytes of one token in all buffers.
pub const TOKEN_BYTES: usize = 18625;

/// How gathered rows are stored.
#[derive(Debug, Clone, Copy, PartialEq, Eq, Structural)]
pub enum EngramEncoding {
    Fp8,
    Nvfp4,
}

impl EngramEncoding {
    pub open spec fn weight_width(self) -> int {
        if self is Fp8 {
            256
        } else {
            128
        }
    }

    pub open spec fn scale_width(self) -> int {
        if self is Fp8 {
            8
        } else {
            16
        }
    }

    pub fn weight_bytes(&self) -> (r: usize)
        ensures
            r == self.weight_width(),
    {
        match self {
            EngramEncoding::Fp8 => 256,
            EngramEncoding::Nvfp4 => 128,
        }
    }

    pub fn scale_bytes(&self) -> (r: usize)
        ensures
            r == self.scale_width(),
    {
        match self {
            EngramEncoding::Fp8 => 8,
            EngramEncoding::Nvfp4 => 16,
        }
    }
}

/// Rows that the gather has brought to host memory.
pub struct EngramGatherView<'a> {
    pub weights: &'a [u8],
    pub scales: &'a [u8],
    pub text_mask: &'a [u8],
    pub rows: usize,
    pub layer_index: usize,
    pub encoding: EngramEncoding,
}

/// Published rows.
#[derive(Debug, Clone, Copy, PartialEq, Eq, Structural)]
pub struct EngramDeviceView {
    pub embeddings: DeviceBuffer,
    pub text_mask: DeviceBuffer,
    pub rows: usize,
    pub layer_index: usize,
}

/// How a gather stands.
pub enum EngramGatherPoll<'a> {
    Pending,
    Cancelled,
    Ready(EngramGatherView<'a>),
}

#[derive(Debug, Clone, Copy, PartialEq, Eq, Structural)]
pub enum EngramUploadPoll {
    Pending,
    Cancelled,
    Ready(EngramDeviceView),
}

/// One upload out of the pinned host memory.
#[derive(Debug, Clone, Copy, PartialEq, Eq, Structural)]
pub struct EngramUpload {
    pub destination: DeviceBuffer,
    pub offset: usize,
    pub bytes: usize,
}

/// One lane's gathered rows.
pub struct EngramDeviceRows {
    pub weights: DeviceBuffer,
    pub scales: DeviceBuffer,
    pub embeddings: DeviceBuffer,
    pub text_mask: DeviceBuffer,
    pub capacity: usize,
    /// Rows and layer of what is published.
    pub ready: Option<(usize, usize)>,
}

impl EngramDeviceRows {
    pub open spec fn inv(&self) -> bool {
        &&& 1 <= self.capacity <= 4096
        &&& self.weights.wf()
        &&& self.weights.bytes == self.capacity * 6144
        &&& self.scales.bytes == self.capacity * 192
        &&& match self.ready {
            Some((rows, _)) => 1 <= rows <= self.capacity,
            None => true,
        }
    }

    pub open spec fn same_storage(&self, before: &Self) -> bool {
        &&& self.weights == before.weights
        &&& self.scales == before.scales
        &&& self.embeddings == before.embeddings
        &&& self.text_mask == before.text_mask
        &&& self.capacity == before.capacity
    }

    pub fn device_bytes(capacity: usize) -> (r: Result<usize, Error>)
        ensures
            r == if 1 <= capacity <= 4096 {
                Ok::<usize, Error>((capacity * 18625) as usize)
            } else {
                Err::<usize, Error>(Error::EngramCapacity)
            },
    {
        if capacity < 1 || capacity > 4096 {
            return Err(Error::EngramCapacity);
        }
        Ok(capacity * TOKEN_BYTES)
    }

    /// Why rows of `capacity` tokens cannot be set up within `budget` bytes.
    pub open spec fn setup_error(capacity: usize, budget: usize) -> Option<Error> {
        if !(1 <= capacity <= 4096) {
            Some(Error::EngramCapacity)
        } else if capacity * 18625 > budget {
            Some(Error::EngramBudget)
        } else {
            None
        }
    }

    /// Checks the setup; returns the bytes of the weights, scales, embeddings and
    /// mask, and of the pinned host memory.
    pub fn layout(capacity: usize, budget: usize) -> (r: Result<[usize; 5], Error>)
        ensures
            match r {
                Err(e) => Self::setup_error(capacity, budget) == Some(e),
                Ok(bytes) => {
                    &&& Self::setup_error(capacity, budget) is None
                    &&& bytes@[0] == capacity * 6144
                    &&& bytes@[1] == capacity * 192
                    &&& bytes@[2] == capacity * 12288
                    &&& bytes@[3] == capacity
                    &&& bytes@[4] == capacity * 6337
                    &&& bytes@[0] + bytes@[1] + bytes@[2] + bytes@[3] == capacity * 18625
                },
            },
    {
        match Self::device_bytes(capacity) {
            Err(e) => Err(e),
            Ok(bytes) => if bytes > budget {
                Err(Error::EngramBudget)
            } else {
                Ok(
                    [
                        capacity * (HASH_ROWS * HASH_WEIGHT_BYTES),
                        capacity * (HASH_ROWS * HASH_SCALE_BYTES),
                        capacity * (HASH_ROWS * HASH_EMBEDDING_BYTES),
                        capacity,
                        capacity * (HASH_ROWS * (HASH_WEIGHT_BYTES + HASH_SCALE_BYTES) + 1),
                    ],
                )
            },
        }
    }

    /// The rows of `capacity` tokens over their buffers, within `budget` bytes.
    /// Nothing is published.
    pub fn new(
        capacity: usize,
        budget: usize,
        weights: DeviceBuffer,
        scales: DeviceBuffer,
        embeddings: DeviceBuffer,
        text_mask: DeviceBuffer,
    ) -> (r: Result<Self, Error>)
        requires
            weights.wf(),
            weights.bytes == capacity * 6144,
            scales.bytes == capacity * 192,
        ensures
            match r {
                Err(e) => Self::setup_error(capacity, budget) == Some(e),
                Ok(rows) => {
                    &&& Self::setup_error(capacity, budget) is None
                    &&& rows.inv()
                    &&& rows == (EngramDeviceRows {
                        weights,
                        scales,
                        embeddings,
                        text_mask,
                        capacity,
                        ready: None,
                    })
                },
            },
    {
        match Self::layout(capacity, budget) {
            Err(e) => Err(e),
            Ok(_) => Ok(
                EngramDeviceRows { weights, scales, embeddings, text_mask, capacity, ready: None },
            ),
        }
    }

    /// Why the gathered rows cannot be uploaded.
    pub open spec fn upload_error(&self, gathered: &EngramGatherView) -> Option<Error> {
        let rows = gathered.rows;
        if !(1 <= rows <= self.capacity && gathered.layer_index < 2) {
            Some(Error::EngramDimensions)
        } else if !(gathered.weights@.len() == rows * 24 * gathered.encoding.weight_width()
            && gathered.scales@.len() == rows * 24 * gathered.encoding.scale_width()
            && gathered.text_mask@.len() == rows && router::binary(gathered.text_mask@)) {
            Some(Error::EngramStorage)
        } else {
            None
        }
    }

    pub fn check_upload(&self, gathered: &EngramGatherView) -> (r: Result<(), Error>)
        requires
            self.inv(),
        ensures
            match r {
                Ok(_) => self.upload_error(gathered) is None,
                Err(e) => self.upload_error(gathered) == Some(e),
            },
    {
        let rows: usize = gathered.rows;
        if !(rows >= 1 && rows <= self.capacity && gathered.layer_index < 2) {
            return Err(Error::EngramDimensions);
        }
        let weight: usize = gathered.encoding.weight_bytes();
        let scale: usize = gathered.encoding.scale_bytes();
        assert(rows * 24 * weight <= 4096 * 24 * 256) by (nonlinear_arith)
            requires
                rows <= 4096,
                weight <= 256,
        ;
        assert(rows * 24 * scale <= 4096 * 24 * 16) by (nonlinear_arith)
            requires
                rows <= 4096,
                scale <= 16,
        ;
        if !(gathered.weights.len() == rows * HASH_ROWS * weight && gathered.scales.len() == rows
            * HASH_ROWS * scale && gathered.text_mask.len() == rows && is_binary(
            gathered.text_mask,
        )) {
            return Err(Error::EngramStorage);
        }
        Ok(())
    }

    /// Where the gathered weights and scales go. Compact rows leave room for
    /// their scales behind them, so both encodings need the same memory.
    pub fn gathered_buffers(&self, gathered: &EngramGatherView) -> (r: (DeviceBuffer, DeviceBuffer))
        requires
            self.inv(),
            self.upload_error(gathered) is None,
        ensures
            r.0 == block::cut(self.weights, gathered.weights@.len() as int),
            r.1 == if gathered.encoding is Nvfp4 {
                self.weights.slice_of(
                    gathered.weights@.len() as int,
                    gathered.scales@.len() as int,
                )
            } else {
                self.scales
            },
            gathered.weights@.len() + if gathered.encoding is Nvfp4 {
                gathered.scales@.len() as int
            } else {
                0
            } <= self.weights.bytes,
    {
        let weights = self.weights.prefix(gathered.weights.len());
        let scales = match gathered.encoding {
            EngramEncoding::Nvfp4 => self.weights.slice(
                gathered.weights.len(),
                gathered.scales.len(),
            ),
            EngramEncoding::Fp8 => self.scales,
        };
        (weights, scales)
    }

    /// The uploads bring weights, scales and mask to their buffers.
    pub open spec fn are_uploads(&self, gathered: &EngramGatherView, uploads: Seq<EngramUpload>) -> bool {
        &&& uploads.len() == 3
        &&& uploads[0].offset == 0
        &&& uploads[0].bytes == gathered.weights@.len()
        &&& uploads[0].destination == block::cut(self.weights, gathered.weights@.len() as int)
        &&& uploads[1].offset == gathered.weights@.len()
        &&& uploads[1].bytes == gathered.scales@.len()
        &&& uploads[1].destination == if gathered.encoding is Nvfp4 {
            self.weights.slice_of(gathered.weights@.len() as int, gathered.scales@.len() as int)
        } else {
            self.scales
        }
        &&& uploads[2].offset == gathered.weights@.len() + gathered.scales@.len()
        &&& uploads[2].bytes == gathered.text_mask@.len()
        &&& uploads[2].destination == self.text_mask
        &&& uploads[2].offset + uploads[2].bytes <= self.capacity * 6337
    }

    /// The uploads of the gathered rows: weights, scales and mask lie side by side
    /// in the pinned host memory.
    pub fn uploads(&self, gathered: &EngramGatherView) -> (r: [EngramUpload; 3])
        requires
            self.inv(),
            self.upload_error(gathered) is None,
        ensures
            self.are_uploads(gathered, r@),
    {
        let (weights, scales): (DeviceBuffer, DeviceBuffer) = self.gathered_buffers(gathered);
        let w: usize = gathered.weights.len();
        let s: usize = gathered.scales.len();
        [
            EngramUpload { destination: weights, offset: 0, bytes: w },
            EngramUpload { destination: scales, offset: w, bytes: s },
            EngramUpload {
                destination: self.text_mask,
                offset: w + s,
                bytes: gathered.text_mask.len(),
            },
        ]
    }

    /// What is published, given its rows and layer.
    pub open spec fn view_of(&self, rows: usize, layer_index: usize) -> EngramDeviceView {
        EngramDeviceView {
            embeddings: block::cut(self.embeddings, rows * 12288),
            text_mask: block::cut(self.text_mask, rows as int),
            rows,
            layer_index,
        }
    }

    /// Publishes a gather whose upload and decoding went as `work` tells.
    pub fn upload(&mut self, gathered: &EngramGatherView, work: Result<(), Error>) -> (r: Result<
        EngramDeviceView,
        Error,
    >)
        requires
            old(self).inv(),
        ensures
            final(self).inv(),
            final(self).same_storage(old(self)),
            match r {
                Err(e) => {
                    &&& final(self).ready is None
                    &&& match old(self).upload_error(gathered) {
                        Some(reason) => e == reason,
                        None => work == Err::<(), Error>(e),
                    }
                },
                Ok(view) => {
                    &&& old(self).upload_error(gathered) is None
                    &&& work is Ok
                    &&& final(self).ready == Some((gathered.rows, gathered.layer_index))
                    &&& view == old(self).view_of(gathered.rows, gathered.layer_index)
                },
            },
    {
        self.ready = None;
        match self.check_upload(gathered) {
            Err(e) => {
                return Err(e);
            },
            Ok(_) => {},
        }
        match work {
            Err(e) => {
                return Err(e);
            },
            Ok(_) => {},
        }
        self.ready = Some((gathered.rows, gathered.layer_index));
        self.view()
    }

    /// Takes a gather forward by how it stands. Nothing is published before its
    /// upload is complete.
    pub fn poll_upload(
        &mut self,
        polled: Result<EngramGatherPoll<'_>, Error>,
        work: Result<(), Error>,
    ) -> (r: Result<EngramUploadPoll, Error>)
        requires
            old(self).inv(),
        ensures
            final(self).inv(),
            final(self).same_storage(old(self)),
            match polled {
                Err(e) => r == Err::<EngramUploadPoll, Error>(e) && final(self).ready is None,
                Ok(EngramGatherPoll::Pending) => r == Ok::<EngramUploadPoll, Error>(
                    EngramUploadPoll::Pending,
                ) && final(self).ready is None,
                Ok(EngramGatherPoll::Cancelled) => r == Ok::<EngramUploadPoll, Error>(
                    EngramUploadPoll::Cancelled,
                ) && final(self).ready is None,
                Ok(EngramGatherPoll::Ready(gathered)) => match old(self).upload_error(&gathered) {
                    Some(reason) => r == Err::<EngramUploadPoll, Error>(reason)
                        && final(self).ready is None,
                    None => match work {
                        Err(reason) => r == Err::<EngramUploadPoll, Error>(reason)
                            && final(self).ready is None,
                        Ok(_) => {
                            &&& r == Ok::<EngramUploadPoll, Error>(
                                EngramUploadPoll::Ready(
                                    old(self).view_of(gathered.rows, gathered.layer_index),
                                ),
                            )
                            &&& final(self).ready == Some((gathered.rows, gathered.layer_index))
                        },
                    },
                },
            },
    {
        self.ready = None;
        match polled {
            Err(e) => Err(e),
            Ok(EngramGatherPoll::Pending) => Ok(EngramUploadPoll::Pending),
            Ok(EngramGatherPoll::Cancelled) => Ok(EngramUploadPoll::Cancelled),
            Ok(EngramGatherPoll::Ready(gathered)) => match self.upload(&gathered, work) {
                Err(e) => Err(e),
                Ok(view) => Ok(EngramUploadPoll::Ready(view)),
            },
        }
    }

    pub fn view(&self) -> (r: Result<EngramDeviceView, Error>)
        requires
            self.inv(),
        ensures
            r == match self.ready {
                None => Err::<EngramDeviceView, Error>(Error::EngramIncomplete),
                Some((rows, layer_index)) => Ok::<EngramDeviceView, Error>(
                    self.view_of(rows, layer_index),
                ),
            },
    {
        match self.ready {
            None => Err(Error::EngramIncomplete),
            Some((rows, layer_index)) => Ok(
                EngramDeviceView {
                    embeddings: self.embeddings.prefix(rows * TOKEN_EMBEDDING_BYTES),
                    text_mask: self.text_mask.prefix(rows),
                    rows,
                    layer_index,
                },
            ),
        }
    }
}

/// Compact weights and their scales share one allocation without overlapping,
/// whatever the number of rows.
pub proof fn law_compact_scales_follow_their_weights(
    rows: &EngramDeviceRows,
    gathered: &EngramGatherView,
)
    requires
        rows.inv(),
        rows.upload_error(gathered) is None,
        gathered.encoding is Nvfp4,
    ensures
        block::cut(rows.weights, gathered.weights@.len() as int).disjoint(
            rows.weights.slice_of(gathered.weights@.len() as int, gathered.scales@.len() as int),
        ),
        gathered.weights@.len() + gathered.scales@.len() <= rows.weights.bytes,
{
}

/// The uploads take the staged rows piece by piece, without gap or overlap, and each
/// piece lies within the lane's buffers: weights at their beginning, compact scales right
/// behind the weights and others at the beginning of their own buffer, the mask in its
/// own. What is published afterwards shows as many rows as were gathered.
pub proof fn law_uploads_take_every_gathered_byte(
    lane: &EngramDeviceRows,
    gathered: &EngramGatherView,
    uploads: Seq<EngramUpload>,
)
    requires
        lane.inv(),
        lane.upload_error(gathered) is None,
        lane.are_uploads(gathered, uploads),
    ensures
        uploads[0].offset == 0,
        uploads[1].offset == uploads[0].offset + uploads[0].bytes,
        uploads[2].offset == uploads[1].offset + uploads[1].bytes,
        uploads[0].bytes + uploads[1].bytes + uploads[2].bytes == gathered.weights@.len()
            + gathered.scales@.len() + gathered.text_mask@.len(),
        uploads[0].bytes == gathered.weights@.len() && uploads[2].bytes == gathered.rows,
        uploads[0].destination.device == lane.weights.device,
        uploads[0].destination.address == lane.weights.address,
        uploads[0].bytes <= uploads[0].destination.bytes,
        gathered.encoding is Nvfp4 ==> uploads[1].destination.device == lane.weights.device
            && uploads[1].destination.address == uploads[0].destination.address + uploads[0].bytes
            && uploads[1].destination.address + uploads[1].bytes <= lane.weights.address
            + lane.weights.bytes,
        gathered.encoding is Fp8 ==> uploads[1].destination == lane.scales && uploads[1].bytes
            <= lane.scales.bytes,
        uploads[2].destination == lane.text_mask,
        lane.view_of(gathered.rows, gathered.layer_index).text_mask.bytes == uploads[2].bytes,
        lane.view_of(gathered.rows, gathered.layer_index).text_mask.address
            == uploads[2].destination.address,
        lane.view_of(gathered.rows, gathered.layer_index).embeddings.bytes == gathered.rows * 24
            * 512,
        lane.view_of(gathered.rows, gathered.layer_index).embeddings.address
            == lane.embeddings.address,
        lane.view_of(gathered.rows, gathered.layer_index).rows == gathered.rows,
        lane.view_of(gathered.rows, gathered.layer_index).layer_index == gathered.layer_index,
{
    let rows = gathered.rows as int;
    if gathered.encoding is Nvfp4 {
        assert(rows * 24 * 128 == 3072 * rows);
        assert(rows * 24 * 16 == 384 * rows);
    } else {
        assert(rows * 24 * 256 == 6144 * rows);
        assert(rows * 24 * 8 == 192 * rows);
    }
}

/// The lane's buffers hold every gather of up to `capacity` rows, and are no larger than
/// a full one needs.
pub proof fn law_engram_storage_suits_full_gathers(
    lane: &EngramDeviceRows,
    gathered: &EngramGatherView,
)
    requires
        lane.inv(),
        lane.upload_error(gathered) is None,
    ensures
        gathered.encoding is Nvfp4 ==> gathered.weights@.len() + gathered.scales@.len()
            <= lane.weights.bytes,
        gathered.encoding is Fp8 ==> gathered.weights@.len() <= lane.weights.bytes
            && gathered.scales@.len() <= lane.scales.bytes,
        gathered.encoding is Fp8 && gathered.rows == lane.capacity ==> gathered.weights@.len()
            == lane.weights.bytes && gathered.scales@.len() == lane.scales.bytes,
{
    let rows = gathered.rows as int;
    if gathered.encoding is Nvfp4 {
        assert(rows * 24 * 128 == 3072 * rows);
        assert(rows * 24 * 16 == 384 * rows);
    } else {
        assert(rows * 24 * 256 == 6144 * rows);
        assert(rows * 24 * 8 == 192 * rows);
    }
}

} // verus!
