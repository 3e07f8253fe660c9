//! Failures reported by the daemon's host bookkeeping.
use crate::lane::Phase;
use crate::text;
use crate::text::{append_count, append_decimal};
use vstd::prelude::*;

verus! {

/// Capacity failure for one entry of an ordered append transaction. Binding and
/// ownership failures are deliberately other variants of `Error`.
#[derive(Debug, Clone, Copy, PartialEq, Eq, Structural)]
pub struct SourcePoolExhausted {
    pub work_index: usize,
    pub needed: usize,
    pub available: usize,
}

/// One variant per reason for which an operation is refused.
#[derive(Debug, Clone, Copy, PartialEq, Eq, Structural)]
pub enum Error {
    /// A byte count does not fit the machine's address space.
    BudgetOverflow,
    /// The device refused or failed some work.
    Device { code: i32 },
    InvalidPageCount,
    InvalidSlotCount,
    PendingAppend,
    PrefixTruncation,
    PrefixRowsExceedPages,
    PrefixExceedsTable,
    ForeignPrefix,
    ForeignPlan,
    AppendSlot,
    AppendBinding,
    StagingTooSmall,
    ReplicaPeer,
    ReplicaPopulated,
    ReplicaConfigured,
    ForeignReplica,
    ReplicaSlot,
    ReplicaRows,
    ReplicaMetadata,
    RestoredTruncated,
    AppendMissing,
    AppendOutsideReservation,
    PoolExhausted(SourcePoolExhausted),
    ProposalsExhausted,
    NotASource,
    CompressorSlots,
    CompressorContext,
    CompressorBudget,
    CompressorSlotTaken,
    DuplicateCompressorRequest,
    CompressorGenerations,
    ForeignCompressorLease,
    StaleCompressorLease,
    CompressedRestore,
    CompressorRestore,
    CompressorPrefixStorage,
    CompressorRows,
    CompressorChunk,
    CompressorPosition,
    CompressorRowOverflow,
    CompressorBatchRows,
    CompressorChunkContext,
    QueryOutsideProposal,
    CompressorWaveBudget,
    CacheQueryPending,
    CompressorCommitPending,
    CompressorLayer,
    CompressorBatchCount,
    CompressorIndexDevice,
    CompressorStateDevice,
    CompressorOutputIncomplete,
    CompressorOutputState,
    StaleCompressorOutput,
    ProposalRequestAbsent,
    CommittedRange,
    PeerProposalSnapshot,
    PeerProposalCache,
    PeerProposalStorage,
    ClearPendingQuery,
    ResetPendingCommit,
    SwitchPendingGraph,
    QueuedQueryDiffers,
    CompressorQuery,
    NoQueuedQuery,
    QueuedQueryOwner,
    QueryExecution,
    CompressorGraphCaptured,
    CompressorGraphMissing,
    CompressorGraphDiffers,
    CompressorCommitQueued,
    ProducerReplica,
    NoProposal,
    CommitBinding,
    StaleCompressorProposal,
    CompressorAcceptance,
    CompressorVersions,
    SourceCommitAbsent,
    QueuedSourceOwner,
    QueuedSourceBinding,
    AcceptanceChanged,
    SourceCommitIncomplete,
    ReplicaWaveUsed,
    ReplicaProducer,
    CompressorTransaction,
    WindowSlots,
    ForeignWindowLease,
    StaleWindowLease,
    WindowPending,
    WindowSlotTaken,
    DuplicateWindowRequest,
    WindowGenerations,
    WindowNotFresh,
    WindowRestore,
    WindowOutputIncomplete,
    WindowOutputState,
    StaleWindowOutput,
    WindowTransaction,
    WindowCommitQueued,
    WindowCommitIncomplete,
    PhaseTokens,
    CacheGpu,
    SourceGpu { source: usize },
    AttentionLayer,
    CachePoisoned,
    ForeignCacheLease,
    CacheRequestReleased,
    SnapshotPending,
    WindowHistory,
    SourceHistory,
    CacheBudget,
    CacheIdsExhausted,
    CacheSlotTaken,
    DuplicateCacheRequest,
    CacheGenerations,
    DuplicateCacheRelease,
    BatchWindowLayer,
    ReplaySources,
    BatchSourceLayer,
    BatchRequestRepeated,
    BatchCapacity,
    BatchRequestCount,
    EncoderReservation,
    PublicationPending,
    PhaseNeedsPrefill,
    PlanningPhase,
    MixedPhases,
    BatchContext,
    BatchIdsExhausted,
    StaleBatch,
    ForeignBatch,
    WindowOutsidePhase,
    BackboneSourceLayer,
    AttentionRequestCount,
    NoSelection,
    PublicationDiffers,
    SourcePresence,
    MissingSnapshot,
    AcceptedPrefix,
    CacheVersions,
    EncoderOrder,
    WindowDevice { layer: usize },
    SourceDevice { source: usize },
    CommitCount,
    ReservedIncomplete,
    PublishedAcceptance,
    ReplicatedBudget,
    ProducerCount,
    PassDiffers,
    DecoderSource,
    PassIncomplete,
    TraceExtent,
    TraceBuffer,
    ExecutionPhase,
    QueryPassLayer,
    ProductionIdentity,
    ProductionQueued,
    ProductionLayer,
    ProductionBatch,
    PublishedExecution,
    BoundaryReserved,
    BoundaryLayer,
    DecoderSourcePhase,
    DecoderSourceLayer,
    CompletedLayer,
    CommitPhase,
    DistributedPhase,
    PublicationRunning,
    DistributedIndex,
    ProductionMissing,
    PreparedIdentity,
    LaneDevice,
    CompletionIdentity,
    ResultDevice,
    BoundaryMissing,
    BoundaryIdentity,
    PublicationLayer,
    PublicationAbsent,
    PublicationIdentity,
    BlockAdvance,
    BlockAdvanceLayer,
    BlockRestart,
    PreviousBlock,
    PreviousBlockDevice,
    DecoderBoundary,
    BlockEngram,
    BlockEngramRows,
    BlockInput,
    BlockEmbedding,
    BlockEmbeddingDevice,
    BlockAttention,
    BlockQueryDevice,
    BlockAttentionResult,
    BlockAttentionPending,
    QueuedAttentionResult,
    QueuedAttentionPending,
    FfnReplay,
    FfnWarmup,
    QueuedFfnExtent,
    QueuedFfnAbsent,
    BlockFfnResult,
    BlockFfnPending,
    BlockUnpublished,
    TransferDevices,
    TransferExtent,
    ImportedBlock,
    TransferDestination,
    OutputLayer,
    OutputWeightsBudget,
    OutputWaveBudget,
    OutputWeightDevice,
    OutputUnbound,
    OutputBindingLayer,
    OutputRows,
    OutputCaptured,
    OutputGraphMissing,
    OutputGraphRows,
    OutputUnpublished,
    AttentionRebound,
    StreamBusy,
    AttentionUnbound,
    OutputOrigin,
    QueuedOutputOrigin,
    OutputContext,
    OutputChain,
    OutputSplit,
    OutputSplitPrefix,
    OutputShards,
    QueryWeightsBudget,
    QueryWaveBudget,
    QueryWeightDevice,
    QueryRows,
    QueryCaptured,
    QueryGraphMissing,
    QueryGraphRows,
    QueryUnpublished,
    QueryTokens,
    QuerySplit,
    QueryShards,
    RouterLayer,
    RouterGeometry,
    RouterWeightsBudget,
    RouterRows,
    RouterCaptured,
    RouterGraphMissing,
    RouterGraphRows,
    RouterUnpublished,
    RouterCapacity,
    RouterWaveBudget,
    RouterLibrary,
    RouterFormat,
    RouterDevice,
    RouteStaging,
    RouterStaged,
    RouterInput,
    RouterUnbound,
    RouteCapture,
    RouteCaptureStaging,
    RequestRows,
    LocalRouting,
    ExpertIdsExhausted,
    SharedLayer,
    SharedWeightsBudget,
    SharedUnbound,
    SharedRows,
    SharedCaptured,
    SharedGraphMissing,
    SharedGraphRows,
    SharedUnpublished,
    SharedWaveBudget,
    SharedLibrary,
    SharedInput,
    EngramCapacity,
    EngramBudget,
    EngramDimensions,
    EngramStorage,
    EngramIncomplete,
    EngramLayerIndex,
    EngramResident,
    EngramWeightsBudget,
    GateCapacity,
    GateOverflow,
    GateDestination,
    GateOverlap,
    GateInput,
    GateInputExtent,
    GateBudget,
    GateLayer,
    GateRows,
    GateCaptured,
    GateGraphMissing,
    GateGraphRows,
    GateIncomplete,
    LanePhase { expected: Phase, got: Phase },
    LaneWeightsOverflow,
    LaneWeightsBudget,
    LanePlacedOverflow,
    LanePlacedBudget,
    LaneCapacity,
    LanePlacedWorkspace,
    LaneSharedWeights,
    LaneZeroDevice,
    LaneDecoderDevice,
    LaneEmbedding,
    BlockQueryLayer,
    LaneTokens,
    LaneUnprepared,
    LaneQuery,
    LaneOutput,
    LaneFinal,
    LaneHandoff,
    LaneBudgetOverflow,
    LaneBudget,
    LaneLayers,
    LanePlaced,
    LaneGpu,
    LaneNoLayers,
    LaneQuerySplit,
    LaneOutputSplit,
    LaneDualAttention,
    LaneNoSuccessor,
    LaneImportDevice,
    LaneTp2Attention,
    LaneFullHead,
    LaneSelection,
    LaneIndexMissing,
    LaneFfnPending,
    LaneSharedPending,
    LaneSharedWorkspace,
    LaneDecoderShared,
    LaneRouteHistory,
    LaneSharedAbsent,
    PeerWindowLayer,
    PeerWindowAbsent,
    PeerWindowDevice,
    PeerBudget,
    PeerRequests,
    PeerRows,
    PeerSourceLayer,
    PeerSourceLayers,
    PeerSourceAbsent,
    PeerSourceDevice,
    PeerSelection,
    SinkBytes,
    WeightsBudget,
    WeightsOverflow,
    WorkspaceBudget,
    WindowWorkspace,
    SourceWorkspace,
    WeightsPlaced,
    WeightsIncomplete,
    WindowBatchEmpty,
    WindowBatchShape,
    SnapshotInstall,
    DraftInUse,
    DraftUnseeded,
    DraftEmpty,
    DraftRestore,
    DraftCopy,
    PrefixFrontier,
    PrefixBudget,
    SnapshotLane,
    SnapshotOccupied,
    SnapshotOwner,
    SnapshotIncomplete,
    EncoderPrefix,
    PrefixAdmission,
    EncoderContinuation,
    QueryLayer,
    QueryBindingsExhausted,
    QueryUnbound,
}

impl Phase {
    pub open spec fn label(self) -> Seq<char> {
        match self {
            Phase::Idle => "Idle"@,
            Phase::Prepared => "Prepared"@,
            Phase::Query => "Query"@,
            Phase::Ffn => "Ffn"@,
            Phase::SharedReady => "SharedReady"@,
            Phase::Complete => "Complete"@,
            Phase::Invalid => "Invalid"@,
        }
    }

    pub fn name(self) -> (r: &'static str)
        ensures
            r@ == self.label(),
    {
        match self {
            Phase::Idle => "Idle",
            Phase::Prepared => "Prepared",
            Phase::Query => "Query",
            Phase::Ffn => "Ffn",
            Phase::SharedReady => "SharedReady",
            Phase::Complete => "Complete",
            Phase::Invalid => "Invalid",
        }
    }
}

/// A signed number in decimal.
pub open spec fn signed(code: i32) -> Seq<char> {
    if code < 0 {
        "-"@ + text::decimal((-code) as nat)
    } else {
        text::decimal(code as nat)
    }
}

impl Error {
    /// The reason in words, where it needs no numbers.
    pub open spec fn phrase(self) -> Seq<char> {
        match self {
            Error::BudgetOverflow => "byte budget overflow"@,
            Error::InvalidPageCount => "invalid index pool page count"@,
            Error::InvalidSlotCount => "invalid index slot count"@,
            Error::PendingAppend => "compressed cache slot has a pending append"@,
            Error::PrefixTruncation => "source prefix truncation exceeds initialized rows"@,
            Error::PrefixRowsExceedPages => "allocated prefix rows exceed its pages"@,
            Error::PrefixExceedsTable => "source prefix exceeds initialized page table"@,
            Error::ForeignPrefix => "foreign source prefix or occupied destination"@,
            Error::ForeignPlan => "foreign or lost source reservation"@,
            Error::AppendSlot => "duplicate or invalid index slot"@,
            Error::AppendBinding => "index history binding differs"@,
            Error::StagingTooSmall => "source metadata staging too small"@,
            Error::ReplicaPeer => "source replica requires a peer device from the same library"@,
            Error::ReplicaPopulated => "source replica requires an empty source pool"@,
            Error::ReplicaConfigured => "source replica already configured"@,
            Error::ForeignReplica => "foreign source replica"@,
            Error::ReplicaSlot => "replica slot out of range"@,
            Error::ReplicaRows => "replica view exceeds committed rows"@,
            Error::ReplicaMetadata => "source replica metadata extent differs"@,
            Error::RestoredTruncated => "restored source prefix is truncated"@,
            Error::AppendMissing => "index append missing"@,
            Error::AppendOutsideReservation => "index append outside reservation"@,
            Error::ProposalsExhausted => "compressor proposal IDs exhausted"@,
            Error::NotASource => "layer is not a V4.1 compressor source"@,
            Error::CompressorSlots => "invalid compressor slot count"@,
            Error::CompressorContext => "invalid compressor context"@,
            Error::CompressorBudget => "compressor state exceeds budget"@,
            Error::CompressorSlotTaken => "compressor slot unavailable"@,
            Error::DuplicateCompressorRequest => "duplicate compressor request"@,
            Error::CompressorGenerations => "compressor generation exhausted"@,
            Error::ForeignCompressorLease => "foreign compressor lease"@,
            Error::StaleCompressorLease => "stale compressor lease"@,
            Error::CompressedRestore => "foreign, unaligned or nonfresh compressed prefix restore"@,
            Error::CompressorRestore => "foreign compressor prefix or nonfresh destination"@,
            Error::CompressorPrefixStorage => "compressor prefix storage size differs"@,
            Error::CompressorRows => "invalid compressor row capacity"@,
            Error::CompressorChunk => "duplicate or empty compressor chunk"@,
            Error::CompressorPosition => "compressor position is not the committed end"@,
            Error::CompressorRowOverflow => "compressor row overflow"@,
            Error::CompressorBatchRows => "compressor batch exceeds row capacity"@,
            Error::CompressorChunkContext => "compressor chunk exceeds model context"@,
            Error::QueryOutsideProposal => "query position is outside its compressor proposal"@,
            Error::CompressorWaveBudget => "compressor wave exceeds budget"@,
            Error::CacheQueryPending => "cache query production pending"@,
            Error::CompressorCommitPending => "compressor commit pending"@,
            Error::CompressorLayer => "compressor source layer differs"@,
            Error::CompressorBatchCount => "invalid compressor batch count"@,
            Error::CompressorIndexDevice => "compressor index cache device differs"@,
            Error::CompressorStateDevice => "compressor state device differs"@,
            Error::CompressorOutputIncomplete => "compressor output incomplete"@,
            Error::CompressorOutputState => "compressor output state differs"@,
            Error::StaleCompressorOutput => "stale compressor output"@,
            Error::ProposalRequestAbsent => "request is absent from compressor proposal"@,
            Error::CommittedRange => "invalid committed source range"@,
            Error::PeerProposalSnapshot => "peer compressed proposal snapshot differs"@,
            Error::PeerProposalCache => "peer compressed proposal cache differs"@,
            Error::PeerProposalStorage => "peer compressed proposal storage differs"@,
            Error::ClearPendingQuery => "cannot clear pending cache query"@,
            Error::ResetPendingCommit => "cannot reset a pending source commit"@,
            Error::SwitchPendingGraph => "cannot switch a pending cache producer graph"@,
            Error::QueuedQueryDiffers => "queued cache query differs"@,
            Error::CompressorQuery => "compressor query layer, rows or positions differ"@,
            Error::NoQueuedQuery => "no queued cache query"@,
            Error::QueuedQueryOwner => "queued cache owner differs"@,
            Error::QueryExecution => "cache query execution failed"@,
            Error::CompressorGraphCaptured => "compressor graph already captured"@,
            Error::CompressorGraphMissing => "compressor graph is not captured"@,
            Error::CompressorGraphDiffers => "compressor capture binding differs"@,
            Error::CompressorCommitQueued => "compressor commit already pending"@,
            Error::ProducerReplica => "compressor producer replica is not configured"@,
            Error::NoProposal => "compressor has no proposal to commit"@,
            Error::CommitBinding => "compressor commit binding differs"@,
            Error::StaleCompressorProposal => "stale compressor proposal"@,
            Error::CompressorAcceptance => "compressor acceptance exceeds proposal"@,
            Error::CompressorVersions => "compressor version exhausted"@,
            Error::SourceCommitAbsent => "source commit absent"@,
            Error::QueuedSourceOwner => "queued source owner differs"@,
            Error::QueuedSourceBinding => "queued source binding changed"@,
            Error::AcceptanceChanged => "queued source acceptance changed"@,
            Error::SourceCommitIncomplete => "source commit incomplete"@,
            Error::ReplicaWaveUsed => "source replica requires an unused wave"@,
            Error::ReplicaProducer => "source replica producer differs"@,
            Error::CompressorTransaction => "compressor transaction proposal differs"@,
            Error::WindowSlots => "invalid window slot count"@,
            Error::ForeignWindowLease => "foreign window lease"@,
            Error::StaleWindowLease => "stale window lease"@,
            Error::WindowPending => "window slot has pending writes"@,
            Error::WindowSlotTaken => "window slot unavailable"@,
            Error::DuplicateWindowRequest => "duplicate window request"@,
            Error::WindowGenerations => "window generation exhausted"@,
            Error::WindowNotFresh => "window request is not fresh"@,
            Error::WindowRestore => "foreign window prefix or nonfresh destination"@,
            Error::WindowOutputIncomplete => "window output incomplete"@,
            Error::WindowOutputState => "window output state differs"@,
            Error::StaleWindowOutput => "stale window output"@,
            Error::WindowTransaction => "window transaction proposal differs"@,
            Error::WindowCommitQueued => "window commit already pending"@,
            Error::WindowCommitIncomplete => "window commit incomplete"@,
            Error::PhaseTokens => "tokens exceed the cache phase"@,
            Error::CacheGpu => "cache GPU must be zero or one"@,
            Error::AttentionLayer => "invalid attention layer"@,
            Error::CachePoisoned => "backbone cache must be recreated after initialization or cleanup failure"@,
            Error::ForeignCacheLease => "foreign or stale backbone cache lease"@,
            Error::CacheRequestReleased => "backbone cache request released"@,
            Error::SnapshotPending => "backbone request has pending snapshot copies"@,
            Error::WindowHistory => "window request history differs"@,
            Error::SourceHistory => "source request history differs"@,
            Error::CacheBudget => "backbone cache exceeds budget"@,
            Error::CacheIdsExhausted => "backbone cache IDs exhausted"@,
            Error::CacheSlotTaken => "backbone cache slot unavailable"@,
            Error::DuplicateCacheRequest => "duplicate backbone cache request"@,
            Error::CacheGenerations => "cache generation exhausted"@,
            Error::DuplicateCacheRelease => "duplicate cache release"@,
            Error::BatchWindowLayer => "invalid batch window layer for phase"@,
            Error::ReplaySources => "decoder replay cannot produce global sources"@,
            Error::BatchSourceLayer => "invalid batch source layer"@,
            Error::BatchRequestRepeated => "empty or duplicate cache batch request"@,
            Error::BatchCapacity => "cache batch exceeds lane capacity"@,
            Error::BatchRequestCount => "invalid cache batch request count"@,
            Error::EncoderReservation => "encoder reservation capacity or phase differs"@,
            Error::PublicationPending => "encoder chunk publication is still pending"@,
            Error::PhaseNeedsPrefill => "CED phase requires prefill work"@,
            Error::PlanningPhase => "wrong cache planning phase"@,
            Error::MixedPhases => "mixed cache phases in batch"@,
            Error::BatchContext => "cache batch exceeds model context"@,
            Error::BatchIdsExhausted => "cache batch IDs exhausted"@,
            Error::StaleBatch => "stale backbone cache batch"@,
            Error::ForeignBatch => "foreign backbone cache batch"@,
            Error::WindowOutsidePhase => "window outside cache phase"@,
            Error::BackboneSourceLayer => "invalid backbone source layer"@,
            Error::AttentionRequestCount => "invalid fixed attention request count"@,
            Error::NoSelection => "window-only layers have no index selection"@,
            Error::PublicationDiffers => "encoder publication differs between requests"@,
            Error::SourcePresence => "attention batch source presence differs"@,
            Error::MissingSnapshot => "missing committed source snapshot"@,
            Error::AcceptedPrefix => "backbone accepted prefix exceeds proposal"@,
            Error::CacheVersions => "backbone cache version exhausted"@,
            Error::EncoderOrder => "encoder chunks must complete in order"@,
            Error::CommitCount => "backbone commit owner/count differs"@,
            Error::ReservedIncomplete => "reserved encoder completion requires all KV published"@,
            Error::PublishedAcceptance => "published encoder chunk requires full acceptance"@,
            Error::ReplicatedBudget => "replicated cache exceeds a device budget"@,
            Error::ProducerCount => "replicated producer layer count differs"@,
            Error::PassDiffers => "backbone pass batch or layer differs; restart required"@,
            Error::DecoderSource => "decoder source requires this batch's complete encoder pass"@,
            Error::PassIncomplete => "cache commit requires this batch's complete execution phase"@,
            Error::TraceExtent => "FFN trace extent exceeded"@,
            Error::TraceBuffer => "FFN trace buffer exceeded"@,
            Error::ExecutionPhase => "backbone execution/cache phase differs"@,
            Error::QueryPassLayer => "backbone query layer differs from pass"@,
            Error::ProductionIdentity => "queued cache production identity differs"@,
            Error::ProductionQueued => "prior queued production not consumed"@,
            Error::ProductionLayer => "queued production layer or stage differs"@,
            Error::ProductionBatch => "queued production batch differs"@,
            Error::PublishedExecution => "published execution requires a reserved encoder batch"@,
            Error::BoundaryReserved => "encoder boundary publication requires reserved prefill"@,
            Error::BoundaryLayer => "encoder boundary projection layer differs"@,
            Error::DecoderSourcePhase => "decoder source batch phase differs"@,
            Error::DecoderSourceLayer => "decoder source requires layer-20 projection input"@,
            Error::CompletedLayer => "completed backbone layer identity differs"@,
            Error::CommitPhase => "backbone commit/cache phase differs"@,
            Error::DistributedPhase => "distributed production phase or pending result differs"@,
            Error::PublicationRunning => "encoder publication still pending"@,
            Error::DistributedIndex => "distributed index producer presence differs"@,
            Error::ProductionMissing => "distributed layer production incomplete"@,
            Error::PreparedIdentity => "distributed prepared layer identity differs"@,
            Error::LaneDevice => "distributed lane and cache GPUs differ"@,
            Error::CompletionIdentity => "distributed completion identity differs"@,
            Error::ResultDevice => "distributed FFN result GPU differs"@,
            Error::BoundaryMissing => "distributed encoder boundary incomplete"@,
            Error::BoundaryIdentity => "distributed encoder boundary identity differs"@,
            Error::PublicationLayer => "encoder publication requires this completed layer"@,
            Error::PublicationAbsent => "encoder publication absent"@,
            Error::PublicationIdentity => "encoder publication identity differs or writes pending"@,
            Error::BlockAdvance => "block advance requires a completed FFN"@,
            Error::BlockAdvanceLayer => "block advance layer or identity differs"@,
            Error::BlockRestart => "block restart requires layer zero and an idle or completed sequence"@,
            Error::PreviousBlock => "previous block layer, tokens or extents differ"@,
            Error::PreviousBlockDevice => "previous block device differs"@,
            Error::DecoderBoundary => "invalid encoder/decoder boundary"@,
            Error::BlockEngram => "block is not awaiting engram"@,
            Error::BlockEngramRows => "block engram layer or rows differ"@,
            Error::BlockInput => "block input is not prepared; engram may be pending"@,
            Error::BlockEmbedding => "initial block embedding geometry differs"@,
            Error::BlockEmbeddingDevice => "initial block device differs"@,
            Error::BlockAttention => "block attention layer or tokens differ"@,
            Error::BlockQueryDevice => "block query device differs"@,
            Error::BlockAttentionResult => "block attention result differs"@,
            Error::BlockAttentionPending => "block attention is not pending"@,
            Error::QueuedAttentionResult => "queued block attention result differs"@,
            Error::QueuedAttentionPending => "block attention is not pending for queued FFN"@,
            Error::FfnReplay => "FFN graph replay query differs"@,
            Error::FfnWarmup => "FFN graph warmup query differs"@,
            Error::QueuedFfnExtent => "queued normalized FFN extent differs"@,
            Error::QueuedFfnAbsent => "block has no queued FFN"@,
            Error::BlockFfnResult => "block FFN result binding differs"@,
            Error::BlockFfnPending => "block FFN is not pending"@,
            Error::BlockUnpublished => "block output unpublished"@,
            Error::TransferDevices => "block transfer requires different GPUs"@,
            Error::TransferExtent => "block transfer devices or extents differ"@,
            Error::ImportedBlock => "imported block layer, tokens or extents differ"@,
            Error::TransferDestination => "block transfer destination differs"@,
            Error::OutputLayer => "invalid backbone output layer"@,
            Error::OutputWeightsBudget => "attention output weights exceed budget"@,
            Error::OutputWaveBudget => "attention output wave exceeds budget"@,
            Error::OutputWeightDevice => "output weight device differs"@,
            Error::OutputUnbound => "attention projection has no query origin"@,
            Error::OutputBindingLayer => "attention projection layer differs"@,
            Error::OutputRows => "attention output rows exceed capacity"@,
            Error::OutputCaptured => "attention output graph already captured"@,
            Error::OutputGraphMissing => "attention output graph missing"@,
            Error::OutputGraphRows => "attention output capture row count differs"@,
            Error::OutputUnpublished => "attention output unpublished"@,
            Error::AttentionRebound => "attention rebound weight library or device differs"@,
            Error::StreamBusy => "stream has unfinished work"@,
            Error::AttentionUnbound => "attention has no query origin"@,
            Error::OutputOrigin => "attention output origin differs"@,
            Error::QueuedOutputOrigin => "queued attention output origin differs"@,
            Error::OutputContext => "projection graph positions exceed context"@,
            Error::OutputChain => "projection graph origin differs"@,
            Error::OutputSplit => "split output-B requires TP2 execution"@,
            Error::OutputSplitPrefix => "split output prefix differs"@,
            Error::OutputShards => "output projection owner differs"@,
            Error::QueryWeightsBudget => "attention query weights exceed budget"@,
            Error::QueryWaveBudget => "attention query wave exceeds budget"@,
            Error::QueryWeightDevice => "query weight device differs"@,
            Error::QueryRows => "query rows exceed capacity"@,
            Error::QueryCaptured => "attention query graph already captured"@,
            Error::QueryGraphMissing => "attention query graph missing"@,
            Error::QueryGraphRows => "attention query capture row count differs"@,
            Error::QueryUnpublished => "attention query output unpublished"@,
            Error::QueryTokens => "invalid query tokens"@,
            Error::QuerySplit => "split query-B weights require TP2 execution"@,
            Error::QueryShards => "TP2 query origin differs"@,
            Error::RouterLayer => "invalid backbone router layer"@,
            Error::RouterGeometry => "unexpected backbone router weight geometry"@,
            Error::RouterWeightsBudget => "backbone router weights exceed budget"@,
            Error::RouterRows => "backbone router rows exceed capacity"@,
            Error::RouterCaptured => "backbone router graph already captured"@,
            Error::RouterGraphMissing => "backbone router graph missing"@,
            Error::RouterGraphRows => "backbone router captured rows differ"@,
            Error::RouterUnpublished => "backbone router output unpublished"@,
            Error::RouterCapacity => "invalid backbone router capacity"@,
            Error::RouterWaveBudget => "backbone router wave exceeds budget"@,
            Error::RouterLibrary => "router rebound library differs"@,
            Error::RouterFormat => "router cannot rebind across expert wire formats"@,
            Error::RouterDevice => "router rebound weight device differs"@,
            Error::RouteStaging => "local route staging too small"@,
            Error::RouterStaged => "invalid router staged input"@,
            Error::RouterInput => "backbone router block input differs"@,
            Error::RouterUnbound => "backbone router output has no block origin"@,
            Error::RouteCapture => "invalid route capture extent"@,
            Error::RouteCaptureStaging => "route capture staging extent differs"@,
            Error::RequestRows => "router request rows differ from block"@,
            Error::LocalRouting => "local router output has no remote request payload"@,
            Error::ExpertIdsExhausted => "native expert request IDs exhausted"@,
            Error::SharedLayer => "invalid backbone shared FFN layer"@,
            Error::SharedWeightsBudget => "backbone shared weights exceed budget"@,
            Error::SharedUnbound => "shared FFN output has no block origin"@,
            Error::SharedRows => "shared FFN rows exceed capacity"@,
            Error::SharedCaptured => "shared FFN graph already captured"@,
            Error::SharedGraphMissing => "shared FFN graph missing"@,
            Error::SharedGraphRows => "shared FFN captured rows differ"@,
            Error::SharedUnpublished => "shared FFN output unpublished"@,
            Error::SharedWaveBudget => "backbone shared wave exceeds budget"@,
            Error::SharedLibrary => "shared FFN rebound weight library differs"@,
            Error::SharedInput => "shared FFN block input differs"@,
            Error::EngramCapacity => "invalid engram device capacity"@,
            Error::EngramBudget => "engram rows exceed device budget"@,
            Error::EngramDimensions => "invalid gathered engram dimensions"@,
            Error::EngramStorage => "invalid gathered engram storage"@,
            Error::EngramIncomplete => "engram device rows are not complete"@,
            Error::EngramLayerIndex => "invalid engram layer index"@,
            Error::EngramResident => "engram resident budget overflow"@,
            Error::EngramWeightsBudget => "engram weights and packed scales exceed device budget"@,
            Error::GateCapacity => "invalid engram gate capacity"@,
            Error::GateOverflow => "engram execution budget overflow"@,
            Error::GateDestination => "engram destination extent overflow"@,
            Error::GateOverlap => "engram input overlaps another owned input destination"@,
            Error::GateInput => "engram input is null or too small"@,
            Error::GateInputExtent => "engram input extent overflow"@,
            Error::GateBudget => "engram execution exceeds device budget"@,
            Error::GateLayer => "engram gate layer mismatch"@,
            Error::GateRows => "engram gate exceeds capacity"@,
            Error::GateCaptured => "engram graph is already captured"@,
            Error::GateGraphMissing => "engram graph has not been captured"@,
            Error::GateGraphRows => "engram replay row count differs from capture"@,
            Error::GateIncomplete => "engram gate output is not complete"@,
            Error::LaneWeightsOverflow => "backbone weight budget overflow"@,
            Error::LaneWeightsBudget => "backbone lane weights exceed budget"@,
            Error::LanePlacedOverflow => "placed backbone weights overflow"@,
            Error::LanePlacedBudget => "backbone weights exceed a GPU budget"@,
            Error::LaneCapacity => "invalid backbone lane capacity"@,
            Error::LanePlacedWorkspace => "placed backbone workspace overflow"@,
            Error::LaneSharedWeights => "local shared weights absent"@,
            Error::LaneZeroDevice => "layer zero belongs to another GPU"@,
            Error::LaneDecoderDevice => "decoder belongs to another GPU"@,
            Error::LaneEmbedding => "embedding requires layer zero"@,
            Error::BlockQueryLayer => "initial block query layer differs"@,
            Error::LaneTokens => "invalid token entry"@,
            Error::LaneUnprepared => "backbone lane input not prepared"@,
            Error::LaneQuery => "backbone lane query unavailable"@,
            Error::LaneOutput => "backbone lane output unavailable"@,
            Error::LaneFinal => "backbone lane is at final layer"@,
            Error::LaneHandoff => "next layer needs a peer handoff"@,
            Error::LaneBudgetOverflow => "backbone lane budget overflow"@,
            Error::LaneBudget => "backbone lane exceeds budget"@,
            Error::LaneLayers => "backbone lane requires all 40 layers"@,
            Error::LanePlaced => "placed backbone weights require GPU-owned lanes"@,
            Error::LaneGpu => "placed backbone lane requires distributed weights and GPU 0 or 1"@,
            Error::LaneNoLayers => "GPU owns no backbone layers"@,
            Error::LaneQuerySplit => "query split configuration differs"@,
            Error::LaneOutputSplit => "output split configuration differs"@,
            Error::LaneDualAttention => "dual attention requires an unused lane"@,
            Error::LaneNoSuccessor => "final layer has no successor"@,
            Error::LaneImportDevice => "imported layer belongs to another GPU"@,
            Error::LaneTp2Attention => "TP2 output requires cooperative attention completion"@,
            Error::LaneFullHead => "direct attention requires full-head mode"@,
            Error::LaneSelection => "attention index selection presence differs"@,
            Error::LaneIndexMissing => "attention index lane missing"@,
            Error::LaneFfnPending => "lane FFN work is not pending"@,
            Error::LaneSharedPending => "lane shared FFN is not pending"@,
            Error::LaneSharedWorkspace => "local shared workspace absent; TP2 required"@,
            Error::LaneDecoderShared => "decoder shared TP2 execution required"@,
            Error::LaneRouteHistory => "route history reservation exceeds model bounds"@,
            Error::LaneSharedAbsent => "local shared workspace absent"@,
            Error::PeerWindowLayer => "invalid peer window layer"@,
            Error::PeerWindowAbsent => "peer window cache absent"@,
            Error::PeerWindowDevice => "peer window device differs"@,
            Error::PeerBudget => "peer attention inputs exceed budget"@,
            Error::PeerRequests => "invalid peer attention requests"@,
            Error::PeerRows => "peer attention rows exceed capacity"@,
            Error::PeerSourceLayer => "invalid peer source layer"@,
            Error::PeerSourceLayers => "peer source layers differ"@,
            Error::PeerSourceAbsent => "peer source cache absent"@,
            Error::PeerSourceDevice => "peer source device differs"@,
            Error::PeerSelection => "peer selection exceeds capacity"@,
            Error::SinkBytes => "unexpected backbone attention sink size"@,
            Error::WeightsBudget => "cache producer weights exceed budget"@,
            Error::WeightsOverflow => "cache producer weights overflow"@,
            Error::WorkspaceBudget => "cache producer workspace exceeds budget"@,
            Error::WindowWorkspace => "window workspace budget overflow"@,
            Error::SourceWorkspace => "source workspace budget overflow"@,
            Error::WeightsPlaced => "distributed producer weights require placed execution workspaces"@,
            Error::WeightsIncomplete => "cache producer weight owners incomplete"@,
            Error::WindowBatchEmpty => "empty window batch"@,
            Error::WindowBatchShape => "window batch shape differs"@,
            Error::SnapshotInstall => "snapshot arena must be installed before admission"@,
            Error::DraftInUse => "draft window is in use"@,
            Error::DraftUnseeded => "cannot retain an unseeded draft window"@,
            Error::DraftEmpty => "cannot retain an empty draft window"@,
            Error::DraftRestore => "foreign draft prefix or nonfresh window"@,
            Error::DraftCopy => "draft window copy failed"@,
            Error::PrefixFrontier => "prefix retention requires a complete request frontier"@,
            Error::PrefixBudget => "retained backbone tail exceeds budget"@,
            Error::SnapshotLane => "invalid snapshot lane"@,
            Error::SnapshotOccupied => "backbone snapshot lane is occupied"@,
            Error::SnapshotOwner => "backbone snapshot owner differs"@,
            Error::SnapshotIncomplete => "backbone snapshot copies are incomplete"@,
            Error::EncoderPrefix => "invalid encoder prefix restore frontier or owner"@,
            Error::PrefixAdmission => "foreign backbone prefix or nonfresh admission"@,
            Error::EncoderContinuation => "encoder continuation must cover the final decoder window"@,
            Error::QueryLayer => "invalid backbone query layer"@,
            Error::QueryBindingsExhausted => "query binding IDs exhausted"@,
            Error::QueryUnbound => "query has no token binding"@,
            _ => Seq::empty(),
        }
    }

    fn fixed(self) -> (r: &'static str)
        requires
            !self.detailed(),
        ensures
            r@ == self.phrase(),
    {
        match self {
            Error::BudgetOverflow => "byte budget overflow",
            Error::InvalidPageCount => "invalid index pool page count",
            Error::InvalidSlotCount => "invalid index slot count",
            Error::PendingAppend => "compressed cache slot has a pending append",
            Error::PrefixTruncation => "source prefix truncation exceeds initialized rows",
            Error::PrefixRowsExceedPages => "allocated prefix rows exceed its pages",
            Error::PrefixExceedsTable => "source prefix exceeds initialized page table",
            Error::ForeignPrefix => "foreign source prefix or occupied destination",
            Error::ForeignPlan => "foreign or lost source reservation",
            Error::AppendSlot => "duplicate or invalid index slot",
            Error::AppendBinding => "index history binding differs",
            Error::StagingTooSmall => "source metadata staging too small",
            Error::ReplicaPeer => "source replica requires a peer device from the same library",
            Error::ReplicaPopulated => "source replica requires an empty source pool",
            Error::ReplicaConfigured => "source replica already configured",
            Error::ForeignReplica => "foreign source replica",
            Error::ReplicaSlot => "replica slot out of range",
            Error::ReplicaRows => "replica view exceeds committed rows",
            Error::ReplicaMetadata => "source replica metadata extent differs",
            Error::RestoredTruncated => "restored source prefix is truncated",
            Error::AppendMissing => "index append missing",
            Error::AppendOutsideReservation => "index append outside reservation",
            Error::ProposalsExhausted => "compressor proposal IDs exhausted",
            Error::NotASource => "layer is not a V4.1 compressor source",
            Error::CompressorSlots => "invalid compressor slot count",
            Error::CompressorContext => "invalid compressor context",
            Error::CompressorBudget => "compressor state exceeds budget",
            Error::CompressorSlotTaken => "compressor slot unavailable",
            Error::DuplicateCompressorRequest => "duplicate compressor request",
            Error::CompressorGenerations => "compressor generation exhausted",
            Error::ForeignCompressorLease => "foreign compressor lease",
            Error::StaleCompressorLease => "stale compressor lease",
            Error::CompressedRestore => "foreign, unaligned or nonfresh compressed prefix restore",
            Error::CompressorRestore => "foreign compressor prefix or nonfresh destination",
            Error::CompressorPrefixStorage => "compressor prefix storage size differs",
            Error::CompressorRows => "invalid compressor row capacity",
            Error::CompressorChunk => "duplicate or empty compressor chunk",
            Error::CompressorPosition => "compressor position is not the committed end",
            Error::CompressorRowOverflow => "compressor row overflow",
            Error::CompressorBatchRows => "compressor batch exceeds row capacity",
            Error::CompressorChunkContext => "compressor chunk exceeds model context",
            Error::QueryOutsideProposal => "query position is outside its compressor proposal",
            Error::CompressorWaveBudget => "compressor wave exceeds budget",
            Error::CacheQueryPending => "cache query production pending",
            Error::CompressorCommitPending => "compressor commit pending",
            Error::CompressorLayer => "compressor source layer differs",
            Error::CompressorBatchCount => "invalid compressor batch count",
            Error::CompressorIndexDevice => "compressor index cache device differs",
            Error::CompressorStateDevice => "compressor state device differs",
            Error::CompressorOutputIncomplete => "compressor output incomplete",
            Error::CompressorOutputState => "compressor output state differs",
            Error::StaleCompressorOutput => "stale compressor output",
            Error::ProposalRequestAbsent => "request is absent from compressor proposal",
            Error::CommittedRange => "invalid committed source range",
            Error::PeerProposalSnapshot => "peer compressed proposal snapshot differs",
            Error::PeerProposalCache => "peer compressed proposal cache differs",
            Error::PeerProposalStorage => "peer compressed proposal storage differs",
            Error::ClearPendingQuery => "cannot clear pending cache query",
            Error::ResetPendingCommit => "cannot reset a pending source commit",
            Error::SwitchPendingGraph => "cannot switch a pending cache producer graph",
            Error::QueuedQueryDiffers => "queued cache query differs",
            Error::CompressorQuery => "compressor query layer, rows or positions differ",
            Error::NoQueuedQuery => "no queued cache query",
            Error::QueuedQueryOwner => "queued cache owner differs",
            Error::QueryExecution => "cache query execution failed",
            Error::CompressorGraphCaptured => "compressor graph already captured",
            Error::CompressorGraphMissing => "compressor graph is not captured",
            Error::CompressorGraphDiffers => "compressor capture binding differs",
            Error::CompressorCommitQueued => "compressor commit already pending",
            Error::ProducerReplica => "compressor producer replica is not configured",
            Error::NoProposal => "compressor has no proposal to commit",
            Error::CommitBinding => "compressor commit binding differs",
            Error::StaleCompressorProposal => "stale compressor proposal",
            Error::CompressorAcceptance => "compressor acceptance exceeds proposal",
            Error::CompressorVersions => "compressor version exhausted",
            Error::SourceCommitAbsent => "source commit absent",
            Error::QueuedSourceOwner => "queued source owner differs",
            Error::QueuedSourceBinding => "queued source binding changed",
            Error::AcceptanceChanged => "queued source acceptance changed",
            Error::SourceCommitIncomplete => "source commit incomplete",
            Error::ReplicaWaveUsed => "source replica requires an unused wave",
            Error::ReplicaProducer => "source replica producer differs",
            Error::CompressorTransaction => "compressor transaction proposal differs",
            Error::WindowSlots => "invalid window slot count",
            Error::ForeignWindowLease => "foreign window lease",
            Error::StaleWindowLease => "stale window lease",
            Error::WindowPending => "window slot has pending writes",
            Error::WindowSlotTaken => "window slot unavailable",
            Error::DuplicateWindowRequest => "duplicate window request",
            Error::WindowGenerations => "window generation exhausted",
            Error::WindowNotFresh => "window request is not fresh",
            Error::WindowRestore => "foreign window prefix or nonfresh destination",
            Error::WindowOutputIncomplete => "window output incomplete",
            Error::WindowOutputState => "window output state differs",
            Error::StaleWindowOutput => "stale window output",
            Error::WindowTransaction => "window transaction proposal differs",
            Error::WindowCommitQueued => "window commit already pending",
            Error::WindowCommitIncomplete => "window commit incomplete",
            Error::PhaseTokens => "tokens exceed the cache phase",
            Error::CacheGpu => "cache GPU must be zero or one",
            Error::AttentionLayer => "invalid attention layer",
            Error::CachePoisoned => "backbone cache must be recreated after initialization or cleanup failure",
            Error::ForeignCacheLease => "foreign or stale backbone cache lease",
            Error::CacheRequestReleased => "backbone cache request released",
            Error::SnapshotPending => "backbone request has pending snapshot copies",
            Error::WindowHistory => "window request history differs",
            Error::SourceHistory => "source request history differs",
            Error::CacheBudget => "backbone cache exceeds budget",
            Error::CacheIdsExhausted => "backbone cache IDs exhausted",
            Error::CacheSlotTaken => "backbone cache slot unavailable",
            Error::DuplicateCacheRequest => "duplicate backbone cache request",
            Error::CacheGenerations => "cache generation exhausted",
            Error::DuplicateCacheRelease => "duplicate cache release",
            Error::BatchWindowLayer => "invalid batch window layer for phase",
            Error::ReplaySources => "decoder replay cannot produce global sources",
            Error::BatchSourceLayer => "invalid batch source layer",
            Error::BatchRequestRepeated => "empty or duplicate cache batch request",
            Error::BatchCapacity => "cache batch exceeds lane capacity",
            Error::BatchRequestCount => "invalid cache batch request count",
            Error::EncoderReservation => "encoder reservation capacity or phase differs",
            Error::PublicationPending => "encoder chunk publication is still pending",
            Error::PhaseNeedsPrefill => "CED phase requires prefill work",
            Error::PlanningPhase => "wrong cache planning phase",
            Error::MixedPhases => "mixed cache phases in batch",
            Error::BatchContext => "cache batch exceeds model context",
            Error::BatchIdsExhausted => "cache batch IDs exhausted",
            Error::StaleBatch => "stale backbone cache batch",
            Error::ForeignBatch => "foreign backbone cache batch",
            Error::WindowOutsidePhase => "window outside cache phase",
            Error::BackboneSourceLayer => "invalid backbone source layer",
            Error::AttentionRequestCount => "invalid fixed attention request count",
            Error::NoSelection => "window-only layers have no index selection",
            Error::PublicationDiffers => "encoder publication differs between requests",
            Error::SourcePresence => "attention batch source presence differs",
            Error::MissingSnapshot => "missing committed source snapshot",
            Error::AcceptedPrefix => "backbone accepted prefix exceeds proposal",
            Error::CacheVersions => "backbone cache version exhausted",
            Error::EncoderOrder => "encoder chunks must complete in order",
            Error::CommitCount => "backbone commit owner/count differs",
            Error::ReservedIncomplete => "reserved encoder completion requires all KV published",
            Error::PublishedAcceptance => "published encoder chunk requires full acceptance",
            Error::ReplicatedBudget => "replicated cache exceeds a device budget",
            Error::ProducerCount => "replicated producer layer count differs",
            Error::PassDiffers => "backbone pass batch or layer differs; restart required",
            Error::DecoderSource => "decoder source requires this batch's complete encoder pass",
            Error::PassIncomplete => "cache commit requires this batch's complete execution phase",
            Error::TraceExtent => "FFN trace extent exceeded",
            Error::TraceBuffer => "FFN trace buffer exceeded",
            Error::ExecutionPhase => "backbone execution/cache phase differs",
            Error::QueryPassLayer => "backbone query layer differs from pass",
            Error::ProductionIdentity => "queued cache production identity differs",
            Error::ProductionQueued => "prior queued production not consumed",
            Error::ProductionLayer => "queued production layer or stage differs",
            Error::ProductionBatch => "queued production batch differs",
            Error::PublishedExecution => "published execution requires a reserved encoder batch",
            Error::BoundaryReserved => "encoder boundary publication requires reserved prefill",
            Error::BoundaryLayer => "encoder boundary projection layer differs",
            Error::DecoderSourcePhase => "decoder source batch phase differs",
            Error::DecoderSourceLayer => "decoder source requires layer-20 projection input",
            Error::CompletedLayer => "completed backbone layer identity differs",
            Error::CommitPhase => "backbone commit/cache phase differs",
            Error::DistributedPhase => "distributed production phase or pending result differs",
            Error::PublicationRunning => "encoder publication still pending",
            Error::DistributedIndex => "distributed index producer presence differs",
            Error::ProductionMissing => "distributed layer production incomplete",
            Error::PreparedIdentity => "distributed prepared layer identity differs",
            Error::LaneDevice => "distributed lane and cache GPUs differ",
            Error::CompletionIdentity => "distributed completion identity differs",
            Error::ResultDevice => "distributed FFN result GPU differs",
            Error::BoundaryMissing => "distributed encoder boundary incomplete",
            Error::BoundaryIdentity => "distributed encoder boundary identity differs",
            Error::PublicationLayer => "encoder publication requires this completed layer",
            Error::PublicationAbsent => "encoder publication absent",
            Error::PublicationIdentity => "encoder publication identity differs or writes pending",
            Error::BlockAdvance => "block advance requires a completed FFN",
            Error::BlockAdvanceLayer => "block advance layer or identity differs",
            Error::BlockRestart => "block restart requires layer zero and an idle or completed sequence",
            Error::PreviousBlock => "previous block layer, tokens or extents differ",
            Error::PreviousBlockDevice => "previous block device differs",
            Error::DecoderBoundary => "invalid encoder/decoder boundary",
            Error::BlockEngram => "block is not awaiting engram",
            Error::BlockEngramRows => "block engram layer or rows differ",
            Error::BlockInput => "block input is not prepared; engram may be pending",
            Error::BlockEmbedding => "initial block embedding geometry differs",
            Error::BlockEmbeddingDevice => "initial block device differs",
            Error::BlockAttention => "block attention layer or tokens differ",
            Error::BlockQueryDevice => "block query device differs",
            Error::BlockAttentionResult => "block attention result differs",
            Error::BlockAttentionPending => "block attention is not pending",
            Error::QueuedAttentionResult => "queued block attention result differs",
            Error::QueuedAttentionPending => "block attention is not pending for queued FFN",
            Error::FfnReplay => "FFN graph replay query differs",
            Error::FfnWarmup => "FFN graph warmup query differs",
            Error::QueuedFfnExtent => "queued normalized FFN extent differs",
            Error::QueuedFfnAbsent => "block has no queued FFN",
            Error::BlockFfnResult => "block FFN result binding differs",
            Error::BlockFfnPending => "block FFN is not pending",
            Error::BlockUnpublished => "block output unpublished",
            Error::TransferDevices => "block transfer requires different GPUs",
            Error::TransferExtent => "block transfer devices or extents differ",
            Error::ImportedBlock => "imported block layer, tokens or extents differ",
            Error::TransferDestination => "block transfer destination differs",
            Error::OutputLayer => "invalid backbone output layer",
            Error::OutputWeightsBudget => "attention output weights exceed budget",
            Error::OutputWaveBudget => "attention output wave exceeds budget",
            Error::OutputWeightDevice => "output weight device differs",
            Error::OutputUnbound => "attention projection has no query origin",
            Error::OutputBindingLayer => "attention projection layer differs",
            Error::OutputRows => "attention output rows exceed capacity",
            Error::OutputCaptured => "attention output graph already captured",
            Error::OutputGraphMissing => "attention output graph missing",
            Error::OutputGraphRows => "attention output capture row count differs",
            Error::OutputUnpublished => "attention output unpublished",
            Error::AttentionRebound => "attention rebound weight library or device differs",
            Error::StreamBusy => "stream has unfinished work",
            Error::AttentionUnbound => "attention has no query origin",
            Error::OutputOrigin => "attention output origin differs",
            Error::QueuedOutputOrigin => "queued attention output origin differs",
            Error::OutputContext => "projection graph positions exceed context",
            Error::OutputChain => "projection graph origin differs",
            Error::OutputSplit => "split output-B requires TP2 execution",
            Error::OutputSplitPrefix => "split output prefix differs",
            Error::OutputShards => "output projection owner differs",
            Error::QueryWeightsBudget => "attention query weights exceed budget",
            Error::QueryWaveBudget => "attention query wave exceeds budget",
            Error::QueryWeightDevice => "query weight device differs",
            Error::QueryRows => "query rows exceed capacity",
            Error::QueryCaptured => "attention query graph already captured",
            Error::QueryGraphMissing => "attention query graph missing",
            Error::QueryGraphRows => "attention query capture row count differs",
            Error::QueryUnpublished => "attention query output unpublished",
            Error::QueryTokens => "invalid query tokens",
            Error::QuerySplit => "split query-B weights require TP2 execution",
            Error::QueryShards => "TP2 query origin differs",
            Error::RouterLayer => "invalid backbone router layer",
            Error::RouterGeometry => "unexpected backbone router weight geometry",
            Error::RouterWeightsBudget => "backbone router weights exceed budget",
            Error::RouterRows => "backbone router rows exceed capacity",
            Error::RouterCaptured => "backbone router graph already captured",
            Error::RouterGraphMissing => "backbone router graph missing",
            Error::RouterGraphRows => "backbone router captured rows differ",
            Error::RouterUnpublished => "backbone router output unpublished",
            Error::RouterCapacity => "invalid backbone router capacity",
            Error::RouterWaveBudget => "backbone router wave exceeds budget",
            Error::RouterLibrary => "router rebound library differs",
            Error::RouterFormat => "router cannot rebind across expert wire formats",
            Error::RouterDevice => "router rebound weight device differs",
            Error::RouteStaging => "local route staging too small",
            Error::RouterStaged => "invalid router staged input",
            Error::RouterInput => "backbone router block input differs",
            Error::RouterUnbound => "backbone router output has no block origin",
            Error::RouteCapture => "invalid route capture extent",
            Error::RouteCaptureStaging => "route capture staging extent differs",
            Error::RequestRows => "router request rows differ from block",
            Error::LocalRouting => "local router output has no remote request payload",
            Error::ExpertIdsExhausted => "native expert request IDs exhausted",
            Error::SharedLayer => "invalid backbone shared FFN layer",
            Error::SharedWeightsBudget => "backbone shared weights exceed budget",
            Error::SharedUnbound => "shared FFN output has no block origin",
            Error::SharedRows => "shared FFN rows exceed capacity",
            Error::SharedCaptured => "shared FFN graph already captured",
            Error::SharedGraphMissing => "shared FFN graph missing",
            Error::SharedGraphRows => "shared FFN captured rows differ",
            Error::SharedUnpublished => "shared FFN output unpublished",
            Error::SharedWaveBudget => "backbone shared wave exceeds budget",
            Error::SharedLibrary => "shared FFN rebound weight library differs",
            Error::SharedInput => "shared FFN block input differs",
            Error::EngramCapacity => "invalid engram device capacity",
            Error::EngramBudget => "engram rows exceed device budget",
            Error::EngramDimensions => "invalid gathered engram dimensions",
            Error::EngramStorage => "invalid gathered engram storage",
            Error::EngramIncomplete => "engram device rows are not complete",
            Error::EngramLayerIndex => "invalid engram layer index",
            Error::EngramResident => "engram resident budget overflow",
            Error::EngramWeightsBudget => "engram weights and packed scales exceed device budget",
            Error::GateCapacity => "invalid engram gate capacity",
            Error::GateOverflow => "engram execution budget overflow",
            Error::GateDestination => "engram destination extent overflow",
            Error::GateOverlap => "engram input overlaps another owned input destination",
            Error::GateInput => "engram input is null or too small",
            Error::GateInputExtent => "engram input extent overflow",
            Error::GateBudget => "engram execution exceeds device budget",
            Error::GateLayer => "engram gate layer mismatch",
            Error::GateRows => "engram gate exceeds capacity",
            Error::GateCaptured => "engram graph is already captured",
            Error::GateGraphMissing => "engram graph has not been captured",
            Error::GateGraphRows => "engram replay row count differs from capture",
            Error::GateIncomplete => "engram gate output is not complete",
            Error::LaneWeightsOverflow => "backbone weight budget overflow",
            Error::LaneWeightsBudget => "backbone lane weights exceed budget",
            Error::LanePlacedOverflow => "placed backbone weights overflow",
            Error::LanePlacedBudget => "backbone weights exceed a GPU budget",
            Error::LaneCapacity => "invalid backbone lane capacity",
            Error::LanePlacedWorkspace => "placed backbone workspace overflow",
            Error::LaneSharedWeights => "local shared weights absent",
            Error::LaneZeroDevice => "layer zero belongs to another GPU",
            Error::LaneDecoderDevice => "decoder belongs to another GPU",
            Error::LaneEmbedding => "embedding requires layer zero",
            Error::BlockQueryLayer => "initial block query layer differs",
            Error::LaneTokens => "invalid token entry",
            Error::LaneUnprepared => "backbone lane input not prepared",
            Error::LaneQuery => "backbone lane query unavailable",
            Error::LaneOutput => "backbone lane output unavailable",
            Error::LaneFinal => "backbone lane is at final layer",
            Error::LaneHandoff => "next layer needs a peer handoff",
            Error::LaneBudgetOverflow => "backbone lane budget overflow",
            Error::LaneBudget => "backbone lane exceeds budget",
            Error::LaneLayers => "backbone lane requires all 40 layers",
            Error::LanePlaced => "placed backbone weights require GPU-owned lanes",
            Error::LaneGpu => "placed backbone lane requires distributed weights and GPU 0 or 1",
            Error::LaneNoLayers => "GPU owns no backbone layers",
            Error::LaneQuerySplit => "query split configuration differs",
            Error::LaneOutputSplit => "output split configuration differs",
            Error::LaneDualAttention => "dual attention requires an unused lane",
            Error::LaneNoSuccessor => "final layer has no successor",
            Error::LaneImportDevice => "imported layer belongs to another GPU",
            Error::LaneTp2Attention => "TP2 output requires cooperative attention completion",
            Error::LaneFullHead => "direct attention requires full-head mode",
            Error::LaneSelection => "attention index selection presence differs",
            Error::LaneIndexMissing => "attention index lane missing",
            Error::LaneFfnPending => "lane FFN work is not pending",
            Error::LaneSharedPending => "lane shared FFN is not pending",
            Error::LaneSharedWorkspace => "local shared workspace absent; TP2 required",
            Error::LaneDecoderShared => "decoder shared TP2 execution required",
            Error::LaneRouteHistory => "route history reservation exceeds model bounds",
            Error::LaneSharedAbsent => "local shared workspace absent",
            Error::PeerWindowLayer => "invalid peer window layer",
            Error::PeerWindowAbsent => "peer window cache absent",
            Error::PeerWindowDevice => "peer window device differs",
            Error::PeerBudget => "peer attention inputs exceed budget",
            Error::PeerRequests => "invalid peer attention requests",
            Error::PeerRows => "peer attention rows exceed capacity",
            Error::PeerSourceLayer => "invalid peer source layer",
            Error::PeerSourceLayers => "peer source layers differ",
            Error::PeerSourceAbsent => "peer source cache absent",
            Error::PeerSourceDevice => "peer source device differs",
            Error::PeerSelection => "peer selection exceeds capacity",
            Error::SinkBytes => "unexpected backbone attention sink size",
            Error::WeightsBudget => "cache producer weights exceed budget",
            Error::WeightsOverflow => "cache producer weights overflow",
            Error::WorkspaceBudget => "cache producer workspace exceeds budget",
            Error::WindowWorkspace => "window workspace budget overflow",
            Error::SourceWorkspace => "source workspace budget overflow",
            Error::WeightsPlaced => "distributed producer weights require placed execution workspaces",
            Error::WeightsIncomplete => "cache producer weight owners incomplete",
            Error::WindowBatchEmpty => "empty window batch",
            Error::WindowBatchShape => "window batch shape differs",
            Error::SnapshotInstall => "snapshot arena must be installed before admission",
            Error::DraftInUse => "draft window is in use",
            Error::DraftUnseeded => "cannot retain an unseeded draft window",
            Error::DraftEmpty => "cannot retain an empty draft window",
            Error::DraftRestore => "foreign draft prefix or nonfresh window",
            Error::DraftCopy => "draft window copy failed",
            Error::PrefixFrontier => "prefix retention requires a complete request frontier",
            Error::PrefixBudget => "retained backbone tail exceeds budget",
            Error::SnapshotLane => "invalid snapshot lane",
            Error::SnapshotOccupied => "backbone snapshot lane is occupied",
            Error::SnapshotOwner => "backbone snapshot owner differs",
            Error::SnapshotIncomplete => "backbone snapshot copies are incomplete",
            Error::EncoderPrefix => "invalid encoder prefix restore frontier or owner",
            Error::PrefixAdmission => "foreign backbone prefix or nonfresh admission",
            Error::EncoderContinuation => "encoder continuation must cover the final decoder window",
            Error::QueryLayer => "invalid backbone query layer",
            Error::QueryBindingsExhausted => "query binding IDs exhausted",
            Error::QueryUnbound => "query has no token binding",
            _ => "",
        }
    }

    /// The reason names numbers or phases.
    pub open spec fn detailed(self) -> bool {
        ||| self is PoolExhausted
        ||| self is SourceGpu
        ||| self is WindowDevice
        ||| self is SourceDevice
        ||| self is LanePhase
        ||| self is Device
    }

    /// The reason in words.
    pub open spec fn words(self) -> Seq<char> {
        match self {
            Error::PoolExhausted(shortage) => "compressed KV pool exhausted at work item "@
                + text::decimal(shortage.work_index as nat) + ": need "@ + text::decimal(
                shortage.needed as nat,
            ) + " pages, "@ + text::decimal(shortage.available as nat) + " available"@,
            Error::SourceGpu { source } => "compressed source "@ + text::decimal(source as nat)
                + " must share its GPU with attention consumers"@,
            Error::WindowDevice { layer } => "window producer and cache GPU differ at layer "@
                + text::decimal(layer as nat),
            Error::SourceDevice { source } => "compressed producer and cache GPU differ at source "@
                + text::decimal(source as nat),
            Error::LanePhase { expected, got } => "backbone lane phase differs: expected "@
                + expected.label() + ", got "@ + got.label(),
            Error::Device { code } => "device error "@ + signed(code),
            _ => self.phrase(),
        }
    }

    pub fn message(&self) -> (r: String)
        ensures
            r@ == self.words(),
    {
        match *self {
            Error::PoolExhausted(shortage) => {
                let mut out: String = String::from_str("compressed KV pool exhausted at work item ");
                append_count(&mut out, shortage.work_index);
                out.append(": need ");
                append_count(&mut out, shortage.needed);
                out.append(" pages, ");
                append_count(&mut out, shortage.available);
                out.append(" available");
                out
            },
            Error::SourceGpu { source } => {
                let mut out: String = String::from_str("compressed source ");
                append_count(&mut out, source);
                out.append(" must share its GPU with attention consumers");
                out
            },
            Error::WindowDevice { layer } => {
                let mut out: String = String::from_str(
                    "window producer and cache GPU differ at layer ",
                );
                append_count(&mut out, layer);
                out
            },
            Error::SourceDevice { source } => {
                let mut out: String = String::from_str(
                    "compressed producer and cache GPU differ at source ",
                );
                append_count(&mut out, source);
                out
            },
            Error::LanePhase { expected, got } => {
                let mut out: String = String::from_str("backbone lane phase differs: expected ");
                out.append(expected.name());
                out.append(", got ");
                out.append(got.name());
                out
            },
            Error::Device { code } => {
                let mut out: String = String::from_str("device error ");
                if code < 0 {
                    out.append("-");
                    append_decimal(&mut out, (-(code as i64)) as u64);
                } else {
                    append_decimal(&mut out, code as u64);
                }
                out
            },
            _ => String::from_str(self.fixed()),
        }
    }
}

} // verus!
