//! Element IDs of the EBML and Matroska formats that this library reads.
use vstd::prelude::*;

verus! {

pub const EBML_ID: u64 = 0x1A45DFA3;

pub const DOC_TYPE_ID: u64 = 0x4282;

pub const SEGMENT_ID: u64 = 0x18538067;

pub const CRC32_ID: u64 = 0xBF;

pub const VOID_ID: u64 = 0xEC;

/// Children of the Segment element.
#[derive(Debug, Clone, Copy, PartialEq, Eq, Structural)]
pub enum SegmentId {
    SeekHead,
    Info,
    Tracks,
    Cluster,
    Cues,
}

impl SegmentId {
    pub open spec fn spec_id(self) -> u64 {
        match self {
            SegmentId::SeekHead => 0x114D9B74,
            SegmentId::Info => 0x1549A966,
            SegmentId::Tracks => 0x1654AE6B,
            SegmentId::Cluster => 0x1F43B675,
            SegmentId::Cues => 0x1C53BB6B,
        }
    }

    /// The element ID, as a seek table keys it.
    pub fn code(self) -> (r: u32)
        ensures
            r as u64 == self.spec_id(),
    {
        match self {
            SegmentId::SeekHead => 0x114D9B74,
            SegmentId::Info => 0x1549A966,
            SegmentId::Tracks => 0x1654AE6B,
            SegmentId::Cluster => 0x1F43B675,
            SegmentId::Cues => 0x1C53BB6B,
        }
    }

    pub fn id(self) -> (r: u64)
        ensures
            r == self.spec_id(),
    {
        self.code() as u64
    }

    /// The Segment child that `v` identifies; `None` for any other ID.
    pub fn from_id(v: u64) -> (r: Option<SegmentId>)
        ensures
            r matches Some(x) ==> x.spec_id() == v,
            r is None ==> forall|x: SegmentId| x.spec_id() != v,
    {
        if v == 0x114D9B74 {
            Some(SegmentId::SeekHead)
        } else if v == 0x1549A966 {
            Some(SegmentId::Info)
        } else if v == 0x1654AE6B {
            Some(SegmentId::Tracks)
        } else if v == 0x1F43B675 {
            Some(SegmentId::Cluster)
        } else if v == 0x1C53BB6B {
            Some(SegmentId::Cues)
        } else {
            None
        }
    }
}

/// Children of the Info element that this library reads.
#[derive(Debug, Clone, Copy, PartialEq, Eq, Structural)]
pub enum InfoId {
    TimestampScale,
    Duration,
    Date,
}

impl InfoId {
    pub open spec fn spec_id(self) -> u64 {
        match self {
            InfoId::TimestampScale => 0x2AD7B1,
            InfoId::Duration => 0x4489,
            InfoId::Date => 0x4461,
        }
    }

    pub fn id(self) -> (r: u64)
        ensures
            r == self.spec_id(),
    {
        match self {
            InfoId::TimestampScale => 0x2AD7B1,
            InfoId::Duration => 0x4489,
            InfoId::Date => 0x4461,
        }
    }

    /// The Info child that `v` identifies; `None` for any other ID.
    pub fn from_id(v: u64) -> (r: Option<InfoId>)
        ensures
            r matches Some(x) ==> x.spec_id() == v,
            r is None ==> forall|x: InfoId| x.spec_id() != v,
    {
        if v == 0x2AD7B1 {
            Some(InfoId::TimestampScale)
        } else if v == 0x4489 {
            Some(InfoId::Duration)
        } else if v == 0x4461 {
            Some(InfoId::Date)
        } else {
            None
        }
    }
}

/// Elements under Tracks that this library knows.
#[derive(Debug, Clone, Copy, PartialEq, Eq, Structural)]
pub enum TracksId {
    TrackEntry,
    TrackType,
    VideoTrack,
    PixelWidth,
    PixelHeight,
}

impl TracksId {
    pub open spec fn spec_id(self) -> u64 {
        match self {
            TracksId::TrackEntry => 0xAE,
            TracksId::TrackType => 0x83,
            TracksId::VideoTrack => 0xE0,
            TracksId::PixelWidth => 0xB0,
            TracksId::PixelHeight => 0xBA,
        }
    }

    pub fn id(self) -> (r: u64)
        ensures
            r == self.spec_id(),
    {
        match self {
            TracksId::TrackEntry => 0xAE,
            TracksId::TrackType => 0x83,
            TracksId::VideoTrack => 0xE0,
            TracksId::PixelWidth => 0xB0,
            TracksId::PixelHeight => 0xBA,
        }
    }

    /// The Tracks element that `v` identifies; `None` for any other ID.
    pub fn from_id(v: u64) -> (r: Option<TracksId>)
        ensures
            r matches Some(x) ==> x.spec_id() == v,
            r is None ==> forall|x: TracksId| x.spec_id() != v,
    {
        if v == 0xAE {
            Some(TracksId::TrackEntry)
        } else if v == 0x83 {
            Some(TracksId::TrackType)
        } else if v == 0xE0 {
            Some(TracksId::VideoTrack)
        } else if v == 0xB0 {
            Some(TracksId::PixelWidth)
        } else if v == 0xBA {
            Some(TracksId::PixelHeight)
        } else {
            None
        }
    }
}

/// Elements of a SeekHead.
#[derive(Debug, Clone, Copy, PartialEq, Eq, Structural)]
pub enum SeekHeadId {
    Seek,
    SeekId,
    SeekPosition,
}

impl SeekHeadId {
    pub open spec fn spec_id(self) -> u64 {
        match self {
            SeekHeadId::Seek => 0x4DBB,
            SeekHeadId::SeekId => 0x53AB,
            SeekHeadId::SeekPosition => 0x53AC,
        }
    }

    pub fn id(self) -> (r: u64)
        ensures
            r == self.spec_id(),
    {
        match self {
            SeekHeadId::Seek => 0x4DBB,
            SeekHeadId::SeekId => 0x53AB,
            SeekHeadId::SeekPosition => 0x53AC,
        }
    }
}

} // verus!
