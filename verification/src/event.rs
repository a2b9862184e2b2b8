//! The detector records that the writer consumes.

use vstd::prelude::*;

verus! {

/// Payload of the GET subsystem for one event.
#[derive(Clone, Debug, PartialEq, Eq)]
pub struct GetEvent {
    pub id: u32,
    pub timestamp: u64,
    pub timestamp_other: u64,
    pub traces: Vec<i16>,
}

/// Payload of the FRIB subsystem for one event.
#[derive(Clone, Debug, PartialEq, Eq)]
pub struct FribEvent {
    pub event: u32,
    pub timestamp: u32,
    pub traces: Vec<i16>,
    pub coincidence: Vec<i16>,
}

/// One merged record. Either payload may be missing, independently of the other.
#[derive(Clone, Debug, PartialEq, Eq)]
pub struct MergerEvent {
    pub run_number: i32,
    pub event: u64,
    pub get: Option<GetEvent>,
    pub frib: Option<FribEvent>,
}

/// Mathematical value of a [`GetEvent`].
pub struct GetModel {
    pub id: u32,
    pub timestamp: u64,
    pub timestamp_other: u64,
    pub traces: Seq<i16>,
}

/// Mathematical value of a [`FribEvent`].
pub struct FribModel {
    pub event: u32,
    pub timestamp: u32,
    pub traces: Seq<i16>,
    pub coincidence: Seq<i16>,
}

/// Mathematical value of a [`MergerEvent`].
pub struct MergerModel {
    pub run_number: i32,
    pub event: u64,
    pub get: Option<GetModel>,
    pub frib: Option<FribModel>,
}

impl View for GetEvent {
    type V = GetModel;

    open spec fn view(&self) -> GetModel {
        GetModel {
            id: self.id,
            timestamp: self.timestamp,
            timestamp_other: self.timestamp_other,
            traces: self.traces@,
        }
    }
}

impl View for FribEvent {
    type V = FribModel;

    open spec fn view(&self) -> FribModel {
        FribModel {
            event: self.event,
            timestamp: self.timestamp,
            traces: self.traces@,
            coincidence: self.coincidence@,
        }
    }
}

impl View for MergerEvent {
    type V = MergerModel;

    open spec fn view(&self) -> MergerModel {
        MergerModel {
            run_number: self.run_number,
            event: self.event,
            get: match self.get {
                Some(get) => Some(get@),
                None => None,
            },
            frib: match self.frib {
                Some(frib) => Some(frib@),
                None => None,
            },
        }
    }
}

} // verus!
