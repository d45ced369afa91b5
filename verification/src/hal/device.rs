//! Device classes of the heterogeneous hardware slots.

use vstd::prelude::*;
use crate::kernel::TrigramSlot;

verus! {

/// Device class.
#[derive(Debug, Clone, Copy, PartialEq, Eq, Structural)]
pub enum DeviceClass {
    Cpu,
    /// Carbon-based scheduling layer.
    CarbonScheduler,
    Npu,
    QuantumUnit,
    Storage,
    Network,
    Gpu,
    SensorIO,
}

/// The device class of each slot, in slot order.
pub open spec fn class_of_slot(slot: TrigramSlot) -> DeviceClass {
    match slot {
        TrigramSlot::Slot0 => DeviceClass::Cpu,
        TrigramSlot::Slot1 => DeviceClass::CarbonScheduler,
        TrigramSlot::Slot2 => DeviceClass::Npu,
        TrigramSlot::Slot3 => DeviceClass::QuantumUnit,
        TrigramSlot::Slot4 => DeviceClass::Storage,
        TrigramSlot::Slot5 => DeviceClass::Network,
        TrigramSlot::Slot6 => DeviceClass::Gpu,
        TrigramSlot::Slot7 => DeviceClass::SensorIO,
    }
}

impl DeviceClass {
    /// The device class of a slot.
    pub fn from_slot(slot: TrigramSlot) -> (r: Self)
        ensures
            r == class_of_slot(slot),
    {
        match slot {
            TrigramSlot::Slot0 => DeviceClass::Cpu,
            TrigramSlot::Slot1 => DeviceClass::CarbonScheduler,
            TrigramSlot::Slot2 => DeviceClass::Npu,
            TrigramSlot::Slot3 => DeviceClass::QuantumUnit,
            TrigramSlot::Slot4 => DeviceClass::Storage,
            TrigramSlot::Slot5 => DeviceClass::Network,
            TrigramSlot::Slot6 => DeviceClass::Gpu,
            TrigramSlot::Slot7 => DeviceClass::SensorIO,
        }
    }
}

/// Distinct slots have distinct device classes.
pub proof fn law_slot_classes_distinct(a: TrigramSlot, b: TrigramSlot)
    requires
        a != b,
    ensures
        class_of_slot(a) != class_of_slot(b),
{
}

} // verus!
