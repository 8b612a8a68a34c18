//! What can go wrong on a bus device that shares its bus and has a select line
//! of its own.

use vstd::prelude::*;

verus! {

/// The failure of an operation on a bus device.
#[derive(Copy, Clone, Eq, PartialEq, Debug)]
pub enum DeviceError<BUS, CS> {
    /// An operation on the bus itself failed.
    Spi(BUS),
    /// The select line could not be driven.
    Cs(CS),
}

/// The kinds of failure that a bus device tells apart.
#[derive(Copy, Clone, Eq, PartialEq, Debug)]
pub enum DeviceErrorKind {
    /// The failure came from the bus.
    Bus,
    /// The failure came from the select line.
    ChipSelectFault,
}

impl<BUS, CS> DeviceError<BUS, CS> {
    /// Whether the failure came from the bus or from the select line.
    pub fn kind(&self) -> (kind: DeviceErrorKind)
        ensures
            kind == match self {
                DeviceError::Spi(_) => DeviceErrorKind::Bus,
                DeviceError::Cs(_) => DeviceErrorKind::ChipSelectFault,
            },
    {
        match self {
            DeviceError::Spi(_) => DeviceErrorKind::Bus,
            DeviceError::Cs(_) => DeviceErrorKind::ChipSelectFault,
        }
    }
}

/// A delay provider for devices whose transactions hold no delay: it has
/// nothing to offer and must not be asked.
#[derive(Copy, Clone, Eq, PartialEq, Debug)]
pub struct NoDelay;

/// One operation of a transaction on the bus.
#[derive(Copy, Clone, Eq, PartialEq, Debug)]
pub enum Operation {
    /// Read from the device.
    Read,
    /// Write to the device.
    Write,
    /// Read and write at once, with a buffer for each.
    Transfer,
    /// Read and write at once, in one buffer.
    TransferInPlace,
    /// Wait for so many nanoseconds.
    DelayNs(u32),
}

/// One step of a transaction as the bus and the select line see it.
#[derive(Copy, Clone, Eq, PartialEq, Debug)]
pub enum BusStep {
    /// Pull the select line low.
    SelectLow,
    /// Perform the operation on the bus.
    Bus(Operation),
    /// Let the select line go high.
    SelectHigh,
}

/// The bus steps for `operations`: each operation in its turn, but for the
/// waits, which a device without a delay provider leaves out.
pub open spec fn bus_steps(operations: Seq<Operation>) -> Seq<BusStep>
    decreases operations.len(),
{
    if operations.len() == 0 {
        Seq::empty()
    } else if operations.last() is DelayNs {
        bus_steps(operations.drop_last())
    } else {
        bus_steps(operations.drop_last()).push(BusStep::Bus(operations.last()))
    }
}

/// The steps of a transaction: the select line goes low, the operations are
/// performed, and the select line goes high again. Should an operation fail
/// on the bus, the steps after it are not taken.
pub fn transaction(operations: &[Operation]) -> (steps: Vec<BusStep>)
    ensures
        steps@ == seq![BusStep::SelectLow] + bus_steps(operations@) + seq![BusStep::SelectHigh],
{
    let mut steps: Vec<BusStep> = Vec::new();
    steps.push(BusStep::SelectLow);
    let mut i: usize = 0;
    proof {
        assert(operations@.take(0) =~= Seq::<Operation>::empty());
        assert(steps@ =~= seq![BusStep::SelectLow] + bus_steps(operations@.take(0)));
    }
    while i < operations.len()
        invariant
            i <= operations@.len(),
            steps@ == seq![BusStep::SelectLow] + bus_steps(operations@.take(i as int)),
        decreases operations@.len() - i,
    {
        let ghost shorter = operations@.take(i as int);
        let ghost longer = operations@.take(i + 1);
        proof {
            assert(longer.drop_last() =~= shorter);
            assert(longer.last() == operations@[i as int]);
        }
        match operations[i] {
            Operation::DelayNs(_) => {},
            op => {
                steps.push(BusStep::Bus(op));
                proof {
                    assert(steps@ =~= seq![BusStep::SelectLow] + bus_steps(longer));
                }
            },
        }
        i += 1;
    }
    proof {
        assert(operations@.take(i as int) =~= operations@);
    }
    steps.push(BusStep::SelectHigh);
    steps
}

} // verus!
