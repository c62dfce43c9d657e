//! Memory-mapped peripherals and the bus dispatcher.
//!
//! Devices form a closed set of kinds (`Device`); the manager owns an
//! ordered registration list and routes an access to the first device whose
//! address range contains it. The one modeled device kind is a write-only
//! console: a store to its TX register queues one byte of output, which the
//! host embedding drains and displays.

use crate::EmulatorError;
use vstd::prelude::*;

verus! {

/// The state of a console device: its bus base address and the bytes queued
/// for output.
pub struct ConsoleView {
    pub base: u32,
    pub output: Seq<u8>,
}

/// The state of a device of any kind.
pub enum DeviceView {
    Console(ConsoleView),
}

/// The first address of the device's range.
pub open spec fn dev_base(d: DeviceView) -> u32 {
    match d {
        DeviceView::Console(c) => c.base,
    }
}

/// The size of the device's address range.
pub open spec fn dev_size(d: DeviceView) -> u32 {
    match d {
        DeviceView::Console(_) => 0x1000u32,
    }
}

/// Whether `a` lies in the device's range `[base, base + size)`.
pub open spec fn dev_contains(d: DeviceView, a: u32) -> bool {
    dev_base(d) <= a && (a as int) < dev_base(d) as int + dev_size(d) as int
}

/// What a read at a device-local offset returns. The console is write-only
/// and reads as zero.
pub open spec fn dev_read_val(d: DeviceView, offset: u32) -> u32 {
    match d {
        DeviceView::Console(_) => 0u32,
    }
}

/// The device state after a write at a device-local offset. Offset zero is
/// the console's TX register: the low byte of the value is queued; a write
/// anywhere else in the range is accepted and discarded.
pub open spec fn dev_write_eff(d: DeviceView, offset: u32, value: u32) -> DeviceView {
    match d {
        DeviceView::Console(c) => if offset == 0 {
            DeviceView::Console(ConsoleView { base: c.base, output: c.output.push(value as u8) })
        } else {
            d
        },
    }
}

/// The bytes a device has queued for output.
pub open spec fn dev_output(d: DeviceView) -> Seq<u8> {
    match d {
        DeviceView::Console(c) => c.output,
    }
}

/// The device with its output queue drained.
pub open spec fn dev_drained(d: DeviceView) -> DeviceView {
    match d {
        DeviceView::Console(c) => DeviceView::Console(
            ConsoleView { base: c.base, output: Seq::<u8>::empty() },
        ),
    }
}

/// Everything queued by the devices at or after index `i`, in registration
/// order.
pub open spec fn outputs_from(devs: Seq<DeviceView>, i: int) -> Seq<u8>
    decreases devs.len() - i,
{
    if i < 0 || i >= devs.len() {
        Seq::<u8>::empty()
    } else {
        dev_output(devs[i]) + outputs_from(devs, i + 1)
    }
}

/// Whether any registered device's range contains `a`.
pub open spec fn devs_claim(devs: Seq<DeviceView>, a: u32) -> bool {
    exists|j: int| 0 <= j < devs.len() && dev_contains(devs[j], a)
}

/// The index of the first device at or after `j` whose range contains `a`,
/// or the list length if there is none.
pub open spec fn first_claim_at(devs: Seq<DeviceView>, a: u32, j: int) -> int
    decreases devs.len() - j,
{
    if j < 0 || j >= devs.len() {
        devs.len() as int
    } else if dev_contains(devs[j], a) {
        j
    } else {
        first_claim_at(devs, a, j + 1)
    }
}

/// The index of the first device whose range contains `a` (first match
/// wins; ranges are expected not to overlap).
pub open spec fn first_claim(devs: Seq<DeviceView>, a: u32) -> int {
    first_claim_at(devs, a, 0)
}

/// What a bus read at absolute address `a` returns: the owning device reads
/// the rebased offset; an unclaimed address reads zero.
pub open spec fn bus_read_val(devs: Seq<DeviceView>, a: u32) -> u32 {
    if devs_claim(devs, a) {
        let j = first_claim(devs, a);
        dev_read_val(devs[j], (a - dev_base(devs[j])) as u32)
    } else {
        0u32
    }
}

/// The device list after a bus write at absolute address `a`: the owning
/// device takes the write at the rebased offset; a write to an unclaimed
/// address is accepted as a no-op.
pub open spec fn bus_write_eff(devs: Seq<DeviceView>, a: u32, value: u32) -> Seq<DeviceView> {
    if devs_claim(devs, a) {
        let j = first_claim(devs, a);
        devs.update(j, dev_write_eff(devs[j], (a - dev_base(devs[j])) as u32, value))
    } else {
        devs
    }
}

/// Scanning from the front: if no device before `i` claims `a`, the first
/// claim overall is the first claim at or after `i`.
proof fn lemma_first_claim_skip(devs: Seq<DeviceView>, a: u32, i: int)
    requires
        0 <= i <= devs.len(),
        forall|k: int| 0 <= k < i ==> !dev_contains(devs[k], a),
    ensures
        first_claim(devs, a) == first_claim_at(devs, a, i),
    decreases i,
{
    if i > 0 {
        lemma_first_claim_skip(devs, a, i - 1);
    }
}

/// A write-only console device: bytes stored to its TX register are queued
/// in order until the host drains them.
pub struct ConsolePeriph {
    base_addr: u32,
    output: Vec<u8>,
}

impl View for ConsolePeriph {
    type V = ConsoleView;

    closed spec fn view(&self) -> ConsoleView {
        ConsoleView { base: self.base_addr, output: self.output@ }
    }
}

impl ConsolePeriph {
    /// A console mapped at `base_addr` with nothing queued.
    pub fn new(base_addr: u32) -> (r: ConsolePeriph)
        ensures
            r@ == (ConsoleView { base: base_addr, output: Seq::<u8>::empty() }),
    {
        ConsolePeriph { base_addr, output: Vec::new() }
    }

    /// The console is write-only: every read returns zero.
    pub fn read(&mut self, offset: u32) -> (r: Result<u32, EmulatorError>)
        ensures
            final(self)@ == old(self)@,
            r == Ok::<u32, EmulatorError>(dev_read_val(DeviceView::Console(old(self)@), offset)),
    {
        let _ = offset;
        Ok(0)
    }

    /// A write to offset zero (the TX register) queues the low byte of the
    /// value; a write to any other offset is accepted and discarded.
    pub fn write(&mut self, offset: u32, value: u32) -> (r: Result<(), EmulatorError>)
        ensures
            r == Ok::<(), EmulatorError>(()),
            DeviceView::Console(final(self)@) == dev_write_eff(
                DeviceView::Console(old(self)@),
                offset,
                value,
            ),
    {
        if offset == 0 {
            self.output.push(value as u8);
        }
        Ok(())
    }

    /// The base address of the console's range.
    pub fn base_address(&self) -> (r: u32)
        ensures
            r == self@.base,
    {
        self.base_addr
    }

    /// The size of the console's range.
    pub fn size(&self) -> (r: u32)
        ensures
            r == dev_size(DeviceView::Console(self@)),
    {
        0x1000
    }

    /// Whether an absolute address lies in the console's range.
    pub fn contains_address(&self, address: u32) -> (r: bool)
        ensures
            r == dev_contains(DeviceView::Console(self@), address),
    {
        address >= self.base_addr && address.wrapping_sub(self.base_addr) < self.size()
    }

    /// Hand the queued output to the caller and clear the queue.
    pub fn take_output(&mut self) -> (r: Vec<u8>)
        ensures
            r@ == old(self)@.output,
            final(self)@ == (ConsoleView { base: old(self)@.base, output: Seq::<u8>::empty() }),
    {
        let mut out: Vec<u8> = Vec::new();
        core::mem::swap(&mut self.output, &mut out);
        out
    }
}

/// A device of one of the known kinds.
pub enum Device {
    Console(ConsolePeriph),
}

impl View for Device {
    type V = DeviceView;

    closed spec fn view(&self) -> DeviceView {
        match self {
            Device::Console(c) => DeviceView::Console(c@),
        }
    }
}

impl Device {
    /// Read from the device at a device-local offset.
    pub fn read(&mut self, offset: u32) -> (r: Result<u32, EmulatorError>)
        ensures
            final(self)@ == old(self)@,
            r == Ok::<u32, EmulatorError>(dev_read_val(old(self)@, offset)),
    {
        match self {
            Device::Console(c) => c.read(offset),
        }
    }

    /// Write to the device at a device-local offset.
    pub fn write(&mut self, offset: u32, value: u32) -> (r: Result<(), EmulatorError>)
        ensures
            r == Ok::<(), EmulatorError>(()),
            final(self)@ == dev_write_eff(old(self)@, offset, value),
    {
        match self {
            Device::Console(c) => c.write(offset, value),
        }
    }

    /// The base address of the device's range.
    pub fn base_address(&self) -> (r: u32)
        ensures
            r == dev_base(self@),
    {
        match self {
            Device::Console(c) => c.base_address(),
        }
    }

    /// The size of the device's range.
    pub fn size(&self) -> (r: u32)
        ensures
            r == dev_size(self@),
    {
        match self {
            Device::Console(c) => c.size(),
        }
    }

    /// Whether an absolute address lies in the device's range.
    pub fn contains_address(&self, address: u32) -> (r: bool)
        ensures
            r == dev_contains(self@, address),
    {
        match self {
            Device::Console(c) => c.contains_address(address),
        }
    }

    /// Hand the device's queued output to the caller and clear it.
    pub fn take_output(&mut self) -> (r: Vec<u8>)
        ensures
            r@ == match old(self)@ {
                DeviceView::Console(c) => c.output,
            },
            dev_base(final(self)@) == dev_base(old(self)@),
            final(self)@ == match old(self)@ {
                DeviceView::Console(c) => DeviceView::Console(
                    ConsoleView { base: c.base, output: Seq::<u8>::empty() },
                ),
            },
    {
        match self {
            Device::Console(c) => c.take_output(),
        }
    }
}

/// The bus dispatcher: an ordered list of registered devices; the first
/// device whose range contains an address owns the access.
pub struct PeripheralManager {
    devices: Vec<Device>,
}

impl View for PeripheralManager {
    type V = Seq<DeviceView>;

    closed spec fn view(&self) -> Seq<DeviceView> {
        self.devices@.map_values(|d: Device| d@)
    }
}

impl PeripheralManager {
    /// A manager with no devices registered.
    pub fn new() -> (r: PeripheralManager)
        ensures
            r@ == Seq::<DeviceView>::empty(),
    {
        let r = PeripheralManager { devices: Vec::new() };
        proof {
            assert(r@ =~= Seq::<DeviceView>::empty());
        }
        r
    }

    /// Register a device. Ranges are expected not to overlap; where they do,
    /// the earliest-registered device wins.
    pub fn add_peripheral(&mut self, peripheral: Device)
        ensures
            final(self)@ == old(self)@.push(peripheral@),
    {
        let ghost pre = self.devices@;
        self.devices.push(peripheral);
        proof {
            assert(final(self)@ =~= old(self)@.push(peripheral@));
        }
    }

    /// Whether any registered device's range contains `address`.
    pub fn is_peripheral_address(&self, address: u32) -> (r: bool)
        ensures
            r == devs_claim(self@, address),
    {
        let mut i: usize = 0;
        while i < self.devices.len()
            invariant
                i <= self.devices@.len(),
                self@.len() == self.devices@.len(),
                forall|k: int| 0 <= k < i ==> !dev_contains(self@[k], address),
            decreases self.devices@.len() - i,
        {
            if self.devices[i].contains_address(address) {
                proof {
                    assert(self@[i as int] == self.devices@[i as int]@);
                    assert(dev_contains(self@[i as int], address));
                }
                return true;
            }
            proof {
                assert(self@[i as int] == self.devices@[i as int]@);
            }
            i = i + 1;
        }
        false
    }

    /// A bus read: the first device whose range contains the address reads
    /// the rebased offset; an unclaimed address reads zero.
    pub fn read(&mut self, address: u32) -> (r: Result<u32, EmulatorError>)
        ensures
            final(self)@ == old(self)@,
            r == Ok::<u32, EmulatorError>(bus_read_val(old(self)@, address)),
    {
        let n = self.devices.len();
        let mut i: usize = 0;
        while i < n
            invariant
                n == self.devices@.len(),
                i <= n,
                self@.len() == self.devices@.len(),
                self@ == old(self)@,
                forall|k: int| 0 <= k < i ==> !dev_contains(self@[k], address),
            decreases n - i,
        {
            if self.devices[i].contains_address(address) {
                proof {
                    lemma_first_claim_skip(self@, address, i as int);
                }
                let base = self.devices[i].base_address();
                let offset = address - base;
                let ghost pre = self@;
                let r = self.devices[i].read(offset);
                proof {
                    assert(self@ =~= pre);
                }
                return r;
            }
            i = i + 1;
        }
        Ok(0)
    }

    /// A bus write: the first device whose range contains the address takes
    /// the write at the rebased offset; a write to an unclaimed address is
    /// accepted as a no-op.
    pub fn write(&mut self, address: u32, value: u32) -> (r: Result<(), EmulatorError>)
        ensures
            r == Ok::<(), EmulatorError>(()),
            final(self)@ == bus_write_eff(old(self)@, address, value),
    {
        let n = self.devices.len();
        let mut i: usize = 0;
        while i < n
            invariant
                n == self.devices@.len(),
                i <= n,
                self@.len() == self.devices@.len(),
                self@ == old(self)@,
                forall|k: int| 0 <= k < i ==> !dev_contains(self@[k], address),
            decreases n - i,
        {
            if self.devices[i].contains_address(address) {
                proof {
                    lemma_first_claim_skip(self@, address, i as int);
                }
                let base = self.devices[i].base_address();
                let offset = address - base;
                let ghost pre = self@;
                let dev = &mut self.devices[i];
                let r = dev.write(offset, value);
                proof {
                    assert(self@ =~= bus_write_eff(pre, address, value));
                }
                return r;
            }
            i = i + 1;
        }
        Ok(())
    }

    /// Drain every device's queued output into one byte sequence, in
    /// registration order; every device's queue is left empty.
    pub fn flush_all(&mut self) -> (r: Vec<u8>)
        ensures
            r@ == outputs_from(old(self)@, 0),
            final(self)@.len() == old(self)@.len(),
            forall|k: int|
                0 <= k < old(self)@.len() ==> #[trigger] final(self)@[k] == dev_drained(
                    old(self)@[k],
                ),
    {
        let mut out: Vec<u8> = Vec::new();
        let n = self.devices.len();
        let mut i: usize = 0;
        while i < n
            invariant
                n == self.devices@.len(),
                i <= n,
                self@.len() == old(self)@.len(),
                out@ + outputs_from(old(self)@, i as int) == outputs_from(old(self)@, 0),
                forall|k: int|
                    0 <= k < i ==> #[trigger] self@[k] == dev_drained(old(self)@[k]),
                forall|k: int| i <= k < n ==> #[trigger] self@[k] == old(self)@[k],
            decreases n - i,
        {
            let ghost pre = self@;
            let ghost pre_out = out@;
            proof {
                assert(pre[i as int] == self.devices@[i as int]@);
            }
            let dev = &mut self.devices[i];
            let mut chunk = dev.take_output();
            proof {
                assert(chunk@ == dev_output(pre[i as int]));
                assert(pre[i as int] == old(self)@[i as int]);
            }
            out.append(&mut chunk);
            proof {
                assert forall|k: int| 0 <= k < pre.len() implies #[trigger] self@[k] == (if k
                    == i as int {
                    dev_drained(pre[k])
                } else {
                    pre[k]
                }) by {
                    assert(self@[k] == self.devices@[k]@);
                }
                assert(out@ + outputs_from(old(self)@, i as int + 1) == outputs_from(old(self)@, 0))
                    by {
                    assert(outputs_from(old(self)@, i as int) == dev_output(old(self)@[i as int])
                        + outputs_from(old(self)@, i as int + 1));
                    assert(out@ == pre_out + dev_output(old(self)@[i as int]));
                    assert(pre_out + (dev_output(old(self)@[i as int]) + outputs_from(
                        old(self)@,
                        i as int + 1,
                    )) =~= (pre_out + dev_output(old(self)@[i as int])) + outputs_from(
                        old(self)@,
                        i as int + 1,
                    ));
                }
            }
            i = i + 1;
        }
        proof {
            assert(out@ + outputs_from(old(self)@, n as int) =~= out@);
        }
        out
    }
}


impl Default for PeripheralManager {
    /// A manager with no devices, as `PeripheralManager::new` builds it.
    fn default() -> (r: PeripheralManager)
        ensures
            r@ == Seq::<DeviceView>::empty(),
    {
        PeripheralManager::new()
    }
}

} // verus!
