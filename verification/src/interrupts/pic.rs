//! The pair of 8259 interrupt controllers, as far as it can be told without
//! touching a port: which interrupts each controller handles, and which
//! bytes go to which port, in which order.

use vstd::prelude::*;

verus! {

/// The first interrupt number of the master controller.
pub const MASTER_PIC_OFFSET: u8 = 32;

/// The first interrupt number of the slave controller.
pub const SLAVE_PIC_OFFSET: u8 = MASTER_PIC_OFFSET + 8;

/// The command that starts the initialisation of a controller.
pub const CMD_INIT: u8 = 0x11;

/// The command that ends an interrupt.
pub const CMD_EOI: u8 = 0x20;

/// The mode of a controller in a PC.
pub const MODE_X86: u8 = 0x01;

/// The port that is written to for no other reason than to take time.
pub const WAIT_PORT: u16 = 0x80;

/// The hardware interrupts that the kernel handles.
#[derive(Debug, Clone, Copy, PartialEq, Eq, Structural)]
pub enum InterruptIndex {
    Timer,
    Keyboard,
}

impl InterruptIndex {
    /// The number of the interrupt: the lines of the master controller,
    /// counted from its offset.
    pub open spec fn number(self) -> u8 {
        match self {
            InterruptIndex::Timer => MASTER_PIC_OFFSET,
            InterruptIndex::Keyboard => (MASTER_PIC_OFFSET + 1) as u8,
        }
    }

    #[inline]
    pub fn as_u8(self) -> (r: u8)
        ensures
            r == self.number(),
    {
        match self {
            InterruptIndex::Timer => MASTER_PIC_OFFSET,
            InterruptIndex::Keyboard => MASTER_PIC_OFFSET + 1,
        }
    }

    #[inline]
    pub fn as_usize(self) -> (r: usize)
        ensures
            r == self.number(),
    {
        match self {
            InterruptIndex::Timer => 32,
            InterruptIndex::Keyboard => 33,
        }
    }
}

/// One byte to write to one port.
#[derive(Debug, Clone, Copy, PartialEq, Eq, Structural)]
pub struct PortWrite {
    pub port: u16,
    pub value: u8,
}

/// The write of `value` to `port`.
pub open spec fn write(port: u16, value: u8) -> PortWrite {
    PortWrite { port, value }
}

/// The write that takes time.
pub open spec fn wait() -> PortWrite {
    PortWrite { port: WAIT_PORT, value: 0 }
}

/// One interrupt controller: its ports, and the number of its first
/// interrupt.
#[derive(Debug, Clone, Copy, PartialEq, Eq, Structural)]
pub struct Pic {
    pub command: u16,
    pub data: u16,
    /// The offset of the controller's eight interrupts.
    pub offset: u8,
}

impl Pic {
    /// Whether the interrupt is one of the eight from the controller's
    /// offset on.
    pub open spec fn handles(self, interrupt_id: u8) -> bool {
        self.offset <= interrupt_id < self.offset + 8
    }

    /// Whether the controller handles the interrupt.
    pub fn handles_interrupt(&self, interrupt_id: u8) -> (r: bool)
        ensures
            r == self.handles(interrupt_id),
    {
        self.offset <= interrupt_id && interrupt_id - self.offset < 8
    }

    /// The write that tells the controller that the interrupt has ended.
    pub fn eoi(&self) -> (r: PortWrite)
        ensures
            r == write(self.command, CMD_EOI),
    {
        PortWrite { port: self.command, value: CMD_EOI }
    }
}

/// The master controller and the slave controller that is chained to it.
#[derive(Debug, Clone, Copy, PartialEq, Eq, Structural)]
pub struct DualPic {
    pub master: Pic,
    pub slave: Pic,
}

impl DualPic {
    /// The pair of controllers of a PC, at their usual ports, with the
    /// offsets given.
    pub fn new(offset_master: u8, offset_slave: u8) -> (r: DualPic)
        ensures
            r.master == (Pic { command: 0x20, data: 0x21, offset: offset_master }),
            r.slave == (Pic { command: 0xa0, data: 0xa1, offset: offset_slave }),
    {
        DualPic {
            master: Pic { command: 0x20, data: 0x21, offset: offset_master },
            slave: Pic { command: 0xa0, data: 0xa1, offset: offset_slave },
        }
    }

    /// The writes that initialise both controllers, in order: the command
    /// to initialise, the offsets, the chaining of the slave to line 2 of the
    /// master, the mode, and at last the interrupt masks as they were before.
    /// Every write but the last two is followed by a wait.
    pub open spec fn init_writes(self, saved_masks: [u8; 2]) -> Seq<PortWrite> {
        seq![
            write(self.master.command, CMD_INIT),
            wait(),
            write(self.slave.command, CMD_INIT),
            wait(),
            write(self.master.data, self.master.offset),
            wait(),
            write(self.slave.data, self.slave.offset),
            wait(),
            write(self.master.data, 4),
            wait(),
            write(self.slave.data, 2),
            wait(),
            write(self.master.data, MODE_X86),
            wait(),
            write(self.slave.data, MODE_X86),
            wait(),
            write(self.master.data, saved_masks[0]),
            write(self.slave.data, saved_masks[1]),
        ]
    }

    /// The writes that initialise both controllers; `saved_masks` are the
    /// interrupt masks read from the master and the slave beforehand.
    pub fn initialize(&self, saved_masks: [u8; 2]) -> (r: [PortWrite; 18])
        ensures
            r@ == self.init_writes(saved_masks),
    {
        let wait = PortWrite { port: WAIT_PORT, value: 0 };
        let masks = self.write_masks(saved_masks[0], saved_masks[1]);
        let writes = [
            // Prepare both controllers for the three bytes that follow.
            PortWrite { port: self.master.command, value: CMD_INIT },
            wait,
            PortWrite { port: self.slave.command, value: CMD_INIT },
            wait,
            // The offsets.
            PortWrite { port: self.master.data, value: self.master.offset },
            wait,
            PortWrite { port: self.slave.data, value: self.slave.offset },
            wait,
            // The chaining between master and slave.
            PortWrite { port: self.master.data, value: 4 },
            wait,
            PortWrite { port: self.slave.data, value: 2 },
            wait,
            // The mode.
            PortWrite { port: self.master.data, value: MODE_X86 },
            wait,
            PortWrite { port: self.slave.data, value: MODE_X86 },
            wait,
            // The masks.
            masks[0],
            masks[1],
        ];
        assert(writes@ =~= self.init_writes(saved_masks));
        writes
    }

    /// The ports from which the interrupt masks are read: the master's, then
    /// the slave's.
    pub fn read_masks(&self) -> (r: [u16; 2])
        ensures
            r[0] == self.master.data,
            r[1] == self.slave.data,
    {
        [self.master.data, self.slave.data]
    }

    /// The writes that set the interrupt masks: the master's, then the
    /// slave's.
    pub fn write_masks(&self, master_m: u8, slave_m: u8) -> (r: [PortWrite; 2])
        ensures
            r[0] == write(self.master.data, master_m),
            r[1] == write(self.slave.data, slave_m),
    {
        [
            PortWrite { port: self.master.data, value: master_m },
            PortWrite { port: self.slave.data, value: slave_m },
        ]
    }

    /// Whether one of the two controllers handles the interrupt.
    pub fn handles_interrupt(&self, interrupt_id: u8) -> (r: bool)
        ensures
            r == (self.master.handles(interrupt_id) || self.slave.handles(interrupt_id)),
    {
        self.master.handles_interrupt(interrupt_id) || self.slave.handles_interrupt(interrupt_id)
    }

    /// The write that ends the interrupt: to the controller that handles it,
    /// the master first; none where neither does.
    pub fn notify_eoi(&self, interrupt_id: u8) -> (r: Option<PortWrite>)
        ensures
            r == (if self.master.handles(interrupt_id) {
                Some(write(self.master.command, CMD_EOI))
            } else if self.slave.handles(interrupt_id) {
                Some(write(self.slave.command, CMD_EOI))
            } else {
                None
            }),
    {
        if self.master.handles_interrupt(interrupt_id) {
            Some(self.master.eoi())
        } else if self.slave.handles_interrupt(interrupt_id) {
            Some(self.slave.eoi())
        } else {
            None
        }
    }
}

} // verus!
