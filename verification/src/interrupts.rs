//! Which interrupts there are, and what handles them.

use vstd::prelude::*;

verus! {

/// The vector of the system call interrupt.
pub const SYSCALL_VECTOR: u8 = 0x80;

/// The first vector of the first interrupt controller. Lower ones belong to the
/// processor's exceptions.
pub const PIC_1_OFFSET: u8 = 32;

/// The first vector of the second interrupt controller.
pub const PIC_2_OFFSET: u8 = 40;

/// The stack that a double fault is handled on.
pub const DOUBLE_FAULT_IST_INDEX: u16 = 0;

/// The hardware interrupts that are handled.
#[derive(Debug, Clone, Copy)]
pub enum InterruptIndex {
    Timer,
    Keyboard,
    Mouse,
}

impl InterruptIndex {
    pub open spec fn vector(self) -> u8 {
        match self {
            InterruptIndex::Timer => PIC_1_OFFSET,
            InterruptIndex::Keyboard => (PIC_1_OFFSET + 1) as u8,
            InterruptIndex::Mouse => (PIC_1_OFFSET + 12) as u8,
        }
    }

    /// The vector that the interrupt arrives at.
    pub fn as_u8(self) -> (r: u8)
        ensures
            r == self.vector(),
    {
        match self {
            InterruptIndex::Timer => PIC_1_OFFSET,
            InterruptIndex::Keyboard => PIC_1_OFFSET + 1,
            InterruptIndex::Mouse => PIC_1_OFFSET + 12,
        }
    }
}

/// What handles an interrupt.
#[derive(Clone, Copy)]
pub enum Handler {
    Breakpoint,
    DoubleFault,
    PageFault,
    Timer,
    Keyboard,
    Mouse,
    Syscall,
}

/// One gate: the vector, its handler, the stack that it switches to, and whether
/// ring 3 may raise it.
#[derive(Clone, Copy)]
pub struct Gate {
    pub vector: u8,
    pub handler: Handler,
    pub stack_index: Option<u16>,
    pub from_ring3: bool,
}

pub open spec fn plain_gate(vector: u8, handler: Handler) -> Gate {
    Gate { vector, handler, stack_index: None, from_ring3: false }
}

/// The gates of the interrupt descriptor table.
pub open spec fn gates() -> Seq<Gate> {
    seq![
        plain_gate(3, Handler::Breakpoint),
        plain_gate(14, Handler::PageFault),
        plain_gate(InterruptIndex::Timer.vector(), Handler::Timer),
        plain_gate(InterruptIndex::Keyboard.vector(), Handler::Keyboard),
        plain_gate(InterruptIndex::Mouse.vector(), Handler::Mouse),
        Gate {
            vector: 8,
            handler: Handler::DoubleFault,
            stack_index: Some(DOUBLE_FAULT_IST_INDEX),
            from_ring3: false,
        },
        Gate {
            vector: SYSCALL_VECTOR,
            handler: Handler::Syscall,
            stack_index: None,
            from_ring3: true,
        },
    ]
}

/// The gates that the interrupt descriptor table is loaded with.
pub fn init_idt() -> (r: Vec<Gate>)
    ensures
        r@ == gates(),
{
    let r: Vec<Gate> = vec![
        Gate { vector: 3, handler: Handler::Breakpoint, stack_index: None, from_ring3: false },
        Gate { vector: 14, handler: Handler::PageFault, stack_index: None, from_ring3: false },
        Gate {
            vector: InterruptIndex::Timer.as_u8(),
            handler: Handler::Timer,
            stack_index: None,
            from_ring3: false,
        },
        Gate {
            vector: InterruptIndex::Keyboard.as_u8(),
            handler: Handler::Keyboard,
            stack_index: None,
            from_ring3: false,
        },
        Gate {
            vector: InterruptIndex::Mouse.as_u8(),
            handler: Handler::Mouse,
            stack_index: None,
            from_ring3: false,
        },
        Gate {
            vector: 8,
            handler: Handler::DoubleFault,
            stack_index: Some(DOUBLE_FAULT_IST_INDEX),
            from_ring3: false,
        },
        Gate {
            vector: SYSCALL_VECTOR,
            handler: Handler::Syscall,
            stack_index: None,
            from_ring3: true,
        },
    ];
    assert(r@ == gates());
    r
}

/// No two gates share a vector, hardware interrupts stay clear of the processor's
/// exceptions, and ring 3 can raise the system call alone.
pub proof fn law_gates_are_apart(i: int, j: int)
    requires
        0 <= i < gates().len(),
        0 <= j < gates().len(),
    ensures
        i != j ==> gates()[i].vector != gates()[j].vector,
        gates()[i].from_ring3 <==> gates()[i].vector == SYSCALL_VECTOR,
        forall|k: InterruptIndex| 32 <= #[trigger] k.vector() < 48,
{
}

/// Whether a handler has a gate at a vector.
pub open spec fn is_gate(h: Handler, vector: u8) -> bool {
    exists|i: int|
        0 <= i < gates().len() && (#[trigger] gates()[i]).handler == h && gates()[i].vector == vector
}

/// Every handler has its gate, at the vector on which the processor raises its event.
/// The double fault alone has a stack of its own, and user code may raise the system
/// call alone.
pub proof fn law_handlers_have_their_vectors(i: int)
    requires
        0 <= i < gates().len(),
    ensures
        is_gate(Handler::Breakpoint, 3),
        is_gate(Handler::DoubleFault, 8),
        is_gate(Handler::PageFault, 14),
        is_gate(Handler::Timer, 32),
        is_gate(Handler::Keyboard, 33),
        is_gate(Handler::Mouse, 44),
        is_gate(Handler::Syscall, 0x80),
        gates().len() == 7,
        gates()[i].stack_index == (if gates()[i].handler is DoubleFault {
            Some(0u16)
        } else {
            None
        }),
        gates()[i].from_ring3 == (gates()[i].handler is Syscall),
        InterruptIndex::Timer.vector() == 32,
        InterruptIndex::Keyboard.vector() == 33,
        InterruptIndex::Mouse.vector() == 44,
{
    let g = gates();
    assert(g[0].vector == 3 && g[1].vector == 14 && g[2].vector == 32 && g[3].vector == 33);
    assert(g[4].vector == 44 && g[5].vector == 8 && g[6].vector == 0x80);
}

} // verus!
