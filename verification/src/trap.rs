//! Traps from user programs into the kernel.

pub mod argv;
pub mod laws;
pub mod step;
pub mod syscall;

use vstd::prelude::*;

verus! {

/// The registers of a user program while the kernel runs.
#[derive(Clone, Copy, Debug)]
pub struct Frame {
    /// General registers; `x[2]` is the stack pointer, `x[10]` and `x[11]` are the
    /// first two arguments.
    pub x: [usize; 32],
    /// Where the program goes on.
    pub sepc: usize,
}

/// The registers of a user program.
#[verifier::ext_equal]
pub struct FrameState {
    pub x: Seq<usize>,
    pub sepc: usize,
}

impl View for Frame {
    type V = FrameState;

    open spec fn view(&self) -> FrameState {
        FrameState { x: self.x@, sepc: self.sepc }
    }
}

impl FrameState {
    /// All registers are zero.
    pub open spec fn zeroed() -> FrameState {
        FrameState { x: Seq::new(32, |i: int| 0usize), sepc: 0 }
    }
}

impl Frame {
    /// All registers are zero.
    pub fn zeroed() -> (frame: Self)
        ensures
            frame@ == FrameState::zeroed(),
    {
        let frame = Frame { x: [0; 32], sepc: 0 };
        assert(frame@ =~= FrameState::zeroed());
        frame
    }
}

} // verus!
