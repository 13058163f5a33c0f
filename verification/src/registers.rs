//! The EC register file, modelled as a sequence of bytes, and the plans of
//! single-byte writes that the governor and the BIOS-control guard issue
//! against it.

use vstd::prelude::*;
use vstd::pervasive::VecAdditionalExecFns;

verus! {

/// Offset of the first fan's duty register.
pub const FAN1_OFFSET: usize = 52;
/// Offset of the second fan's duty register.
pub const FAN2_OFFSET: usize = 53;
/// Offset of the CPU temperature register.
pub const CPU_TEMP_OFFSET: usize = 87;
/// Offset of the BIOS thermal-control enable/disable register.
pub const BIOS_OFFSET: usize = 98;
/// Offset of the BIOS thermal-control watchdog-timer register.
pub const TIMER_OFFSET: usize = 99;
/// Offset of the performance-mode selector register.
pub const PERFORMANCE_OFFSET: usize = 149;
/// Offset of the GPU temperature register.
pub const GPU_TEMP_OFFSET: usize = 183;

/// Byte written at `BIOS_OFFSET` to hand thermal control back to the EC.
pub const BIOS_ENABLE_CODE: u8 = 0;
/// Byte written at `BIOS_OFFSET` to take thermal control away from the EC.
pub const BIOS_DISABLE_CODE: u8 = 6;
/// Byte written at `TIMER_OFFSET` to reset the watchdog timer.
pub const TIMER_RESET_CODE: u8 = 0;
/// Byte written at `PERFORMANCE_OFFSET` to select performance mode.
pub const PERFORMANCE_CODE: u8 = 0x31;
/// Byte written at `PERFORMANCE_OFFSET` to select powersave mode.
pub const POWERSAVE_CODE: u8 = 0x30;

/// One absolute-seek, single-byte write to the EC register file.
#[derive(Clone, Copy, PartialEq, Eq, Structural, Debug)]
pub struct WriteOp {
    pub offset: usize,
    pub value: u8,
}

/// The register file after one write; a write past the end of the file is
/// ignored by the model.
pub open spec fn spec_apply_op(regs: Seq<u8>, op: WriteOp) -> Seq<u8> {
    if op.offset < regs.len() {
        regs.update(op.offset as int, op.value)
    } else {
        regs
    }
}

/// The register file after a plan's writes land in order.
pub open spec fn spec_apply_plan(regs: Seq<u8>, plan: Seq<WriteOp>) -> Seq<u8>
    decreases plan.len(),
{
    if plan.len() == 0 {
        regs
    } else {
        spec_apply_plan(spec_apply_op(regs, plan[0]), plan.subrange(1, plan.len() as int))
    }
}

/// Applies a plan to an in-memory image of the register file, write by
/// write, exactly as the model says.
pub fn apply_plan(regs: &mut Vec<u8>, plan: &Vec<WriteOp>)
    ensures
        final(regs)@ == spec_apply_plan(old(regs)@, plan@),
{
    let ghost orig: Seq<u8> = regs@;
    proof {
        assert(plan@.subrange(0, plan@.len() as int) =~= plan@);
    }
    let mut i: usize = 0;
    while i < plan.len()
        invariant
            i <= plan.len(),
            spec_apply_plan(orig, plan@) == spec_apply_plan(
                regs@,
                plan@.subrange(i as int, plan@.len() as int),
            ),
        decreases plan.len() - i,
    {
        let op = plan[i];
        proof {
            let rest = plan@.subrange(i as int, plan@.len() as int);
            assert(rest[0] == plan@[i as int]);
            assert(rest.subrange(1, rest.len() as int) =~= plan@.subrange(
                i + 1,
                plan@.len() as int,
            ));
        }
        if op.offset < regs.len() {
            regs.set(op.offset, op.value);
        }
        i += 1;
    }
    proof {
        assert(plan@.subrange(plan@.len() as int, plan@.len() as int) =~= Seq::<WriteOp>::empty());
    }
}

/// The writes that hand thermal control back to the EC: the enable code at
/// the BIOS offset, and nothing else — in particular the watchdog timer is
/// left alone, so the release path is safe from any execution context.
pub open spec fn spec_release_plan() -> Seq<WriteOp> {
    seq![WriteOp { offset: BIOS_OFFSET, value: BIOS_ENABLE_CODE }]
}

/// The writes that take thermal control away from the EC: the disable code
/// at the BIOS offset, then a reset of the watchdog timer.
pub open spec fn spec_acquire_plan() -> Seq<WriteOp> {
    seq![
        WriteOp { offset: BIOS_OFFSET, value: BIOS_DISABLE_CODE },
        WriteOp { offset: TIMER_OFFSET, value: TIMER_RESET_CODE },
    ]
}

/// Scoped ownership of the EC's native thermal control.  The flag records
/// whether the governor currently owns control; the release plan itself
/// depends on no live state, so it can be replayed from a signal handler
/// or a last-resort error path at any time.
pub struct BiosControlGuard {
    pub owned: bool,
}

impl BiosControlGuard {
    /// A fresh guard; the EC still owns its own thermal control.
    pub fn new() -> (g: Self)
        ensures
            !g.owned,
    {
        BiosControlGuard { owned: false }
    }

    /// The writes that disable native control and claim ownership.
    pub fn acquire(&mut self) -> (plan: Vec<WriteOp>)
        ensures
            final(self).owned,
            plan@ == spec_acquire_plan(),
    {
        self.owned = true;
        let mut plan: Vec<WriteOp> = Vec::new();
        plan.push(WriteOp { offset: BIOS_OFFSET, value: BIOS_DISABLE_CODE });
        plan.push(WriteOp { offset: TIMER_OFFSET, value: TIMER_RESET_CODE });
        proof {
            assert(plan@ =~= spec_acquire_plan());
        }
        plan
    }

    /// The writes that restore native control.  The plan is the same
    /// whether or not `acquire` ever ran, which is what makes every exit
    /// path free to call it.
    pub fn release(&mut self) -> (plan: Vec<WriteOp>)
        ensures
            !final(self).owned,
            plan@ == spec_release_plan(),
    {
        self.owned = false;
        release_plan()
    }
}

/// The release writes as a plain value, for contexts (signal handler,
/// panic path) that hold no guard.
pub fn release_plan() -> (plan: Vec<WriteOp>)
    ensures
        plan@ == spec_release_plan(),
{
    let mut plan: Vec<WriteOp> = Vec::new();
    plan.push(WriteOp { offset: BIOS_OFFSET, value: BIOS_ENABLE_CODE });
    proof {
        assert(plan@ =~= spec_release_plan());
    }
    plan
}

/// The two selectable performance modes of the one-shot control tool.
#[derive(Clone, Copy, PartialEq, Eq, Structural, Debug)]
pub enum PerfMode {
    Performance,
    Powersave,
}

/// The writes of the one-shot mode tool: the mode's code at the selector
/// offset, then a watchdog-timer reset (issued after a fixed delay by the
/// caller).
pub open spec fn spec_performance_plan(mode: PerfMode) -> Seq<WriteOp> {
    let code: u8 = if mode is Performance {
        PERFORMANCE_CODE
    } else {
        POWERSAVE_CODE
    };
    seq![
        WriteOp { offset: PERFORMANCE_OFFSET, value: code },
        WriteOp { offset: TIMER_OFFSET, value: TIMER_RESET_CODE },
    ]
}

/// The writes that select the given performance mode.
pub fn performance_plan(mode: PerfMode) -> (plan: Vec<WriteOp>)
    ensures
        plan@ == spec_performance_plan(mode),
{
    let code: u8 = match mode {
        PerfMode::Performance => PERFORMANCE_CODE,
        PerfMode::Powersave => POWERSAVE_CODE,
    };
    let mut plan: Vec<WriteOp> = Vec::new();
    plan.push(WriteOp { offset: PERFORMANCE_OFFSET, value: code });
    plan.push(WriteOp { offset: TIMER_OFFSET, value: TIMER_RESET_CODE });
    proof {
        assert(plan@ =~= spec_performance_plan(mode));
    }
    plan
}

/// A plan of a single write does to the register file exactly what that
/// write does.
pub proof fn lemma_apply_single(regs: Seq<u8>, op: WriteOp)
    ensures
        spec_apply_plan(regs, seq![op]) == spec_apply_op(regs, op),
{
    let p = seq![op];
    assert(p.subrange(1, 1) =~= Seq::<WriteOp>::empty());
    assert(spec_apply_plan(spec_apply_op(regs, op), p.subrange(1, 1)) == spec_apply_op(regs, op));
    assert(spec_apply_plan(regs, p) == spec_apply_plan(spec_apply_op(regs, op), p.subrange(1, 1)));
}

/// Releasing twice leaves the register file exactly as releasing once
/// does: the release path may race with itself across exit paths.
pub proof fn lemma_release_idempotent(regs: Seq<u8>)
    ensures
        spec_apply_plan(spec_apply_plan(regs, spec_release_plan()), spec_release_plan())
            == spec_apply_plan(regs, spec_release_plan()),
{
    let op = WriteOp { offset: BIOS_OFFSET, value: BIOS_ENABLE_CODE };
    let once = spec_apply_plan(regs, spec_release_plan());
    lemma_apply_single(regs, op);
    lemma_apply_single(once, op);
    assert(spec_release_plan() =~= seq![op]);
    if BIOS_OFFSET < regs.len() {
        assert(spec_apply_op(once, op) =~= once);
    }
}

/// Release writes the enable code at the BIOS offset and touches no other
/// register; in particular the watchdog timer keeps its value.
pub proof fn lemma_release_touches_only_bios(regs: Seq<u8>)
    ensures
        spec_apply_plan(regs, spec_release_plan()).len() == regs.len(),
        BIOS_OFFSET < regs.len() ==> spec_apply_plan(regs, spec_release_plan())[BIOS_OFFSET as int]
            == BIOS_ENABLE_CODE,
        forall|j: int|
            0 <= j < regs.len() && j != BIOS_OFFSET ==> spec_apply_plan(
                regs,
                spec_release_plan(),
            )[j] == regs[j],
{
    let op = WriteOp { offset: BIOS_OFFSET, value: BIOS_ENABLE_CODE };
    lemma_apply_single(regs, op);
    assert(spec_release_plan() =~= seq![op]);
}

} // verus!
