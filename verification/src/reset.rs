//! The soft reset of the device through the CRL_APB registers: lift the
//! write protection of the CRL_APB block once, then request a soft reset
//! for as long as the device keeps running.

use vstd::prelude::*;

verus! {

/// Bit of CRL_WPROT that write-protects the CRL_APB registers.
pub const CRL_WPROT_ACTIVE: u32 = 0x1;

/// Bit of RESET_CTRL that requests a soft reset of the device.
pub const RESET_CTRL_SOFT_RESET: u32 = 0x10;

/// The CRL_WPROT register of CRL_APB.
#[derive(Clone, Copy, Debug)]
pub struct CrlWprot {
    pub raw: u32,
}

impl CrlWprot {
    /// Whether the CRL_APB registers are write-protected.
    pub open spec fn spec_active(self) -> bool {
        self.raw & CRL_WPROT_ACTIVE != 0
    }

    /// The register with the write protection turned on or off; no other bit
    /// changes.
    pub fn with_active(self, active: bool) -> (r: Self)
        ensures
            r.spec_active() == active,
            r.raw & !CRL_WPROT_ACTIVE == self.raw & !CRL_WPROT_ACTIVE,
    {
        let raw = if active {
            self.raw | CRL_WPROT_ACTIVE
        } else {
            self.raw & !CRL_WPROT_ACTIVE
        };
        let old_raw = self.raw;
        assert((old_raw | 1u32) & 1u32 != 0 && (old_raw | 1u32) & !1u32 == old_raw & !1u32 && (
        old_raw & !1u32) & 1u32 == 0 && (old_raw & !1u32) & !1u32 == old_raw & !1u32)
            by (bit_vector);
        CrlWprot { raw }
    }
}

/// The RESET_CTRL register of CRL_APB.
#[derive(Clone, Copy, Debug)]
pub struct ResetCtrl {
    pub raw: u32,
}

impl ResetCtrl {
    /// Whether a soft reset is requested.
    pub open spec fn spec_soft_reset(self) -> bool {
        self.raw & RESET_CTRL_SOFT_RESET != 0
    }

    /// The register with the soft-reset request set or cleared; no other bit
    /// changes.
    pub fn with_soft_reset(self, soft_reset: bool) -> (r: Self)
        ensures
            r.spec_soft_reset() == soft_reset,
            r.raw & !RESET_CTRL_SOFT_RESET == self.raw & !RESET_CTRL_SOFT_RESET,
    {
        let raw = if soft_reset {
            self.raw | RESET_CTRL_SOFT_RESET
        } else {
            self.raw & !RESET_CTRL_SOFT_RESET
        };
        let old_raw = self.raw;
        assert((old_raw | 0x10u32) & 0x10u32 != 0 && (old_raw | 0x10u32) & !0x10u32 == old_raw
            & !0x10u32 && (old_raw & !0x10u32) & 0x10u32 == 0 && (old_raw & !0x10u32) & !0x10u32
            == old_raw & !0x10u32) by (bit_vector);
        ResetCtrl { raw }
    }
}

/// Where the soft-reset sequence stands.
#[derive(Clone, Copy, Debug, PartialEq, Eq, Structural)]
pub enum ResetStep {
    /// The write protection of CRL_APB is still to be lifted.
    Unprotect,
    /// The write protection is lifted; a soft reset is requested.
    Reset,
}

/// A register of CRL_APB that the soft-reset sequence reads and writes.
#[derive(Clone, Copy, Debug, PartialEq, Eq, Structural)]
pub enum CrlApbRegister {
    CrlWprot,
    ResetCtrl,
}

/// A write of `value` to `register`.
#[derive(Clone, Copy, Debug, PartialEq, Eq, Structural)]
pub struct RegisterWrite {
    pub register: CrlApbRegister,
    pub value: u32,
}

/// The register that the step reads, to modify it.
pub open spec fn step_register(step: ResetStep) -> CrlApbRegister {
    match step {
        ResetStep::Unprotect => CrlApbRegister::CrlWprot,
        ResetStep::Reset => CrlApbRegister::ResetCtrl,
    }
}

/// One step of the soft reset: from the current value of the register that
/// `step` reads, the write to make and the next step.
pub open spec fn soft_reset_step(step: ResetStep, current: u32) -> (ResetStep, RegisterWrite) {
    match step {
        ResetStep::Unprotect => (
            ResetStep::Reset,
            RegisterWrite { register: CrlApbRegister::CrlWprot, value: current & !CRL_WPROT_ACTIVE },
        ),
        ResetStep::Reset => (
            ResetStep::Reset,
            RegisterWrite {
                register: CrlApbRegister::ResetCtrl,
                value: current | RESET_CTRL_SOFT_RESET,
            },
        ),
    }
}

/// The register that `soft_reset` modifies in `step`.
pub fn soft_reset_register(step: ResetStep) -> (r: CrlApbRegister)
    ensures
        r == step_register(step),
{
    match step {
        ResetStep::Unprotect => CrlApbRegister::CrlWprot,
        ResetStep::Reset => CrlApbRegister::ResetCtrl,
    }
}

/// Performs a soft reset, one register modification at a time: first clears
/// the write protection of CRL_APB, then sets the soft-reset request of
/// RESET_CTRL, again at every later step. `current` is the value just read
/// from `soft_reset_register(step)`.
pub fn soft_reset(step: ResetStep, current: u32) -> (r: (ResetStep, RegisterWrite))
    ensures
        r == soft_reset_step(step, current),
{
    match step {
        ResetStep::Unprotect => {
            let wprot = CrlWprot { raw: current }.with_active(false);
            let value = wprot.raw;
            assert(value == current & !1u32) by (bit_vector)
                requires
                    value & 1u32 == 0,
                    value & !1u32 == current & !1u32,
            ;
            (ResetStep::Reset, RegisterWrite { register: CrlApbRegister::CrlWprot, value })
        },
        ResetStep::Reset => {
            let reset_ctrl = ResetCtrl { raw: current }.with_soft_reset(true);
            let value = reset_ctrl.raw;
            assert(value == current | 0x10u32) by (bit_vector)
                requires
                    value & 0x10u32 != 0,
                    value & !0x10u32 == current & !0x10u32,
            ;
            (ResetStep::Reset, RegisterWrite { register: CrlApbRegister::ResetCtrl, value })
        },
    }
}

/// The writes of a run of the soft-reset sequence from `step`, given the
/// values read at each step.
pub open spec fn soft_reset_run(step: ResetStep, reads: Seq<u32>) -> Seq<RegisterWrite>
    decreases reads.len(),
{
    if reads.len() == 0 {
        Seq::empty()
    } else {
        let (next, write) = soft_reset_step(step, reads[0]);
        seq![write] + soft_reset_run(next, reads.drop_first())
    }
}

/// From the start, the sequence lifts the write protection exactly once, with
/// its first write, and from then on only requests a soft reset; each write
/// keeps every other bit of the value read.
pub proof fn lemma_soft_reset_sequence(reads: Seq<u32>)
    ensures
        ({
            let writes = soft_reset_run(ResetStep::Unprotect, reads);
            &&& writes.len() == reads.len()
            &&& reads.len() > 0 ==> writes[0] == (RegisterWrite {
                register: CrlApbRegister::CrlWprot,
                value: reads[0] & !CRL_WPROT_ACTIVE,
            })
            &&& forall|k: int|
                1 <= k < reads.len() ==> #[trigger] writes[k] == (RegisterWrite {
                    register: CrlApbRegister::ResetCtrl,
                    value: reads[k] | RESET_CTRL_SOFT_RESET,
                })
        }),
{
    if reads.len() > 0 {
        lemma_reset_repeats(reads.drop_first());
        let writes = soft_reset_run(ResetStep::Unprotect, reads);
        let rest = soft_reset_run(ResetStep::Reset, reads.drop_first());
        assert(writes == seq![writes[0]] + rest);
        assert forall|k: int| 1 <= k < reads.len() implies #[trigger] writes[k] == (RegisterWrite {
            register: CrlApbRegister::ResetCtrl,
            value: reads[k] | RESET_CTRL_SOFT_RESET,
        }) by {
            assert(writes[k] == rest[k - 1]);
            assert(reads.drop_first()[k - 1] == reads[k]);
        }
    }
}

/// Once the write protection is lifted, every write requests a soft reset.
pub proof fn lemma_reset_repeats(reads: Seq<u32>)
    ensures
        ({
            let writes = soft_reset_run(ResetStep::Reset, reads);
            &&& writes.len() == reads.len()
            &&& forall|k: int|
                0 <= k < reads.len() ==> #[trigger] writes[k] == (RegisterWrite {
                    register: CrlApbRegister::ResetCtrl,
                    value: reads[k] | RESET_CTRL_SOFT_RESET,
                })
        }),
    decreases reads.len(),
{
    if reads.len() > 0 {
        lemma_reset_repeats(reads.drop_first());
        let writes = soft_reset_run(ResetStep::Reset, reads);
        let rest = soft_reset_run(ResetStep::Reset, reads.drop_first());
        assert forall|k: int| 0 <= k < reads.len() implies #[trigger] writes[k] == (RegisterWrite {
            register: CrlApbRegister::ResetCtrl,
            value: reads[k] | RESET_CTRL_SOFT_RESET,
        }) by {
            if k > 0 {
                assert(writes[k] == rest[k - 1]);
                assert(reads.drop_first()[k - 1] == reads[k]);
            }
        }
    }
}

} // verus!
