//! Channels, peripherals and the controller register interface.
//!
//! The register-access layer differs per silicon family and lives outside
//! this crate; the driver core sees it as the capability bundle declared
//! here. The interrupt dispatch decision — which listen bits to drop and
//! which direction's waker to wake for a given set of status bits — is the
//! core's own logic and is verified exactly.

use vstd::prelude::*;
use crate::chain::DescriptorChain;
use crate::DmaError;

verus! {

/// Kinds of interrupt to listen to at the channel level.
#[derive(Debug, Clone, Copy, PartialEq, Eq, Structural)]
pub enum DmaInterrupt {
    /// TX is done.
    TxDone,
    /// RX is done.
    RxDone,
}

/// DMA priorities.
#[derive(Debug, Clone, Copy, PartialEq, Eq, Structural)]
pub enum DmaPriority {
    /// Lowest priority.
    Priority0,
    /// Priority level 1.
    Priority1,
    /// Priority level 2.
    Priority2,
    /// Priority level 3.
    Priority3,
    /// Priority level 4.
    Priority4,
    /// Priority level 5.
    Priority5,
    /// Priority level 6.
    Priority6,
    /// Priority level 7.
    Priority7,
    /// Priority level 8.
    Priority8,
    /// Highest priority.
    Priority9,
}

impl DmaPriority {
    /// The numeric priority level written to the controller.
    pub open spec fn spec_number(self) -> u8 {
        match self {
            DmaPriority::Priority0 => 0,
            DmaPriority::Priority1 => 1,
            DmaPriority::Priority2 => 2,
            DmaPriority::Priority3 => 3,
            DmaPriority::Priority4 => 4,
            DmaPriority::Priority5 => 5,
            DmaPriority::Priority6 => 6,
            DmaPriority::Priority7 => 7,
            DmaPriority::Priority8 => 8,
            DmaPriority::Priority9 => 9,
        }
    }

    /// The numeric priority level written to the controller.
    pub fn number(&self) -> (r: u8)
        ensures
            r == self.spec_number(),
    {
        match self {
            DmaPriority::Priority0 => 0,
            DmaPriority::Priority1 => 1,
            DmaPriority::Priority2 => 2,
            DmaPriority::Priority3 => 3,
            DmaPriority::Priority4 => 4,
            DmaPriority::Priority5 => 5,
            DmaPriority::Priority6 => 6,
            DmaPriority::Priority7 => 7,
            DmaPriority::Priority8 => 8,
            DmaPriority::Priority9 => 9,
        }
    }
}

/// DMA-capable peripherals. The selector values match the technical
/// reference manual and are forwarded verbatim to the controller.
#[derive(Debug, Clone, Copy, PartialEq, Eq, Structural)]
pub enum DmaPeripheral {
    /// SPI2.
    Spi2,
    /// SPI3.
    Spi3,
    /// UHCI0.
    Uhci0,
    /// I2S0.
    I2s0,
    /// I2S1.
    I2s1,
    /// LCD/camera.
    LcdCam,
    /// AES accelerator.
    Aes,
    /// SHA accelerator.
    Sha,
    /// ADC.
    Adc,
    /// RMT.
    Rmt,
}

impl DmaPeripheral {
    /// The 8-bit peripheral selector written to the controller.
    pub open spec fn spec_number(self) -> u8 {
        match self {
            DmaPeripheral::Spi2 => 0,
            DmaPeripheral::Spi3 => 1,
            DmaPeripheral::Uhci0 => 2,
            DmaPeripheral::I2s0 => 3,
            DmaPeripheral::I2s1 => 4,
            DmaPeripheral::LcdCam => 5,
            DmaPeripheral::Aes => 6,
            DmaPeripheral::Sha => 7,
            DmaPeripheral::Adc => 8,
            DmaPeripheral::Rmt => 9,
        }
    }

    /// The 8-bit peripheral selector written to the controller.
    pub fn number(&self) -> (r: u8)
        ensures
            r == self.spec_number(),
    {
        match self {
            DmaPeripheral::Spi2 => 0,
            DmaPeripheral::Spi3 => 1,
            DmaPeripheral::Uhci0 => 2,
            DmaPeripheral::I2s0 => 3,
            DmaPeripheral::I2s1 => 4,
            DmaPeripheral::LcdCam => 5,
            DmaPeripheral::Aes => 6,
            DmaPeripheral::Sha => 7,
            DmaPeripheral::Adc => 8,
            DmaPeripheral::Rmt => 9,
        }
    }
}

/// Marker trait for peripheral singletons.
pub trait PeripheralMarker {

}

/// A peripheral that can drive DMA, knowing its own selector.
pub trait DmaEligible {
    /// The DMA peripheral selector for this peripheral.
    fn dma_peripheral(&self) -> DmaPeripheral;
}

/// Marks peripherals as usable for SPI.
pub trait SpiPeripheral: PeripheralMarker {

}

/// Marks peripherals as usable for SPI2.
pub trait Spi2Peripheral: SpiPeripheral + PeripheralMarker {

}

/// Marks peripherals as usable for SPI3.
pub trait Spi3Peripheral: SpiPeripheral + PeripheralMarker {

}

/// Marks peripherals as usable for I2S.
pub trait I2sPeripheral: PeripheralMarker {

}

/// Marks peripherals as usable for I2S0.
pub trait I2s0Peripheral: I2sPeripheral + PeripheralMarker {

}

/// Marks peripherals as usable for I2S1.
pub trait I2s1Peripheral: I2sPeripheral + PeripheralMarker {

}

/// Marks peripherals as usable for PARL_IO.
pub trait ParlIoPeripheral: PeripheralMarker {

}

/// Marks peripherals as usable for AES.
pub trait AesPeripheral: PeripheralMarker {

}

/// Marks peripherals as usable for LCD_CAM.
pub trait LcdCamPeripheral: PeripheralMarker {

}

/// The per-channel register capability bundle the core depends on. Each
/// silicon family implements it over its own register block; the core only
/// invokes it, so no contract is stated here.
pub trait RegisterAccess {
    /// One-time channel initialization.
    fn init_channel();

    /// Set the outbound burst mode.
    fn set_out_burstmode(burst_mode: bool);

    /// Set the outbound priority level.
    fn set_out_priority(priority: DmaPriority);

    /// Clear all outbound interrupt bits.
    fn clear_out_interrupts();

    /// Reset the outbound engine.
    fn reset_out();

    /// Publish the first outbound descriptor address.
    fn set_out_descriptors(address: u32);

    /// Whether the outbound engine rejected a descriptor.
    fn has_out_descriptor_error() -> bool;

    /// Bind the outbound engine to a peripheral selector.
    fn set_out_peripheral(peripheral: u8);

    /// Start the outbound engine.
    fn start_out();

    /// Clear the outbound channel-done latch.
    fn clear_ch_out_done();

    /// Whether the outbound channel-done latch is set.
    fn is_ch_out_done_set() -> bool;

    /// Listen for outbound channel-done.
    fn listen_ch_out_done();

    /// Stop listening for outbound channel-done.
    fn unlisten_ch_out_done();

    /// Whether outbound channel-done is listened for.
    fn is_listening_ch_out_done() -> bool;

    /// Whether the outbound transfer is done.
    fn is_out_done() -> bool;

    /// Whether the outbound end-of-frame interrupt latch is set.
    fn is_out_eof_interrupt_set() -> bool;

    /// Clear the outbound end-of-frame interrupt latch.
    fn reset_out_eof_interrupt();

    /// The last outbound descriptor address the engine completed.
    fn last_out_dscr_address() -> usize;

    /// Set the inbound burst mode.
    fn set_in_burstmode(burst_mode: bool);

    /// Set the inbound priority level.
    fn set_in_priority(priority: DmaPriority);

    /// Clear all inbound interrupt bits.
    fn clear_in_interrupts();

    /// Reset the inbound engine.
    fn reset_in();

    /// Publish the first inbound descriptor address.
    fn set_in_descriptors(address: u32);

    /// Whether the inbound engine rejected a descriptor.
    fn has_in_descriptor_error() -> bool;

    /// Whether the inbound engine ran out of descriptors.
    fn has_in_descriptor_error_dscr_empty() -> bool;

    /// Whether the inbound engine saw an end-of-frame error.
    fn has_in_descriptor_error_err_eof() -> bool;

    /// Bind the inbound engine to a peripheral selector.
    fn set_in_peripheral(peripheral: u8);

    /// Start the inbound engine.
    fn start_in();

    /// Whether the inbound transfer is done.
    fn is_in_done() -> bool;

    /// Whether inbound end-of-frame is listened for.
    fn is_listening_in_eof() -> bool;

    /// Whether outbound end-of-frame is listened for.
    fn is_listening_out_eof() -> bool;

    /// Listen for inbound end-of-frame.
    fn listen_in_eof();

    /// Listen for outbound end-of-frame.
    fn listen_out_eof();

    /// Stop listening for inbound end-of-frame.
    fn unlisten_in_eof();

    /// Stop listening for outbound end-of-frame.
    fn unlisten_out_eof();

    /// Listen for inbound descriptor errors.
    fn listen_in_descriptor_error();

    /// Stop listening for inbound descriptor errors.
    fn unlisten_in_descriptor_error();

    /// Whether inbound descriptor errors are listened for.
    fn is_listening_in_descriptor_error() -> bool;

    /// Listen for the inbound descriptor-empty error.
    fn listen_in_descriptor_error_dscr_empty();

    /// Stop listening for the inbound descriptor-empty error.
    fn unlisten_in_descriptor_error_dscr_empty();

    /// Whether the inbound descriptor-empty error is listened for.
    fn is_listening_in_descriptor_error_dscr_empty() -> bool;

    /// Listen for the inbound end-of-frame error.
    fn listen_in_descriptor_error_err_eof();

    /// Stop listening for the inbound end-of-frame error.
    fn unlisten_in_descriptor_error_err_eof();

    /// Whether the inbound end-of-frame error is listened for.
    fn is_listening_in_descriptor_error_err_eof() -> bool;

    /// Listen for outbound descriptor errors.
    fn listen_out_descriptor_error();

    /// Stop listening for outbound descriptor errors.
    fn unlisten_out_descriptor_error();

    /// Whether outbound descriptor errors are listened for.
    fn is_listening_out_descriptor_error() -> bool;

    /// Listen for inbound channel-done.
    fn listen_ch_in_done();

    /// Clear the inbound channel-done latch.
    fn clear_ch_in_done();

    /// Whether the inbound channel-done latch is set.
    fn is_ch_in_done_set() -> bool;

    /// Stop listening for inbound channel-done.
    fn unlisten_ch_in_done();

    /// Whether inbound channel-done is listened for.
    fn is_listening_ch_in_done() -> bool;
}

/// The receive half of a channel, as the driver core uses it. Peripheral
/// drivers implement it by forwarding to their channel's register access;
/// the core states no contract over it and treats every answer as a plain
/// observation.
pub trait Rx {
    /// Configure burst mode and priority.
    fn init(&mut self, burst_mode: bool, priority: DmaPriority);

    /// One-time channel initialization.
    fn init_channel(&mut self);

    /// Publish the chain's first descriptor and bind the peripheral.
    fn prepare_transfer_without_start(&mut self, peri: DmaPeripheral, chain: &DescriptorChain)
        -> Result<(), DmaError>;

    /// Start the inbound engine.
    fn start_transfer(&mut self) -> Result<(), DmaError>;

    /// Listen for inbound channel-done.
    fn listen_ch_in_done(&mut self);

    /// Clear the inbound channel-done latch.
    fn clear_ch_in_done(&mut self);

    /// Whether the inbound channel-done latch is set.
    fn is_ch_in_done_set(&mut self) -> bool;

    /// Stop listening for inbound channel-done.
    fn unlisten_ch_in_done(&mut self);

    /// Whether inbound channel-done is listened for.
    fn is_listening_ch_in_done(&mut self) -> bool;

    /// Whether the inbound transfer is done.
    fn is_done(&mut self) -> bool;

    /// Whether inbound end-of-frame is listened for.
    fn is_listening_eof(&mut self) -> bool;

    /// Listen for inbound end-of-frame.
    fn listen_eof(&mut self);

    /// Stop listening for inbound end-of-frame.
    fn unlisten_eof(&mut self);

    /// Whether the inbound engine rejected a descriptor.
    fn has_error(&mut self) -> bool;

    /// Whether the inbound engine ran out of descriptors.
    fn has_dscr_empty_error(&mut self) -> bool;

    /// Whether the inbound engine saw an end-of-frame error.
    fn has_eof_error(&mut self) -> bool;

    /// Whether inbound descriptor errors are listened for.
    fn is_listening_in_descriptor_error(&mut self) -> bool;

    /// Listen for inbound descriptor errors.
    fn listen_in_descriptor_error(&mut self);

    /// Stop listening for inbound descriptor errors.
    fn unlisten_in_descriptor_error(&mut self);

    /// Whether the inbound descriptor-empty error is listened for.
    fn is_listening_in_descriptor_error_dscr_empty(&mut self) -> bool;

    /// Listen for the inbound descriptor-empty error.
    fn listen_in_descriptor_error_dscr_empty(&mut self);

    /// Stop listening for the inbound descriptor-empty error.
    fn unlisten_in_descriptor_error_dscr_empty(&mut self);

    /// Whether the inbound end-of-frame error is listened for.
    fn is_listening_in_descriptor_error_err_eof(&mut self) -> bool;

    /// Listen for the inbound end-of-frame error.
    fn listen_in_descriptor_error_err_eof(&mut self);

    /// Stop listening for the inbound end-of-frame error.
    fn unlisten_in_descriptor_error_err_eof(&mut self);

    /// Clear all inbound interrupt bits.
    fn clear_interrupts(&mut self);
}

/// The transmit half of a channel, as the driver core uses it. Peripheral
/// drivers implement it by forwarding to their channel's register access;
/// the core states no contract over it and treats every answer as a plain
/// observation.
pub trait Tx {
    /// Configure burst mode and priority.
    fn init(&mut self, burst_mode: bool, priority: DmaPriority);

    /// One-time channel initialization.
    fn init_channel(&mut self);

    /// Publish the chain's first descriptor and bind the peripheral.
    fn prepare_transfer_without_start(&mut self, peri: DmaPeripheral, chain: &DescriptorChain)
        -> Result<(), DmaError>;

    /// Start the outbound engine.
    fn start_transfer(&mut self) -> Result<(), DmaError>;

    /// Clear the outbound channel-done latch.
    fn clear_ch_out_done(&mut self);

    /// Whether the outbound channel-done latch is set.
    fn is_ch_out_done_set(&mut self) -> bool;

    /// Listen for outbound channel-done.
    fn listen_ch_out_done(&mut self);

    /// Stop listening for outbound channel-done.
    fn unlisten_ch_out_done(&mut self);

    /// Whether outbound channel-done is listened for.
    fn is_listening_ch_out_done(&mut self) -> bool;

    /// Whether the outbound transfer is done.
    fn is_done(&mut self) -> bool;

    /// Whether outbound end-of-frame is listened for.
    fn is_listening_eof(&mut self) -> bool;

    /// Listen for outbound end-of-frame.
    fn listen_eof(&mut self);

    /// Stop listening for outbound end-of-frame.
    fn unlisten_eof(&mut self);

    /// Whether outbound descriptor errors are listened for.
    fn is_listening_out_descriptor_error(&mut self) -> bool;

    /// Listen for outbound descriptor errors.
    fn listen_out_descriptor_error(&mut self);

    /// Stop listening for outbound descriptor errors.
    fn unlisten_out_descriptor_error(&mut self);

    /// Whether the outbound engine rejected a descriptor.
    fn has_error(&mut self) -> bool;

    /// Clear all outbound interrupt bits.
    fn clear_interrupts(&mut self);

    /// Whether the outbound end-of-frame latch is set: descriptors have
    /// been handled since the last reset.
    fn descriptors_handled(&mut self) -> bool;

    /// Clear the outbound end-of-frame latch.
    fn reset_descriptors_handled(&mut self);

    /// The last outbound descriptor address the engine completed.
    fn last_out_dscr_address(&mut self) -> usize;
}

/// The channel status bits the interrupt handler inspects, read once at
/// dispatch time.
#[derive(Debug, Clone, Copy, PartialEq, Eq, Structural)]
pub struct IsrStatus {
    /// Inbound descriptor error.
    pub in_descriptor_error: bool,
    /// Inbound descriptor-empty error.
    pub in_descriptor_error_dscr_empty: bool,
    /// Inbound end-of-frame error.
    pub in_descriptor_error_err_eof: bool,
    /// Outbound descriptor error.
    pub out_descriptor_error: bool,
    /// Inbound transfer done.
    pub in_done: bool,
    /// Inbound end-of-frame listened for.
    pub listening_in_eof: bool,
    /// Inbound channel-done latch.
    pub ch_in_done: bool,
    /// Outbound transfer done.
    pub out_done: bool,
    /// Outbound end-of-frame listened for.
    pub listening_out_eof: bool,
    /// Outbound channel-done latch.
    pub ch_out_done: bool,
}

/// What the interrupt handler does for a given set of status bits: which
/// listen bits it drops and which direction's waker it wakes.
#[derive(Debug, Clone, Copy, PartialEq, Eq, Structural)]
pub struct IsrActions {
    /// Drop the three inbound error listens.
    pub unlisten_in_errors: bool,
    /// Drop the inbound end-of-frame listen.
    pub unlisten_in_eof: bool,
    /// Drop the inbound channel-done listen.
    pub unlisten_ch_in_done: bool,
    /// Drop the outbound error listen.
    pub unlisten_out_error: bool,
    /// Drop the outbound end-of-frame listen.
    pub unlisten_out_eof: bool,
    /// Drop the outbound channel-done listen.
    pub unlisten_ch_out_done: bool,
    /// Wake the receive waker.
    pub wake_rx: bool,
    /// Wake the transmit waker.
    pub wake_tx: bool,
}

/// Whether any inbound error fired.
pub open spec fn rx_error_fired(s: IsrStatus) -> bool {
    s.in_descriptor_error || s.in_descriptor_error_dscr_empty || s.in_descriptor_error_err_eof
}

/// The exact dispatch decision: each fired condition that was listened to
/// drops exactly the listens it answered and wakes its direction's waker,
/// so no stray interrupt can fire again before the future's next poll
/// reasserts its listens.
pub open spec fn isr_actions_spec(s: IsrStatus) -> IsrActions {
    IsrActions {
        unlisten_in_errors: rx_error_fired(s),
        unlisten_in_eof: rx_error_fired(s) || (s.in_done && s.listening_in_eof),
        unlisten_ch_in_done: rx_error_fired(s) || s.ch_in_done,
        unlisten_out_error: s.out_descriptor_error,
        unlisten_out_eof: s.out_descriptor_error || (s.out_done && s.listening_out_eof),
        unlisten_ch_out_done: s.out_descriptor_error || s.ch_out_done,
        wake_rx: rx_error_fired(s) || (s.in_done && s.listening_in_eof) || s.ch_in_done,
        wake_tx: s.out_descriptor_error || (s.out_done && s.listening_out_eof) || s.ch_out_done,
    }
}

/// Compute the dispatch decision for one channel's status bits.
pub fn isr_actions(s: IsrStatus) -> (a: IsrActions)
    ensures
        a == isr_actions_spec(s),
{
    let rx_err = s.in_descriptor_error || s.in_descriptor_error_dscr_empty
        || s.in_descriptor_error_err_eof;
    IsrActions {
        unlisten_in_errors: rx_err,
        unlisten_in_eof: rx_err || (s.in_done && s.listening_in_eof),
        unlisten_ch_in_done: rx_err || s.ch_in_done,
        unlisten_out_error: s.out_descriptor_error,
        unlisten_out_eof: s.out_descriptor_error || (s.out_done && s.listening_out_eof),
        unlisten_ch_out_done: s.out_descriptor_error || s.ch_out_done,
        wake_rx: rx_err || (s.in_done && s.listening_in_eof) || s.ch_in_done,
        wake_tx: s.out_descriptor_error || (s.out_done && s.listening_out_eof) || s.ch_out_done,
    }
}

/// Per-channel interrupt dispatch: read the channel's status bits once,
/// drop the listen bits the fired conditions answered, and report which
/// direction's waker to wake (the async runtime owns the waker slots).
pub fn handle_interrupt<R: RegisterAccess>() -> (wake: (bool, bool)) {
    let status = IsrStatus {
        in_descriptor_error: R::has_in_descriptor_error(),
        in_descriptor_error_dscr_empty: R::has_in_descriptor_error_dscr_empty(),
        in_descriptor_error_err_eof: R::has_in_descriptor_error_err_eof(),
        out_descriptor_error: R::has_out_descriptor_error(),
        in_done: R::is_in_done(),
        listening_in_eof: R::is_listening_in_eof(),
        ch_in_done: R::is_ch_in_done_set(),
        out_done: R::is_out_done(),
        listening_out_eof: R::is_listening_out_eof(),
        ch_out_done: R::is_ch_out_done_set(),
    };
    let actions = isr_actions(status);
    if actions.unlisten_in_errors {
        R::unlisten_in_descriptor_error();
        R::unlisten_in_descriptor_error_dscr_empty();
        R::unlisten_in_descriptor_error_err_eof();
    }
    if actions.unlisten_in_eof {
        R::unlisten_in_eof();
    }
    if actions.unlisten_ch_in_done {
        R::unlisten_ch_in_done();
    }
    if actions.unlisten_out_error {
        R::unlisten_out_descriptor_error();
    }
    if actions.unlisten_out_eof {
        R::unlisten_out_eof();
    }
    if actions.unlisten_ch_out_done {
        R::unlisten_ch_out_done();
    }
    (actions.wake_rx, actions.wake_tx)
}

/// Whether one descriptor meets the burst-mode alignment rule: a fragment
/// length and buffer address each divisible by four.
pub open spec fn descriptor_aligned(d: crate::descriptor::DmaDescriptor) -> bool {
    &&& d.spec_len() % 4 == 0
    &&& d.buffer % 4 == 0
}

/// Whether every descriptor of the chain meets the burst-mode alignment
/// rule.
pub open spec fn burst_aligned(c: DescriptorChain) -> bool {
    forall|i: int|
        0 <= i < c.descriptors.len() ==> #[trigger] descriptor_aligned(c.descriptors[i])
}

/// The alignment gate of transfer preparation: in burst mode a chain with
/// any fragment of unaligned length or address is rejected with
/// `InvalidAlignment`; otherwise the chain passes.
pub fn check_burst_alignment(chain: &DescriptorChain, burst_mode: bool) -> (r: Result<
    (),
    DmaError,
>)
    ensures
        !burst_mode || burst_aligned(*chain) ==> r == Ok::<(), DmaError>(()),
        burst_mode && !burst_aligned(*chain) ==> r == Err::<(), DmaError>(
            DmaError::InvalidAlignment,
        ),
{
    if !burst_mode {
        return Ok(());
    }
    let total = chain.descriptors.len();
    let mut k: usize = 0;
    while k < total
        invariant
            burst_mode,
            k <= total,
            total == chain.descriptors.len(),
            forall|i: int| 0 <= i < k ==> #[trigger] descriptor_aligned(chain.descriptors[i]),
        decreases total - k,
    {
        let d = chain.descriptors[k];
        if d.len() % 4 != 0 || d.buffer % 4 != 0 {
            proof {
                assert(!descriptor_aligned(chain.descriptors[k as int]));
            }
            return Err(DmaError::InvalidAlignment);
        }
        k += 1;
    }
    Ok(())
}

} // verus!
