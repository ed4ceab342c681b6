//! Runtime start-gate for the metrics that the profiler logs.
//!
//! Turning a gate never touches events in flight: a gate is consulted when an
//! event starts, and NCCL picks up the activation mask when it enqueues a new
//! task. The mask lives in NCCL's memory. The gates remember its address and
//! the value that belongs there; [`RuntimeGates::mask_write`] hands both to
//! the code that performs the store.
use crate::config::{Config, Version};
use crate::profiler_shim::{
    ncclProfileColl, ncclProfileGroup, ncclProfileKernelCh, ncclProfileKernelStep, ncclProfileP2p,
    ncclProfileProxyOp, ncclProfileProxyStep,
};
use vstd::prelude::*;

verus! {

/// Desired metric enablement, and where NCCL keeps its activation mask.
#[derive(Clone, Copy, Debug, PartialEq, Eq, Structural)]
pub struct RuntimeGates {
    track_group: bool,
    track_ncclop: bool,
    track_proxyop: bool,
    track_interprocess_proxyop: bool,
    track_steps: bool,
    track_recv_steps: bool,
    track_step_fifo_wait: bool,
    aggregate_steps: bool,
    track_kernel_ch: bool,
    track_kernel_step: bool,
    track_recv_kernel_step: bool,
    api_v6: bool,
    /// Address of NCCL's mask, 0 until it is registered.
    event_mask: usize,
    /// The value last published to that address.
    published: Option<i32>,
}

/// The gates as a plain value.
pub struct GatesView {
    pub track_group: bool,
    pub track_ncclop: bool,
    pub track_proxyop: bool,
    pub track_interprocess_proxyop: bool,
    pub track_steps: bool,
    pub track_recv_steps: bool,
    pub track_step_fifo_wait: bool,
    pub aggregate_steps: bool,
    pub track_kernel_ch: bool,
    pub track_kernel_step: bool,
    pub track_recv_kernel_step: bool,
    pub api_v6: bool,
    pub event_mask: usize,
    pub published: Option<i32>,
}

/// What a field holds after it was asked to become `next`.
pub open spec fn updated(now: bool, next: Option<bool>) -> bool {
    match next {
        Some(v) => v,
        None => now,
    }
}

impl View for RuntimeGates {
    type V = GatesView;

    closed spec fn view(&self) -> GatesView {
        GatesView {
            track_group: self.track_group,
            track_ncclop: self.track_ncclop,
            track_proxyop: self.track_proxyop,
            track_interprocess_proxyop: self.track_interprocess_proxyop,
            track_steps: self.track_steps,
            track_recv_steps: self.track_recv_steps,
            track_step_fifo_wait: self.track_step_fifo_wait,
            aggregate_steps: self.aggregate_steps,
            track_kernel_ch: self.track_kernel_ch,
            track_kernel_step: self.track_kernel_step,
            track_recv_kernel_step: self.track_recv_kernel_step,
            api_v6: self.api_v6,
            event_mask: self.event_mask,
            published: self.published,
        }
    }
}

impl GatesView {
    /// The gates of a process that starts with `config`.
    pub open spec fn initial(config: Config, version: Version) -> GatesView {
        GatesView {
            track_group: config.track_group,
            track_ncclop: config.track_ncclop,
            track_proxyop: config.track_proxyop,
            track_interprocess_proxyop: config.track_interprocess_proxyop,
            track_steps: config.track_steps,
            track_recv_steps: config.track_recv_steps,
            track_step_fifo_wait: config.track_step_fifo_wait,
            aggregate_steps: config.aggregate_steps,
            track_kernel_ch: config.track_kernel_ch,
            track_kernel_step: config.track_kernel_step,
            track_recv_kernel_step: config.track_recv_kernel_step,
            api_v6: version is V6,
            event_mask: 0,
            published: None,
        }
    }

    pub open spec fn proxy_step_enabled(self) -> bool {
        self.track_steps || self.aggregate_steps
    }

    /// The activation mask that these gates ask for. Groups, collectives,
    /// transfers and proxy operations are always on.
    pub open spec fn mask(self) -> i32 {
        let always = ncclProfileGroup | ncclProfileColl | ncclProfileP2p | ncclProfileProxyOp;
        let with_ch = if self.track_kernel_ch {
            always | ncclProfileKernelCh
        } else {
            always
        };
        let with_step = if self.track_kernel_step && self.api_v6 {
            with_ch | ncclProfileKernelStep
        } else {
            with_ch
        };
        if self.proxy_step_enabled() {
            with_step | ncclProfileProxyStep
        } else {
            with_step
        }
    }

    pub open spec fn snapshot(self) -> GateSnapshot {
        GateSnapshot {
            track_group: self.track_group,
            track_ncclop: self.track_ncclop,
            track_proxyop: self.track_proxyop,
            track_interprocess_proxyop: self.track_interprocess_proxyop,
            track_steps: self.track_steps,
            track_recv_steps: self.track_recv_steps,
            track_step_fifo_wait: self.track_step_fifo_wait,
            aggregate_steps: self.aggregate_steps,
            track_kernel_ch: self.track_kernel_ch,
            track_kernel_step: self.track_kernel_step,
            track_recv_kernel_step: self.track_recv_kernel_step,
            mask: self.mask(),
        }
    }

    /// The gates after the mask was published: NCCL's copy holds it, where
    /// its address is known.
    pub open spec fn with_published_mask(self) -> GatesView {
        if self.event_mask == 0 {
            self
        } else {
            GatesView { published: Some(self.mask()), ..self }
        }
    }

    /// The gates after NCCL named the address of its mask. A null address says
    /// nothing, and what a new address holds is not known.
    pub open spec fn registered(self, addr: usize) -> GatesView {
        GatesView {
            event_mask: if addr == 0 {
                self.event_mask
            } else {
                addr
            },
            published: if addr == 0 || addr == self.event_mask {
                self.published
            } else {
                None
            },
            ..self
        }
    }

    /// Whether `addr` is another address than the one that is known.
    pub open spec fn moves_mask(self, addr: usize) -> bool {
        addr != 0 && self.event_mask != 0 && self.event_mask != addr
    }

    /// The store that NCCL's memory is owed: the address and the value.
    pub open spec fn owed_store(self) -> Option<(usize, i32)> {
        match self.published {
            Some(mask) if self.event_mask != 0 => Some((self.event_mask, mask)),
            _ => None,
        }
    }

    /// The gates with every field set that `u` names.
    pub open spec fn with_fields(self, u: GateUpdate) -> GatesView {
        GatesView {
            track_group: updated(self.track_group, u.track_group),
            track_ncclop: updated(self.track_ncclop, u.track_ncclop),
            track_proxyop: updated(self.track_proxyop, u.track_proxyop),
            track_interprocess_proxyop: updated(
                self.track_interprocess_proxyop,
                u.track_interprocess_proxyop,
            ),
            track_steps: updated(self.track_steps, u.track_steps),
            track_recv_steps: updated(self.track_recv_steps, u.track_recv_steps),
            track_step_fifo_wait: updated(self.track_step_fifo_wait, u.track_step_fifo_wait),
            aggregate_steps: updated(self.aggregate_steps, u.aggregate_steps),
            track_kernel_ch: updated(self.track_kernel_ch, u.track_kernel_ch),
            track_kernel_step: updated(self.track_kernel_step, u.track_kernel_step),
            track_recv_kernel_step: updated(self.track_recv_kernel_step, u.track_recv_kernel_step),
            ..self
        }
    }

    /// The gates after `u`: the mask is published anew, whatever changed.
    pub open spec fn after_update(self, u: GateUpdate) -> GatesView {
        self.with_fields(u).with_published_mask()
    }
}

impl RuntimeGates {
    pub fn new(config: &Config, version: Version) -> (r: RuntimeGates)
        ensures
            r@ == GatesView::initial(*config, version),
    {
        RuntimeGates {
            track_group: config.track_group,
            track_ncclop: config.track_ncclop,
            track_proxyop: config.track_proxyop,
            track_interprocess_proxyop: config.track_interprocess_proxyop,
            track_steps: config.track_steps,
            track_recv_steps: config.track_recv_steps,
            track_step_fifo_wait: config.track_step_fifo_wait,
            aggregate_steps: config.aggregate_steps,
            track_kernel_ch: config.track_kernel_ch,
            track_kernel_step: config.track_kernel_step,
            track_recv_kernel_step: config.track_recv_kernel_step,
            api_v6: matches!(version, Version::V6),
            event_mask: 0,
            published: None,
        }
    }

    pub fn track_group(&self) -> (r: bool)
        ensures
            r == self@.track_group,
    {
        self.track_group
    }

    pub fn track_ncclop(&self) -> (r: bool)
        ensures
            r == self@.track_ncclop,
    {
        self.track_ncclop
    }

    pub fn track_proxyop(&self) -> (r: bool)
        ensures
            r == self@.track_proxyop,
    {
        self.track_proxyop
    }

    pub fn track_interprocess_proxyop(&self) -> (r: bool)
        ensures
            r == self@.track_interprocess_proxyop,
    {
        self.track_interprocess_proxyop
    }

    pub fn track_steps(&self) -> (r: bool)
        ensures
            r == self@.track_steps,
    {
        self.track_steps
    }

    pub fn track_recv_steps(&self) -> (r: bool)
        ensures
            r == self@.track_recv_steps,
    {
        self.track_recv_steps
    }

    pub fn track_step_fifo_wait(&self) -> (r: bool)
        ensures
            r == self@.track_step_fifo_wait,
    {
        self.track_step_fifo_wait
    }

    pub fn aggregate_steps(&self) -> (r: bool)
        ensures
            r == self@.aggregate_steps,
    {
        self.aggregate_steps
    }

    pub fn track_kernel_ch(&self) -> (r: bool)
        ensures
            r == self@.track_kernel_ch,
    {
        self.track_kernel_ch
    }

    pub fn track_kernel_step(&self) -> (r: bool)
        ensures
            r == self@.track_kernel_step,
    {
        self.track_kernel_step
    }

    pub fn track_recv_kernel_step(&self) -> (r: bool)
        ensures
            r == self@.track_recv_kernel_step,
    {
        self.track_recv_kernel_step
    }

    pub fn proxy_step_enabled(&self) -> (r: bool)
        ensures
            r == self@.proxy_step_enabled(),
    {
        self.track_steps() || self.aggregate_steps()
    }

    /// The gates and the mask that they ask for.
    pub fn snapshot(&self) -> (r: GateSnapshot)
        ensures
            r == self@.snapshot(),
    {
        GateSnapshot {
            track_group: self.track_group(),
            track_ncclop: self.track_ncclop(),
            track_proxyop: self.track_proxyop(),
            track_interprocess_proxyop: self.track_interprocess_proxyop(),
            track_steps: self.track_steps(),
            track_recv_steps: self.track_recv_steps(),
            track_step_fifo_wait: self.track_step_fifo_wait(),
            aggregate_steps: self.aggregate_steps(),
            track_kernel_ch: self.track_kernel_ch(),
            track_kernel_step: self.track_kernel_step(),
            track_recv_kernel_step: self.track_recv_kernel_step(),
            mask: self.compute_mask(),
        }
    }

    /// Remembers the address of NCCL's global mask. A null address is ignored,
    /// and nothing is known of the mask at a new one before it is published.
    /// Returns whether another address was registered before, which NCCL does
    /// not do.
    pub fn register_mask_ptr(&mut self, addr: usize) -> (changed: bool)
        ensures
            final(self)@ == old(self)@.registered(addr),
            changed == old(self)@.moves_mask(addr),
    {
        if addr == 0 {
            return false;
        }
        let prev: usize = self.event_mask;
        self.event_mask = addr;
        if prev != addr {
            self.published = None;
        }
        prev != 0 && prev != addr
    }

    /// Computes the mask from the current gates, publishes it and returns it.
    pub fn publish_mask(&mut self) -> (mask: i32)
        ensures
            mask == old(self)@.mask(),
            final(self)@ == old(self)@.with_published_mask(),
    {
        let mask: i32 = self.compute_mask();
        self.store_mask(mask);
        mask
    }

    pub fn compute_mask(&self) -> (mask: i32)
        ensures
            mask == self@.mask(),
    {
        // The proxy-operation bit stays on even where deep tracking is off:
        // completion depends on it.
        let mut mask: i32 = ncclProfileGroup | ncclProfileColl | ncclProfileP2p
            | ncclProfileProxyOp;
        if self.track_kernel_ch() {
            mask = mask | ncclProfileKernelCh;
        }
        if self.track_kernel_step() && self.api_v6 {
            mask = mask | ncclProfileKernelStep;
        }
        if self.proxy_step_enabled() {
            mask = mask | ncclProfileProxyStep;
        }
        mask
    }

    fn store_mask(&mut self, mask: i32)
        ensures
            final(self)@ == (GatesView {
                published: if old(self)@.event_mask == 0 {
                    old(self)@.published
                } else {
                    Some(mask)
                },
                ..old(self)@
            }),
    {
        if self.event_mask == 0 {
            return ;
        }
        self.published = Some(mask);
    }

    /// The store that NCCL's memory is owed: the address of the mask and the
    /// value last published to it.
    pub fn mask_write(&self) -> (r: Option<(usize, i32)>)
        ensures
            r == self@.owed_store(),
    {
        match self.published {
            Some(mask) if self.event_mask != 0 => Some((self.event_mask, mask)),
            _ => None,
        }
    }

    /// These gates with every field set that `update` names.
    fn turned(&self, update: &GateUpdate) -> (r: RuntimeGates)
        ensures
            r@ == self@.with_fields(*update),
    {
        RuntimeGates {
            track_group: swap_bool(self.track_group, update.track_group),
            track_ncclop: swap_bool(self.track_ncclop, update.track_ncclop),
            track_proxyop: swap_bool(self.track_proxyop, update.track_proxyop),
            track_interprocess_proxyop: swap_bool(
                self.track_interprocess_proxyop,
                update.track_interprocess_proxyop,
            ),
            track_steps: swap_bool(self.track_steps, update.track_steps),
            track_recv_steps: swap_bool(self.track_recv_steps, update.track_recv_steps),
            track_step_fifo_wait: swap_bool(self.track_step_fifo_wait, update.track_step_fifo_wait),
            aggregate_steps: swap_bool(self.aggregate_steps, update.aggregate_steps),
            track_kernel_ch: swap_bool(self.track_kernel_ch, update.track_kernel_ch),
            track_kernel_step: swap_bool(self.track_kernel_step, update.track_kernel_step),
            track_recv_kernel_step: swap_bool(
                self.track_recv_kernel_step,
                update.track_recv_kernel_step,
            ),
            ..*self
        }
    }

    /// Applies an update and republishes the mask. Returns whether a gate
    /// changed.
    pub fn apply_update(&mut self, update: &GateUpdate) -> (changed: bool)
        ensures
            final(self)@ == old(self)@.after_update(*update),
            changed == (old(self)@.with_fields(*update) != old(self)@),
    {
        let next: RuntimeGates = self.turned(update);
        proof {
            lemma_view_is_whole(next, *self);
        }
        let changed: bool = next != *self;
        *self = next;
        let _ = self.publish_mask();
        changed
    }
}

/// The view of the gates leaves nothing out.
proof fn lemma_view_is_whole(a: RuntimeGates, b: RuntimeGates)
    ensures
        a@ == b@ <==> a == b,
{
}

/// The value that a gate takes when it is asked to become `next`.
fn swap_bool(slot: bool, next: Option<bool>) -> (r: bool)
    ensures
        r == updated(slot, next),
{
    match next {
        Some(v) => v,
        None => slot,
    }
}

/// A request to turn gates; a field that is `None` leaves its gate alone.
#[derive(Clone, Copy, Debug, PartialEq, Eq, Structural)]
pub struct GateUpdate {
    pub track_group: Option<bool>,
    pub track_ncclop: Option<bool>,
    pub track_proxyop: Option<bool>,
    pub track_interprocess_proxyop: Option<bool>,
    pub track_steps: Option<bool>,
    pub track_recv_steps: Option<bool>,
    pub track_step_fifo_wait: Option<bool>,
    pub aggregate_steps: Option<bool>,
    pub track_kernel_ch: Option<bool>,
    pub track_kernel_step: Option<bool>,
    pub track_recv_kernel_step: Option<bool>,
}

impl GateUpdate {
    /// The update that turns nothing.
    pub open spec fn nothing() -> GateUpdate {
        GateUpdate {
            track_group: None,
            track_ncclop: None,
            track_proxyop: None,
            track_interprocess_proxyop: None,
            track_steps: None,
            track_recv_steps: None,
            track_step_fifo_wait: None,
            aggregate_steps: None,
            track_kernel_ch: None,
            track_kernel_step: None,
            track_recv_kernel_step: None,
        }
    }
}

impl Default for GateUpdate {
    fn default() -> (r: GateUpdate)
        ensures
            r == GateUpdate::nothing(),
    {
        GateUpdate {
            track_group: None,
            track_ncclop: None,
            track_proxyop: None,
            track_interprocess_proxyop: None,
            track_steps: None,
            track_recv_steps: None,
            track_step_fifo_wait: None,
            aggregate_steps: None,
            track_kernel_ch: None,
            track_kernel_step: None,
            track_recv_kernel_step: None,
        }
    }
}

/// The state of every gate, and the mask that follows from it.
#[derive(Clone, Copy, Debug, PartialEq, Eq, Structural)]
pub struct GateSnapshot {
    pub track_group: bool,
    pub track_ncclop: bool,
    pub track_proxyop: bool,
    pub track_interprocess_proxyop: bool,
    pub track_steps: bool,
    pub track_recv_steps: bool,
    pub track_step_fifo_wait: bool,
    pub aggregate_steps: bool,
    pub track_kernel_ch: bool,
    pub track_kernel_step: bool,
    pub track_recv_kernel_step: bool,
    pub mask: i32,
}

/// Law: an update is applied once. Applying it again changes nothing more, and
/// says so.
pub proof fn law_update_is_idempotent(g: GatesView, u: GateUpdate)
    ensures
        g.after_update(u).after_update(u) == g.after_update(u),
        g.after_update(u).with_fields(u) == g.after_update(u),
{
}

/// Law: an update that names no gate turns none, and republishes the mask.
pub proof fn law_empty_update_only_republishes(g: GatesView)
    ensures
        g.with_fields(GateUpdate::nothing()) == g,
        g.after_update(GateUpdate::nothing()) == g.with_published_mask(),
{
}

/// Law: after an update every gate that it names reads as asked, every other
/// gate reads as before, and the interface version and the address of the
/// mask stay.
pub proof fn law_update_sets_what_it_names(g: GatesView, u: GateUpdate)
    ensures
        g.after_update(u).snapshot().track_group == updated(g.track_group, u.track_group),
        g.after_update(u).snapshot().track_ncclop == updated(g.track_ncclop, u.track_ncclop),
        g.after_update(u).snapshot().track_proxyop == updated(g.track_proxyop, u.track_proxyop),
        g.after_update(u).snapshot().track_interprocess_proxyop == updated(
            g.track_interprocess_proxyop,
            u.track_interprocess_proxyop,
        ),
        g.after_update(u).snapshot().track_steps == updated(g.track_steps, u.track_steps),
        g.after_update(u).snapshot().track_recv_steps == updated(
            g.track_recv_steps,
            u.track_recv_steps,
        ),
        g.after_update(u).snapshot().track_step_fifo_wait == updated(
            g.track_step_fifo_wait,
            u.track_step_fifo_wait,
        ),
        g.after_update(u).snapshot().aggregate_steps == updated(
            g.aggregate_steps,
            u.aggregate_steps,
        ),
        g.after_update(u).snapshot().track_kernel_ch == updated(
            g.track_kernel_ch,
            u.track_kernel_ch,
        ),
        g.after_update(u).snapshot().track_kernel_step == updated(
            g.track_kernel_step,
            u.track_kernel_step,
        ),
        g.after_update(u).snapshot().track_recv_kernel_step == updated(
            g.track_recv_kernel_step,
            u.track_recv_kernel_step,
        ),
        g.after_update(u).api_v6 == g.api_v6,
        g.after_update(u).event_mask == g.event_mask,
{
}

/// Law: after an update NCCL's copy of the mask, where its address is known, is
/// the mask that the gates ask for, whatever was published before.
pub proof fn law_published_mask_follows_gates(g: GatesView, u: GateUpdate)
    requires
        g.event_mask != 0,
    ensures
        g.after_update(u).published == Some(g.after_update(u).mask()),
{
}

/// Law: the mask always has the bits of groups, collectives, transfers and
/// proxy operations. It has the kernel-channel bit exactly where that is
/// tracked, the kernel-step bit exactly where that is tracked and the
/// interface knows it, and the proxy-step bit exactly where steps are tracked
/// or aggregated.
pub proof fn law_mask_bits(g: GatesView)
    ensures
        g.mask() & ncclProfileGroup != 0,
        g.mask() & ncclProfileColl != 0,
        g.mask() & ncclProfileP2p != 0,
        g.mask() & ncclProfileProxyOp != 0,
        (g.mask() & ncclProfileKernelCh != 0) == g.track_kernel_ch,
        (g.mask() & ncclProfileKernelStep != 0) == (g.track_kernel_step && g.api_v6),
        (g.mask() & ncclProfileProxyStep != 0) == (g.track_steps || g.aggregate_steps),
{
    let ch: i32 = if g.track_kernel_ch {
        0x40
    } else {
        0
    };
    let ks: i32 = if g.track_kernel_step && g.api_v6 {
        0x1000
    } else {
        0
    };
    let ps: i32 = if g.proxy_step_enabled() {
        0x10
    } else {
        0
    };
    let base: i32 = ((0x1i32 | 0x2i32) | 0x4i32) | 0x8i32;
    assert(forall|x: i32| #[trigger] (x | 0i32) == x) by (bit_vector);
    let m: i32 = ((base | ch) | ks) | ps;
    assert(g.mask() == m);
    assert(m & 0x1 != 0 && m & 0x2 != 0 && m & 0x4 != 0 && m & 0x8 != 0
        && ((m & 0x40 != 0) == (ch == 0x40)) && ((m & 0x1000 != 0) == (ks == 0x1000))
        && ((m & 0x10 != 0) == (ps == 0x10))) by (bit_vector)
        requires
            m == ((base | ch) | ks) | ps,
            base == ((0x1i32 | 0x2i32) | 0x4i32) | 0x8i32,
            ch == 0 || ch == 0x40,
            ks == 0 || ks == 0x1000,
            ps == 0 || ps == 0x10,
    ;
}

/// Law: an update turns the gates that it names to what it asks, whatever they
/// were, and leaves the others; the mask is published for the gates as they are
/// then.
pub proof fn law_named_gates_are_turned(g: GatesView, u: GateUpdate)
    ensures
        ({
            let d = g.after_update(u);
            &&& u.track_group is None ==> d.track_group == g.track_group
            &&& u.track_group matches Some(v) ==> d.track_group == v
            &&& u.track_ncclop is None ==> d.track_ncclop == g.track_ncclop
            &&& u.track_ncclop matches Some(v) ==> d.track_ncclop == v
            &&& u.track_proxyop is None ==> d.track_proxyop == g.track_proxyop
            &&& u.track_proxyop matches Some(v) ==> d.track_proxyop == v
            &&& u.track_interprocess_proxyop is None ==> d.track_interprocess_proxyop == g.track_interprocess_proxyop
            &&& u.track_interprocess_proxyop matches Some(v) ==> d.track_interprocess_proxyop == v
            &&& u.track_steps is None ==> d.track_steps == g.track_steps
            &&& u.track_steps matches Some(v) ==> d.track_steps == v
            &&& u.track_recv_steps is None ==> d.track_recv_steps == g.track_recv_steps
            &&& u.track_recv_steps matches Some(v) ==> d.track_recv_steps == v
            &&& u.track_step_fifo_wait is None ==> d.track_step_fifo_wait == g.track_step_fifo_wait
            &&& u.track_step_fifo_wait matches Some(v) ==> d.track_step_fifo_wait == v
            &&& u.aggregate_steps is None ==> d.aggregate_steps == g.aggregate_steps
            &&& u.aggregate_steps matches Some(v) ==> d.aggregate_steps == v
            &&& u.track_kernel_ch is None ==> d.track_kernel_ch == g.track_kernel_ch
            &&& u.track_kernel_ch matches Some(v) ==> d.track_kernel_ch == v
            &&& u.track_kernel_step is None ==> d.track_kernel_step == g.track_kernel_step
            &&& u.track_kernel_step matches Some(v) ==> d.track_kernel_step == v
            &&& u.track_recv_kernel_step is None ==> d.track_recv_kernel_step == g.track_recv_kernel_step
            &&& u.track_recv_kernel_step matches Some(v) ==> d.track_recv_kernel_step == v
            &&& d.api_v6 == g.api_v6
            &&& d.event_mask == g.event_mask
            &&& g.event_mask == 0 ==> d.published == g.published
            &&& g.event_mask != 0 ==> d.published == Some(d.mask()) && d.owed_store() == Some(
                (g.event_mask, d.mask()),
            )
        }),
{
}

/// Whether an update names a gate that is not as it asks.
pub open spec fn is_turned(g: GatesView, u: GateUpdate) -> bool {
    ||| u.track_group matches Some(v) && v != g.track_group
    ||| u.track_ncclop matches Some(v) && v != g.track_ncclop
    ||| u.track_proxyop matches Some(v) && v != g.track_proxyop
    ||| u.track_interprocess_proxyop matches Some(v) && v != g.track_interprocess_proxyop
    ||| u.track_steps matches Some(v) && v != g.track_steps
    ||| u.track_recv_steps matches Some(v) && v != g.track_recv_steps
    ||| u.track_step_fifo_wait matches Some(v) && v != g.track_step_fifo_wait
    ||| u.aggregate_steps matches Some(v) && v != g.aggregate_steps
    ||| u.track_kernel_ch matches Some(v) && v != g.track_kernel_ch
    ||| u.track_kernel_step matches Some(v) && v != g.track_kernel_step
    ||| u.track_recv_kernel_step matches Some(v) && v != g.track_recv_kernel_step
}

/// Law: an update changes something where it names a gate that is not as it asks.
pub proof fn law_changes_are_told(g: GatesView, u: GateUpdate)
    ensures
        g.with_fields(u) != g <==> is_turned(g, u),
{
}

/// Law: a process starts with the gates that its settings ask for, with no mask
/// published; kernel steps are known to the sixth interface alone.
pub proof fn law_gates_start_as_configured(config: Config, version: Version)
    ensures
        GatesView::initial(config, version).track_group == config.track_group,
        GatesView::initial(config, version).track_ncclop == config.track_ncclop,
        GatesView::initial(config, version).track_proxyop == config.track_proxyop,
        GatesView::initial(config, version).track_interprocess_proxyop == config.track_interprocess_proxyop,
        GatesView::initial(config, version).track_steps == config.track_steps,
        GatesView::initial(config, version).track_recv_steps == config.track_recv_steps,
        GatesView::initial(config, version).track_step_fifo_wait == config.track_step_fifo_wait,
        GatesView::initial(config, version).aggregate_steps == config.aggregate_steps,
        GatesView::initial(config, version).track_kernel_ch == config.track_kernel_ch,
        GatesView::initial(config, version).track_kernel_step == config.track_kernel_step,
        GatesView::initial(config, version).track_recv_kernel_step == config.track_recv_kernel_step,
        GatesView::initial(config, version).api_v6 <==> version == Version::V6,
        GatesView::initial(config, version).event_mask == 0,
        GatesView::initial(config, version).published is None,
        GatesView::initial(config, version).owed_store() is None,
{
}

/// Law: a snapshot shows every gate as it stands, and the mask that follows.
pub proof fn law_snapshots_show_every_gate(g: GatesView)
    ensures
        g.snapshot().track_group == g.track_group,
        g.snapshot().track_ncclop == g.track_ncclop,
        g.snapshot().track_proxyop == g.track_proxyop,
        g.snapshot().track_interprocess_proxyop == g.track_interprocess_proxyop,
        g.snapshot().track_steps == g.track_steps,
        g.snapshot().track_recv_steps == g.track_recv_steps,
        g.snapshot().track_step_fifo_wait == g.track_step_fifo_wait,
        g.snapshot().aggregate_steps == g.aggregate_steps,
        g.snapshot().track_kernel_ch == g.track_kernel_ch,
        g.snapshot().track_kernel_step == g.track_kernel_step,
        g.snapshot().track_recv_kernel_step == g.track_recv_kernel_step,
        g.snapshot().mask == g.mask(),
        g.proxy_step_enabled() <==> g.track_steps || g.aggregate_steps,
{
}

/// Law: the mask as a number.
pub proof fn law_mask_as_a_number(g: GatesView)
    ensures
        g.mask() == 15 + (if g.track_kernel_ch {
            64int
        } else {
            0
        }) + (if g.track_kernel_step && g.api_v6 {
            4096int
        } else {
            0
        }) + (if g.track_steps || g.aggregate_steps {
            16int
        } else {
            0
        }),
{
    let ch: i32 = if g.track_kernel_ch {
        0x40
    } else {
        0
    };
    let ks: i32 = if g.track_kernel_step && g.api_v6 {
        0x1000
    } else {
        0
    };
    let ps: i32 = if g.track_steps || g.aggregate_steps {
        0x10
    } else {
        0
    };
    let base: i32 = ((0x1i32 | 0x2i32) | 0x4i32) | 0x8i32;
    assert(forall|x: i32| #[trigger] (x | 0i32) == x) by (bit_vector);
    let m: i32 = ((base | ch) | ks) | ps;
    assert(g.mask() == m);
    assert(m == 15 + ch + ks + ps) by (bit_vector)
        requires
            m == ((base | ch) | ks) | ps,
            base == ((0x1i32 | 0x2i32) | 0x4i32) | 0x8i32,
            ch == 0 || ch == 0x40,
            ks == 0 || ks == 0x1000,
            ps == 0 || ps == 0x10,
    ;
}

/// Law: NCCL's mask is stored where its address was last said to be. Until the
/// mask is published there nothing is stored, and a null address changes nothing.
pub proof fn law_mask_follows_its_address(g: GatesView, addr: usize)
    ensures
        addr == 0 ==> g.registered(addr) == g,
        addr != 0 ==> g.registered(addr).event_mask == addr,
        addr != 0 && addr != g.event_mask ==> g.registered(addr).owed_store() is None,
        addr != 0 ==> g.registered(addr).with_published_mask().owed_store() == Some(
            (addr, g.mask()),
        ),
        addr == g.event_mask ==> g.registered(addr) == g,
        g.registered(addr).mask() == g.mask(),
        g.moves_mask(addr) <==> addr != 0 && g.event_mask != 0 && addr != g.event_mask,
{
}

} // verus!
