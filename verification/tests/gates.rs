use comma::config::{Config, Version};
use comma::profiler_shim::{
    ncclProfileColl, ncclProfileGroup, ncclProfileKernelCh, ncclProfileKernelStep, ncclProfileP2p,
    ncclProfileProxyOp, ncclProfileProxyStep,
};
use comma::runtime_gates::{GateUpdate, RuntimeGates};

const ALWAYS: i32 = ncclProfileGroup | ncclProfileColl | ncclProfileP2p | ncclProfileProxyOp;

fn gates(version: Version) -> RuntimeGates {
    RuntimeGates::new(&Config::default(), version)
}

#[test]
fn gates_start_as_configured() {
    let g = gates(Version::V1);
    let config = Config::default();
    assert_eq!(g.track_group(), config.track_group);
    assert_eq!(g.track_ncclop(), config.track_ncclop);
    assert_eq!(g.track_proxyop(), config.track_proxyop);
    assert_eq!(g.track_interprocess_proxyop(), config.track_interprocess_proxyop);
    assert_eq!(g.track_steps(), config.track_steps);
    assert_eq!(g.track_recv_steps(), config.track_recv_steps);
    assert_eq!(g.track_step_fifo_wait(), config.track_step_fifo_wait);
    assert_eq!(g.aggregate_steps(), config.aggregate_steps);
    assert_eq!(g.track_kernel_ch(), config.track_kernel_ch);
    assert_eq!(g.track_kernel_step(), config.track_kernel_step);
    assert_eq!(g.track_recv_kernel_step(), config.track_recv_kernel_step);
}

#[test]
fn mask_follows_the_gates() {
    let mut g = gates(Version::V6);
    assert_eq!(g.compute_mask(), ALWAYS | ncclProfileProxyStep);
    g.apply_update(&GateUpdate { aggregate_steps: Some(false), ..Default::default() });
    assert!(!g.proxy_step_enabled());
    assert_eq!(g.compute_mask(), ALWAYS);
    let kernel = GateUpdate {
        track_kernel_ch: Some(true),
        track_kernel_step: Some(true),
        ..Default::default()
    };
    g.apply_update(&kernel);
    assert_eq!(g.compute_mask(), ALWAYS | ncclProfileKernelCh | ncclProfileKernelStep);
    assert_eq!(g.snapshot().mask, g.compute_mask());
    let mut old = gates(Version::V5);
    old.apply_update(&kernel);
    assert_eq!(old.compute_mask() & ncclProfileKernelStep, 0);
}

#[test]
fn updates_report_changes() {
    let mut g = gates(Version::V1);
    let update = GateUpdate { track_group: Some(true), ..Default::default() };
    assert!(g.apply_update(&update));
    assert!(!g.apply_update(&update));
    assert!(!g.apply_update(&GateUpdate::default()));
    assert!(g.snapshot().track_group);
}

#[test]
fn mask_is_published_where_its_address_is_known() {
    let mut g = gates(Version::V1);
    let steps = GateUpdate { track_steps: Some(true), ..Default::default() };
    assert!(g.apply_update(&steps));
    assert_eq!(g.mask_write(), None);
    assert!(!g.register_mask_ptr(0));
    assert!(!g.register_mask_ptr(0x1000));
    assert_eq!(g.mask_write(), None);
    let mask = g.publish_mask();
    assert_eq!(g.mask_write(), Some((0x1000, mask)));
    assert!(!g.register_mask_ptr(0x1000));
    let off = GateUpdate {
        track_steps: Some(false),
        aggregate_steps: Some(false),
        ..Default::default()
    };
    g.apply_update(&off);
    assert_eq!(g.mask_write(), Some((0x1000, ALWAYS)));
    assert!(g.register_mask_ptr(0x2000));
    assert_eq!(g.mask_write(), None);
}

#[test]
fn updates_republish_the_mask_whatever_changed() {
    let mut g = gates(Version::V1);
    assert!(!g.register_mask_ptr(0x1000));
    assert_eq!(g.mask_write(), None);
    let before = g;
    assert!(!g.apply_update(&GateUpdate::default()));
    assert_eq!(g.mask_write(), Some((0x1000, g.compute_mask())));
    assert_eq!(g.snapshot(), before.snapshot());
}
