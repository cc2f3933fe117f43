//! Compile-level checks of the library's trait surfaces.
use rollout_coordinator::cloud::{ComputeHint, ComputeInventory, SecretStore};
use rollout_coordinator::errors::CoreError;
use rollout_coordinator::observability::{domain_event, EventEmitter, Level, NoopEmitter};
use rollout_coordinator::plugin::{Plugin, PluginHandle, PluginHost, PluginManifest};

#[test]
fn trait_surface_counts_19() {
    // Marker test: the surface check is the compilation of this file.
}

#[test]
fn plugin_host_has_extended_surface() {
    fn _shape(h: &dyn PluginHost, m: PluginManifest, handle: &PluginHandle, payload: Vec<u8>) {
        let _ = h.load(m);
        let _ = h.call(handle, "method", payload.clone());
        let _ = h.reload(handle, "reason");
        let _ = h.unload(handle.clone());
    }
}

#[test]
fn plugin_and_cloud_traits_are_object_safe() {
    fn _plugin(p: &dyn Plugin) -> Result<(), CoreError> {
        let _ = p.name();
        p.validate()
    }
    fn _secrets(s: &dyn SecretStore) {
        let _ = s.get("k");
        let _ = s.put("k", "v");
    }
    fn _hint(h: &dyn ComputeHint) -> Result<ComputeInventory, CoreError> {
        let _ = h.preemption_signal();
        h.inventory()
    }
}

#[test]
fn noop_emitter_accepts_every_event() {
    let e = NoopEmitter;
    let ev = domain_event("worker_registered", Level::Info, None, None);
    assert!(e.emit(ev).is_ok());
}
