//! Plugin manifests and handles, and harness value types.

use vstd::prelude::*;

use crate::errors::CoreError;

verus! {

/// Stable identifier for a loaded plugin instance.
#[derive(Debug, Clone, PartialEq, Eq, Hash)]
pub struct PluginId(pub String);

/// Categorisation of a plugin's role.
#[derive(Debug, Clone, PartialEq, Eq)]
pub enum PluginKind {
    /// Environment harness plugin.
    EnvHarness,
    /// Tool harness plugin.
    ToolHarness,
    /// Evaluation harness plugin.
    EvalHarness,
    /// Reward-model plugin.
    RewardModel,
    /// Inference-backend plugin.
    InferenceBackend,
    /// Storage backend plugin.
    Storage,
    /// Queue backend plugin.
    Queue,
    /// Object-store backend plugin.
    ObjectStore,
    /// Algorithm-defined extension; identifier carried in the variant.
    Custom(String),
}

/// Loading mode for a plugin.
#[derive(Debug, Clone, Copy, PartialEq, Eq, Structural)]
pub enum PluginMode {
    /// In-process Python plugin.
    Pyo3,
    /// Subprocess RPC sidecar.
    Sidecar,
    /// Rust cdylib.
    RustCdylib,
}

/// Sidecar wire protocol selector.
#[derive(Debug, Clone, Copy, PartialEq, Eq, Structural)]
pub enum SidecarProtocol {
    /// gRPC over a Unix domain socket.
    GrpcUds,
    /// Length-prefixed JSON over a Unix domain socket.
    FramedJsonUds,
}

/// Resource hints declared in the plugin manifest.
#[derive(Debug, Clone, PartialEq, Eq)]
pub struct RuntimeHints {
    /// Minimum required Python version, e.g. `"3.11"`.
    pub python_min: Option<String>,
    /// Whether the plugin needs a GPU.
    pub gpu: bool,
    /// Estimated memory budget in MiB.
    pub memory_mib: u64,
}

/// How to locate the plugin's entry point.
#[derive(Debug, Clone, PartialEq, Eq)]
pub enum EntrySpec {
    /// Rust cdylib entry.
    Cdylib {
        /// Path to the shared library.
        path: String,
        /// Exported factory symbol.
        symbol: String,
    },
    /// In-process Python entry.
    Pyo3 {
        /// Python module name.
        module: String,
        /// Factory function name within the module.
        factory: String,
    },
    /// Subprocess sidecar entry.
    Sidecar {
        /// argv used to spawn the sidecar.
        command: Vec<String>,
        /// Sidecar protocol selector.
        protocol: SidecarProtocol,
        /// Template for the per-instance socket path.
        socket_template: String,
    },
}

/// Parsed plugin manifest.
#[derive(Debug, Clone, PartialEq, Eq)]
pub struct PluginManifest {
    /// Plugin name.
    pub name: String,
    /// Plugin version (semver).
    pub version: String,
    /// Plugin role.
    pub kind: PluginKind,
    /// Fully-qualified trait this plugin implements.
    pub trait_id: String,
    /// Selected loading mode.
    pub mode: PluginMode,
    /// Runtime resource hints.
    pub runtime: RuntimeHints,
    /// Mode-specific entry-point selector.
    pub entry: EntrySpec,
    /// Optional path to the plugin's JSON-Schema config descriptor.
    pub config_schema_path: Option<String>,
    /// Network egress allowlist.
    pub network_allowlist: Vec<String>,
}

/// Per-instance dependencies injected by the host (no fields yet).
#[derive(Debug, Default)]
pub struct PluginDependencies {}

/// Opaque handle returned when a plugin is loaded.
#[derive(Debug, Clone)]
pub struct PluginHandle {
    /// Stable identifier for this instance.
    pub id: PluginId,
    /// Manifest used at load time.
    pub manifest: PluginManifest,
}

/// An observation handed to the policy (text).
#[derive(Debug, Clone, PartialEq, Eq)]
pub struct Observation(pub String);

/// An action emitted by the policy (text).
#[derive(Debug, Clone, PartialEq, Eq)]
pub struct Action(pub String);

/// Side-effect class a tool declares.
#[derive(Debug, Clone, Copy, PartialEq, Eq, Structural)]
pub enum SideEffectClass {
    /// No observable side effects.
    Pure,
    /// Reads/writes the (sandboxed) filesystem.
    Filesystem,
    /// Performs network egress.
    Network,
    /// Executes a subprocess.
    Exec,
}

/// Outcome discriminant of a single tool invocation.
#[derive(Debug, Clone, Copy, PartialEq, Eq, Structural)]
pub enum ToolOutcome {
    /// Completed successfully.
    Success,
    /// Returned a typed error.
    Error,
    /// Exceeded its timeout budget.
    TimedOut,
}

/// Coarse resource estimate for an eval run.
#[derive(Debug, Clone, Copy, Default, PartialEq, Eq)]
pub struct ResourceEstimate {
    /// Estimated number of tasks/examples, if known.
    pub est_tasks: Option<u64>,
}

/// A unit of user-supplied behavior loaded at run time, implemented by
/// plugin authors.
pub trait Plugin {
    /// Plugin name as declared in its manifest.
    fn name(&self) -> &str;

    /// Plan-time validation: cheap, no I/O.
    fn validate(&self) -> Result<(), CoreError>;
}

/// Loads, hot-reloads, and dispatches plugins; implemented by each host.
pub trait PluginHost {
    /// Load a plugin from its parsed manifest. Returns an opaque handle.
    fn load(&self, manifest: PluginManifest) -> Result<PluginHandle, CoreError>;

    /// Invoke a named method on the plugin with raw payload bytes.
    fn call(&self, handle: &PluginHandle, method: &str, payload: Vec<u8>) -> Result<Vec<u8>, CoreError>;

    /// Hot-reload the plugin in place.
    fn reload(&self, handle: &PluginHandle, reason: &str) -> Result<(), CoreError>;

    /// Tear down a loaded plugin. The host owns cleanup of the handle.
    fn unload(&self, handle: PluginHandle) -> Result<(), CoreError>;
}

} // verus!
