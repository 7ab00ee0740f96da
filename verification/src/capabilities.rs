use vstd::prelude::*;

verus! {

/// Information about a single plugin's capabilities.
#[derive(Debug, Clone)]
pub struct PluginCapability {
    /// Name of the plugin.
    pub name: String,
    /// Whether the plugin supports the build operation.
    pub has_build: bool,
    /// Whether the plugin supports the migrate operation.
    pub has_migrate: bool,
}

/// Result of checking capabilities for a CDM file.
#[derive(Debug)]
pub struct CapabilitiesResult {
    /// List of plugins and their capabilities.
    pub plugins: Vec<PluginCapability>,
    /// Whether any plugin supports build.
    pub can_build: bool,
    /// Whether any plugin supports migrate.
    pub can_migrate: bool,
}

/// What probing one configured plugin gave.
#[derive(Debug)]
pub enum PluginProbe {
    /// The plugin could not be loaded from the cache.
    NotLoaded,
    /// The plugin was loaded; each answer is `None` when asking the plugin failed.
    Loaded { build: Option<bool>, migrate: Option<bool> },
}

/// The build capability that a probe shows: only a plugin that loaded and answered yes.
pub open spec fn probe_build(p: PluginProbe) -> bool {
    p matches PluginProbe::Loaded { build: Some(true), .. }
}

/// The migrate capability that a probe shows: only a plugin that loaded and answered yes.
pub open spec fn probe_migrate(p: PluginProbe) -> bool {
    p matches PluginProbe::Loaded { migrate: Some(true), .. }
}

/// The capabilities of the configured plugins, in their order, from what probing each
/// one gave; the file can build (migrate) when some plugin can.
pub fn collect_capabilities(names: &Vec<String>, probes: &Vec<PluginProbe>) -> (r: CapabilitiesResult)
    requires
        names@.len() == probes@.len(),
    ensures
        r.plugins@.len() == names@.len(),
        forall|i: int| 0 <= i < names@.len() ==> {
            &&& (#[trigger] r.plugins@[i]).name@ == names@[i]@
            &&& r.plugins@[i].has_build == probe_build(probes@[i])
            &&& r.plugins@[i].has_migrate == probe_migrate(probes@[i])
        },
        r.can_build == exists|i: int| 0 <= i < probes@.len() && probe_build(#[trigger] probes@[i]),
        r.can_migrate == exists|i: int| 0 <= i < probes@.len() && probe_migrate(#[trigger] probes@[i]),
{
    let mut plugins: Vec<PluginCapability> = Vec::new();
    let mut can_build = false;
    let mut can_migrate = false;
    let mut i: usize = 0;
    while i < names.len()
        invariant
            names@.len() == probes@.len(),
            i <= names@.len(),
            plugins@.len() == i,
            forall|j: int| 0 <= j < i ==> {
                &&& (#[trigger] plugins@[j]).name@ == names@[j]@
                &&& plugins@[j].has_build == probe_build(probes@[j])
                &&& plugins@[j].has_migrate == probe_migrate(probes@[j])
            },
            can_build == exists|j: int| 0 <= j < i && probe_build(#[trigger] probes@[j]),
            can_migrate == exists|j: int| 0 <= j < i && probe_migrate(#[trigger] probes@[j]),
        decreases names@.len() - i,
    {
        let (has_build, has_migrate) = match &probes[i] {
            PluginProbe::Loaded { build, migrate } => {
                let b = match build { Some(x) => *x, None => false };
                let m = match migrate { Some(x) => *x, None => false };
                (b, m)
            },
            PluginProbe::NotLoaded => (false, false),
        };
        if has_build {
            can_build = true;
        }
        if has_migrate {
            can_migrate = true;
        }
        plugins.push(PluginCapability { name: names[i].clone(), has_build, has_migrate });
        i = i + 1;
    }
    CapabilitiesResult { plugins, can_build, can_migrate }
}

} // verus!
