//! What the layer settles when an instance is created.

use vstd::prelude::*;
use crate::config;
use crate::config::LayerConfig;

verus! {

/// Version 1.2 of the interface, as it is encoded.
pub const API_VERSION_1_2: u32 = 0x40_2000;

/// Version 1.3 of the interface.
pub const API_VERSION_1_3: u32 = 0x40_3000;

/// What an application says of itself.
#[derive(Debug, Clone, Copy)]
pub struct AppInfo<'a> {
    /// Its name, where it gives one that is text.
    pub name: Option<&'a str>,
    pub api_version: u32,
}

#[derive(Debug)]
pub struct InstanceContext {
    pub config: LayerConfig,
    pub is_simulation_decoupled: bool,
    /// The version that the application asked for; 0 if it did not say, which
    /// means 1.0. It decides which feature structures can be added to those of
    /// a device.
    pub api_version: u32,
}

pub open spec fn name_of(app: Option<AppInfo>) -> Option<Seq<char>> {
    match app {
        Some(a) => config::opt_text(a.name),
        None => None,
    }
}

impl InstanceContext {
    /// Settles the configuration for the application.
    pub fn new(app: Option<AppInfo>, base_config: &LayerConfig) -> (r: Self)
        ensures
            match config::override_of(base_config.per_app@, name_of(app)) {
                Some(over) => r.config.has_applied(*base_config, over),
                None => r.config.same_as(*base_config),
            },
            r.is_simulation_decoupled == (r.config.force_decoupled || (name_of(app) matches Some(n)
                && config::is_decoupled_app(n))),
            r.api_version == (match app {
                Some(a) => a.api_version,
                None => 0,
            }),
    {
        let (name, api_version): (Option<&str>, u32) = match app {
            Some(a) => (a.name, a.api_version),
            None => (None, 0),
        };
        let config = base_config.finalize_for_app(name);
        let is_simulation_decoupled = config.is_known_decoupled(name);
        InstanceContext { config, is_simulation_decoupled, api_version }
    }

    pub fn supports_1_2(&self) -> (r: bool)
        ensures
            r == (self.api_version >= API_VERSION_1_2),
    {
        self.api_version >= API_VERSION_1_2
    }

    pub fn supports_1_3(&self) -> (r: bool)
        ensures
            r == (self.api_version >= API_VERSION_1_3),
    {
        self.api_version >= API_VERSION_1_3
    }
}

/// An instance is settled for its application: its configuration is the one
/// for the application's name, it is decoupled where that configuration says
/// so for the name, and the version is the one that was asked for.
pub proof fn law_instance_is_settled_for_its_application(
    app: Option<AppInfo>,
    base: &LayerConfig,
    name: Option<&str>,
    c: LayerConfig,
    r: InstanceContext,
    decoupled: bool,
)
    requires
        name == (match app {
            Some(a) => a.name,
            None => None,
        }),
        call_ensures(InstanceContext::new, (app, base), r),
        call_ensures(LayerConfig::finalize_for_app, (base, name), c),
        call_ensures(LayerConfig::is_known_decoupled, (&r.config, name), decoupled),
    ensures
        r.config.expose_reflex == c.expose_reflex,
        r.config.spoof_nvidia == c.spoof_nvidia,
        r.config.force_decoupled == c.force_decoupled,
        r.config.fps_cap == c.fps_cap,
        r.config.spoof_profile == c.spoof_profile,
        r.is_simulation_decoupled == decoupled,
        app matches Some(a) ==> r.api_version == a.api_version,
        app is None ==> r.api_version == 0,
{
}

/// A version is encoded as its major number times two to the 22, its minor one
/// times two to the 12, and a patch. 1.2 and 1.3 are supported from there on.
pub proof fn law_versions_are_in_order(
    c: &InstanceContext,
    major: int,
    minor: int,
    patch: int,
    two: bool,
    three: bool,
)
    requires
        0 <= major < 128,
        0 <= minor < 1024,
        0 <= patch < 4096,
        c.api_version == major * 4_194_304 + minor * 4_096 + patch,
        call_ensures(InstanceContext::supports_1_2, (c,), two),
        call_ensures(InstanceContext::supports_1_3, (c,), three),
    ensures
        two <==> major > 1 || (major == 1 && minor >= 2),
        three <==> major > 1 || (major == 1 && minor >= 3),
{
}

} // verus!
