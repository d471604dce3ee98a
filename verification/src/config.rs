//! Layer configuration: environment settings, per-application overrides and
//! the device identities that the layer can present.

use vstd::prelude::*;
use crate::text;
use crate::text::{chars_of, parse_number, same_str, spells};
use crate::toml;
use crate::toml::{load_toml, AppOverride, TomlWarning};

verus! {

pub const LAYER_NAME: &'static str = "VK_LAYER_VKPACE_reduce_latency";

pub const NVIDIA_VENDOR_ID: u32 = 0x10DE;

pub const REFLEX_ENV: &'static str = "VKPACE_REFLEX";

pub const SPOOF_NVIDIA_ENV: &'static str = "VKPACE_SPOOF_NVIDIA";

pub const SPOOF_MODEL_ENV: &'static str = "VKPACE_SPOOF_MODEL";

pub const FORCE_DECOUPLED_ENV: &'static str = "VKPACE_FORCE_DECOUPLED";

pub const FPS_CAP_ENV: &'static str = "VKPACE_FPS_CAP";

pub const VRR_ENV: &'static str = "VKPACE_VRR";

pub const VRR_OFFSET_ENV: &'static str = "VKPACE_VRR_OFFSET_HZ";

/// How many hertz the frame rate stays below that of the display.
pub const DEFAULT_VRR_OFFSET_HZ: u32 = 3;

pub const CONFIG_PATH_ENV: &'static str = "VKPACE_CONFIG";

/// Applications that simulate on another thread than they render on.
pub const DECOUPLED_SIMULATION_APPS: [&'static str; 1] = ["Marvel-Win64-Shipping.exe"];

/// (preset key, PCI device ID, marketing name)
///
/// IDs are the most common consumer variant for each model. Vulkan apps
/// almost never key on the exact die revision, but the table is exhaustive
/// enough that anything checking for a 20/30/40/50-series card will be
/// satisfied.
pub const NVIDIA_PRESETS: [(&'static str, u32, &'static str); 31] = [
    // Turing (RTX 20)
    ("RTX_2060", 0x1F08, "NVIDIA GeForce RTX 2060"),
    ("RTX_2060_SUPER", 0x1F47, "NVIDIA GeForce RTX 2060 SUPER"),
    ("RTX_2070", 0x1F02, "NVIDIA GeForce RTX 2070"),
    ("RTX_2070_SUPER", 0x1E84, "NVIDIA GeForce RTX 2070 SUPER"),
    ("RTX_2080", 0x1E87, "NVIDIA GeForce RTX 2080"),
    ("RTX_2080_SUPER", 0x1E81, "NVIDIA GeForce RTX 2080 SUPER"),
    ("RTX_2080_TI", 0x1E07, "NVIDIA GeForce RTX 2080 Ti"),
    // Ampere (RTX 30)
    ("RTX_3050", 0x2507, "NVIDIA GeForce RTX 3050"),
    ("RTX_3060", 0x2504, "NVIDIA GeForce RTX 3060"),
    ("RTX_3060_TI", 0x2489, "NVIDIA GeForce RTX 3060 Ti"),
    ("RTX_3070", 0x2484, "NVIDIA GeForce RTX 3070"),
    ("RTX_3070_TI", 0x2482, "NVIDIA GeForce RTX 3070 Ti"),
    ("RTX_3080", 0x2206, "NVIDIA GeForce RTX 3080"),
    ("RTX_3080_TI", 0x2208, "NVIDIA GeForce RTX 3080 Ti"),
    ("RTX_3090", 0x2204, "NVIDIA GeForce RTX 3090"),
    ("RTX_3090_TI", 0x2203, "NVIDIA GeForce RTX 3090 Ti"),
    // Ada Lovelace (RTX 40)
    ("RTX_4060", 0x2882, "NVIDIA GeForce RTX 4060"),
    ("RTX_4060_TI", 0x2803, "NVIDIA GeForce RTX 4060 Ti"),
    ("RTX_4070", 0x2786, "NVIDIA GeForce RTX 4070"),
    ("RTX_4070_SUPER", 0x2783, "NVIDIA GeForce RTX 4070 SUPER"),
    ("RTX_4070_TI", 0x2782, "NVIDIA GeForce RTX 4070 Ti"),
    ("RTX_4070_TI_SUPER", 0x2705, "NVIDIA GeForce RTX 4070 Ti SUPER"),
    ("RTX_4080", 0x2704, "NVIDIA GeForce RTX 4080"),
    ("RTX_4080_SUPER", 0x2702, "NVIDIA GeForce RTX 4080 SUPER"),
    ("RTX_4090", 0x2684, "NVIDIA GeForce RTX 4090"),
    // Blackwell (RTX 50)
    ("RTX_5060", 0x2D04, "NVIDIA GeForce RTX 5060"),
    ("RTX_5060_TI", 0x2D03, "NVIDIA GeForce RTX 5060 Ti"),
    ("RTX_5070", 0x2C05, "NVIDIA GeForce RTX 5070"),
    ("RTX_5070_TI", 0x2C04, "NVIDIA GeForce RTX 5070 Ti"),
    ("RTX_5080", 0x2C02, "NVIDIA GeForce RTX 5080"),
    ("RTX_5090", 0x2B85, "NVIDIA GeForce RTX 5090"),
];

pub const DEFAULT_PRESET: &'static str = "RTX_5090";

/// The device identity shown to an application that asks for an NVIDIA card.
#[derive(Debug, Clone, Copy)]
pub struct SpoofProfile {
    pub device_id: u32,
    pub device_name: &'static str,
}

/// Layer-wide configuration. What counts, from the first to the last: the
/// override of the application in the configuration file, the section
/// `[defaults]` of that file, the environment, and the built-in defaults.
#[derive(Debug)]
pub struct LayerConfig {
    pub expose_reflex: bool,
    pub spoof_nvidia: bool,
    pub force_decoupled: bool,
    pub spoof_profile: SpoofProfile,
    /// Hard FPS cap applied in the delay controller. 0 = no cap.
    pub fps_cap: u32,
    /// Per-application overrides, keyed by exact match against the name that
    /// the application gives itself.
    pub per_app: Vec<AppOverride>,
}

/// What the environment holds under each of the layer's variables.
#[derive(Debug)]
pub struct EnvSettings {
    pub reflex: Option<String>,
    pub spoof_nvidia: Option<String>,
    pub spoof_model: Option<String>,
    pub force_decoupled: Option<String>,
    pub fps_cap: Option<String>,
}

pub open spec fn opt_text(s: Option<&str>) -> Option<Seq<char>> {
    match s {
        Some(v) => Some(v@),
        None => None,
    }
}

pub open spec fn opt_string(s: Option<String>) -> Option<Seq<char>> {
    match s {
        Some(v) => Some(v@),
        None => None,
    }
}

/// ASCII letters in upper case, everything else as it is.
pub open spec fn ascii_upper_char(c: char) -> char {
    if 'a' <= c && c <= 'z' {
        ((c as u32) - 32) as char
    } else {
        c
    }
}

pub open spec fn ascii_upper(s: Seq<char>) -> Seq<char> {
    s.map_values(|c: char| ascii_upper_char(c))
}

pub open spec fn preset_profile(i: int) -> SpoofProfile {
    SpoofProfile { device_id: NVIDIA_PRESETS@[i].1, device_name: NVIDIA_PRESETS@[i].2 }
}

/// The first preset from `i` on with this key.
pub open spec fn preset_from(i: int, key: Seq<char>) -> Option<SpoofProfile>
    decreases 31 - i,
{
    if i < 0 || i >= 31 {
        None
    } else if NVIDIA_PRESETS@[i].0@ == key {
        Some(preset_profile(i))
    } else {
        preset_from(i + 1, key)
    }
}

/// The preset of a key, whatever the case of its letters.
pub open spec fn preset_of(key: Seq<char>) -> Option<SpoofProfile> {
    preset_from(0, ascii_upper(key))
}

/// What is asked for: an explicit key, or else the environment's.
pub open spec fn requested_model(explicit: Option<Seq<char>>, env: Option<Seq<char>>) -> Option<
    Seq<char>,
> {
    if explicit is Some {
        explicit
    } else {
        env
    }
}

/// The profile asked for; the default where nothing is asked for, or where
/// there is no such preset.
pub open spec fn profile_of(requested: Option<Seq<char>>) -> SpoofProfile {
    match requested {
        Some(key) => match preset_of(key) {
            Some(p) => p,
            None => preset_profile(30),
        },
        None => preset_profile(30),
    }
}

/// The override that counts for an application: the first of its name.
pub open spec fn override_from(s: Seq<AppOverride>, i: int, name: Seq<char>) -> Option<AppOverride>
    decreases s.len() - i,
{
    if i < 0 || i >= s.len() {
        None
    } else if s[i].app_name@ == name {
        Some(s[i])
    } else {
        override_from(s, i + 1, name)
    }
}

pub open spec fn override_of(s: Seq<AppOverride>, app_name: Option<Seq<char>>) -> Option<
    AppOverride,
> {
    match app_name {
        Some(name) => override_from(s, 0, name),
        None => None,
    }
}

pub open spec fn or_else<T>(value: Option<T>, base: T) -> T {
    match value {
        Some(v) => v,
        None => base,
    }
}

/// The section `[defaults]` of the file, which sets nothing where there is no
/// file.
pub open spec fn defaults_of(file: Option<Seq<char>>) -> toml::OverrideView {
    match file {
        Some(contents) => toml::file_value(contents).defaults,
        None => toml::fresh_override(Seq::empty()),
    }
}

impl LayerConfig {
    /// This configuration with one override applied to it.
    pub open spec fn has_applied(self, base: LayerConfig, over: AppOverride) -> bool {
        &&& self.expose_reflex == or_else(over.expose_reflex, base.expose_reflex)
        &&& self.spoof_nvidia == or_else(over.spoof_nvidia, base.spoof_nvidia)
        &&& self.force_decoupled == or_else(over.force_decoupled, base.force_decoupled)
        &&& self.fps_cap == or_else(over.fps_cap, base.fps_cap)
        &&& self.spoof_profile == (match over.spoof_model {
            Some(model) => profile_of(Some(model@)),
            None => base.spoof_profile,
        })
        &&& self.per_app@ == base.per_app@
    }

    /// This configuration is what the environment and a file give: a key under
    /// `[defaults]`, or else the environment's.
    pub open spec fn is_from(self, env: EnvSettings, file: Option<Seq<char>>) -> bool {
        let d = defaults_of(file);
        &&& self.expose_reflex == or_else(d.expose_reflex, flag_value(opt_string(env.reflex)))
        &&& self.spoof_nvidia == or_else(d.spoof_nvidia, flag_value(opt_string(env.spoof_nvidia)))
        &&& self.force_decoupled == or_else(
            d.force_decoupled,
            flag_value(opt_string(env.force_decoupled)),
        )
        &&& self.fps_cap == or_else(d.fps_cap, cap_value(opt_string(env.fps_cap)))
        &&& self.spoof_profile == profile_of(
            requested_model(d.spoof_model, opt_string(env.spoof_model)),
        )
        &&& toml::overrides_view(self.per_app@) == (match file {
            Some(contents) => toml::file_value(contents).overrides,
            None => Seq::empty(),
        })
    }

    /// The same settings.
    pub open spec fn same_as(self, base: LayerConfig) -> bool {
        &&& self.expose_reflex == base.expose_reflex
        &&& self.spoof_nvidia == base.spoof_nvidia
        &&& self.force_decoupled == base.force_decoupled
        &&& self.fps_cap == base.fps_cap
        &&& self.spoof_profile == base.spoof_profile
        &&& self.per_app@ == base.per_app@
    }
}

impl Clone for LayerConfig {
    fn clone(&self) -> (r: Self)
        ensures
            r.same_as(*self),
    {
        let per_app = self.per_app.clone();
        proof {
            assert(per_app@ =~= self.per_app@);
        }
        LayerConfig {
            expose_reflex: self.expose_reflex,
            spoof_nvidia: self.spoof_nvidia,
            force_decoupled: self.force_decoupled,
            spoof_profile: self.spoof_profile,
            fps_cap: self.fps_cap,
            per_app,
        }
    }
}

fn to_ascii_upper(s: &[char]) -> (r: Vec<char>)
    ensures
        r@ == ascii_upper(s@),
{
    let mut out: Vec<char> = Vec::new();
    let mut i: usize = 0;
    while i < s.len()
        invariant
            i <= s@.len(),
            out@ == ascii_upper(s@.take(i as int)),
        decreases s@.len() - i,
    {
        let c = s[i];
        let up = if 'a' <= c && c <= 'z' {
            ((c as u8) - 32) as char
        } else {
            c
        };
        out.push(up);
        proof {
            assert(s@.take(i + 1) =~= s@.take(i as int).push(c));
            assert(ascii_upper(s@.take(i + 1)) =~= ascii_upper(s@.take(i as int)).push(
                ascii_upper_char(c),
            ));
        }
        i += 1;
    }
    proof {
        assert(s@.take(i as int) =~= s@);
    }
    out
}

/// The preset of a key, whatever the case of its letters.
pub fn find_preset(key: &str) -> (r: Option<SpoofProfile>)
    ensures
        r == preset_of(key@),
{
    let chars = chars_of(key);
    let upper = to_ascii_upper(chars.as_slice());
    let mut i: usize = 0;
    while i < 31
        invariant
            i <= 31,
            preset_of(key@) == preset_from(i as int, upper@),
        decreases 31 - i,
    {
        if spells(upper.as_slice(), NVIDIA_PRESETS[i].0) {
            return Some(
                SpoofProfile { device_id: NVIDIA_PRESETS[i].1, device_name: NVIDIA_PRESETS[i].2 },
            );
        }
        i += 1;
    }
    None
}

/// The profile that an explicit key, or else the environment, asks for.
pub fn resolve_spoof_profile(explicit: Option<&str>, env_val: Option<&str>) -> (r: SpoofProfile)
    ensures
        r == profile_of(requested_model(opt_text(explicit), opt_text(env_val))),
{
    let requested = match explicit {
        Some(s) => Some(s),
        None => env_val,
    };
    match requested {
        Some(key) => match find_preset(key) {
            Some(p) => p,
            None => default_profile(),
        },
        None => default_profile(),
    }
}

/// Whether a key is asked for that no preset has.
pub fn unknown_model(explicit: Option<&str>, env_val: Option<&str>) -> (r: bool)
    ensures
        r == (requested_model(opt_text(explicit), opt_text(env_val)) matches Some(key)
            && preset_of(key) is None),
{
    let requested = match explicit {
        Some(s) => Some(s),
        None => env_val,
    };
    match requested {
        Some(key) => find_preset(key).is_none(),
        None => false,
    }
}

fn default_profile() -> (r: SpoofProfile)
    ensures
        r == preset_profile(30),
        NVIDIA_PRESETS@[30].0@ == DEFAULT_PRESET@,
{
    let i: usize = 30;
    SpoofProfile { device_id: NVIDIA_PRESETS[i].1, device_name: NVIDIA_PRESETS[i].2 }
}

pub open spec fn flag_value(value: Option<Seq<char>>) -> bool {
    value == Some("1"@)
}

/// A flag is set by exactly `1`.
pub fn env_flag(value: Option<&str>) -> (r: bool)
    ensures
        r == flag_value(opt_text(value)),
{
    match value {
        Some(s) => same_str(s, "1"),
        None => false,
    }
}

fn env_flag_of(value: &Option<String>) -> (r: bool)
    ensures
        r == flag_value(opt_string(*value)),
{
    match value {
        Some(s) => same_str(s.as_str(), "1"),
        None => false,
    }
}

/// The cap that an environment value sets; 0 where it does not read.
pub open spec fn cap_value(value: Option<Seq<char>>) -> u32 {
    match value {
        Some(s) => or_else(toml::u32_value(s), 0),
        None => 0,
    }
}

fn fps_cap_of(value: &Option<String>) -> (r: u32)
    ensures
        r == cap_value(opt_string(*value)),
{
    match value {
        Some(s) => {
            let chars = chars_of(s.as_str());
            match parse_number(chars.as_slice(), 10, u32::MAX as u64) {
                Some(v) => v as u32,
                None => 0,
            }
        },
        None => 0,
    }
}

/// The offset that an environment value sets; the default where it does not
/// read.
pub open spec fn vrr_offset_value(value: Option<Seq<char>>) -> u32 {
    match value {
        Some(s) => or_else(toml::u32_value(s), DEFAULT_VRR_OFFSET_HZ),
        None => DEFAULT_VRR_OFFSET_HZ,
    }
}

/// Reads how many hertz the frame rate stays below that of the display.
pub fn vrr_offset_hz(value: Option<&str>) -> (r: u32)
    ensures
        r == vrr_offset_value(opt_text(value)),
{
    match value {
        Some(s) => {
            let chars = chars_of(s);
            match parse_number(chars.as_slice(), 10, u32::MAX as u64) {
                Some(v) => v as u32,
                None => DEFAULT_VRR_OFFSET_HZ,
            }
        },
        None => DEFAULT_VRR_OFFSET_HZ,
    }
}

/// The shortest time between two frames under a cap; 0 = uncapped.
pub open spec fn cap_delay_ns(fps_cap: u32) -> u64 {
    if fps_cap == 0 {
        0
    } else {
        (1_000_000_000int / fps_cap as int) as u64
    }
}

pub open spec fn is_decoupled_app(name: Seq<char>) -> bool {
    name == "Marvel-Win64-Shipping.exe"@
}

impl LayerConfig {
    /// The configuration that the environment and the configuration file, if
    /// there is one, give together, and what in the file had no effect. A key
    /// under `[defaults]` counts before the environment.
    pub fn from_env(env: &EnvSettings, file: Option<&str>) -> (r: (Self, Vec<TomlWarning>))
        ensures
            r.0.is_from(*env, opt_text(file)),
            toml::warnings_view(r.1@) == (match file {
                Some(contents) => toml::file_value(contents@).warnings,
                None => Seq::empty(),
            }),
    {
        let (defaults, per_app, warnings) = match file {
            Some(contents) => {
                let parsed = load_toml(contents);
                (Some(parsed.defaults), parsed.overrides, parsed.warnings)
            },
            None => {
                let none: (Vec<AppOverride>, Vec<TomlWarning>) = (Vec::new(), Vec::new());
                proof {
                    assert(toml::overrides_view(none.0@) =~= Seq::empty());
                    assert(toml::warnings_view(none.1@) =~= Seq::empty());
                }
                (None, none.0, none.1)
            },
        };
        let env_model = match &env.spoof_model {
            Some(s) => Some(s.as_str()),
            None => None,
        };
        let mut config = LayerConfig {
            expose_reflex: env_flag_of(&env.reflex),
            spoof_nvidia: env_flag_of(&env.spoof_nvidia),
            force_decoupled: env_flag_of(&env.force_decoupled),
            spoof_profile: resolve_spoof_profile(None, env_model),
            fps_cap: fps_cap_of(&env.fps_cap),
            per_app,
        };
        if let Some(d) = &defaults {
            config.apply(d);
        }
        (config, warnings)
    }

    /// Sets every key that an override has.
    fn apply(&mut self, over: &AppOverride)
        ensures
            final(self).has_applied(*old(self), *over),
    {
        if let Some(v) = over.expose_reflex {
            self.expose_reflex = v;
        }
        if let Some(v) = over.spoof_nvidia {
            self.spoof_nvidia = v;
        }
        if let Some(v) = over.force_decoupled {
            self.force_decoupled = v;
        }
        if let Some(v) = over.fps_cap {
            self.fps_cap = v;
        }
        if let Some(model) = &over.spoof_model {
            self.spoof_profile = resolve_spoof_profile(Some(model.as_str()), None);
        }
    }

    /// Applies any matching per-application override, returning a finalized
    /// snapshot for the running instance.
    pub fn finalize_for_app(&self, app_name: Option<&str>) -> (r: Self)
        ensures
            match override_of(self.per_app@, opt_text(app_name)) {
                Some(over) => r.has_applied(*self, over),
                None => r.same_as(*self),
            },
    {
        let mut out = self.clone();
        if let Some(name) = app_name {
            if let Some(i) = find_override(&self.per_app, name) {
                out.apply(&self.per_app[i]);
            }
        }
        out
    }

    /// Whether the application's frames are paced against a queue that its
    /// simulation runs ahead of.
    pub fn is_known_decoupled(&self, app_name: Option<&str>) -> (r: bool)
        ensures
            r == (self.force_decoupled || (opt_text(app_name) matches Some(n) && is_decoupled_app(
                n,
            ))),
    {
        if self.force_decoupled {
            return true;
        }
        match app_name {
            Some(name) => {
                let i: usize = 0;
                same_str(name, DECOUPLED_SIMULATION_APPS[i])
            },
            None => false,
        }
    }

    /// `min_delay` in nanoseconds for an FPS cap. 0 = uncapped.
    pub fn fps_cap_min_delay_ns(&self) -> (r: u64)
        ensures
            r == cap_delay_ns(self.fps_cap),
    {
        if self.fps_cap == 0 {
            0
        } else {
            1_000_000_000 / self.fps_cap as u64
        }
    }
}

fn find_override(per_app: &Vec<AppOverride>, name: &str) -> (r: Option<usize>)
    ensures
        match r {
            Some(i) => i < per_app@.len() && override_from(per_app@, 0, name@) == Some(
                per_app@[i as int],
            ),
            None => override_from(per_app@, 0, name@) is None,
        },
{
    let mut i: usize = 0;
    while i < per_app.len()
        invariant
            i <= per_app@.len(),
            override_from(per_app@, 0, name@) == override_from(per_app@, i as int, name@),
        decreases per_app@.len() - i,
    {
        if same_str(per_app[i].app_name.as_str(), name) {
            return Some(i);
        }
        i += 1;
    }
    None
}

/// Where the configuration file is looked for: below a base directory, in
/// `vkpace/config.toml`, unless a path is given outright.
#[derive(Debug)]
pub enum ConfigLocation<P> {
    Explicit(P),
    /// Below `$XDG_CONFIG_HOME`.
    ConfigHome(P),
    /// Below `.config` in the home directory.
    Home(P),
}

/// Chooses the place of the configuration file: an explicit path, then the
/// configuration home, then the home directory.
pub fn locate_toml<P>(explicit: Option<P>, config_home: Option<P>, home: Option<P>) -> (r: Option<
    ConfigLocation<P>,
>)
    ensures
        r == (match (explicit, config_home, home) {
            (Some(p), _, _) => Some(ConfigLocation::Explicit(p)),
            (None, Some(p), _) => Some(ConfigLocation::ConfigHome(p)),
            (None, None, Some(p)) => Some(ConfigLocation::Home(p)),
            (None, None, None) => None,
        }),
{
    if let Some(p) = explicit {
        return Some(ConfigLocation::Explicit(p));
    }
    if let Some(p) = config_home {
        return Some(ConfigLocation::ConfigHome(p));
    }
    match home {
        Some(p) => Some(ConfigLocation::Home(p)),
        None => None,
    }
}

/// Each key comes from the override of the application, or else from
/// `[defaults]`, or else from the environment.
pub proof fn law_precedence(
    env: EnvSettings,
    file: Option<Seq<char>>,
    base: LayerConfig,
    app_name: Seq<char>,
    result: LayerConfig,
)
    requires
        base.is_from(env, file),
        match override_of(base.per_app@, Some(app_name)) {
            Some(over) => result.has_applied(base, over),
            None => result.same_as(base),
        },
    ensures
        ({
            let d = defaults_of(file);
            let over = match override_of(base.per_app@, Some(app_name)) {
                Some(o) => o@,
                None => toml::fresh_override(app_name),
            };
            &&& result.expose_reflex == or_else(
                over.expose_reflex,
                or_else(d.expose_reflex, flag_value(opt_string(env.reflex))),
            )
            &&& result.spoof_nvidia == or_else(
                over.spoof_nvidia,
                or_else(d.spoof_nvidia, flag_value(opt_string(env.spoof_nvidia))),
            )
            &&& result.force_decoupled == or_else(
                over.force_decoupled,
                or_else(d.force_decoupled, flag_value(opt_string(env.force_decoupled))),
            )
            &&& result.fps_cap == or_else(
                over.fps_cap,
                or_else(d.fps_cap, cap_value(opt_string(env.fps_cap))),
            )
            &&& result.spoof_profile == profile_of(
                requested_model(
                    over.spoof_model,
                    requested_model(d.spoof_model, opt_string(env.spoof_model)),
                ),
            )
        }),
{
}

/// Every profile that the layer shows is one of the presets.
pub proof fn law_profile_is_a_preset(requested: Option<Seq<char>>)
    ensures
        exists|i: int| 0 <= i < 31 && profile_of(requested) == #[trigger] preset_profile(i),
{
    match requested {
        Some(key) => {
            lemma_preset_from(0, ascii_upper(key));
            if preset_of(key) is None {
                assert(profile_of(requested) == preset_profile(30));
            }
        },
        None => {
            assert(profile_of(requested) == preset_profile(30));
        },
    }
}

proof fn lemma_preset_from(i: int, key: Seq<char>)
    requires
        0 <= i,
    ensures
        preset_from(i, key) matches Some(p) ==> exists|j: int|
            0 <= j < 31 && p == #[trigger] preset_profile(j),
    decreases 31 - i,
{
    if i < 31 {
        if NVIDIA_PRESETS@[i].0@ == key {
            assert(preset_profile(i) == preset_profile(i));
        } else {
            lemma_preset_from(i + 1, key);
        }
    }
}

/// A key without lower-case letters.
spec fn is_upper_key(key: Seq<char>) -> bool {
    forall|k: int| 0 <= k < key.len() ==> ascii_upper_char(#[trigger] key[k]) == key[k]
}

/// A number by which the presets are in order: the model's, and behind it a
/// step for each suffix.
spec fn key_rank(key: Seq<char>) -> int {
    let model = (key[4] as int - '0' as int) * 1000 + (key[5] as int - '0' as int) * 100 + (
    key[6] as int - '0' as int) * 10 + (key[7] as int - '0' as int);
    let suffix: int = if key.len() == 8 {
        0
    } else if key.len() == 14 {
        1
    } else if key.len() == 11 {
        2
    } else {
        3
    };
    model * 4 + suffix
}

proof fn lemma_key_ranks()
    ensures
        forall|i: int| 0 <= i < 31 ==> is_upper_key((#[trigger] NVIDIA_PRESETS@[i]).0@),
        forall|i: int, j: int|
            0 <= i < j < 31 ==> key_rank((#[trigger] NVIDIA_PRESETS@[i]).0@) < key_rank(
                (#[trigger] NVIDIA_PRESETS@[j]).0@,
            ),
{
    reveal_strlit("RTX_2060");
    reveal_strlit("RTX_2060_SUPER");
    reveal_strlit("RTX_2070");
    reveal_strlit("RTX_2070_SUPER");
    reveal_strlit("RTX_2080");
    reveal_strlit("RTX_2080_SUPER");
    reveal_strlit("RTX_2080_TI");
    reveal_strlit("RTX_3050");
    reveal_strlit("RTX_3060");
    reveal_strlit("RTX_3060_TI");
    reveal_strlit("RTX_3070");
    reveal_strlit("RTX_3070_TI");
    reveal_strlit("RTX_3080");
    reveal_strlit("RTX_3080_TI");
    reveal_strlit("RTX_3090");
    reveal_strlit("RTX_3090_TI");
    reveal_strlit("RTX_4060");
    reveal_strlit("RTX_4060_TI");
    reveal_strlit("RTX_4070");
    reveal_strlit("RTX_4070_SUPER");
    reveal_strlit("RTX_4070_TI");
    reveal_strlit("RTX_4070_TI_SUPER");
    reveal_strlit("RTX_4080");
    reveal_strlit("RTX_4080_SUPER");
    reveal_strlit("RTX_4090");
    reveal_strlit("RTX_5060");
    reveal_strlit("RTX_5060_TI");
    reveal_strlit("RTX_5070");
    reveal_strlit("RTX_5070_TI");
    reveal_strlit("RTX_5080");
    reveal_strlit("RTX_5090");
    assert(NVIDIA_PRESETS@[0].0@ == "RTX_2060"@);
    assert(is_upper_key("RTX_2060"@));
    assert(key_rank("RTX_2060"@) == 8240);
    assert(NVIDIA_PRESETS@[1].0@ == "RTX_2060_SUPER"@);
    assert(is_upper_key("RTX_2060_SUPER"@));
    assert(key_rank("RTX_2060_SUPER"@) == 8241);
    assert(NVIDIA_PRESETS@[2].0@ == "RTX_2070"@);
    assert(is_upper_key("RTX_2070"@));
    assert(key_rank("RTX_2070"@) == 8280);
    assert(NVIDIA_PRESETS@[3].0@ == "RTX_2070_SUPER"@);
    assert(is_upper_key("RTX_2070_SUPER"@));
    assert(key_rank("RTX_2070_SUPER"@) == 8281);
    assert(NVIDIA_PRESETS@[4].0@ == "RTX_2080"@);
    assert(is_upper_key("RTX_2080"@));
    assert(key_rank("RTX_2080"@) == 8320);
    assert(NVIDIA_PRESETS@[5].0@ == "RTX_2080_SUPER"@);
    assert(is_upper_key("RTX_2080_SUPER"@));
    assert(key_rank("RTX_2080_SUPER"@) == 8321);
    assert(NVIDIA_PRESETS@[6].0@ == "RTX_2080_TI"@);
    assert(is_upper_key("RTX_2080_TI"@));
    assert(key_rank("RTX_2080_TI"@) == 8322);
    assert(NVIDIA_PRESETS@[7].0@ == "RTX_3050"@);
    assert(is_upper_key("RTX_3050"@));
    assert(key_rank("RTX_3050"@) == 12200);
    assert(NVIDIA_PRESETS@[8].0@ == "RTX_3060"@);
    assert(is_upper_key("RTX_3060"@));
    assert(key_rank("RTX_3060"@) == 12240);
    assert(NVIDIA_PRESETS@[9].0@ == "RTX_3060_TI"@);
    assert(is_upper_key("RTX_3060_TI"@));
    assert(key_rank("RTX_3060_TI"@) == 12242);
    assert(NVIDIA_PRESETS@[10].0@ == "RTX_3070"@);
    assert(is_upper_key("RTX_3070"@));
    assert(key_rank("RTX_3070"@) == 12280);
    assert(NVIDIA_PRESETS@[11].0@ == "RTX_3070_TI"@);
    assert(is_upper_key("RTX_3070_TI"@));
    assert(key_rank("RTX_3070_TI"@) == 12282);
    assert(NVIDIA_PRESETS@[12].0@ == "RTX_3080"@);
    assert(is_upper_key("RTX_3080"@));
    assert(key_rank("RTX_3080"@) == 12320);
    assert(NVIDIA_PRESETS@[13].0@ == "RTX_3080_TI"@);
    assert(is_upper_key("RTX_3080_TI"@));
    assert(key_rank("RTX_3080_TI"@) == 12322);
    assert(NVIDIA_PRESETS@[14].0@ == "RTX_3090"@);
    assert(is_upper_key("RTX_3090"@));
    assert(key_rank("RTX_3090"@) == 12360);
    assert(NVIDIA_PRESETS@[15].0@ == "RTX_3090_TI"@);
    assert(is_upper_key("RTX_3090_TI"@));
    assert(key_rank("RTX_3090_TI"@) == 12362);
    assert(NVIDIA_PRESETS@[16].0@ == "RTX_4060"@);
    assert(is_upper_key("RTX_4060"@));
    assert(key_rank("RTX_4060"@) == 16240);
    assert(NVIDIA_PRESETS@[17].0@ == "RTX_4060_TI"@);
    assert(is_upper_key("RTX_4060_TI"@));
    assert(key_rank("RTX_4060_TI"@) == 16242);
    assert(NVIDIA_PRESETS@[18].0@ == "RTX_4070"@);
    assert(is_upper_key("RTX_4070"@));
    assert(key_rank("RTX_4070"@) == 16280);
    assert(NVIDIA_PRESETS@[19].0@ == "RTX_4070_SUPER"@);
    assert(is_upper_key("RTX_4070_SUPER"@));
    assert(key_rank("RTX_4070_SUPER"@) == 16281);
    assert(NVIDIA_PRESETS@[20].0@ == "RTX_4070_TI"@);
    assert(is_upper_key("RTX_4070_TI"@));
    assert(key_rank("RTX_4070_TI"@) == 16282);
    assert(NVIDIA_PRESETS@[21].0@ == "RTX_4070_TI_SUPER"@);
    assert(is_upper_key("RTX_4070_TI_SUPER"@));
    assert(key_rank("RTX_4070_TI_SUPER"@) == 16283);
    assert(NVIDIA_PRESETS@[22].0@ == "RTX_4080"@);
    assert(is_upper_key("RTX_4080"@));
    assert(key_rank("RTX_4080"@) == 16320);
    assert(NVIDIA_PRESETS@[23].0@ == "RTX_4080_SUPER"@);
    assert(is_upper_key("RTX_4080_SUPER"@));
    assert(key_rank("RTX_4080_SUPER"@) == 16321);
    assert(NVIDIA_PRESETS@[24].0@ == "RTX_4090"@);
    assert(is_upper_key("RTX_4090"@));
    assert(key_rank("RTX_4090"@) == 16360);
    assert(NVIDIA_PRESETS@[25].0@ == "RTX_5060"@);
    assert(is_upper_key("RTX_5060"@));
    assert(key_rank("RTX_5060"@) == 20240);
    assert(NVIDIA_PRESETS@[26].0@ == "RTX_5060_TI"@);
    assert(is_upper_key("RTX_5060_TI"@));
    assert(key_rank("RTX_5060_TI"@) == 20242);
    assert(NVIDIA_PRESETS@[27].0@ == "RTX_5070"@);
    assert(is_upper_key("RTX_5070"@));
    assert(key_rank("RTX_5070"@) == 20280);
    assert(NVIDIA_PRESETS@[28].0@ == "RTX_5070_TI"@);
    assert(is_upper_key("RTX_5070_TI"@));
    assert(key_rank("RTX_5070_TI"@) == 20282);
    assert(NVIDIA_PRESETS@[29].0@ == "RTX_5080"@);
    assert(is_upper_key("RTX_5080"@));
    assert(key_rank("RTX_5080"@) == 20320);
    assert(NVIDIA_PRESETS@[30].0@ == "RTX_5090"@);
    assert(is_upper_key("RTX_5090"@));
    assert(key_rank("RTX_5090"@) == 20360);
}

proof fn lemma_preset_at(i: int, k: int)
    requires
        0 <= i <= k < 31,
    ensures
        preset_from(i, NVIDIA_PRESETS@[k].0@) == Some(preset_profile(k)),
    decreases k - i,
{
    lemma_key_ranks();
    if i < k {
        assert(NVIDIA_PRESETS@[i].0@ != NVIDIA_PRESETS@[k].0@);
        lemma_preset_at(i + 1, k);
    }
}

/// No two presets have the same key, and each key, in whatever case it is
/// written, leads to its own preset.
pub proof fn law_preset_keys_are_unique(i: int, j: int, key: Seq<char>)
    requires
        0 <= i < 31,
        0 <= j < 31,
    ensures
        i != j ==> NVIDIA_PRESETS@[i].0@ != NVIDIA_PRESETS@[j].0@,
        preset_of(NVIDIA_PRESETS@[i].0@) == Some(preset_profile(i)),
        ascii_upper(key) == NVIDIA_PRESETS@[i].0@ ==> preset_of(key) == Some(preset_profile(i)),
{
    lemma_key_ranks();
    lemma_preset_at(0, i);
    if i < j {
        assert(key_rank(NVIDIA_PRESETS@[i].0@) < key_rank(NVIDIA_PRESETS@[j].0@));
    } else if j < i {
        assert(key_rank(NVIDIA_PRESETS@[j].0@) < key_rank(NVIDIA_PRESETS@[i].0@));
    }
    assert(is_upper_key(NVIDIA_PRESETS@[i].0@));
    assert(ascii_upper(NVIDIA_PRESETS@[i].0@) =~= NVIDIA_PRESETS@[i].0@);
}

/// The first override of an application counts. Every setting that it makes
/// replaces the one before, and every setting that it does not make stays.
pub proof fn law_first_override_counts(c: &LayerConfig, app_name: &str, r: LayerConfig, i: int)
    requires
        call_ensures(LayerConfig::finalize_for_app, (c, Some(app_name)), r),
        0 <= i < c.per_app@.len(),
        c.per_app@[i].app_name@ == app_name@,
        forall|j: int| 0 <= j < i ==> (#[trigger] c.per_app@[j]).app_name@ != app_name@,
    ensures
        ({
            let o = c.per_app@[i];
            &&& o.expose_reflex matches Some(v) ==> r.expose_reflex == v
            &&& o.expose_reflex is None ==> r.expose_reflex == c.expose_reflex
            &&& o.spoof_nvidia matches Some(v) ==> r.spoof_nvidia == v
            &&& o.spoof_nvidia is None ==> r.spoof_nvidia == c.spoof_nvidia
            &&& o.force_decoupled matches Some(v) ==> r.force_decoupled == v
            &&& o.force_decoupled is None ==> r.force_decoupled == c.force_decoupled
            &&& o.fps_cap matches Some(v) ==> r.fps_cap == v
            &&& o.fps_cap is None ==> r.fps_cap == c.fps_cap
            &&& o.spoof_model is None ==> r.spoof_profile == c.spoof_profile
            &&& o.spoof_model matches Some(m) ==> (preset_of(m@) matches Some(p)
                ==> r.spoof_profile == p)
        }),
        r.per_app@ == c.per_app@,
{
    lemma_first_override(c.per_app@, 0, i, app_name@);
}

proof fn lemma_first_override(s: Seq<AppOverride>, from: int, i: int, name: Seq<char>)
    requires
        0 <= from <= i < s.len(),
        s[i].app_name@ == name,
        forall|j: int| from <= j < i ==> (#[trigger] s[j]).app_name@ != name,
    ensures
        override_from(s, from, name) == Some(s[i]),
    decreases i - from,
{
    if from < i {
        lemma_first_override(s, from + 1, i, name);
    }
}

/// An application that no override names, or that has no name, gets the
/// settings as they are.
pub proof fn law_other_applications_get_the_base(
    c: &LayerConfig,
    app_name: Option<&str>,
    r: LayerConfig,
)
    requires
        call_ensures(LayerConfig::finalize_for_app, (c, app_name), r),
        app_name matches Some(name) ==> forall|j: int|
            0 <= j < c.per_app@.len() ==> (#[trigger] c.per_app@[j]).app_name@ != name@,
    ensures
        r.expose_reflex == c.expose_reflex,
        r.spoof_nvidia == c.spoof_nvidia,
        r.force_decoupled == c.force_decoupled,
        r.fps_cap == c.fps_cap,
        r.spoof_profile == c.spoof_profile,
{
    if let Some(name) = app_name {
        lemma_no_override(c.per_app@, 0, name@);
    }
}

proof fn lemma_no_override(s: Seq<AppOverride>, from: int, name: Seq<char>)
    requires
        0 <= from <= s.len(),
        forall|j: int| from <= j < s.len() ==> (#[trigger] s[j]).app_name@ != name,
    ensures
        override_from(s, from, name) is None,
    decreases s.len() - from,
{
    if from < s.len() {
        lemma_no_override(s, from + 1, name);
    }
}

/// Without a file the environment alone decides. A switch is on where its
/// variable is a single `1` and off otherwise; the cap is the number that is
/// written, and none without one; and there is nothing to warn of.
pub proof fn law_environment_decides_without_a_file(
    env: &EnvSettings,
    r: (LayerConfig, Vec<TomlWarning>),
    cap: u32,
)
    requires
        call_ensures(LayerConfig::from_env, (env, None), r),
    ensures
        r.0.expose_reflex <==> (env.reflex matches Some(s) && s@ == seq!['1']),
        r.0.spoof_nvidia <==> (env.spoof_nvidia matches Some(s) && s@ == seq!['1']),
        r.0.force_decoupled <==> (env.force_decoupled matches Some(s) && s@ == seq!['1']),
        env.fps_cap is None ==> r.0.fps_cap == 0,
        env.fps_cap matches Some(s) ==> s@ == crate::text::digits_of(cap as nat, 10)
            ==> r.0.fps_cap == cap,
        env.fps_cap matches Some(s) ==> s@.len() > 0 && s@[0] != '+' && crate::text::digits_value(
            s@,
            10,
        ) is None ==> r.0.fps_cap == 0,
        r.0.per_app@.len() == 0,
        r.1@.len() == 0,
{
    reveal_strlit("1");
    assert("1"@ =~= seq!['1']);
    crate::text::lemma_number_round_trip(cap as nat, 10, u32::MAX as nat);
    assert(toml::overrides_view(r.0.per_app@).len() == 0);
    assert(toml::warnings_view(r.1@).len() == 0);
}

/// With a file, what stands under its `[defaults]` counts before the
/// environment, and the environment where nothing stands there.
pub proof fn law_defaults_count_before_the_environment(
    env: &EnvSettings,
    file: &str,
    r: (LayerConfig, Vec<TomlWarning>),
    alone: (LayerConfig, Vec<TomlWarning>),
    parsed: toml::TomlFile,
)
    requires
        call_ensures(LayerConfig::from_env, (env, Some(file)), r),
        call_ensures(LayerConfig::from_env, (env, None), alone),
        call_ensures(load_toml, (file,), parsed),
    ensures
        ({
            let d = parsed.defaults;
            &&& d.expose_reflex matches Some(v) ==> r.0.expose_reflex == v
            &&& d.expose_reflex is None ==> r.0.expose_reflex == alone.0.expose_reflex
            &&& d.spoof_nvidia matches Some(v) ==> r.0.spoof_nvidia == v
            &&& d.spoof_nvidia is None ==> r.0.spoof_nvidia == alone.0.spoof_nvidia
            &&& d.force_decoupled matches Some(v) ==> r.0.force_decoupled == v
            &&& d.force_decoupled is None ==> r.0.force_decoupled == alone.0.force_decoupled
            &&& d.fps_cap matches Some(v) ==> r.0.fps_cap == v
            &&& d.fps_cap is None ==> r.0.fps_cap == alone.0.fps_cap
            &&& d.spoof_model is None ==> r.0.spoof_profile == alone.0.spoof_profile
            &&& d.spoof_model matches Some(m) ==> (preset_of(m@) matches Some(p)
                ==> r.0.spoof_profile == p)
        }),
        toml::overrides_view(r.0.per_app@) == toml::overrides_view(parsed.overrides@),
        toml::warnings_view(r.1@) == toml::warnings_view(parsed.warnings@),
{
    let v = toml::file_value(file@).defaults;
    assert(parsed.defaults@ == v);
}

/// Whether a text is another one, but for capital letters that may be small.
pub open spec fn is_spelled(a: Seq<char>, b: Seq<char>) -> bool {
    &&& a.len() == b.len()
    &&& forall|i: int|
        0 <= i < a.len() ==> #[trigger] a[i] == b[i] || ('A' <= b[i] && b[i] <= 'Z' && a[i] as int
            == b[i] as int + 32)
}

/// A preset is found by its key, in capital or in small letters, with its own
/// device id and name. What no preset has as its key, in capital letters,
/// finds none.
pub proof fn law_preset_is_found_by_its_key(key: &str, r: Option<SpoofProfile>, i: int)
    requires
        call_ensures(find_preset, (key,), r),
        0 <= i < 31,
    ensures
        is_spelled(key@, NVIDIA_PRESETS@[i].0@) ==> (r matches Some(p) && p.device_id
            == NVIDIA_PRESETS@[i].1 && p.device_name == NVIDIA_PRESETS@[i].2),
        (forall|k: int|
            0 <= k < 31 ==> !is_spelled(ascii_upper(key@), (#[trigger] NVIDIA_PRESETS@[k]).0@))
            ==> r is None,
{
    lemma_key_ranks();
    let k = NVIDIA_PRESETS@[i].0@;
    if is_spelled(key@, k) {
        assert(is_upper_key(k));
        assert forall|j: int| 0 <= j < k.len() implies ascii_upper_char(key@[j]) == k[j] by {
            assert(ascii_upper_char(k[j]) == k[j]);
            let c = key@[j];
            if c != k[j] {
                assert('a' <= c && c <= 'z');
                assert(((c as u32) - 32) as char == k[j]);
            }
        }
        assert(ascii_upper(key@) =~= k);
        law_preset_keys_are_unique(i, i, key@);
    }
    if forall|k: int|
        0 <= k < 31 ==> !is_spelled(ascii_upper(key@), (#[trigger] NVIDIA_PRESETS@[k]).0@) {
        lemma_no_preset(0, ascii_upper(key@));
    }
}

proof fn lemma_no_preset(i: int, key: Seq<char>)
    requires
        0 <= i,
        forall|k: int| 0 <= k < 31 ==> !is_spelled(key, (#[trigger] NVIDIA_PRESETS@[k]).0@),
    ensures
        preset_from(i, key) is None,
    decreases 31 - i,
{
    if i < 31 {
        let k = NVIDIA_PRESETS@[i];
        assert(!is_spelled(key, k.0@));
        lemma_no_preset(i + 1, key);
    }
}

/// The profile is the one that was asked for: outright, or else through the
/// environment. Where there is no such preset, or nothing is asked for, it is
/// the default, and only a key that no preset has is unknown.
pub proof fn law_profile_is_as_asked_for(
    explicit: Option<&str>,
    env_val: Option<&str>,
    asked: &str,
    found: Option<SpoofProfile>,
    default: SpoofProfile,
    r: SpoofProfile,
    unknown: bool,
)
    requires
        call_ensures(resolve_spoof_profile, (explicit, env_val), r),
        call_ensures(unknown_model, (explicit, env_val), unknown),
        call_ensures(find_preset, (asked,), found),
        call_ensures(resolve_spoof_profile, (None, None), default),
    ensures
        explicit == Some(asked) || (explicit is None && env_val == Some(asked)) ==> {
            &&& found matches Some(p) ==> r == p
            &&& found is None ==> r == default
            &&& unknown <==> found is None
        },
        explicit is None && env_val is None ==> r == default && !unknown,
        default.device_id == 0x2B85,
{
}

/// A cap is a number of frames for each second: so many of the delays fit into
/// one, and no longer delay does. Without a cap there is no delay.
pub proof fn law_cap_is_frames_per_second(c: &LayerConfig, r: u64)
    requires
        call_ensures(LayerConfig::fps_cap_min_delay_ns, (c,), r),
    ensures
        c.fps_cap == 0 ==> r == 0,
        c.fps_cap > 0 ==> r * c.fps_cap <= 1_000_000_000 < (r + 1) * c.fps_cap,
{
    if c.fps_cap > 0 {
        let n = c.fps_cap as int;
        let q = 1_000_000_000int / n;
        assert(q * n <= 1_000_000_000 < (q + 1) * n) by (nonlinear_arith)
            requires
                n > 0,
                q == 1_000_000_000int / n,
        ;
    }
}

/// A stricter cap never means a shorter delay.
pub proof fn law_stricter_cap_is_a_longer_delay(a: &LayerConfig, b: &LayerConfig, of_a: u64, of_b: u64)
    requires
        call_ensures(LayerConfig::fps_cap_min_delay_ns, (a,), of_a),
        call_ensures(LayerConfig::fps_cap_min_delay_ns, (b,), of_b),
        0 < a.fps_cap <= b.fps_cap,
    ensures
        of_a >= of_b,
{
    let x = a.fps_cap as int;
    let y = b.fps_cap as int;
    assert(1_000_000_000int / x >= 1_000_000_000int / y) by (nonlinear_arith)
        requires
            0 < x <= y,
    ;
}

/// An application counts as decoupled where the configuration forces it, or by
/// its exact name, and not otherwise.
pub proof fn law_decoupled_by_force_or_by_name(c: &LayerConfig, app_name: Option<&str>, r: bool)
    requires
        call_ensures(LayerConfig::is_known_decoupled, (c, app_name), r),
    ensures
        c.force_decoupled ==> r,
        !c.force_decoupled ==> (r <==> (app_name matches Some(n) && n@
            == "Marvel-Win64-Shipping.exe"@)),
{
}

/// The configuration file is looked for in the first place that is given: the
/// explicit path, the configuration home, the home directory.
pub proof fn law_first_place_is_taken<P>(
    explicit: Option<P>,
    config_home: Option<P>,
    home: Option<P>,
    r: Option<ConfigLocation<P>>,
)
    requires
        call_ensures(locate_toml::<P>, (explicit, config_home, home), r),
    ensures
        explicit matches Some(p) ==> r == Some(ConfigLocation::Explicit(p)),
        explicit is None ==> (config_home matches Some(p) ==> r == Some(
            ConfigLocation::ConfigHome(p),
        )),
        explicit is None && config_home is None ==> (home matches Some(p) ==> r == Some(
            ConfigLocation::Home(p),
        )),
        r is None <==> explicit is None && config_home is None && home is None,
{
}

/// A switch of the environment is on exactly where its value is a single `1`.
pub proof fn law_switch_is_a_one(value: Option<&str>, r: bool)
    requires
        call_ensures(env_flag, (value,), r),
    ensures
        r <==> (value matches Some(s) && s@ == seq!['1']),
{
    reveal_strlit("1");
    assert("1"@ =~= seq!['1']);
}

/// The offset is the number that is written, and 3 where there is none.
pub proof fn law_offset_is_as_written(value: Option<&str>, hz: u32, r: u32)
    requires
        call_ensures(vrr_offset_hz, (value,), r),
    ensures
        value is None ==> r == 3,
        value matches Some(s) ==> s@ == crate::text::digits_of(hz as nat, 10) ==> r == hz,
        value matches Some(s) ==> s@.len() > 0 && s@[0] != '+' && crate::text::digits_value(
            s@,
            10,
        ) is None ==> r == 3,
{
    crate::text::lemma_number_round_trip(hz as nat, 10, u32::MAX as nat);
}

/// The name of a card as its key writes it: behind the maker's, with spaces in
/// place of underscores and a small second letter in `Ti`.
pub open spec fn card_name(key: Seq<char>) -> Seq<char> {
    "NVIDIA GeForce "@ + key.map_values(
        |c: char|
            if c == '_' {
                ' '
            } else if c == 'I' {
                'i'
            } else {
                c
            },
    )
}

proof fn lemma_card_names()
    ensures
        forall|i: int|
            0 <= i < 31 ==> (#[trigger] NVIDIA_PRESETS@[i]).2@ == card_name(NVIDIA_PRESETS@[i].0@),
{
    assert("NVIDIA GeForce RTX 2060"@ == card_name("RTX_2060"@)) by {
        reveal_strlit("NVIDIA GeForce ");
        reveal_strlit("NVIDIA GeForce RTX 2060");
        reveal_strlit("RTX_2060");
        assert("NVIDIA GeForce RTX 2060"@ =~= card_name("RTX_2060"@));
    }
    assert("NVIDIA GeForce RTX 2060 SUPER"@ == card_name("RTX_2060_SUPER"@)) by {
        reveal_strlit("NVIDIA GeForce ");
        reveal_strlit("NVIDIA GeForce RTX 2060 SUPER");
        reveal_strlit("RTX_2060_SUPER");
        assert("NVIDIA GeForce RTX 2060 SUPER"@ =~= card_name("RTX_2060_SUPER"@));
    }
    assert("NVIDIA GeForce RTX 2070"@ == card_name("RTX_2070"@)) by {
        reveal_strlit("NVIDIA GeForce ");
        reveal_strlit("NVIDIA GeForce RTX 2070");
        reveal_strlit("RTX_2070");
        assert("NVIDIA GeForce RTX 2070"@ =~= card_name("RTX_2070"@));
    }
    assert("NVIDIA GeForce RTX 2070 SUPER"@ == card_name("RTX_2070_SUPER"@)) by {
        reveal_strlit("NVIDIA GeForce ");
        reveal_strlit("NVIDIA GeForce RTX 2070 SUPER");
        reveal_strlit("RTX_2070_SUPER");
        assert("NVIDIA GeForce RTX 2070 SUPER"@ =~= card_name("RTX_2070_SUPER"@));
    }
    assert("NVIDIA GeForce RTX 2080"@ == card_name("RTX_2080"@)) by {
        reveal_strlit("NVIDIA GeForce ");
        reveal_strlit("NVIDIA GeForce RTX 2080");
        reveal_strlit("RTX_2080");
        assert("NVIDIA GeForce RTX 2080"@ =~= card_name("RTX_2080"@));
    }
    assert("NVIDIA GeForce RTX 2080 SUPER"@ == card_name("RTX_2080_SUPER"@)) by {
        reveal_strlit("NVIDIA GeForce ");
        reveal_strlit("NVIDIA GeForce RTX 2080 SUPER");
        reveal_strlit("RTX_2080_SUPER");
        assert("NVIDIA GeForce RTX 2080 SUPER"@ =~= card_name("RTX_2080_SUPER"@));
    }
    assert("NVIDIA GeForce RTX 2080 Ti"@ == card_name("RTX_2080_TI"@)) by {
        reveal_strlit("NVIDIA GeForce ");
        reveal_strlit("NVIDIA GeForce RTX 2080 Ti");
        reveal_strlit("RTX_2080_TI");
        assert("NVIDIA GeForce RTX 2080 Ti"@ =~= card_name("RTX_2080_TI"@));
    }
    assert("NVIDIA GeForce RTX 3050"@ == card_name("RTX_3050"@)) by {
        reveal_strlit("NVIDIA GeForce ");
        reveal_strlit("NVIDIA GeForce RTX 3050");
        reveal_strlit("RTX_3050");
        assert("NVIDIA GeForce RTX 3050"@ =~= card_name("RTX_3050"@));
    }
    assert("NVIDIA GeForce RTX 3060"@ == card_name("RTX_3060"@)) by {
        reveal_strlit("NVIDIA GeForce ");
        reveal_strlit("NVIDIA GeForce RTX 3060");
        reveal_strlit("RTX_3060");
        assert("NVIDIA GeForce RTX 3060"@ =~= card_name("RTX_3060"@));
    }
    assert("NVIDIA GeForce RTX 3060 Ti"@ == card_name("RTX_3060_TI"@)) by {
        reveal_strlit("NVIDIA GeForce ");
        reveal_strlit("NVIDIA GeForce RTX 3060 Ti");
        reveal_strlit("RTX_3060_TI");
        assert("NVIDIA GeForce RTX 3060 Ti"@ =~= card_name("RTX_3060_TI"@));
    }
    assert("NVIDIA GeForce RTX 3070"@ == card_name("RTX_3070"@)) by {
        reveal_strlit("NVIDIA GeForce ");
        reveal_strlit("NVIDIA GeForce RTX 3070");
        reveal_strlit("RTX_3070");
        assert("NVIDIA GeForce RTX 3070"@ =~= card_name("RTX_3070"@));
    }
    assert("NVIDIA GeForce RTX 3070 Ti"@ == card_name("RTX_3070_TI"@)) by {
        reveal_strlit("NVIDIA GeForce ");
        reveal_strlit("NVIDIA GeForce RTX 3070 Ti");
        reveal_strlit("RTX_3070_TI");
        assert("NVIDIA GeForce RTX 3070 Ti"@ =~= card_name("RTX_3070_TI"@));
    }
    assert("NVIDIA GeForce RTX 3080"@ == card_name("RTX_3080"@)) by {
        reveal_strlit("NVIDIA GeForce ");
        reveal_strlit("NVIDIA GeForce RTX 3080");
        reveal_strlit("RTX_3080");
        assert("NVIDIA GeForce RTX 3080"@ =~= card_name("RTX_3080"@));
    }
    assert("NVIDIA GeForce RTX 3080 Ti"@ == card_name("RTX_3080_TI"@)) by {
        reveal_strlit("NVIDIA GeForce ");
        reveal_strlit("NVIDIA GeForce RTX 3080 Ti");
        reveal_strlit("RTX_3080_TI");
        assert("NVIDIA GeForce RTX 3080 Ti"@ =~= card_name("RTX_3080_TI"@));
    }
    assert("NVIDIA GeForce RTX 3090"@ == card_name("RTX_3090"@)) by {
        reveal_strlit("NVIDIA GeForce ");
        reveal_strlit("NVIDIA GeForce RTX 3090");
        reveal_strlit("RTX_3090");
        assert("NVIDIA GeForce RTX 3090"@ =~= card_name("RTX_3090"@));
    }
    assert("NVIDIA GeForce RTX 3090 Ti"@ == card_name("RTX_3090_TI"@)) by {
        reveal_strlit("NVIDIA GeForce ");
        reveal_strlit("NVIDIA GeForce RTX 3090 Ti");
        reveal_strlit("RTX_3090_TI");
        assert("NVIDIA GeForce RTX 3090 Ti"@ =~= card_name("RTX_3090_TI"@));
    }
    assert("NVIDIA GeForce RTX 4060"@ == card_name("RTX_4060"@)) by {
        reveal_strlit("NVIDIA GeForce ");
        reveal_strlit("NVIDIA GeForce RTX 4060");
        reveal_strlit("RTX_4060");
        assert("NVIDIA GeForce RTX 4060"@ =~= card_name("RTX_4060"@));
    }
    assert("NVIDIA GeForce RTX 4060 Ti"@ == card_name("RTX_4060_TI"@)) by {
        reveal_strlit("NVIDIA GeForce ");
        reveal_strlit("NVIDIA GeForce RTX 4060 Ti");
        reveal_strlit("RTX_4060_TI");
        assert("NVIDIA GeForce RTX 4060 Ti"@ =~= card_name("RTX_4060_TI"@));
    }
    assert("NVIDIA GeForce RTX 4070"@ == card_name("RTX_4070"@)) by {
        reveal_strlit("NVIDIA GeForce ");
        reveal_strlit("NVIDIA GeForce RTX 4070");
        reveal_strlit("RTX_4070");
        assert("NVIDIA GeForce RTX 4070"@ =~= card_name("RTX_4070"@));
    }
    assert("NVIDIA GeForce RTX 4070 SUPER"@ == card_name("RTX_4070_SUPER"@)) by {
        reveal_strlit("NVIDIA GeForce ");
        reveal_strlit("NVIDIA GeForce RTX 4070 SUPER");
        reveal_strlit("RTX_4070_SUPER");
        assert("NVIDIA GeForce RTX 4070 SUPER"@ =~= card_name("RTX_4070_SUPER"@));
    }
    assert("NVIDIA GeForce RTX 4070 Ti"@ == card_name("RTX_4070_TI"@)) by {
        reveal_strlit("NVIDIA GeForce ");
        reveal_strlit("NVIDIA GeForce RTX 4070 Ti");
        reveal_strlit("RTX_4070_TI");
        assert("NVIDIA GeForce RTX 4070 Ti"@ =~= card_name("RTX_4070_TI"@));
    }
    assert("NVIDIA GeForce RTX 4070 Ti SUPER"@ == card_name("RTX_4070_TI_SUPER"@)) by {
        reveal_strlit("NVIDIA GeForce ");
        reveal_strlit("NVIDIA GeForce RTX 4070 Ti SUPER");
        reveal_strlit("RTX_4070_TI_SUPER");
        assert("NVIDIA GeForce RTX 4070 Ti SUPER"@ =~= card_name("RTX_4070_TI_SUPER"@));
    }
    assert("NVIDIA GeForce RTX 4080"@ == card_name("RTX_4080"@)) by {
        reveal_strlit("NVIDIA GeForce ");
        reveal_strlit("NVIDIA GeForce RTX 4080");
        reveal_strlit("RTX_4080");
        assert("NVIDIA GeForce RTX 4080"@ =~= card_name("RTX_4080"@));
    }
    assert("NVIDIA GeForce RTX 4080 SUPER"@ == card_name("RTX_4080_SUPER"@)) by {
        reveal_strlit("NVIDIA GeForce ");
        reveal_strlit("NVIDIA GeForce RTX 4080 SUPER");
        reveal_strlit("RTX_4080_SUPER");
        assert("NVIDIA GeForce RTX 4080 SUPER"@ =~= card_name("RTX_4080_SUPER"@));
    }
    assert("NVIDIA GeForce RTX 4090"@ == card_name("RTX_4090"@)) by {
        reveal_strlit("NVIDIA GeForce ");
        reveal_strlit("NVIDIA GeForce RTX 4090");
        reveal_strlit("RTX_4090");
        assert("NVIDIA GeForce RTX 4090"@ =~= card_name("RTX_4090"@));
    }
    assert("NVIDIA GeForce RTX 5060"@ == card_name("RTX_5060"@)) by {
        reveal_strlit("NVIDIA GeForce ");
        reveal_strlit("NVIDIA GeForce RTX 5060");
        reveal_strlit("RTX_5060");
        assert("NVIDIA GeForce RTX 5060"@ =~= card_name("RTX_5060"@));
    }
    assert("NVIDIA GeForce RTX 5060 Ti"@ == card_name("RTX_5060_TI"@)) by {
        reveal_strlit("NVIDIA GeForce ");
        reveal_strlit("NVIDIA GeForce RTX 5060 Ti");
        reveal_strlit("RTX_5060_TI");
        assert("NVIDIA GeForce RTX 5060 Ti"@ =~= card_name("RTX_5060_TI"@));
    }
    assert("NVIDIA GeForce RTX 5070"@ == card_name("RTX_5070"@)) by {
        reveal_strlit("NVIDIA GeForce ");
        reveal_strlit("NVIDIA GeForce RTX 5070");
        reveal_strlit("RTX_5070");
        assert("NVIDIA GeForce RTX 5070"@ =~= card_name("RTX_5070"@));
    }
    assert("NVIDIA GeForce RTX 5070 Ti"@ == card_name("RTX_5070_TI"@)) by {
        reveal_strlit("NVIDIA GeForce ");
        reveal_strlit("NVIDIA GeForce RTX 5070 Ti");
        reveal_strlit("RTX_5070_TI");
        assert("NVIDIA GeForce RTX 5070 Ti"@ =~= card_name("RTX_5070_TI"@));
    }
    assert("NVIDIA GeForce RTX 5080"@ == card_name("RTX_5080"@)) by {
        reveal_strlit("NVIDIA GeForce ");
        reveal_strlit("NVIDIA GeForce RTX 5080");
        reveal_strlit("RTX_5080");
        assert("NVIDIA GeForce RTX 5080"@ =~= card_name("RTX_5080"@));
    }
    assert("NVIDIA GeForce RTX 5090"@ == card_name("RTX_5090"@)) by {
        reveal_strlit("NVIDIA GeForce ");
        reveal_strlit("NVIDIA GeForce RTX 5090");
        reveal_strlit("RTX_5090");
        assert("NVIDIA GeForce RTX 5090"@ =~= card_name("RTX_5090"@));
    }
    assert forall|i: int| 0 <= i < 31 implies (#[trigger] NVIDIA_PRESETS@[i]).2@ == card_name(
        NVIDIA_PRESETS@[i].0@,
    ) by {}
}

/// Each preset shows the card that its key names, under that card's name, and
/// no two show the same device number.
pub proof fn law_presets_show_their_own_card(i: int, j: int)
    requires
        0 <= i < 31,
        0 <= j < 31,
    ensures
        NVIDIA_PRESETS@[i].2@ == card_name(NVIDIA_PRESETS@[i].0@),
        i != j ==> NVIDIA_PRESETS@[i].1 != NVIDIA_PRESETS@[j].1,
{
    lemma_card_names();
}

} // verus!
