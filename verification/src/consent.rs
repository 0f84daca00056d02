//! Telemetry consent management.
//!
//! Consent state is stored in `~/.config/precc/consent.toml`. Telemetry is
//! opt-out: enabled by default for new installs. Two ways to disable it: the
//! kill switch in the environment, and an explicit opt-out, which is
//! persisted. The counterfactual stream is opt-in only.
use vstd::prelude::*;
use vstd::string::*;

use crate::numerals;
use crate::paths;
use crate::text;

verus! {

/// Current consent schema version. Bumping this forces re-consent.
pub const CONSENT_VERSION: u32 = 1;

/// The consent state of a machine.
#[derive(Debug)]
pub struct ConsentConfig {
    /// Usage telemetry.
    pub telemetry: TelemetryConsent,
    /// The counterfactual stream. Disabled by default.
    pub counterfactual: CounterfactualConsent,
    /// User-interface preferences.
    pub ui: UiConfig,
}

/// User-interface preferences.
#[derive(Debug)]
pub struct UiConfig {
    /// Language code. Empty or unknown values fall back to English.
    pub preferred_language: String,
}

/// Consent for usage telemetry.
#[derive(Debug)]
pub struct TelemetryConsent {
    /// Whether it was granted.
    pub enabled: bool,
    /// When that was decided.
    pub consented_at: String,
    /// The version of the schema under which it was decided.
    pub consent_version: u32,
}

/// Per-machine consent for the counterfactual stream.
#[derive(Debug)]
pub struct CounterfactualConsent {
    /// Whether it was granted.
    pub enabled: bool,
    /// When that was decided.
    pub consented_at: String,
    /// The version of the schema under which it was decided.
    pub consent_version: u32,
}

/// The model of a consent: whether it was granted, when, under which version.
pub struct ConsentView {
    /// Whether it was granted.
    pub enabled: bool,
    /// When that was decided.
    pub consented_at: Seq<char>,
    /// The version of the schema.
    pub consent_version: u32,
}

/// The model of the consent state of a machine.
pub struct ConfigView {
    /// Usage telemetry.
    pub telemetry: ConsentView,
    /// The counterfactual stream.
    pub counterfactual: ConsentView,
    /// The preferred language.
    pub preferred_language: Seq<char>,
}

impl View for TelemetryConsent {
    type V = ConsentView;

    open spec fn view(&self) -> ConsentView {
        ConsentView {
            enabled: self.enabled,
            consented_at: self.consented_at@,
            consent_version: self.consent_version,
        }
    }
}

impl View for CounterfactualConsent {
    type V = ConsentView;

    open spec fn view(&self) -> ConsentView {
        ConsentView {
            enabled: self.enabled,
            consented_at: self.consented_at@,
            consent_version: self.consent_version,
        }
    }
}

impl View for ConsentConfig {
    type V = ConfigView;

    open spec fn view(&self) -> ConfigView {
        ConfigView {
            telemetry: self.telemetry@,
            counterfactual: self.counterfactual@,
            preferred_language: self.ui.preferred_language@,
        }
    }
}

/// The model of what was loaded.
pub open spec fn opt_config(c: Option<&ConsentConfig>) -> Option<ConfigView> {
    match c {
        Some(v) => Some(v@),
        None => None,
    }
}

/// The consent of a stream that was never decided on.
pub open spec fn undecided() -> ConsentView {
    ConsentView { enabled: false, consented_at: ""@, consent_version: 0 }
}

impl Default for UiConfig {
    fn default() -> (r: Self)
        ensures
            r.preferred_language@ == ""@,
    {
        UiConfig { preferred_language: "".to_owned() }
    }
}

impl Default for CounterfactualConsent {
    fn default() -> (r: Self)
        ensures
            r@ == undecided(),
    {
        CounterfactualConsent { enabled: false, consented_at: "".to_owned(), consent_version: 0 }
    }
}

impl Clone for TelemetryConsent {
    fn clone(&self) -> (r: Self)
        ensures
            r@ == self@,
    {
        TelemetryConsent {
            enabled: self.enabled,
            consented_at: self.consented_at.clone(),
            consent_version: self.consent_version,
        }
    }
}

impl Clone for CounterfactualConsent {
    fn clone(&self) -> (r: Self)
        ensures
            r@ == self@,
    {
        CounterfactualConsent {
            enabled: self.enabled,
            consented_at: self.consented_at.clone(),
            consent_version: self.consent_version,
        }
    }
}

impl Clone for UiConfig {
    fn clone(&self) -> (r: Self)
        ensures
            r.preferred_language@ == self.preferred_language@,
    {
        UiConfig { preferred_language: self.preferred_language.clone() }
    }
}

impl Clone for ConsentConfig {
    fn clone(&self) -> (r: Self)
        ensures
            r@ == self@,
    {
        ConsentConfig {
            telemetry: self.telemetry.clone(),
            counterfactual: self.counterfactual.clone(),
            ui: self.ui.clone(),
        }
    }
}

// ---------------------------------------------------------------------------
// Decisions
// ---------------------------------------------------------------------------
/// A consent that was granted under the current version of the schema.
pub open spec fn is_current_grant(c: ConsentView) -> bool {
    c.enabled && c.consent_version == CONSENT_VERSION
}

/// Telemetry is enabled: never with the kill switch; else as was decided, and
/// by default if nothing was.
pub open spec fn telemetry_on(no_telemetry: bool, loaded: Option<ConfigView>) -> bool {
    !no_telemetry && (match loaded {
        Some(c) => c.telemetry.enabled,
        None => true,
    })
}

/// Telemetry was opted into, not merely left on.
pub open spec fn telemetry_granted(no_telemetry: bool, loaded: Option<ConfigView>) -> bool {
    !no_telemetry && (match loaded {
        Some(c) => is_current_grant(c.telemetry),
        None => false,
    })
}

/// The counterfactual stream is enabled: it was opted into under the current
/// version, and neither kill switch is set.
pub open spec fn counterfactual_on(
    no_telemetry: bool,
    no_counterfactual: bool,
    loaded: Option<ConfigView>,
) -> bool {
    !no_telemetry && !no_counterfactual && (match loaded {
        Some(c) => is_current_grant(c.counterfactual),
        None => false,
    })
}

/// Whether telemetry is enabled, given whether the kill switch is set and the
/// consent that was loaded. Nothing is loaded if there is no file or it
/// cannot be read.
///
/// 1. The kill switch disables it.
/// 2. A consent that says enabled keeps it on.
/// 3. A consent that says disabled keeps it off, under whatever version it
///    was given: a user who opted out is respected.
/// 4. Without a consent it is on: new installs report unless they actively
///    disable it.
pub fn is_telemetry_enabled(no_telemetry: bool, loaded: Option<&ConsentConfig>) -> (r: bool)
    ensures
        r == telemetry_on(no_telemetry, opt_config(loaded)),
{
    if no_telemetry {
        return false;
    }
    match loaded {
        Some(cfg) => cfg.telemetry.enabled,
        None => true,
    }
}

/// True iff the user has explicitly opted in at the current consent version.
/// Tells "enabled by default" from "explicitly granted".
pub fn has_explicit_consent(no_telemetry: bool, loaded: Option<&ConsentConfig>) -> (r: bool)
    ensures
        r == telemetry_granted(no_telemetry, opt_config(loaded)),
{
    if no_telemetry {
        return false;
    }
    match loaded {
        Some(cfg) => cfg.telemetry.enabled && cfg.telemetry.consent_version == CONSENT_VERSION,
        None => false,
    }
}

/// True only when the counterfactual stream is explicitly opted into at the
/// current consent version. Absence of the file or of the section means
/// disabled. Honours the global kill switch and a dedicated one.
pub fn is_counterfactual_enabled(
    no_telemetry: bool,
    no_counterfactual: bool,
    loaded: Option<&ConsentConfig>,
) -> (r: bool)
    ensures
        r == counterfactual_on(no_telemetry, no_counterfactual, opt_config(loaded)),
{
    if no_telemetry || no_counterfactual {
        return false;
    }
    match loaded {
        Some(cfg) => cfg.counterfactual.enabled && cfg.counterfactual.consent_version
            == CONSENT_VERSION,
        None => false,
    }
}

// ---------------------------------------------------------------------------
// Saving
// ---------------------------------------------------------------------------
/// A moment as consents hold it.
pub open spec fn stamp(secs: nat) -> Seq<char> {
    numerals::dec(secs) + "Z"@
}

/// A moment as consents hold it: seconds since the epoch.
pub fn chrono_lite_now(secs: u64) -> (r: String)
    ensures
        r@ == stamp(secs as nat),
{
    let mut out = numerals::dec_text(secs);
    out.append("Z");
    out
}

/// A consent decided now.
pub open spec fn decided(enabled: bool, secs: nat) -> ConsentView {
    ConsentView { enabled: enabled, consented_at: stamp(secs), consent_version: CONSENT_VERSION }
}

/// What is stored when telemetry is decided on: the other sections are kept,
/// or take their defaults.
pub open spec fn with_telemetry(enabled: bool, secs: nat, existing: Option<ConfigView>) -> ConfigView {
    ConfigView {
        telemetry: decided(enabled, secs),
        counterfactual: match existing {
            Some(c) => c.counterfactual,
            None => undecided(),
        },
        preferred_language: match existing {
            Some(c) => c.preferred_language,
            None => ""@,
        },
    }
}

/// What is stored when the counterfactual stream is decided on: the other
/// sections are kept, or take their defaults; telemetry's is to be enabled.
pub open spec fn with_counterfactual(enabled: bool, secs: nat, existing: Option<ConfigView>) -> ConfigView {
    ConfigView {
        telemetry: match existing {
            Some(c) => c.telemetry,
            None => decided(true, secs),
        },
        counterfactual: decided(enabled, secs),
        preferred_language: match existing {
            Some(c) => c.preferred_language,
            None => ""@,
        },
    }
}

/// The consent state to persist when telemetry is switched. Keeps the
/// existing counterfactual and user-interface sections.
pub fn save(enabled: bool, secs: u64, existing: Option<&ConsentConfig>) -> (r: ConsentConfig)
    ensures
        r@ == with_telemetry(enabled, secs as nat, opt_config(existing)),
{
    let telemetry = TelemetryConsent {
        enabled: enabled,
        consented_at: chrono_lite_now(secs),
        consent_version: CONSENT_VERSION,
    };
    match existing {
        Some(c) => ConsentConfig {
            telemetry: telemetry,
            counterfactual: c.counterfactual.clone(),
            ui: c.ui.clone(),
        },
        None => ConsentConfig {
            telemetry: telemetry,
            counterfactual: CounterfactualConsent::default(),
            ui: UiConfig::default(),
        },
    }
}

/// The consent state to persist when the counterfactual stream is switched.
/// Keeps the existing telemetry and user-interface sections.
pub fn save_counterfactual(enabled: bool, secs: u64, existing: Option<&ConsentConfig>) -> (r:
    ConsentConfig)
    ensures
        r@ == with_counterfactual(enabled, secs as nat, opt_config(existing)),
{
    let counterfactual = CounterfactualConsent {
        enabled: enabled,
        consented_at: chrono_lite_now(secs),
        consent_version: CONSENT_VERSION,
    };
    match existing {
        Some(c) => ConsentConfig {
            telemetry: c.telemetry.clone(),
            counterfactual: counterfactual,
            ui: c.ui.clone(),
        },
        None => ConsentConfig {
            telemetry: TelemetryConsent {
                enabled: true,
                consented_at: chrono_lite_now(secs),
                consent_version: CONSENT_VERSION,
            },
            counterfactual: counterfactual,
            ui: UiConfig::default(),
        },
    }
}

/// The directory of the config files: the one that is set for this program,
/// else the one below the host's config directory, else the one below the
/// home directory.
pub open spec fn config_place(
    own: Option<Seq<char>>,
    host: Option<Seq<char>>,
    home: Option<Seq<char>>,
) -> Option<Seq<char>> {
    match own {
        Some(d) => Some(d),
        None => match host {
            Some(d) => Some(paths::join_path(d, "precc"@)),
            None => match home {
                Some(h) => Some(paths::join_path(h, ".config/precc"@)),
                None => None,
            },
        },
    }
}

/// The directory of the config files; nothing if no directory is set.
pub fn config_dir(own: Option<&str>, host: Option<&str>, home: Option<&str>) -> (r: Option<String>)
    ensures
        text::opt_view(r) == config_place(
            text::opt_str(own),
            text::opt_str(host),
            text::opt_str(home),
        ),
{
    match own {
        Some(d) => Some(d.to_owned()),
        None => match host {
            Some(d) => Some(paths::path_join(d, "precc")),
            None => match home {
                Some(h) => Some(paths::path_join(h, ".config/precc")),
                None => None,
            },
        },
    }
}

/// The file in the config directory that holds the consent state.
pub fn consent_path(config_dir: &str) -> (r: String)
    ensures
        r@ == paths::join_path(config_dir@, "consent.toml"@),
{
    paths::path_join(config_dir, "consent.toml")
}

// ---------------------------------------------------------------------------
// Laws
// ---------------------------------------------------------------------------
/// With the kill switch set nothing is sent, whatever was consented to.
pub proof fn law_kill_switch(no_counterfactual: bool, loaded: Option<ConfigView>)
    ensures
        !telemetry_on(true, loaded),
        !telemetry_granted(true, loaded),
        !counterfactual_on(true, no_counterfactual, loaded),
        !counterfactual_on(false, true, loaded),
{
}

/// Without a consent file telemetry is on unless the kill switch is set, but
/// is not granted, and the counterfactual stream is off.
pub proof fn law_defaults(no_telemetry: bool, no_counterfactual: bool)
    ensures
        telemetry_on(no_telemetry, None) == !no_telemetry,
        !telemetry_granted(no_telemetry, None),
        !counterfactual_on(no_telemetry, no_counterfactual, None),
{
}

/// Granted telemetry is enabled telemetry.
pub proof fn law_granted_is_enabled(no_telemetry: bool, loaded: Option<ConfigView>)
    ensures
        telemetry_granted(no_telemetry, loaded) ==> telemetry_on(no_telemetry, loaded),
{
}

/// A decision is in force as soon as it is saved, and an opt-out is respected.
pub proof fn law_saved_telemetry_is_respected(
    enabled: bool,
    secs: nat,
    existing: Option<ConfigView>,
)
    ensures
        telemetry_on(false, Some(with_telemetry(enabled, secs, existing))) == enabled,
        telemetry_granted(false, Some(with_telemetry(enabled, secs, existing))) == enabled,
{
}

/// The counterfactual stream is on after it was opted into and off after it
/// was opted out of.
pub proof fn law_saved_counterfactual_is_respected(
    enabled: bool,
    secs: nat,
    existing: Option<ConfigView>,
)
    ensures
        counterfactual_on(false, false, Some(with_counterfactual(enabled, secs, existing)))
            == enabled,
{
}

/// Switching one stream keeps what was decided on the other, and the language.
pub proof fn law_saving_keeps_other_sections(enabled: bool, secs: nat, existing: ConfigView)
    ensures
        with_telemetry(enabled, secs, Some(existing)).counterfactual == existing.counterfactual,
        with_telemetry(enabled, secs, Some(existing)).preferred_language
            == existing.preferred_language,
        with_counterfactual(enabled, secs, Some(existing)).telemetry == existing.telemetry,
        with_counterfactual(enabled, secs, Some(existing)).preferred_language
            == existing.preferred_language,
{
}

/// A user who opted out stays out, whatever version the consent was given
/// under.
pub proof fn law_opt_out_is_respected(no_telemetry: bool, loaded: ConfigView)
    requires
        !loaded.telemetry.enabled,
    ensures
        !telemetry_on(no_telemetry, Some(loaded)),
        !telemetry_granted(no_telemetry, Some(loaded)),
{
}

/// A consent under another version of the schema is no grant: consent has to
/// be given again. Without it the counterfactual stream is off.
pub proof fn law_version_bump_forces_consent(
    no_telemetry: bool,
    no_counterfactual: bool,
    loaded: ConfigView,
)
    ensures
        loaded.telemetry.consent_version != CONSENT_VERSION ==> !telemetry_granted(
            no_telemetry,
            Some(loaded),
        ),
        loaded.counterfactual.consent_version != CONSENT_VERSION ==> !counterfactual_on(
            no_telemetry,
            no_counterfactual,
            Some(loaded),
        ),
{
}

/// Without a kill switch telemetry is on as was decided, and granted exactly if it
/// was decided so under the current version; the counterfactual stream is on
/// exactly if it was.
pub proof fn law_decisions_are_in_force(c: ConfigView)
    ensures
        telemetry_on(false, Some(c)) == c.telemetry.enabled,
        telemetry_granted(false, Some(c)) <==> c.telemetry.enabled && c.telemetry.consent_version
            == 1,
        counterfactual_on(false, false, Some(c)) <==> c.counterfactual.enabled
            && c.counterfactual.consent_version == 1,
{
}

/// A decision is stored with its moment, in seconds and a `Z`, and the current
/// version. Where nothing was stored before, the other stream takes its default:
/// telemetry on from now, the counterfactual stream undecided.
pub proof fn law_decisions_are_stored(enabled: bool, secs: nat, existing: Option<ConfigView>)
    ensures
        with_telemetry(enabled, secs, existing).telemetry == (ConsentView {
            enabled: enabled,
            consented_at: numerals::dec(secs) + seq!['Z'],
            consent_version: 1,
        }),
        with_counterfactual(enabled, secs, existing).counterfactual == (ConsentView {
            enabled: enabled,
            consented_at: numerals::dec(secs) + seq!['Z'],
            consent_version: 1,
        }),
        with_telemetry(enabled, secs, None).counterfactual == (ConsentView {
            enabled: false,
            consented_at: Seq::<char>::empty(),
            consent_version: 0,
        }),
        with_counterfactual(enabled, secs, None).telemetry == (ConsentView {
            enabled: true,
            consented_at: numerals::dec(secs) + seq!['Z'],
            consent_version: 1,
        }),
        with_telemetry(enabled, secs, None).preferred_language == Seq::<char>::empty(),
        with_counterfactual(enabled, secs, None).preferred_language == Seq::<char>::empty(),
{
    reveal_strlit("Z");
    reveal_strlit("");
    assert("Z"@ =~= seq!['Z']);
    assert(""@ =~= Seq::<char>::empty());
}

/// The program's own directory comes before one below the host's config directory,
/// and that before one below the home directory.
pub proof fn law_config_directory(
    own: Seq<char>,
    host: Seq<char>,
    home: Seq<char>,
    some_host: Option<Seq<char>>,
    some_home: Option<Seq<char>>,
)
    ensures
        config_place(Some(own), some_host, some_home) == Some(own),
        config_place(None, Some(host), some_home) matches Some(p) && host.is_prefix_of(p)
            && paths::components(p) == paths::components(host) + paths::components("precc"@),
        config_place(None, None, Some(home)) matches Some(p) && home.is_prefix_of(p)
            && paths::components(p) == paths::components(home) + paths::components(
            ".config/precc"@,
        ),
        config_place(None, None, None) is None,
{
    reveal_strlit("precc");
    reveal_strlit(".config/precc");
    paths::law_joined_paths(host, "precc"@);
    paths::law_joined_paths(home, ".config/precc"@);
}

/// The consent file lies in the config directory.
pub proof fn law_consent_file(dir: &str, r: String)
    requires
        call_ensures(consent_path, (dir,), r),
    ensures
        dir@.is_prefix_of(r@),
        paths::components(r@) == paths::components(dir@) + seq!["consent.toml"@],
{
    reveal_strlit("consent.toml");
    reveal_strlit(".");
    let name = "consent.toml"@;
    paths::law_joined_paths(dir@, name);
    assert(paths::is_component(name)) by {
        assert(name.len() == 12);
        assert(!name.contains('/'));
        assert("."@.len() == 1);
    }
    paths::law_components_stand_between_slashes(name, Seq::empty());
}

/// What is in force, by the switches, the consent and the results.
pub proof fn law_switches_and_consent(
    no_telemetry: bool,
    no_counterfactual: bool,
    c: &ConsentConfig,
    on: bool,
    granted: bool,
    stream: bool,
)
    requires
        call_ensures(is_telemetry_enabled, (no_telemetry, Some(c)), on),
        call_ensures(has_explicit_consent, (no_telemetry, Some(c)), granted),
        call_ensures(is_counterfactual_enabled, (no_telemetry, no_counterfactual, Some(c)), stream),
    ensures
        on <==> !no_telemetry && c.telemetry.enabled,
        granted <==> !no_telemetry && c.telemetry.enabled && c.telemetry.consent_version == 1,
        stream <==> !no_telemetry && !no_counterfactual && c.counterfactual.enabled
            && c.counterfactual.consent_version == 1,
{
}

} // verus!
