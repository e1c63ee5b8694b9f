//! Profile defaults and independent feature switches.

use vstd::prelude::*;

verus! {

/// Runtime profile only establishes defaults; explicit switches always win.
#[derive(Debug, Clone, Copy, PartialEq, Eq, Structural)]
pub enum RuntimeProfile {
    /// Zero-configuration single-node experience.
    Lean,
    /// Scale and advanced capabilities enabled where locally available.
    Full,
}

impl Default for RuntimeProfile {
    fn default() -> (profile: Self)
        ensures
            profile == RuntimeProfile::Lean,
    {
        RuntimeProfile::Lean
    }
}

/// Independently configurable product capabilities.
#[derive(Debug, Clone, Copy, PartialEq, Eq, Structural)]
pub struct FeatureFlags {
    /// Jeopardy mode.
    pub jeopardy: bool,
    /// King of the Hill mode.
    pub koth: bool,
    /// Attack/Defense mode.
    pub attack_defense: bool,
    /// Workshop mode.
    pub workshop: bool,
    /// Dynamic container instances.
    pub orchestration: bool,
    /// Automation authoring and execution.
    pub automation: bool,
    /// External identity providers.
    pub external_auth: bool,
    /// Plugin registry browsing.
    pub marketplace: bool,
    /// Local and registry-installed Component Model plugins.
    pub plugins: bool,
    /// Discord integration.
    pub discord: bool,
    /// SMTP channel.
    pub smtp: bool,
    /// S3-compatible object storage.
    pub s3: bool,
}

/// The lean defaults: only Jeopardy is on.
pub open spec fn lean_flags() -> FeatureFlags {
    FeatureFlags {
        jeopardy: true,
        koth: false,
        attack_defense: false,
        workshop: false,
        orchestration: false,
        automation: false,
        external_auth: false,
        marketplace: false,
        plugins: false,
        discord: false,
        smtp: false,
        s3: false,
    }
}

/// The full profile: every capability is on.
pub open spec fn full_flags() -> FeatureFlags {
    FeatureFlags {
        jeopardy: true,
        koth: true,
        attack_defense: true,
        workshop: true,
        orchestration: true,
        automation: true,
        external_auth: true,
        marketplace: true,
        plugins: true,
        discord: true,
        smtp: true,
        s3: true,
    }
}

impl FeatureFlags {
    /// Defaults for a profile.
    pub fn for_profile(profile: RuntimeProfile) -> (flags: Self)
        ensures
            profile == RuntimeProfile::Lean ==> flags == lean_flags(),
            profile == RuntimeProfile::Full ==> flags == full_flags(),
    {
        match profile {
            RuntimeProfile::Lean => Self::default(),
            RuntimeProfile::Full => FeatureFlags {
                jeopardy: true,
                koth: true,
                attack_defense: true,
                workshop: true,
                orchestration: true,
                automation: true,
                external_auth: true,
                marketplace: true,
                plugins: true,
                discord: true,
                smtp: true,
                s3: true,
            },
        }
    }
}

impl Default for FeatureFlags {
    fn default() -> (flags: Self)
        ensures
            flags == lean_flags(),
    {
        FeatureFlags {
            jeopardy: true,
            koth: false,
            attack_defense: false,
            workshop: false,
            orchestration: false,
            automation: false,
            external_auth: false,
            marketplace: false,
            plugins: false,
            discord: false,
            smtp: false,
            s3: false,
        }
    }
}

/// Copy tone. Mascot visibility is intentionally independent.
#[derive(Debug, Clone, Copy, PartialEq, Eq, Structural)]
pub enum VoiceTone {
    /// Warm, clever Kitsune copy.
    Kitsune,
    /// Plain professional wording.
    Professional,
}

impl Default for VoiceTone {
    fn default() -> (tone: Self)
        ensures
            tone == VoiceTone::Kitsune,
    {
        VoiceTone::Kitsune
    }
}

/// Commercially granted convenience capabilities.
#[derive(Debug, Clone, Copy, PartialEq, Eq, Structural)]
pub struct Entitlements {
    /// Supported custom-logo/theme path and removal of the support nudge.
    pub white_label: bool,
}

impl Default for Entitlements {
    fn default() -> (entitlements: Self)
        ensures
            !entitlements.white_label,
    {
        Entitlements { white_label: false }
    }
}

/// Branding behavior. Disabling it is deliberately free.
#[derive(Debug, Clone, PartialEq, Eq)]
pub struct BrandingConfig {
    /// Show Kitsune identity and mascot delight moments.
    pub enabled: bool,
    /// Copy tone, independent from identity.
    pub tone: VoiceTone,
    /// Optional custom logo, honored only in the supported white-label UX.
    pub custom_logo_url: Option<String>,
}

impl Default for BrandingConfig {
    fn default() -> (config: Self)
        ensures
            config.enabled,
            config.tone == VoiceTone::Kitsune,
            config.custom_logo_url is None,
    {
        BrandingConfig { enabled: true, tone: VoiceTone::Kitsune, custom_logo_url: None }
    }
}

impl BrandingConfig {
    /// Whether to show the friendly project-support request next to de-branding.
    pub fn show_support_nudge(&self, entitlements: &Entitlements) -> (nudge: bool)
        ensures
            nudge == (!self.enabled && !entitlements.white_label),
    {
        !self.enabled && !entitlements.white_label
    }

    /// Returns a custom identity only through the supported entitlement path.
    pub fn effective_custom_logo<'a>(&'a self, entitlements: &Entitlements) -> (logo: Option<&'a str>)
        ensures
            !entitlements.white_label ==> logo is None,
            entitlements.white_label ==> (logo is Some <==> self.custom_logo_url is Some),
            entitlements.white_label && self.custom_logo_url is Some ==> logo.unwrap()@
                == self.custom_logo_url.unwrap()@,
    {
        if entitlements.white_label {
            match &self.custom_logo_url {
                Some(url) => Some(url.as_str()),
                None => None,
            }
        } else {
            None
        }
    }
}

} // verus!
