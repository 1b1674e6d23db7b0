//! Platform-specific sandbox profile extensions and their translation
//! from raw manifest values.

use crate::strings::clean_items;
use crate::strings::spec_clean_items;
use crate::strings::spec_to_lower;
use crate::strings::spec_trim;
use crate::strings::str_eq;
use crate::strings::to_ascii_lower;
use crate::strings::trim;
use vstd::prelude::*;

verus! {

/// Access to the desktop preferences store.
#[derive(Clone, Copy, Debug, PartialEq, Eq, Structural)]
pub enum MacOsPreferencesPermission {
    Denied,
    ReadOnly,
    ReadWrite,
}

/// Permission to drive other applications.
#[derive(Debug)]
pub enum MacOsAutomationPermission {
    Denied,
    All,
    BundleIds(Vec<String>),
}

/// The mathematical value of a [`MacOsAutomationPermission`].
pub enum MacOsAutomationV {
    Denied,
    All,
    BundleIds(Seq<Seq<char>>),
}

impl View for MacOsAutomationPermission {
    type V = MacOsAutomationV;

    open spec fn view(&self) -> MacOsAutomationV {
        match self {
            MacOsAutomationPermission::Denied => MacOsAutomationV::Denied,
            MacOsAutomationPermission::All => MacOsAutomationV::All,
            MacOsAutomationPermission::BundleIds(ids) => MacOsAutomationV::BundleIds(
                ids.deep_view(),
            ),
        }
    }
}

/// The desktop-automation toggles a compiled profile carries.
#[derive(Debug)]
pub struct MacOsSeatbeltProfileExtensions {
    pub macos_preferences: MacOsPreferencesPermission,
    pub macos_automation: MacOsAutomationPermission,
    pub macos_accessibility: bool,
    pub macos_calendar: bool,
}

/// The mathematical value of a [`MacOsSeatbeltProfileExtensions`].
pub struct SeatbeltExtensionsV {
    pub macos_preferences: MacOsPreferencesPermission,
    pub macos_automation: MacOsAutomationV,
    pub macos_accessibility: bool,
    pub macos_calendar: bool,
}

impl View for MacOsSeatbeltProfileExtensions {
    type V = SeatbeltExtensionsV;

    open spec fn view(&self) -> SeatbeltExtensionsV {
        SeatbeltExtensionsV {
            macos_preferences: self.macos_preferences,
            macos_automation: self.macos_automation@,
            macos_accessibility: self.macos_accessibility,
            macos_calendar: self.macos_calendar,
        }
    }
}

/// The extension values assumed when a manifest leaves them unspecified:
/// the permissive fallbacks.
pub open spec fn spec_default_extensions() -> SeatbeltExtensionsV {
    SeatbeltExtensionsV {
        macos_preferences: MacOsPreferencesPermission::ReadOnly,
        macos_automation: MacOsAutomationV::All,
        macos_accessibility: false,
        macos_calendar: false,
    }
}

impl Clone for MacOsAutomationPermission {
    /// Clones the permission, keeping its value.
    fn clone(&self) -> (r: Self)
        ensures
            r@ == self@,
    {
        match self {
            MacOsAutomationPermission::Denied => MacOsAutomationPermission::Denied,
            MacOsAutomationPermission::All => MacOsAutomationPermission::All,
            MacOsAutomationPermission::BundleIds(ids) => {
                let copied = crate::paths::clone_string_vec(ids);
                MacOsAutomationPermission::BundleIds(copied)
            },
        }
    }
}

impl Clone for MacOsSeatbeltProfileExtensions {
    /// Clones the extension block, keeping its value.
    fn clone(&self) -> (r: Self)
        ensures
            r@ == self@,
    {
        MacOsSeatbeltProfileExtensions {
            macos_preferences: self.macos_preferences,
            macos_automation: self.macos_automation.clone(),
            macos_accessibility: self.macos_accessibility,
            macos_calendar: self.macos_calendar,
        }
    }
}

impl Default for MacOsSeatbeltProfileExtensions {
    /// The permissive default extension block.
    fn default() -> (r: Self)
        ensures
            r@ == spec_default_extensions(),
    {
        MacOsSeatbeltProfileExtensions {
            macos_preferences: MacOsPreferencesPermission::ReadOnly,
            macos_automation: MacOsAutomationPermission::All,
            macos_accessibility: false,
            macos_calendar: false,
        }
    }
}

/// A raw manifest value for the preferences permission: a boolean or a
/// mode word.
#[derive(Debug)]
pub enum MacOsPreferencesValue {
    Bool(bool),
    Mode(String),
}

/// The mathematical value of a [`MacOsPreferencesValue`].
pub enum MacOsPreferencesValueV {
    Bool(bool),
    Mode(Seq<char>),
}

impl View for MacOsPreferencesValue {
    type V = MacOsPreferencesValueV;

    open spec fn view(&self) -> MacOsPreferencesValueV {
        match self {
            MacOsPreferencesValue::Bool(b) => MacOsPreferencesValueV::Bool(*b),
            MacOsPreferencesValue::Mode(s) => MacOsPreferencesValueV::Mode(s@),
        }
    }
}

/// A raw manifest value for the automation permission: a boolean or a
/// list of bundle identifiers.
#[derive(Debug)]
pub enum MacOsAutomationValue {
    Bool(bool),
    BundleIds(Vec<String>),
}

/// The mathematical value of a [`MacOsAutomationValue`].
pub enum MacOsAutomationValueV {
    Bool(bool),
    BundleIds(Seq<Seq<char>>),
}

impl View for MacOsAutomationValue {
    type V = MacOsAutomationValueV;

    open spec fn view(&self) -> MacOsAutomationValueV {
        match self {
            MacOsAutomationValue::Bool(b) => MacOsAutomationValueV::Bool(*b),
            MacOsAutomationValue::BundleIds(ids) => MacOsAutomationValueV::BundleIds(
                ids.deep_view(),
            ),
        }
    }
}

/// What a raw preferences value resolves to: `true` means read-only
/// access, a mode word selects its level, anything unrecognized falls to
/// the most restrictive option.
pub open spec fn spec_resolve_preferences(
    value: Option<MacOsPreferencesValueV>,
    default: MacOsPreferencesPermission,
) -> MacOsPreferencesPermission {
    match value {
        None => default,
        Some(MacOsPreferencesValueV::Bool(true)) => MacOsPreferencesPermission::ReadOnly,
        Some(MacOsPreferencesValueV::Bool(false)) => MacOsPreferencesPermission::Denied,
        Some(MacOsPreferencesValueV::Mode(mode)) => {
            let folded = spec_to_lower(spec_trim(mode));
            if folded == "readonly"@ || folded == "read-only"@ {
                MacOsPreferencesPermission::ReadOnly
            } else if folded == "readwrite"@ || folded == "read-write"@ {
                MacOsPreferencesPermission::ReadWrite
            } else {
                MacOsPreferencesPermission::Denied
            }
        },
    }
}

/// Resolves a raw preferences value; see [`spec_resolve_preferences`].
pub fn resolve_macos_preferences_permission(
    value: Option<&MacOsPreferencesValue>,
    default: MacOsPreferencesPermission,
) -> (r: MacOsPreferencesPermission)
    ensures
        r == spec_resolve_preferences(
            match value {
                Some(v) => Some(v@),
                None => None,
            },
            default,
        ),
{
    match value {
        None => default,
        Some(MacOsPreferencesValue::Bool(true)) => MacOsPreferencesPermission::ReadOnly,
        Some(MacOsPreferencesValue::Bool(false)) => MacOsPreferencesPermission::Denied,
        Some(MacOsPreferencesValue::Mode(mode)) => {
            let trimmed = trim(mode.as_str());
            let folded = to_ascii_lower(trimmed.as_str());
            if str_eq(folded.as_str(), "readonly") || str_eq(folded.as_str(), "read-only") {
                MacOsPreferencesPermission::ReadOnly
            } else if str_eq(folded.as_str(), "readwrite") || str_eq(
                folded.as_str(),
                "read-write",
            ) {
                MacOsPreferencesPermission::ReadWrite
            } else {
                MacOsPreferencesPermission::Denied
            }
        },
    }
}

/// What a raw automation value resolves to: `true` grants all targets, a
/// list keeps its non-empty trimmed entries, an empty list denies.
pub open spec fn spec_resolve_automation(
    value: Option<MacOsAutomationValueV>,
    default: MacOsAutomationV,
) -> MacOsAutomationV {
    match value {
        None => default,
        Some(MacOsAutomationValueV::Bool(true)) => MacOsAutomationV::All,
        Some(MacOsAutomationValueV::Bool(false)) => MacOsAutomationV::Denied,
        Some(MacOsAutomationValueV::BundleIds(ids)) => {
            let cleaned = spec_clean_items(ids);
            if cleaned.len() == 0 {
                MacOsAutomationV::Denied
            } else {
                MacOsAutomationV::BundleIds(cleaned)
            }
        },
    }
}

/// Resolves a raw automation value; see [`spec_resolve_automation`].
pub fn resolve_macos_automation_permission(
    value: Option<&MacOsAutomationValue>,
    default: MacOsAutomationPermission,
) -> (r: MacOsAutomationPermission)
    ensures
        r@ == spec_resolve_automation(
            match value {
                Some(v) => Some(v@),
                None => None,
            },
            default@,
        ),
{
    match value {
        None => default,
        Some(MacOsAutomationValue::Bool(true)) => MacOsAutomationPermission::All,
        Some(MacOsAutomationValue::Bool(false)) => MacOsAutomationPermission::Denied,
        Some(MacOsAutomationValue::BundleIds(ids)) => {
            let cleaned = clean_items(ids);
            if cleaned.len() == 0 {
                proof {
                    assert(cleaned.deep_view() =~= Seq::<Seq<char>>::empty());
                }
                MacOsAutomationPermission::Denied
            } else {
                MacOsAutomationPermission::BundleIds(cleaned)
            }
        },
    }
}

/// The raw platform block of a skill manifest.
#[derive(Debug)]
pub struct SkillManifestMacOsPermissions {
    pub preferences: Option<MacOsPreferencesValue>,
    pub automations: Option<MacOsAutomationValue>,
    pub accessibility: bool,
    pub calendar: bool,
}

/// The mathematical value of a [`SkillManifestMacOsPermissions`].
pub struct MacOsManifestV {
    pub preferences: Option<MacOsPreferencesValueV>,
    pub automations: Option<MacOsAutomationValueV>,
    pub accessibility: bool,
    pub calendar: bool,
}

impl View for SkillManifestMacOsPermissions {
    type V = MacOsManifestV;

    open spec fn view(&self) -> MacOsManifestV {
        MacOsManifestV {
            preferences: match &self.preferences {
                Some(v) => Some(v@),
                None => None,
            },
            automations: match &self.automations {
                Some(v) => Some(v@),
                None => None,
            },
            accessibility: self.accessibility,
            calendar: self.calendar,
        }
    }
}

impl Default for SkillManifestMacOsPermissions {
    /// An empty platform block: nothing specified.
    fn default() -> (r: Self)
        ensures
            r@.preferences is None,
            r@.automations is None,
            !r@.accessibility,
            !r@.calendar,
    {
        SkillManifestMacOsPermissions {
            preferences: None,
            automations: None,
            accessibility: false,
            calendar: false,
        }
    }
}

/// The extension block a raw platform block compiles to: each field is
/// translated on its own, with the permissive default where the manifest
/// is silent.
pub open spec fn spec_build_extensions(m: MacOsManifestV) -> SeatbeltExtensionsV {
    SeatbeltExtensionsV {
        macos_preferences: spec_resolve_preferences(
            m.preferences,
            spec_default_extensions().macos_preferences,
        ),
        macos_automation: spec_resolve_automation(
            m.automations,
            spec_default_extensions().macos_automation,
        ),
        macos_accessibility: m.accessibility,
        macos_calendar: m.calendar,
    }
}

/// Translates the raw platform block of a manifest into a compiled
/// extension block; see [`spec_build_extensions`].
pub fn build_macos_seatbelt_profile_extensions(
    permissions: &SkillManifestMacOsPermissions,
) -> (r: Option<MacOsSeatbeltProfileExtensions>)
    ensures
        r is Some,
        r->Some_0@ == spec_build_extensions(permissions@),
{
    let defaults = MacOsSeatbeltProfileExtensions::default();
    let extensions = MacOsSeatbeltProfileExtensions {
        macos_preferences: resolve_macos_preferences_permission(
            permissions.preferences.as_ref(),
            defaults.macos_preferences,
        ),
        macos_automation: resolve_macos_automation_permission(
            permissions.automations.as_ref(),
            defaults.macos_automation,
        ),
        macos_accessibility: permissions.accessibility,
        macos_calendar: permissions.calendar,
    };
    Some(extensions)
}

} // verus!
