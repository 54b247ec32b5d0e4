//! A crosshair profile: settings under a name, and the share code that they
//! were read from, if they were.

use crate::settings::CrosshairSettings;
use crate::share_code::faithful;
use vstd::prelude::*;
use vstd::string::StringExecFns;

verus! {

/// What a profile holds, in the terms of contracts.
pub struct ProfileView {
    pub settings: CrosshairSettings,
    pub name: Seq<char>,
    /// The share code that the settings were read from. Exporting the
    /// profile gives this code back, character for character.
    pub original_code: Option<Seq<char>>,
}

/// Settings under a name.
///
/// A profile that was decoded from a share code keeps the code, until its
/// settings are changed: `set_settings` drops it, so that what is exported
/// is never a stale code. The name is no part of a code, and renaming keeps
/// it. So a profile that holds a code always holds the settings that the
/// code carries: that is the type's invariant.
#[derive(Debug)]
pub struct CrosshairProfile {
    settings: CrosshairSettings,
    name: String,
    original_code: Option<String>,
}

impl View for CrosshairProfile {
    type V = ProfileView;

    closed spec fn view(&self) -> ProfileView {
        ProfileView {
            settings: self.settings,
            name: self.name@,
            original_code: match self.original_code {
                Some(code) => Some(code@),
                None => None,
            },
        }
    }
}

impl CrosshairProfile {
    #[verifier::type_invariant]
    pub(crate) open spec fn holds_what_its_code_carries(self) -> bool {
        faithful(self@)
    }

    /// A profile of settings that come from no share code.
    pub fn new(settings: CrosshairSettings, name: String) -> (r: CrosshairProfile)
        ensures
            r@ == (ProfileView { settings, name: name@, original_code: None }),
    {
        CrosshairProfile { settings, name, original_code: None }
    }

    /// A profile of settings that were read from `code`.
    pub(crate) fn imported(settings: CrosshairSettings, name: String, code: String) -> (r:
        CrosshairProfile)
        requires
            faithful(ProfileView { settings, name: name@, original_code: Some(code@) }),
        ensures
            r@ == (ProfileView { settings, name: name@, original_code: Some(code@) }),
    {
        CrosshairProfile { settings, name, original_code: Some(code) }
    }

    pub fn settings(&self) -> (r: CrosshairSettings)
        ensures
            r == self@.settings,
    {
        self.settings
    }

    pub fn name(&self) -> (r: &str)
        ensures
            r@ == self@.name,
    {
        self.name.as_str()
    }

    /// The share code that the settings were read from, if they were and
    /// have not been changed since.
    pub fn original_code(&self) -> (r: Option<&str>)
        ensures
            r is Some <==> self@.original_code is Some,
            r matches Some(code) ==> self@.original_code == Some(code@),
    {
        match &self.original_code {
            Some(code) => Some(code.as_str()),
            None => None,
        }
    }

    /// Replaces the settings. The profile then holds no share code.
    pub fn set_settings(&mut self, settings: CrosshairSettings)
        ensures
            final(self)@ == (ProfileView {
                settings,
                name: old(self)@.name,
                original_code: None,
            }),
    {
        self.original_code = None;
        self.settings = settings;
    }

    /// Renames the profile. Settings and share code stay.
    pub fn set_name(&mut self, name: String)
        ensures
            final(self)@ == (ProfileView { name: name@, ..old(self)@ }),
    {
        proof {
            use_type_invariant(&*self);
        }
        self.name = name;
    }
}

impl Default for CrosshairProfile {
    /// The default settings under the name `Default`.
    fn default() -> (r: CrosshairProfile)
        ensures
            r@ == (ProfileView {
                settings: CrosshairSettings::default_settings(),
                name: "Default"@,
                original_code: None,
            }),
    {
        CrosshairProfile::new(CrosshairSettings::default(), String::from_str("Default"))
    }
}

impl Clone for CrosshairProfile {
    fn clone(&self) -> (r: CrosshairProfile)
        ensures
            r@ == self@,
    {
        proof {
            use_type_invariant(self);
        }
        let original_code = match &self.original_code {
            Some(code) => Some(code.clone()),
            None => None,
        };
        CrosshairProfile { settings: self.settings, name: self.name.clone(), original_code }
    }
}

} // verus!
