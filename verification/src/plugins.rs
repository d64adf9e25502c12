//! What a terminal plugin declares about itself.

use vstd::prelude::*;

verus! {

/// A moment in the browser a plugin can hook into.
#[derive(Debug, Clone, PartialEq, Eq)]
pub enum PluginHook {
    OnPageLoad,
    OnKey,
    OnRender,
}

/// A key a plugin wants to capture, and the action it names.
#[derive(Debug, Clone)]
pub struct PluginKeybinding {
    pub key: String,
    pub ctrl: bool,
    pub alt: bool,
    pub action: String,
}

/// What a plugin's `register` export answers.
#[derive(Debug, Clone)]
pub struct PluginRegistration {
    pub name: String,
    pub version: String,
    pub description: Option<String>,
    pub hooks: Vec<PluginHook>,
    pub keybindings: Vec<PluginKeybinding>,
}

/// A loaded plugin: its registration, its module and where it came from.
pub struct Plugin {
    pub registration: PluginRegistration,
    pub wasm_binary: Vec<u8>,
    pub path: String,
}

impl PluginRegistration {
    /// Whether the plugin registered for `hook`.
    pub fn has_hook(&self, hook: &PluginHook) -> (r: bool)
        ensures
            r == self.hooks@.contains(*hook),
    {
        let mut i: usize = 0;
        while i < self.hooks.len()
            invariant
                i <= self.hooks@.len(),
                forall|j: int| 0 <= j < i ==> self.hooks@[j] != *hook,
            decreases self.hooks@.len() - i,
        {
            let same = match (&self.hooks[i], hook) {
                (PluginHook::OnPageLoad, PluginHook::OnPageLoad) => true,
                (PluginHook::OnKey, PluginHook::OnKey) => true,
                (PluginHook::OnRender, PluginHook::OnRender) => true,
                _ => false,
            };
            if same {
                assert(self.hooks@[i as int] == *hook);
                return true;
            }
            i = i + 1;
        }
        false
    }
}

} // verus!
