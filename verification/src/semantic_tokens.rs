//! The highlighting of meanings.
use std::collections::HashMap;

use vstd::prelude::*;
use vstd::std_specs::hash::*;

use crate::settings_content::SemanticTokenRules;

verus! {

broadcast use group_hash_axioms;

/// How and where meanings are highlighted.
#[derive(Debug)]
pub struct SemanticTokenState {
    /// The rules.
    pub rules: SemanticTokenRules,
    /// Whether anything is highlighted.
    pub enabled: bool,
    /// The version for which each buffer was last looked at.
    pub fetched_for_buffers: HashMap<u64, u64>,
}

impl SemanticTokenState {
    /// Nothing was looked at yet.
    pub fn new(rules: SemanticTokenRules, enabled: bool) -> (state: SemanticTokenState)
        ensures
            state.rules == rules,
            state.enabled == enabled,
            state.fetched_for_buffers@ == Map::<u64, u64>::empty(),
    {
        SemanticTokenState { rules, enabled, fetched_for_buffers: HashMap::new() }
    }

    /// Whether anything is highlighted.
    pub fn enabled(&self) -> (enabled: bool)
        ensures
            enabled == self.enabled,
    {
        self.enabled
    }

    /// Switches the highlighting on or off.
    pub fn toggle_enabled(&mut self)
        ensures
            final(self).enabled == !old(self).enabled,
            final(self).rules == old(self).rules,
            final(self).fetched_for_buffers == old(self).fetched_for_buffers,
    {
        self.enabled = !self.enabled;
    }

    /// A buffer has to be looked at again.
    pub fn invalidate_buffer(&mut self, buffer_id: u64)
        ensures
            final(self).enabled == old(self).enabled,
            final(self).rules == old(self).rules,
            final(self).fetched_for_buffers@ == old(self).fetched_for_buffers@.remove(buffer_id),
    {
        self.fetched_for_buffers.remove(&buffer_id);
    }

    /// Takes over rules, and says whether they differ from the ones before.
    pub fn update_rules(&mut self, new_rules: SemanticTokenRules) -> (changed: bool)
        ensures
            changed == (new_rules@ != old(self).rules@),
            final(self).rules@ == new_rules@,
            final(self).enabled == old(self).enabled,
            final(self).fetched_for_buffers == old(self).fetched_for_buffers,
    {
        if new_rules.same(&self.rules) {
            false
        } else {
            self.rules = new_rules;
            true
        }
    }
}

} // verus!
