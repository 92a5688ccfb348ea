//! Colours and links in documents.
use std::collections::HashMap;

use vstd::prelude::*;
use vstd::std_specs::hash::*;

use crate::editor_features::InlaySplice;
use crate::editor_settings::DocumentColorsRenderMode;

verus! {

broadcast use group_hash_axioms;

/// How colours are shown.
#[derive(Debug)]
pub struct LspColorData {
    /// The way.
    pub render_mode: DocumentColorsRenderMode,
}

impl LspColorData {
    /// Colours shown in a way.
    pub fn new(render_mode: DocumentColorsRenderMode) -> (data: LspColorData)
        ensures
            data.render_mode == render_mode,
    {
        LspColorData { render_mode }
    }

    /// Shows colours in another way, and says what changes in the text. No colours are known, so
    /// no hint goes or comes; nothing is said where the way stays the same.
    pub fn render_mode_updated(&mut self, new_render_mode: DocumentColorsRenderMode) -> (splice:
        Option<InlaySplice>)
        ensures
            final(self).render_mode == new_render_mode,
            match splice {
                Some(splice) => {
                    &&& old(self).render_mode != new_render_mode
                    &&& splice.to_remove@.len() == 0
                    &&& splice.to_insert@.len() == 0
                },
                None => old(self).render_mode == new_render_mode,
            },
    {
        if self.render_mode == new_render_mode {
            return None;
        }
        self.render_mode = new_render_mode;
        Some(InlaySplice { to_remove: Vec::new(), to_insert: Vec::new() })
    }

    /// The ranges that are coloured, and how: none are known.
    pub fn editor_display_highlights(&self) -> (highlights: (
        DocumentColorsRenderMode,
        Vec<(usize, usize)>,
    ))
        ensures
            highlights.0 == self.render_mode,
            highlights.1@.len() == 0,
    {
        (self.render_mode, Vec::new())
    }
}

/// The links in documents.
#[derive(Debug)]
pub struct LspDocumentLinks {
    /// Whether they are shown.
    pub enabled: bool,
    /// The links of each buffer, by their places.
    pub per_buffer: HashMap<u64, Vec<usize>>,
}

impl LspDocumentLinks {
    /// No links, shown or not.
    pub fn new(enabled: bool) -> (links: LspDocumentLinks)
        ensures
            links.enabled == enabled,
            links.per_buffer@ == Map::<u64, Vec<usize>>::empty(),
    {
        LspDocumentLinks { enabled, per_buffer: HashMap::new() }
    }
}

} // verus!
