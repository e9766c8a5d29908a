//! Plugins: named bundles of registrations.

use vstd::prelude::*;

use crate::entry::Entry;

verus! {

/// A named bundle of entries, assembled during setup and handed to the
/// runtime builder in one call.
pub struct AionPlugin {
    name: &'static str,
    entries: Vec<Entry>,
}

impl AionPlugin {
    /// The plugin's name.
    pub closed spec fn spec_name(&self) -> Seq<char> {
        self.name@
    }

    /// The entries the plugin registers, in order.
    pub closed spec fn spec_entries(&self) -> Seq<Entry> {
        self.entries@
    }

    /// An empty plugin under the given name.
    pub fn new(name: &'static str) -> (r: Self)
        ensures
            r.spec_name() == name@,
            r.spec_entries() == Seq::<Entry>::empty(),
    {
        AionPlugin { name, entries: Vec::new() }
    }

    /// The plugin's name.
    pub fn name(&self) -> (r: &'static str)
        ensures
            r@ == self.spec_name(),
    {
        self.name
    }

    /// The entries the plugin registers, in order.
    pub fn entries(&self) -> (r: &Vec<Entry>)
        ensures
            r@ == self.spec_entries(),
    {
        &self.entries
    }

    /// Add entries to the plugin, after the ones it already holds.
    pub fn invoke_handler(self, entries: Vec<Entry>) -> (r: Self)
        ensures
            r.spec_name() == self.spec_name(),
            r.spec_entries() == self.spec_entries() + entries@,
    {
        let mut own = self;
        let mut entries = entries;
        own.entries.append(&mut entries);
        own
    }
}

} // verus!
