//! Registry of named, versioned parser plugins.
//!
//! The registry is a plain verified value; exclusive access for mutation is
//! expressed through `&mut self`. A caller that shares one registry between
//! threads wraps it in a reader/writer lock and reports a poisoned lock as
//! [`RegistryError::RegistryLocked`].

use std::sync::Arc;
use vstd::prelude::*;

use crate::plugin::Plugin;
use crate::version::{spec_version_chars, version_compatible, PluginVersion};

verus! {

/// Error values of the plugin registry.
#[derive(Debug, Clone, PartialEq)]
pub enum RegistryError {
    PluginNotFound(String),
    PluginAlreadyRegistered(String),
    IncompatibleVersion { plugin: String, required: String },
    /// Internal synchronization failure of a lock that shares a registry;
    /// never produced by the registry value itself.
    RegistryLocked,
}

/// Relies on `std::sync::Arc::clone`: the returned handle shares the same
/// allocation as the argument and so denotes the same value.
#[verifier::external_body]
fn arc_clone<T>(a: &Arc<T>) -> (r: Arc<T>)
    ensures
        r == *a,
{
    Arc::clone(a)
}

/// `s` with every occurrence of `name` removed, order otherwise kept.
pub open spec fn names_without(s: Seq<Seq<char>>, name: Seq<char>) -> Seq<Seq<char>>
    decreases s.len(),
{
    if s.len() == 0 {
        s
    } else if s.last() == name {
        names_without(s.drop_last(), name)
    } else {
        names_without(s.drop_last(), name).push(s.last())
    }
}

/// The members of `names` that are not in `disabled`, order kept.
pub open spec fn names_enabled(names: Seq<Seq<char>>, disabled: Seq<Seq<char>>) -> Seq<Seq<char>>
    decreases names.len(),
{
    if names.len() == 0 {
        names
    } else {
        let rest = names_enabled(names.drop_last(), disabled);
        if disabled.contains(names.last()) {
            rest
        } else {
            rest.push(names.last())
        }
    }
}

/// Removing a name removes it completely.
pub proof fn lemma_names_without_absent(s: Seq<Seq<char>>, name: Seq<char>)
    ensures
        forall|j: int|
            0 <= j < names_without(s, name).len() ==> #[trigger] names_without(s, name)[j]
                != name,
    decreases s.len(),
{
    if s.len() > 0 {
        lemma_names_without_absent(s.drop_last(), name);
        let sub = names_without(s.drop_last(), name);
        if s.last() != name {
            assert forall|j: int|
                0 <= j < names_without(s, name).len() implies #[trigger] names_without(s, name)[j]
                != name by {
                if j < sub.len() {
                    assert(names_without(s, name)[j] == sub[j]);
                } else {
                    assert(names_without(s, name)[j] == s.last());
                }
            }
        }
    }
}

/// Store of named plugins plus the set of disabled names.
pub struct PluginRegistry<P: Plugin> {
    pub entries: Vec<(String, Arc<P>)>,
    pub disabled: Vec<String>,
}

impl<P: Plugin> PluginRegistry<P> {
    /// The registered names, in registration order.
    pub open spec fn names(&self) -> Seq<Seq<char>> {
        Seq::new(self.entries@.len(), |i: int| self.entries@[i].0@)
    }

    /// The disabled names, in the order they were disabled.
    pub open spec fn disabled_names(&self) -> Seq<Seq<char>> {
        Seq::new(self.disabled@.len(), |i: int| self.disabled@[i]@)
    }

    pub open spec fn spec_contains(&self, name: Seq<char>) -> bool {
        self.names().contains(name)
    }

    pub open spec fn spec_disabled(&self, name: Seq<char>) -> bool {
        self.disabled_names().contains(name)
    }

    /// Registered names are unique.
    pub open spec fn wf(&self) -> bool {
        forall|i: int, j: int|
            0 <= i < j < self.names().len() ==> self.names()[i] != self.names()[j]
    }

    /// Creates a new empty plugin registry.
    pub fn new() -> (r: Self)
        ensures
            r.wf(),
            r.entries@.len() == 0,
            r.disabled@.len() == 0,
    {
        Self { entries: Vec::new(), disabled: Vec::new() }
    }

    /// The index of `name` among the registered entries, if present.
    fn find_index(&self, name: &str) -> (r: Option<usize>)
        ensures
            match r {
                Some(i) => i < self.entries@.len() && self.entries@[i as int].0@ == name@,
                None => !self.spec_contains(name@),
            },
    {
        let n: usize = self.entries.len();
        let mut i: usize = 0;
        while i < n
            invariant
                n == self.entries@.len(),
                i <= n,
                forall|j: int| 0 <= j < i ==> self.entries@[j].0@ != name@,
            decreases n - i,
        {
            if crate::text::str_eq(self.entries[i].0.as_str(), name) {
                return Some(i);
            }
            i = i + 1;
        }
        proof {
            assert(forall|j: int| 0 <= j < self.names().len() ==> self.names()[j] != name@);
        }
        None
    }

    /// Registers a new plugin under its own name; fails without mutation
    /// when the name is already taken.
    pub fn register(&mut self, plugin: Arc<P>) -> (r: Result<(), RegistryError>)
        requires
            old(self).wf(),
        ensures
            final(self).wf(),
            final(self).disabled@ == old(self).disabled@,
            old(self).spec_contains(plugin.spec_name()) ==> {
                &&& final(self).entries@ == old(self).entries@
                &&& r matches Err(RegistryError::PluginAlreadyRegistered(n)) && n@
                    == plugin.spec_name()
            },
            !old(self).spec_contains(plugin.spec_name()) ==> {
                &&& r is Ok
                &&& final(self).entries@.len() == old(self).entries@.len() + 1
                &&& final(self).entries@.subrange(0, old(self).entries@.len() as int) == old(self).entries@
                &&& final(self).entries@.last().0@ == plugin.spec_name()
                &&& final(self).entries@.last().1 == plugin
            },
    {
        let name = String::from_str(plugin.name());
        match self.find_index(name.as_str()) {
            Some(i) => {
                proof {
                    assert(self.names()[i as int] == name@);
                }
                Err(RegistryError::PluginAlreadyRegistered(name))
            },
            None => {
                let ghost old_names = self.names();
                self.entries.push((name, plugin));
                proof {
                    assert(self.entries@.subrange(0, old(self).entries@.len() as int) =~= old(self).entries@);
                    assert forall|i: int, j: int|
                        0 <= i < j < self.names().len() implies self.names()[i]
                        != self.names()[j] by {
                        if j < old_names.len() {
                            assert(self.names()[i] == old_names[i]);
                            assert(self.names()[j] == old_names[j]);
                        } else {
                            assert(self.names()[j] == plugin.spec_name());
                            assert(self.names()[i] == old_names[i]);
                            assert(old_names.contains(old_names[i]));
                        }
                    }
                }
                Ok(())
            },
        }
    }

    /// Removes the plugin registered under `name`; fails when it is absent.
    /// The disabled set is left as it is.
    pub fn unregister(&mut self, name: &str) -> (r: Result<(), RegistryError>)
        requires
            old(self).wf(),
        ensures
            final(self).wf(),
            final(self).disabled@ == old(self).disabled@,
            old(self).spec_contains(name@) ==> {
                &&& r is Ok
                &&& exists|i: int|
                    0 <= i < old(self).entries@.len() && #[trigger] old(self).entries@[i].0@
                        == name@ && final(self).entries@ == old(self).entries@.remove(i)
            },
            !old(self).spec_contains(name@) ==> {
                &&& final(self).entries@ == old(self).entries@
                &&& r matches Err(RegistryError::PluginNotFound(n)) && n@ == name@
            },
    {
        match self.find_index(name) {
            Some(i) => {
                let ghost old_names = self.names();
                proof {
                    assert(old_names.contains(old_names[i as int]));
                }
                self.entries.remove(i);
                proof {
                    assert(old(self).entries@[i as int].0@ == name@);
                    assert(self.entries@ == old(self).entries@.remove(i as int));
                    assert forall|p: int, q: int|
                        0 <= p < q < self.names().len() implies self.names()[p]
                        != self.names()[q] by {
                        let p0: int = if p < i { p } else { p + 1 };
                        let q0: int = if q < i { q } else { q + 1 };
                        assert(self.names()[p] == old_names[p0]);
                        assert(self.names()[q] == old_names[q0]);
                    }
                }
                Ok(())
            },
            None => Err(RegistryError::PluginNotFound(String::from_str(name))),
        }
    }

    /// A shared handle to the plugin registered under `name`; fails when it
    /// is absent.
    pub fn get(&self, name: &str) -> (r: Result<Arc<P>, RegistryError>)
        ensures
            self.spec_contains(name@) ==> (r matches Ok(p) && exists|i: int|
                0 <= i < self.entries@.len() && #[trigger] self.entries@[i].0@ == name@ && p
                    == self.entries@[i].1),
            !self.spec_contains(name@) ==> (r matches Err(RegistryError::PluginNotFound(n))
                && n@ == name@),
    {
        match self.find_index(name) {
            Some(i) => {
                proof {
                    assert(self.names()[i as int] == name@);
                }
                Ok(arc_clone(&self.entries[i].1))
            },
            None => Err(RegistryError::PluginNotFound(String::from_str(name))),
        }
    }

    /// All registered plugin names, in registration order.
    pub fn list_plugins(&self) -> (r: Result<Vec<String>, RegistryError>)
        ensures
            r matches Ok(v) && v@.len() == self.names().len() && forall|i: int|
                0 <= i < v@.len() ==> #[trigger] v@[i]@ == self.names()[i],
    {
        let n: usize = self.entries.len();
        let mut out: Vec<String> = Vec::new();
        let mut i: usize = 0;
        while i < n
            invariant
                n == self.entries@.len(),
                i <= n,
                out@.len() == i,
                forall|j: int| 0 <= j < i ==> #[trigger] out@[j]@ == self.names()[j],
            decreases n - i,
        {
            out.push(self.entries[i].0.clone());
            i = i + 1;
        }
        Ok(out)
    }

    /// The number of registered plugins.
    pub fn count(&self) -> (c: usize)
        ensures
            c == self.entries@.len(),
    {
        self.entries.len()
    }

    /// Whether a plugin is registered under `name`.
    pub fn contains(&self, name: &str) -> (b: bool)
        ensures
            b == self.spec_contains(name@),
    {
        match self.find_index(name) {
            Some(i) => {
                proof {
                    assert(self.names()[i as int] == name@);
                }
                true
            },
            None => false,
        }
    }

    /// The index of `name` in the disabled set, if present.
    fn find_disabled(&self, name: &str) -> (r: Option<usize>)
        ensures
            match r {
                Some(i) => i < self.disabled@.len() && self.disabled@[i as int]@ == name@,
                None => !self.spec_disabled(name@),
            },
    {
        let n: usize = self.disabled.len();
        let mut i: usize = 0;
        while i < n
            invariant
                n == self.disabled@.len(),
                i <= n,
                forall|j: int| 0 <= j < i ==> self.disabled@[j]@ != name@,
            decreases n - i,
        {
            if crate::text::str_eq(self.disabled[i].as_str(), name) {
                return Some(i);
            }
            i = i + 1;
        }
        proof {
            assert(forall|j: int|
                0 <= j < self.disabled_names().len() ==> self.disabled_names()[j] != name@);
        }
        None
    }

    /// Marks a registered plugin as disabled; it stays registered. Fails
    /// when the name is not registered; disabling twice changes nothing.
    pub fn disable_plugin(&mut self, name: &str) -> (r: Result<(), RegistryError>)
        requires
            old(self).wf(),
        ensures
            final(self).wf(),
            final(self).entries@ == old(self).entries@,
            !old(self).spec_contains(name@) ==> {
                &&& final(self).disabled@ == old(self).disabled@
                &&& r matches Err(RegistryError::PluginNotFound(n)) && n@ == name@
            },
            old(self).spec_contains(name@) ==> r is Ok && final(self).spec_disabled(name@),
            old(self).spec_contains(name@) && old(self).spec_disabled(name@) ==> final(self).disabled@ == old(self).disabled@,
            old(self).spec_contains(name@) && !old(self).spec_disabled(name@) ==> {
                &&& final(self).disabled@.len() == old(self).disabled@.len() + 1
                &&& final(self).disabled@.subrange(0, old(self).disabled@.len() as int) == old(self).disabled@
                &&& final(self).disabled@.last()@ == name@
            },
    {
        if !self.contains(name) {
            return Err(RegistryError::PluginNotFound(String::from_str(name)));
        }
        match self.find_disabled(name) {
            Some(i) => {
                proof {
                    assert(self.disabled_names()[i as int] == name@);
                }
                Ok(())
            },
            None => {
                self.disabled.push(String::from_str(name));
                proof {
                    assert(self.disabled@.subrange(0, old(self).disabled@.len() as int) =~= old(self).disabled@);
                    assert(self.disabled_names()[old(self).disabled@.len() as int] == name@);
                }
                Ok(())
            },
        }
    }

    /// Removes `name` from the disabled set. Idempotent and never failing:
    /// an unknown or already enabled name simply ends up absent.
    pub fn enable_plugin(&mut self, name: &str) -> (r: Result<(), RegistryError>)
        requires
            old(self).wf(),
        ensures
            final(self).wf(),
            final(self).entries@ == old(self).entries@,
            r is Ok,
            final(self).disabled_names() == names_without(old(self).disabled_names(), name@),
            !final(self).spec_disabled(name@),
    {
        let n: usize = self.disabled.len();
        let mut kept: Vec<String> = Vec::new();
        let mut i: usize = 0;
        while i < n
            invariant
                n == old(self).disabled@.len(),
                self.entries@ == old(self).entries@,
                self.disabled@ == old(self).disabled@,
                i <= n,
                Seq::new(kept@.len(), |j: int| kept@[j]@) == names_without(
                    old(self).disabled_names().take(i as int),
                    name@,
                ),
            decreases n - i,
        {
            let keep = !crate::text::str_eq(self.disabled[i].as_str(), name);
            proof {
                let prefix = old(self).disabled_names().take(i + 1);
                assert(prefix.drop_last() =~= old(self).disabled_names().take(i as int));
                assert(prefix.last() == old(self).disabled_names()[i as int]);
            }
            if keep {
                kept.push(self.disabled[i].clone());
                proof {
                    assert(Seq::new(kept@.len(), |j: int| kept@[j]@) =~= names_without(
                        old(self).disabled_names().take(i + 1),
                        name@,
                    ));
                }
            } else {
                proof {
                    assert(Seq::new(kept@.len(), |j: int| kept@[j]@) =~= names_without(
                        old(self).disabled_names().take(i + 1),
                        name@,
                    ));
                }
            }
            i = i + 1;
        }
        self.disabled = kept;
        proof {
            assert(self.names() =~= old(self).names());
            assert(old(self).disabled_names().take(n as int) =~= old(self).disabled_names());
            assert(self.disabled_names() =~= Seq::new(
                self.disabled@.len(),
                |j: int| self.disabled@[j]@,
            ));
            lemma_names_without_absent(old(self).disabled_names(), name@);
        }
        Ok(())
    }

    /// Whether `name` is currently disabled.
    pub fn is_disabled(&self, name: &str) -> (b: bool)
        ensures
            b == self.spec_disabled(name@),
    {
        match self.find_disabled(name) {
            Some(i) => {
                proof {
                    assert(self.disabled_names()[i as int] == name@);
                }
                true
            },
            None => false,
        }
    }

    /// The registered names that are not disabled, in registration order.
    pub fn list_enabled_plugins(&self) -> (r: Result<Vec<String>, RegistryError>)
        ensures
            r matches Ok(v) && Seq::new(v@.len(), |j: int| v@[j]@) == names_enabled(
                self.names(),
                self.disabled_names(),
            ),
    {
        let n: usize = self.entries.len();
        let mut out: Vec<String> = Vec::new();
        let mut i: usize = 0;
        while i < n
            invariant
                n == self.entries@.len(),
                i <= n,
                Seq::new(out@.len(), |j: int| out@[j]@) == names_enabled(
                    self.names().take(i as int),
                    self.disabled_names(),
                ),
            decreases n - i,
        {
            let keep = !self.is_disabled(self.entries[i].0.as_str());
            proof {
                let prefix = self.names().take(i + 1);
                assert(prefix.drop_last() =~= self.names().take(i as int));
                assert(prefix.last() == self.names()[i as int]);
            }
            if keep {
                out.push(self.entries[i].0.clone());
                proof {
                    assert(Seq::new(out@.len(), |j: int| out@[j]@) =~= names_enabled(
                        self.names().take(i + 1),
                        self.disabled_names(),
                    ));
                }
            } else {
                proof {
                    assert(Seq::new(out@.len(), |j: int| out@[j]@) =~= names_enabled(
                        self.names().take(i + 1),
                        self.disabled_names(),
                    ));
                }
            }
            i = i + 1;
        }
        proof {
            assert(self.names().take(n as int) =~= self.names());
        }
        Ok(out)
    }

    /// Checks that the plugin registered under `name` meets the required
    /// minimum version under the compatibility rule.
    pub fn verify_version(&self, name: &str, required_version: &PluginVersion) -> (r: Result<
        (),
        RegistryError,
    >)
        requires
            self.wf(),
        ensures
            !self.spec_contains(name@) ==> (r matches Err(RegistryError::PluginNotFound(n))
                && n@ == name@),
            self.spec_contains(name@) ==> exists|i: int|
                {
                    &&& 0 <= i < self.entries@.len()
                    &&& #[trigger] self.entries@[i].0@ == name@
                    &&& if version_compatible(
                        self.entries@[i].1.spec_version(),
                        *required_version,
                    ) {
                        r is Ok
                    } else {
                        r matches Err(RegistryError::IncompatibleVersion { plugin: p, required: q })
                            && p@ == name@ && q@ == spec_version_chars(*required_version)
                    }
                },
    {
        match self.find_index(name) {
            Some(i) => {
                proof {
                    assert(self.names()[i as int] == name@);
                }
                let compatible = self.entries[i].1.version().is_compatible_with(required_version);
                if compatible {
                    Ok(())
                } else {
                    Err(
                        RegistryError::IncompatibleVersion {
                            plugin: String::from_str(name),
                            required: required_version.version_string(),
                        },
                    )
                }
            },
            None => Err(RegistryError::PluginNotFound(String::from_str(name))),
        }
    }
}

impl<P: Plugin> Default for PluginRegistry<P> {
    /// An empty registry.
    fn default() -> (r: Self)
        ensures
            r.wf(),
            r.entries@.len() == 0,
            r.disabled@.len() == 0,
    {
        Self::new()
    }
}

} // verus!
