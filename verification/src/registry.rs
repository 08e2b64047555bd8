//! The dynamic trait registry: each concrete implementation of a
//! polymorphic capability is registered once, at initialization, as a
//! tuple of stable type identifier, vtable identifier, memory layout and
//! byte-validation entry point. The registry is immutable afterwards and
//! is read during validation and value recovery.
//!
//! A byte-validation entry point is data, not code: the record descriptor
//! the payload must satisfy, or the explicit absence of one.

use vstd::prelude::*;
use crate::context::Layout;
use crate::desc::FieldDesc;

verus! {

/// A byte-validation entry point: the payload's record descriptor, or
/// nothing, for implementations that registered without one (checking
/// such a payload always fails).
#[derive(Clone, Debug)]
pub enum CheckBytesDyn {
    /// No byte-checking logic was registered.
    Unimplemented,
    /// The payload must check as a record with these fields.
    Checkable(Vec<FieldDesc>),
}

/// The model of an entry point: absent, or the descriptor's fields.
pub enum CheckBytesDynModel {
    /// No byte-checking logic.
    Unimplemented,
    /// The payload's field descriptors.
    Checkable(Seq<FieldDesc>),
}

impl View for CheckBytesDyn {
    type V = CheckBytesDynModel;

    open spec fn view(&self) -> CheckBytesDynModel {
        match self {
            CheckBytesDyn::Unimplemented => CheckBytesDynModel::Unimplemented,
            CheckBytesDyn::Checkable(fs) => CheckBytesDynModel::Checkable(fs@),
        }
    }
}

/// What validation needs to know about a registered implementation: its
/// payload's layout and its byte-validation entry point.
#[derive(Clone, Debug)]
pub struct ImplValidation {
    /// Size and alignment of the archived payload.
    pub layout: Layout,
    /// The payload's byte-validation entry point.
    pub check_bytes_dyn: CheckBytesDyn,
}

impl View for ImplValidation {
    type V = (Layout, CheckBytesDynModel);

    open spec fn view(&self) -> (Layout, CheckBytesDynModel) {
        (self.layout, self.check_bytes_dyn@)
    }
}

/// A payload description that carries a checkable record descriptor; its
/// entry point checks the payload against those fields.
pub struct IsCheckBytesDyn {
    /// The payload's field descriptors.
    pub desc: Vec<FieldDesc>,
}

impl IsCheckBytesDyn {
    /// The entry point for a checkable payload.
    pub fn check_bytes_dyn(&self) -> (r: CheckBytesDyn)
        ensures
            r@ == CheckBytesDynModel::Checkable(self.desc@),
    {
        CheckBytesDyn::Checkable(self.desc.clone())
    }
}

/// Implemented by payload descriptions that carry no byte-checking logic:
/// their entry point is the fallback that rejects every payload.
pub trait NotCheckBytesDyn {
    /// The fallback entry point.
    fn check_bytes_dyn(&self) -> (r: CheckBytesDyn)
        ensures
            r is Unimplemented,
    ;
}

/// A payload description of which only the layout is known.
pub struct OpaquePayload {
    /// Size and alignment of the archived payload.
    pub layout: Layout,
}

impl NotCheckBytesDyn for OpaquePayload {
    fn check_bytes_dyn(&self) -> (r: CheckBytesDyn) {
        CheckBytesDyn::Unimplemented
    }
}

/// One registration: a vtable identifier bound to its validation data.
pub struct CheckBytesEntry {
    /// The vtable identifier the capability dispatches through.
    pub vtable: u64,
    /// The validation data for payloads of this implementation.
    pub validation: ImplValidation,
}

impl CheckBytesEntry {
    /// Binds a vtable identifier to its payload layout and entry point.
    pub fn new(vtable: u64, layout: Layout, check_bytes_dyn: CheckBytesDyn) -> (r:
        CheckBytesEntry)
        ensures
            r.vtable == vtable,
            r.validation.layout == layout,
            r.validation.check_bytes_dyn@ == check_bytes_dyn@,
    {
        CheckBytesEntry { vtable, validation: ImplValidation { layout, check_bytes_dyn } }
    }
}

/// True when some entry records `key`.
pub open spec fn reg_has(s: Seq<(u64, ImplValidation)>, key: u64) -> bool {
    exists|j: int| 0 <= j < s.len() && s[j].0 == key
}

/// The validation model recorded for `key`.
pub open spec fn reg_at(s: Seq<(u64, ImplValidation)>, key: u64) -> (Layout, CheckBytesDynModel) {
    let j = choose|j: int| 0 <= j < s.len() && s[j].0 == key;
    s[j].1@
}

/// True when no key is recorded twice.
pub open spec fn reg_unique(s: Seq<(u64, ImplValidation)>) -> bool {
    forall|i: int, j: int| 0 <= i < j < s.len() ==> s[i].0 != s[j].0
}

/// The entry holding `key` is the one `reg_at` speaks of.
pub proof fn lemma_reg_at(s: Seq<(u64, ImplValidation)>, key: u64, i: int)
    requires
        reg_unique(s),
        0 <= i < s.len(),
        s[i].0 == key,
    ensures
        reg_has(s, key),
        reg_at(s, key) == s[i].1@,
{
    assert(reg_has(s, key));
    let w = choose|j: int| 0 <= j < s.len() && s[j].0 == key;
    if w < i {
        assert(s[w].0 != s[i].0);
    } else if w > i {
        assert(s[i].0 != s[w].0);
    }
    assert(w == i);
}

/// The registry mapping vtable identifiers to validation data. Built once
/// from all registrations, read-only afterwards.
pub struct CheckBytesRegistry {
    /// The registered bindings, one per vtable identifier.
    pub vtable_to_check_bytes: Vec<(u64, ImplValidation)>,
}

impl CheckBytesRegistry {
    /// The registry's invariant: one entry per vtable identifier.
    pub open spec fn wf(self) -> bool {
        reg_unique(self.vtable_to_check_bytes@)
    }

    /// An empty registry.
    pub fn new() -> (r: CheckBytesRegistry)
        ensures
            r.wf(),
            r.vtable_to_check_bytes@ =~= Seq::<(u64, ImplValidation)>::empty(),
    {
        CheckBytesRegistry { vtable_to_check_bytes: Vec::new() }
    }

    /// Adds one registration. Returns `true` when the vtable identifier
    /// was new; a repeated identifier leaves the registry unchanged and
    /// returns `false`, so the first registration wins.
    pub fn add_entry(&mut self, entry: CheckBytesEntry) -> (fresh: bool)
        requires
            old(self).wf(),
        ensures
            final(self).wf(),
            fresh == !reg_has(old(self).vtable_to_check_bytes@, entry.vtable),
            fresh ==> final(self).vtable_to_check_bytes@ == old(
                self,
            ).vtable_to_check_bytes@.push((entry.vtable, entry.validation)),
            !fresh ==> final(self).vtable_to_check_bytes@ == old(self).vtable_to_check_bytes@,
            reg_has(final(self).vtable_to_check_bytes@, entry.vtable),
    {
        let n = self.vtable_to_check_bytes.len();
        let mut i: usize = 0;
        while i < n
            invariant
                0 <= i <= n,
                n == self.vtable_to_check_bytes@.len(),
                forall|j: int| 0 <= j < i ==> self.vtable_to_check_bytes@[j].0 != entry.vtable,
                self.vtable_to_check_bytes@ == old(self).vtable_to_check_bytes@,
                self.wf(),
            decreases n - i,
        {
            if self.vtable_to_check_bytes[i].0 == entry.vtable {
                return false;
            }
            i = i + 1;
        }
        let ghost before = self.vtable_to_check_bytes@;
        let v = entry.vtable;
        self.vtable_to_check_bytes.push((entry.vtable, entry.validation));
        proof {
            let s = self.vtable_to_check_bytes@;
            assert forall|a: int, b: int| 0 <= a < b < s.len() implies s[a].0 != s[b].0 by {
                if b < s.len() - 1 {
                    assert(before[a].0 != before[b].0);
                }
            }
            assert(s[s.len() - 1].0 == v);
            assert(reg_has(s, v));
        }
        true
    }

    /// Looks up the validation data registered for a vtable identifier.
    pub fn get(&self, vtable: u64) -> (r: Option<&ImplValidation>)
        requires
            self.wf(),
        ensures
            match r {
                Some(v) => reg_has(self.vtable_to_check_bytes@, vtable) && v@ == reg_at(
                    self.vtable_to_check_bytes@,
                    vtable,
                ),
                None => !reg_has(self.vtable_to_check_bytes@, vtable),
            },
    {
        let n = self.vtable_to_check_bytes.len();
        let mut i: usize = 0;
        while i < n
            invariant
                0 <= i <= n,
                n == self.vtable_to_check_bytes@.len(),
                forall|j: int| 0 <= j < i ==> self.vtable_to_check_bytes@[j].0 != vtable,
                self.wf(),
            decreases n - i,
        {
            if self.vtable_to_check_bytes[i].0 == vtable {
                proof {
                    lemma_reg_at(self.vtable_to_check_bytes@, vtable, i as int);
                }
                return Some(&self.vtable_to_check_bytes[i].1);
            }
            i = i + 1;
        }
        None
    }
}

/// True when some entry records the type identifier.
pub open spec fn impls_has(s: Seq<(u64, u64)>, type_id: u64) -> bool {
    exists|j: int| 0 <= j < s.len() && s[j].0 == type_id
}

/// The vtable identifier recorded for the type identifier.
pub open spec fn impls_at(s: Seq<(u64, u64)>, type_id: u64) -> u64 {
    let j = choose|j: int| 0 <= j < s.len() && s[j].0 == type_id;
    s[j].1
}

/// The registry mapping stable type identifiers to vtable identifiers:
/// how an archived polymorphic value's identity is resolved back to its
/// concrete implementation.
pub struct ImplRegistry {
    /// The registered bindings, one per type identifier.
    pub entries: Vec<(u64, u64)>,
}

impl ImplRegistry {
    /// The registry's invariant: one entry per type identifier.
    pub open spec fn wf(self) -> bool {
        forall|i: int, j: int|
            0 <= i < j < self.entries@.len() ==> self.entries@[i].0 != self.entries@[j].0
    }

    /// An empty registry.
    pub fn new() -> (r: ImplRegistry)
        ensures
            r.wf(),
            r.entries@ =~= Seq::<(u64, u64)>::empty(),
    {
        ImplRegistry { entries: Vec::new() }
    }

    /// Registers one implementation. The first registration of a type
    /// identifier wins; a repeated one returns `false` and changes
    /// nothing.
    pub fn register_impl(&mut self, type_id: u64, vtable: u64) -> (fresh: bool)
        requires
            old(self).wf(),
        ensures
            final(self).wf(),
            fresh == !impls_has(old(self).entries@, type_id),
            fresh ==> final(self).entries@ == old(self).entries@.push((type_id, vtable)),
            !fresh ==> final(self).entries@ == old(self).entries@,
    {
        let n = self.entries.len();
        let mut i: usize = 0;
        while i < n
            invariant
                0 <= i <= n,
                n == self.entries@.len(),
                forall|j: int| 0 <= j < i ==> self.entries@[j].0 != type_id,
                self.entries@ == old(self).entries@,
                self.wf(),
            decreases n - i,
        {
            if self.entries[i].0 == type_id {
                return false;
            }
            i = i + 1;
        }
        let ghost before = self.entries@;
        self.entries.push((type_id, vtable));
        proof {
            let s = self.entries@;
            assert forall|a: int, b: int| 0 <= a < b < s.len() implies s[a].0 != s[b].0 by {
                if b < s.len() - 1 {
                    assert(before[a].0 != before[b].0);
                }
            }
        }
        true
    }

    /// Looks up the vtable identifier registered for a type identifier.
    pub fn get(&self, type_id: u64) -> (r: Option<u64>)
        requires
            self.wf(),
        ensures
            match r {
                Some(vt) => impls_has(self.entries@, type_id) && vt == impls_at(
                    self.entries@,
                    type_id,
                ),
                None => !impls_has(self.entries@, type_id),
            },
    {
        let n = self.entries.len();
        let mut i: usize = 0;
        while i < n
            invariant
                0 <= i <= n,
                n == self.entries@.len(),
                forall|j: int| 0 <= j < i ==> self.entries@[j].0 != type_id,
                self.wf(),
            decreases n - i,
        {
            let e: (u64, u64) = self.entries[i];
            if e.0 == type_id {
                proof {
                    let s = self.entries@;
                    assert(s[i as int].0 == type_id);
                    assert(impls_has(s, type_id));
                    let w = choose|j: int| 0 <= j < s.len() && s[j].0 == type_id;
                    if w < i as int {
                        assert(s[w].0 != s[i as int].0);
                    } else if w > i as int {
                        assert(s[i as int].0 != s[w].0);
                    }
                    assert(w == i as int);
                }
                return Some(e.1);
            }
            i = i + 1;
        }
        None
    }
}

} // verus!
