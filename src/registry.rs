use vstd::prelude::*;
use crate::value::{Prim, TypeKey, KeyModel};

verus! {

/// Which types the cloner may copy, which of those hold entity references
/// that must be carried over, and which may be skipped.
pub struct RollbackRegistry {
    registered: Vec<TypeKey>,
    mappable: Vec<TypeKey>,
    unregisterable: Vec<TypeKey>,
}

/// A registry as a mathematical value.
pub struct RegistryModel {
    pub registered: Set<KeyModel>,
    pub mappable: Set<KeyModel>,
    pub opaque: Set<KeyModel>,
}

pub open spec fn keys_of(v: Seq<TypeKey>) -> Set<KeyModel> {
    Set::new(|k: KeyModel| exists|i: int| 0 <= i < v.len() && v[i]@ == k)
}

/// The registry of the primitive scalar and text types.
pub open spec fn primitive_registry() -> RegistryModel {
    RegistryModel {
        registered: Set::new(|k: KeyModel| k is Prim),
        mappable: Set::empty(),
        opaque: Set::empty(),
    }
}

fn contains_key(v: &Vec<TypeKey>, k: &TypeKey) -> (r: bool)
    ensures
        r == keys_of(v@).contains(k@),
{
    let mut i: usize = 0;
    while i < v.len()
        invariant
            i <= v@.len(),
            forall|j: int| 0 <= j < i ==> v@[j]@ != k@,
        decreases v@.len() - i,
    {
        if v[i].same(k) {
            return true;
        }
        i = i + 1;
    }
    false
}

proof fn lemma_keys_push(v: Seq<TypeKey>, k: TypeKey)
    ensures
        keys_of(v.push(k)) == keys_of(v).insert(k@),
{
    let a = keys_of(v.push(k));
    let b = keys_of(v).insert(k@);
    assert forall|x: KeyModel| a.contains(x) implies b.contains(x) by {
        let i = choose|i: int| 0 <= i < v.len() + 1 && v.push(k)[i]@ == x;
        if i < v.len() {
            assert(v[i]@ == x);
        }
    }
    assert forall|x: KeyModel| b.contains(x) implies a.contains(x) by {
        if x == k@ {
            assert(v.push(k)[v.len() as int]@ == x);
        } else {
            let i = choose|i: int| 0 <= i < v.len() && v[i]@ == x;
            assert(v.push(k)[i]@ == x);
        }
    }
    assert(a =~= b);
}

impl View for RollbackRegistry {
    type V = RegistryModel;

    closed spec fn view(&self) -> RegistryModel {
        RegistryModel {
            registered: keys_of(self.registered@),
            mappable: keys_of(self.mappable@),
            opaque: keys_of(self.unregisterable@),
        }
    }
}

/// A type that holds entity references is also copied.
pub open spec fn registry_wf(r: RegistryModel) -> bool {
    r.mappable.subset_of(r.registered)
}

fn push_key(v: &mut Vec<TypeKey>, k: TypeKey)
    ensures
        keys_of(final(v)@) == keys_of(old(v)@).insert(k@),
{
    proof {
        lemma_keys_push(old(v)@, k);
    }
    v.push(k);
}

impl RollbackRegistry {
    pub open spec fn wf(&self) -> bool {
        registry_wf(self@)
    }

    /// A registry that knows no type.
    pub fn empty() -> (r: RollbackRegistry)
        ensures
            r.wf(),
            r@.registered == Set::<KeyModel>::empty(),
            r@.mappable == Set::<KeyModel>::empty(),
            r@.opaque == Set::<KeyModel>::empty(),
    {
        let r = RollbackRegistry { registered: Vec::new(), mappable: Vec::new(), unregisterable: Vec::new() };
        assert(r@.registered =~= Set::<KeyModel>::empty());
        assert(r@.mappable =~= Set::<KeyModel>::empty());
        assert(r@.opaque =~= Set::<KeyModel>::empty());
        r
    }

    /// Lets the cloner copy values of type `k`.
    pub fn register(&mut self, k: TypeKey)
        requires
            old(self).wf(),
        ensures
            final(self).wf(),
            final(self)@ == (RegistryModel { registered: old(self)@.registered.insert(k@), ..old(self)@ }),
    {
        if !contains_key(&self.registered, &k) {
            push_key(&mut self.registered, k);
        } else {
            assert(old(self)@.registered.insert(k@) =~= old(self)@.registered);
        }
    }

    /// Lets the cloner copy values of type `k`, carrying the entity
    /// references they hold over to the destination's identities.
    pub fn register_entity_mappable(&mut self, k: TypeKey)
        requires
            old(self).wf(),
        ensures
            final(self).wf(),
            final(self)@ == (RegistryModel {
                registered: old(self)@.registered.insert(k@),
                mappable: old(self)@.mappable.insert(k@),
                ..old(self)@
            }),
    {
        let k2 = k.duplicate();
        self.register(k);
        if !contains_key(&self.mappable, &k2) {
            push_key(&mut self.mappable, k2);
        } else {
            assert(old(self)@.mappable.insert(k2@) =~= old(self)@.mappable);
        }
    }

    /// Lets the cloner skip values of type `k` without copying them.
    pub fn register_unreflectable(&mut self, k: TypeKey)
        requires
            old(self).wf(),
        ensures
            final(self).wf(),
            final(self)@ == (RegistryModel { opaque: old(self)@.opaque.insert(k@), ..old(self)@ }),
    {
        if !contains_key(&self.unregisterable, &k) {
            push_key(&mut self.unregisterable, k);
        } else {
            assert(old(self)@.opaque.insert(k@) =~= old(self)@.opaque);
        }
    }

    /// Whether values of type `k` can be copied.
    pub fn is_registered(&self, k: &TypeKey) -> (r: bool)
        ensures
            r == self@.registered.contains(k@),
    {
        contains_key(&self.registered, k)
    }

    /// Whether values of type `k` have their entity references carried over.
    pub fn is_entity_mappable(&self, k: &TypeKey) -> (r: bool)
        ensures
            r == self@.mappable.contains(k@),
    {
        contains_key(&self.mappable, k)
    }

    /// Whether values of type `k` are skipped without error.
    pub fn is_unreflectable(&self, k: &TypeKey) -> (r: bool)
        ensures
            r == self@.opaque.contains(k@),
    {
        contains_key(&self.unregisterable, k)
    }
}

impl Default for RollbackRegistry {
    /// The registry of the primitive scalar and text types.
    fn default() -> (r: RollbackRegistry)
        ensures
            r.wf(),
            r@ == primitive_registry(),
    {
        let mut r = RollbackRegistry::empty();
        r.register(TypeKey::Prim(Prim::U8));
        r.register(TypeKey::Prim(Prim::Bool));
        r.register(TypeKey::Prim(Prim::U16));
        r.register(TypeKey::Prim(Prim::U32));
        r.register(TypeKey::Prim(Prim::U64));
        r.register(TypeKey::Prim(Prim::U128));
        r.register(TypeKey::Prim(Prim::Usize));
        r.register(TypeKey::Prim(Prim::I8));
        r.register(TypeKey::Prim(Prim::I16));
        r.register(TypeKey::Prim(Prim::I32));
        r.register(TypeKey::Prim(Prim::I64));
        r.register(TypeKey::Prim(Prim::I128));
        r.register(TypeKey::Prim(Prim::Isize));
        r.register(TypeKey::Prim(Prim::Text));
        assert(r@.registered =~= primitive_registry().registered) by {
            assert forall|k: KeyModel| primitive_registry().registered.contains(k) implies r@.registered.contains(k) by {
                if let KeyModel::Prim(p) = k {
                    match p {
                        Prim::Bool => {},
                        Prim::U8 => {},
                        Prim::U16 => {},
                        Prim::U32 => {},
                        Prim::U64 => {},
                        Prim::U128 => {},
                        Prim::Usize => {},
                        Prim::I8 => {},
                        Prim::I16 => {},
                        Prim::I32 => {},
                        Prim::I64 => {},
                        Prim::I128 => {},
                        Prim::Isize => {},
                        Prim::Text => {},
                    }
                }
            }
        }
        r
    }
}

} // verus!
