//! Maps and sets keyed by module specifiers, which keep the order in which
//! their keys first came.
use vstd::prelude::*;
use vstd::hash_map::StringHashMap;
use crate::specifier::{ModuleSpecifier, SpecifierView};

verus! {

/// The table that holds the keys which are (or are not) npm references.
spec fn table_for(
    npm: bool,
    urls: Map<Seq<char>, usize>,
    packages: Map<Seq<char>, usize>,
) -> Map<Seq<char>, usize> {
    if npm {
        packages
    } else {
        urls
    }
}

/// The tables say where each of `keys` stands, and hold nothing else.
spec fn tables_match(
    keys: Seq<ModuleSpecifier>,
    urls: Map<Seq<char>, usize>,
    packages: Map<Seq<char>, usize>,
) -> bool {
    &&& forall|i: int|
        #![trigger keys[i]]
        0 <= i < keys.len() ==> {
            let table = table_for(keys[i]@.npm, urls, packages);
            &&& table.contains_key(keys[i]@.text)
            &&& table[keys[i]@.text] == i
        }
    &&& forall|npm: bool, text: Seq<char>|
        #![trigger table_for(npm, urls, packages).contains_key(text)]
        table_for(npm, urls, packages).contains_key(text) ==> {
            let i = table_for(npm, urls, packages)[text];
            &&& i < keys.len()
            &&& keys[i as int]@ == (SpecifierView { text, npm })
        }
}

/// Putting a new key last keeps the tables in step.
proof fn lemma_tables_match_push(
    keys: Seq<ModuleSpecifier>,
    urls: Map<Seq<char>, usize>,
    packages: Map<Seq<char>, usize>,
    key: ModuleSpecifier,
    i: usize,
)
    requires
        tables_match(keys, urls, packages),
        !table_for(key@.npm, urls, packages).contains_key(key@.text),
        i == keys.len(),
    ensures
        key@.npm ==> tables_match(keys.push(key), urls, packages.insert(key@.text, i)),
        !key@.npm ==> tables_match(keys.push(key), urls.insert(key@.text, i), packages),
{
    let (new_urls, new_packages) = if key@.npm {
        (urls, packages.insert(key@.text, i))
    } else {
        (urls.insert(key@.text, i), packages)
    };
    let new_keys = keys.push(key);
    assert forall|j: int| #![trigger new_keys[j]] 0 <= j < new_keys.len() implies {
        let table = table_for(new_keys[j]@.npm, new_urls, new_packages);
        &&& table.contains_key(new_keys[j]@.text)
        &&& table[new_keys[j]@.text] == j
    } by {
        if j < keys.len() {
            assert(new_keys[j] == keys[j]);
            assert(keys[j]@ != key@);
        }
    }
    assert forall|npm: bool, text: Seq<char>|
        #![trigger table_for(npm, new_urls, new_packages).contains_key(text)]
        table_for(npm, new_urls, new_packages).contains_key(text) implies {
        let k = table_for(npm, new_urls, new_packages)[text];
        &&& k < new_keys.len()
        &&& new_keys[k as int]@ == (SpecifierView { text, npm })
    } by {
        if npm != key@.npm || text != key@.text {
            assert(table_for(npm, urls, packages).contains_key(text));
        }
    }
}

/// A map from module specifiers, walked in the order in which the keys came.
pub struct SpecifierMap<V> {
    keys: Vec<ModuleSpecifier>,
    values: Vec<V>,
    urls: StringHashMap<usize>,
    packages: StringHashMap<usize>,
}

impl<V> View for SpecifierMap<V> {
    type V = Map<SpecifierView, V>;

    closed spec fn view(&self) -> Map<SpecifierView, V> {
        Map::new(
            |k: SpecifierView| self.table(k.npm).contains_key(k.text),
            |k: SpecifierView| self.values@[self.table(k.npm)[k.text] as int],
        )
    }
}

impl<V> SpecifierMap<V> {
    /// Where the keys stand that are (or are not) npm references, by text.
    spec fn table(&self, npm: bool) -> Map<Seq<char>, usize> {
        table_for(npm, self.urls@, self.packages@)
    }

    /// The keys, in the order in which they came.
    pub closed spec fn order(&self) -> Seq<SpecifierView> {
        self.keys@.map_values(|k: ModuleSpecifier| k@)
    }

    /// Keys and values stand side by side, and the tables say where.
    #[verifier::type_invariant]
    spec fn consistent(&self) -> bool {
        &&& self.keys@.len() == self.values@.len()
        &&& tables_match(self.keys@, self.urls@, self.packages@)
    }

    /// The empty map.
    pub fn new() -> (result: Self)
        ensures
            result@ == Map::<SpecifierView, V>::empty(),
            result.order() == Seq::<SpecifierView>::empty(),
    {
        let result = SpecifierMap {
            keys: Vec::new(),
            values: Vec::new(),
            urls: StringHashMap::new(),
            packages: StringHashMap::new(),
        };
        assert(result@ =~= Map::<SpecifierView, V>::empty());
        assert(result.order() =~= Seq::<SpecifierView>::empty());
        result
    }

    /// How many keys there are. Each key of the map stands in its order once.
    pub fn len(&self) -> (result: usize)
        ensures
            result == self.order().len(),
            self.order().no_duplicates(),
            forall|k: SpecifierView| self.order().contains(k) <==> #[trigger] self@.contains_key(k),
    {
        proof {
            use_type_invariant(self);
            let order = self.order();
            assert forall|i: int, j: int|
                0 <= i < order.len() && 0 <= j < order.len() && i != j implies order[i]
                != order[j] by {
                assert(order[i] == self.keys@[i]@);
                assert(order[j] == self.keys@[j]@);
            }
            assert forall|k: SpecifierView|
                order.contains(k) <==> #[trigger] self@.contains_key(k) by {
                if order.contains(k) {
                    let i = choose|i: int| 0 <= i < order.len() && order[i] == k;
                    assert(order[i] == self.keys@[i]@);
                }
                if self@.contains_key(k) {
                    assert(self.table(k.npm).contains_key(k.text));
                    let i = self.table(k.npm)[k.text] as int;
                    assert(order[i] == self.keys@[i]@);
                    assert(order[i] == k);
                }
            }
        }
        self.keys.len()
    }

    /// Where the tables say that `key` stands.
    fn position(&self, key: &ModuleSpecifier) -> (result: Option<usize>)
        ensures
            match result {
                Some(i) => {
                    &&& self.table(key@.npm).contains_key(key@.text)
                    &&& self.table(key@.npm)[key@.text] == i
                },
                None => !self.table(key@.npm).contains_key(key@.text),
            },
    {
        let found = if key.npm {
            self.packages.get(key.text.as_str())
        } else {
            self.urls.get(key.text.as_str())
        };
        match found {
            Some(i) => Some(*i),
            None => None,
        }
    }

    /// Where `key` stands in the order of the keys.
    pub fn index_of(&self, key: &ModuleSpecifier) -> (result: Option<usize>)
        ensures
            match result {
                Some(i) => i < self.order().len() && self.order()[i as int] == key@,
                None => !self@.contains_key(key@),
            },
    {
        proof {
            use_type_invariant(self);
        }
        self.position(key)
    }

    /// The value of `key`.
    pub fn get(&self, key: &ModuleSpecifier) -> (result: Option<&V>)
        ensures
            match result {
                Some(v) => self@.contains_key(key@) && self@[key@] == *v,
                None => !self@.contains_key(key@),
            },
    {
        proof {
            use_type_invariant(self);
        }
        match self.position(key) {
            Some(i) => Some(&self.values[i]),
            None => None,
        }
    }

    /// Whether `key` has a value.
    pub fn contains_key(&self, key: &ModuleSpecifier) -> (result: bool)
        ensures
            result == self@.contains_key(key@),
    {
        self.position(key).is_some()
    }

    /// The key at position `i`.
    pub fn key_at(&self, i: usize) -> (result: &ModuleSpecifier)
        requires
            i < self.order().len(),
        ensures
            result@ == self.order()[i as int],
            self@.contains_key(result@),
    {
        proof {
            use_type_invariant(self);
        }
        &self.keys[i]
    }

    /// The value at position `i`.
    pub fn value_at(&self, i: usize) -> (result: &V)
        requires
            i < self.order().len(),
        ensures
            *result == self@[self.order()[i as int]],
    {
        proof {
            use_type_invariant(self);
            let k = self.keys@[i as int];
            assert(self.order()[i as int] == k@);
        }
        &self.values[i]
    }

    /// Gives `key` the value `value`, in place of the value it had if it had one.
    pub fn insert(&mut self, key: ModuleSpecifier, value: V)
        ensures
            final(self)@ == old(self)@.insert(key@, value),
            final(self).order() == if old(self)@.contains_key(key@) {
                old(self).order()
            } else {
                old(self).order().push(key@)
            },
    {
        proof {
            use_type_invariant(&*self);
        }
        let found = self.position(&key);
        let mut taken: SpecifierMap<V> = SpecifierMap::new();
        std::mem::swap(self, &mut taken);
        let SpecifierMap { keys, values, urls, packages } = taken;
        let mut keys = keys;
        let mut values = values;
        let mut urls = urls;
        let mut packages = packages;
        match found {
            Some(i) => {
                values.set(i, value);
            },
            None => {
                let i: usize = keys.len();
                proof {
                    lemma_tables_match_push(keys@, urls@, packages@, key, i);
                }
                if key.npm {
                    packages.insert(key.text.clone(), i);
                } else {
                    urls.insert(key.text.clone(), i);
                }
                keys.push(key);
                values.push(value);
            },
        }
        *self = SpecifierMap { keys, values, urls, packages };
    }

    /// Puts `value` at position `i` and hands out the value that stood there.
    pub fn replace(&mut self, i: usize, value: V) -> (result: V)
        requires
            i < old(self).order().len(),
        ensures
            result == old(self)@[old(self).order()[i as int]],
            final(self)@ == old(self)@.insert(old(self).order()[i as int], value),
            final(self).order() == old(self).order(),
    {
        proof {
            use_type_invariant(&*self);
        }
        let ghost before = *self;
        let mut taken: SpecifierMap<V> = SpecifierMap::new();
        std::mem::swap(self, &mut taken);
        let SpecifierMap { keys, values, urls, packages } = taken;
        let mut values = values;
        values.push(value);
        let result = values.swap_remove(i);
        assert(values@ =~= before.values@.update(i as int, value));
        *self = SpecifierMap { keys, values, urls, packages };
        proof {
            let k = before.keys@[i as int];
            assert(before.order()[i as int] == k@);
            assert(self@ =~= before@.insert(k@, value));
        }
        result
    }
}

/// A set of module specifiers.
pub struct SpecifierSet {
    members: SpecifierMap<()>,
}

impl View for SpecifierSet {
    type V = Set<SpecifierView>;

    closed spec fn view(&self) -> Set<SpecifierView> {
        self.members@.dom()
    }
}

impl SpecifierSet {
    /// The empty set.
    pub fn new() -> (result: Self)
        ensures
            result@ == Set::<SpecifierView>::empty(),
    {
        SpecifierSet { members: SpecifierMap::new() }
    }

    /// Whether `specifier` is in the set.
    pub fn contains(&self, specifier: &ModuleSpecifier) -> (result: bool)
        ensures
            result == self@.contains(specifier@),
    {
        self.members.contains_key(specifier)
    }

    /// Adds `specifier`.
    pub fn insert(&mut self, specifier: ModuleSpecifier)
        ensures
            final(self)@ == old(self)@.insert(specifier@),
    {
        self.members.insert(specifier, ());
    }
}

} // verus!
