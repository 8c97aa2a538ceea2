use vstd::prelude::*;

verus! {

/// The character sequences of a sequence of strings.
pub open spec fn strs(v: Seq<String>) -> Seq<Seq<char>> {
    v.map_values(|s: String| s@)
}

/// The map given by a list of keys and a parallel list of values, a later
/// pair overriding an earlier one with the same key.
pub open spec fn pairs_map<V>(keys: Seq<Seq<char>>, vals: Seq<V>) -> Map<Seq<char>, V>
    decreases keys.len(),
{
    if keys.len() == 0 || vals.len() == 0 {
        Map::empty()
    } else {
        pairs_map(keys.drop_last(), vals.drop_last()).insert(keys.last(), vals.last())
    }
}

/// Dropping the last element keeps a sequence free of duplicates.
pub(crate) proof fn lemma_no_duplicates_drop_last<A>(s: Seq<A>)
    requires
        s.no_duplicates(),
        s.len() > 0,
    ensures
        s.drop_last().no_duplicates(),
{
    let d = s.drop_last();
    assert forall|a: int, b: int| 0 <= a < d.len() && 0 <= b < d.len() && a != b implies d[a]
        != d[b] by {
        assert(d[a] == s[a] && d[b] == s[b]);
    }
}

/// Appending an element not yet present keeps a sequence free of duplicates.
pub(crate) proof fn lemma_no_duplicates_push<A>(s: Seq<A>, x: A)
    requires
        s.no_duplicates(),
        !s.contains(x),
    ensures
        s.push(x).no_duplicates(),
{
    let t = s.push(x);
    assert forall|a: int, b: int| 0 <= a < t.len() && 0 <= b < t.len() && a != b implies t[a]
        != t[b] by {
        if a < s.len() && b < s.len() {
            assert(t[a] == s[a] && t[b] == s[b]);
        } else if a < s.len() {
            assert(t[a] == s[a]);
            assert(s.contains(s[a]));
        } else {
            assert(t[b] == s[b]);
            assert(s.contains(s[b]));
        }
    }
}

proof fn lemma_pairs_map_absent<V>(keys: Seq<Seq<char>>, vals: Seq<V>, k: Seq<char>)
    requires
        keys.len() == vals.len(),
        !keys.contains(k),
    ensures
        !pairs_map(keys, vals).contains_key(k),
    decreases keys.len(),
{
    if keys.len() > 0 {
        assert(!keys.drop_last().contains(k)) by {
            if keys.drop_last().contains(k) {
                let j = choose|j: int| 0 <= j < keys.drop_last().len() && keys.drop_last()[j] == k;
                assert(keys[j] == k);
            }
        }
        lemma_pairs_map_absent(keys.drop_last(), vals.drop_last(), k);
        assert(keys[keys.len() - 1] != k);
    }
}

proof fn lemma_pairs_map_at<V>(keys: Seq<Seq<char>>, vals: Seq<V>, i: int)
    requires
        keys.len() == vals.len(),
        keys.no_duplicates(),
        0 <= i < keys.len(),
    ensures
        pairs_map(keys, vals).contains_key(keys[i]),
        pairs_map(keys, vals)[keys[i]] == vals[i],
    decreases keys.len(),
{
    if i < keys.len() - 1 {
        let kd = keys.drop_last();
        lemma_no_duplicates_drop_last(keys);
        lemma_pairs_map_at(kd, vals.drop_last(), i);
        assert(keys[i] != keys[keys.len() - 1]);
    }
}

proof fn lemma_pairs_map_update<V>(keys: Seq<Seq<char>>, vals: Seq<V>, i: int, v: V)
    requires
        keys.len() == vals.len(),
        keys.no_duplicates(),
        0 <= i < keys.len(),
    ensures
        pairs_map(keys, vals.update(i, v)) == pairs_map(keys, vals).insert(keys[i], v),
    decreases keys.len(),
{
    let n = keys.len() - 1;
    if i == n {
        assert(vals.update(i, v).drop_last() =~= vals.drop_last());
        assert(pairs_map(keys, vals.update(i, v)) =~= pairs_map(keys, vals).insert(keys[i], v));
    } else {
        let kd = keys.drop_last();
        lemma_no_duplicates_drop_last(keys);
        assert(vals.update(i, v).drop_last() =~= vals.drop_last().update(i, v));
        lemma_pairs_map_update(kd, vals.drop_last(), i, v);
        assert(keys[i] != keys[n]);
        assert(pairs_map(keys, vals.update(i, v)) =~= pairs_map(keys, vals).insert(keys[i], v));
    }
}

proof fn lemma_pairs_map_push<V>(keys: Seq<Seq<char>>, vals: Seq<V>, k: Seq<char>, v: V)
    requires
        keys.len() == vals.len(),
    ensures
        pairs_map(keys.push(k), vals.push(v)) == pairs_map(keys, vals).insert(k, v),
{
    assert(keys.push(k).drop_last() =~= keys);
    assert(vals.push(v).drop_last() =~= vals);
}

/// First position of `key` in `keys`, if it is there.
pub(crate) fn position_of(keys: &Vec<String>, key: &String) -> (r: Option<usize>)
    ensures
        match r {
            Some(i) => i < keys.len() && keys@[i as int]@ == key@ && forall|j: int|
                0 <= j < i ==> keys@[j]@ != key@,
            None => !strs(keys@).contains(key@),
        },
{
    let mut i: usize = 0;
    while i < keys.len()
        invariant
            i <= keys.len(),
            forall|j: int| 0 <= j < i ==> keys@[j]@ != key@,
        decreases keys.len() - i,
    {
        if keys[i] == *key {
            return Some(i);
        }
        i += 1;
    }
    proof {
        if strs(keys@).contains(key@) {
            let j = choose|j: int| 0 <= j < strs(keys@).len() && strs(keys@)[j] == key@;
            assert(keys@[j]@ == key@);
        }
    }
    None
}


/// Canonical player names, each with the aliases declared for it, kept in
/// the order in which the names were first inserted.
pub struct AliasMap {
    names: Vec<String>,
    lists: Vec<Vec<String>>,
}

impl View for AliasMap {
    type V = Map<Seq<char>, Seq<Seq<char>>>;

    /// Each canonical name with its aliases.
    closed spec fn view(&self) -> Map<Seq<char>, Seq<Seq<char>>> {
        pairs_map(strs(self.names@), self.lists@.map_values(|l: Vec<String>| strs(l@)))
    }
}

impl AliasMap {
    /// The canonical names in insertion order.
    pub closed spec fn name_seq(&self) -> Seq<Seq<char>> {
        strs(self.names@)
    }

    /// The alias lists, parallel to [`AliasMap::name_seq`].
    pub closed spec fn list_seq(&self) -> Seq<Seq<Seq<char>>> {
        self.lists@.map_values(|l: Vec<String>| strs(l@))
    }

    /// Names and lists are parallel and no name occurs twice.
    pub closed spec fn wf(&self) -> bool {
        &&& self.names.len() == self.lists.len()
        &&& self.name_seq().no_duplicates()
    }

    pub fn new() -> (r: AliasMap)
        ensures
            r.wf(),
            r@ == Map::<Seq<char>, Seq<Seq<char>>>::empty(),
            r.name_seq().len() == 0,
    {
        AliasMap { names: Vec::new(), lists: Vec::new() }
    }

    /// Sets the aliases of `name`, replacing any earlier list of that name.
    pub fn insert(&mut self, name: String, aliases: Vec<String>)
        requires
            old(self).wf(),
        ensures
            final(self).wf(),
            final(self)@ == old(self)@.insert(name@, strs(aliases@)),
            old(self)@.contains_key(name@) ==> final(self).name_seq() == old(self).name_seq(),
            !old(self)@.contains_key(name@) ==> final(self).name_seq() == old(
                self,
            ).name_seq().push(name@),
    {
        let ghost old_names = self.name_seq();
        let ghost old_lists = self.list_seq();
        let ghost l = strs(aliases@);
        match position_of(&self.names, &name) {
            Some(i) => {
                proof {
                    lemma_pairs_map_at(old_names, old_lists, i as int);
                }
                self.lists.set(i, aliases);
                proof {
                    assert(self.list_seq() =~= old_lists.update(i as int, l));
                    lemma_pairs_map_update(old_names, old_lists, i as int, l);
                }
            },
            None => {
                proof {
                    lemma_pairs_map_absent(old_names, old_lists, name@);
                }
                self.names.push(name);
                self.lists.push(aliases);
                proof {
                    assert(self.name_seq() =~= old_names.push(name@));
                    assert(self.list_seq() =~= old_lists.push(l));
                    lemma_pairs_map_push(old_names, old_lists, name@, l);
                    lemma_no_duplicates_push(old_names, name@);
                    assert(self.name_seq() =~= old_names.push(name@));
                }
            },
        }
    }

    /// The aliases of `name`.
    pub fn get(&self, name: &str) -> (r: Option<&Vec<String>>)
        requires
            self.wf(),
        ensures
            match r {
                Some(l) => self@.contains_key(name@) && strs(l@) == self@[name@],
                None => !self@.contains_key(name@),
            },
    {
        let key = name.to_string();
        match position_of(&self.names, &key) {
            Some(i) => {
                proof {
                    lemma_pairs_map_at(self.name_seq(), self.list_seq(), i as int);
                }
                Some(&self.lists[i])
            },
            None => {
                proof {
                    lemma_pairs_map_absent(self.name_seq(), self.list_seq(), name@);
                }
                None
            },
        }
    }

    pub fn contains_key(&self, name: &str) -> (r: bool)
        requires
            self.wf(),
        ensures
            r == self@.contains_key(name@),
    {
        self.get(name).is_some()
    }

    /// The entries in insertion order, each a name and its aliases.
    pub fn entries(&self) -> (r: Vec<(&String, &Vec<String>)>)
        requires
            self.wf(),
        ensures
            r.len() == self.name_seq().len(),
            r.len() == self.list_seq().len(),
            forall|k: int|
                0 <= k < r.len() ==> (#[trigger] r@[k]).0@ == self.name_seq()[k] && strs(r@[k].1@)
                    == self.list_seq()[k],
    {
        let mut r: Vec<(&String, &Vec<String>)> = Vec::new();
        let mut i: usize = 0;
        while i < self.names.len()
            invariant
                self.wf(),
                i <= self.names.len(),
                r.len() == i,
                forall|k: int|
                    0 <= k < i ==> (#[trigger] r@[k]).0@ == self.name_seq()[k] && strs(r@[k].1@)
                        == self.list_seq()[k],
            decreases self.names.len() - i,
        {
            r.push((&self.names[i], &self.lists[i]));
            i += 1;
        }
        r
    }

    /// The names of the view are exactly the entries' names, each with its list.
    pub proof fn lemma_view(&self)
        requires
            self.wf(),
        ensures
            forall|n: Seq<char>| #[trigger]
                self@.contains_key(n) <==> self.name_seq().contains(n),
            forall|i: int|
                0 <= i < self.name_seq().len() ==> self@[#[trigger] self.name_seq()[i]]
                    == self.list_seq()[i],
            self.name_seq().len() == self.list_seq().len(),
    {
        assert forall|n: Seq<char>| #[trigger]
            self@.contains_key(n) <==> self.name_seq().contains(n) by {
            if self.name_seq().contains(n) {
                let i = choose|i: int| 0 <= i < self.name_seq().len() && self.name_seq()[i] == n;
                lemma_pairs_map_at(self.name_seq(), self.list_seq(), i);
            } else {
                lemma_pairs_map_absent(self.name_seq(), self.list_seq(), n);
            }
        }
        assert forall|i: int| 0 <= i < self.name_seq().len() implies self@[
            #[trigger] self.name_seq()[i]] == self.list_seq()[i] by {
            lemma_pairs_map_at(self.name_seq(), self.list_seq(), i);
        }
    }

    /// Number of canonical names.
    pub fn len(&self) -> (r: usize)
        requires
            self.wf(),
        ensures
            r == self@.dom().len(),
    {
        proof {
            lemma_pairs_map_len(self.name_seq(), self.list_seq());
        }
        self.names.len()
    }

    pub fn is_empty(&self) -> (r: bool)
        requires
            self.wf(),
        ensures
            r == (self@.dom().len() == 0),
    {
        self.len() == 0
    }
}

proof fn lemma_pairs_map_len<V>(keys: Seq<Seq<char>>, vals: Seq<V>)
    requires
        keys.len() == vals.len(),
        keys.no_duplicates(),
    ensures
        pairs_map(keys, vals).dom().finite(),
        pairs_map(keys, vals).dom().len() == keys.len(),
    decreases keys.len(),
{
    if keys.len() > 0 {
        let kd = keys.drop_last();
        lemma_no_duplicates_drop_last(keys);
        lemma_pairs_map_len(kd, vals.drop_last());
        assert(!kd.contains(keys.last())) by {
            if kd.contains(keys.last()) {
                let j = choose|j: int| 0 <= j < kd.len() && kd[j] == keys.last();
                assert(keys[j] == keys[keys.len() - 1]);
            }
        }
        lemma_pairs_map_absent(kd, vals.drop_last(), keys.last());
    }
}

/// Reverse lookup from an alias to the canonical name it stands for.
pub struct AliasIndex {
    aliases: Vec<String>,
    names: Vec<String>,
}

impl View for AliasIndex {
    type V = Map<Seq<char>, Seq<char>>;

    /// Each alias with the canonical name it stands for.
    closed spec fn view(&self) -> Map<Seq<char>, Seq<char>> {
        pairs_map(strs(self.aliases@), strs(self.names@))
    }
}

impl AliasIndex {
    pub closed spec fn wf(&self) -> bool {
        &&& self.aliases.len() == self.names.len()
        &&& strs(self.aliases@).no_duplicates()
    }

    pub fn new() -> (r: AliasIndex)
        ensures
            r.wf(),
            r@ == Map::<Seq<char>, Seq<char>>::empty(),
    {
        AliasIndex { aliases: Vec::new(), names: Vec::new() }
    }

    /// Makes `alias` stand for `name`, replacing what it stood for before.
    pub fn insert(&mut self, alias: String, name: String)
        requires
            old(self).wf(),
        ensures
            final(self).wf(),
            final(self)@ == old(self)@.insert(alias@, name@),
    {
        let ghost ks = strs(self.aliases@);
        let ghost vs = strs(self.names@);
        match position_of(&self.aliases, &alias) {
            Some(i) => {
                self.names.set(i, name);
                proof {
                    assert(strs(self.names@) =~= vs.update(i as int, self.names@[i as int]@));
                    lemma_pairs_map_update(ks, vs, i as int, self.names@[i as int]@);
                }
            },
            None => {
                self.aliases.push(alias);
                self.names.push(name);
                proof {
                    let a = self.aliases@.last()@;
                    let n = self.names@.last()@;
                    assert(strs(self.aliases@) =~= ks.push(a));
                    assert(strs(self.names@) =~= vs.push(n));
                    lemma_pairs_map_push(ks, vs, a, n);
                    let ks2 = strs(self.aliases@);
                    lemma_no_duplicates_push(ks, a);
                    assert(ks2 =~= ks.push(a));
                }
            },
        }
    }

    /// The canonical name that `alias` stands for.
    pub fn get(&self, alias: &String) -> (r: Option<&String>)
        requires
            self.wf(),
        ensures
            match r {
                Some(n) => self@.contains_key(alias@) && n@ == self@[alias@],
                None => !self@.contains_key(alias@),
            },
    {
        match position_of(&self.aliases, alias) {
            Some(i) => {
                proof {
                    lemma_pairs_map_at(strs(self.aliases@), strs(self.names@), i as int);
                }
                Some(&self.names[i])
            },
            None => {
                proof {
                    lemma_pairs_map_absent(strs(self.aliases@), strs(self.names@), alias@);
                }
                None
            },
        }
    }
}

} // verus!
