use vstd::prelude::*;

verus! {

/// The pairs of an entry list as character sequences, in order.
pub open spec fn pairs_view(s: Seq<(String, String)>) -> Seq<(Seq<char>, Seq<char>)> {
    s.map_values(|p: (String, String)| (p.0@, p.1@))
}

/// The map that an ordered entry list denotes: later entries override earlier
/// ones for the same key.
pub open spec fn map_of(s: Seq<(Seq<char>, Seq<char>)>) -> Map<Seq<char>, Seq<char>>
    decreases s.len(),
{
    if s.len() == 0 {
        Map::empty()
    } else {
        map_of(s.drop_last()).insert(s.last().0, s.last().1)
    }
}

pub broadcast proof fn lemma_map_of_contains(s: Seq<(Seq<char>, Seq<char>)>, k: Seq<char>)
    ensures
        #[trigger] map_of(s).contains_key(k) <==> exists|i: int| 0 <= i < s.len() && s[i].0 == k,
    decreases s.len(),
{
    if s.len() > 0 {
        lemma_map_of_contains(s.drop_last(), k);
        if map_of(s).contains_key(k) {
            if s.last().0 != k {
                let i = choose|i: int| 0 <= i < s.drop_last().len() && s.drop_last()[i].0 == k;
                assert(s[i].0 == k);
            }
        }
        if exists|i: int| 0 <= i < s.len() && s[i].0 == k {
            let i = choose|i: int| 0 <= i < s.len() && s[i].0 == k;
            if i < s.len() - 1 {
                assert(s.drop_last()[i].0 == k);
            }
        }
    }
}

/// An ordered map from variable names to values.
///
/// Entries keep their first-insertion order; inserting an existing key
/// replaces its value in place. The view is the denoted [`Map`], and
/// [`EnvMap::entries_view`] exposes the order for callers that walk the map.
#[derive(Debug)]
pub struct EnvMap {
    pub entries: Vec<(String, String)>,
}

impl View for EnvMap {
    type V = Map<Seq<char>, Seq<char>>;

    open spec fn view(&self) -> Map<Seq<char>, Seq<char>> {
        map_of(pairs_view(self.entries@))
    }
}

impl EnvMap {
    /// The entries in order, as character sequences.
    pub open spec fn entries_view(&self) -> Seq<(Seq<char>, Seq<char>)> {
        pairs_view(self.entries@)
    }

    /// No two entries share a key.
    pub open spec fn wf(&self) -> bool {
        forall|i: int, j: int|
            0 <= i < j < self.entries_view().len() ==> self.entries_view()[i].0
                != self.entries_view()[j].0
    }

    pub fn new() -> (r: EnvMap)
        ensures
            r@ == Map::<Seq<char>, Seq<char>>::empty(),
            r.entries_view() == Seq::<(Seq<char>, Seq<char>)>::empty(),
            r.wf(),
    {
        let r = EnvMap { entries: Vec::new() };
        proof {
            assert(r.entries_view() =~= Seq::<(Seq<char>, Seq<char>)>::empty());
        }
        r
    }

    /// Number of entries.
    pub fn len(&self) -> (n: usize)
        ensures
            n == self.entries_view().len(),
    {
        self.entries.len()
    }

    pub fn is_empty(&self) -> (r: bool)
        ensures
            r == (self.entries_view().len() == 0),
    {
        self.entries.len() == 0
    }

    /// The entry at `i`, for walking the map in order.
    pub fn entry_at(&self, i: usize) -> (r: (String, String))
        requires
            i < self.entries_view().len(),
        ensures
            (r.0@, r.1@) == self.entries_view()[i as int],
    {
        let p = &self.entries[i];
        (p.0.clone(), p.1.clone())
    }

    /// The position of `key` among the entries, if present.
    fn position_of(&self, key: &str) -> (r: Option<usize>)
        ensures
            match r {
                Some(i) => i < self.entries_view().len() && self.entries_view()[i as int].0
                    == key@,
                None => forall|i: int|
                    0 <= i < self.entries_view().len() ==> self.entries_view()[i].0 != key@,
            },
    {
        let mut i: usize = 0;
        while i < self.entries.len()
            invariant
                i <= self.entries_view().len(),
                forall|j: int| 0 <= j < i ==> self.entries_view()[j].0 != key@,
            decreases self.entries_view().len() - i,
        {
            if crate::strkit::str_eq(self.entries[i].0.as_str(), key) {
                return Some(i);
            }
            i = i + 1;
        }
        None
    }

    /// Whether `key` is present.
    pub fn contains(&self, key: &str) -> (r: bool)
        ensures
            r == self@.contains_key(key@),
    {
        proof {
            lemma_map_of_contains(self.entries_view(), key@);
        }
        match self.position_of(key) {
            Some(_) => true,
            None => false,
        }
    }

    /// The value bound to `key`, if any.
    pub fn get(&self, key: &str) -> (r: Option<&String>)
        requires
            self.wf(),
        ensures
            match r {
                Some(v) => self@.contains_key(key@) && v@ == self@[key@],
                None => !self@.contains_key(key@),
            },
    {
        proof {
            lemma_map_of_contains(self.entries_view(), key@);
        }
        match self.position_of(key) {
            Some(i) => {
                proof {
                    lemma_lookup(self.entries_view(), i as int);
                }
                Some(&self.entries[i].1)
            },
            None => None,
        }
    }

    /// Bind `key` to `value`, replacing any existing binding.
    pub fn insert(&mut self, key: String, value: String)
        requires
            old(self).wf(),
        ensures
            final(self).wf(),
            final(self)@ == old(self)@.insert(key@, value@),
            final(self)@.contains_key(key@),
            old(self)@.contains_key(key@) ==> final(self).entries_view() == old(
                self,
            ).entries_view().update(
                choose|i: int|
                    0 <= i < old(self).entries_view().len() && old(self).entries_view()[i].0
                        == key@,
                (key@, value@),
            ),
            !old(self)@.contains_key(key@) ==> final(self).entries_view() == old(
                self,
            ).entries_view().push((key@, value@)),
    {
        proof {
            lemma_map_of_contains(self.entries_view(), key@);
        }
        match self.position_of(&key) {
            Some(i) => {
                proof {
                    let es = self.entries_view();
                    let k = choose|j: int| 0 <= j < es.len() && es[j].0 == key@;
                    let ii = i as int;
                    assert(!(k < ii) && !(ii < k));
                }
                self.entries.set(i, (key, value));
                proof {
                    assert(self.entries_view() =~= old(self).entries_view().update(
                        i as int,
                        (key@, value@),
                    ));
                    lemma_map_update(old(self).entries_view(), i as int, value@);
                }
            },
            None => {
                self.entries.push((key, value));
                proof {
                    assert(self.entries_view() =~= old(self).entries_view().push(
                        (key@, value@),
                    ));
                    assert(self.entries_view().drop_last() =~= old(self).entries_view());
                }
            },
        }
    }

    /// Bind every entry of `other`, in its order, over this map.
    pub fn extend_from(&mut self, other: &EnvMap)
        requires
            old(self).wf(),
        ensures
            final(self).wf(),
            final(self)@ == old(self)@.union_prefer_right(other@),
    {
        let mut i: usize = 0;
        proof {
            assert(self@ =~= old(self)@.union_prefer_right(map_of(
                other.entries_view().take(0),
            )));
        }
        while i < self.other_len(other)
            invariant
                self.wf(),
                i <= other.entries_view().len(),
                self@ == old(self)@.union_prefer_right(map_of(other.entries_view().take(i as int))),
            decreases other.entries_view().len() - i,
        {
            let (k, v) = other.entry_at(i);
            self.insert(k, v);
            i = i + 1;
            proof {
                assert(other.entries_view().take(i as int).drop_last() =~= other.entries_view().take(
                    i - 1,
                ));
                assert(self@ =~= old(self)@.union_prefer_right(map_of(
                    other.entries_view().take(i as int),
                )));
            }
        }
        proof {
            assert(other.entries_view().take(other.entries_view().len() as int)
                =~= other.entries_view());
        }
    }

    /// Helper for loop bounds over another map.
    fn other_len(&self, other: &EnvMap) -> (n: usize)
        ensures
            n == other.entries_view().len(),
    {
        other.entries.len()
    }

    /// A copy of this map.
    pub fn duplicate(&self) -> (r: EnvMap)
        ensures
            r@ == self@,
            r.entries_view() == self.entries_view(),
            r.wf() == self.wf(),
    {
        let mut out: Vec<(String, String)> = Vec::new();
        let mut i: usize = 0;
        while i < self.entries.len()
            invariant
                i <= self.entries@.len(),
                out@.len() == i,
                pairs_view(out@) == pairs_view(self.entries@).take(i as int),
            decreases self.entries@.len() - i,
        {
            let c0 = self.entries[i].0.clone();
            let c1 = self.entries[i].1.clone();
            let ghost gpair = (c0@, c1@);
            proof {
                assert(c0 == self.entries@[i as int].0);
                assert(gpair == pairs_view(self.entries@)[i as int]);
            }
            out.push((c0, c1));
            i = i + 1;
            proof {
                assert(pairs_view(out@)[i - 1] == gpair);
                assert(pairs_view(out@) =~= pairs_view(self.entries@).take(i as int));
            }
        }
        proof {
            assert(pairs_view(self.entries@).take(self.entries@.len() as int) =~= pairs_view(
                self.entries@,
            ));
        }
        let r = EnvMap { entries: out };
        proof {
            assert(r.entries_view() == self.entries_view());
            assert(r.wf() == self.wf());
        }
        r
    }
}

/// With no duplicate keys, the map value at an entry's key is that entry's value.
proof fn lemma_lookup(s: Seq<(Seq<char>, Seq<char>)>, i: int)
    requires
        0 <= i < s.len(),
        forall|a: int, b: int| 0 <= a < b < s.len() ==> s[a].0 != s[b].0,
    ensures
        map_of(s).contains_key(s[i].0),
        map_of(s)[s[i].0] == s[i].1,
    decreases s.len(),
{
    broadcast use lemma_map_of_contains;

    if i < s.len() - 1 {
        lemma_lookup(s.drop_last(), i);
        assert(s.last().0 != s[i].0);
    }
}

/// Updating the entry that holds a key matches inserting over the map.
proof fn lemma_map_update(s: Seq<(Seq<char>, Seq<char>)>, i: int, v: Seq<char>)
    requires
        0 <= i < s.len(),
        forall|a: int, b: int| 0 <= a < b < s.len() ==> s[a].0 != s[b].0,
    ensures
        map_of(s.update(i, (s[i].0, v))) == map_of(s).insert(s[i].0, v),
    decreases s.len(),
{
    let t = s.update(i, (s[i].0, v));
    if i == s.len() - 1 {
        assert(t.drop_last() =~= s.drop_last());
        assert(map_of(t) =~= map_of(s).insert(s[i].0, v));
    } else {
        lemma_map_update(s.drop_last(), i, v);
        assert(t.drop_last() =~= s.drop_last().update(i, (s[i].0, v)));
        assert(t.last() == s.last());
        assert(s.last().0 != s[i].0);
        assert(map_of(t) =~= map_of(s).insert(s[i].0, v));
    }
}

/// The pairs of a file list as sequences, in order.
pub open spec fn file_pairs_view(s: Seq<(String, Vec<u8>)>) -> Seq<(Seq<char>, Seq<u8>)> {
    s.map_values(|p: (String, Vec<u8>)| (p.0@, p.1@))
}

/// The map a file list denotes: later entries override earlier ones.
pub open spec fn file_map_of(s: Seq<(Seq<char>, Seq<u8>)>) -> Map<Seq<char>, Seq<u8>>
    decreases s.len(),
{
    if s.len() == 0 {
        Map::empty()
    } else {
        file_map_of(s.drop_last()).insert(s.last().0, s.last().1)
    }
}

pub broadcast proof fn lemma_file_map_of_contains(s: Seq<(Seq<char>, Seq<u8>)>, k: Seq<char>)
    ensures
        #[trigger] file_map_of(s).contains_key(k) <==> exists|i: int|
            0 <= i < s.len() && s[i].0 == k,
    decreases s.len(),
{
    if s.len() > 0 {
        lemma_file_map_of_contains(s.drop_last(), k);
        if file_map_of(s).contains_key(k) {
            if s.last().0 != k {
                let i = choose|i: int| 0 <= i < s.drop_last().len() && s.drop_last()[i].0 == k;
                assert(s[i].0 == k);
            }
        }
        if exists|i: int| 0 <= i < s.len() && s[i].0 == k {
            let i = choose|i: int| 0 <= i < s.len() && s[i].0 == k;
            if i < s.len() - 1 {
                assert(s.drop_last()[i].0 == k);
            }
        }
    }
}

proof fn lemma_file_lookup(s: Seq<(Seq<char>, Seq<u8>)>, i: int)
    requires
        0 <= i < s.len(),
        forall|a: int, b: int| 0 <= a < b < s.len() ==> s[a].0 != s[b].0,
    ensures
        file_map_of(s).contains_key(s[i].0),
        file_map_of(s)[s[i].0] == s[i].1,
    decreases s.len(),
{
    broadcast use lemma_file_map_of_contains;

    if i < s.len() - 1 {
        lemma_file_lookup(s.drop_last(), i);
        assert(s.last().0 != s[i].0);
    }
}

/// A set of named files handed to the library, path to raw bytes.
///
/// The library never reads the filesystem; a caller reads whatever files a
/// parse turns out to need and hands them over here.
#[derive(Debug)]
pub struct FileStore {
    pub entries: Vec<(String, Vec<u8>)>,
}

impl View for FileStore {
    type V = Map<Seq<char>, Seq<u8>>;

    open spec fn view(&self) -> Map<Seq<char>, Seq<u8>> {
        file_map_of(file_pairs_view(self.entries@))
    }
}

impl FileStore {
    /// No two entries share a path.
    pub open spec fn wf(&self) -> bool {
        forall|i: int, j: int|
            0 <= i < j < self.entries@.len() ==> self.entries@[i].0@ != self.entries@[j].0@
    }

    pub fn new() -> (r: FileStore)
        ensures
            r@ == Map::<Seq<char>, Seq<u8>>::empty(),
            r.wf(),
    {
        let r = FileStore { entries: Vec::new() };
        proof {
            assert(file_pairs_view(r.entries@) =~= Seq::<(Seq<char>, Seq<u8>)>::empty());
        }
        r
    }

    fn position_of(&self, path: &str) -> (r: Option<usize>)
        ensures
            match r {
                Some(i) => i < self.entries@.len() && self.entries@[i as int].0@ == path@,
                None => forall|i: int|
                    0 <= i < self.entries@.len() ==> self.entries@[i].0@ != path@,
            },
    {
        let mut i: usize = 0;
        while i < self.entries.len()
            invariant
                i <= self.entries@.len(),
                forall|j: int| 0 <= j < i ==> self.entries@[j].0@ != path@,
            decreases self.entries@.len() - i,
        {
            if crate::strkit::str_eq(self.entries[i].0.as_str(), path) {
                return Some(i);
            }
            i = i + 1;
        }
        None
    }

    /// The bytes stored under `path`, if any.
    pub fn get(&self, path: &str) -> (r: Option<&Vec<u8>>)
        requires
            self.wf(),
        ensures
            match r {
                Some(v) => self@.contains_key(path@) && v@ == self@[path@],
                None => !self@.contains_key(path@),
            },
    {
        proof {
            lemma_file_map_of_contains(file_pairs_view(self.entries@), path@);
        }
        match self.position_of(path) {
            Some(i) => {
                proof {
                    lemma_file_lookup(file_pairs_view(self.entries@), i as int);
                }
                Some(&self.entries[i].1)
            },
            None => None,
        }
    }

    /// Store `bytes` under `path`. Storing a path twice keeps its first bytes.
    pub fn add(&mut self, path: String, bytes: Vec<u8>)
        requires
            old(self).wf(),
        ensures
            final(self).wf(),
            final(self)@ == if old(self)@.contains_key(path@) {
                old(self)@
            } else {
                old(self)@.insert(path@, bytes@)
            },
    {
        proof {
            lemma_file_map_of_contains(file_pairs_view(self.entries@), path@);
        }
        let ghost gp = path@;
        let ghost gb = bytes@;
        match self.position_of(&path) {
            Some(found) => {
                proof {
                    let fv = file_pairs_view(self.entries@);
                    assert(fv[found as int].0 == gp);
                    assert(old(self)@.contains_key(gp));
                }
            },
            None => {
                proof {
                    let fv = file_pairs_view(self.entries@);
                    if old(self)@.contains_key(gp) {
                        let w = choose|i: int| 0 <= i < fv.len() && fv[i].0 == gp;
                        assert(self.entries@[w].0@ == gp);
                        assert(false);
                    }
                }
                self.entries.push((path, bytes));
                proof {
                    assert(file_pairs_view(self.entries@).drop_last() =~= file_pairs_view(
                        old(self).entries@,
                    ));
                    assert(file_pairs_view(self.entries@).last() == (gp, gb));
                    assert(self@ == file_map_of(
                        file_pairs_view(self.entries@).drop_last(),
                    ).insert(gp, gb));
                }
            },
        }
    }
}

} // verus!
