use vstd::prelude::*;

verus! {

// ---------------------------------------------------------------------------
// Key/value sequences
//
// Row stores and per-column indexes are vectors of key/value pairs.  The
// spec functions here give them their map meaning: `pm_get` / `pm_set` for
// unordered maps with plain keys, `tm_get` / `tm_set` for maps with string
// keys (compared by contents), and `st_set` for the rowid-ordered stores.
// ---------------------------------------------------------------------------

/// The value that a pair sequence associates with `k`: the first match.
pub open spec fn pm_get<K, V>(s: Seq<(K, V)>, k: K) -> Option<V>
    decreases s.len(),
{
    if s.len() == 0 {
        None
    } else if s[0].0 == k {
        Some(s[0].1)
    } else {
        pm_get(s.drop_first(), k)
    }
}

/// The pair sequence after binding `k` to `v`: the first pair with key `k`
/// is replaced, or the pair is appended.
pub open spec fn pm_set<K, V>(s: Seq<(K, V)>, k: K, v: V) -> Seq<(K, V)>
    decreases s.len(),
{
    if s.len() == 0 {
        seq![(k, v)]
    } else if s[0].0 == k {
        seq![(k, v)] + s.drop_first()
    } else {
        seq![s[0]] + pm_set(s.drop_first(), k, v)
    }
}

/// No two pairs share a key.
pub open spec fn pm_unique<K, V>(s: Seq<(K, V)>) -> bool {
    forall|i: int, j: int| 0 <= i < j < s.len() ==> (#[trigger] s[i]).0 != (#[trigger] s[j]).0
}

/// Binding a key then reading gives the bound value back; other keys are
/// untouched.
pub proof fn lemma_pm_get_set<K, V>(s: Seq<(K, V)>, k: K, v: V, q: K)
    ensures
        pm_get(pm_set(s, k, v), q) == if q == k {
            Some(v)
        } else {
            pm_get(s, q)
        },
    decreases s.len(),
{
    let t = pm_set(s, k, v);
    if s.len() == 0 {
        assert(t == seq![(k, v)]);
        assert(t[0] == (k, v));
        assert(t.drop_first() =~= Seq::<(K, V)>::empty());
        assert(pm_get(t.drop_first(), q) == None::<V>);
        if q == k {
            assert(pm_get(t, q) == Some(v));
        } else {
            assert(pm_get(t, q) == None::<V>);
        }
    } else if s[0].0 == k {
        assert(t == seq![(k, v)] + s.drop_first());
        assert(t[0] == (k, v));
        assert(t.len() > 0);
        assert(t.drop_first() =~= s.drop_first());
        if q == k {
            assert(pm_get(t, q) == Some(v));
        } else {
            assert(pm_get(t, q) == pm_get(s.drop_first(), q));
            assert(pm_get(s, q) == pm_get(s.drop_first(), q));
        }
    } else {
        lemma_pm_get_set(s.drop_first(), k, v, q);
        assert(t == seq![s[0]] + pm_set(s.drop_first(), k, v));
        assert(t[0] == s[0]);
        assert(t.len() > 0);
        assert(t.drop_first() =~= pm_set(s.drop_first(), k, v));
        if t[0].0 == q {
            assert(pm_get(t, q) == Some(s[0].1));
            assert(pm_get(s, q) == Some(s[0].1));
        } else {
            assert(pm_get(t, q) == pm_get(pm_set(s.drop_first(), k, v), q));
            assert(pm_get(s, q) == pm_get(s.drop_first(), q));
        }
    }
}

/// Binding a key keeps keys unique and grows the length by one exactly
/// when the key was absent.
pub proof fn lemma_pm_set_unique<K, V>(s: Seq<(K, V)>, k: K, v: V)
    requires
        pm_unique(s),
    ensures
        pm_unique(pm_set(s, k, v)),
        pm_set(s, k, v).len() == if pm_get(s, k) is Some {
            s.len()
        } else {
            s.len() + 1
        },
        forall|i: int| 0 <= i < pm_set(s, k, v).len() ==> ((#[trigger] pm_set(s, k, v)[i]).0 == k
            || pm_get(s, pm_set(s, k, v)[i].0) is Some),
    decreases s.len(),
{
    if s.len() == 0 {
    } else if s[0].0 == k {
        let t = pm_set(s, k, v);
        assert(t.drop_first() =~= s.drop_first());
        assert forall|q: K| pm_get(s, q) is Some implies q == s[0].0 || pm_get(
            s.drop_first(),
            q,
        ) is Some by {}
        assert forall|i: int| 0 <= i < t.len() implies ((#[trigger] t[i]).0 == k || pm_get(
            s,
            t[i].0,
        ) is Some) by {
            if i > 0 {
                lemma_pm_get_present(s.drop_first(), i - 1);
                lemma_pm_get_extend(s, t[i].0);
            }
        }
    } else {
        lemma_pm_set_unique(s.drop_first(), k, v);
        let t = pm_set(s, k, v);
        let u = pm_set(s.drop_first(), k, v);
        assert(t.drop_first() =~= u);
        assert forall|i: int, j: int| 0 <= i < j < t.len() implies (#[trigger] t[i]).0 != (
        #[trigger] t[j]).0 by {
            if i == 0 {
                assert(t[j] == u[j - 1]);
                if u[j - 1].0 != k {
                    assert(pm_get(s.drop_first(), u[j - 1].0) is Some);
                    lemma_pm_get_index(s.drop_first(), u[j - 1].0);
                }
            }
        }
        assert forall|i: int| 0 <= i < t.len() implies ((#[trigger] t[i]).0 == k || pm_get(
            s,
            t[i].0,
        ) is Some) by {
            if i == 0 {
                lemma_pm_get_present(s, 0);
            } else {
                if t[i].0 != k {
                    lemma_pm_get_extend(s, t[i].0);
                }
            }
        }
    }
}

/// A key that sits at some position is found by `pm_get`.
pub proof fn lemma_pm_get_present<K, V>(s: Seq<(K, V)>, i: int)
    requires
        0 <= i < s.len(),
    ensures
        pm_get(s, s[i].0) is Some,
    decreases i,
{
    if i > 0 && s[0].0 != s[i].0 {
        lemma_pm_get_present(s.drop_first(), i - 1);
    }
}

/// A key found in the tail is found in the whole sequence.
pub proof fn lemma_pm_get_extend<K, V>(s: Seq<(K, V)>, q: K)
    requires
        s.len() > 0,
        pm_get(s.drop_first(), q) is Some,
    ensures
        pm_get(s, q) is Some,
{
}

/// A key that `pm_get` finds sits at some position.
pub proof fn lemma_pm_get_index<K, V>(s: Seq<(K, V)>, q: K)
    requires
        pm_get(s, q) is Some,
    ensures
        exists|i: int| 0 <= i < s.len() && (#[trigger] s[i]).0 == q,
    decreases s.len(),
{
    if s.len() > 0 {
        if s[0].0 == q {
            assert(s[0].0 == q);
        } else {
            lemma_pm_get_index(s.drop_first(), q);
            let i = choose|i: int| 0 <= i < s.drop_first().len() && (#[trigger] s.drop_first()[i]).0
                == q;
            assert(s[i + 1].0 == q);
        }
    }
}

/// Under unique keys, the pair at any position is what lookup finds.
pub proof fn lemma_pm_get_unique_at<K, V>(s: Seq<(K, V)>, i: int)
    requires
        pm_unique(s),
        0 <= i < s.len(),
    ensures
        pm_get(s, s[i].0) == Some(s[i].1),
    decreases i,
{
    if i > 0 {
        assert(s[0].0 != s[i].0);
        lemma_pm_get_unique_at(s.drop_first(), i - 1);
    }
}

/// Under unique string keys, the pair at any position is what lookup
/// finds.
pub proof fn lemma_tm_get_unique_at(s: Seq<(String, i64)>, i: int)
    requires
        tm_unique(s),
        0 <= i < s.len(),
    ensures
        tm_get(s, s[i].0@) == Some(s[i].1),
    decreases i,
{
    if i > 0 {
        assert(s[0].0@ != s[i].0@);
        lemma_tm_get_unique_at(s.drop_first(), i - 1);
    }
}

/// A found key names a position holding exactly the looked-up rowid.
pub proof fn lemma_pm_get_entry<K, V>(s: Seq<(K, V)>, q: K)
    requires
        pm_unique(s),
        pm_get(s, q) is Some,
    ensures
        exists|i: int|
            0 <= i < s.len() && (#[trigger] s[i]).0 == q && s[i].1 == pm_get(s, q)->0,
    decreases s.len(),
{
    if s.len() > 0 {
        if s[0].0 == q {
            assert(s[0].0 == q && s[0].1 == pm_get(s, q)->0);
        } else {
            lemma_pm_get_entry(s.drop_first(), q);
            let i = choose|i: int|
                0 <= i < s.drop_first().len() && (#[trigger] s.drop_first()[i]).0 == q
                    && s.drop_first()[i].1 == pm_get(s.drop_first(), q)->0;
            assert(s[i + 1].0 == q && s[i + 1].1 == pm_get(s, q)->0);
        }
    }
}

/// A found string key names a position holding exactly the looked-up
/// rowid.
pub proof fn lemma_tm_get_entry(s: Seq<(String, i64)>, q: Seq<char>)
    requires
        tm_get(s, q) is Some,
    ensures
        exists|i: int|
            0 <= i < s.len() && (#[trigger] s[i]).0@ == q && s[i].1 == tm_get(s, q)->0,
    decreases s.len(),
{
    if s.len() > 0 {
        if s[0].0@ == q {
            assert(s[0].0@ == q && s[0].1 == tm_get(s, q)->0);
        } else {
            lemma_tm_get_entry(s.drop_first(), q);
            let i = choose|i: int|
                0 <= i < s.drop_first().len() && (#[trigger] s.drop_first()[i]).0@ == q
                    && s.drop_first()[i].1 == tm_get(s.drop_first(), q)->0;
            assert(s[i + 1].0@ == q && s[i + 1].1 == tm_get(s, q)->0);
        }
    }
}

/// The value text that a string-valued store binds to rowid `k`.
pub open spec fn sv_get(s: Seq<(i64, String)>, k: i64) -> Option<Seq<char>>
    decreases s.len(),
{
    if s.len() == 0 {
        None
    } else if s[0].0 == k {
        Some(s[0].1@)
    } else {
        sv_get(s.drop_first(), k)
    }
}

/// Text lookup is plain lookup, read through the view.
pub proof fn lemma_sv_from_pm(s: Seq<(i64, String)>, k: i64)
    ensures
        sv_get(s, k) == match pm_get(s, k) {
            Some(v) => Some(v@),
            None => None,
        },
    decreases s.len(),
{
    if s.len() > 0 && s[0].0 != k {
        lemma_sv_from_pm(s.drop_first(), k);
    }
}

// ---------------------------------------------------------------------------
// Rowid-ordered stores
// ---------------------------------------------------------------------------

/// Are the pairs strictly ascending in their rowid key?
pub open spec fn st_sorted<V>(s: Seq<(i64, V)>) -> bool {
    forall|i: int, j: int| 0 <= i < j < s.len() ==> (#[trigger] s[i]).0 < (#[trigger] s[j]).0
}

/// The pair sequence after binding rowid `k` to `v`, keeping the rowid
/// order: an existing binding is replaced in place, a new one is placed
/// before the first larger rowid.
pub open spec fn st_set<V>(s: Seq<(i64, V)>, k: i64, v: V) -> Seq<(i64, V)>
    decreases s.len(),
{
    if s.len() == 0 {
        seq![(k, v)]
    } else if k < s[0].0 {
        seq![(k, v)] + s
    } else if k == s[0].0 {
        seq![(k, v)] + s.drop_first()
    } else {
        seq![s[0]] + st_set(s.drop_first(), k, v)
    }
}

/// Binding a rowid keeps the sequence sorted, reads back as written, and
/// grows the length by one exactly when the rowid was absent.
pub proof fn lemma_st_set<V>(s: Seq<(i64, V)>, k: i64, v: V)
    requires
        st_sorted(s),
    ensures
        st_sorted(st_set(s, k, v)),
        forall|q: i64| pm_get(st_set(s, k, v), q) == if q == k {
            Some(v)
        } else {
            pm_get(s, q)
        },
        st_set(s, k, v).len() == if pm_get(s, k) is Some {
            s.len()
        } else {
            s.len() + 1
        },
        forall|i: int| 0 <= i < st_set(s, k, v).len() ==> ((#[trigger] st_set(s, k, v)[i]).0 == k
            || pm_get(s, st_set(s, k, v)[i].0) is Some),
    decreases s.len(),
{
    let t = st_set(s, k, v);
    if s.len() == 0 {
        assert(t[0] == (k, v));
        assert(t.drop_first() =~= Seq::<(i64, V)>::empty());
    } else if k < s[0].0 {
        assert(t[0] == (k, v));
        assert(t.drop_first() =~= s);
        assert(pm_get(s, k) is None) by {
            if pm_get(s, k) is Some {
                lemma_pm_get_index(s, k);
                let i = choose|i: int| 0 <= i < s.len() && (#[trigger] s[i]).0 == k;
                assert(i == 0 || s[0].0 < s[i].0);
            }
        }
        assert forall|i: int| 0 <= i < t.len() implies ((#[trigger] t[i]).0 == k || pm_get(
            s,
            t[i].0,
        ) is Some) by {
            if i > 0 {
                lemma_pm_get_present(s, i - 1);
            }
        }
    } else if k == s[0].0 {
        assert(t[0] == (k, v));
        assert(t.drop_first() =~= s.drop_first());
        assert forall|i: int| 0 <= i < t.len() implies ((#[trigger] t[i]).0 == k || pm_get(
            s,
            t[i].0,
        ) is Some) by {
            if i > 0 {
                lemma_pm_get_present(s, i);
            }
        }
    } else {
        lemma_st_set(s.drop_first(), k, v);
        let u = st_set(s.drop_first(), k, v);
        assert(t[0] == s[0]);
        assert(t.len() > 0);
        assert(t.drop_first() =~= u);
        assert forall|i: int, j: int| 0 <= i < j < t.len() implies (#[trigger] t[i]).0 < (
        #[trigger] t[j]).0 by {
            if i == 0 {
                assert(t[j] == u[j - 1]);
                if u[j - 1].0 != k {
                    assert(pm_get(s.drop_first(), u[j - 1].0) is Some);
                    lemma_pm_get_index(s.drop_first(), u[j - 1].0);
                    let w = choose|w: int|
                        0 <= w < s.drop_first().len() && (#[trigger] s.drop_first()[w]).0 == u[j
                            - 1].0;
                    assert(s[w + 1].0 == u[j - 1].0);
                }
            }
        }
        assert forall|q: i64| true implies pm_get(t, q) == (if q == k {
            Some(v)
        } else {
            pm_get(s, q)
        }) by {
            assert(pm_get(t, q) == if t[0].0 == q {
                Some(t[0].1)
            } else {
                pm_get(u, q)
            });
        }
        assert forall|i: int| 0 <= i < t.len() implies ((#[trigger] t[i]).0 == k || pm_get(
            s,
            t[i].0,
        ) is Some) by {
            if i == 0 {
                lemma_pm_get_present(s, 0);
            } else {
                assert(t[i] == u[i - 1]);
                if u[i - 1].0 != k {
                    assert(pm_get(s.drop_first(), u[i - 1].0) is Some);
                    lemma_pm_get_extend(s, u[i - 1].0);
                }
            }
        }
    }
}

/// A rowid-ordered store of values of one column type, keyed by rowid.
pub struct Store<V> {
    pub entries: Vec<(i64, V)>,
}

impl<V> Store<V> {
    /// Is the store well formed: strictly ascending rowids?
    pub open spec fn wf(self) -> bool {
        st_sorted(self.entries@)
    }

    /// The value bound to rowid `k`, if any.
    pub open spec fn spec_get(self, k: i64) -> Option<V> {
        pm_get(self.entries@, k)
    }

    /// An empty store.
    pub fn new() -> (r: Store<V>)
        ensures
            r.wf(),
            r.entries@ =~= Seq::<(i64, V)>::empty(),
    {
        Store { entries: Vec::new() }
    }

    /// How many rowids are bound.
    pub fn len(&self) -> (r: usize)
        ensures
            r == self.entries@.len(),
    {
        self.entries.len()
    }

    /// Binds rowid `k` to `v`, replacing any previous binding.
    pub fn set_value(&mut self, k: i64, v: V)
        requires
            old(self).wf(),
        ensures
            final(self).wf(),
            final(self).entries@ == st_set(old(self).entries@, k, v),
    {
        let ghost s0 = self.entries@;
        let n = self.entries.len();
        let mut i: usize = 0;
        while i < n && self.entries[i].0 < k
            invariant
                0 <= i <= n,
                n == self.entries@.len(),
                self.entries@ == s0,
                st_sorted(s0),
                forall|j: int| 0 <= j < i ==> (#[trigger] s0[j]).0 < k,
            decreases n - i,
        {
            i = i + 1;
        }
        proof {
            lemma_st_set_split(s0, k, v, i as int);
        }
        if i < n && self.entries[i].0 == k {
            self.entries[i] = (k, v);
            proof {
                assert(self.entries@ =~= st_set(s0, k, v));
                lemma_st_set(s0, k, v);
            }
        } else {
            self.entries.insert(i, (k, v));
            proof {
                assert(self.entries@ =~= st_set(s0, k, v));
                lemma_st_set(s0, k, v);
            }
        }
    }
}

/// Descending below position `i` (all keys there smaller than `k`),
/// binding `k` rewrites only the tail from `i` on.
proof fn lemma_st_set_split<V>(s: Seq<(i64, V)>, k: i64, v: V, i: int)
    requires
        st_sorted(s),
        0 <= i <= s.len(),
        forall|j: int| 0 <= j < i ==> (#[trigger] s[j]).0 < k,
        i < s.len() ==> s[i].0 >= k,
    ensures
        i < s.len() && s[i].0 == k ==> st_set(s, k, v) == s.update(i, (k, v)),
        !(i < s.len() && s[i].0 == k) ==> st_set(s, k, v) == s.insert(i, (k, v)),
    decreases i,
{
    if i == 0 {
        if s.len() == 0 {
            assert(st_set(s, k, v) =~= s.insert(0, (k, v)));
        } else if k < s[0].0 {
            assert(st_set(s, k, v) =~= s.insert(0, (k, v)));
        } else if k == s[0].0 {
            assert(st_set(s, k, v) =~= s.update(0, (k, v)));
        }
    } else {
        lemma_st_set_split(s.drop_first(), k, v, i - 1);
        assert(s[0].0 < k);
        assert(st_set(s, k, v) == seq![s[0]] + st_set(s.drop_first(), k, v));
        if i < s.len() && s[i].0 == k {
            assert(s.drop_first()[i - 1].0 == k);
            assert(seq![s[0]] + s.drop_first().update(i - 1, (k, v)) =~= s.update(i, (k, v)));
        } else {
            assert(seq![s[0]] + s.drop_first().insert(i - 1, (k, v)) =~= s.insert(i, (k, v)));
        }
    }
}

// ---------------------------------------------------------------------------
// Per-column indexes
// ---------------------------------------------------------------------------

/// An index over an Integer column: column value to rowid, unique keys.
pub struct IntIndex {
    pub entries: Vec<(i32, i64)>,
}

impl IntIndex {
    /// Is the index well formed: no value listed twice?
    pub open spec fn wf(self) -> bool {
        pm_unique(self.entries@)
    }

    /// The rowid bound to value `k`, if any.
    pub open spec fn spec_get(self, k: i32) -> Option<i64> {
        pm_get(self.entries@, k)
    }

    /// An empty index.
    pub fn new() -> (r: IntIndex)
        ensures
            r.wf(),
            r.entries@ =~= Seq::<(i32, i64)>::empty(),
    {
        IntIndex { entries: Vec::new() }
    }

    /// Is value `k` present?
    pub fn contains_key(&self, k: i32) -> (r: bool)
        ensures
            r == (self.spec_get(k) is Some),
    {
        let n = self.entries.len();
        let mut i: usize = 0;
        while i < n
            invariant
                0 <= i <= n,
                n == self.entries@.len(),
                forall|j: int| 0 <= j < i ==> (#[trigger] self.entries@[j]).0 != k,
            decreases n - i,
        {
            if self.entries[i].0 == k {
                proof {
                    lemma_pm_get_present(self.entries@, i as int);
                }
                return true;
            }
            i = i + 1;
        }
        proof {
            if self.spec_get(k) is Some {
                lemma_pm_get_index(self.entries@, k);
            }
        }
        false
    }

    /// Binds value `k` to rowid `rid`, replacing any previous binding.
    pub fn set(&mut self, k: i32, rid: i64)
        requires
            old(self).wf(),
        ensures
            final(self).wf(),
            final(self).entries@ == pm_set(old(self).entries@, k, rid),
    {
        let ghost s0 = self.entries@;
        let n = self.entries.len();
        let mut i: usize = 0;
        while i < n
            invariant
                0 <= i <= n,
                n == self.entries@.len(),
                self.entries@ == s0,
                old(self).entries@ == s0,
                pm_unique(s0),
                forall|j: int| 0 <= j < i ==> (#[trigger] s0[j]).0 != k,
            decreases n - i,
        {
            if self.entries[i].0 == k {
                self.entries[i] = (k, rid);
                proof {
                    lemma_pm_set_replace_at(s0, k, rid, i as int);
                    assert(self.entries@ =~= s0.update(i as int, (k, rid)));
                    lemma_pm_set_unique(s0, k, rid);
                }
                return ;
            }
            i = i + 1;
        }
        self.entries.push((k, rid));
        proof {
            lemma_pm_set_append(s0, k, rid);
            assert(self.entries@ =~= s0.push((k, rid)));
            lemma_pm_set_unique(s0, k, rid);
        }
    }
}

/// When the first hit for `k` is at position `i`, binding `k` is an
/// update in place.
proof fn lemma_pm_set_replace_at<K, V>(s: Seq<(K, V)>, k: K, v: V, i: int)
    requires
        0 <= i < s.len(),
        s[i].0 == k,
        forall|j: int| 0 <= j < i ==> (#[trigger] s[j]).0 != k,
    ensures
        pm_set(s, k, v) == s.update(i, (k, v)),
    decreases i,
{
    if i == 0 {
        assert(pm_set(s, k, v) =~= s.update(0, (k, v)));
    } else {
        lemma_pm_set_replace_at(s.drop_first(), k, v, i - 1);
        assert(seq![s[0]] + s.drop_first().update(i - 1, (k, v)) =~= s.update(i, (k, v)));
    }
}

/// When `k` is absent, binding it appends the pair.
proof fn lemma_pm_set_append<K, V>(s: Seq<(K, V)>, k: K, v: V)
    requires
        forall|j: int| 0 <= j < s.len() ==> (#[trigger] s[j]).0 != k,
    ensures
        pm_set(s, k, v) == s.push((k, v)),
    decreases s.len(),
{
    if s.len() == 0 {
        assert(pm_set(s, k, v) =~= s.push((k, v)));
    } else {
        lemma_pm_set_append(s.drop_first(), k, v);
        assert(seq![s[0]] + s.drop_first().push((k, v)) =~= s.push((k, v)));
    }
}

// ---------------------------------------------------------------------------
// Text index: string keys, compared by contents
// ---------------------------------------------------------------------------

/// The rowid that a text-keyed pair sequence binds to the string `k`,
/// comparing keys by their characters.
pub open spec fn tm_get(s: Seq<(String, i64)>, k: Seq<char>) -> Option<i64>
    decreases s.len(),
{
    if s.len() == 0 {
        None
    } else if s[0].0@ == k {
        Some(s[0].1)
    } else {
        tm_get(s.drop_first(), k)
    }
}

/// The text-keyed pair sequence after binding `k` (a concrete string) to
/// `rid`: the first pair whose key reads the same is replaced, or the pair
/// is appended.
pub open spec fn tm_set(s: Seq<(String, i64)>, k: String, rid: i64) -> Seq<(String, i64)>
    decreases s.len(),
{
    if s.len() == 0 {
        seq![(k, rid)]
    } else if s[0].0@ == k@ {
        seq![(k, rid)] + s.drop_first()
    } else {
        seq![s[0]] + tm_set(s.drop_first(), k, rid)
    }
}

/// No two pairs read the same key.
pub open spec fn tm_unique(s: Seq<(String, i64)>) -> bool {
    forall|i: int, j: int| 0 <= i < j < s.len() ==> (#[trigger] s[i]).0@ != (#[trigger] s[j]).0@
}

/// Binding a string key then reading gives the bound rowid back; other
/// keys are untouched.
pub proof fn lemma_tm_get_set(s: Seq<(String, i64)>, k: String, rid: i64, q: Seq<char>)
    ensures
        tm_get(tm_set(s, k, rid), q) == if q == k@ {
            Some(rid)
        } else {
            tm_get(s, q)
        },
    decreases s.len(),
{
    let t = tm_set(s, k, rid);
    if s.len() == 0 {
        assert(t == seq![(k, rid)]);
        assert(t[0] == (k, rid));
        assert(t.drop_first() =~= Seq::<(String, i64)>::empty());
        assert(tm_get(t.drop_first(), q) == None::<i64>);
        if q == k@ {
            assert(tm_get(t, q) == Some(rid));
        } else {
            assert(tm_get(t, q) == None::<i64>);
        }
    } else if s[0].0@ == k@ {
        assert(t == seq![(k, rid)] + s.drop_first());
        assert(t[0] == (k, rid));
        assert(t.len() > 0);
        assert(t.drop_first() =~= s.drop_first());
        if q == k@ {
            assert(tm_get(t, q) == Some(rid));
        } else {
            assert(tm_get(t, q) == tm_get(s.drop_first(), q));
            assert(tm_get(s, q) == tm_get(s.drop_first(), q));
        }
    } else {
        lemma_tm_get_set(s.drop_first(), k, rid, q);
        assert(t == seq![s[0]] + tm_set(s.drop_first(), k, rid));
        assert(t[0] == s[0]);
        assert(t.len() > 0);
        assert(t.drop_first() =~= tm_set(s.drop_first(), k, rid));
        if t[0].0@ == q {
            assert(tm_get(t, q) == Some(s[0].1));
            assert(tm_get(s, q) == Some(s[0].1));
        } else {
            assert(tm_get(t, q) == tm_get(tm_set(s.drop_first(), k, rid), q));
            assert(tm_get(s, q) == tm_get(s.drop_first(), q));
        }
    }
}

/// A string key that `tm_get` finds sits at some position.
pub proof fn lemma_tm_get_index(s: Seq<(String, i64)>, q: Seq<char>)
    requires
        tm_get(s, q) is Some,
    ensures
        exists|i: int| 0 <= i < s.len() && (#[trigger] s[i]).0@ == q,
    decreases s.len(),
{
    if s.len() > 0 {
        if s[0].0@ == q {
            assert(s[0].0@ == q);
        } else {
            lemma_tm_get_index(s.drop_first(), q);
            let i = choose|i: int|
                0 <= i < s.drop_first().len() && (#[trigger] s.drop_first()[i]).0@ == q;
            assert(s[i + 1].0@ == q);
        }
    }
}

/// A string key that sits at some position is found by `tm_get`.
pub proof fn lemma_tm_get_present(s: Seq<(String, i64)>, i: int)
    requires
        0 <= i < s.len(),
    ensures
        tm_get(s, s[i].0@) is Some,
    decreases i,
{
    if i > 0 && s[0].0@ != s[i].0@ {
        lemma_tm_get_present(s.drop_first(), i - 1);
    }
}

/// Binding a string key keeps keys unique and grows the length by one
/// exactly when the key was absent.
pub proof fn lemma_tm_set_unique(s: Seq<(String, i64)>, k: String, rid: i64)
    requires
        tm_unique(s),
    ensures
        tm_unique(tm_set(s, k, rid)),
        tm_set(s, k, rid).len() == if tm_get(s, k@) is Some {
            s.len()
        } else {
            s.len() + 1
        },
    decreases s.len(),
{
    if s.len() == 0 {
    } else if s[0].0@ == k@ {
        let t = tm_set(s, k, rid);
        assert(t.drop_first() =~= s.drop_first());
    } else {
        lemma_tm_set_unique(s.drop_first(), k, rid);
        let t = tm_set(s, k, rid);
        let u = tm_set(s.drop_first(), k, rid);
        assert(t.drop_first() =~= u);
        assert forall|i: int, j: int| 0 <= i < j < t.len() implies (#[trigger] t[i]).0@ != (
        #[trigger] t[j]).0@ by {
            if i == 0 {
                assert(t[j] == u[j - 1]);
                if u[j - 1].0@ != k@ {
                    lemma_tm_set_untouched(s.drop_first(), k, rid, j - 1);
                }
            }
        }
    }
}

/// A pair of the bound sequence whose key is not the bound one already
/// appeared in the original sequence.
proof fn lemma_tm_set_untouched(s: Seq<(String, i64)>, k: String, rid: i64, i: int)
    requires
        0 <= i < tm_set(s, k, rid).len(),
        tm_set(s, k, rid)[i].0@ != k@,
    ensures
        exists|j: int| 0 <= j < s.len() && (#[trigger] s[j]).0@ == tm_set(s, k, rid)[i].0@,
    decreases s.len(),
{
    let t = tm_set(s, k, rid);
    if s.len() == 0 {
    } else if s[0].0@ == k@ {
        assert(t.drop_first() =~= s.drop_first());
        assert(i >= 1);
        assert(s[i].0@ == t[i].0@);
    } else {
        if i == 0 {
            assert(s[0].0@ == t[0].0@);
        } else {
            assert(t.drop_first() =~= tm_set(s.drop_first(), k, rid));
            lemma_tm_set_untouched(s.drop_first(), k, rid, i - 1);
            let j = choose|j: int|
                0 <= j < s.drop_first().len() && (#[trigger] s.drop_first()[j]).0@ == tm_set(
                    s.drop_first(),
                    k,
                    rid,
                )[i - 1].0@;
            assert(s[j + 1].0@ == t[i].0@);
        }
    }
}

/// An index over a Text column: column value to rowid, unique keys.
pub struct TextIndex {
    pub entries: Vec<(String, i64)>,
}

impl TextIndex {
    /// Is the index well formed: no value listed twice?
    pub open spec fn wf(self) -> bool {
        tm_unique(self.entries@)
    }

    /// The rowid bound to value `k`, if any.
    pub open spec fn spec_get(self, k: Seq<char>) -> Option<i64> {
        tm_get(self.entries@, k)
    }

    /// An empty index.
    pub fn new() -> (r: TextIndex)
        ensures
            r.wf(),
            r.entries@ =~= Seq::<(String, i64)>::empty(),
    {
        TextIndex { entries: Vec::new() }
    }

    /// Is value `k` present?
    pub fn contains_key(&self, k: &String) -> (r: bool)
        ensures
            r == (self.spec_get(k@) is Some),
    {
        let n = self.entries.len();
        let mut i: usize = 0;
        while i < n
            invariant
                0 <= i <= n,
                n == self.entries@.len(),
                forall|j: int| 0 <= j < i ==> (#[trigger] self.entries@[j]).0@ != k@,
            decreases n - i,
        {
            if self.entries[i].0 == *k {
                proof {
                    lemma_tm_get_present(self.entries@, i as int);
                }
                return true;
            }
            i = i + 1;
        }
        proof {
            if self.spec_get(k@) is Some {
                lemma_tm_get_index(self.entries@, k@);
            }
        }
        false
    }

    /// Binds value `k` to rowid `rid`, replacing any previous binding.
    pub fn set(&mut self, k: String, rid: i64)
        requires
            old(self).wf(),
        ensures
            final(self).wf(),
            final(self).entries@ == tm_set(old(self).entries@, k, rid),
    {
        let ghost s0 = self.entries@;
        let n = self.entries.len();
        let mut i: usize = 0;
        while i < n
            invariant
                0 <= i <= n,
                n == self.entries@.len(),
                self.entries@ == s0,
                old(self).entries@ == s0,
                tm_unique(s0),
                forall|j: int| 0 <= j < i ==> (#[trigger] s0[j]).0@ != k@,
            decreases n - i,
        {
            if self.entries[i].0 == k {
                self.entries[i] = (k.clone(), rid);
                proof {
                    lemma_tm_set_replace_at(s0, k, rid, i as int);
                    assert(self.entries@ =~= s0.update(i as int, (k, rid)));
                    lemma_tm_set_unique(s0, k, rid);
                }
                return ;
            }
            i = i + 1;
        }
        self.entries.push((k, rid));
        proof {
            lemma_tm_set_append(s0, k, rid);
            assert(self.entries@ =~= s0.push((k, rid)));
            lemma_tm_set_unique(s0, k, rid);
        }
    }
}

/// When the first hit for `k` is at position `i`, binding `k` is an
/// update in place.
proof fn lemma_tm_set_replace_at(s: Seq<(String, i64)>, k: String, rid: i64, i: int)
    requires
        0 <= i < s.len(),
        s[i].0@ == k@,
        forall|j: int| 0 <= j < i ==> (#[trigger] s[j]).0@ != k@,
    ensures
        tm_set(s, k, rid) == s.update(i, (k, rid)),
    decreases i,
{
    if i == 0 {
        assert(tm_set(s, k, rid) =~= s.update(0, (k, rid)));
    } else {
        lemma_tm_set_replace_at(s.drop_first(), k, rid, i - 1);
        assert(seq![s[0]] + s.drop_first().update(i - 1, (k, rid)) =~= s.update(i, (k, rid)));
    }
}

/// When `k` is absent, binding it appends the pair.
proof fn lemma_tm_set_append(s: Seq<(String, i64)>, k: String, rid: i64)
    requires
        forall|j: int| 0 <= j < s.len() ==> (#[trigger] s[j]).0@ != k@,
    ensures
        tm_set(s, k, rid) == s.push((k, rid)),
    decreases s.len(),
{
    if s.len() == 0 {
        assert(tm_set(s, k, rid) =~= s.push((k, rid)));
    } else {
        lemma_tm_set_append(s.drop_first(), k, rid);
        assert(seq![s[0]] + s.drop_first().push((k, rid)) =~= s.push((k, rid)));
    }
}

} // verus!
