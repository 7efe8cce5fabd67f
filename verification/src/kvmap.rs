//! A small string-keyed map and string set, backed by vectors, with
//! mathematical `Map` and `Set` views.  Insertion is last-write-wins, as the
//! request parser needs for duplicate query keys and headers.

use vstd::prelude::*;

verus! {

use crate::outside::upper_of;
use crate::outside::to_upper;
use crate::strutil::str_eq;

/// The map described by a sequence of key-value pairs, later pairs winning.
pub open spec fn pairs_map(ps: Seq<(String, String)>) -> Map<Seq<char>, Seq<char>>
    decreases ps.len(),
{
    if ps.len() == 0 {
        Map::<Seq<char>, Seq<char>>::empty()
    } else {
        pairs_map(ps.drop_last()).insert(ps.last().0@, ps.last().1@)
    }
}

proof fn lemma_pairs_map_no_key(ps: Seq<(String, String)>, k: Seq<char>)
    requires
        forall|i: int| 0 <= i < ps.len() ==> (#[trigger] ps[i]).0@ != k,
    ensures
        !pairs_map(ps).contains_key(k),
    decreases ps.len(),
{
    if ps.len() > 0 {
        lemma_pairs_map_no_key(ps.drop_last(), k);
    }
}

proof fn lemma_pairs_map_last_key(ps: Seq<(String, String)>, k: Seq<char>, i: int)
    requires
        0 <= i < ps.len(),
        ps[i].0@ == k,
        forall|j: int| i < j < ps.len() ==> (#[trigger] ps[j]).0@ != k,
    ensures
        pairs_map(ps).contains_key(k),
        pairs_map(ps)[k] == ps[i].1@,
    decreases ps.len(),
{
    if i == ps.len() - 1 {
    } else {
        lemma_pairs_map_last_key(ps.drop_last(), k, i);
    }
}

/// A string-keyed map.
pub struct KvMap {
    pairs: Vec<(String, String)>,
}

impl View for KvMap {
    type V = Map<Seq<char>, Seq<char>>;

    closed spec fn view(&self) -> Map<Seq<char>, Seq<char>> {
        pairs_map(self.pairs@)
    }
}

impl KvMap {
    /// The pairs the map was built from, in insertion order.
    pub closed spec fn seq_view(&self) -> Seq<(Seq<char>, Seq<char>)> {
        self.pairs@.map_values(|p: (String, String)| (p.0@, p.1@))
    }

    /// An empty map.
    pub fn new() -> (r: KvMap)
        ensures
            r@ == Map::<Seq<char>, Seq<char>>::empty(),
            r.seq_view() == Seq::<(Seq<char>, Seq<char>)>::empty(),
    {
        let r = KvMap { pairs: Vec::new() };
        proof {
            assert(r.seq_view() =~= Seq::<(Seq<char>, Seq<char>)>::empty());
        }
        r
    }

    /// Inserts a pair; an existing binding of the key is superseded.
    pub fn insert(&mut self, k: String, v: String)
        ensures
            final(self)@ == old(self)@.insert(k@, v@),
            final(self).seq_view() == old(self).seq_view().push((k@, v@)),
    {
        let ghost gk = k@;
        let ghost gv = v@;
        self.pairs.push((k, v));
        proof {
            assert(self.pairs@.drop_last() =~= old(self).pairs@);
            assert(self.pairs@.last().0@ == gk);
            assert(self.seq_view() =~= old(self).seq_view().push((gk, gv)));
        }
    }

    /// The value bound to `k`, if any.
    pub fn get(&self, k: &str) -> (r: Option<&String>)
        ensures
            match r {
                Some(v) => self@.contains_key(k@) && v@ == self@[k@],
                None => !self@.contains_key(k@),
            },
    {
        let mut i: usize = self.pairs.len();
        while i > 0
            invariant
                0 <= i <= self.pairs@.len(),
                forall|j: int| i <= j < self.pairs@.len() ==> (#[trigger] self.pairs@[j]).0@ != k@,
            decreases i,
        {
            i = i - 1;
            let p = &self.pairs[i];
            if str_eq(p.0.as_str(), k) {
                proof {
                    lemma_pairs_map_last_key(self.pairs@, k@, i as int);
                }
                return Some(&self.pairs[i].1);
            }
        }
        proof {
            lemma_pairs_map_no_key(self.pairs@, k@);
        }
        None
    }

    /// The number of stored pairs.
    pub fn num_pairs(&self) -> (r: usize)
        ensures
            r == self.seq_view().len(),
    {
        self.pairs.len()
    }

    /// The pair at position `i`, for iteration.
    pub fn pair_at(&self, i: usize) -> (r: (&String, &String))
        requires
            i < self.seq_view().len(),
        ensures
            (r.0@, r.1@) == self.seq_view()[i as int],
    {
        let p = &self.pairs[i];
        (&p.0, &p.1)
    }
}

/// The set described by a sequence of strings.
pub open spec fn items_set(items: Seq<String>) -> Set<Seq<char>>
    decreases items.len(),
{
    if items.len() == 0 {
        Set::<Seq<char>>::empty()
    } else {
        items_set(items.drop_last()).insert(items.last()@)
    }
}

proof fn lemma_items_set_contains(items: Seq<String>, k: Seq<char>)
    ensures
        items_set(items).contains(k) <==> exists|i: int|
            0 <= i < items.len() && (#[trigger] items[i])@ == k,
    decreases items.len(),
{
    if items.len() > 0 {
        lemma_items_set_contains(items.drop_last(), k);
        if items.last()@ == k {
            assert(items[items.len() - 1]@ == k);
        } else if items_set(items).contains(k) {
            let i = choose|i: int| 0 <= i < items.len() - 1 && (#[trigger] items.drop_last()[i])@
                == k;
            assert(items[i]@ == k);
        } else {
            assert forall|i: int| 0 <= i < items.len() && (#[trigger] items[i])@ == k implies false by {
                if i < items.len() - 1 {
                    assert(items.drop_last()[i]@ == k);
                }
            }
        }
    }
}

/// A set of strings.
pub struct StrSet {
    items: Vec<String>,
}

impl View for StrSet {
    type V = Set<Seq<char>>;

    closed spec fn view(&self) -> Set<Seq<char>> {
        items_set(self.items@)
    }
}

impl StrSet {
    /// An empty set.
    pub fn new() -> (r: StrSet)
        ensures
            r@ == Set::<Seq<char>>::empty(),
    {
        StrSet { items: Vec::new() }
    }

    /// Adds a string to the set.
    pub fn insert(&mut self, s: String)
        ensures
            final(self)@ == old(self)@.insert(s@),
    {
        self.items.push(s);
        proof {
            assert(self.items@.drop_last() =~= old(self).items@);
        }
    }

    /// Whether the set holds `k`.
    pub fn contains(&self, k: &str) -> (r: bool)
        ensures
            r == self@.contains(k@),
    {
        let mut i: usize = 0;
        while i < self.items.len()
            invariant
                0 <= i <= self.items@.len(),
                forall|j: int| 0 <= j < i ==> (#[trigger] self.items@[j])@ != k@,
            decreases self.items@.len() - i,
        {
            if str_eq(self.items[i].as_str(), k) {
                proof {
                    lemma_items_set_contains(self.items@, k@);
                }
                return true;
            }
            i = i + 1;
        }
        proof {
            lemma_items_set_contains(self.items@, k@);
        }
        false
    }
}

/// Whether a query or form key may be passed to an executable as an
/// environment variable: it must not shadow a variable the server already
/// has, must not follow the all-uppercase environment convention, and must
/// be whitelisted.
pub open spec fn env_keep(k: Seq<char>, allowed: Set<Seq<char>>, defined: Set<Seq<char>>) -> bool {
    !defined.contains(k) && k != upper_of(k) && allowed.contains(k)
}

spec fn filter_env_seq(
    ps: Seq<(String, String)>,
    allowed: Set<Seq<char>>,
    defined: Set<Seq<char>>,
) -> Seq<(String, String)>
    decreases ps.len(),
{
    if ps.len() == 0 {
        Seq::<(String, String)>::empty()
    } else if env_keep(ps.last().0@, allowed, defined) {
        filter_env_seq(ps.drop_last(), allowed, defined).push(ps.last())
    } else {
        filter_env_seq(ps.drop_last(), allowed, defined)
    }
}

/// The map restricted to the keys that may reach an executable's
/// environment.
pub open spec fn env_filtered_map(
    m: Map<Seq<char>, Seq<char>>,
    allowed: Set<Seq<char>>,
    defined: Set<Seq<char>>,
) -> Map<Seq<char>, Seq<char>> {
    Map::<Seq<char>, Seq<char>>::new(
        |k: Seq<char>| m.contains_key(k) && env_keep(k, allowed, defined),
        |k: Seq<char>| m[k],
    )
}

proof fn lemma_filter_env_seq_map(
    ps: Seq<(String, String)>,
    allowed: Set<Seq<char>>,
    defined: Set<Seq<char>>,
)
    ensures
        pairs_map(filter_env_seq(ps, allowed, defined)) == env_filtered_map(
            pairs_map(ps),
            allowed,
            defined,
        ),
    decreases ps.len(),
{
    if ps.len() == 0 {
        assert(pairs_map(filter_env_seq(ps, allowed, defined)) =~= env_filtered_map(
            pairs_map(ps),
            allowed,
            defined,
        ));
    } else {
        lemma_filter_env_seq_map(ps.drop_last(), allowed, defined);
        let fs = filter_env_seq(ps, allowed, defined);
        if env_keep(ps.last().0@, allowed, defined) {
            assert(fs.drop_last() =~= filter_env_seq(ps.drop_last(), allowed, defined));
            assert(fs.last() == ps.last());
            assert(pairs_map(fs) =~= env_filtered_map(pairs_map(ps), allowed, defined));
        } else {
            assert(pairs_map(fs) =~= env_filtered_map(pairs_map(ps), allowed, defined));
        }
    }
}

/// Drops from `vars` every key that is already defined in the server's
/// environment, equals its own uppercase form, or is not whitelisted.
pub fn filter_env_variables(vars: &KvMap, allowed: &StrSet, env_defined: &StrSet) -> (r: KvMap)
    ensures
        r@ == env_filtered_map(vars@, allowed@, env_defined@),
{
    let n = vars.num_pairs();
    let mut out = KvMap { pairs: Vec::new() };
    let mut i: usize = 0;
    proof {
        assert(vars.pairs@.subrange(0, 0) =~= Seq::<(String, String)>::empty());
        assert(out.pairs@ =~= Seq::<(String, String)>::empty());
    }
    while i < n
        invariant
            0 <= i <= n,
            n == vars.pairs@.len(),
            out.pairs@ == filter_env_seq(vars.pairs@.subrange(0, i as int), allowed@, env_defined@),
        decreases n - i,
    {
        let ghost pre = vars.pairs@.subrange(0, i as int);
        let p = &vars.pairs[i];
        let k = &p.0;
        let upper = to_upper(k.as_str());
        let keep = !env_defined.contains(k.as_str()) && !str_eq(k.as_str(), upper.as_str())
            && allowed.contains(k.as_str());
        if keep {
            out.pairs.push((k.clone(), p.1.clone()));
        }
        i = i + 1;
        proof {
            let cur = vars.pairs@.subrange(0, i as int);
            assert(cur.drop_last() =~= pre);
            assert(cur.last() == vars.pairs@[i - 1]);
        }
    }
    proof {
        assert(vars.pairs@.subrange(0, n as int) =~= vars.pairs@);
        lemma_filter_env_seq_map(vars.pairs@, allowed@, env_defined@);
    }
    out
}

} // verus!
