//! The context model: the key-to-value mapping that drives placeholder
//! substitution. Defaults and template-declared values are merged with
//! declared values winning every collision, and an original snapshot
//! excludes every reserved (underscore-prefixed) key.

use vstd::prelude::*;

use crate::value::{clone_value, lemma_obj_view, obj_view, Value, ValueV};
use crate::strutil::str_eq;

verus! {

/// The mapping described by an association sequence; a later entry wins
/// a key collision (collisions never arise under `unique_keys`).
pub open spec fn map_of(s: Seq<(Seq<char>, ValueV)>) -> Map<Seq<char>, ValueV>
    decreases s.len(),
{
    if s.len() == 0 {
        Map::empty()
    } else {
        map_of(s.drop_last()).insert(s.last().0, s.last().1)
    }
}

/// No two entries of the association sequence share a key.
pub open spec fn unique_keys(s: Seq<(Seq<char>, ValueV)>) -> bool {
    forall|i: int, j: int| 0 <= i < j < s.len() ==> s[i].0 != s[j].0
}

/// A key is in the mapping exactly when some entry holds it.
pub proof fn lemma_map_of_contains(s: Seq<(Seq<char>, ValueV)>, k: Seq<char>)
    ensures
        map_of(s).contains_key(k) <==> (exists|i: int|
            0 <= i < s.len() && (#[trigger] s[i].0) == k),
    decreases s.len(),
{
    if s.len() > 0 {
        lemma_map_of_contains(s.drop_last(), k);
        if k == s.last().0 {
            assert(s[s.len() - 1].0 == k);
        } else {
            if map_of(s).contains_key(k) {
                let i = choose|i: int|
                    0 <= i < s.drop_last().len() && (#[trigger] s.drop_last()[i].0) == k;
                assert(s.drop_last()[i] == s[i]);
                assert(s[i].0 == k);
            }
            if exists|i: int| 0 <= i < s.len() && (#[trigger] s[i].0) == k {
                let i = choose|i: int| 0 <= i < s.len() && (#[trigger] s[i].0) == k;
                assert(i < s.len() - 1);
                assert(s.drop_last()[i] == s[i]);
                assert(s.drop_last()[i].0 == k);
            }
        }
    }
}

/// A key is in the mapping exactly when some entry holds it, for every
/// key at once.
pub proof fn lemma_map_of_domain(s: Seq<(Seq<char>, ValueV)>)
    ensures
        forall|k: Seq<char>| #[trigger] map_of(s).contains_key(k) <==> (exists|i: int|
            0 <= i < s.len() && (#[trigger] s[i].0) == k),
{
    assert forall|k: Seq<char>| #[trigger] map_of(s).contains_key(k) <==> (exists|i: int|
        0 <= i < s.len() && (#[trigger] s[i].0) == k) by {
        lemma_map_of_contains(s, k);
    }
}

/// Under unique keys, the entry holding a key decides its mapped value.
pub proof fn lemma_map_of_index(s: Seq<(Seq<char>, ValueV)>, i: int)
    requires
        unique_keys(s),
        0 <= i < s.len(),
    ensures
        map_of(s).contains_key(s[i].0),
        map_of(s)[s[i].0] == s[i].1,
    decreases s.len(),
{
    if i == s.len() - 1 {
    } else {
        assert(unique_keys(s.drop_last())) by {
            assert(forall|x: int, y: int|
                0 <= x < y < s.drop_last().len() ==> s.drop_last()[x] == s[x]
                    && s.drop_last()[y] == s[y]);
        }
        assert(s.drop_last()[i] == s[i]);
        lemma_map_of_index(s.drop_last(), i);
        assert(s[i].0 != s.last().0);
    }
}

/// Whether a key is configuration-internal: it begins with the reserved
/// prefix.
pub open spec fn is_reserved(k: Seq<char>) -> bool {
    k.len() > 0 && k[0] == '_'
}

/// The merged key-to-value mapping used to resolve placeholders.
pub struct Context {
    pairs: Vec<(String, Value)>,
}

impl Context {
    /// The association sequence the context stores.
    pub closed spec fn kv(&self) -> Seq<(Seq<char>, ValueV)> {
        obj_view(self.pairs@)
    }

    /// Well-formed: no key occurs twice.
    pub open spec fn wf(&self) -> bool {
        unique_keys(self.kv())
    }

    /// The empty context.
    pub fn new() -> (r: Context)
        ensures
            r.wf(),
            r@ == Map::<Seq<char>, ValueV>::empty(),
    {
        let r = Context { pairs: Vec::new() };
        proof {
            lemma_obj_view(r.pairs@);
            assert(r.kv() =~= Seq::empty());
        }
        r
    }

    /// The value stored under the key, if the key is present.
    pub fn get(&self, key: &str) -> (r: Option<&Value>)
        requires
            self.wf(),
        ensures
            match r {
                Some(v) => self@.contains_key(key@) && v@ == self@[key@],
                None => !self@.contains_key(key@),
            },
    {
        proof {
            lemma_obj_view(self.pairs@);
            lemma_map_of_domain(self.kv());
        }
        let n = self.pairs.len();
        let mut i: usize = 0;
        while i < n
            invariant
                self.wf(),
                n == self.pairs.len(),
                i <= n,
                forall|j: int| 0 <= j < i as int ==> (#[trigger] self.kv()[j].0) != key@,
            decreases n - i,
        {
            if str_eq(self.pairs[i].0.as_str(), key) {
                proof {
                    lemma_obj_view(self.pairs@);
                    assert(self.kv()[i as int].0 == key@);
                    lemma_map_of_index(self.kv(), i as int);
                }
                return Some(&self.pairs[i].1);
            }
            proof {
                lemma_obj_view(self.pairs@);
            }
            i = i + 1;
        }
        proof {
            lemma_map_of_domain(self.kv());
            assert(!self@.contains_key(key@));
        }
        None
    }

    /// Whether the key is present.
    pub fn contains_key(&self, key: &str) -> (r: bool)
        requires
            self.wf(),
        ensures
            r == self@.contains_key(key@),
    {
        match self.get(key) {
            Some(_) => true,
            None => false,
        }
    }

    /// Inserts the value under the key only if the key is absent; a
    /// present key keeps its value unchanged.
    pub fn insert_if_absent(&mut self, key: String, value: Value)
        requires
            old(self).wf(),
        ensures
            final(self).wf(),
            old(self)@.contains_key(key@) ==> final(self)@ == old(self)@,
            !old(self)@.contains_key(key@) ==> final(self)@ == old(self)@.insert(key@, value@),
    {
        if self.contains_key(key.as_str()) {
            return;
        }
        proof {
            lemma_obj_view(self.pairs@);
            lemma_map_of_domain(self.kv());
        }
        let ghost old_kv = self.kv();
        self.pairs.push((key, value));
        proof {
            lemma_obj_view(self.pairs@);
            assert(self.pairs@.drop_last() =~= old(self).pairs@);
            assert(self.kv().drop_last() =~= old_kv);
            assert(self.kv().last() == (self.pairs@.last().0@, self.pairs@.last().1@));
            assert(forall|j: int| 0 <= j < old_kv.len() ==> #[trigger] self.kv()[j] == old_kv[j]);
            assert(forall|j: int| 0 <= j < old_kv.len() ==> (#[trigger] old_kv[j].0) != key@);
            assert(self.wf());
            assert(self.kv() == old_kv.push((key@, value@)));
            assert(map_of(self.kv()) == map_of(old_kv).insert(key@, value@));
        }
    }

    /// Merges defaults into declared values: every declared entry is
    /// kept unchanged, and a default entry is added only when its key is
    /// absent from the declared values. Declared wins every collision.
    #[verifier::loop_isolation(false)]
    pub fn merge(defaults: Context, declared: Context) -> (r: Context)
        requires
            defaults.wf(),
            declared.wf(),
        ensures
            r.wf(),
            forall|k: Seq<char>| #[trigger] r@.contains_key(k) <==> (defaults@.contains_key(k)
                || declared@.contains_key(k)),
            forall|k: Seq<char>| declared@.contains_key(k) ==> #[trigger] r@[k] == declared@[k],
            forall|k: Seq<char>| !declared@.contains_key(k) && defaults@.contains_key(k)
                ==> #[trigger] r@[k] == defaults@[k],
    {
        let ghost dkv = defaults.kv();
        let ghost dmap = defaults@;
        let ghost declmap = declared@;
        let ghost dpairs = defaults.pairs@;
        proof {
            lemma_obj_view(dpairs);
            lemma_map_of_domain(dkv);
        }
        let mut rest = defaults;
        let mut out = declared;
        while rest.pairs.len() > 0
            invariant
                out.wf(),
                unique_keys(dkv),
                rest.pairs@ == dpairs.subrange(0, rest.pairs@.len() as int),
                rest.pairs@.len() <= dpairs.len(),
                dkv.len() == dpairs.len(),
                forall|k: Seq<char>| #[trigger] out@.contains_key(k) <==> (declmap.contains_key(k)
                    || (exists|j: int|
                    rest.pairs@.len() <= j < dkv.len() && (#[trigger] dkv[j].0) == k)),
                forall|k: Seq<char>| declmap.contains_key(k) ==> #[trigger] out@[k] == declmap[k],
                forall|k: Seq<char>| !declmap.contains_key(k) && #[trigger] out@.contains_key(k)
                    ==> (exists|j: int|
                    rest.pairs@.len() <= j < dkv.len() && (#[trigger] dkv[j].0) == k && out@[k]
                        == dkv[j].1),
            decreases rest.pairs@.len(),
        {
            let ghost n = rest.pairs@.len() as int;
            let pair = rest.pairs.pop().unwrap();
            proof {
                lemma_obj_view(dpairs);
                assert(rest.pairs@ =~= dpairs.subrange(0, n - 1));
                assert(pair == dpairs[n - 1]);
                assert(dkv == obj_view(dpairs));
                assert(obj_view(dpairs)[n - 1] == (dpairs[n - 1].0@, dpairs[n - 1].1@));
                assert((pair.0@, pair.1@) == dkv[n - 1]);
            }
            let ghost pre = out@;
            out.insert_if_absent(pair.0, pair.1);
            proof {
                assert forall|k: Seq<char>| #[trigger] out@.contains_key(k) implies (
                declmap.contains_key(k) || (exists|j: int|
                    n - 1 <= j < dkv.len() && (#[trigger] dkv[j].0) == k)) by {
                    if k == dkv[n - 1].0 {
                        assert(dkv[n - 1].0 == k);
                    } else {
                        assert(pre.contains_key(k));
                    }
                }
                assert forall|k: Seq<char>|
                    (declmap.contains_key(k) || (exists|j: int|
                        n - 1 <= j < dkv.len() && (#[trigger] dkv[j].0) == k))
                    implies #[trigger] out@.contains_key(k) by {
                    if !declmap.contains_key(k) {
                        let j = choose|j: int|
                            n - 1 <= j < dkv.len() && (#[trigger] dkv[j].0) == k;
                        if j >= n {
                            assert(pre.contains_key(k));
                        }
                    }
                }
                assert forall|k: Seq<char>| !declmap.contains_key(k) && #[trigger] out@.contains_key(
                    k,
                ) implies (exists|j: int|
                    n - 1 <= j < dkv.len() && (#[trigger] dkv[j].0) == k && out@[k] == dkv[j].1) by {
                    if pre.contains_key(k) {
                        let j = choose|j: int|
                            n <= j < dkv.len() && (#[trigger] dkv[j].0) == k && pre[k] == dkv[j].1;
                        assert(dkv[j].0 == k && out@[k] == dkv[j].1);
                    } else {
                        assert(k == dkv[n - 1].0 && out@[k] == dkv[n - 1].1);
                        assert(dkv[n - 1].0 == k && out@[k] == dkv[n - 1].1);
                    }
                }
            }
        }
        proof {
            lemma_map_of_domain(dkv);
            assert forall|k: Seq<char>| !declmap.contains_key(k) && dmap.contains_key(k)
                implies #[trigger] out@[k] == dmap[k] by {
                assert(out@.contains_key(k));
                let j = choose|j: int|
                    0 <= j < dkv.len() && (#[trigger] dkv[j].0) == k && out@[k] == dkv[j].1;
                lemma_map_of_index(dkv, j);
            }
        }
        out
    }

    /// A copy holding exactly the entries whose key does not begin with
    /// the reserved prefix; no reserved key is ever in the result.
    pub fn snapshot_original(&self) -> (r: Context)
        requires
            self.wf(),
        ensures
            r.wf(),
            forall|k: Seq<char>| #[trigger] r@.contains_key(k) <==> (self@.contains_key(k)
                && !is_reserved(k)),
            forall|k: Seq<char>| #[trigger] r@.contains_key(k) ==> r@[k] == self@[k],
            forall|k: Seq<char>| is_reserved(k) ==> !(#[trigger] r@.contains_key(k)),
    {
        proof {
            lemma_obj_view(self.pairs@);
            lemma_map_of_domain(self.kv());
        }
        let mut out = Context::new();
        let n = self.pairs.len();
        let mut i: usize = 0;
        while i < n
            invariant
                self.wf(),
                out.wf(),
                n == self.pairs.len(),
                i <= n,
                forall|k: Seq<char>| #[trigger] out@.contains_key(k) <==> (exists|j: int|
                    0 <= j < i as int && (#[trigger] self.kv()[j].0) == k && !is_reserved(k)),
                forall|k: Seq<char>| #[trigger] out@.contains_key(k) ==> (exists|j: int|
                    0 <= j < i as int && (#[trigger] self.kv()[j].0) == k && out@[k]
                        == self.kv()[j].1),
            decreases n - i,
        {
            proof {
                lemma_obj_view(self.pairs@);
            }
            let key = &self.pairs[i].0;
            let reserved = if key.as_str().unicode_len() == 0 {
                false
            } else {
                key.as_str().get_char(0) == '_'
            };
            let ghost pre = out@;
            if !reserved {
                let k2 = key.clone();
                let v2 = clone_value(&self.pairs[i].1);
                proof {
                    assert((k2@, v2@) == self.kv()[i as int]);
                }
                out.insert_if_absent(k2, v2);
                proof {
                    if pre.contains_key(k2@) {
                        let j = choose|j: int|
                            0 <= j < i as int && (#[trigger] self.kv()[j].0) == k2@ && pre[k2@]
                                == self.kv()[j].1;
                        assert(self.kv()[j].0 == self.kv()[i as int].0);
                        assert(false);
                    }
                }
            }
            proof {
                assert forall|k: Seq<char>| #[trigger] out@.contains_key(k) implies (exists|j: int|
                    0 <= j < i as int + 1 && (#[trigger] self.kv()[j].0) == k && !is_reserved(k)) by {
                    if pre.contains_key(k) {
                        let j = choose|j: int|
                            0 <= j < i as int && (#[trigger] self.kv()[j].0) == k && !is_reserved(k);
                        assert(0 <= j < i as int + 1 && self.kv()[j].0 == k);
                    } else {
                        assert(self.kv()[i as int].0 == k && !is_reserved(k));
                    }
                }
                assert forall|k: Seq<char>|
                    (exists|j: int|
                        0 <= j < i as int + 1 && (#[trigger] self.kv()[j].0) == k && !is_reserved(k))
                    implies #[trigger] out@.contains_key(k) by {
                    let j = choose|j: int|
                        0 <= j < i as int + 1 && (#[trigger] self.kv()[j].0) == k && !is_reserved(k);
                    if j < i as int {
                        assert(pre.contains_key(k));
                    }
                }
                assert forall|k: Seq<char>| #[trigger] out@.contains_key(k) implies (exists|j: int|
                    0 <= j < i as int + 1 && (#[trigger] self.kv()[j].0) == k && out@[k]
                        == self.kv()[j].1) by {
                    if pre.contains_key(k) && out@[k] == pre[k] {
                        let j = choose|j: int|
                            0 <= j < i as int && (#[trigger] self.kv()[j].0) == k && pre[k]
                                == self.kv()[j].1;
                        assert(0 <= j < i as int + 1 && self.kv()[j].0 == k && out@[k]
                            == self.kv()[j].1);
                    } else {
                        assert(self.kv()[i as int].0 == k && out@[k] == self.kv()[i as int].1);
                    }
                }
            }
            i = i + 1;
        }
        proof {
            lemma_map_of_domain(self.kv());
            assert forall|k: Seq<char>| #[trigger] out@.contains_key(k) implies out@[k] == self@[k] by {
                let j = choose|j: int|
                    0 <= j < n as int && (#[trigger] self.kv()[j].0) == k && out@[k]
                        == self.kv()[j].1;
                lemma_map_of_index(self.kv(), j);
            }
        }
        out
    }
}

impl View for Context {
    type V = Map<Seq<char>, ValueV>;

    closed spec fn view(&self) -> Map<Seq<char>, ValueV> {
        map_of(self.kv())
    }
}

} // verus!
