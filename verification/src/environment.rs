//! A named, ordered set of variable bindings. An environment with two
//! bindings for the same name is corrupt and must be rejected before it
//! is ever merged into a request.

use vstd::prelude::*;

use crate::keyvalue::KeyValue;
use crate::text::str_equal;

verus! {

/// A named set of variable bindings.
pub struct Environment {
    pub name: String,
    pub variables: Vec<KeyValue>,
}

/// Does the name `x` occur in the list `names`?
pub open spec fn names_has(names: Seq<String>, x: Seq<char>) -> bool {
    exists|k: int| 0 <= k < names.len() && (#[trigger] names[k])@ == x
}

/// Is `x` bound twice in `vars`, with the first of the two bindings
/// before position `bound`?
pub open spec fn duplicated_before(vars: Seq<KeyValue>, bound: int, x: Seq<char>) -> bool {
    exists|k1: int, k2: int|
        0 <= k1 < k2 < vars.len() && k1 < bound && (#[trigger] vars[k1].name@) == x && (
        #[trigger] vars[k2].name@) == x
}

/// Is `x` bound twice in `vars`?
pub open spec fn duplicated(vars: Seq<KeyValue>, x: Seq<char>) -> bool {
    duplicated_before(vars, vars.len() as int, x)
}

impl Environment {
    /// The names bound more than once, each reported once. The result is
    /// empty exactly when all names are distinct.
    pub fn duplicate_names(&self) -> (dups: Vec<String>)
        ensures
            forall|x: Seq<char>|
                #[trigger] names_has(dups@, x) <==> duplicated(self.variables@, x),
            forall|i: int, j: int| 0 <= i < j < dups@.len() ==> dups@[i]@ != dups@[j]@,
            (dups@.len() == 0) <==> (forall|k1: int, k2: int|
                0 <= k1 < k2 < self.variables@.len() ==> (#[trigger] self.variables@[k1].name@) != (
                #[trigger] self.variables@[k2].name@)),
    {
        let vars = &self.variables;
        let n = vars.len();
        let mut dups: Vec<String> = Vec::new();
        let mut i: usize = 0;
        while i < n
            invariant
                i <= n,
                n == vars@.len(),
                vars == self.variables,
                forall|x: Seq<char>|
                    #[trigger] names_has(dups@, x) <==> duplicated_before(vars@, i as int, x),
                forall|p: int, q: int| 0 <= p < q < dups@.len() ==> dups@[p]@ != dups@[q]@,
            decreases n - i,
        {
            let ghost x0 = vars@[i as int].name@;
            let mut seen_before = false;
            let mut j: usize = 0;
            while j < i
                invariant
                    j <= i,
                    i < n,
                    n == vars@.len(),
                    vars == self.variables,
                    seen_before == (exists|k: int|
                        0 <= k < j && (#[trigger] vars@[k].name@) == vars@[i as int].name@),
                decreases i - j,
            {
                if str_equal(vars[j].name.as_str(), vars[i].name.as_str()) {
                    seen_before = true;
                }
                j += 1;
            }
            let mut seen_after = false;
            let mut m: usize = i + 1;
            while m < n
                invariant
                    i < m <= n,
                    n == vars@.len(),
                    vars == self.variables,
                    seen_after == (exists|k: int|
                        i < k < m && (#[trigger] vars@[k].name@) == vars@[i as int].name@),
                decreases n - m,
            {
                if str_equal(vars[m].name.as_str(), vars[i].name.as_str()) {
                    seen_after = true;
                }
                m += 1;
            }
            let ghost pre = dups@;
            if !seen_before && seen_after {
                dups.push(vars[i].name.clone());
            }
            proof {
                assert forall|x: Seq<char>|
                    #[trigger] names_has(dups@, x) <==> duplicated_before(
                    vars@,
                    i as int + 1,
                    x,
                ) by {
                    if names_has(dups@, x) {
                        let k = choose|k: int| 0 <= k < dups@.len() && (#[trigger] dups@[k])@ == x;
                        if k < pre.len() {
                            assert(pre[k]@ == x);
                            assert(names_has(pre, x));
                            assert(duplicated_before(vars@, i as int, x));
                            let (k1, k2) = choose|k1: int, k2: int|
                                0 <= k1 < k2 < vars@.len() && k1 < i && (
                                #[trigger] vars@[k1].name@) == x && (#[trigger] vars@[k2].name@)
                                    == x;
                            assert(duplicated_before(vars@, i as int + 1, x));
                        } else {
                            assert(x == x0);
                            let k2 = choose|k: int|
                                i < k < n && (#[trigger] vars@[k].name@) == x0;
                            assert(0 <= i < k2 < vars@.len() && i < i + 1 && vars@[i as int].name@
                                == x && vars@[k2].name@ == x);
                            assert(duplicated_before(vars@, i as int + 1, x));
                        }
                    }
                    if duplicated_before(vars@, i as int + 1, x) {
                        let (k1, k2) = choose|k1: int, k2: int|
                            0 <= k1 < k2 < vars@.len() && k1 < i + 1 && (
                            #[trigger] vars@[k1].name@) == x && (#[trigger] vars@[k2].name@) == x;
                        if k1 < i {
                            assert(duplicated_before(vars@, i as int, x));
                            assert(names_has(pre, x));
                            let k = choose|k: int|
                                0 <= k < pre.len() && (#[trigger] pre[k])@ == x;
                            assert(dups@[k]@ == x);
                            assert(names_has(dups@, x));
                        } else {
                            assert(k1 == i && x == x0);
                            assert(i < k2 < n && vars@[k2].name@ == x0);
                            assert(seen_after);
                            if seen_before {
                                let k0 = choose|k: int|
                                    0 <= k < i && (#[trigger] vars@[k].name@) == x0;
                                assert(0 <= k0 < k2 < vars@.len() && k0 < i);
                                assert(duplicated_before(vars@, i as int, x));
                                assert(names_has(pre, x));
                                let k = choose|k: int|
                                    0 <= k < pre.len() && (#[trigger] pre[k])@ == x;
                                assert(dups@[k]@ == x);
                            } else {
                                assert(dups@[pre.len() as int]@ == x0);
                            }
                            assert(names_has(dups@, x));
                        }
                    }
                }
                if !seen_before && seen_after {
                    assert forall|p: int, q: int|
                        0 <= p < q < dups@.len() implies dups@[p]@ != dups@[q]@ by {
                        if q == pre.len() && dups@[p]@ == x0 {
                            assert(names_has(pre, x0)) by {
                                assert(pre[p]@ == x0);
                            }
                            assert(duplicated_before(vars@, i as int, x0));
                            let (k1, k2) = choose|k1: int, k2: int|
                                0 <= k1 < k2 < vars@.len() && k1 < i && (
                                #[trigger] vars@[k1].name@) == x0 && (#[trigger] vars@[k2].name@)
                                    == x0;
                            assert(exists|k: int|
                                0 <= k < i && (#[trigger] vars@[k].name@) == vars@[i as int].name@);
                        }
                    }
                }
            }
            i += 1;
        }
        proof {
            assert forall|x: Seq<char>|
                #[trigger] names_has(dups@, x) <==> duplicated(self.variables@, x) by {
                assert(duplicated_before(vars@, i as int, x) == duplicated_before(
                    vars@,
                    vars@.len() as int,
                    x,
                ));
            }
            if dups@.len() == 0 {
                assert forall|k1: int, k2: int|
                    0 <= k1 < k2 < self.variables@.len() implies (
                #[trigger] self.variables@[k1].name@) != (#[trigger] self.variables@[k2].name@) by {
                    if self.variables@[k1].name@ == self.variables@[k2].name@ {
                        let x = self.variables@[k1].name@;
                        assert(duplicated(self.variables@, x));
                        assert(names_has(dups@, x));
                        let k = choose|k: int| 0 <= k < dups@.len() && (#[trigger] dups@[k])@ == x;
                    }
                }
            } else {
                let x = dups@[0]@;
                assert(names_has(dups@, x)) by {
                    assert(dups@[0]@ == x);
                }
                let (k1, k2) = choose|k1: int, k2: int|
                    0 <= k1 < k2 < self.variables@.len() && k1 < self.variables@.len() && (
                    #[trigger] self.variables@[k1].name@) == x && (
                    #[trigger] self.variables@[k2].name@) == x;
                assert(self.variables@[k1].name@ == self.variables@[k2].name@);
            }
        }
        dups
    }
}

} // verus!
