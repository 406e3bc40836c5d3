//! A vector of groups with a strict push rule: an element joins only if
//! it passes a check against the element last pushed.

use vstd::prelude::*;

verus! {

/// The views of the groups.
pub open spec fn groups<T>(v: Seq<Vec<T>>) -> Seq<Seq<T>> {
    v.map_values(|g: Vec<T>| g@)
}

/// Groups of elements that passed a check against their predecessor.
pub struct Clump<T, C> where C: Fn(&T, &T) -> bool {
    pub check: C,
    pub elems: Vec<Vec<T>>,
}

impl<T, C> Clump<T, C> where C: Fn(&T, &T) -> bool {
    /// An empty clump with the given check.
    pub fn new(check: C) -> (r: Clump<T, C>)
        ensures
            r.check == check,
            r.elems@.len() == 0,
    {
        Clump { check, elems: Vec::new() }
    }

    /// Pushes `elem`. The first element opens a group; a later element
    /// joins the last group if the check of it against the last element
    /// holds, and is refused otherwise. Returns whether it was taken.
    pub fn push(&mut self, elem: T) -> (taken: bool)
        requires
            forall|a: &T, b: &T| old(self).check.requires((a, b)),
        ensures
            final(self).check == old(self).check,
            ({
                let o = groups(old(self).elems@);
                let f = groups(final(self).elems@);
                if o.len() == 0 {
                    taken && f == seq![seq![elem]]
                } else if taken {
                    &&& f == o.update(o.len() - 1, o.last().push(elem))
                    &&& o.last().len() > 0 ==> old(self).check.ensures((&elem, &o.last().last()), true)
                } else {
                    &&& f == o
                    &&& o.last().len() > 0
                    &&& old(self).check.ensures((&elem, &o.last().last()), false)
                }
            }),
    {
        let ghost o = groups(self.elems@);
        let n = self.elems.len();
        if n == 0 {
            let mut g: Vec<T> = Vec::new();
            g.push(elem);
            self.elems.push(g);
            proof {
                assert(groups(self.elems@) =~= seq![seq![elem]]);
            }
            return true;
        }
        let ok = {
            let last_group = &self.elems[n - 1];
            let m = last_group.len();
            if m == 0 {
                true
            } else {
                (self.check)(&elem, &last_group[m - 1])
            }
        };
        if ok {
            let mut g = self.elems.pop().unwrap();
            let ghost g0 = g@;
            g.push(elem);
            self.elems.push(g);
            proof {
                assert(g0 == o.last());
                assert(groups(self.elems@) =~= o.update(o.len() - 1, o.last().push(elem)));
            }
            true
        } else {
            false
        }
    }
}

} // verus!
