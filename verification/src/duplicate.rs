//! Copies that are known to equal what they were made from.

use vstd::prelude::*;

verus! {

/// A value that can be copied; the copy stands for the same mathematical value.
pub trait Duplicate: DeepView + Sized {
    fn duplicate(&self) -> (r: Self)
        ensures
            r.deep_view() == self.deep_view(),
    ;
}

impl Duplicate for String {
    fn duplicate(&self) -> (r: Self) {
        self.clone()
    }
}

impl Duplicate for u64 {
    fn duplicate(&self) -> (r: Self) {
        *self
    }
}

impl<T: Duplicate> Duplicate for Option<T> {
    fn duplicate(&self) -> (r: Self) {
        match self {
            Some(x) => Some(x.duplicate()),
            None => None,
        }
    }
}

impl<T: Duplicate> Duplicate for Vec<T> {
    fn duplicate(&self) -> (r: Self) {
        let n = self.len();
        let mut r: Vec<T> = Vec::new();
        let mut i: usize = 0;
        while i < n
            invariant
                n == self@.len(),
                i <= n,
                r.deep_view() == self.deep_view().take(i as int),
            decreases n - i,
        {
            let ghost done = r.deep_view();
            let x = self[i].duplicate();
            r.push(x);
            assert(r.deep_view() =~= done.push(x.deep_view()));
            assert(r.deep_view() =~= self.deep_view().take(i + 1));
            i += 1;
        }
        assert(r.deep_view() =~= self.deep_view());
        r
    }
}

} // verus!
