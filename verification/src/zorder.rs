use vstd::prelude::*;

verus! {

/// Things stacked on screen by a depth value: smaller is nearer the front.
pub trait ZOrder {
    spec fn z_key(&self) -> usize;

    fn z(&self) -> (r: usize)
        ensures
            r == self.z_key(),
    ;
}

/// `perm` maps each position of the result to the position it came from in the input.
pub open spec fn is_permutation(perm: Seq<int>, n: int) -> bool {
    &&& perm.len() == n
    &&& forall|k: int| 0 <= k < n ==> 0 <= #[trigger] perm[k] < n
    &&& forall|k: int, l: int| 0 <= k < l < n ==> perm[k] != perm[l]
}

/// A permutation of `0..n` reaches every position.
pub(crate) proof fn lemma_perm_onto(perm: Seq<int>, n: int, x: int)
    requires
        is_permutation(perm, n),
        0 <= x < n,
    ensures
        exists|k: int| 0 <= k < n && #[trigger] perm[k] == x,
{
    let dom = vstd::set_lib::set_int_range(0, n);
    let f = |k: int| perm[k];
    let img = dom.map(f);
    vstd::set_lib::lemma_int_range(0, n);
    assert(vstd::relations::injective_on(f, dom)) by {
        assert forall|a: int, b: int| dom.contains(a) && dom.contains(b) && #[trigger] f(a) == #[trigger] f(b) implies a == b by {
            if a < b {
                assert(perm[a] != perm[b]);
            } else if b < a {
                assert(perm[b] != perm[a]);
            }
        }
    }
    vstd::set_lib::lemma_map_size(dom, img, f);
    assert(img.subset_of(dom)) by {
        assert forall|y: int| img.contains(y) implies dom.contains(y) by {
            let k = choose|k: int| dom.contains(k) && y == f(k);
            assert(0 <= perm[k] < n);
        }
    }
    vstd::set_lib::lemma_subset_equality(img, dom);
    assert(dom.contains(x));
    assert(img.contains(x));
    let k = choose|k: int| dom.contains(k) && x == f(k);
    assert(perm[k] == x);
}

/// `r` is `s` stably sorted by depth: ordered by `z_key`, and items of equal depth keep the
/// order they had in `s`.
pub open spec fn stable_sorted_by_z<T: ZOrder>(s: Seq<T>, r: Seq<T>) -> bool {
    &&& r.len() == s.len()
    &&& forall|k: int, l: int| 0 <= k < l < r.len() ==> r[k].z_key() <= r[l].z_key()
    &&& exists|perm: Seq<int>|
        #[trigger] is_permutation(perm, s.len() as int) && (forall|k: int|
            0 <= k < r.len() ==> r[k] == s[#[trigger] perm[k]]) && (forall|k: int, l: int|
            0 <= k < l < r.len() && r[k].z_key() == r[l].z_key() ==> perm[k] < perm[l])
}

/// Stable insertion sort by depth.
pub fn sort_by_z<T: ZOrder + Copy, const N: usize>(a: &mut [T; N])
    ensures
        stable_sorted_by_z(old(a)@, final(a)@),
{
    let ghost s = a@;
    let ghost mut perm: Seq<int> = Seq::new(N as nat, |k: int| k);
    let mut i: usize = 1;
    if N == 0 {
        proof {
            assert(is_permutation(perm, 0));
            assert(forall|k: int| 0 <= k < a@.len() ==> a@[k] == s[#[trigger] perm[k]]);
        }
        return;
    }
    while i < N
        invariant
            1 <= i <= N,
            a@.len() == N,
            s.len() == N,
            is_permutation(perm, N as int),
            forall|k: int| 0 <= k < N ==> a@[k] == s[#[trigger] perm[k]],
            forall|k: int| i <= k < N ==> #[trigger] perm[k] == k,
            forall|k: int, l: int| 0 <= k < l < i ==> a@[k].z_key() <= a@[l].z_key(),
            forall|k: int, l: int|
                0 <= k < l < i && a@[k].z_key() == a@[l].z_key() ==> perm[k] < perm[l],
            forall|k: int| 0 <= k < i ==> #[trigger] perm[k] < i,
        decreases N - i,
    {
        let mut j = i;
        while j > 0 && a[j - 1].z() > a[j].z()
            invariant
                1 <= i < N,
                0 <= j <= i,
                a@.len() == N,
                is_permutation(perm, N as int),
                forall|k: int| 0 <= k < N ==> a@[k] == s[#[trigger] perm[k]],
                forall|k: int| i < k < N ==> #[trigger] perm[k] == k,
                perm[j as int] == i,
                forall|k: int| 0 <= k <= i && k != j ==> #[trigger] perm[k] < i,
                // the prefix without position j is sorted and stable
                forall|k: int, l: int|
                    0 <= k < l <= i && k != j && l != j ==> a@[k].z_key() <= a@[l].z_key(),
                forall|k: int, l: int|
                    0 <= k < l <= i && k != j && l != j && a@[k].z_key() == a@[l].z_key()
                        ==> perm[k] < perm[l],
                // everything after j is deeper than the moving item
                forall|l: int| j < l <= i ==> a@[j as int].z_key() < #[trigger] a@[l].z_key(),
                // and the neighbours of j are ordered
                j > 0 && j < i ==> a@[j - 1].z_key() <= a@[j + 1].z_key(),
            decreases j,
        {
            let x = a[j - 1];
            let y = a[j];
            a[j - 1] = y;
            a[j] = x;
            proof {
                let pj = perm[j as int];
                let pj1 = perm[j - 1];
                perm = perm.update(j as int, pj1).update(j - 1, pj);
            }
            j -= 1;
        }
        proof {
            assert forall|k: int, l: int| 0 <= k < l <= i implies a@[k].z_key() <= a@[l].z_key() by {
                if k == j as int {
                } else if l == j as int {
                }
            }
        }
        i += 1;
    }
    proof {
        assert(is_permutation(perm, N as int));
    }
}

} // verus!
