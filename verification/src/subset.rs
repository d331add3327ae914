//! Choosing the glyph ids a subset font keeps.

use vstd::prelude::*;

verus! {

/// Whether a glyph-id list is strictly ascending (and therefore free of
/// duplicates).
pub open spec fn strictly_sorted(s: Seq<u16>) -> bool {
    forall|i: int, j: int| 0 <= i < j < s.len() ==> s[i] < s[j]
}

/// Whether some glyph of the mapped text resolved to this glyph id.
pub open spec fn input_has(glyphs: Seq<Option<u16>>, v: u16) -> bool {
    exists|j: int| 0 <= j < glyphs.len() && glyphs[j] == Some(v)
}

/// Inserts a glyph id into a sorted list, keeping it sorted and
/// duplicate-free.
fn insert_sorted(ids: &mut Vec<u16>, v: u16)
    requires
        strictly_sorted(old(ids)@),
    ensures
        strictly_sorted(final(ids)@),
        forall|w: u16|
            final(ids)@.contains(w) <==> (old(ids)@.contains(w) || w == v),
{
    let n = ids.len();
    let mut k: usize = 0;
    while k < n && ids[k] < v
        invariant
            k <= n,
            n == ids@.len(),
            strictly_sorted(ids@),
            ids@ == old(ids)@,
            forall|j: int| 0 <= j < k ==> ids@[j] < v,
        decreases n - k,
    {
        k += 1;
    }
    if k < n && ids[k] == v {
        proof {
            assert(old(ids)@.contains(v)) by {
                assert(old(ids)@[k as int] == v);
            }
        }
        return ;
    }
    proof {
        if k < n {
            assert(ids@[k as int] > v);
        }
    }
    ids.insert(k, v);
    proof {
        let s_new = ids@;
        let s_old = old(ids)@;
        assert forall|i: int, j: int| 0 <= i < j < s_new.len() implies s_new[i] < s_new[j] by {
            if j < k {
                assert(s_new[i] == s_old[i] && s_new[j] == s_old[j]);
            } else if i > k {
                assert(s_new[i] == s_old[i - 1] && s_new[j] == s_old[j - 1]);
            } else if j == k {
                assert(s_new[i] == s_old[i] && s_new[j] == v);
            } else if i == k {
                assert(s_new[i] == v && s_new[j] == s_old[j - 1]);
                assert(s_old[j - 1] >= v);
                if j - 1 == k {
                    assert(s_old[j - 1] > v);
                } else {
                    assert(s_old[k as int] > v || k == n);
                    if k < n {
                        assert(s_old[k as int] < s_old[j - 1]);
                    } else {
                        assert(false);
                    }
                }
            } else {
                assert(s_new[i] == s_old[i] && s_new[j] == s_old[j - 1]);
                assert(i < k && j - 1 >= k);
                if i < j - 1 {
                    assert(s_old[i] < s_old[j - 1]);
                } else {
                    assert(i == j - 1 && i < k && j - 1 >= k);
                    assert(false);
                }
            }
        }
        assert forall|w: u16| s_new.contains(w) <==> (s_old.contains(w) || w == v) by {
            if s_new.contains(w) {
                let idx = choose|idx: int| 0 <= idx < s_new.len() && s_new[idx] == w;
                if idx < k {
                    assert(s_old[idx] == w);
                } else if idx == k {
                } else {
                    assert(s_old[idx - 1] == w);
                }
            }
            if s_old.contains(w) {
                let idx = choose|idx: int| 0 <= idx < s_old.len() && s_old[idx] == w;
                if idx < k {
                    assert(s_new[idx] == w);
                } else {
                    assert(s_new[idx + 1] == w);
                }
            }
            if w == v {
                assert(s_new[k as int] == w);
            }
        }
    }
}

/// The glyph ids a subset font built from the mapped text keeps: the
/// `.notdef` glyph (id 0) plus every glyph id the text resolved to, in
/// ascending order without duplicates.
pub fn subset_glyph_ids(glyphs: &Vec<Option<u16>>) -> (r: Vec<u16>)
    ensures
        strictly_sorted(r@),
        forall|v: u16| r@.contains(v) <==> (v == 0 || input_has(glyphs@, v)),
        r@.len() > 0,
{
    let mut ids: Vec<u16> = Vec::new();
    ids.push(0);
    proof {
        assert(ids@.contains(0u16)) by {
            assert(ids@[0] == 0u16);
        }
    }
    let n = glyphs.len();
    let mut j: usize = 0;
    while j < n
        invariant
            j <= n,
            n == glyphs@.len(),
            strictly_sorted(ids@),
            ids@.len() > 0,
            forall|v: u16|
                ids@.contains(v) <==> (v == 0 || exists|q: int|
                    0 <= q < j && glyphs@[q] == Some(v)),
        decreases n - j,
    {
        match glyphs[j] {
            Some(v) => {
                insert_sorted(&mut ids, v);
                proof {
                    assert(glyphs@[j as int] == Some(v));
                    assert(ids@.contains(0u16));
                    let z = choose|z: int| 0 <= z < ids@.len() && ids@[z] == 0u16;
                    assert(ids@.len() > 0);
                }
            },
            None => {},
        }
        proof {
            assert forall|v: u16|
                ids@.contains(v) <==> (v == 0 || exists|q: int|
                    0 <= q < j + 1 && glyphs@[q] == Some(v)) by {
                if ids@.contains(v) {
                }
                if v != 0 && exists|q: int| 0 <= q < j + 1 && glyphs@[q] == Some(v) {
                    let q = choose|q: int| 0 <= q < j + 1 && glyphs@[q] == Some(v);
                }
            }
        }
        j += 1;
    }
    ids
}

} // verus!
