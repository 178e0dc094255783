//! The committed dataset builds, in order.
//!
//! Build ids sort as text, and the newest build is the last one: the order
//! a directory listing happens to give is not an order anything relies on.

use vstd::prelude::*;

use crate::table::{IdMap, keys_of, lemma_keys_of, lemma_to_map_entries, strictly_sorted};
use crate::text::{owned, seq_lt, string_views, lemma_seq_lt_total};

verus! {

/// Build ids, sorted as text, each once.
pub fn sort_versions(names: &Vec<String>) -> (r: Vec<String>)
    ensures
        strictly_sorted(string_views(r@)),
        forall|k: Seq<char>| #[trigger] string_views(r@).contains(k) <==> string_views(names@).contains(k),
{
    let mut m: IdMap<String, ()> = IdMap::new();
    let mut i: usize = 0;
    while i < names.len()
        invariant
            i <= names@.len(),
            m.wf(),
            forall|k: Seq<char>| #[trigger] m.view().contains_key(k) <==> string_views(names@.subrange(0, i as int)).contains(k),
        decreases names@.len() - i,
    {
        m.insert(owned(names[i].as_str()), ());
        proof {
            let pre = string_views(names@.subrange(0, i as int));
            let next = string_views(names@.subrange(0, i + 1));
            assert(next =~= pre.push(names@[i as int]@));
            assert forall|k: Seq<char>| #[trigger] m.view().contains_key(k) <==> next.contains(k) by {
                if next.contains(k) && k != names@[i as int]@ {
                    let j = choose|j: int| 0 <= j < next.len() && next[j] == k;
                    assert(pre[j] == k);
                }
                if pre.contains(k) {
                    let j = choose|j: int| 0 <= j < pre.len() && pre[j] == k;
                    assert(next[j] == k);
                }
                if k == names@[i as int]@ {
                    assert(next[i as int] == k);
                }
            }
        }
        i = i + 1;
    }
    proof {
        assert(names@.subrange(0, names@.len() as int) =~= names@);
        lemma_keys_of(m.entries());
        lemma_to_map_entries(m.entries());
    }
    let mut out: Vec<String> = Vec::new();
    let mut j: usize = 0;
    while j < m.len()
        invariant
            j <= m.entries().len(),
            m.wf(),
            string_views(out@) == keys_of(m.entries()).subrange(0, j as int),
        decreases m.entries().len() - j,
    {
        let ghost before = string_views(out@);
        let key = m.key_at(j);
        out.push(owned(key.as_str()));
        proof {
            lemma_keys_of(m.entries());
            assert(key@ == keys_of(m.entries())[j as int]);
            assert(string_views(out@) =~= before.push(key@));
            assert(string_views(out@) =~= keys_of(m.entries()).subrange(0, j + 1));
        }
        j = j + 1;
    }
    proof {
        assert(keys_of(m.entries()).subrange(0, m.entries().len() as int) =~= keys_of(m.entries()));
        lemma_keys_of(m.entries());
        lemma_to_map_entries(m.entries());
        assert forall|k: Seq<char>| #[trigger] string_views(out@).contains(k) <==> string_views(names@).contains(k) by {
            assert(m.view().contains_key(k) <==> keys_of(m.entries()).contains(k));
        }
    }
    out
}

/// The newest build id: the last in text order, or none when there are
/// none.
pub fn newest(names: &Vec<String>) -> (r: Option<String>)
    ensures
        r is None <==> names@.len() == 0,
        r matches Some(x) ==> string_views(names@).contains(x@)
            && forall|i: int| 0 <= i < names@.len() ==> #[trigger] names@[i]@ == x@ || seq_lt(names@[i]@, x@),
{
    let sorted = sort_versions(names);
    if sorted.len() == 0 {
        proof {
            if names@.len() > 0 {
                assert(string_views(names@)[0] == names@[0]@);
                assert(string_views(names@).contains(names@[0]@));
                assert(string_views(sorted@).contains(names@[0]@));
            }
        }
        return None;
    }
    let last = owned(sorted[sorted.len() - 1].as_str());
    proof {
        let sv = string_views(sorted@);
        let n = sv.len() - 1;
        assert(sv[n] == last@);
        assert(sv.contains(last@));
        assert(string_views(sorted@).contains(last@));
        assert forall|i: int| 0 <= i < names@.len() implies #[trigger] names@[i]@ == last@ || seq_lt(names@[i]@, last@) by {
            assert(string_views(names@)[i] == names@[i]@);
            assert(string_views(names@).contains(names@[i]@));
            assert(string_views(sorted@).contains(names@[i]@));
            let w = choose|w: int| 0 <= w < sv.len() && sv[w] == names@[i]@;
            if w < n {
                assert(seq_lt(sv[w], sv[n]));
            }
        }
    }
    Some(last)
}

} // verus!
